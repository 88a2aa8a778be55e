use vstd::prelude::*;
use crate::cache::{cache_hit, is_installed_binary, lemma_cache_hit};
use crate::error::AcquireError;

verus! {

/// Where an acquisition of the tool binary stands.
#[derive(Debug, Clone, Copy, PartialEq, Eq, Structural)]
pub enum Stage {
    /// The install directory is to be probed.
    Start,
    /// The asset is being downloaded.
    Fetching,
    /// The downloaded asset is being unpacked.
    Extracting,
    /// The binary was found installed; nothing was fetched.
    Cached,
    /// The binary was fetched and installed.
    Installed,
    /// A step failed; no further step runs.
    Failed(AcquireError),
}

/// What the outside world reports back after an action.
#[derive(Debug, Clone, Copy, PartialEq, Eq, Structural)]
pub enum Event {
    /// The probe finished; whether it found the binary.
    Probed(bool),
    ProbeFailed,
    Fetched,
    FetchFailed,
    Extracted,
    ExtractFailed(AcquireError),
}

/// What to do next.
#[derive(Debug, Clone, Copy, PartialEq, Eq, Structural)]
pub enum Action {
    Probe,
    Fetch,
    Extract,
    /// Acquisition is over and the binary is in place.
    Finish,
    /// Acquisition is over and failed with this error.
    Abort(AcquireError),
}

/// The action that a stage calls for when no event moves it.
pub open spec fn pending(s: Stage) -> Action {
    match s {
        Stage::Start => Action::Probe,
        Stage::Fetching => Action::Fetch,
        Stage::Extracting => Action::Extract,
        Stage::Cached | Stage::Installed => Action::Finish,
        Stage::Failed(e) => Action::Abort(e),
    }
}

/// The transitions of an acquisition: a probe that finds the binary ends it at
/// once, a miss leads to a fetch and then to unpacking, and the first failure ends
/// it with that failure. An event that does not fit the stage changes nothing.
pub open spec fn next(s: Stage, e: Event) -> (Stage, Action) {
    match (s, e) {
        (Stage::Start, Event::Probed(true)) => (Stage::Cached, Action::Finish),
        (Stage::Start, Event::Probed(false)) => (Stage::Fetching, Action::Fetch),
        (Stage::Start, Event::ProbeFailed) => (
            Stage::Failed(AcquireError::DirectoryRead),
            Action::Abort(AcquireError::DirectoryRead),
        ),
        (Stage::Fetching, Event::Fetched) => (Stage::Extracting, Action::Extract),
        (Stage::Fetching, Event::FetchFailed) => (
            Stage::Failed(AcquireError::NetworkFetch),
            Action::Abort(AcquireError::NetworkFetch),
        ),
        (Stage::Extracting, Event::Extracted) => (Stage::Installed, Action::Finish),
        (Stage::Extracting, Event::ExtractFailed(err)) => (Stage::Failed(err), Action::Abort(err)),
        _ => (s, pending(s)),
    }
}

/// The stage an acquisition begins in, and its first action.
pub fn begin() -> (r: (Stage, Action))
    ensures
        r == (Stage::Start, Action::Probe),
{
    (Stage::Start, Action::Probe)
}

/// Moves an acquisition on by one event.
pub fn step(s: Stage, e: Event) -> (r: (Stage, Action))
    ensures
        r == next(s, e),
{
    let hold = match s {
        Stage::Start => Action::Probe,
        Stage::Fetching => Action::Fetch,
        Stage::Extracting => Action::Extract,
        Stage::Cached | Stage::Installed => Action::Finish,
        Stage::Failed(err) => Action::Abort(err),
    };
    match (s, e) {
        (Stage::Start, Event::Probed(true)) => (Stage::Cached, Action::Finish),
        (Stage::Start, Event::Probed(false)) => (Stage::Fetching, Action::Fetch),
        (Stage::Start, Event::ProbeFailed) => (
            Stage::Failed(AcquireError::DirectoryRead),
            Action::Abort(AcquireError::DirectoryRead),
        ),
        (Stage::Fetching, Event::Fetched) => (Stage::Extracting, Action::Extract),
        (Stage::Fetching, Event::FetchFailed) => (
            Stage::Failed(AcquireError::NetworkFetch),
            Action::Abort(AcquireError::NetworkFetch),
        ),
        (Stage::Extracting, Event::Extracted) => (Stage::Installed, Action::Finish),
        (Stage::Extracting, Event::ExtractFailed(err)) => (Stage::Failed(err), Action::Abort(err)),
        _ => (s, hold),
    }
}

/// Whether a stage has ended the acquisition.
pub open spec fn is_terminal(s: Stage) -> bool {
    s is Cached || s is Installed || s is Failed
}

/// A stage that has ended stays where it is, whatever is reported.
pub proof fn lemma_terminal_stays(s: Stage, e: Event)
    requires
        is_terminal(s),
    ensures
        next(s, e).0 == s,
        next(s, e).1 != Action::Fetch,
{
}

/// Acquiring a second time into a directory that holds the installed binary (a
/// regular file under the expected name) performs no fetch: the probe finds the
/// binary, the acquisition ends as cached, and no later report starts a fetch.
pub proof fn lemma_second_acquisition_skips_fetch(
    entries: Seq<(Seq<char>, bool)>,
    expected: Seq<char>,
    i: int,
    later: Event,
)
    requires
        0 <= i < entries.len(),
        entries[i] == (expected, true),
    ensures
        cache_hit(entries, expected) is Some,
        next(Stage::Start, Event::Probed(cache_hit(entries, expected) is Some)) == (Stage::Cached, Action::Finish),
        next(Stage::Cached, later) == (Stage::Cached, Action::Finish),
{
    lemma_cache_hit(entries, expected);
    assert(is_installed_binary(entries[i], expected));
}

} // verus!
