use vstd::prelude::*;
use crate::bytes::{starts_with, ends_with, copy_range, has_prefix, has_suffix};
use crate::error::AcquireError;
use crate::odc::{parse_odc, odc_records, OdcRecord, records_view};

verus! {

/// What the gzip decoder makes of a byte stream: the decoded bytes, or `None` for
/// a malformed stream.
pub uninterp spec fn gunzip_of(b: Seq<u8>) -> Option<Seq<u8>>;

/// The members of a tar archive, each as its path and its contents, or `None`
/// for a malformed archive.
pub uninterp spec fn tar_members_of(b: Seq<u8>) -> Option<Seq<(Seq<u8>, Seq<u8>)>>;

/// Relies on flate2::read::GzDecoder read to its end: it decodes the gzip stream
/// in `b` or fails, and what it gives depends on the bytes alone.
#[verifier::external_body]
pub(crate) fn gunzip(b: &[u8]) -> (r: Option<Vec<u8>>)
    ensures
        match r {
            Some(v) => gunzip_of(b@) == Some(v@),
            None => gunzip_of(b@) is None,
        },
{
    let mut out: Vec<u8> = Vec::new();
    match std::io::Read::read_to_end(&mut flate2::read::GzDecoder::new(b), &mut out) {
        Ok(_) => Some(out),
        Err(_) => None,
    }
}

/// Relies on tar::Archive::entries, tar::Entry::path_bytes and reading each entry
/// to its end: the members in archive order, or a failure for a malformed
/// archive; what it gives depends on the bytes alone.
#[verifier::external_body]
fn tar_members(b: &[u8]) -> (r: Option<Vec<(Vec<u8>, Vec<u8>)>>)
    ensures
        match r {
            Some(v) => tar_members_of(b@) == Some(members_view(v@)),
            None => tar_members_of(b@) is None,
        },
{
    let mut out: Vec<(Vec<u8>, Vec<u8>)> = Vec::new();
    let mut archive = tar::Archive::new(b);
    for entry in archive.entries().ok()? {
        let mut e = entry.ok()?;
        let mut data: Vec<u8> = Vec::new();
        std::io::Read::read_to_end(&mut e, &mut data).ok()?;
        out.push((e.path_bytes().into_owned(), data));
    }
    Some(out)
}

pub open spec fn members_view(v: Seq<(Vec<u8>, Vec<u8>)>) -> Seq<(Seq<u8>, Seq<u8>)> {
    v.map_values(|m: (Vec<u8>, Vec<u8>)| (m.0@, m.1@))
}

/// A file to write under the install directory: its relative path, its contents,
/// and whether it is to be made executable (it is a binary candidate).
#[derive(Debug)]
pub struct ExtractedFile {
    pub path: Vec<u8>,
    pub data: Vec<u8>,
    pub executable: bool,
}

/// The files an archive unpacks to, in order, and the index of the one that is
/// the tool binary.
#[derive(Debug)]
pub struct Extraction {
    pub files: Vec<ExtractedFile>,
    pub binary: usize,
}

pub type FileView = (Seq<u8>, Seq<u8>, bool);

impl ExtractedFile {
    pub open spec fn view(&self) -> FileView {
        (self.path@, self.data@, self.executable)
    }
}

pub open spec fn files_view(v: Seq<ExtractedFile>) -> Seq<FileView> {
    v.map_values(|f: ExtractedFile| f.view())
}

/// An extraction as plain values: the files, and the index of the binary.
pub open spec fn extraction_view(r: Result<Extraction, AcquireError>) -> Result<(Seq<FileView>, nat), AcquireError> {
    match r {
        Ok(e) => Ok((files_view(e.files@), e.binary as nat)),
        Err(err) => Err(err),
    }
}

/// The index of the last binary candidate among `files`.
pub open spec fn last_candidate(files: Seq<FileView>) -> Option<nat>
    decreases files.len(),
{
    if files.len() == 0 {
        None
    } else if files.last().2 {
        Some((files.len() - 1) as nat)
    } else {
        last_candidate(files.drop_last())
    }
}

/// The plan for a list of files: the files, with the last binary candidate as the
/// binary; an error when there is none.
pub open spec fn plan_of(files: Seq<FileView>) -> Result<(Seq<FileView>, nat), AcquireError> {
    match last_candidate(files) {
        Some(i) => Ok((files, i)),
        None => Err(AcquireError::BinaryNotFound),
    }
}

/// The files of a tar archive: each member at its own path, a candidate when its
/// path starts with the tool's name.
pub open spec fn tar_files(members: Seq<(Seq<u8>, Seq<u8>)>, tool: Seq<u8>) -> Seq<FileView> {
    members.map_values(|m: (Seq<u8>, Seq<u8>)| (m.0, m.1, has_prefix(m.0, tool)))
}

pub open spec fn gzip_tar_plan(b: Seq<u8>, tool: Seq<u8>) -> Result<(Seq<FileView>, nat), AcquireError> {
    match gunzip_of(b) {
        None => Err(AcquireError::ArchiveFormat),
        Some(t) => match tar_members_of(t) {
            None => Err(AcquireError::ArchiveFormat),
            Some(m) => plan_of(tar_files(m, tool)),
        },
    }
}

proof fn lemma_last_candidate(files: Seq<FileView>)
    ensures
        match last_candidate(files) {
            Some(i) => i < files.len() && files[i as int].2
                && forall|j: int| i < j < files.len() ==> !files[j].2,
            None => forall|j: int| 0 <= j < files.len() ==> !files[j].2,
        },
    decreases files.len(),
{
    if files.len() > 0 && !files.last().2 {
        lemma_last_candidate(files.drop_last());
        let d = files.drop_last();
        assert(forall|j: int| 0 <= j < d.len() ==> d[j] == files[j]);
    }
}

/// Picks the binary of a list of files to write: the last candidate.
fn choose_binary(files: Vec<ExtractedFile>) -> (r: Result<Extraction, AcquireError>)
    ensures
        extraction_view(r) == plan_of(files_view(files@)),
{
    let n = files.len();
    let mut i: usize = n;
    proof {
        lemma_last_candidate(files_view(files@));
    }
    while i > 0
        invariant
            i <= n == files@.len(),
            forall|j: int| i <= j < n ==> !files@[j].executable,
        decreases i,
    {
        if files[i - 1].executable {
            proof {
                let fv = files_view(files@);
                lemma_last_candidate(fv);
                assert(fv.len() == n);
                assert(fv[i - 1].2);
                assert forall|j: int| i <= j < n implies !fv[j].2 by {
                    assert(fv[j] == files@[j].view());
                }
                match last_candidate(fv) {
                    Some(k) => {
                        if k < i - 1 {
                            assert(!fv[i - 1].2);
                        }
                        if k >= i {
                            assert(!fv[k as int].2);
                        }
                    },
                    None => {
                        assert(0 <= i - 1 < fv.len());
                        assert(!fv[i - 1].2);
                    },
                }
            }
            return Ok(Extraction { files, binary: i - 1 });
        }
        i = i - 1;
    }
    proof {
        let fv = files_view(files@);
        lemma_last_candidate(fv);
        if last_candidate(fv) is Some {
            let k = last_candidate(fv).unwrap();
            assert(fv[k as int].2);
            assert(fv[k as int] == files@[k as int].view());
        }
    }
    Err(AcquireError::BinaryNotFound)
}

/// Plans the unpacking of the members of a tar archive: each member is written at
/// its path, those whose path starts with `tool` are candidates, and the last
/// candidate is the binary.
pub fn plan_tar(members: Vec<(Vec<u8>, Vec<u8>)>, tool: &[u8]) -> (r: Result<Extraction, AcquireError>)
    ensures
        extraction_view(r) == plan_of(tar_files(members_view(members@), tool@)),
{
    let ghost mv = members_view(members@);
    let n = members.len();
    let mut files: Vec<ExtractedFile> = Vec::new();
    let mut rest = members;
    // members are taken from the back, so collect them reversed first
    let mut stack: Vec<(Vec<u8>, Vec<u8>)> = Vec::new();
    while rest.len() > 0
        invariant
            n == mv.len(),
            rest@.len() + stack@.len() == n,
            forall|j: int| 0 <= j < rest@.len() ==> (#[trigger] rest@[j]).0@ == mv[j].0 && rest@[j].1@ == mv[j].1,
            forall|j: int| 0 <= j < stack@.len() ==> (#[trigger] stack@[j]).0@ == mv[n - 1 - j].0
                && stack@[j].1@ == mv[n - 1 - j].1,
        decreases rest.len(),
    {
        let m = rest.pop().unwrap();
        stack.push(m);
    }
    let mut i: usize = 0;
    while i < n
        invariant
            n == mv.len(),
            i <= n,
            stack@.len() == n - i,
            forall|j: int| 0 <= j < stack@.len() ==> (#[trigger] stack@[j]).0@ == mv[n - 1 - j].0
                && stack@[j].1@ == mv[n - 1 - j].1,
            files_view(files@) == tar_files(mv.take(i as int), tool@),
        decreases n - i,
    {
        let (path, data) = stack.pop().unwrap();
        let executable = starts_with(path.as_slice(), tool);
        let ghost before = files@;
        files.push(ExtractedFile { path, data, executable });
        proof {
            assert(files_view(files@) =~= files_view(before).push(files@.last().view()));
            assert(tar_files(mv.take(i + 1), tool@) =~= tar_files(mv.take(i as int), tool@).push(
                (mv[i as int].0, mv[i as int].1, has_prefix(mv[i as int].0, tool@))));
        }
        i = i + 1;
    }
    assert(mv.take(n as int) =~= mv);
    choose_binary(files)
}

/// Unpacks a gzip-compressed tar archive: the files it holds and the binary among
/// them; a malformed stream or archive is an `ArchiveFormat` error, an archive
/// without a candidate a `BinaryNotFound` error.
pub fn extract_gzip_tar(bytes: &[u8], tool: &[u8]) -> (r: Result<Extraction, AcquireError>)
    ensures
        extraction_view(r) == gzip_tar_plan(bytes@, tool@),
{
    let tar = match gunzip(bytes) {
        Some(t) => t,
        None => {
            return Err(AcquireError::ArchiveFormat);
        },
    };
    match tar_members(tar.as_slice()) {
        Some(members) => plan_tar(members, tool),
        None => Err(AcquireError::ArchiveFormat),
    }
}

/// Where the last `/` of a path stands, or -1 where it holds none.
pub open spec fn last_slash(p: Seq<u8>) -> int
    decreases p.len(),
{
    if p.len() == 0 {
        -1
    } else if p.last() == 47 {
        p.len() - 1
    } else {
        last_slash(p.drop_last())
    }
}

/// The last component of a path: what follows its last `/`.
pub open spec fn file_name(p: Seq<u8>) -> Seq<u8> {
    p.subrange(last_slash(p) + 1, p.len() as int)
}

proof fn lemma_last_slash(p: Seq<u8>)
    ensures
        -1 <= last_slash(p) < p.len(),
    decreases p.len(),
{
    if p.len() > 0 && p.last() != 47 {
        lemma_last_slash(p.drop_last());
    }
}

/// The last component of the path `p`.
pub fn file_name_of(p: &[u8]) -> (r: Vec<u8>)
    ensures
        r@ == file_name(p@),
{
    let n = p.len();
    let mut j: usize = n;
    assert(p@.take(n as int) =~= p@);
    while j > 0
        invariant
            j <= n == p@.len(),
            last_slash(p@) == last_slash(p@.take(j as int)),
        ensures
            j <= n,
            last_slash(p@) == last_slash(p@.take(j as int)),
            j > 0 ==> p@[j - 1] == 47,
        decreases j,
    {
        if p[j - 1] == 47 {
            break;
        }
        assert(p@.take(j as int).drop_last() =~= p@.take(j - 1));
        j = j - 1;
    }
    proof {
        if j == 0 {
            assert(p@.take(0) =~= Seq::<u8>::empty());
        } else {
            assert(p@.take(j as int).last() == p@[j - 1]);
        }
        lemma_last_slash(p@);
    }
    copy_range(p, j, n)
}

/// Whether a record of a package payload names the tool: its name starts or ends
/// with the tool's name.
pub open spec fn names_tool(name: Seq<u8>, tool: Seq<u8>) -> bool {
    has_prefix(name, tool) || has_suffix(name, tool)
}

/// The files of a payload's records: a record that holds no bytes gives no file;
/// any other is written under the last component of its name, with exactly its
/// declared bytes, and is a candidate when its name names the tool.
pub open spec fn odc_files(s: Seq<u8>, recs: Seq<(Seq<u8>, nat, nat)>, tool: Seq<u8>) -> Seq<FileView>
    decreases recs.len(),
{
    if recs.len() == 0 {
        Seq::empty()
    } else {
        let prev = odc_files(s, recs.drop_last(), tool);
        let r = recs.last();
        if r.2 == 0 {
            prev
        } else {
            prev.push((file_name(r.0), s.subrange(r.1 as int, (r.1 + r.2) as int), names_tool(r.0, tool)))
        }
    }
}

pub open spec fn payload_plan(p: Seq<u8>, tool: Seq<u8>) -> Result<(Seq<FileView>, nat), AcquireError> {
    match odc_records(p) {
        None => Err(AcquireError::ArchiveFormat),
        Some(recs) => plan_of(odc_files(p, recs, tool)),
    }
}

/// Plans the unpacking of a decompressed package payload, a stream of odc records;
/// a malformed stream is an `ArchiveFormat` error, one without a candidate a
/// `BinaryNotFound` error.
pub fn plan_payload(payload: &[u8], tool: &[u8]) -> (r: Result<Extraction, AcquireError>)
    ensures
        extraction_view(r) == payload_plan(payload@, tool@),
{
    let recs = match parse_odc(payload) {
        Some(v) => v,
        None => {
            return Err(AcquireError::ArchiveFormat);
        },
    };
    let ghost rv = records_view(recs@);
    proof {
        crate::odc::lemma_records_in_bounds(payload@, 0);
    }
    let n = recs.len();
    let plen = payload.len();
    let mut files: Vec<ExtractedFile> = Vec::new();
    let mut i: usize = 0;
    assert(rv.take(0) =~= Seq::<(Seq<u8>, nat, nat)>::empty());
    while i < n
        invariant
            n == recs@.len() == rv.len(),
            plen == payload@.len(),
            i <= n,
            rv == records_view(recs@),
            forall|j: int| 0 <= j < rv.len() ==> rv[j].1 + rv[j].2 <= payload@.len(),
            files_view(files@) == odc_files(payload@, rv.take(i as int), tool@),
        decreases n - i,
    {
        let rec: &OdcRecord = &recs[i];
        assert(rv[i as int] == rec.view());
        assert(rv[i as int].1 + rv[i as int].2 <= payload@.len());
        assert(rv.take(i + 1).drop_last() =~= rv.take(i as int));
        if rec.size > 0 {
            let path = file_name_of(rec.name.as_slice());
            let data = copy_range(payload, rec.data_start, rec.data_start + rec.size);
            let executable = starts_with(rec.name.as_slice(), tool) || ends_with(rec.name.as_slice(), tool);
            let ghost before = files@;
            files.push(ExtractedFile { path, data, executable });
            assert(files_view(files@) =~= files_view(before).push(files@.last().view()));
        }
        i = i + 1;
    }
    assert(rv.take(n as int) =~= rv);
    choose_binary(files)
}

proof fn lemma_no_candidate(files: Seq<FileView>)
    requires
        forall|j: int| 0 <= j < files.len() ==> !(#[trigger] files[j]).2,
    ensures
        last_candidate(files) is None,
    decreases files.len(),
{
    if files.len() > 0 {
        let d = files.drop_last();
        assert(forall|j: int| 0 <= j < d.len() ==> d[j] == files[j]);
        lemma_no_candidate(d);
    }
}

/// A gzip-compressed tar archive whose only member is the tool, under its own
/// name, unpacks to exactly that member's bytes at that name, made executable, and
/// it is the binary.
pub proof fn lemma_tar_single_member(b: Seq<u8>, tool: Seq<u8>, data: Seq<u8>)
    requires
        gunzip_of(b) matches Some(t) && tar_members_of(t) == Some(seq![(tool, data)]),
    ensures
        gzip_tar_plan(b, tool) == Ok::<(Seq<FileView>, nat), AcquireError>((seq![(tool, data, true)], 0nat)),
{
    let files = tar_files(seq![(tool, data)], tool);
    assert(tool.subrange(0, tool.len() as int) =~= tool);
    assert(files =~= seq![(tool, data, true)]);
    assert(files.drop_last() =~= Seq::<FileView>::empty());
}

/// A payload whose one record names the tool unpacks to a single file holding
/// exactly that record's declared bytes, under the last component of its name, and
/// it is the binary.
pub proof fn lemma_payload_single_record(p: Seq<u8>, name: Seq<u8>, start: nat, len: nat, tool: Seq<u8>)
    requires
        len > 0,
        start + len <= p.len(),
        names_tool(name, tool),
    ensures
        plan_of(odc_files(p, seq![(name, start, len)], tool)) == Ok::<(Seq<FileView>, nat), AcquireError>(
            (seq![(file_name(name), p.subrange(start as int, (start + len) as int), true)], 0nat)),
{
    let recs = seq![(name, start, len)];
    assert(recs.drop_last() =~= Seq::<(Seq<u8>, nat, nat)>::empty());
    assert(odc_files(p, Seq::empty(), tool) == Seq::<FileView>::empty());
    assert(recs.last() == (name, start, len));
    let files = odc_files(p, recs, tool);
    assert(files =~= seq![(file_name(name), p.subrange(start as int, (start + len) as int), true)]);
    assert(files.drop_last() =~= Seq::<FileView>::empty());
}

/// A record that holds no bytes adds no file to what a payload unpacks to.
pub proof fn lemma_empty_record_no_file(p: Seq<u8>, recs: Seq<(Seq<u8>, nat, nat)>, name: Seq<u8>, start: nat, tool: Seq<u8>)
    ensures
        odc_files(p, recs.push((name, start, 0nat)), tool) == odc_files(p, recs, tool),
{
    assert(recs.push((name, start, 0nat)).drop_last() =~= recs);
}

proof fn lemma_odc_files_flags(p: Seq<u8>, recs: Seq<(Seq<u8>, nat, nat)>, tool: Seq<u8>)
    requires
        forall|j: int| 0 <= j < recs.len() && (#[trigger] recs[j]).2 > 0 ==> !names_tool(recs[j].0, tool),
    ensures
        forall|j: int| 0 <= j < odc_files(p, recs, tool).len() ==> !(#[trigger] odc_files(p, recs, tool)[j]).2,
    decreases recs.len(),
{
    if recs.len() > 0 {
        let d = recs.drop_last();
        assert(forall|j: int| 0 <= j < d.len() ==> d[j] == recs[j]);
        lemma_odc_files_flags(p, d, tool);
        assert(recs.last() == recs[recs.len() - 1]);
        let prev = odc_files(p, d, tool);
        let all = odc_files(p, recs, tool);
        assert forall|j: int| 0 <= j < all.len() implies !(#[trigger] all[j]).2 by {
            if j < prev.len() {
                assert(all[j] == prev[j]);
            }
        }
    }
}

/// A well-formed payload in which no record that holds bytes names the tool is a
/// `BinaryNotFound` error, never an empty path.
pub proof fn lemma_payload_without_binary(p: Seq<u8>, tool: Seq<u8>)
    requires
        odc_records(p) matches Some(recs) && forall|j: int|
            0 <= j < recs.len() && (#[trigger] recs[j]).2 > 0 ==> !names_tool(recs[j].0, tool),
    ensures
        payload_plan(p, tool) == Err::<(Seq<FileView>, nat), AcquireError>(AcquireError::BinaryNotFound),
{
    let recs = odc_records(p).unwrap();
    lemma_odc_files_flags(p, recs, tool);
    lemma_no_candidate(odc_files(p, recs, tool));
}

} // verus!
