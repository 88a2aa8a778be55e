use vstd::prelude::*;

pub mod acquire;
pub mod archive;
pub mod bytes;
pub mod cache;
pub mod error;
pub mod odc;
pub mod platform;
pub mod version;
pub mod xar;

verus! {

/// std::path::PathBuf, held by the builder as an opaque value: nothing is assumed
/// of its contents.
#[verifier::external_type_specification]
#[verifier::external_body]
pub struct ExPathBuf(std::path::PathBuf);

/// Settings for a site build with the installed binary: the binary's path, and the
/// source and output directories when they were set.
#[derive(Debug, Default)]
pub struct HugoBuilder {
    /// path to the hugo binary
    binary: std::path::PathBuf,
    /// source directory
    input_path: Option<std::path::PathBuf>,
    /// target directory
    output_path: Option<std::path::PathBuf>,
}

impl HugoBuilder {
    pub closed spec fn spec_binary(&self) -> std::path::PathBuf {
        self.binary
    }

    pub closed spec fn spec_input(&self) -> Option<std::path::PathBuf> {
        self.input_path
    }

    pub closed spec fn spec_output(&self) -> Option<std::path::PathBuf> {
        self.output_path
    }

    /// A builder for the binary at `binary`, with neither directory set.
    pub fn new(binary: std::path::PathBuf) -> (r: HugoBuilder)
        ensures
            r.spec_binary() == binary,
            r.spec_input() is None,
            r.spec_output() is None,
    {
        HugoBuilder { binary, input_path: None, output_path: None }
    }

    /// defines source directory for the hugo build
    pub fn with_input(self, path: std::path::PathBuf) -> (r: HugoBuilder)
        ensures
            r.spec_binary() == self.spec_binary(),
            r.spec_input() == Some(path),
            r.spec_output() == self.spec_output(),
    {
        let mut cpy = self;
        cpy.input_path = Some(path);
        cpy
    }

    /// defines target directory for the hugo build
    pub fn with_output(self, path: std::path::PathBuf) -> (r: HugoBuilder)
        ensures
            r.spec_binary() == self.spec_binary(),
            r.spec_input() == self.spec_input(),
            r.spec_output() == Some(path),
    {
        let mut cpy = self;
        cpy.output_path = Some(path);
        cpy
    }

    /// The path of the binary.
    pub fn binary(&self) -> (r: &std::path::PathBuf)
        ensures
            *r == self.spec_binary(),
    {
        &self.binary
    }

    /// The source directory, where one was set.
    pub fn input_path(&self) -> (r: &Option<std::path::PathBuf>)
        ensures
            *r == self.spec_input(),
    {
        &self.input_path
    }

    /// The output directory, where one was set.
    pub fn output_path(&self) -> (r: &Option<std::path::PathBuf>)
        ensures
            *r == self.spec_output(),
    {
        &self.output_path
    }
}

} // verus!
