//! Command-line options and the working context derived from them.

use vstd::prelude::*;

use crate::shim::storage::path_in;
use crate::text::join_path;

verus! {

/// Options of the host/XPU shim.
#[derive(Debug)]
pub struct Options {
    /// The address of the CRI server in the XPU.
    pub xpu_address: String,
}

/// The commands of the `chariot` tool.
#[derive(Debug)]
pub enum Commands {
    /// Run a container directly, from the YAML file `file`.
    Runc { file: String },
    /// Run a Pod directly.
    Runp,
    /// Start a CRI service.
    Start,
}

/// Options of the `chariot` tool.
#[derive(Debug)]
pub struct ChariotOptions {
    /// The work directory of Chariot.
    pub work_dir: String,
    pub command: Commands,
}

/// Where Chariot keeps its files.
#[derive(Clone, Debug)]
pub struct Context {
    pub work_dir: String,
}

impl PartialEq for Context {
    fn eq(&self, other: &Context) -> (r: bool) {
        self.work_dir == other.work_dir
    }
}

impl vstd::std_specs::cmp::PartialEqSpecImpl for Context {
    open spec fn obeys_eq_spec() -> bool {
        true
    }

    open spec fn eq_spec(&self, other: &Context) -> bool {
        self.work_dir@ == other.work_dir@
    }
}

impl<'a> From<&'a ChariotOptions> for Context {
    fn from(o: &'a ChariotOptions) -> (c: Context) {
        Context { work_dir: o.work_dir.clone() }
    }
}

impl<'a> vstd::std_specs::convert::FromSpecImpl<&'a ChariotOptions> for Context {
    open spec fn obeys_from_spec() -> bool {
        true
    }

    open spec fn from_spec(o: &'a ChariotOptions) -> Context {
        Context { work_dir: o.work_dir }
    }
}

impl Context {
    /// The work directory.
    pub fn work_dir(&self) -> (s: String)
        ensures
            s@ == self.work_dir@,
    {
        self.work_dir.clone()
    }

    /// Where images are kept: `<work_dir>/images`.
    pub fn image_dir(&self) -> (s: String)
        ensures
            s@ == path_in(self.work_dir@, "images"@),
    {
        join_path(self.work_dir.as_str(), "images")
    }

    /// Where containers are kept: `<work_dir>/containers`.
    pub fn container_dir(&self) -> (s: String)
        ensures
            s@ == path_in(self.work_dir@, "containers"@),
    {
        join_path(self.work_dir.as_str(), "containers")
    }
}

/// Images and containers are kept in two different directories, both directly
/// under the work directory.
pub proof fn law_context_dirs_are_distinct(work_dir: Seq<char>)
    ensures
        path_in(work_dir, "images"@) != path_in(work_dir, "containers"@),
        path_in(work_dir, "images"@).subrange(0, work_dir.len() as int) == work_dir,
        path_in(work_dir, "containers"@).subrange(0, work_dir.len() as int) == work_dir,
{
    reveal_strlit("images");
    reveal_strlit("containers");
    assert(path_in(work_dir, "images"@).len() != path_in(work_dir, "containers"@).len());
    assert(path_in(work_dir, "images"@).subrange(0, work_dir.len() as int) =~= work_dir);
    assert(path_in(work_dir, "containers"@).subrange(0, work_dir.len() as int) =~= work_dir);
}

} // verus!
