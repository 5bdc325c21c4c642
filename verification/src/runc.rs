//! What running a container directly decides before it touches the system:
//! the user-namespace mapping files and their contents, the cgroup
//! membership file, the image layer files, the command to execute, and the
//! netlink port of the process.

use vstd::prelude::*;
use vstd::string::*;

use crate::shim::storage::path_in;
use crate::text::{decimal, format_i32, format_u32, join_path, signed_decimal};

verus! {

/// A file to write and what to write into it.
#[derive(Debug)]
pub struct FileWrite {
    pub path: String,
    pub contents: String,
}

/// `/proc/<pid>/<name>`.
pub open spec fn proc_file(pid: int, name: Seq<char>) -> Seq<char> {
    "/proc/"@ + signed_decimal(pid) + seq!['/'] + name
}

/// A one-line id map that maps id 0 inside the namespace to `id` outside it.
pub open spec fn root_mapping(id: nat) -> Seq<char> {
    "0 "@ + decimal(id) + " 1"@
}

fn proc_path(pid: i32, name: &str) -> (s: String)
    ensures
        s@ == proc_file(pid as int, name@),
{
    let mut s = "/proc/".to_owned();
    let digits = format_i32(pid);
    s.append(digits.as_str());
    join_path(s.as_str(), name)
}

/// The mapping line `0 <id> 1`.
pub fn root_mapping_line(id: u32) -> (s: String)
    ensures
        s@ == root_mapping(id as nat),
{
    let mut s = "0 ".to_owned();
    let digits = format_u32(id);
    s.append(digits.as_str());
    s.append(" 1");
    s
}

/// The writes that map root in the user namespace of process `pid` to the
/// calling user `uid` and group `gid`, in the order they must happen: the
/// user map, then `deny` to `setgroups` (without which an unprivileged caller
/// cannot map groups), then the group map.
pub fn user_mapping_writes(pid: i32, uid: u32, gid: u32) -> (w: Vec<FileWrite>)
    ensures
        w.len() == 3,
        w@[0].path@ == proc_file(pid as int, "uid_map"@),
        w@[0].contents@ == root_mapping(uid as nat),
        w@[1].path@ == proc_file(pid as int, "setgroups"@),
        w@[1].contents@ == "deny"@,
        w@[2].path@ == proc_file(pid as int, "gid_map"@),
        w@[2].contents@ == root_mapping(gid as nat),
{
    let mut w: Vec<FileWrite> = Vec::new();
    w.push(FileWrite { path: proc_path(pid, "uid_map"), contents: root_mapping_line(uid) });
    w.push(FileWrite { path: proc_path(pid, "setgroups"), contents: "deny".to_owned() });
    w.push(FileWrite { path: proc_path(pid, "gid_map"), contents: root_mapping_line(gid) });
    w
}

/// The write that moves process `pid` into the cgroup at `root`: its id, in
/// decimal, into `<root>/cgroup.procs`.
pub fn cgroup_procs_write(root: &str, pid: i32) -> (w: FileWrite)
    ensures
        w.path@ == path_in(root@, "cgroup.procs"@),
        w.contents@ == signed_decimal(pid as int),
{
    FileWrite { path: join_path(root, "cgroup.procs"), contents: format_i32(pid) }
}

/// The archive files of an image's layers, `<image_dir>/<digest>`, in layer order.
pub fn layer_paths(image_dir: &str, digests: &Vec<String>) -> (v: Vec<String>)
    ensures
        v.len() == digests.len(),
        forall|i: int| 0 <= i < v.len() ==> #[trigger] v@[i]@ == path_in(image_dir@, digests@[i]@),
{
    let mut v: Vec<String> = Vec::new();
    let mut i: usize = 0;
    while i < digests.len()
        invariant
            i <= digests.len(),
            v.len() == i,
            forall|j: int| 0 <= j < i ==> #[trigger] v@[j]@ == path_in(image_dir@, digests@[j]@),
        decreases digests.len() - i,
    {
        v.push(join_path(image_dir, digests[i].as_str()));
        i = i + 1;
    }
    v
}

/// Whether `s` holds a NUL character, which a C string cannot.
pub fn has_nul(s: &str) -> (b: bool)
    ensures
        b == s@.contains('\0'),
{
    let n: usize = s.unicode_len();
    let mut i: usize = 0;
    while i < n
        invariant
            n == s@.len(),
            i <= n,
            forall|j: int| 0 <= j < i ==> s@[j] != '\0',
        decreases n - i,
    {
        if s.get_char(i) == '\0' {
            assert(s@[i as int] == '\0');
            return true;
        }
        i = i + 1;
    }
    false
}

/// The strings of `v` that have no NUL character, in order.
pub open spec fn c_compatible(v: Seq<Seq<char>>) -> Seq<Seq<char>> {
    v.filter(|s: Seq<char>| !s.contains('\0'))
}

/// The views of a list of strings.
pub open spec fn string_views(v: Seq<String>) -> Seq<Seq<char>> {
    v.map_values(|s: String| s@)
}

/// The program and arguments to execute for a container's entrypoint: the
/// first entry is the program and must have no NUL character; the arguments
/// are all entries, the program included, that have none. `None` when the
/// program has a NUL character. An empty entrypoint is not accepted.
pub fn exec_command(entrypoint: &Vec<String>) -> (r: Option<(String, Vec<String>)>)
    requires
        entrypoint.len() > 0,
    ensures
        r is Some <==> !entrypoint@[0]@.contains('\0'),
        r matches Some((cmd, args)) ==> cmd@ == entrypoint@[0]@ && string_views(args@) == c_compatible(
            string_views(entrypoint@),
        ),
{
    if has_nul(entrypoint[0].as_str()) {
        return None;
    }
    let ghost all = string_views(entrypoint@);
    let mut args: Vec<String> = Vec::new();
    let mut i: usize = 0;
    while i < entrypoint.len()
        invariant
            i <= entrypoint.len(),
            all == string_views(entrypoint@),
            string_views(args@) == c_compatible(all.take(i as int)),
        decreases entrypoint.len() - i,
    {
        proof {
            assert(all.take(i + 1) =~= all.take(i as int).push(all[i as int]));
            all.take(i as int).lemma_filter_push(all[i as int], |s: Seq<char>| !s.contains('\0'));
        }
        if !has_nul(entrypoint[i].as_str()) {
            let ghost before = string_views(args@);
            args.push(entrypoint[i].clone());
            assert(string_views(args@) =~= before.push(all[i as int]));
        }
        i = i + 1;
    }
    assert(all.take(entrypoint.len() as int) =~= all);
    Some((entrypoint[0].clone(), args))
}

/// The netlink port id of process `pid`: the pid itself; a negative pid has none.
pub fn netlink_port(pid: i32) -> (r: Option<u32>)
    ensures
        r is Some <==> pid >= 0,
        r matches Some(p) ==> p as int == pid as int,
{
    if pid < 0 {
        None
    } else {
        Some(pid as u32)
    }
}

} // verus!
