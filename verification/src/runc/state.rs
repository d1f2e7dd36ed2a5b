//! The `state.json` `runc` writes for a container it has created.
use crate::path;
use crate::path::PathBuf;
use crate::text;
use vstd::prelude::*;

verus! {

/// Where the container's cgroups live, keyed by controller.
#[non_exhaustive]
#[derive(Debug)]
pub struct CgroupPaths {
    /// The cgroup v2 unified hierarchy path, e.g.
    /// `/sys/fs/cgroup/system.slice/docker-<id>.scope`. This is the cgroup that the device filter is
    /// attached to and whose `cgroup.events` tells when the container has stopped.
    pub unified: PathBuf,
    /// The cgroup v1 `devices` controller path. Its presence means the container is on cgroup v1,
    /// which is not supported, so [`crate::runc::Container::new`] rejects it.
    pub devices: Option<PathBuf>,
}

/// runc `libcontainer` states, as far as they matter here.
#[non_exhaustive]
#[derive(Debug)]
pub struct State {
    /// PID, on the host, of the container's init process. Used to reach the container's mount, user
    /// and network namespaces via `/proc`.
    pub init_process_pid: u32,
    pub cgroup_paths: CgroupPaths,
}

/// Where the state of container `id` is, with `root` being `runc`'s state directory.
pub open spec fn state_path(root: Seq<u8>, id: Seq<char>) -> Seq<u8> {
    path::joined(root, vstd::utf8::encode_utf8(id + "/state.json"@))
}

impl State {
    /// A state with the given contents.
    pub fn new(init_process_pid: u32, unified: PathBuf, devices: Option<PathBuf>) -> (r: State)
        ensures
            r.init_process_pid == init_process_pid,
            r.cgroup_paths.unified == unified,
            r.cgroup_paths.devices == devices,
    {
        State { init_process_pid, cgroup_paths: CgroupPaths { unified, devices } }
    }

    /// The file that holds the state of container `id` in `runc`'s state directory (`--root`).
    ///
    /// Before `runc create` has returned the file does not exist.
    pub fn from_root_and_id(root: &PathBuf, id: &str) -> (r: PathBuf)
        ensures
            r@ == state_path(root@, id@),
    {
        let mut file = String::new();
        text::push_str(&mut file, id);
        text::push_str(&mut file, "/state.json");
        assert(file@ =~= id@ + "/state.json"@);
        root.join(&PathBuf::from_text(file.as_str()))
    }
}

/// The state of a container is the file called `state.json` in the directory of the container, which
/// is below that of all states.
pub proof fn states_are_kept_by_container(root: Seq<u8>, id: Seq<char>)
    requires
        root.len() > 0,
        path::is_name(vstd::utf8::encode_utf8(id)),
    ensures
        path::components(state_path(root, id)) == path::components(root).push(
            vstd::utf8::encode_utf8(id),
        ).push(vstd::utf8::encode_utf8("state.json"@)),
{
    reveal_strlit("/state.json");
    reveal_strlit("state.json");
    let whole = id + "/state.json"@;
    let file = vstd::utf8::encode_utf8("state.json"@);
    let dir = vstd::utf8::encode_utf8(id);
    let p = vstd::utf8::encode_utf8(whole);
    text::bytes_come_one_after_the_other(id, "/state.json"@);
    vstd::utf8::is_ascii_chars_encode_utf8("/state.json"@);
    vstd::utf8::is_ascii_chars_encode_utf8("state.json"@);
    assert(vstd::utf8::encode_utf8("/state.json"@) =~= seq![47u8] + file);
    assert(p =~= dir + seq![47u8] + file);
    assert(file.len() == 10);
    assert(!file.contains(47u8)) by {
        assert forall|i: int| 0 <= i < file.len() implies file[i] != 47u8 by {
            assert("state.json"@[i] as u32 != 47);
        }
    }
    assert(!dir.contains(47u8));
    path::slashes_separate_names(dir, file, file);
    path::slashes_separate_names(dir, file, dir);
    assert(file != seq![46u8]) by {
        assert(seq![46u8].len() == 1);
    }
    assert(p[0] == dir[0]);
    path::joined_is_under(root, p);
    assert(path::components(root) + (seq![dir] + seq![file]) =~= path::components(root).push(
        dir,
    ).push(file));
}

} // verus!
