//! Container lifecycle planning: the directory skeleton and mounts of a
//! fresh root, the ordered host and child steps, environment and command
//! selection, the rootfs-seeding helpers, and the per-container names the
//! image runner derives from a fresh identifier.

use vstd::prelude::*;
use vstd::string::*;
use crate::store::{ImageManifest, ImageStore};
use crate::strutil::{
    first_at, lemma_first_at_bounds, str_chars, string_views, subvec, tokens_from, views_of,
    ws_tokens,
};

verus! {

fn lit(s: &str) -> (r: String)
    ensures
        r@ == s@,
{
    String::from_str(s)
}

fn joined(root: &str, suffix: &str) -> (r: String)
    ensures
        r@ == root@ + suffix@,
{
    let mut r = String::from_str(root);
    r.append(suffix);
    r
}

/// The directory skeleton created under a new root before anything is
/// mounted.
pub fn container_dirs(new_root: &str) -> (r: Vec<String>)
    ensures
        r@.len() == 17,
        r@[0]@ == new_root@ + "/bin"@,
        r@[1]@ == new_root@ + "/sbin"@,
        r@[2]@ == new_root@ + "/lib"@,
        r@[3]@ == new_root@ + "/lib64"@,
        r@[4]@ == new_root@ + "/usr/bin"@,
        r@[5]@ == new_root@ + "/usr/sbin"@,
        r@[6]@ == new_root@ + "/usr/lib"@,
        r@[7]@ == new_root@ + "/etc"@,
        r@[8]@ == new_root@ + "/root"@,
        r@[9]@ == new_root@ + "/home"@,
        r@[10]@ == new_root@ + "/proc"@,
        r@[11]@ == new_root@ + "/sys"@,
        r@[12]@ == new_root@ + "/dev"@,
        r@[13]@ == new_root@ + "/tmp"@,
        r@[14]@ == new_root@ + "/var"@,
        r@[15]@ == new_root@ + "/run"@,
        r@[16]@ == new_root@ + "/old_root"@,
{
    let mut r: Vec<String> = Vec::new();
    r.push(joined(new_root, "/bin"));
    r.push(joined(new_root, "/sbin"));
    r.push(joined(new_root, "/lib"));
    r.push(joined(new_root, "/lib64"));
    r.push(joined(new_root, "/usr/bin"));
    r.push(joined(new_root, "/usr/sbin"));
    r.push(joined(new_root, "/usr/lib"));
    r.push(joined(new_root, "/etc"));
    r.push(joined(new_root, "/root"));
    r.push(joined(new_root, "/home"));
    r.push(joined(new_root, "/proc"));
    r.push(joined(new_root, "/sys"));
    r.push(joined(new_root, "/dev"));
    r.push(joined(new_root, "/tmp"));
    r.push(joined(new_root, "/var"));
    r.push(joined(new_root, "/run"));
    r.push(joined(new_root, "/old_root"));
    r
}

/// One mount operation: source, target, filesystem type, flag names, and
/// the optional data string.
#[derive(Debug)]
pub struct MountSpec {
    pub source: String,
    pub target: String,
    pub fstype: String,
    pub flags: Vec<String>,
    pub data: Option<String>,
}

fn mount_spec(source: &str, target: &str, fstype: &str) -> (r: MountSpec)
    ensures
        r.source@ == source@,
        r.target@ == target@,
        r.fstype@ == fstype@,
        r.flags@.len() == 0,
        r.data is None,
{
    MountSpec {
        source: lit(source),
        target: lit(target),
        fstype: lit(fstype),
        flags: Vec::new(),
        data: None,
    }
}

/// The essential filesystems mounted after the pivot, in order, with the
/// fallback used for `/dev` when `devtmpfs` is unavailable.  `proc`,
/// `sysfs` and the `/tmp` tmpfs are fatal on failure; the `/dev` fallback
/// is not.
pub struct MountPlan {
    pub proc_mount: MountSpec,
    pub sys_mount: MountSpec,
    pub dev_mount: MountSpec,
    pub dev_fallback: MountSpec,
    pub tmp_mount: MountSpec,
}

/// Plan the essential mounts.
pub fn essential_mounts() -> (r: MountPlan)
    ensures
        r.proc_mount.source@ == "proc"@ && r.proc_mount.target@ == "/proc"@
            && r.proc_mount.fstype@ == "proc"@ && r.proc_mount.flags@.len() == 0,
        r.sys_mount.source@ == "sysfs"@ && r.sys_mount.target@ == "/sys"@
            && r.sys_mount.fstype@ == "sysfs"@ && r.sys_mount.flags@.len() == 0,
        r.dev_mount.source@ == "devtmpfs"@ && r.dev_mount.target@ == "/dev"@
            && r.dev_mount.fstype@ == "devtmpfs"@ && r.dev_mount.flags@.len() == 2
            && r.dev_mount.flags@[0]@ == "MS_NOSUID"@ && r.dev_mount.flags@[1]@
            == "MS_STRICTATIME"@ && r.dev_mount.data is None,
        r.dev_fallback.source@ == "tmpfs"@ && r.dev_fallback.target@ == "/dev"@
            && r.dev_fallback.fstype@ == "tmpfs"@ && r.dev_fallback.flags@.len() == 1
            && r.dev_fallback.flags@[0]@ == "MS_NOSUID"@ && r.dev_fallback.data is Some
            && r.dev_fallback.data->Some_0@ == "mode=755"@,
        r.tmp_mount.source@ == "tmpfs"@ && r.tmp_mount.target@ == "/tmp"@
            && r.tmp_mount.fstype@ == "tmpfs"@ && r.tmp_mount.flags@.len() == 0,
{
    let proc_mount = mount_spec("proc", "/proc", "proc");
    let sys_mount = mount_spec("sysfs", "/sys", "sysfs");
    let mut dev_mount = mount_spec("devtmpfs", "/dev", "devtmpfs");
    dev_mount.flags.push(lit("MS_NOSUID"));
    dev_mount.flags.push(lit("MS_STRICTATIME"));
    let mut dev_fallback = mount_spec("tmpfs", "/dev", "tmpfs");
    dev_fallback.flags.push(lit("MS_NOSUID"));
    dev_fallback.data = Some(lit("mode=755"));
    let tmp_mount = mount_spec("tmpfs", "/tmp", "tmpfs");
    MountPlan { proc_mount, sys_mount, dev_mount, dev_fallback, tmp_mount }
}

/// The ordered steps the host performs around a container.
#[derive(Debug, PartialEq, Eq, Structural)]
pub enum HostStep {
    SetupCgroups,
    EnableIpForward,
    DetectInterface,
    UnsharePidMountUts,
    ForkChild,
    SetupVeth,
    WaitChild,
    CleanupCgroup,
    RemoveRootfs,
}

/// The host-side order: cgroups, forwarding, interface discovery, the
/// partial unshare, the fork, then veth setup and waiting; teardown last.
pub fn host_sequence() -> (r: Vec<HostStep>)
    ensures
        r@ == seq![
            HostStep::SetupCgroups,
            HostStep::EnableIpForward,
            HostStep::DetectInterface,
            HostStep::UnsharePidMountUts,
            HostStep::ForkChild,
            HostStep::SetupVeth,
            HostStep::WaitChild,
            HostStep::CleanupCgroup,
            HostStep::RemoveRootfs,
        ],
{
    let mut r: Vec<HostStep> = Vec::new();
    r.push(HostStep::SetupCgroups);
    r.push(HostStep::EnableIpForward);
    r.push(HostStep::DetectInterface);
    r.push(HostStep::UnsharePidMountUts);
    r.push(HostStep::ForkChild);
    r.push(HostStep::SetupVeth);
    r.push(HostStep::WaitChild);
    r.push(HostStep::CleanupCgroup);
    r.push(HostStep::RemoveRootfs);
    proof {
        assert(r@ =~= seq![
            HostStep::SetupCgroups,
            HostStep::EnableIpForward,
            HostStep::DetectInterface,
            HostStep::UnsharePidMountUts,
            HostStep::ForkChild,
            HostStep::SetupVeth,
            HostStep::WaitChild,
            HostStep::CleanupCgroup,
            HostStep::RemoveRootfs,
        ]);
    }
    r
}

/// The ordered steps the child performs before handing over to the
/// container command.
#[derive(Debug, PartialEq, Eq, Structural)]
pub enum ChildStep {
    UnshareNet,
    JoinCgroup,
    SetupRootFilesystem,
    ApplyEnv,
    ChangeWorkdir,
    ExecCommand,
}

/// The child-side order: the network unshare comes first, so that it
/// happens only after the host already holds `/proc/<pid>/ns/net`, and the
/// exec comes last.
pub fn child_sequence() -> (r: Vec<ChildStep>)
    ensures
        r@ == seq![
            ChildStep::UnshareNet,
            ChildStep::JoinCgroup,
            ChildStep::SetupRootFilesystem,
            ChildStep::ApplyEnv,
            ChildStep::ChangeWorkdir,
            ChildStep::ExecCommand,
        ],
{
    let mut r: Vec<ChildStep> = Vec::new();
    r.push(ChildStep::UnshareNet);
    r.push(ChildStep::JoinCgroup);
    r.push(ChildStep::SetupRootFilesystem);
    r.push(ChildStep::ApplyEnv);
    r.push(ChildStep::ChangeWorkdir);
    r.push(ChildStep::ExecCommand);
    proof {
        assert(r@ =~= seq![
            ChildStep::UnshareNet,
            ChildStep::JoinCgroup,
            ChildStep::SetupRootFilesystem,
            ChildStep::ApplyEnv,
            ChildStep::ChangeWorkdir,
            ChildStep::ExecCommand,
        ]);
    }
    r
}

/// Split one `KEY=VALUE` environment entry at its first `=`.
pub fn split_env(entry: &str) -> (r: Option<(String, String)>)
    ensures
        ({
            let s = entry@;
            let e = first_at(s, 0, '=');
            match r {
                Some(kv) => e < s.len() && kv.0@ == s.subrange(0, e) && kv.1@ == s.subrange(
                    e + 1,
                    s.len() as int,
                ),
                None => e >= s.len(),
            }
        }),
{
    let v = str_chars(entry);
    proof {
        lemma_first_at_bounds(v@, 0, '=');
    }
    let e = crate::strutil::find_at(&v, 0, '=');
    if e >= v.len() {
        return None;
    }
    let key = subvec(&v, 0, e);
    let value = subvec(&v, e + 1, v.len());
    Some((crate::strutil::chars_string(&key), crate::strutil::chars_string(&value)))
}

/// The command a container executes: the entrypoint when one is set, else
/// an interactive shell, `/bin/bash` when present, `/bin/sh` otherwise.
pub fn select_command(entrypoint: &Vec<String>, bash_exists: bool) -> (r: Vec<String>)
    ensures
        entrypoint@.len() > 0 ==> string_views(r@) == string_views(entrypoint@),
        entrypoint@.len() == 0 ==> {
            &&& r@.len() == 1
            &&& (bash_exists ==> r@[0]@ == "/bin/bash"@)
            &&& (!bash_exists ==> r@[0]@ == "/bin/sh"@)
        },
{
    if entrypoint.len() > 0 {
        crate::strutil::clone_strings(entrypoint)
    } else {
        let mut r: Vec<String> = Vec::new();
        if bash_exists {
            r.push(lit("/bin/bash"));
        } else {
            r.push(lit("/bin/sh"));
        }
        r
    }
}

/// First index at or after `i` where `=` is immediately followed by `>`.
pub open spec fn first_arrow(s: Seq<char>, i: int) -> int
    decreases s.len() - i,
{
    if i < 0 || i >= s.len() {
        s.len() as int
    } else if s[i] == '=' && i + 1 < s.len() && s[i + 1] == '>' {
        i
    } else {
        first_arrow(s, i + 1)
    }
}

fn find_arrow(v: &Vec<char>) -> (r: usize)
    ensures
        r as int == first_arrow(v@, 0),
        r <= v@.len(),
{
    let mut i: usize = 0;
    while i < v.len()
        invariant
            i <= v@.len(),
            first_arrow(v@, 0) == first_arrow(v@, i as int),
        decreases v@.len() - i,
    {
        if v[i] == '=' && i + 1 < v.len() {
            if v[i + 1] == '>' {
                return i;
            }
        }
        assert(first_arrow(v@, i as int) == first_arrow(v@, i + 1 as int));
        i += 1;
    }
    i
}

/// The library path a loader-listing line names, if any: the third token
/// of a `name => /path (addr)` line, or the first token of a line that
/// starts with `/`.
pub open spec fn lib_of_line(line: Seq<char>) -> Option<Seq<char>> {
    let toks = tokens_from(line, 0);
    if first_arrow(line, 0) < line.len() {
        if toks.len() >= 3 && toks[2].len() > 0 && toks[2].first() == '/' {
            Some(toks[2])
        } else {
            None
        }
    } else {
        if toks.len() > 0 && toks[0].len() > 0 && toks[0].first() == '/' {
            Some(toks[0])
        } else {
            None
        }
    }
}

fn parse_lib_line(line: &Vec<char>) -> (r: Option<String>)
    ensures
        match r {
            Some(p) => lib_of_line(line@) == Some(p@),
            None => lib_of_line(line@) is None,
        },
{
    let toks = ws_tokens(line);
    let arrow = find_arrow(line);
    if arrow < line.len() {
        if toks.len() >= 3 && toks[2].len() > 0 && toks[2][0] == '/' {
            proof {
                assert(views_of(toks@)[2] == toks@[2]@);
            }
            Some(crate::strutil::chars_string(&toks[2]))
        } else {
            proof {
                if toks.len() >= 3 {
                    assert(views_of(toks@)[2] == toks@[2]@);
                }
            }
            None
        }
    } else {
        if toks.len() > 0 && toks[0].len() > 0 && toks[0][0] == '/' {
            proof {
                assert(views_of(toks@)[0] == toks@[0]@);
            }
            Some(crate::strutil::chars_string(&toks[0]))
        } else {
            proof {
                if toks.len() > 0 {
                    assert(views_of(toks@)[0] == toks@[0]@);
                }
            }
            None
        }
    }
}

/// The library paths of a loader listing from position `i` on.
pub open spec fn libs_from(s: Seq<char>, i: int, acc: Seq<Seq<char>>) -> Seq<Seq<char>>
    decreases s.len() + 1 - i,
    via libs_from_decreases
{
    if i < 0 || i >= s.len() {
        acc
    } else {
        let j = first_at(s, i, '\n');
        match lib_of_line(s.subrange(i, j)) {
            None => libs_from(s, j + 1, acc),
            Some(p) => libs_from(s, j + 1, acc.push(p)),
        }
    }
}

#[via_fn]
proof fn libs_from_decreases(s: Seq<char>, i: int, acc: Seq<Seq<char>>) {
    if 0 <= i < s.len() {
        lemma_first_at_bounds(s, i, '\n');
    }
}

/// The shared-library paths named by a loader listing, in listing order.
pub fn ldd_lib_paths(output: &str) -> (r: Vec<String>)
    ensures
        string_views(r@) == libs_from(output@, 0, Seq::empty()),
{
    let v = str_chars(output);
    let mut r: Vec<String> = Vec::new();
    let mut i: usize = 0;
    proof {
        assert(string_views(r@) =~= Seq::<Seq<char>>::empty());
        assert(v@ == output@);
    }
    loop
        invariant_except_break
            i <= v@.len() + 1,
            v@ == output@,
            libs_from(v@, i as int, string_views(r@)) == libs_from(v@, 0, Seq::empty()),
        ensures
            string_views(r@) == libs_from(output@, 0, Seq::empty()),
        decreases v@.len() + 1 - i,
    {
        if i >= v.len() {
            proof {
                assert(libs_from(v@, i as int, string_views(r@)) == string_views(r@));
            }
            break;
        }
        proof {
            lemma_first_at_bounds(v@, i as int, '\n');
        }
        let j = crate::strutil::find_at(&v, i, '\n');
        let line = subvec(&v, i, j);
        let ghost acc0 = string_views(r@);
        match parse_lib_line(&line) {
            None => {
                proof {
                    assert(libs_from(v@, i as int, acc0) == libs_from(v@, j as int + 1, acc0));
                }
            },
            Some(p) => {
                proof {
                    assert(libs_from(v@, i as int, acc0) == libs_from(
                        v@,
                        j as int + 1,
                        acc0.push(p@),
                    ));
                    assert(string_views(r@.push(p)) =~= acc0.push(p@));
                }
                r.push(p);
            },
        }
        if j >= v.len() {
            proof {
                assert(libs_from(v@, j as int + 1, string_views(r@)) == string_views(r@));
            }
            break;
        }
        i = j + 1;
    }
    r
}

/// The destination under the new root for a seeded binary.
pub fn bin_dest(root: &str, file_name: &str) -> (r: String)
    ensures
        r@ == root@ + "/bin/"@ + file_name@,
{
    let mut r = String::from_str(root);
    r.append("/bin/");
    r.append(file_name);
    r
}

/// The destination under the new root for a library copied from the host.
pub fn lib_dest(root: &str, lib_path: &str) -> (r: String)
    ensures
        r@ == root@ + lib_path@,
{
    joined(root, lib_path)
}

/// Relies on `uuid::Uuid::new_v4` and its hyphenated rendering: a fresh
/// random identifier, 36 characters long.  Nothing further is promised of
/// its value.
#[verifier::external_body]
fn fresh_uuid() -> (r: String)
    ensures
        r@.len() == 36,
{
    uuid::Uuid::new_v4().to_string()
}

/// The per-container names the runner derives from one identifier.
#[derive(Debug)]
pub struct RunPlan {
    pub container_id: String,
    pub rootfs: String,
    pub container_name: String,
    pub extract_cmds: Vec<Vec<String>>,
}

/// The cgroup name derived from a container identifier.
pub open spec fn image_container_name(id: Seq<char>) -> Seq<char> {
    "img-"@ + id
}

/// The scratch rootfs derived from a container identifier.
pub open spec fn container_rootfs(id: Seq<char>) -> Seq<char> {
    "/tmp/container-"@ + id
}

/// Distinct container identifiers give distinct cgroup names and distinct
/// rootfs paths: two live containers never share either.
pub proof fn lemma_distinct_ids_distinct_names(id1: Seq<char>, id2: Seq<char>)
    requires
        id1 != id2,
    ensures
        image_container_name(id1) != image_container_name(id2),
        container_rootfs(id1) != container_rootfs(id2),
{
    if image_container_name(id1) == image_container_name(id2) {
        assert(id1 =~= image_container_name(id1).skip("img-"@.len() as int));
        assert(id2 =~= image_container_name(id2).skip("img-"@.len() as int));
    }
    if container_rootfs(id1) == container_rootfs(id2) {
        assert(id1 =~= container_rootfs(id1).skip("/tmp/container-"@.len() as int));
        assert(id2 =~= container_rootfs(id2).skip("/tmp/container-"@.len() as int));
    }
}

/// Plan a container run: a fresh identifier names the scratch rootfs and
/// the cgroup, and each manifest layer gets its extraction command, in
/// manifest order.
pub fn run_plan(store: &ImageStore, manifest: &ImageManifest) -> (r: RunPlan)
    ensures
        r.container_id@.len() == 36,
        r.rootfs@ == container_rootfs(r.container_id@),
        r.container_name@ == image_container_name(r.container_id@),
        r.extract_cmds@.len() == manifest.layers@.len(),
        forall|i: int|
            0 <= i < manifest.layers@.len() ==> {
                &&& #[trigger] r.extract_cmds@[i]@.len() == 4
                &&& r.extract_cmds@[i]@[0]@ == "-xzf"@
                &&& r.extract_cmds@[i]@[1]@ == store.root@ + crate::store::layers_dir() + seq![
                    '/',
                ] + manifest.layers@[i]@
                &&& r.extract_cmds@[i]@[2]@ == "-C"@
                &&& r.extract_cmds@[i]@[3]@ == r.rootfs@
            },
{
    let container_id = fresh_uuid();
    let mut rootfs = String::from_str("/tmp/container-");
    rootfs.append(container_id.as_str());
    let mut container_name = String::from_str("img-");
    container_name.append(container_id.as_str());
    let mut extract_cmds: Vec<Vec<String>> = Vec::new();
    let mut i: usize = 0;
    while i < manifest.layers.len()
        invariant
            i <= manifest.layers@.len(),
            rootfs@ == container_rootfs(container_id@),
            extract_cmds@.len() == i,
            forall|k: int|
                0 <= k < i ==> {
                    &&& #[trigger] extract_cmds@[k]@.len() == 4
                    &&& extract_cmds@[k]@[0]@ == "-xzf"@
                    &&& extract_cmds@[k]@[1]@ == store.root@ + crate::store::layers_dir() + seq![
                        '/',
                    ] + manifest.layers@[k]@
                    &&& extract_cmds@[k]@[2]@ == "-C"@
                    &&& extract_cmds@[k]@[3]@ == rootfs@
                },
        decreases manifest.layers@.len() - i,
    {
        let layer_path = store.get_layer_path(manifest.layers[i].as_str());
        let mut cmd: Vec<String> = Vec::new();
        cmd.push(lit("-xzf"));
        cmd.push(layer_path);
        cmd.push(lit("-C"));
        cmd.push(rootfs.clone());
        extract_cmds.push(cmd);
        i += 1;
    }
    RunPlan { container_id, rootfs, container_name, extract_cmds }
}

} // verus!
