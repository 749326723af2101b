//! Cgroup planning: which directories to create, which limit files to
//! write with which values, and which processes to signal at teardown.
//!
//! Both hierarchy layouts are covered: the unified one (a single directory
//! per container) and the split one (one directory per controller).  The
//! limits are fixed: half a core of CPU, 512 MiB of memory, 100 processes.
//! All file writes are returned as path/content pairs for the thin shell
//! to perform.

use vstd::prelude::*;
use vstd::string::*;
use crate::strutil::{
    chars_eq_str, dec_of, first_at, lemma_first_at_bounds, str_chars, subvec, tokens_from,
    trim_of, u64_to_string, views_of, ws_tokens,
};

verus! {

pub open spec fn cgroup_root() -> Seq<char> {
    seq!['/', 's', 'y', 's', '/', 'f', 's', '/', 'c', 'g', 'r', 'o', 'u', 'p']
}

/// `/sys/fs/cgroup/<name>`.
pub fn unified_cgroup_dir(name: &str) -> (r: String)
    ensures
        r@ == cgroup_root() + seq!['/'] + name@,
{
    let mut r = String::from_str("/sys/fs/cgroup/");
    r.append(name);
    proof {
        reveal_strlit("/sys/fs/cgroup/");
        assert("/sys/fs/cgroup/"@ =~= cgroup_root() + seq!['/']);
        assert(r@ =~= cgroup_root() + seq!['/'] + name@);
    }
    r
}

/// `/sys/fs/cgroup/<controller>/<name>`.
pub fn controller_cgroup_dir(controller: &str, name: &str) -> (r: String)
    ensures
        r@ == cgroup_root() + seq!['/'] + controller@ + seq!['/'] + name@,
{
    let mut r = String::from_str("/sys/fs/cgroup/");
    r.append(controller);
    r.append("/");
    r.append(name);
    proof {
        reveal_strlit("/sys/fs/cgroup/");
        reveal_strlit("/");
        assert("/sys/fs/cgroup/"@ =~= cgroup_root() + seq!['/']);
        assert("/"@ =~= seq!['/']);
        assert(r@ =~= cgroup_root() + seq!['/'] + controller@ + seq!['/'] + name@);
    }
    r
}

/// The directories to create for a container's cgroup: one under the root
/// on the unified layout, one per controller otherwise.
pub fn cgroup_dirs(name: &str, v2: bool) -> (r: Vec<String>)
    ensures
        v2 ==> r@.len() == 1 && r@[0]@ == cgroup_root() + seq!['/'] + name@,
        !v2 ==> {
            &&& r@.len() == 3
            &&& r@[0]@ == cgroup_root() + seq!['/'] + "cpu"@ + seq!['/'] + name@
            &&& r@[1]@ == cgroup_root() + seq!['/'] + "memory"@ + seq!['/'] + name@
            &&& r@[2]@ == cgroup_root() + seq!['/'] + "pids"@ + seq!['/'] + name@
        },
{
    let mut r: Vec<String> = Vec::new();
    if v2 {
        r.push(unified_cgroup_dir(name));
    } else {
        r.push(controller_cgroup_dir("cpu", name));
        r.push(controller_cgroup_dir("memory", name));
        r.push(controller_cgroup_dir("pids", name));
    }
    r
}

/// Whether a controller name occurs among the whitespace-separated tokens
/// of a `cgroup.controllers` listing.
pub open spec fn has_controller(listing: Seq<char>, name: Seq<char>) -> bool {
    tokens_from(listing, 0).contains(name)
}

fn token_present(toks: &Vec<Vec<char>>, name: &str) -> (r: bool)
    ensures
        r == views_of(toks@).contains(name@),
{
    let mut i: usize = 0;
    while i < toks.len()
        invariant
            i <= toks@.len(),
            forall|j: int| 0 <= j < i ==> views_of(toks@)[j] != name@,
        decreases toks@.len() - i,
    {
        if chars_eq_str(&toks[i], name) {
            proof {
                assert(views_of(toks@)[i as int] == name@);
            }
            return true;
        }
        i += 1;
    }
    proof {
        assert(!views_of(toks@).contains(name@)) by {
            if views_of(toks@).contains(name@) {
                let j = choose|j: int|
                    0 <= j < views_of(toks@).len() && views_of(toks@)[j] == name@;
                assert(views_of(toks@)[j] != name@);
            }
        }
    }
    false
}

/// The `+controller` words to write, joined by single spaces: each of
/// `+cpu`, `+memory`, `+pids` appears exactly when its controller is
/// available.
pub open spec fn subtree_value(cpu: bool, memory: bool, pids: bool) -> Seq<char> {
    let w1: Seq<char> = if cpu {
        seq!['+', 'c', 'p', 'u']
    } else {
        Seq::empty()
    };
    let w2: Seq<char> = if memory {
        (if cpu {
            seq![' ']
        } else {
            Seq::empty()
        }) + seq!['+', 'm', 'e', 'm', 'o', 'r', 'y']
    } else {
        Seq::empty()
    };
    let w3: Seq<char> = if pids {
        (if cpu || memory {
            seq![' ']
        } else {
            Seq::empty()
        }) + seq!['+', 'p', 'i', 'd', 's']
    } else {
        Seq::empty()
    };
    w1 + w2 + w3
}

/// What to write to `cgroup.subtree_control`: `+cpu +memory +pids`,
/// restricted to the controllers the root actually offers.
pub fn subtree_control_value(controllers_listing: &str) -> (r: String)
    ensures
        r@ == subtree_value(
            has_controller(controllers_listing@, "cpu"@),
            has_controller(controllers_listing@, "memory"@),
            has_controller(controllers_listing@, "pids"@),
        ),
{
    let chars = str_chars(controllers_listing);
    let toks = ws_tokens(&chars);
    let cpu = token_present(&toks, "cpu");
    let memory = token_present(&toks, "memory");
    let pids = token_present(&toks, "pids");
    let mut out = String::new();
    let mut any = false;
    if cpu {
        out.append("+cpu");
        any = true;
    }
    if memory {
        if any {
            out.append(" ");
        }
        out.append("+memory");
        any = true;
    }
    if pids {
        if any {
            out.append(" ");
        }
        out.append("+pids");
    }
    proof {
        reveal_strlit("+cpu");
        reveal_strlit("+memory");
        reveal_strlit("+pids");
        reveal_strlit(" ");
        assert("+cpu"@ =~= seq!['+', 'c', 'p', 'u']);
        assert("+memory"@ =~= seq!['+', 'm', 'e', 'm', 'o', 'r', 'y']);
        assert("+pids"@ =~= seq!['+', 'p', 'i', 'd', 's']);
        assert(" "@ =~= seq![' ']);
        assert(out@ =~= subtree_value(cpu, memory, pids));
    }
    out
}

/// The path of `cgroup.subtree_control` at the cgroup root.
pub fn subtree_control_path() -> (r: String)
    ensures
        r@ == cgroup_root() + seq!['/'] + "cgroup.subtree_control"@,
{
    let r = String::from_str("/sys/fs/cgroup/cgroup.subtree_control");
    proof {
        reveal_strlit("/sys/fs/cgroup/cgroup.subtree_control");
        reveal_strlit("cgroup.subtree_control");
        assert(r@ =~= cgroup_root() + seq!['/'] + "cgroup.subtree_control"@);
    }
    r
}

/// One file write: the path and the content.
pub struct CgroupWrite {
    pub path: String,
    pub content: String,
}

fn limit_write(dir: &String, file: &str, content: &str) -> (r: CgroupWrite)
    ensures
        r.path@ == dir@ + seq!['/'] + file@,
        r.content@ == content@,
{
    let mut path = dir.clone();
    path.append("/");
    path.append(file);
    proof {
        reveal_strlit("/");
        assert("/"@ =~= seq!['/']);
        assert(path@ =~= dir@ + seq!['/'] + file@);
    }
    CgroupWrite { path, content: String::from_str(content) }
}

/// The resource-limit writes: half a core of CPU (quota 50000 of period
/// 100000), 512 MiB of memory, at most 100 processes.
pub fn limit_writes(name: &str, v2: bool) -> (r: Vec<CgroupWrite>)
    ensures
        v2 ==> {
            &&& r@.len() == 3
            &&& r@[0].path@ == cgroup_root() + seq!['/'] + name@ + seq!['/'] + "cpu.max"@
            &&& r@[0].content@ == "50000 100000"@
            &&& r@[1].path@ == cgroup_root() + seq!['/'] + name@ + seq!['/'] + "memory.max"@
            &&& r@[1].content@ == "536870912"@
            &&& r@[2].path@ == cgroup_root() + seq!['/'] + name@ + seq!['/'] + "pids.max"@
            &&& r@[2].content@ == "100"@
        },
        !v2 ==> {
            &&& r@.len() == 4
            &&& r@[0].path@ == cgroup_root() + seq!['/'] + "cpu"@ + seq!['/'] + name@ + seq!['/']
                + "cpu.cfs_quota_us"@
            &&& r@[0].content@ == "50000"@
            &&& r@[1].path@ == cgroup_root() + seq!['/'] + "cpu"@ + seq!['/'] + name@ + seq!['/']
                + "cpu.cfs_period_us"@
            &&& r@[1].content@ == "100000"@
            &&& r@[2].path@ == cgroup_root() + seq!['/'] + "memory"@ + seq!['/'] + name@ + seq![
                '/',
            ] + "memory.limit_in_bytes"@
            &&& r@[2].content@ == "536870912"@
            &&& r@[3].path@ == cgroup_root() + seq!['/'] + "pids"@ + seq!['/'] + name@ + seq!['/']
                + "pids.max"@
            &&& r@[3].content@ == "100"@
        },
{
    let mut r: Vec<CgroupWrite> = Vec::new();
    if v2 {
        let dir = unified_cgroup_dir(name);
        r.push(limit_write(&dir, "cpu.max", "50000 100000"));
        r.push(limit_write(&dir, "memory.max", "536870912"));
        r.push(limit_write(&dir, "pids.max", "100"));
    } else {
        let cpu_dir = controller_cgroup_dir("cpu", name);
        let mem_dir = controller_cgroup_dir("memory", name);
        let pids_dir = controller_cgroup_dir("pids", name);
        r.push(limit_write(&cpu_dir, "cpu.cfs_quota_us", "50000"));
        r.push(limit_write(&cpu_dir, "cpu.cfs_period_us", "100000"));
        r.push(limit_write(&mem_dir, "memory.limit_in_bytes", "536870912"));
        r.push(limit_write(&pids_dir, "pids.max", "100"));
    }
    r
}

/// The writes that place a process into a container's cgroup: its pid into
/// each `cgroup.procs` file of the layout.
pub fn membership_writes(name: &str, v2: bool, pid: u64) -> (r: Vec<CgroupWrite>)
    ensures
        v2 ==> {
            &&& r@.len() == 1
            &&& r@[0].path@ == cgroup_root() + seq!['/'] + name@ + seq!['/'] + "cgroup.procs"@
            &&& r@[0].content@ == dec_of(pid as int)
        },
        !v2 ==> {
            &&& r@.len() == 3
            &&& r@[0].path@ == cgroup_root() + seq!['/'] + "cpu"@ + seq!['/'] + name@ + seq!['/']
                + "cgroup.procs"@
            &&& r@[1].path@ == cgroup_root() + seq!['/'] + "memory"@ + seq!['/'] + name@ + seq![
                '/',
            ] + "cgroup.procs"@
            &&& r@[2].path@ == cgroup_root() + seq!['/'] + "pids"@ + seq!['/'] + name@ + seq!['/']
                + "cgroup.procs"@
            &&& forall|i: int| 0 <= i < 3 ==> r@[i].content@ == dec_of(pid as int)
        },
{
    let pid_text = u64_to_string(pid);
    let mut r: Vec<CgroupWrite> = Vec::new();
    if v2 {
        let dir = unified_cgroup_dir(name);
        r.push(limit_write(&dir, "cgroup.procs", pid_text.as_str()));
    } else {
        let cpu_dir = controller_cgroup_dir("cpu", name);
        let mem_dir = controller_cgroup_dir("memory", name);
        let pids_dir = controller_cgroup_dir("pids", name);
        r.push(limit_write(&cpu_dir, "cgroup.procs", pid_text.as_str()));
        r.push(limit_write(&mem_dir, "cgroup.procs", pid_text.as_str()));
        r.push(limit_write(&pids_dir, "cgroup.procs", pid_text.as_str()));
    }
    r
}

/// Everything cgroup setup does, as data: directories to create, the
/// subtree-control write on the unified layout, the limit writes, and the
/// caller's own membership writes.
pub struct CgroupPlan {
    pub dirs: Vec<String>,
    pub subtree: Option<CgroupWrite>,
    pub limits: Vec<CgroupWrite>,
    pub membership: Vec<CgroupWrite>,
}

/// Plan cgroup setup for a container.  `controllers_listing` is the
/// content of the root's `cgroup.controllers` on the unified layout; it
/// decides which controllers the subtree write enables.
pub fn setup_cgroups(name: &str, v2: bool, controllers_listing: &str, pid: u64) -> (r: CgroupPlan)
    ensures
        ({
            let dirs = r.dirs@;
            &&& (v2 ==> dirs.len() == 1 && dirs[0]@ == cgroup_root() + seq!['/'] + name@)
            &&& (!v2 ==> dirs.len() == 3)
            &&& (v2 ==> r.subtree is Some)
            &&& (!v2 ==> r.subtree is None)
            &&& (v2 ==> r.subtree->Some_0.path@ == cgroup_root() + seq!['/']
                + "cgroup.subtree_control"@)
            &&& (v2 ==> r.subtree->Some_0.content@ == subtree_value(
                has_controller(controllers_listing@, "cpu"@),
                has_controller(controllers_listing@, "memory"@),
                has_controller(controllers_listing@, "pids"@),
            ))
            &&& r.limits@.len() == (if v2 { 3int } else { 4int })
            &&& r.membership@.len() == (if v2 { 1int } else { 3int })
        }),
{
    let dirs = cgroup_dirs(name, v2);
    let subtree = if v2 {
        Some(CgroupWrite {
            path: subtree_control_path(),
            content: subtree_control_value(controllers_listing),
        })
    } else {
        None
    };
    let limits = limit_writes(name, v2);
    let membership = membership_writes(name, v2, pid);
    CgroupPlan { dirs, subtree, limits, membership }
}

/// What cgroup teardown reads and removes: the `cgroup.procs` files whose
/// listed processes are signalled, then the directories to remove.
pub struct CleanupPlan {
    pub procs_files: Vec<String>,
    pub dirs: Vec<String>,
}

/// Plan cgroup teardown for a container.
pub fn cleanup_plan(name: &str, v2: bool) -> (r: CleanupPlan)
    ensures
        r.procs_files@.len() == r.dirs@.len(),
        v2 ==> {
            &&& r.dirs@.len() == 1
            &&& r.dirs@[0]@ == cgroup_root() + seq!['/'] + name@
            &&& r.procs_files@[0]@ == cgroup_root() + seq!['/'] + name@ + seq!['/']
                + "cgroup.procs"@
        },
        !v2 ==> {
            &&& r.dirs@.len() == 3
            &&& forall|i: int|
                0 <= i < 3 ==> r.procs_files@[i]@ == r.dirs@[i]@ + seq!['/'] + "cgroup.procs"@
        },
{
    let dirs = cgroup_dirs(name, v2);
    let mut procs_files: Vec<String> = Vec::new();
    let mut i: usize = 0;
    while i < dirs.len()
        invariant
            i <= dirs@.len(),
            procs_files@.len() == i,
            forall|j: int|
                0 <= j < i ==> procs_files@[j]@ == dirs@[j]@ + seq!['/'] + "cgroup.procs"@,
        decreases dirs@.len() - i,
    {
        let w = limit_write(&dirs[i], "cgroup.procs", "");
        procs_files.push(w.path);
        i += 1;
    }
    CleanupPlan { procs_files, dirs }
}

/// Whether a text is one to ten decimal digits.
pub open spec fn is_short_digits(s: Seq<char>) -> bool {
    1 <= s.len() <= 10 && forall|i: int| 0 <= i < s.len() ==> '0' <= s[i] && s[i] <= '9'
}

/// Ten to the `i`.
pub open spec fn p10(i: int) -> int
    decreases i,
{
    if i <= 0 {
        1
    } else {
        10 * p10(i - 1)
    }
}

/// The value of a digit string, most significant first.
pub open spec fn num_of(s: Seq<char>) -> int
    decreases s.len(),
{
    if s.len() == 0 {
        0
    } else {
        num_of(s.drop_last()) * 10 + (s.last() as int - '0' as int)
    }
}

/// The pid a `cgroup.procs` line names, if it is a plain positive decimal
/// that fits an `i32`.
pub open spec fn pid_of_line(line: Seq<char>) -> Option<i32> {
    let t = trim_of(line);
    if is_short_digits(t) && 0 < num_of(t) <= i32::MAX {
        Some(num_of(t) as i32)
    } else {
        None
    }
}

/// The pids of a `cgroup.procs` listing from position `i` on.
pub open spec fn pids_from(s: Seq<char>, i: int, acc: Seq<i32>) -> Seq<i32>
    decreases s.len() + 1 - i,
    via pids_from_decreases
{
    if i < 0 || i >= s.len() {
        acc
    } else {
        let j = first_at(s, i, '\n');
        match pid_of_line(s.subrange(i, j)) {
            None => pids_from(s, j + 1, acc),
            Some(p) => pids_from(s, j + 1, acc.push(p)),
        }
    }
}

#[via_fn]
proof fn pids_from_decreases(s: Seq<char>, i: int, acc: Seq<i32>) {
    if 0 <= i < s.len() {
        lemma_first_at_bounds(s, i, '\n');
    }
}

proof fn lemma_p10_increases(i: int, j: int)
    requires
        i <= j,
    ensures
        p10(i) <= p10(j),
    decreases j - i,
{
    if i < j {
        if j <= 0 {
            assert(p10(i) == 1 && p10(j) == 1);
        } else {
            lemma_p10_increases(i, j - 1);
            assert(p10(j) == 10 * p10(j - 1));
            assert(p10(j - 1) >= 1) by {
                lemma_p10_pos(j - 1);
            }
        }
    }
}

proof fn lemma_p10_pos(i: int)
    ensures
        p10(i) >= 1,
    decreases i,
{
    if i > 0 {
        lemma_p10_pos(i - 1);
    }
}

fn parse_pid(line: &Vec<char>) -> (r: Option<i32>)
    ensures
        r == pid_of_line(line@),
{
    let t = crate::strutil::trim_chars(line);
    if t.len() == 0 || t.len() > 10 {
        return None;
    }
    let mut value: u64 = 0;
    let mut i: usize = 0;
    proof {
        assert(p10(0) == 1);
        assert(p10(1) == 10);
        assert(p10(2) == 100);
        assert(p10(3) == 1000);
        assert(p10(4) == 10000);
        assert(p10(5) == 100000);
        assert(p10(6) == 1000000);
        assert(p10(7) == 10000000);
        assert(p10(8) == 100000000);
        assert(p10(9) == 1000000000);
        assert(p10(10) == 10000000000);
    }
    while i < t.len()
        invariant
            t@ == trim_of(line@),
            i <= t@.len(),
            1 <= t@.len() <= 10,
            forall|k: int| 0 <= k < i ==> '0' <= t@[k] && t@[k] <= '9',
            value == num_of(t@.subrange(0, i as int)),
            value < p10(i as int),
            p10(i as int) <= p10(10),
            p10(10) == 10_000_000_000,
        decreases t@.len() - i,
    {
        proof {
            assert(p10(0) == 1);
            assert(p10(1) == 10);
            assert(p10(2) == 100);
            assert(p10(3) == 1000);
            assert(p10(4) == 10000);
            assert(p10(5) == 100000);
            assert(p10(6) == 1000000);
            assert(p10(7) == 10000000);
            assert(p10(8) == 100000000);
            assert(p10(9) == 1000000000);
            assert(p10(10) == 10000000000);
            lemma_p10_increases(i as int, 10);
            lemma_p10_increases(i + 1 as int, 10);
        }
        let c = t[i];
        if c < '0' || c > '9' {
            proof {
                assert(!('0' <= t@[i as int] && t@[i as int] <= '9'));
                assert(!is_short_digits(t@));
            }
            return None;
        }
        let d: u64 = (c as u64) - ('0' as u64);
        proof {
            assert(d == t@[i as int] as int - '0' as int);
            assert(d <= 9);
            assert(p10(i + 1 as int) == 10 * p10(i as int));
            assert(value * 10 + d < p10(i + 1 as int));
        }
        value = value * 10 + d;
        proof {
            assert(t@.subrange(0, i + 1 as int).drop_last() =~= t@.subrange(0, i as int));
            assert(t@.subrange(0, i + 1 as int).last() == t@[i as int]);
        }
        i += 1;
    }
    proof {
        assert(t@.subrange(0, t@.len() as int) =~= t@);
        assert(is_short_digits(t@));
    }
    if value == 0 || value > (i32::MAX as u64) {
        return None;
    }
    Some(value as i32)
}

/// The processes teardown signals: every positive pid listed in a
/// `cgroup.procs` file, in listing order.
pub fn pids_to_kill(content: &str) -> (r: Vec<i32>)
    ensures
        r@ == pids_from(content@, 0, Seq::empty()),
        forall|k: int| 0 <= k < r@.len() ==> r@[k] > 0,
{
    let v = str_chars(content);
    let mut r: Vec<i32> = Vec::new();
    let mut i: usize = 0;
    proof {
        assert(r@ =~= Seq::<i32>::empty());
        assert(v@ == content@);
    }
    loop
        invariant_except_break
            i <= v@.len() + 1,
            v@ == content@,
            pids_from(v@, i as int, r@) == pids_from(v@, 0, Seq::empty()),
            forall|k: int| 0 <= k < r@.len() ==> r@[k] > 0,
        ensures
            r@ == pids_from(content@, 0, Seq::empty()),
            forall|k: int| 0 <= k < r@.len() ==> r@[k] > 0,
        decreases v@.len() + 1 - i,
    {
        if i >= v.len() {
            proof {
                assert(pids_from(v@, i as int, r@) == r@);
            }
            break;
        }
        proof {
            lemma_first_at_bounds(v@, i as int, '\n');
        }
        let j = crate::strutil::find_at(&v, i, '\n');
        let line = subvec(&v, i, j);
        let ghost acc0 = r@;
        match parse_pid(&line) {
            None => {
                proof {
                    assert(pids_from(v@, i as int, acc0) == pids_from(v@, j as int + 1, acc0));
                }
            },
            Some(p) => {
                proof {
                    assert(p > 0);
                    assert(pids_from(v@, i as int, acc0) == pids_from(
                        v@,
                        j as int + 1,
                        acc0.push(p),
                    ));
                }
                r.push(p);
            },
        }
        if j >= v.len() {
            proof {
                assert(pids_from(v@, j as int + 1, r@) == r@);
            }
            break;
        }
        i = j + 1;
    }
    r
}

} // verus!
