//! The processes of the service: their names, and the ancestors that belong to it.
use vstd::prelude::*;

use crate::text::same_text;

verus! {

// ---- Names ----

/// The executables that the service runs as.
pub open spec fn service_name(name: Seq<char>) -> bool {
    name == "node.exe"@ || name == "cmd.exe"@ || name == "dsh.exe"@ || name == "npx.exe"@
}

/// Whether an executable, by its name in lower case, is one that the service
/// runs as. Only such a process is ended for holding the port.
pub fn is_dsh_process_name(exe_name: &str) -> (r: bool)
    ensures
        r == service_name(exe_name@),
{
    same_text(exe_name, "node.exe") || same_text(exe_name, "cmd.exe") || same_text(
        exe_name,
        "dsh.exe",
    ) || same_text(exe_name, "npx.exe")
}

/// Whether a process may be ended: not the idle process, and not this one.
pub fn may_terminate(pid: u32, own: u32) -> (r: bool)
    ensures
        r == (pid != 0 && pid != own),
{
    pid != 0 && pid != own
}

// ---- Counting what is not yet seen ----

/// How many of the ids from index `i` on are not in the set.
pub open spec fn fresh(ids: Seq<u32>, seen: Set<u32>, i: int) -> nat
    decreases ids.len() - i,
{
    if 0 <= i < ids.len() {
        fresh(ids, seen, i + 1) + (if seen.contains(ids[i]) {
            0nat
        } else {
            1nat
        })
    } else {
        0
    }
}

pub proof fn lemma_fresh_monotone(ids: Seq<u32>, a: Set<u32>, b: Set<u32>, i: int)
    requires
        a.subset_of(b),
    ensures
        fresh(ids, b, i) <= fresh(ids, a, i),
    decreases ids.len() - i,
{
    if 0 <= i < ids.len() {
        lemma_fresh_monotone(ids, a, b, i + 1);
    }
}

pub proof fn lemma_fresh_insert(ids: Seq<u32>, seen: Set<u32>, k: int, i: int)
    requires
        0 <= i <= k < ids.len(),
        !seen.contains(ids[k]),
    ensures
        fresh(ids, seen.insert(ids[k]), i) < fresh(ids, seen, i),
    decreases ids.len() - i,
{
    let more = seen.insert(ids[k]);
    if i < k {
        lemma_fresh_insert(ids, seen, k, i + 1);
    } else {
        lemma_fresh_monotone(ids, seen, more, i + 1);
    }
}

pub proof fn lemma_fresh_step(ids: Seq<u32>, small: Set<u32>, seen: Set<u32>, k: int)
    requires
        0 <= k < ids.len(),
        small.subset_of(seen),
        !seen.contains(ids[k]),
    ensures
        fresh(ids, seen.insert(ids[k]), 0) < fresh(ids, small, 0),
{
    lemma_fresh_insert(ids, seen, k, 0);
    lemma_fresh_monotone(ids, small, seen, 0);
}

/// Whether a list holds an id.
pub fn contains(v: &Vec<u32>, x: u32) -> (r: bool)
    ensures
        r == v@.contains(x),
{
    let mut i: usize = 0;
    while i < v.len()
        invariant
            i <= v@.len(),
            forall|k: int| 0 <= k < i ==> v@[k] != x,
        decreases v@.len() - i,
    {
        if v[i] == x {
            return true;
        }
        i += 1;
    }
    false
}

// ---- Ancestors ----

/// A process with its parent and the name of its executable.
pub type Named = (u32, u32, Seq<char>);

/// The rows of a process table, with the names as sequences of characters.
pub open spec fn rows(processes: Seq<(u32, u32, String)>) -> Seq<Named> {
    processes.map_values(|p: (u32, u32, String)| (p.0, p.1, p.2@))
}

/// The first row at or after `i` that is about this process, or the length.
pub open spec fn row_of(t: Seq<Named>, pid: u32, i: int) -> int
    decreases t.len() - i,
{
    if 0 <= i < t.len() && t[i].0 != pid {
        row_of(t, pid, i + 1)
    } else {
        i
    }
}

/// The name of a process, if the table has a row about it.
pub open spec fn name_of(t: Seq<Named>, pid: u32) -> Option<Seq<char>> {
    let i = row_of(t, pid, 0);
    if i < t.len() {
        Some(t[i].2)
    } else {
        None
    }
}

/// The parent of a process, if the table has a row about it.
pub open spec fn parent_of(t: Seq<Named>, pid: u32) -> Option<u32> {
    let i = row_of(t, pid, 0);
    if i < t.len() {
        Some(t[i].1)
    } else {
        None
    }
}

/// The parent of a process if it is a process of the service: it has a row, it is
/// not process 0, and its name is one that the service runs as.
pub open spec fn service_parent(t: Seq<Named>, pid: u32) -> Option<u32> {
    match parent_of(t, pid) {
        Some(parent) => match name_of(t, parent) {
            Some(name) => if parent != 0 && service_name(name) {
                Some(parent)
            } else {
                None
            },
            None => None,
        },
        None => None,
    }
}

pub open spec fn ids_of(t: Seq<Named>) -> Seq<u32> {
    t.map_values(|p: Named| p.0)
}

proof fn lemma_row_of(t: Seq<Named>, pid: u32, i: int)
    requires
        0 <= i <= t.len(),
    ensures
        i <= row_of(t, pid, i) <= t.len(),
        row_of(t, pid, i) < t.len() ==> t[row_of(t, pid, i)].0 == pid,
    decreases t.len() - i,
{
    if i < t.len() && t[i].0 != pid {
        lemma_row_of(t, pid, i + 1);
    }
}

pub proof fn lemma_ancestor_fresh(t: Seq<Named>, pid: u32, found: Seq<u32>)
    requires
        service_parent(t, pid) is Some,
        !found.contains(service_parent(t, pid)->0),
    ensures
        fresh(ids_of(t), found.push(service_parent(t, pid)->0).to_set(), 0) < fresh(
            ids_of(t),
            found.to_set(),
            0,
        ),
{
    let parent = service_parent(t, pid)->0;
    let j = row_of(t, parent, 0);
    lemma_row_of(t, parent, 0);
    assert(ids_of(t)[j] == parent);
    found.lemma_push_to_set_commute(parent);
    lemma_fresh_insert(ids_of(t), found.to_set(), j, 0);
}

/// The ancestors of a process that belong to the service: parent by parent, as
/// long as each is a process of the service that was not met before.
pub open spec fn ancestors(t: Seq<Named>, pid: u32, found: Seq<u32>) -> Seq<u32>
    decreases fresh(ids_of(t), found.to_set(), 0),
{
    match service_parent(t, pid) {
        Some(parent) => if found.contains(parent) {
            found
        } else {
            proof {
                lemma_ancestor_fresh(t, pid, found);
            }
            ancestors(t, parent, found.push(parent))
        },
        None => found,
    }
}

/// Finds the first row about a process.
pub fn find_row(processes: &[(u32, u32, String)], pid: u32) -> (r: Option<usize>)
    ensures
        match r {
            Some(i) => i < processes@.len() && row_of(rows(processes@), pid, 0) == i,
            None => row_of(rows(processes@), pid, 0) == processes@.len(),
        },
{
    let ghost t = rows(processes@);
    let n: usize = processes.len();
    let mut i: usize = 0;
    while i < n
        invariant
            n == processes@.len(),
            t == rows(processes@),
            i <= n,
            row_of(t, pid, 0) == row_of(t, pid, i as int),
        decreases n - i,
    {
        proof {
            assert(t[i as int].0 == processes@[i as int].0);
        }
        if processes[i].0 == pid {
            return Some(i);
        }
        i += 1;
    }
    None
}

fn find_service_parent(processes: &[(u32, u32, String)], pid: u32) -> (r: Option<u32>)
    ensures
        r == service_parent(rows(processes@), pid),
{
    match find_row(processes, pid) {
        Some(i) => {
            let parent: u32 = processes[i].1;
            match find_row(processes, parent) {
                Some(j) => if parent != 0 && is_dsh_process_name(processes[j].2.as_str()) {
                    Some(parent)
                } else {
                    None
                },
                None => None,
            }
        },
        None => None,
    }
}

/// The ancestors of a process that belong to the service (typically node, npx,
/// cmd, upward), without their other children.
pub fn collect_known_ancestors(pid: u32, processes: &[(u32, u32, String)]) -> (r: Vec<u32>)
    ensures
        r@ == ancestors(rows(processes@), pid, Seq::empty()),
{
    let ghost t = rows(processes@);
    let mut found: Vec<u32> = Vec::new();
    let mut current: u32 = pid;
    loop
        invariant
            t == rows(processes@),
            ancestors(t, pid, Seq::empty()) == ancestors(t, current, found@),
        ensures
            found@ == ancestors(t, pid, Seq::empty()),
        decreases fresh(ids_of(t), found@.to_set(), 0),
    {
        match find_service_parent(processes, current) {
            Some(parent) => {
                if contains(&found, parent) {
                    break;
                }
                proof {
                    lemma_ancestor_fresh(t, current, found@);
                }
                found.push(parent);
                current = parent;
            },
            None => {
                break;
            },
        }
    }
    found
}

/// Whether the `k`th ancestor is a process of the service, and the parent of the
/// one before it.
pub open spec fn is_link(t: Seq<Named>, pid: u32, a: Seq<u32>, k: int) -> bool {
    &&& a[k] != 0
    &&& name_of(t, a[k]) is Some
    &&& service_name(name_of(t, a[k])->0)
    &&& parent_of(
        t,
        if k == 0 {
            pid
        } else {
            a[k - 1]
        },
    ) == Some(a[k])
}

/// Every ancestor that is given is a process of the service, is not process 0, and
/// is the parent of the one before it; none is given twice.
pub proof fn law_ancestors_are_of_the_service(t: Seq<Named>, pid: u32)
    ensures
        ancestors(t, pid, Seq::empty()).no_duplicates(),
        forall|k: int|
            0 <= k < ancestors(t, pid, Seq::empty()).len() ==> #[trigger] is_link(
                t,
                pid,
                ancestors(t, pid, Seq::empty()),
                k,
            ),
{
    lemma_ancestors(t, pid, pid, Seq::empty());
}

proof fn lemma_ancestors(t: Seq<Named>, pid: u32, current: u32, found: Seq<u32>)
    requires
        found.no_duplicates(),
        forall|k: int| 0 <= k < found.len() ==> #[trigger] is_link(t, pid, found, k),
        current == (if found.len() == 0 {
            pid
        } else {
            found.last()
        }),
    ensures
        ancestors(t, current, found).no_duplicates(),
        forall|k: int|
            0 <= k < ancestors(t, current, found).len() ==> #[trigger] is_link(
                t,
                pid,
                ancestors(t, current, found),
                k,
            ),
    decreases fresh(ids_of(t), found.to_set(), 0),
{
    match service_parent(t, current) {
        Some(parent) => {
            if !found.contains(parent) {
                lemma_ancestor_fresh(t, current, found);
                let more = found.push(parent);
                assert forall|k: int| 0 <= k < more.len() implies #[trigger] is_link(
                    t,
                    pid,
                    more,
                    k,
                ) by {
                    if k < found.len() {
                        assert(is_link(t, pid, found, k));
                    }
                }
                lemma_ancestors(t, pid, parent, more);
            }
        },
        None => {},
    }
}

/// The first row about a process decides about its name and its parent; without a
/// row neither is known.
pub proof fn law_first_row_decides(t: Seq<Named>, pid: u32, i: int)
    requires
        0 <= i <= t.len(),
        forall|j: int| 0 <= j < i ==> (#[trigger] t[j]).0 != pid,
    ensures
        i < t.len() && t[i].0 == pid ==> name_of(t, pid) == Some(t[i].2) && parent_of(t, pid)
            == Some(t[i].1),
        i == t.len() ==> name_of(t, pid) is None && parent_of(t, pid) is None,
{
    lemma_row_skips(t, pid, 0, i);
}

proof fn lemma_row_skips(t: Seq<Named>, pid: u32, k: int, i: int)
    requires
        0 <= k <= i <= t.len(),
        forall|j: int| 0 <= j < i ==> (#[trigger] t[j]).0 != pid,
    ensures
        row_of(t, pid, k) == row_of(t, pid, i),
    decreases i - k,
{
    if k < i {
        assert(t[k].0 != pid);
        lemma_row_skips(t, pid, k + 1, i);
    }
}

/// The service runs as Node, as the command interpreter, as itself or as npx: an
/// executable of three or four letters, and no other.
pub proof fn law_service_names(name: Seq<char>)
    ensures
        service_name("node.exe"@),
        service_name("cmd.exe"@),
        service_name("dsh.exe"@),
        service_name("npx.exe"@),
        service_name(name) ==> name.len() <= 8 && name.skip(name.len() - 4) == ".exe"@ && (
        name.take(3) == "nod"@ || name.take(3) == "cmd"@ || name.take(3) == "dsh"@ || name.take(3)
            == "npx"@) && (name.len() == 8 <==> name.take(4) == "node"@),
{
    reveal_strlit("node.exe");
    reveal_strlit("cmd.exe");
    reveal_strlit("dsh.exe");
    reveal_strlit("npx.exe");
    reveal_strlit(".exe");
    reveal_strlit("nod");
    reveal_strlit("node");
    reveal_strlit("cmd");
    reveal_strlit("dsh");
    reveal_strlit("npx");
    if service_name(name) {
        assert(name.skip(name.len() - 4) =~= ".exe"@);
        if name == "node.exe"@ {
            assert(name.take(3) =~= "nod"@);
            assert(name.take(4) =~= "node"@);
        } else {
            assert(name.take(4)[3] == '.');
            assert("node"@[3] == 'e');
            if name == "cmd.exe"@ {
                assert(name.take(3) =~= "cmd"@);
            } else if name == "dsh.exe"@ {
                assert(name.take(3) =~= "dsh"@);
            } else {
                assert(name.take(3) =~= "npx"@);
            }
        }
    }
}

/// The ancestors go on as long as they can: the last one has no parent in the table,
/// or its parent is process 0, is not of the service, or is among them already.
pub proof fn law_ancestors_go_to_the_top(t: Seq<Named>, pid: u32)
    ensures
        ({
            let a = ancestors(t, pid, Seq::empty());
            let top = if a.len() == 0 {
                pid
            } else {
                a.last()
            };
            match parent_of(t, top) {
                None => true,
                Some(parent) => parent == 0 || a.contains(parent) || match name_of(t, parent) {
                    None => true,
                    Some(name) => !service_name(name),
                },
            }
        }),
{
    lemma_ancestors_top(t, pid, pid, Seq::empty());
}

proof fn lemma_ancestors_top(t: Seq<Named>, pid: u32, current: u32, found: Seq<u32>)
    requires
        current == (if found.len() == 0 {
            pid
        } else {
            found.last()
        }),
    ensures
        ({
            let a = ancestors(t, current, found);
            let top = if a.len() == 0 {
                pid
            } else {
                a.last()
            };
            service_parent(t, top) matches Some(parent) ==> a.contains(parent)
        }),
    decreases fresh(ids_of(t), found.to_set(), 0),
{
    match service_parent(t, current) {
        Some(parent) => {
            if !found.contains(parent) {
                lemma_ancestor_fresh(t, current, found);
                lemma_ancestors_top(t, pid, parent, found.push(parent));
            }
        },
        None => {},
    }
}

/// A table holds its rows, as they are and where they are.
pub proof fn law_rows_are_held(processes: Seq<(u32, u32, String)>, i: int)
    ensures
        rows(processes).len() == processes.len(),
        0 <= i < processes.len() ==> rows(processes)[i] == (
            processes[i].0,
            processes[i].1,
            processes[i].2@,
        ),
{
}

} // verus!
