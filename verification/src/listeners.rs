//! Who holds the port, and who is ended for it.
use vstd::prelude::*;

use crate::process::{
    ancestors, collect_known_ancestors, find_row, is_dsh_process_name, is_link,
    law_ancestors_are_of_the_service, name_of, rows, service_name, Named,
};
use crate::text::same_text;
use crate::tree::{kill_process_tree, law_kill_process_tree, reaches, trees, Process};

verus! {

// ---- Who listens ----

/// The state of a connection that listens (`MIB_TCP_STATE_LISTEN`).
pub const LISTENING: u32 = 2;

/// A row of the system's table of TCP connections.
#[derive(Clone, Copy, Debug, PartialEq, Eq, Structural)]
pub struct TcpRow {
    pub state: u32,
    /// The local port, in network byte order, in the low 16 bits.
    pub local_port: u32,
    pub pid: u32,
}

/// The port in the low 16 bits of a field, out of network byte order.
pub open spec fn host_port(field: u32) -> int {
    (field % 256) * 256 + (field / 256) % 256
}

/// Whether a row is about a listener on this port.
pub open spec fn listens(row: TcpRow, port: u16) -> bool {
    row.state == LISTENING && host_port(row.local_port) == port
}

/// The processes that listen on a port, in the order of the table.
pub open spec fn listeners(table: Seq<TcpRow>, port: u16) -> Seq<u32> {
    table.filter(|row: TcpRow| listens(row, port)).map_values(|row: TcpRow| row.pid)
}

/// The processes that listen on a port.
pub fn listener_pids(table: &[TcpRow], port: u16) -> (r: Vec<u32>)
    ensures
        r@ == listeners(table@, port),
{
    let mut out: Vec<u32> = Vec::new();
    let mut i: usize = 0;
    let ghost wanted = |row: TcpRow| listens(row, port);
    let ghost pid = |row: TcpRow| row.pid;
    proof {
        assert(table@.take(0).filter(wanted) =~= Seq::<TcpRow>::empty()) by {
            reveal(Seq::filter);
        }
    }
    while i < table.len()
        invariant
            i <= table@.len(),
            wanted == (|row: TcpRow| listens(row, port)),
            pid == (|row: TcpRow| row.pid),
            out@ == table@.take(i as int).filter(wanted).map_values(pid),
        decreases table@.len() - i,
    {
        let row: TcpRow = table[i];
        let ghost before = table@.take(i as int).filter(wanted);
        proof {
            assert(table@.take(i + 1).drop_last() =~= table@.take(i as int));
            assert(table@.take(i + 1).last() == row);
            reveal(Seq::filter);
        }
        if row.state == LISTENING && (row.local_port % 256) * 256 + (row.local_port / 256) % 256
            == port as u32 {
            out.push(row.pid);
            proof {
                assert(before.push(row).map_values(pid) =~= before.map_values(pid).push(row.pid));
            }
        }
        i += 1;
    }
    proof {
        assert(table@.take(i as int) =~= table@);
    }
    out
}

/// The system's answer that a buffer is too small (`ERROR_INSUFFICIENT_BUFFER`).
pub const BUFFER_TOO_SMALL: u32 = 122;

/// The system's answer that a call succeeded (`ERROR_SUCCESS`).
pub const SUCCESS: u32 = 0;

/// How often the table is asked for while it outgrows its buffer.
pub const TABLE_TRIES: u32 = 3;

/// What to do about the table of TCP connections.
#[derive(Clone, Copy, Debug, PartialEq, Eq, Structural)]
pub enum TableAction {
    /// Ask for its size.
    AskSize,
    /// Read it into a buffer of this many units of eight bytes.
    Read(u32),
    /// It was read.
    Rows,
    /// It cannot be had: nobody is known to listen.
    Nothing,
}

/// The tries that were made to read the table.
#[derive(Clone, Copy, Debug, PartialEq, Eq, Structural)]
pub struct TableQuery {
    pub tries: u32,
}

impl TableQuery {
    /// Before the first try.
    pub fn new() -> (r: (TableQuery, TableAction))
        ensures
            r.0.tries == 0,
            r.1 == TableAction::AskSize,
    {
        (TableQuery { tries: 0 }, TableAction::AskSize)
    }

    /// The size was asked for: the expected answer is that no buffer is too small
    /// a buffer.
    pub fn sized(&self, answer: u32, size: u32) -> (r: TableAction)
        ensures
            r == (if answer != BUFFER_TOO_SMALL || size == 0 {
                TableAction::Nothing
            } else {
                TableAction::Read(((size + 7) / 8) as u32)
            }),
    {
        if answer != BUFFER_TOO_SMALL || size == 0 {
            TableAction::Nothing
        } else {
            TableAction::Read((size - 1) / 8 + 1)
        }
    }

    /// The table was read, or had grown meanwhile, or cannot be read.
    pub fn read(&mut self, answer: u32) -> (r: TableAction)
        requires
            old(self).tries < TABLE_TRIES,
        ensures
            final(self).tries == old(self).tries + 1,
            r == (if answer == SUCCESS {
                TableAction::Rows
            } else if answer == BUFFER_TOO_SMALL && old(self).tries + 1 < TABLE_TRIES {
                TableAction::AskSize
            } else {
                TableAction::Nothing
            }),
    {
        self.tries += 1;
        if answer == SUCCESS {
            TableAction::Rows
        } else if answer == BUFFER_TOO_SMALL && self.tries < TABLE_TRIES {
            TableAction::AskSize
        } else {
            TableAction::Nothing
        }
    }
}

// ---- Whom to end for holding the port ----

/// Whether a listener is a stranger: its name is known, and is not one that the
/// service runs as.
pub open spec fn is_stranger(t: Seq<Named>, pid: u32) -> bool {
    name_of(t, pid) matches Some(name) && !service_name(name)
}

/// Whether the ancestors of a listener are ended with it: it is known to be of the
/// service, and is not itself a command interpreter.
pub open spec fn has_wrappers(t: Seq<Named>, pid: u32) -> bool {
    name_of(t, pid) matches Some(name) && service_name(name) && name != "cmd.exe"@
}

/// What a stranger is called.
pub open spec fn stranger(t: Seq<Named>, pid: u32) -> (u32, Seq<char>) {
    (pid, name_of(t, pid)->0)
}

/// The listeners on the port, sorted.
#[derive(Debug)]
pub struct Sorted {
    /// Those whose trees are ended.
    pub roots: Vec<u32>,
    /// Those whose ancestors are ended too.
    pub ancestor_roots: Vec<u32>,
    /// The strangers, which are left alone.
    pub skipped: Vec<(u32, String)>,
}

/// What the strangers are called.
pub open spec fn strangers(v: Seq<(u32, String)>) -> Seq<(u32, Seq<char>)> {
    v.map_values(|p: (u32, String)| (p.0, p.1@))
}

/// Sorts the listeners on the port by their names. One whose name cannot be found
/// is ended: it may be the service.
pub fn sort_listeners(pids: &[u32], named: &[(u32, u32, String)]) -> (r: Sorted)
    ensures
        r.roots@ == pids@.filter(|p: u32| !is_stranger(rows(named@), p)),
        r.ancestor_roots@ == pids@.filter(|p: u32| has_wrappers(rows(named@), p)),
        strangers(r.skipped@) == pids@.filter(|p: u32| is_stranger(rows(named@), p)).map_values(
            |p: u32| stranger(rows(named@), p),
        ),
{
    let ghost t = rows(named@);
    let ghost root = |p: u32| !is_stranger(t, p);
    let ghost wraps = |p: u32| has_wrappers(t, p);
    let ghost strange = |p: u32| is_stranger(t, p);
    let ghost call = |p: u32| stranger(t, p);
    let mut roots: Vec<u32> = Vec::new();
    let mut ancestor_roots: Vec<u32> = Vec::new();
    let mut skipped: Vec<(u32, String)> = Vec::new();
    let mut i: usize = 0;
    proof {
        reveal(Seq::filter);
        assert(pids@.take(0).filter(root) =~= Seq::<u32>::empty());
        assert(pids@.take(0).filter(wraps) =~= Seq::<u32>::empty());
        assert(pids@.take(0).filter(strange) =~= Seq::<u32>::empty());
        assert(strangers(skipped@) =~= pids@.take(0).filter(strange).map_values(call));
    }
    while i < pids.len()
        invariant
            i <= pids@.len(),
            t == rows(named@),
            root == (|p: u32| !is_stranger(t, p)),
            wraps == (|p: u32| has_wrappers(t, p)),
            strange == (|p: u32| is_stranger(t, p)),
            call == (|p: u32| stranger(t, p)),
            roots@ == pids@.take(i as int).filter(root),
            ancestor_roots@ == pids@.take(i as int).filter(wraps),
            strangers(skipped@) == pids@.take(i as int).filter(strange).map_values(call),
        decreases pids@.len() - i,
    {
        let pid: u32 = pids[i];
        let ghost before = pids@.take(i as int).filter(strange);
        let ghost skipped_before = skipped@;
        proof {
            assert(pids@.take(i + 1).drop_last() =~= pids@.take(i as int));
            assert(pids@.take(i + 1).last() == pid);
            reveal(Seq::filter);
        }
        match find_row(named, pid) {
            Some(k) => {
                let name = named[k].2.as_str();
                proof {
                    assert(t[k as int].2 == name@);
                }
                if !is_dsh_process_name(name) {
                    skipped.push((pid, named[k].2.clone()));
                    proof {
                        assert(strangers(skipped@) =~= strangers(skipped_before).push(
                            stranger(t, pid),
                        ));
                        assert(before.push(pid).map_values(call) =~= before.map_values(call).push(
                            stranger(t, pid),
                        ));
                    }
                } else {
                    roots.push(pid);
                    if !same_text(name, "cmd.exe") {
                        ancestor_roots.push(pid);
                    }
                }
            },
            None => {
                roots.push(pid);
            },
        }
        i += 1;
    }
    proof {
        assert(pids@.take(i as int) =~= pids@);
    }
    Sorted { roots, ancestor_roots, skipped }
}

/// The ancestors of several processes, one process after another.
pub open spec fn all_ancestors(t: Seq<Named>, pids: Seq<u32>) -> Seq<u32>
    decreases pids.len(),
{
    if pids.len() == 0 {
        Seq::empty()
    } else {
        all_ancestors(t, pids.drop_last()) + ancestors(t, pids.last(), Seq::empty())
    }
}

/// Whom to end, in order: the trees of the roots, then the ancestors.
pub open spec fn victims(
    t: Seq<Named>,
    ps: Seq<Process>,
    roots: Seq<u32>,
    ancestor_roots: Seq<u32>,
) -> Seq<u32> {
    trees(roots, ps, Set::empty(), Seq::empty(), 0) + all_ancestors(t, ancestor_roots)
}

fn append(out: &mut Vec<u32>, more: &Vec<u32>)
    ensures
        final(out)@ == old(out)@ + more@,
{
    let ghost before = out@;
    let mut i: usize = 0;
    while i < more.len()
        invariant
            i <= more@.len(),
            out@ == before + more@.take(i as int),
        decreases more@.len() - i,
    {
        out.push(more[i]);
        proof {
            assert(before + more@.take(i + 1) =~= (before + more@.take(i as int)).push(
                more@[i as int],
            ));
        }
        i += 1;
    }
    proof {
        assert(more@.take(i as int) =~= more@);
    }
}

/// The processes to end, in order, so that the trees of the roots are gone, and
/// the wrappers above those whose ancestors are ended too.
pub fn kill_list(
    roots: &[u32],
    ancestor_roots: &[u32],
    named: &[(u32, u32, String)],
    processes: &[(u32, u32)],
) -> (r: Vec<u32>)
    ensures
        r@ == victims(rows(named@), processes@, roots@, ancestor_roots@),
{
    let ghost t = rows(named@);
    let mut out = kill_process_tree(roots, processes);
    let ghost first = out@;
    let mut i: usize = 0;
    proof {
        assert(first + all_ancestors(t, ancestor_roots@.take(0)) =~= first);
    }
    while i < ancestor_roots.len()
        invariant
            i <= ancestor_roots@.len(),
            t == rows(named@),
            out@ == first + all_ancestors(t, ancestor_roots@.take(i as int)),
        decreases ancestor_roots@.len() - i,
    {
        let above = collect_known_ancestors(ancestor_roots[i], named);
        append(&mut out, &above);
        proof {
            let next = ancestor_roots@.take(i + 1);
            assert(next.drop_last() =~= ancestor_roots@.take(i as int));
            assert(out@ =~= first + all_ancestors(t, next));
        }
        i += 1;
    }
    proof {
        assert(ancestor_roots@.take(i as int) =~= ancestor_roots@);
    }
    out
}

/// No stranger is ended for holding the port: whoever is ended is in the tree of a
/// listener that is of the service or has no known name, or is an ancestor of a
/// listener and of the service itself.
pub proof fn law_strangers_are_spared(t: Seq<Named>, ps: Seq<Process>, pids: Seq<u32>)
    ensures
        ({
            let roots = pids.filter(|p: u32| !is_stranger(t, p));
            let climbing = pids.filter(|p: u32| has_wrappers(t, p));
            forall|x: u32| #[trigger]
                victims(t, ps, roots, climbing).contains(x) ==> {
                    ||| exists|p: u32| pids.contains(p) && !is_stranger(t, p) && #[trigger] reaches(
                        ps,
                        p,
                        x,
                    )
                    ||| x != 0 && name_of(t, x) is Some && service_name(name_of(t, x)->0)
                }
        }),
{
    let roots = pids.filter(|p: u32| !is_stranger(t, p));
    let climbing = pids.filter(|p: u32| has_wrappers(t, p));
    let first = trees(roots, ps, Set::empty(), Seq::empty(), 0);
    law_kill_process_tree(roots, ps);
    lemma_all_ancestors(t, climbing);
    assert forall|x: u32| #[trigger] victims(t, ps, roots, climbing).contains(x) implies {
        ||| exists|p: u32| pids.contains(p) && !is_stranger(t, p) && #[trigger] reaches(ps, p, x)
        ||| x != 0 && name_of(t, x) is Some && service_name(name_of(t, x)->0)
    } by {
        let all = victims(t, ps, roots, climbing);
        let k = choose|k: int| 0 <= k < all.len() && all[k] == x;
        if k < first.len() {
            assert(first[k] == x);
            assert(first.contains(x));
            let r = choose|r: int| 0 <= r < roots.len() && reaches(ps, #[trigger] roots[r], x);
            lemma_filter_from(pids, |p: u32| !is_stranger(t, p), r);
        } else {
            assert(all_ancestors(t, climbing)[k - first.len()] == x);
        }
    }
}

/// What a filter keeps comes from the sequence, and passes the filter.
pub proof fn lemma_filter_from(s: Seq<u32>, pred: spec_fn(u32) -> bool, k: int)
    requires
        0 <= k < s.filter(pred).len(),
    ensures
        s.contains(s.filter(pred)[k]),
        pred(s.filter(pred)[k]),
    decreases s.len(),
{
    reveal(Seq::filter);
    if s.len() > 0 {
        let init = s.drop_last();
        if k < init.filter(pred).len() {
            lemma_filter_from(init, pred, k);
            let x = s.filter(pred)[k];
            assert(x == init.filter(pred)[k]);
            let m = choose|m: int| 0 <= m < init.len() && init[m] == x;
            assert(s[m] == x);
        } else {
            assert(s[s.len() - 1] == s.last());
        }
    }
}

proof fn lemma_all_ancestors(t: Seq<Named>, pids: Seq<u32>)
    ensures
        forall|k: int|
            0 <= k < all_ancestors(t, pids).len() ==> {
                let x = #[trigger] all_ancestors(t, pids)[k];
                x != 0 && name_of(t, x) is Some && service_name(name_of(t, x)->0)
            },
    decreases pids.len(),
{
    if pids.len() > 0 {
        lemma_all_ancestors(t, pids.drop_last());
        law_ancestors_are_of_the_service(t, pids.last());
        let init = all_ancestors(t, pids.drop_last());
        let last = ancestors(t, pids.last(), Seq::empty());
        let all = all_ancestors(t, pids);
        assert forall|k: int| 0 <= k < all.len() implies {
            let x = #[trigger] all[k];
            x != 0 && name_of(t, x) is Some && service_name(name_of(t, x)->0)
        } by {
            if k < init.len() {
                assert(all[k] == init[k]);
            } else {
                assert(all[k] == last[k - init.len()]);
                assert(is_link(t, pids.last(), last, k - init.len()));
            }
        }
    }
}

/// The port of a row is the one whose two bytes stand in network byte order, the
/// high byte first, in the two low bytes of the field; what stands above them does
/// not matter.
pub proof fn law_port_in_network_order(port: u16, above: u32)
    requires
        above < 65536,
    ensures
        host_port((above * 65536 + (port % 256) * 256 + port / 256) as u32) == port,
{
    let (hi, lo) = (port as int / 256, port as int % 256);
    let field = above * 65536 + lo * 256 + hi;
    assert(field % 256 == hi);
    assert((field / 256) == above * 256 + lo);
    assert((field / 256) % 256 == lo);
}

/// The listeners on a port are the processes of the rows that listen there, state 2
/// and the port in network byte order: each such row is found, and nothing else is.
pub proof fn law_listeners_are_found(table: Seq<TcpRow>, port: u16, pid: u32)
    ensures
        listeners(table, port).contains(pid) <==> exists|k: int|
            0 <= k < table.len() && (#[trigger] table[k]).pid == pid && table[k].state == 2
                && table[k].local_port % 256 == port / 256 && (table[k].local_port / 256) % 256
                == port % 256,
    decreases table.len(),
{
    reveal(Seq::filter);
    let wanted = |row: TcpRow| listens(row, port);
    let all = listeners(table, port);
    if table.len() > 0 {
        let init = table.drop_last();
        let last = table.last();
        law_listeners_are_found(init, port, pid);
        let before = listeners(init, port);
        let (a, b) = (last.local_port as int % 256, (last.local_port as int / 256) % 256);
        assert(listens(last, port) <==> last.state == 2 && a == port / 256 && b == port % 256) by {
            assert(0 <= a < 256 && 0 <= b < 256);
        }
        if listens(last, port) {
            assert(all =~= before.push(last.pid));
            assert(all[all.len() - 1] == last.pid);
            if before.contains(pid) {
                let m = choose|m: int| 0 <= m < before.len() && before[m] == pid;
                assert(all[m] == pid);
            }
            if all.contains(pid) && last.pid != pid {
                let m = choose|m: int| 0 <= m < all.len() && all[m] == pid;
                assert(before[m] == pid);
            }
        } else {
            assert(all =~= before);
        }
        if exists|k: int|
            0 <= k < init.len() && (#[trigger] init[k]).pid == pid && init[k].state == 2
                && init[k].local_port % 256 == port / 256 && (init[k].local_port / 256) % 256
                == port % 256 {
            let k = choose|k: int|
                0 <= k < init.len() && (#[trigger] init[k]).pid == pid && init[k].state == 2
                    && init[k].local_port % 256 == port / 256 && (init[k].local_port / 256) % 256
                    == port % 256;
            assert(table[k] == init[k]);
        }
        if exists|k: int|
            0 <= k < table.len() && (#[trigger] table[k]).pid == pid && table[k].state == 2
                && table[k].local_port % 256 == port / 256 && (table[k].local_port / 256) % 256
                == port % 256 {
            let k = choose|k: int|
                0 <= k < table.len() && (#[trigger] table[k]).pid == pid && table[k].state == 2
                    && table[k].local_port % 256 == port / 256 && (table[k].local_port / 256) % 256
                    == port % 256;
            if k < init.len() {
                assert(init[k] == table[k]);
            }
        }
        assert(table[table.len() - 1] == last);
    }
}

/// The listeners come in the order of the table, row by row.
pub proof fn law_listeners_in_order(a: Seq<TcpRow>, b: Seq<TcpRow>, row: TcpRow, port: u16)
    ensures
        listeners(a + b, port) == listeners(a, port) + listeners(b, port),
        listeners(seq![row], port) == (if row.state == 2 && row.local_port % 256 == port / 256 && (
        row.local_port / 256) % 256 == port % 256 {
            seq![row.pid]
        } else {
            seq![]
        }),
{
    let wanted = |row: TcpRow| listens(row, port);
    Seq::filter_distributes_over_add(a, b, wanted);
    assert(listeners(a + b, port) =~= listeners(a, port) + listeners(b, port));
    reveal(Seq::filter);
    assert(seq![row].drop_last() =~= Seq::<TcpRow>::empty());
    let (x, y) = (row.local_port as int % 256, (row.local_port as int / 256) % 256);
    assert(0 <= x < 256 && 0 <= y < 256);
    assert(listens(row, port) <==> row.state == 2 && x == port / 256 && y == port % 256);
    assert(Seq::<TcpRow>::empty().filter(wanted) =~= Seq::<TcpRow>::empty());
    if listens(row, port) {
        assert(listeners(seq![row], port) =~= seq![row.pid]);
    } else {
        assert(listeners(seq![row], port) =~= Seq::<u32>::empty());
    }
}

proof fn lemma_in_all_ancestors(t: Seq<Named>, pids: Seq<u32>, x: u32)
    ensures
        all_ancestors(t, pids).contains(x) <==> exists|p: u32|
            pids.contains(p) && #[trigger] ancestors(t, p, Seq::empty()).contains(x),
    decreases pids.len(),
{
    if pids.len() > 0 {
        let init = pids.drop_last();
        let last = pids.last();
        lemma_in_all_ancestors(t, init, x);
        let (a, b) = (all_ancestors(t, init), ancestors(t, last, Seq::empty()));
        let all = all_ancestors(t, pids);
        assert(all == a + b);
        if all.contains(x) {
            let k = choose|k: int| 0 <= k < all.len() && all[k] == x;
            if k < a.len() {
                assert(a[k] == x);
                let p = choose|p: u32|
                    init.contains(p) && #[trigger] ancestors(t, p, Seq::empty()).contains(x);
                let m = choose|m: int| 0 <= m < init.len() && init[m] == p;
                assert(pids[m] == p);
                assert(pids.contains(p) && ancestors(t, p, Seq::empty()).contains(x));
            } else {
                assert(b[k - a.len()] == x);
                assert(pids[pids.len() - 1] == last);
                assert(pids.contains(last) && ancestors(t, last, Seq::empty()).contains(x));
            }
        }
        if exists|p: u32| pids.contains(p) && #[trigger] ancestors(t, p, Seq::empty()).contains(x) {
            let p = choose|p: u32|
                pids.contains(p) && #[trigger] ancestors(t, p, Seq::empty()).contains(x);
            let m = choose|m: int| 0 <= m < pids.len() && pids[m] == p;
            if m < init.len() {
                assert(init[m] == p);
                assert(init.contains(p) && ancestors(t, p, Seq::empty()).contains(x));
                let k = choose|k: int| 0 <= k < a.len() && a[k] == x;
                assert(all[k] == x);
            } else {
                let k = choose|k: int| 0 <= k < b.len() && b[k] == x;
                assert(all[a.len() + k] == x);
            }
        }
    }
}

/// Who is ended for holding the port: whoever is in the tree of a listener whose name
/// is not known or is one of the service's, and the ancestors of the service above a
/// listener that is one of the service's and no command interpreter; no one else.
pub proof fn law_who_is_ended(t: Seq<Named>, ps: Seq<Process>, pids: Seq<u32>, x: u32)
    ensures
        ({
            let roots = pids.filter(|p: u32| !is_stranger(t, p));
            let climbing = pids.filter(|p: u32| has_wrappers(t, p));
            victims(t, ps, roots, climbing).contains(x) <==> {
                ||| exists|p: u32|
                    pids.contains(p) && (name_of(t, p) matches Some(name) ==> service_name(name))
                        && #[trigger] reaches(ps, p, x)
                ||| exists|p: u32|
                    pids.contains(p) && (name_of(t, p) matches Some(name) && service_name(name)
                        && name != "cmd.exe"@) && #[trigger] ancestors(
                        t,
                        p,
                        Seq::empty(),
                    ).contains(x)
            }
        }),
{
    let (root, wraps) = (|p: u32| !is_stranger(t, p), |p: u32| has_wrappers(t, p));
    let roots = pids.filter(root);
    let climbing = pids.filter(wraps);
    let first = trees(roots, ps, Set::empty(), Seq::empty(), 0);
    let second = all_ancestors(t, climbing);
    let all = victims(t, ps, roots, climbing);
    law_kill_process_tree(roots, ps);
    lemma_in_all_ancestors(t, climbing, x);
    if all.contains(x) {
        let k = choose|k: int| 0 <= k < all.len() && all[k] == x;
        if k < first.len() {
            assert(first[k] == x);
            assert(first.contains(x));
            let r = choose|r: int| 0 <= r < roots.len() && reaches(ps, #[trigger] roots[r], x);
            lemma_filter_from(pids, root, r);
        } else {
            assert(second[k - first.len()] == x);
            let p = choose|p: u32|
                climbing.contains(p) && #[trigger] ancestors(t, p, Seq::empty()).contains(x);
            let m = choose|m: int| 0 <= m < climbing.len() && climbing[m] == p;
            lemma_filter_from(pids, wraps, m);
        }
    }
    if exists|p: u32|
        pids.contains(p) && (name_of(t, p) matches Some(name) ==> service_name(name))
            && #[trigger] reaches(ps, p, x) {
        let p = choose|p: u32|
            pids.contains(p) && (name_of(t, p) matches Some(name) ==> service_name(name))
                && #[trigger] reaches(ps, p, x);
        let m = choose|m: int| 0 <= m < pids.len() && pids[m] == p;
        assert(root(pids[m]));
        pids.lemma_filter_contains(root, m);
        let r = choose|r: int| 0 <= r < roots.len() && roots[r] == p;
        assert(reaches(ps, roots[r], x));
        assert(first.contains(x));
        let k = choose|k: int| 0 <= k < first.len() && first[k] == x;
        assert(all[k] == x);
    }
    if exists|p: u32|
        pids.contains(p) && (name_of(t, p) matches Some(name) && service_name(name) && name
            != "cmd.exe"@) && #[trigger] ancestors(t, p, Seq::empty()).contains(x) {
        let p = choose|p: u32|
            pids.contains(p) && (name_of(t, p) matches Some(name) && service_name(name) && name
                != "cmd.exe"@) && #[trigger] ancestors(t, p, Seq::empty()).contains(x);
        let m = choose|m: int| 0 <= m < pids.len() && pids[m] == p;
        assert(wraps(pids[m]));
        pids.lemma_filter_contains(wraps, m);
        assert(second.contains(x));
        let k = choose|k: int| 0 <= k < second.len() && second[k] == x;
        assert(all[first.len() + k] == x);
    }
}

/// The trees are ended before the ancestors.
pub proof fn law_trees_before_ancestors(
    t: Seq<Named>,
    ps: Seq<Process>,
    roots: Seq<u32>,
    climbing: Seq<u32>,
    p: u32,
)
    ensures
        ({
            let first = trees(roots, ps, Set::empty(), Seq::empty(), 0);
            &&& victims(t, ps, roots, climbing).take(first.len() as int) == first
            &&& victims(t, ps, roots, Seq::empty()) == first
            &&& victims(t, ps, roots, climbing.push(p)) == victims(t, ps, roots, climbing)
                + ancestors(t, p, Seq::empty())
        }),
{
    let first = trees(roots, ps, Set::empty(), Seq::empty(), 0);
    assert(victims(t, ps, roots, climbing).take(first.len() as int) =~= first);
    assert(victims(t, ps, roots, Seq::empty()) =~= first);
    assert(climbing.push(p).drop_last() =~= climbing);
    assert(victims(t, ps, roots, climbing.push(p)) =~= victims(t, ps, roots, climbing) + ancestors(
        t,
        p,
        Seq::empty(),
    ));
}

/// A stranger is called by its number and its name, where it stands in the list.
pub proof fn law_strangers_are_named(v: Seq<(u32, String)>, t: Seq<Named>, pid: u32, i: int)
    ensures
        strangers(v).len() == v.len(),
        0 <= i < v.len() ==> strangers(v)[i] == (v[i].0, v[i].1@),
        name_of(t, pid) matches Some(name) ==> stranger(t, pid) == (pid, name),
{
}

/// A listener is spared exactly if its name is known and is not one of the service's;
/// its ancestors are ended with it exactly if its name is one of the service's, but
/// not that of the command interpreter.
pub proof fn law_listeners_are_sorted(t: Seq<Named>, pid: u32)
    ensures
        is_stranger(t, pid) <==> name_of(t, pid) is Some && !service_name(name_of(t, pid)->0),
        has_wrappers(t, pid) <==> name_of(t, pid) == Some("node.exe"@) || name_of(t, pid) == Some(
            "dsh.exe"@,
        ) || name_of(t, pid) == Some("npx.exe"@),
{
    reveal_strlit("node.exe");
    reveal_strlit("cmd.exe");
    reveal_strlit("dsh.exe");
    reveal_strlit("npx.exe");
    assert("cmd.exe"@[0] != "node.exe"@[0]);
    assert("cmd.exe"@[0] != "dsh.exe"@[0]);
    assert("cmd.exe"@[0] != "npx.exe"@[0]);
}

} // verus!
