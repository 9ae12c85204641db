//! The service's output on its way into the log: cut at line feeds, and where a
//! block ends without one, between characters.
use vstd::prelude::*;
use vstd::slice::slice_subrange;
use vstd::utf8::{decode_utf8, valid_utf8, valid_utf8_concat};

use crate::bytes::{
    cut_off, extend, feed_at, find_feed, is_cut_off, joined, law_valid_up_to_is_longest,
    lemma_cut_at_ascii, lemma_cut_off_completes, lemma_feed_at_bounds, lemma_joined_concat, lemma_joined_push,
    lemma_prefix_cut_off, lemma_valid_suffix, lemma_valid_up_to_rest, lossy_text, text_of,
    valid_prefix, valid_up_to,
};
use crate::log::{dsh_output, error, said, writes, Level, Line, LogCommand};
use crate::text::push_all;

verus! {

// ---- Lines ----

/// Where a piece ends without the carriage returns and line feeds at its end.
pub open spec fn stripped_end(b: Seq<u8>, n: int) -> int
    decreases n,
{
    if 0 < n <= b.len() && (b[n - 1] == 10 || b[n - 1] == 13) {
        stripped_end(b, n - 1)
    } else {
        n
    }
}

/// A piece without the carriage returns and line feeds at its end.
pub open spec fn stripped(b: Seq<u8>) -> Seq<u8> {
    b.take(stripped_end(b, b.len() as int))
}

/// The line that a piece of output is logged as.
pub open spec fn output_line(piece: Seq<u8>) -> Line {
    (Level::Dsh, text_of(stripped(piece)))
}

/// The line that a piece of output is logged as: without the carriage returns and
/// line feeds at its end, and with what is not UTF-8 replaced.
pub fn log_dsh_bytes(piece: &[u8]) -> (r: LogCommand)
    ensures
        writes(r, Level::Dsh, output_line(piece@).1),
        valid_utf8(stripped(piece@)) ==> writes(r, Level::Dsh, decode_utf8(stripped(piece@))),
{
    let mut end: usize = piece.len();
    while end > 0 && (piece[end - 1] == 10 || piece[end - 1] == 13)
        invariant
            end <= piece@.len(),
            stripped_end(piece@, piece@.len() as int) == stripped_end(piece@, end as int),
        decreases end,
    {
        end -= 1;
    }
    let body = slice_subrange(piece, 0, end);
    proof {
        assert(body@ =~= stripped(piece@));
    }
    let text = lossy_text(body);
    dsh_output(text.as_str())
}

/// A piece of valid UTF-8 is still valid without its line end.
pub proof fn law_stripped_is_valid(piece: Seq<u8>)
    requires
        valid_utf8(piece),
    ensures
        valid_utf8(stripped(piece)),
{
    assert(piece.take(piece.len() as int) =~= piece);
    lemma_stripped_is_valid(piece, piece.len() as int);
}

proof fn lemma_stripped_is_valid(b: Seq<u8>, n: int)
    requires
        0 <= n <= b.len(),
        valid_utf8(b.take(n)),
    ensures
        valid_utf8(b.take(stripped_end(b, n))),
    decreases n,
{
    if 0 < n && (b[n - 1] == 10 || b[n - 1] == 13) {
        lemma_cut_at_ascii(b.take(n), n - 1);
        assert(b.take(n).take(n - 1) =~= b.take(n - 1));
        lemma_stripped_is_valid(b, n - 1);
    }
}

// ---- Blocks without a line feed ----

/// How much of a block without a line feed can be logged at once: its whole
/// characters; if it begins with none, nothing as long as more bytes could
/// complete one, else all of it.
pub open spec fn flushable(b: Seq<u8>) -> int {
    if valid_up_to(b) > 0 {
        valid_up_to(b)
    } else if b.len() > 0 && !cut_off(b) {
        b.len() as int
    } else {
        0
    }
}

fn skip_front(v: &mut Vec<u8>, n: usize)
    requires
        n <= old(v)@.len(),
    ensures
        final(v)@ == old(v)@.skip(n as int),
{
    let mut rest: Vec<u8> = Vec::new();
    let tail = slice_subrange(v.as_slice(), n, v.len());
    extend(&mut rest, tail);
    proof {
        assert(rest@ =~= v@.skip(n as int));
    }
    *v = rest;
}

/// Takes out of the pending bytes what can be logged at once.
pub fn take_flushable_partial_bytes(pending: &mut Vec<u8>) -> (r: Vec<u8>)
    ensures
        r@ == old(pending)@.take(flushable(old(pending)@)),
        final(pending)@ == old(pending)@.skip(flushable(old(pending)@)),
{
    let ghost before = pending@;
    let valid: usize = valid_prefix(pending.as_slice());
    let n: usize = if valid > 0 {
        valid
    } else if pending.len() > 0 && !is_cut_off(pending.as_slice()) {
        pending.len()
    } else {
        0
    };
    let mut out: Vec<u8> = Vec::new();
    let head = slice_subrange(pending.as_slice(), 0, n);
    extend(&mut out, head);
    proof {
        assert(out@ =~= before.take(n as int));
    }
    skip_front(pending, n);
    out
}

// ---- Blocks ----

/// The lines of a block that end with a line feed, from index `i` on.
pub open spec fn closed_lines(b: Seq<u8>, i: int) -> Seq<Seq<u8>>
    decreases b.len() - i,
{
    let j = feed_at(b, i);
    if 0 <= i <= j < b.len() {
        seq![b.subrange(i, j + 1)] + closed_lines(b, j + 1)
    } else {
        Seq::empty()
    }
}

/// Where the last line begins, which no line feed ends.
pub open spec fn open_line(b: Seq<u8>, i: int) -> int
    decreases b.len() - i,
{
    let j = feed_at(b, i);
    if 0 <= i <= j < b.len() {
        open_line(b, j + 1)
    } else {
        i
    }
}

/// What is logged of the pending bytes and a block: its closed lines, and what can
/// be logged of the rest.
pub open spec fn pieces_of(buf: Seq<u8>) -> Seq<Seq<u8>> {
    let rest = buf.skip(open_line(buf, 0));
    if flushable(rest) > 0 {
        closed_lines(buf, 0).push(rest.take(flushable(rest)))
    } else {
        closed_lines(buf, 0)
    }
}

/// What stays pending.
pub open spec fn pending_of(buf: Seq<u8>) -> Seq<u8> {
    let rest = buf.skip(open_line(buf, 0));
    rest.skip(flushable(rest))
}

/// The lines that pieces are logged as.
pub open spec fn output_lines(pieces: Seq<Seq<u8>>) -> Seq<Line> {
    pieces.map_values(|p: Seq<u8>| output_line(p))
}

/// The output that has not been logged yet.
#[derive(Debug)]
pub struct Pump {
    pub pending: Vec<u8>,
}

fn log_piece(out: &mut Vec<LogCommand>, piece: &[u8])
    ensures
        forall|pieces: Seq<Seq<u8>>|
            said(old(out)@, #[trigger] output_lines(pieces)) ==> said(
                final(out)@,
                output_lines(pieces.push(piece@)),
            ),
{
    let ghost before = out@;
    let line = log_dsh_bytes(piece);
    out.push(line);
    proof {
        assert forall|pieces: Seq<Seq<u8>>|
            said(before, #[trigger] output_lines(pieces)) implies said(
            out@,
            output_lines(pieces.push(piece@)),
        ) by {
            let want = output_lines(pieces.push(piece@));
            assert forall|i: int| 0 <= i < out@.len() implies writes(
                #[trigger] out@[i],
                want[i].0,
                want[i].1,
            ) by {
                if i < before.len() {
                    assert(want[i] == output_lines(pieces)[i]);
                    assert(writes(before[i], want[i].0, want[i].1));
                }
            }
        }
    }
}

impl Pump {
    /// Nothing has come.
    pub fn new() -> (r: Pump)
        ensures
            r.pending@ == Seq::<u8>::empty(),
    {
        Pump { pending: Vec::new() }
    }

    /// Takes a block of output, and gives the lines to log.
    pub fn pump_dsh_output(&mut self, block: &[u8]) -> (r: Vec<LogCommand>)
        ensures
            said(r@, output_lines(pieces_of(old(self).pending@ + block@))),
            final(self).pending@ == pending_of(old(self).pending@ + block@),
    {
        extend(&mut self.pending, block);
        let ghost buf = self.pending@;
        let n: usize = self.pending.len();
        let mut out: Vec<LogCommand> = Vec::new();
        let mut i: usize = 0;
        let ghost mut done: Seq<Seq<u8>> = Seq::empty();
        proof {
            assert(done + closed_lines(buf, 0) =~= closed_lines(buf, 0));
            assert(output_lines(done) =~= Seq::<Line>::empty());
        }
        loop
            invariant
                self.pending@ == buf,
                n == buf.len(),
                i <= n,
                done + closed_lines(buf, i as int) == closed_lines(buf, 0),
                open_line(buf, 0) == open_line(buf, i as int),
                said(out@, output_lines(done)),
            ensures
                i <= n,
                open_line(buf, 0) == i,
                done == closed_lines(buf, 0),
                said(out@, output_lines(done)),
                self.pending@ == buf,
            decreases n - i,
        {
            let j: usize = find_feed(self.pending.as_slice(), i);
            if j >= n {
                proof {
                    assert(done + closed_lines(buf, i as int) =~= done);
                }
                break;
            }
            let line = slice_subrange(self.pending.as_slice(), i, j + 1);
            log_piece(&mut out, line);
            proof {
                assert(line@ =~= buf.subrange(i as int, j + 1));
                assert(done.push(line@) + closed_lines(buf, j + 1) =~= done + closed_lines(
                    buf,
                    i as int,
                ));
                done = done.push(line@);
            }
            i = j + 1;
        }
        skip_front(&mut self.pending, i);
        let part = take_flushable_partial_bytes(&mut self.pending);
        if part.len() > 0 {
            log_piece(&mut out, part.as_slice());
        }
        proof {
            let rest = buf.skip(i as int);
            lemma_flushable(rest);
        }
        out
    }

    /// The output has ended: what is pending is logged.
    pub fn finish(&mut self) -> (r: Option<LogCommand>)
        ensures
            match r {
                Some(line) => old(self).pending@.len() > 0 && writes(
                    line,
                    Level::Dsh,
                    output_line(old(self).pending@).1,
                ),
                None => old(self).pending@.len() == 0,
            },
            final(self).pending@ == Seq::<u8>::empty(),
    {
        if self.pending.len() == 0 {
            proof {
                assert(self.pending@ =~= Seq::<u8>::empty());
            }
            return None;
        }
        let line = log_dsh_bytes(self.pending.as_slice());
        self.pending = Vec::new();
        Some(line)
    }
}

/// The line about output that could not be read.
pub fn read_failed(e: &str) -> (r: LogCommand)
    ensures
        writes(r, Level::Fail, "读取 dsh 输出失败："@ + e@),
{
    let mut line = "读取 dsh 输出失败：".to_string();
    push_all(&mut line, e);
    error(line.as_str())
}

proof fn lemma_flushable(b: Seq<u8>)
    ensures
        0 <= flushable(b) <= b.len(),
{
    lemma_valid_up_to_rest(b);
}

// ---- What becomes of the output ----

proof fn lemma_closed_lines_join(b: Seq<u8>, i: int)
    requires
        0 <= i <= b.len(),
    ensures
        i <= open_line(b, i) <= b.len(),
        joined(closed_lines(b, i)) == b.subrange(i, open_line(b, i)),
    decreases b.len() - i,
{
    lemma_feed_at_bounds(b, i);
    let j = feed_at(b, i);
    if j < b.len() {
        lemma_closed_lines_join(b, j + 1);
        let head = seq![b.subrange(i, j + 1)];
        lemma_joined_concat(head, closed_lines(b, j + 1));
        lemma_joined_push(Seq::empty(), b.subrange(i, j + 1));
        assert(Seq::<Seq<u8>>::empty().push(b.subrange(i, j + 1)) =~= head);
        assert(joined(head) =~= b.subrange(i, j + 1));
        assert(b.subrange(i, j + 1) + b.subrange(j + 1, open_line(b, i)) =~= b.subrange(
            i,
            open_line(b, i),
        ));
    }
}

/// Nothing is lost and nothing is added: what is logged of the pending bytes and a
/// block, and what stays pending, are together what was there.
pub proof fn law_block_is_kept(buf: Seq<u8>)
    ensures
        joined(pieces_of(buf)) + pending_of(buf) == buf,
{
    lemma_closed_lines_join(buf, 0);
    let o = open_line(buf, 0);
    let rest = buf.skip(o);
    let f = flushable(rest);
    lemma_flushable(rest);
    lemma_joined_push(closed_lines(buf, 0), rest.take(f));
    assert(rest.take(f) + rest.skip(f) =~= rest);
    assert(buf.subrange(0, o) + rest =~= buf);
    assert(joined(pieces_of(buf)) + pending_of(buf) =~= buf);
}

/// What is logged of some blocks, and what is pending after them.
pub open spec fn pumped(blocks: Seq<Seq<u8>>) -> (Seq<Seq<u8>>, Seq<u8>)
    decreases blocks.len(),
{
    if blocks.len() == 0 {
        (Seq::empty(), Seq::empty())
    } else {
        let before = pumped(blocks.drop_last());
        let buf = before.1 + blocks.last();
        (before.0 + pieces_of(buf), pending_of(buf))
    }
}

/// Over all blocks nothing is lost and nothing is added, however the output is cut
/// into blocks.
pub proof fn law_output_is_kept(blocks: Seq<Seq<u8>>)
    ensures
        joined(pumped(blocks).0) + pumped(blocks).1 == joined(blocks),
    decreases blocks.len(),
{
    if blocks.len() > 0 {
        law_output_is_kept(blocks.drop_last());
        let before = pumped(blocks.drop_last());
        let buf = before.1 + blocks.last();
        law_block_is_kept(buf);
        lemma_joined_concat(before.0, pieces_of(buf));
        assert(joined(before.0) + joined(pieces_of(buf)) + pending_of(buf) =~= joined(before.0)
            + buf);
        assert(joined(before.0) + before.1 + blocks.last() =~= joined(before.0) + buf);
    }
}

proof fn lemma_closed_lines_valid(b: Seq<u8>, i: int, whole: Seq<u8>)
    requires
        0 <= i <= b.len() <= whole.len(),
        b == whole.take(b.len() as int),
        valid_utf8(whole.skip(i)),
    ensures
        forall|k: int|
            0 <= k < closed_lines(b, i).len() ==> valid_utf8(#[trigger] closed_lines(b, i)[k]),
        i <= open_line(b, i) <= b.len(),
        valid_utf8(whole.skip(open_line(b, i))),
    decreases b.len() - i,
{
    lemma_feed_at_bounds(b, i);
    let j = feed_at(b, i);
    if j < b.len() {
        let v = whole.skip(i);
        assert(v[j - i] == b[j]);
        lemma_cut_at_ascii(v, j - i);
        assert(v.take(j - i + 1) =~= b.subrange(i, j + 1));
        assert(v.skip(j - i + 1) =~= whole.skip(j + 1));
        lemma_closed_lines_valid(b, j + 1, whole);
        let tail = closed_lines(b, j + 1);
        assert forall|k: int| 0 <= k < closed_lines(b, i).len() implies valid_utf8(
            #[trigger] closed_lines(b, i)[k],
        ) by {
            if k > 0 {
                assert(closed_lines(b, i)[k] == tail[k - 1]);
            }
        }
    }
}

proof fn lemma_block_keeps_characters(buf: Seq<u8>, whole: Seq<u8>)
    requires
        valid_utf8(whole),
        buf.len() <= whole.len(),
        buf == whole.take(buf.len() as int),
    ensures
        forall|k: int| 0 <= k < pieces_of(buf).len() ==> valid_utf8(#[trigger] pieces_of(buf)[k]),
        pending_of(buf).len() == 0 || cut_off(pending_of(buf)),
{
    assert(whole.skip(0) =~= whole);
    lemma_closed_lines_valid(buf, 0, whole);
    let o = open_line(buf, 0);
    let rest = buf.skip(o);
    let v = whole.skip(o);
    let n = rest.len() as int;
    assert(rest =~= v.take(n));
    lemma_valid_up_to_rest(rest);
    law_valid_up_to_is_longest(rest);
    let f = valid_up_to(rest);
    assert(v.take(f) =~= rest.take(f));
    lemma_valid_suffix(v, f);
    let left = rest.skip(f);
    assert(left =~= v.skip(f).take(n - f));
    if n - f > 0 {
        lemma_prefix_cut_off(v.skip(f), n - f);
    }
    assert(rest.skip(0) =~= rest);
    assert(flushable(rest) == f);
    assert forall|k: int| 0 <= k < pieces_of(buf).len() implies valid_utf8(
        #[trigger] pieces_of(buf)[k],
    ) by {
        let closed = closed_lines(buf, 0);
        if k < closed.len() {
            assert(pieces_of(buf)[k] == closed[k]);
        } else {
            assert(pieces_of(buf)[k] == rest.take(f));
        }
    }
}

proof fn lemma_joined_valid(pieces: Seq<Seq<u8>>)
    requires
        forall|k: int| 0 <= k < pieces.len() ==> valid_utf8(#[trigger] pieces[k]),
    ensures
        valid_utf8(joined(pieces)),
    decreases pieces.len(),
{
    if pieces.len() > 0 {
        assert forall|k: int| 0 <= k < pieces.drop_last().len() implies valid_utf8(
            #[trigger] pieces.drop_last()[k],
        ) by {
            assert(pieces[k] == pieces.drop_last()[k]);
        }
        lemma_joined_valid(pieces.drop_last());
        assert(pieces[pieces.len() - 1] == pieces.last());
        valid_utf8_concat(joined(pieces.drop_last()), pieces.last());
    }
}

proof fn lemma_pumped_valid(blocks: Seq<Seq<u8>>, whole: Seq<u8>)
    requires
        valid_utf8(whole),
        joined(blocks).len() <= whole.len(),
        joined(blocks) == whole.take(joined(blocks).len() as int),
    ensures
        forall|k: int| 0 <= k < pumped(blocks).0.len() ==> valid_utf8(#[trigger] pumped(blocks).0[k]),
        pumped(blocks).1.len() == 0 || cut_off(pumped(blocks).1),
    decreases blocks.len(),
{
    if blocks.len() > 0 {
        let init = blocks.drop_last();
        let n = joined(init).len() as int;
        assert(joined(init) =~= whole.take(n)) by {
            assert(joined(init) =~= joined(blocks).take(n));
        }
        lemma_pumped_valid(init, whole);
        law_output_is_kept(init);
        let (pieces, pending) = pumped(init);
        lemma_joined_valid(pieces);
        let e = joined(pieces).len() as int;
        assert(joined(pieces) =~= whole.take(e)) by {
            assert(joined(pieces) =~= joined(init).take(e));
        }
        lemma_valid_suffix(whole, e);
        let buf = pending + blocks.last();
        assert(joined(blocks) =~= joined(pieces) + buf);
        assert(buf =~= whole.skip(e).take(buf.len() as int)) by {
            assert(buf =~= joined(blocks).skip(e));
        }
        lemma_block_keeps_characters(buf, whole.skip(e));
        let more = pieces_of(buf);
        assert forall|k: int| 0 <= k < pumped(blocks).0.len() implies valid_utf8(
            #[trigger] pumped(blocks).0[k],
        ) by {
            if k < pieces.len() {
                assert(pumped(blocks).0[k] == pieces[k]);
            } else {
                assert(pumped(blocks).0[k] == more[k - pieces.len()]);
            }
        }
    }
}

/// No character is torn: if the output is UTF-8, every piece that is logged is
/// UTF-8, wherever the blocks end, and at the end nothing is pending.
pub proof fn law_characters_are_kept(blocks: Seq<Seq<u8>>)
    requires
        valid_utf8(joined(blocks)),
    ensures
        forall|k: int| 0 <= k < pumped(blocks).0.len() ==> valid_utf8(#[trigger] pumped(blocks).0[k]),
        pumped(blocks).1.len() == 0,
        joined(pumped(blocks).0) == joined(blocks),
{
    let whole = joined(blocks);
    assert(whole.take(whole.len() as int) =~= whole);
    lemma_pumped_valid(blocks, whole);
    law_output_is_kept(blocks);
    let (pieces, pending) = pumped(blocks);
    lemma_joined_valid(pieces);
    let e = joined(pieces).len() as int;
    assert(joined(pieces) =~= whole.take(e));
    lemma_valid_suffix(whole, e);
    assert(pending =~= whole.skip(e));
    assert(pending.len() == 0);
    assert(joined(pieces) =~= whole);
}

/// What is logged of a piece is the piece but for its line end: what is left out at
/// the end is carriage returns and line feeds only, and what is left does not end
/// with one.
pub proof fn law_only_the_line_end_is_dropped(piece: Seq<u8>)
    ensures
        stripped(piece).len() <= piece.len(),
        piece.take(stripped(piece).len() as int) == stripped(piece),
        forall|k: int|
            stripped(piece).len() <= k < piece.len() ==> (#[trigger] piece[k] == 10 || piece[k]
                == 13),
        stripped(piece).len() > 0 ==> stripped(piece).last() != 10 && stripped(piece).last() != 13,
{
    lemma_stripped_end(piece, piece.len() as int);
}

proof fn lemma_stripped_end(b: Seq<u8>, n: int)
    requires
        0 <= n <= b.len(),
    ensures
        0 <= stripped_end(b, n) <= n,
        forall|k: int| stripped_end(b, n) <= k < n ==> (#[trigger] b[k] == 10 || b[k] == 13),
        stripped_end(b, n) > 0 ==> b[stripped_end(b, n) - 1] != 10 && b[stripped_end(b, n) - 1]
            != 13,
    decreases n,
{
    if 0 < n && (b[n - 1] == 10 || b[n - 1] == 13) {
        lemma_stripped_end(b, n - 1);
    }
}

/// Of a block without a line feed the whole characters at its start are logged at
/// once, as many as there are. If it begins with none, all of it is logged, unless
/// more bytes could still complete a character: then it stays pending.
pub proof fn law_what_is_logged_at_once(b: Seq<u8>)
    ensures
        0 <= flushable(b) <= b.len(),
        (exists|n: int| 0 < n <= b.len() && valid_utf8(#[trigger] b.take(n))) ==> {
            &&& flushable(b) > 0
            &&& valid_utf8(b.take(flushable(b)))
            &&& forall|n: int| flushable(b) < n <= b.len() ==> !valid_utf8(#[trigger] b.take(n))
        },
        (forall|n: int| 0 < n <= b.len() ==> !valid_utf8(#[trigger] b.take(n))) && b.len() > 0
            ==> {
            if exists|more: Seq<u8>| valid_utf8(#[trigger] (b + more)) {
                flushable(b) == 0
            } else {
                flushable(b) == b.len()
            }
        },
{
    lemma_flushable(b);
    law_valid_up_to_is_longest(b);
    if b.len() > 0 && forall|n: int| 0 < n <= b.len() ==> !valid_utf8(#[trigger] b.take(n)) {
        let f = valid_up_to(b);
        if f > 0 {
            assert(valid_utf8(b.take(f)));
        }
        if exists|more: Seq<u8>| valid_utf8(#[trigger] (b + more)) {
            let more = choose|more: Seq<u8>| valid_utf8(#[trigger] (b + more));
            let n = b.len() as int;
            assert((b + more).take(n) =~= b);
            lemma_prefix_cut_off(b + more, n);
        } else if cut_off(b) {
            lemma_cut_off_completes(b);
        }
    }
}

/// Every line feed ends a piece: no piece holds one but at its end, and what stays
/// pending holds none.
pub proof fn law_line_feeds_end_pieces(buf: Seq<u8>, k: int, j: int)
    ensures
        0 <= k < pieces_of(buf).len() && 0 <= j < pieces_of(buf)[k].len() - 1
            ==> pieces_of(buf)[k][j] != 10,
        0 <= k < pieces_of(buf).len() - 1 ==> pieces_of(buf)[k].len() > 0 && pieces_of(
            buf,
        )[k].last() == 10,
        0 <= j < pending_of(buf).len() ==> pending_of(buf)[j] != 10,
{
    lemma_closed_lines_are_lines(buf, 0, k, j);
    let o = open_line(buf, 0);
    let rest = buf.skip(o);
    lemma_flushable(rest);
    let closed = closed_lines(buf, 0);
    if 0 <= k < closed.len() {
        assert(pieces_of(buf)[k] == closed[k]);
    }
    assert forall|m: int| 0 <= m < rest.len() implies #[trigger] rest[m] != 10 by {
        assert(buf[o + m] != 10);
    }
    if 0 <= j < pending_of(buf).len() {
        assert(pending_of(buf)[j] == rest[flushable(rest) + j]);
    }
    if k == closed.len() && k < pieces_of(buf).len() {
        let last = rest.take(flushable(rest));
        assert(pieces_of(buf)[k] == last);
        if 0 <= j < last.len() {
            assert(last[j] == rest[j]);
        }
    }
}

proof fn lemma_closed_lines_are_lines(b: Seq<u8>, i: int, k: int, j: int)
    requires
        0 <= i <= b.len(),
    ensures
        i <= open_line(b, i) <= b.len(),
        forall|m: int| open_line(b, i) <= m < b.len() ==> #[trigger] b[m] != 10,
        0 <= k < closed_lines(b, i).len() ==> closed_lines(b, i)[k].len() > 0 && closed_lines(
            b,
            i,
        )[k].last() == 10,
        0 <= k < closed_lines(b, i).len() && 0 <= j < closed_lines(b, i)[k].len() - 1
            ==> closed_lines(b, i)[k][j] != 10,
    decreases b.len() - i,
{
    lemma_feed_at_bounds(b, i);
    let f = feed_at(b, i);
    if f < b.len() {
        lemma_closed_lines_are_lines(b, f + 1, k - 1, j);
        let all = closed_lines(b, i);
        if 0 < k < all.len() {
            assert(all[k] == closed_lines(b, f + 1)[k - 1]);
        }
    }
}

/// The pieces are logged one by one, in order, each as a line of the service's
/// output: its text without the line end.
pub proof fn law_pieces_are_logged_in_order(pieces: Seq<Seq<u8>>, k: int)
    requires
        0 <= k < pieces.len(),
    ensures
        output_lines(pieces).len() == pieces.len(),
        output_lines(pieces)[k].0 == Level::Dsh,
        valid_utf8(stripped(pieces[k])) ==> output_lines(pieces)[k].1 == decode_utf8(
            stripped(pieces[k]),
        ),
{
}

} // verus!
