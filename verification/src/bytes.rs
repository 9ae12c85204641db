//! Bytes that hold text: UTF-8 that may be cut off or broken, and lines.
use vstd::prelude::*;
use vstd::slice::slice_subrange;
use vstd::utf8::{
    codepoint_width_2, codepoint_width_3, codepoint_width_4, decode_utf8,
    is_char_boundary_iff_not_is_continuation_byte, is_continuation_byte, is_leading_byte_width_2,
    is_leading_byte_width_3, is_leading_byte_width_4, length_of_first_scalar, pop_first_scalar,
    valid_first_scalar, valid_utf8, valid_utf8_concat, valid_utf8_split,
};

verus! {

/// What `String::from_utf8_lossy` makes of bytes that are not UTF-8.
pub uninterp spec fn utf8_lossy(bytes: Seq<u8>) -> Seq<char>;

/// `String::from_utf8_lossy`: bytes that are UTF-8 are decoded, and what is UTF-8 at
/// the start of other bytes is decoded too. What it makes of the rest depends on the
/// bytes alone; where the replacement characters fall is not stated.
#[verifier::external_body]
pub(crate) fn lossy_text(bytes: &[u8]) -> (r: String)
    ensures
        valid_utf8(bytes@) ==> r@ == decode_utf8(bytes@),
        !valid_utf8(bytes@) ==> r@ == utf8_lossy(bytes@),
        decode_utf8(bytes@.take(valid_up_to(bytes@))).is_prefix_of(r@),
{
    String::from_utf8_lossy(bytes).into_owned()
}

/// The text that bytes stand for: what they decode to where they are UTF-8.
pub open spec fn text_of(bytes: Seq<u8>) -> Seq<char> {
    if valid_utf8(bytes) {
        decode_utf8(bytes)
    } else {
        utf8_lossy(bytes)
    }
}

// ---- UTF-8 that is cut off ----

/// The number of bytes at the start that are whole, valid UTF-8 sequences.
pub open spec fn valid_up_to(b: Seq<u8>) -> int
    decreases b.len(),
{
    if b.len() == 0 || !valid_first_scalar(b) {
        0
    } else {
        length_of_first_scalar(b) + valid_up_to(pop_first_scalar(b))
    }
}

/// Whether the bytes begin a sequence that more bytes could complete.
pub open spec fn cut_off(b: Seq<u8>) -> bool {
    b.len() > 0 && !valid_first_scalar(b) && exists|more: Seq<u8>|
        valid_first_scalar(#[trigger] (b + more))
}

/// The length of the sequence that a byte begins, or 0 if it begins none.
spec fn width(b0: u8) -> int {
    if b0 <= 0x7f {
        1
    } else if 0xc2 <= b0 <= 0xdf {
        2
    } else if 0xe0 <= b0 <= 0xef {
        3
    } else if 0xf0 <= b0 <= 0xf4 {
        4
    } else {
        0
    }
}

/// Whether the second byte of a sequence fits the first.
spec fn second_fits(b0: u8, b1: u8) -> bool {
    &&& is_continuation_byte(b1)
    &&& b0 == 0xe0 ==> b1 >= 0xa0
    &&& b0 == 0xed ==> b1 <= 0x9f
    &&& b0 == 0xf0 ==> b1 >= 0x90
    &&& b0 == 0xf4 ==> b1 <= 0x8f
}

proof fn lemma_two(b0: u8, b1: u8)
    by (bit_vector)
    requires
        is_leading_byte_width_2(b0),
        is_continuation_byte(b1),
    ensures
        codepoint_width_2(b0, b1) >= 0x80 <==> b0 >= 0xc2,
        codepoint_width_2(b0, b1) < 0xd800,
{
}

proof fn lemma_three(b0: u8, b1: u8, b2: u8)
    by (bit_vector)
    requires
        is_leading_byte_width_3(b0),
        is_continuation_byte(b1),
        is_continuation_byte(b2),
    ensures
        codepoint_width_3(b0, b1, b2) >= 0x800 <==> !(b0 == 0xe0 && b1 < 0xa0),
        (0xd800 <= codepoint_width_3(b0, b1, b2) && codepoint_width_3(b0, b1, b2) <= 0xdfff) <==> (
        b0 == 0xed && b1 > 0x9f),
{
}

proof fn lemma_four(b0: u8, b1: u8, b2: u8, b3: u8)
    by (bit_vector)
    requires
        is_leading_byte_width_4(b0),
        is_continuation_byte(b1),
        is_continuation_byte(b2),
        is_continuation_byte(b3),
    ensures
        codepoint_width_4(b0, b1, b2, b3) >= 0x10000 <==> !(b0 == 0xf0 && b1 < 0x90),
        codepoint_width_4(b0, b1, b2, b3) <= 0x10ffff <==> (b0 <= 0xf4 && !(b0 == 0xf4 && b1
            > 0x8f)),
{
}

proof fn lemma_one(b0: u8)
    by (bit_vector)
    requires
        b0 <= 0x7f,
    ensures
        (b0 & 0x7f) == b0,
{
}

proof fn lemma_first_scalar(b: Seq<u8>)
    requires
        b.len() > 0,
    ensures
        valid_first_scalar(b) <==> ({
            let w = width(b[0]);
            &&& 0 < w <= b.len()
            &&& w >= 2 ==> second_fits(b[0], b[1])
            &&& w >= 3 ==> is_continuation_byte(b[2])
            &&& w >= 4 ==> is_continuation_byte(b[3])
        }),
        valid_first_scalar(b) ==> length_of_first_scalar(b) == width(b[0]),
{
    if b[0] <= 0x7f {
        lemma_one(b[0]);
    } else if is_leading_byte_width_2(b[0]) {
        if b.len() >= 2 && is_continuation_byte(b[1]) {
            lemma_two(b[0], b[1]);
        }
    } else if is_leading_byte_width_3(b[0]) {
        if b.len() >= 3 && is_continuation_byte(b[1]) && is_continuation_byte(b[2]) {
            lemma_three(b[0], b[1], b[2]);
        }
    } else if is_leading_byte_width_4(b[0]) {
        if b.len() >= 4 && is_continuation_byte(b[1]) && is_continuation_byte(b[2])
            && is_continuation_byte(b[3]) {
            lemma_four(b[0], b[1], b[2], b[3]);
        }
    }
}

proof fn lemma_cut_off(b: Seq<u8>)
    requires
        b.len() > 0,
    ensures
        cut_off(b) <==> ({
            let w = width(b[0]);
            &&& b.len() < w
            &&& b.len() >= 2 ==> second_fits(b[0], b[1])
            &&& b.len() >= 3 ==> is_continuation_byte(b[2])
        }),
{
    lemma_first_scalar(b);
    let w = width(b[0]);
    if cut_off(b) {
        let more = choose|more: Seq<u8>| valid_first_scalar(#[trigger] (b + more));
        lemma_first_scalar(b + more);
        assert((b + more)[0] == b[0]);
        if b.len() >= 2 {
            assert((b + more)[1] == b[1]);
        }
        if b.len() >= 3 {
            assert((b + more)[2] == b[2]);
        }
        if b.len() >= 4 {
            assert((b + more)[3] == b[3]);
        }
    }
    if b.len() < w && (b.len() >= 2 ==> second_fits(b[0], b[1])) && (b.len() >= 3
        ==> is_continuation_byte(b[2])) {
        let second: u8 = if b[0] == 0xe0 {
            0xa0
        } else if b[0] == 0xf0 {
            0x90
        } else {
            0x80
        };
        let whole = if b.len() == 1 {
            seq![b[0], second, 0x80u8, 0x80u8]
        } else if b.len() == 2 {
            seq![b[0], b[1], 0x80u8, 0x80u8]
        } else {
            seq![b[0], b[1], b[2], 0x80u8]
        };
        let more = whole.skip(b.len() as int);
        assert(b + more =~= whole);
        lemma_first_scalar(whole);
        assert(valid_first_scalar(b + more));
    }
}

fn cont(b: u8) -> (r: bool)
    ensures
        r == is_continuation_byte(b),
{
    0x80 <= b && b <= 0xbf
}

fn second_ok(b0: u8, b1: u8) -> (r: bool)
    ensures
        r == second_fits(b0, b1),
{
    cont(b1) && !(b0 == 0xe0 && b1 < 0xa0) && !(b0 == 0xed && b1 > 0x9f) && !(b0 == 0xf0 && b1
        < 0x90) && !(b0 == 0xf4 && b1 > 0x8f)
}

fn width_of(b0: u8) -> (r: usize)
    ensures
        r == width(b0),
{
    if b0 <= 0x7f {
        1
    } else if 0xc2 <= b0 && b0 <= 0xdf {
        2
    } else if 0xe0 <= b0 && b0 <= 0xef {
        3
    } else if 0xf0 <= b0 && b0 <= 0xf4 {
        4
    } else {
        0
    }
}

/// Counts the bytes at the start that are whole, valid UTF-8 sequences.
pub fn valid_prefix(b: &[u8]) -> (r: usize)
    ensures
        r == valid_up_to(b@),
        r <= b@.len(),
{
    let n: usize = b.len();
    let mut i: usize = 0;
    proof {
        assert(b@.skip(0) =~= b@);
    }
    while i < n
        invariant
            n == b@.len(),
            i <= n,
            valid_up_to(b@) == i + valid_up_to(b@.skip(i as int)),
        decreases n - i,
    {
        let w: usize = width_of(b[i]);
        proof {
            lemma_first_scalar(b@.skip(i as int));
        }
        if w == 0 || n - i < w || (w >= 2 && !second_ok(b[i], b[i + 1])) || (w >= 3 && !cont(
            b[i + 2],
        )) || (w >= 4 && !cont(b[i + 3])) {
            return i;
        }
        proof {
            assert(pop_first_scalar(b@.skip(i as int)) =~= b@.skip(i + w));
        }
        i += w;
    }
    i
}

/// Whether the bytes begin a sequence that more bytes could complete.
pub fn is_cut_off(b: &[u8]) -> (r: bool)
    ensures
        r == cut_off(b@),
{
    if b.len() == 0 {
        return false;
    }
    proof {
        lemma_cut_off(b@);
    }
    let w: usize = width_of(b[0]);
    b.len() < w && (b.len() < 2 || second_ok(b[0], b[1])) && (b.len() < 3 || cont(b[2]))
}

/// `valid_up_to` is the length of the longest valid prefix.
pub proof fn law_valid_up_to_is_longest(b: Seq<u8>)
    ensures
        0 <= valid_up_to(b) <= b.len(),
        valid_utf8(b.take(valid_up_to(b))),
        forall|n: int|
            valid_up_to(b) < n <= b.len() ==> !valid_utf8(#[trigger] b.take(n)),
    decreases b.len(),
{
    if b.len() == 0 {
        assert(b.take(0).len() == 0);
    } else if !valid_first_scalar(b) {
        assert(b.take(0).len() == 0);
        assert forall|n: int| 0 < n <= b.len() implies !valid_utf8(#[trigger] b.take(n)) by {
            lemma_first_scalar(b);
            lemma_first_scalar(b.take(n));
        }
    } else {
        let w = length_of_first_scalar(b);
        let rest = pop_first_scalar(b);
        lemma_first_scalar(b);
        law_valid_up_to_is_longest(rest);
        let n0 = valid_up_to(b);
        assert forall|n: int| w <= n <= b.len() implies valid_utf8(#[trigger] b.take(n))
            == valid_utf8(rest.take(n - w)) by {
            lemma_first_scalar(b.take(n));
            assert(pop_first_scalar(b.take(n)) =~= rest.take(n - w));
        }
        assert(valid_utf8(b.take(n0)));
    }
}

/// What follows the longest valid prefix has no valid prefix of its own.
pub proof fn lemma_valid_up_to_rest(b: Seq<u8>)
    ensures
        0 <= valid_up_to(b) <= b.len(),
        valid_up_to(b.skip(valid_up_to(b))) == 0,
    decreases b.len(),
{
    if b.len() == 0 || !valid_first_scalar(b) {
        assert(b.skip(0) =~= b);
    } else {
        lemma_first_scalar(b);
        let rest = pop_first_scalar(b);
        lemma_valid_up_to_rest(rest);
        assert(b.skip(valid_up_to(b)) =~= rest.skip(valid_up_to(rest)));
    }
}

/// What follows a valid prefix of valid bytes is valid.
pub proof fn lemma_valid_suffix(b: Seq<u8>, k: int)
    requires
        valid_utf8(b),
        0 <= k <= b.len(),
        valid_utf8(b.take(k)),
    ensures
        valid_utf8(b.skip(k)),
    decreases k,
{
    if k == 0 {
        assert(b.skip(0) =~= b);
    } else {
        lemma_first_scalar(b);
        lemma_first_scalar(b.take(k));
        let w = length_of_first_scalar(b);
        let rest = pop_first_scalar(b);
        assert(pop_first_scalar(b.take(k)) =~= rest.take(k - w));
        lemma_valid_suffix(rest, k - w);
        assert(rest.skip(k - w) =~= b.skip(k));
    }
}

/// A piece of valid bytes that begins where they begin, and holds no whole
/// sequence, is cut off.
pub proof fn lemma_prefix_cut_off(b: Seq<u8>, k: int)
    requires
        valid_utf8(b),
        0 < k <= b.len(),
        valid_up_to(b.take(k)) == 0,
    ensures
        cut_off(b.take(k)),
{
    let head = b.take(k);
    if valid_first_scalar(head) {
        lemma_first_scalar(head);
        lemma_valid_up_to_rest(pop_first_scalar(head));
    }
    assert(head + b.skip(k) =~= b);
    assert(valid_first_scalar(head + b.skip(k)));
}

/// Valid bytes can be cut before and after an ASCII byte.
pub proof fn lemma_cut_at_ascii(b: Seq<u8>, k: int)
    requires
        valid_utf8(b),
        0 <= k < b.len(),
        b[k] <= 0x7f,
    ensures
        valid_utf8(b.take(k)),
        valid_utf8(b.take(k + 1)),
        valid_utf8(b.skip(k + 1)),
{
    is_char_boundary_iff_not_is_continuation_byte(b, k);
    valid_utf8_split(b, k);
    let head = b.subrange(0, k);
    let tail = b.subrange(k, b.len() as int);
    assert(b.take(k) =~= head);
    lemma_first_scalar(tail);
    let one = seq![b[k]];
    lemma_first_scalar(one);
    assert(pop_first_scalar(one) =~= Seq::<u8>::empty());
    assert(valid_utf8(pop_first_scalar(one)));
    assert(valid_utf8(one));
    valid_utf8_concat(head, one);
    assert(b.take(k + 1) =~= head + one);
    assert(pop_first_scalar(tail) =~= b.skip(k + 1));
}

// ---- Lines ----

/// The first index at or after `i` that holds a line feed, or the length.
pub open spec fn feed_at(b: Seq<u8>, i: int) -> int
    decreases b.len() - i,
{
    if 0 <= i < b.len() && b[i] != 10 {
        feed_at(b, i + 1)
    } else {
        i
    }
}

/// The lines of the content from index `i` on, each with its line feed; the
/// last one may lack it.
pub open spec fn lines_from(b: Seq<u8>, i: int) -> Seq<Seq<u8>>
    decreases b.len() - i,
{
    if i < 0 || i >= b.len() {
        Seq::empty()
    } else {
        let j = feed_at(b, i);
        if i <= j < b.len() {
            seq![b.subrange(i, j + 1)] + lines_from(b, j + 1)
        } else {
            seq![b.subrange(i, b.len() as int)]
        }
    }
}

/// The lines of the content.
pub open spec fn lines(b: Seq<u8>) -> Seq<Seq<u8>> {
    lines_from(b, 0)
}

/// All the pieces, one after the other.
pub open spec fn joined(v: Seq<Seq<u8>>) -> Seq<u8>
    decreases v.len(),
{
    if v.len() == 0 {
        Seq::empty()
    } else {
        joined(v.drop_last()) + v.last()
    }
}

pub proof fn lemma_feed_at_bounds(b: Seq<u8>, i: int)
    requires
        0 <= i <= b.len(),
    ensures
        i <= feed_at(b, i) <= b.len(),
        feed_at(b, i) < b.len() ==> b[feed_at(b, i)] == 10,
        forall|k: int| i <= k < feed_at(b, i) ==> b[k] != 10,
    decreases b.len() - i,
{
    if i < b.len() && b[i] != 10 {
        lemma_feed_at_bounds(b, i + 1);
    }
}

/// The first index at or after `from` that holds a line feed, or the length.
pub fn find_feed(b: &[u8], from: usize) -> (r: usize)
    requires
        from <= b@.len(),
    ensures
        r == feed_at(b@, from as int),
        from <= r <= b@.len(),
        r < b@.len() ==> b@[r as int] == 10,
        forall|k: int| from <= k < r ==> b@[k] != 10,
{
    let mut i: usize = from;
    while i < b.len() && b[i] != 10
        invariant
            from <= i <= b@.len(),
            feed_at(b@, from as int) == feed_at(b@, i as int),
            forall|k: int| from <= k < i ==> b@[k] != 10,
        decreases b@.len() - i,
    {
        i += 1;
    }
    i
}

/// What a vector of byte slices holds, as a sequence of sequences.
pub open spec fn slices(v: Seq<&[u8]>) -> Seq<Seq<u8>> {
    v.map_values(|p: &[u8]| p@)
}

/// Cuts the content into its lines.
pub fn split_lines<'a>(b: &'a [u8]) -> (r: Vec<&'a [u8]>)
    ensures
        slices(r@) == lines(b@),
{
    let n: usize = b.len();
    let mut out: Vec<&'a [u8]> = Vec::new();
    let mut i: usize = 0;
    proof {
        assert(slices(out@) + lines_from(b@, 0) =~= lines(b@));
    }
    while i < n
        invariant
            n == b@.len(),
            i <= n,
            slices(out@) + lines_from(b@, i as int) == lines(b@),
        decreases n - i,
    {
        let j: usize = find_feed(b, i);
        let end: usize = if j < n {
            j + 1
        } else {
            n
        };
        let ghost before = out@;
        out.push(slice_subrange(b, i, end));
        proof {
            assert(slices(out@) =~= slices(before).push(b@.subrange(i as int, end as int)));
            assert(slices(out@) + lines_from(b@, end as int) =~= slices(before) + lines_from(
                b@,
                i as int,
            ));
        }
        i = end;
    }
    proof {
        assert(slices(out@) + lines_from(b@, i as int) =~= slices(out@));
    }
    out
}

pub proof fn lemma_joined_push(v: Seq<Seq<u8>>, x: Seq<u8>)
    ensures
        joined(v.push(x)) == joined(v) + x,
{
    assert(v.push(x).drop_last() =~= v);
}

pub proof fn lemma_joined_concat(a: Seq<Seq<u8>>, b: Seq<Seq<u8>>)
    ensures
        joined(a + b) == joined(a) + joined(b),
    decreases b.len(),
{
    if b.len() == 0 {
        assert(a + b =~= a);
        assert(joined(a) + joined(b) =~= joined(a));
    } else {
        assert((a + b).drop_last() =~= a + b.drop_last());
        lemma_joined_concat(a, b.drop_last());
        assert(joined(a) + joined(b.drop_last()) + b.last() =~= joined(a) + joined(b));
    }
}

proof fn lemma_lines_from_join(b: Seq<u8>, i: int)
    requires
        0 <= i <= b.len(),
    ensures
        joined(lines_from(b, i)) == b.skip(i),
        forall|k: int|
            0 <= k < lines_from(b, i).len() ==> (#[trigger] lines_from(b, i)[k]).len() > 0,
    decreases b.len() - i,
{
    if i < b.len() {
        lemma_feed_at_bounds(b, i);
        let j = feed_at(b, i);
        let end = if j < b.len() {
            j + 1
        } else {
            b.len() as int
        };
        let head = seq![b.subrange(i, end)];
        lemma_lines_from_join(b, end);
        assert(lines_from(b, i) =~= head + lines_from(b, end));
        lemma_joined_concat(head, lines_from(b, end));
        assert(head.drop_last() =~= Seq::<Seq<u8>>::empty());
        assert(joined(head) =~= b.subrange(i, end)) by {
            assert(joined(head) == joined(head.drop_last()) + head.last());
        }
        assert(b.subrange(i, end) + b.skip(end) =~= b.skip(i));
    } else {
        assert(b.skip(i) =~= Seq::<u8>::empty());
    }
}

/// The lines of the content, one after the other, are the content; none is empty.
pub proof fn law_lines_join(b: Seq<u8>)
    ensures
        joined(lines(b)) == b,
        forall|k: int| 0 <= k < lines(b).len() ==> (#[trigger] lines(b)[k]).len() > 0,
{
    lemma_lines_from_join(b, 0);
    assert(b.skip(0) =~= b);
}

/// Whether no piece holds a line feed but at its end.
pub open spec fn are_lines(ls: Seq<Seq<u8>>) -> bool {
    forall|k: int, j: int|
        #![trigger ls[k][j]]
        0 <= k < ls.len() && 0 <= j < ls[k].len() - 1 ==> ls[k][j] != 10
}

/// Whether each piece ends with a line feed.
pub open spec fn are_closed(ls: Seq<Seq<u8>>) -> bool {
    forall|k: int| 0 <= k < ls.len() ==> (#[trigger] ls[k]).len() > 0 && ls[k].last() == 10
}

/// Whether the pieces are what some content is cut into.
pub open spec fn line_list(ls: Seq<Seq<u8>>) -> bool {
    &&& are_lines(ls)
    &&& ls.len() > 0 ==> are_closed(ls.drop_last()) && ls.last().len() > 0
}

proof fn lemma_lines_from_list(b: Seq<u8>, i: int)
    requires
        0 <= i <= b.len(),
    ensures
        line_list(lines_from(b, i)),
    decreases b.len() - i,
{
    if i < b.len() {
        lemma_feed_at_bounds(b, i);
        let j = feed_at(b, i);
        if j < b.len() {
            let rest = lines_from(b, j + 1);
            lemma_lines_from_list(b, j + 1);
            let all = lines_from(b, i);
            assert(all =~= seq![b.subrange(i, j + 1)] + rest);
            assert forall|k: int, n: int|
                #![trigger all[k][n]]
                0 <= k < all.len() && 0 <= n < all[k].len() - 1 implies all[k][n] != 10 by {
                if k > 0 {
                    assert(all[k] == rest[k - 1]);
                    assert(rest[k - 1][n] != 10);
                } else {
                    assert(all[k][n] == b[i + n]);
                }
            }
            if rest.len() > 0 {
                assert(all.last() == rest.last());
                assert forall|k: int| 0 <= k < all.drop_last().len() implies (
                #[trigger] all.drop_last()[k]).len() > 0 && all.drop_last()[k].last() == 10 by {
                    if k > 0 {
                        assert(all.drop_last()[k] == rest.drop_last()[k - 1]);
                    }
                }
            }
        } else {
            let all = lines_from(b, i);
            assert(all =~= seq![b.subrange(i, b.len() as int)]);
            assert(all.drop_last() =~= Seq::<Seq<u8>>::empty());
            assert forall|k: int, n: int|
                #![trigger all[k][n]]
                0 <= k < all.len() && 0 <= n < all[k].len() - 1 implies all[k][n] != 10 by {
                assert(all[k][n] == b[i + n]);
            }
        }
    }
}

proof fn lemma_feed_at_is(b: Seq<u8>, i: int, j: int)
    requires
        0 <= i <= j <= b.len(),
        forall|k: int| i <= k < j ==> b[k] != 10,
        j < b.len() ==> b[j] == 10,
    ensures
        feed_at(b, i) == j,
    decreases j - i,
{
    if i < j {
        lemma_feed_at_is(b, i + 1, j);
    }
}

proof fn lemma_line_at(head: Seq<u8>, line: Seq<u8>, tail: Seq<u8>)
    requires
        line.len() > 0,
        forall|j: int| 0 <= j < line.len() - 1 ==> line[j] != 10,
        line.last() == 10 || tail.len() == 0,
    ensures
        lines_from(head + line + tail, head.len() as int) == seq![line] + lines_from(
            head + line + tail,
            head.len() as int + line.len(),
        ),
{
    let b = head + line + tail;
    let o = head.len() as int;
    let e = o + line.len();
    assert(b.subrange(o, e) =~= line);
    assert forall|j: int| o <= j < e - 1 implies b[j] != 10 by {
        assert(b[j] == line[j - o]);
    }
    assert(b[e - 1] == line.last());
    if line.last() == 10 {
        lemma_feed_at_is(b, o, e - 1);
    } else {
        lemma_feed_at_is(b, o, e);
        assert(lines_from(b, e) =~= Seq::<Seq<u8>>::empty());
    }
    assert(lines_from(b, o) =~= seq![line] + lines_from(b, e));
}

proof fn lemma_lines_of_joined_from(ls: Seq<Seq<u8>>, k: int)
    requires
        line_list(ls),
        0 <= k <= ls.len(),
    ensures
        lines_from(joined(ls), joined(ls.take(k)).len() as int) == ls.skip(k),
    decreases ls.len() - k,
{
    let b = joined(ls);
    let head = joined(ls.take(k));
    if k == ls.len() {
        assert(ls.take(k) =~= ls);
        assert(ls.skip(k) =~= Seq::<Seq<u8>>::empty());
    } else {
        let line = ls[k];
        let tail = joined(ls.skip(k + 1));
        lemma_lines_of_joined_from(ls, k + 1);
        assert(ls.take(k + 1) =~= ls.take(k).push(line));
        lemma_joined_push(ls.take(k), line);
        assert(ls.take(k + 1) + ls.skip(k + 1) =~= ls);
        lemma_joined_concat(ls.take(k + 1), ls.skip(k + 1));
        if k < ls.len() - 1 {
            assert(ls.drop_last()[k] == line);
        } else {
            assert(ls.skip(k + 1) =~= Seq::<Seq<u8>>::empty());
        }
        assert forall|j: int| 0 <= j < line.len() - 1 implies line[j] != 10 by {
            assert(ls[k][j] != 10);
        }
        lemma_line_at(head, line, tail);
        assert(seq![line] + ls.skip(k + 1) =~= ls.skip(k));
    }
}

/// What lines are put together into is cut into those lines again.
pub proof fn law_lines_of_joined(ls: Seq<Seq<u8>>)
    requires
        line_list(ls),
    ensures
        lines(joined(ls)) == ls,
{
    lemma_lines_of_joined_from(ls, 0);
    assert(ls.take(0) =~= Seq::<Seq<u8>>::empty());
    assert(ls.skip(0) =~= ls);
}

/// The lines of any content are lines.
pub proof fn lemma_lines_list(b: Seq<u8>)
    ensures
        line_list(lines(b)),
{
    lemma_lines_from_list(b, 0);
}

/// Appends bytes.
pub fn extend(out: &mut Vec<u8>, more: &[u8])
    ensures
        final(out)@ == old(out)@ + more@,
{
    let ghost before = out@;
    let mut i: usize = 0;
    while i < more.len()
        invariant
            i <= more@.len(),
            out@ == before + more@.take(i as int),
        decreases more@.len() - i,
    {
        out.push(more[i]);
        proof {
            assert(before + more@.take(i + 1) =~= (before + more@.take(i as int)).push(
                more@[i as int],
            ));
        }
        i += 1;
    }
    proof {
        assert(more@.take(i as int) =~= more@);
    }
}

/// Bytes that are cut off can be completed to UTF-8.
pub proof fn lemma_cut_off_completes(b: Seq<u8>)
    requires
        cut_off(b),
    ensures
        exists|more: Seq<u8>| valid_utf8(#[trigger] (b + more)),
{
    let more = choose|more: Seq<u8>| valid_first_scalar(#[trigger] (b + more));
    let s = b + more;
    lemma_cut_off(b);
    lemma_first_scalar(s);
    let w = width(b[0]);
    let t = s.take(w);
    assert(t =~= b + more.take(w - b.len()));
    lemma_first_scalar(t);
    assert(pop_first_scalar(t) =~= Seq::<u8>::empty());
    assert(valid_utf8(pop_first_scalar(t)));
    assert(valid_utf8(b + more.take(w - b.len())));
}

/// Bytes that begin with a whole character, or are empty, are not cut off; neither
/// are bytes that nothing can complete.
pub proof fn law_cut_off(b: Seq<u8>)
    ensures
        cut_off(b) ==> b.len() > 0 && b.len() < 4 && (exists|more: Seq<u8>|
            valid_utf8(#[trigger] (b + more))) && forall|n: int|
            0 < n <= b.len() ==> !valid_utf8(#[trigger] b.take(n)),
{
    if cut_off(b) {
        lemma_cut_off_completes(b);
        lemma_cut_off(b);
        law_valid_up_to_is_longest(b);
    }
}

/// What a list of slices holds is each slice, as it is and where it is.
pub proof fn law_slices_are_held(v: Seq<&[u8]>, i: int)
    ensures
        slices(v).len() == v.len(),
        0 <= i < v.len() ==> slices(v)[i] == v[i]@,
{
}

/// Pieces are joined one after another.
pub proof fn law_joined(v: Seq<Seq<u8>>, x: Seq<u8>)
    ensures
        joined(Seq::empty()) == Seq::<u8>::empty(),
        joined(v.push(x)) == joined(v) + x,
{
    lemma_joined_push(v, x);
}

/// Bytes that are UTF-8 stand for what they decode to.
pub proof fn law_text_of_utf8(b: Seq<u8>)
    ensures
        valid_utf8(b) ==> text_of(b) == decode_utf8(b),
{
}

} // verus!
