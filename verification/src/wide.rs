//! UTF-16 text, as the Windows API takes and gives it.
use vstd::prelude::*;

use crate::text::{ascii_lower_all, from_chars};

verus! {

/// `char::from_u32`: a number that is a Unicode scalar value gives that
/// character, and no other number gives one.
pub assume_specification[ char::from_u32 ](i: u32) -> (r: Option<char>)
    ensures
        match r {
            Some(c) => c as u32 == i,
            None => 0xd800 <= i <= 0xdfff || i > 0x10ffff,
        },
;

/// What `str::to_lowercase` makes of a text that is not ASCII.
pub uninterp spec fn lowercase(s: Seq<char>) -> Seq<char>;

/// Whether a text is ASCII.
pub open spec fn all_ascii(s: Seq<char>) -> bool {
    forall|k: int| 0 <= k < s.len() ==> #[trigger] s[k] <= '\u{7f}'
}

/// `str::to_lowercase`: the result depends on the text alone, and of an ASCII
/// text it is the text with its letters in lower case. The Unicode case tables
/// are not stated.
#[verifier::external_body]
pub(crate) fn to_lowercase(s: &str) -> (r: String)
    ensures
        all_ascii(s@) ==> r@ == ascii_lower_all(s@),
        !all_ascii(s@) ==> r@ == lowercase(s@),
{
    s.to_lowercase()
}

/// A text in lower case: letter by letter where it is ASCII.
pub open spec fn lower_text(s: Seq<char>) -> Seq<char> {
    if all_ascii(s) {
        ascii_lower_all(s)
    } else {
        lowercase(s)
    }
}

/// The UTF-16 code units of a character.
pub open spec fn units_of(c: char) -> Seq<u16> {
    let n = c as u32;
    if n < 0x10000 {
        seq![n as u16]
    } else {
        seq![(0xd800 + (n - 0x10000) / 0x400) as u16, (0xdc00 + (n - 0x10000) % 0x400) as u16]
    }
}

/// The UTF-16 code units of a text from index `i` on.
pub open spec fn utf16_from(s: Seq<char>, i: int) -> Seq<u16>
    decreases s.len() - i,
{
    if 0 <= i < s.len() {
        units_of(s[i]) + utf16_from(s, i + 1)
    } else {
        Seq::empty()
    }
}

/// The UTF-16 code units of a text, with the terminating zero.
pub open spec fn wide(s: Seq<char>) -> Seq<u16> {
    utf16_from(s, 0).push(0)
}

/// A text as UTF-16 with a terminating zero.
pub fn to_wide(s: &str) -> (r: Vec<u16>)
    ensures
        r@ == wide(s@),
{
    let mut out: Vec<u16> = Vec::new();
    proof {
        assert(out@ + utf16_from(s@, 0) =~= utf16_from(s@, 0));
    }
    for c in it: s.chars()
        invariant
            out@ + utf16_from(s@, it.index() as int) == utf16_from(s@, 0),
            it.seq() == s@,
    {
        let ghost before = out@;
        let n: u32 = c as u32;
        if n < 0x10000 {
            out.push(n as u16);
        } else {
            let m: u32 = n - 0x10000;
            out.push((0xd800 + m / 0x400) as u16);
            out.push((0xdc00 + m % 0x400) as u16);
        }
        proof {
            assert(out@ =~= before + units_of(c));
            assert(out@ + utf16_from(s@, it.index() + 1) =~= before + utf16_from(
                s@,
                it.index() as int,
            ));
        }
    }
    proof {
        assert(out@ + utf16_from(s@, s@.len() as int) =~= out@);
    }
    out.push(0);
    out
}

/// Whether a code unit is half of a pair.
pub open spec fn is_surrogate(u: u16) -> bool {
    0xd800 <= u <= 0xdfff
}

/// Whether two code units make one character.
pub open spec fn is_pair(a: u16, b: u16) -> bool {
    0xd800 <= a <= 0xdbff && 0xdc00 <= b <= 0xdfff
}

/// The character that two code units make.
pub open spec fn pair_char(a: u16, b: u16) -> char {
    (0x10000 + (a - 0xd800) * 0x400 + (b - 0xdc00)) as char
}

/// The text that UTF-16 code units hold from index `i` on; a half without its
/// other half gives the replacement character.
pub open spec fn utf16_text(u: Seq<u16>, i: int) -> Seq<char>
    decreases u.len() - i,
{
    if i < 0 || i >= u.len() {
        Seq::empty()
    } else if !is_surrogate(u[i]) {
        seq![u[i] as char] + utf16_text(u, i + 1)
    } else if i + 1 < u.len() && is_pair(u[i], u[i + 1]) {
        seq![pair_char(u[i], u[i + 1])] + utf16_text(u, i + 2)
    } else {
        seq!['\u{fffd}'] + utf16_text(u, i + 1)
    }
}

proof fn lemma_char(c: char)
    ensures
        c as u32 <= 0x10ffff,
        (c as u32) as char == c,
        c != '\0' ==> c as u32 != 0,
{
}

fn scalar(n: u32) -> (r: char)
    requires
        n <= 0xd7ff || 0xe000 <= n <= 0x10ffff,
    ensures
        r == n as char,
{
    match char::from_u32(n) {
        Some(c) => {
            proof {
                lemma_char(c);
            }
            c
        },
        None => '\u{fffd}',
    }
}

/// Reads UTF-16 code units; a half without its other half gives the replacement
/// character.
pub fn from_utf16_lossy(u: &[u16]) -> (r: String)
    ensures
        r@ == utf16_text(u@, 0),
{
    let n: usize = u.len();
    let mut out: Vec<char> = Vec::new();
    let mut i: usize = 0;
    proof {
        assert(out@ + utf16_text(u@, 0) =~= utf16_text(u@, 0));
    }
    while i < n
        invariant
            n == u@.len(),
            i <= n,
            out@ + utf16_text(u@, i as int) == utf16_text(u@, 0),
        decreases n - i,
    {
        let ghost before = out@;
        let ghost at = i as int;
        let a: u16 = u[i];
        if a < 0xd800 || a > 0xdfff {
            out.push(scalar(a as u32));
            i += 1;
        } else if n - i >= 2 && a <= 0xdbff && 0xdc00 <= u[i + 1] && u[i + 1] <= 0xdfff {
            let b: u16 = u[i + 1];
            let code: u32 = 0x10000 + (a as u32 - 0xd800) * 0x400 + (b as u32 - 0xdc00);
            out.push(scalar(code));
            i += 2;
        } else {
            out.push('\u{fffd}');
            i += 1;
        }
        proof {
            assert(out@ + utf16_text(u@, i as int) =~= before + utf16_text(u@, at));
        }
    }
    proof {
        assert(out@ + utf16_text(u@, i as int) =~= out@);
    }
    from_chars(out.as_slice())
}

proof fn lemma_units_read_back(c: char, pre: Seq<u16>, rest: Seq<u16>)
    ensures
        utf16_text(pre + units_of(c) + rest, pre.len() as int) == seq![c] + utf16_text(
            pre + units_of(c) + rest,
            pre.len() as int + units_of(c).len(),
        ),
{
    let u = pre + units_of(c) + rest;
    let i = pre.len() as int;
    let n = c as u32;
    if n < 0x10000 {
        assert(u[i] == n as u16);
        assert(u[i] as char == c);
    } else {
        let m = n - 0x10000;
        assert(u[i] == (0xd800 + m / 0x400) as u16);
        assert(u[i + 1] == (0xdc00 + m % 0x400) as u16);
        assert(0 <= m < 0x100000);
        assert(m / 0x400 < 0x400);
        assert(pair_char(u[i], u[i + 1]) == c);
    }
}

proof fn lemma_utf16_read_back(s: Seq<char>, i: int, pre: Seq<u16>)
    requires
        0 <= i <= s.len(),
    ensures
        utf16_text(pre + utf16_from(s, i), pre.len() as int) == s.skip(i),
    decreases s.len() - i,
{
    if i < s.len() {
        let c = s[i];
        let rest = utf16_from(s, i + 1);
        lemma_units_read_back(c, pre, rest);
        lemma_utf16_read_back(s, i + 1, pre + units_of(c));
        assert(pre + utf16_from(s, i) =~= pre + units_of(c) + rest);
        assert(s.skip(i) =~= seq![c] + s.skip(i + 1));
    } else {
        assert(s.skip(i) =~= Seq::<char>::empty());
    }
}

/// A text that is written as UTF-16 is read back, whatever characters it holds.
pub proof fn law_utf16_round_trip(s: Seq<char>)
    ensures
        utf16_text(utf16_from(s, 0), 0) == s,
{
    lemma_utf16_read_back(s, 0, Seq::empty());
    assert(Seq::<u16>::empty() + utf16_from(s, 0) =~= utf16_from(s, 0));
    assert(s.skip(0) =~= s);
}

/// The code units before the first zero, or all of them.
pub open spec fn before_zero(u: Seq<u16>, i: int) -> int
    decreases u.len() - i,
{
    if 0 <= i < u.len() && u[i] != 0 {
        before_zero(u, i + 1)
    } else {
        i
    }
}

proof fn lemma_utf16_nonzero(s: Seq<char>, i: int)
    requires
        0 <= i <= s.len(),
        forall|k: int| 0 <= k < s.len() ==> s[k] != '\0',
    ensures
        forall|k: int|
            0 <= k < utf16_from(s, i).len() ==> #[trigger] utf16_from(s, i)[k] != 0,
    decreases s.len() - i,
{
    if i < s.len() {
        lemma_utf16_nonzero(s, i + 1);
        let head = units_of(s[i]);
        let tail = utf16_from(s, i + 1);
        let all = utf16_from(s, i);
        assert forall|k: int| 0 <= k < all.len() implies #[trigger] all[k] != 0 by {
            if k < head.len() {
                assert(all[k] == head[k]);
                assert(s[i] != '\0');
                lemma_char(s[i]);
                assert(k == 0 || k == 1);
                if s[i] as u32 >= 0x10000 {
                    let m = s[i] as u32 - 0x10000;
                    assert(0 <= m / 0x400 < 0x400);
                    assert(head[0] == 0xd800 + m / 0x400);
                    assert(head[1] == 0xdc00 + m % 0x400);
                }
            } else {
                assert(all[k] == tail[k - head.len()]);
            }
        }
    }
}

proof fn lemma_before_zero(u: Seq<u16>, i: int)
    requires
        0 <= i <= u.len(),
        forall|k: int| 0 <= k < u.len() ==> u[k] != 0,
    ensures
        before_zero(u.push(0), i) == u.len(),
    decreases u.len() - i,
{
    if i < u.len() {
        assert(u.push(0)[i] == u[i]);
        lemma_before_zero(u, i + 1);
    }
}

/// A text without a zero in it ends, as UTF-16, at its terminator and nowhere
/// before: what stands before the first zero is the text.
pub proof fn law_wide_ends_at_terminator(s: Seq<char>)
    requires
        forall|k: int| 0 <= k < s.len() ==> s[k] != '\0',
    ensures
        utf16_text(wide(s).take(before_zero(wide(s), 0)), 0) == s,
{
    lemma_utf16_nonzero(s, 0);
    lemma_before_zero(utf16_from(s, 0), 0);
    assert(wide(s).take(utf16_from(s, 0).len() as int) =~= utf16_from(s, 0));
    law_utf16_round_trip(s);
}

/// The name in a zero-terminated field, in lower case.
pub open spec fn field_name(u: Seq<u16>) -> Seq<char> {
    lower_text(utf16_text(u.take(before_zero(u, 0)), 0))
}

/// Reads the name of an executable out of the field of a process entry: what
/// stands before the first zero, in lower case.
pub fn process_entry_exe_name(field: &[u16]) -> (r: String)
    ensures
        r@ == field_name(field@),
{
    let n: usize = field.len();
    let mut end: usize = 0;
    while end < n && field[end] != 0
        invariant
            n == field@.len(),
            end <= n,
            before_zero(field@, 0) == before_zero(field@, end as int),
        decreases n - end,
    {
        end += 1;
    }
    let name = vstd::slice::slice_subrange(field, 0, end);
    proof {
        assert(name@ =~= field@.take(end as int));
    }
    let text = from_utf16_lossy(name);
    to_lowercase(text.as_str())
}

// ---- What the code units promise ----

/// A character below 65536 is one code unit, its own number; any other is a high half
/// and a low half, which hold ten bits each of what exceeds 65536.
pub proof fn law_units_of_a_character(c: char)
    ensures
        (c as u32) < 0x10000 ==> units_of(c).len() == 1 && units_of(c)[0] == c as u32,
        c as u32 >= 0x10000 ==> {
            let (a, b) = (units_of(c)[0], units_of(c)[1]);
            &&& units_of(c).len() == 2
            &&& 0xd800 <= a <= 0xdbff
            &&& 0xdc00 <= b <= 0xdfff
            &&& c as u32 - 0x10000 == 1024 * (a - 0xd800) + (b - 0xdc00)
        },
{
    lemma_char(c);
    let n = c as u32;
    if n >= 0x10000 {
        let m = n - 0x10000;
        assert(0 <= m < 0x100000);
        assert(0 <= m / 0x400 < 0x400);
        assert(0 <= m % 0x400 < 0x400);
    }
}

/// A text is written character by character, and a zero is put at its end.
pub proof fn law_wide_by_character(s: Seq<char>, c: char)
    ensures
        utf16_from(Seq::empty(), 0) == Seq::<u16>::empty(),
        utf16_from(s.push(c), 0) == utf16_from(s, 0) + units_of(c),
        wide(s).len() == utf16_from(s, 0).len() + 1,
        wide(s).last() == 0,
        wide(s).drop_last() == utf16_from(s, 0),
{
    lemma_utf16_push(s, c, 0);
    assert(wide(s).drop_last() =~= utf16_from(s, 0));
}

proof fn lemma_utf16_push(s: Seq<char>, c: char, i: int)
    requires
        0 <= i <= s.len(),
    ensures
        utf16_from(s.push(c), i) == utf16_from(s, i) + units_of(c),
    decreases s.len() - i,
{
    let t = s.push(c);
    if i < s.len() {
        lemma_utf16_push(s, c, i + 1);
        assert(t[i] == s[i]);
        assert(utf16_from(t, i) =~= utf16_from(s, i) + units_of(c));
    } else {
        assert(t[i] == c);
        assert(utf16_from(t, i + 1) =~= Seq::<u16>::empty());
        assert(utf16_from(t, i) =~= utf16_from(s, i) + units_of(c));
    }
}

proof fn lemma_utf16_shift(pre: Seq<u16>, u: Seq<u16>, i: int)
    requires
        0 <= i <= u.len(),
    ensures
        utf16_text(pre + u, pre.len() + i) == utf16_text(u, i),
    decreases u.len() - i,
{
    let t = pre + u;
    if i < u.len() {
        assert(t[pre.len() + i] == u[i]);
        lemma_utf16_shift(pre, u, i + 1);
        if i + 1 < u.len() {
            assert(t[pre.len() + i + 1] == u[i + 1]);
            lemma_utf16_shift(pre, u, i + 2);
        }
    }
}

/// Code units are read from the start: one outside the range of the halves is the
/// character of that number, a high half with a low half after it is one character,
/// and a half on its own is the replacement character.
pub proof fn law_units_are_read(a: u16, rest: Seq<u16>)
    ensures
        utf16_text(Seq::empty(), 0) == Seq::<char>::empty(),
        a < 0xd800 || a > 0xdfff ==> utf16_text(seq![a] + rest, 0) == seq![a as char] + utf16_text(
            rest,
            0,
        ),
        0xd800 <= a <= 0xdbff && rest.len() > 0 && 0xdc00 <= rest[0] <= 0xdfff ==> utf16_text(
            seq![a] + rest,
            0,
        ) == seq![(0x10000 + 1024 * (a - 0xd800) + (rest[0] - 0xdc00)) as char] + utf16_text(
            rest.skip(1),
            0,
        ),
        0xd800 <= a <= 0xdfff && !(a <= 0xdbff && rest.len() > 0 && 0xdc00 <= rest[0] <= 0xdfff)
            ==> utf16_text(seq![a] + rest, 0) == seq!['\u{fffd}'] + utf16_text(rest, 0),
{
    let t = seq![a] + rest;
    assert(t[0] == a);
    lemma_utf16_shift(seq![a], rest, 0);
    if rest.len() > 0 {
        assert(t[1] == rest[0]);
        let two = seq![a, rest[0]];
        assert(two + rest.skip(1) =~= t);
        lemma_utf16_shift(two, rest.skip(1), 0);
    }
}

/// The name in a field is what was written there before its zero, in lower case,
/// whatever stands behind the zero; of an ASCII name each letter is lowered and
/// nothing else changes.
pub proof fn law_name_in_a_field(s: Seq<char>, behind: Seq<u16>)
    requires
        forall|k: int| 0 <= k < s.len() ==> s[k] != '\0',
    ensures
        field_name(utf16_from(s, 0) + seq![0u16] + behind) == lower_text(s),
        field_name(utf16_from(s, 0)) == lower_text(s),
        (forall|k: int| 0 <= k < s.len() ==> (#[trigger] s[k] as u32) < 128) ==> lower_text(s)
            == ascii_lower_all(s),
{
    lemma_utf16_nonzero(s, 0);
    let u = utf16_from(s, 0);
    let n = u.len() as int;
    let field = u + seq![0u16] + behind;
    assert forall|k: int| 0 <= k < n implies field[k] != 0 by {
        assert(field[k] == u[k]);
    }
    assert(field[n] == 0);
    lemma_zero_is(field, 0, n);
    lemma_zero_is(u, 0, n);
    assert(field.take(n) =~= u);
    assert(u.take(n) =~= u);
    law_utf16_round_trip(s);
    if forall|k: int| 0 <= k < s.len() ==> (#[trigger] s[k] as u32) < 128 {
        assert forall|k: int| 0 <= k < s.len() implies #[trigger] s[k] <= '\u{7f}' by {
            assert((s[k] as u32) < 128);
            lemma_char(s[k]);
        }
    }
}

proof fn lemma_zero_is(u: Seq<u16>, i: int, j: int)
    requires
        0 <= i <= j <= u.len(),
        forall|k: int| i <= k < j ==> u[k] != 0,
        j < u.len() ==> u[j] == 0,
    ensures
        before_zero(u, i) == j,
    decreases j - i,
{
    if i < j {
        lemma_zero_is(u, i + 1, j);
    }
}

} // verus!
