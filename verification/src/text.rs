//! Text handled as sequences of characters: trimming, splitting, searching,
//! decimal numbers and string assembly.
use vstd::prelude::*;
use vstd::slice::slice_subrange;

verus! {

/// `String::push`: the character is appended at the end, and nothing else changes.
pub assume_specification[ String::push ](s: &mut String, c: char)
    ensures
        final(s)@ == old(s)@.push(c),
;

/// An optional string slice as an optional sequence of characters.
pub open spec fn opt_str(s: Option<&str>) -> Option<Seq<char>> {
    match s {
        Some(t) => Some(t@),
        None => None,
    }
}

/// An optional string as an optional sequence of characters.
pub open spec fn opt_string(s: Option<String>) -> Option<Seq<char>> {
    match s {
        Some(t) => Some(t@),
        None => None,
    }
}

/// The characters of a string, in order.
pub fn to_chars(s: &str) -> (r: Vec<char>)
    ensures
        r@ == s@,
{
    let mut out: Vec<char> = Vec::new();
    for c in it: s.chars()
        invariant
            out@ == it.seq().take(it.index()),
            it.seq() == s@,
    {
        out.push(c);
        proof {
            assert(it.seq().take(it.index() + 1) =~= it.seq().take(it.index()).push(c));
        }
    }
    proof {
        assert(s@.take(s@.len() as int) =~= s@);
    }
    out
}

/// The string that holds the given characters.
pub fn from_chars(chars: &[char]) -> (r: String)
    ensures
        r@ == chars@,
{
    let mut out = String::new();
    let mut i: usize = 0;
    while i < chars.len()
        invariant
            i <= chars@.len(),
            out@ == chars@.take(i as int),
        decreases chars@.len() - i,
    {
        out.push(chars[i]);
        proof {
            assert(chars@.take(i + 1) =~= chars@.take(i as int).push(chars@[i as int]));
        }
        i += 1;
    }
    proof {
        assert(chars@.take(chars@.len() as int) =~= chars@);
    }
    out
}

/// Appends a string to another one.
pub fn push_all(out: &mut String, s: &str)
    ensures
        final(out)@ == old(out)@ + s@,
{
    let ghost before = out@;
    for c in it: s.chars()
        invariant
            out@ == before + it.seq().take(it.index()),
            it.seq() == s@,
    {
        out.push(c);
        proof {
            assert(it.seq().take(it.index() + 1) =~= it.seq().take(it.index()).push(c));
            assert(before + it.seq().take(it.index() + 1) =~= (before + it.seq().take(
                it.index(),
            )).push(c));
        }
    }
    proof {
        assert(s@.take(s@.len() as int) =~= s@);
    }
}

/// Whether two strings hold the same characters.
pub fn same_text(a: &str, b: &str) -> (r: bool)
    ensures
        r == (a@ == b@),
{
    let x = to_chars(a);
    let y = to_chars(b);
    same_chars(x.as_slice(), y.as_slice())
}

/// Whether two slices hold the same characters.
pub fn same_chars(a: &[char], b: &[char]) -> (r: bool)
    ensures
        r == (a@ == b@),
{
    if a.len() != b.len() {
        return false;
    }
    let mut i: usize = 0;
    while i < a.len()
        invariant
            i <= a@.len(),
            a@.len() == b@.len(),
            forall|k: int| 0 <= k < i ==> a@[k] == b@[k],
        decreases a@.len() - i,
    {
        if a[i] != b[i] {
            return false;
        }
        i += 1;
    }
    proof {
        assert(a@ =~= b@);
    }
    true
}

// ---- White space ----

/// Characters with the Unicode property `White_Space`.
pub open spec fn white(c: char) -> bool {
    ||| 0x09 <= c as u32 <= 0x0d
    ||| c as u32 == 0x20
    ||| c as u32 == 0x85
    ||| c as u32 == 0xa0
    ||| c as u32 == 0x1680
    ||| 0x2000 <= c as u32 <= 0x200a
    ||| c as u32 == 0x2028
    ||| c as u32 == 0x2029
    ||| c as u32 == 0x202f
    ||| c as u32 == 0x205f
    ||| c as u32 == 0x3000
}

/// Whether a character is white space.
pub fn is_white(c: char) -> (r: bool)
    ensures
        r == white(c),
{
    let u: u32 = c as u32;
    (0x09 <= u && u <= 0x0d) || u == 0x20 || u == 0x85 || u == 0xa0 || u == 0x1680 || (0x2000 <= u
        && u <= 0x200a) || u == 0x2028 || u == 0x2029 || u == 0x202f || u == 0x205f || u == 0x3000
}

/// The first index at or after `i` that does not hold white space.
pub open spec fn white_end(s: Seq<char>, i: int) -> int
    decreases s.len() - i,
{
    if 0 <= i < s.len() && white(s[i]) {
        white_end(s, i + 1)
    } else {
        i
    }
}

/// The start of the run of white space that ends at `j`, not before `lo`.
pub open spec fn white_back(s: Seq<char>, lo: int, j: int) -> int
    decreases j - lo,
{
    if 0 <= lo < j <= s.len() && white(s[j - 1]) {
        white_back(s, lo, j - 1)
    } else {
        j
    }
}

/// The text without the white space at its start.
pub open spec fn trim_start(s: Seq<char>) -> Seq<char> {
    s.skip(white_end(s, 0))
}

/// The text without the white space at its two ends.
pub open spec fn trim(s: Seq<char>) -> Seq<char> {
    s.subrange(white_end(s, 0), white_back(s, white_end(s, 0), s.len() as int))
}

fn skip_white(s: &[char]) -> (r: usize)
    ensures
        r == white_end(s@, 0),
        r <= s@.len(),
        forall|k: int| 0 <= k < r ==> white(#[trigger] s@[k]),
        r < s@.len() ==> !white(s@[r as int]),
{
    let mut i: usize = 0;
    while i < s.len() && is_white(s[i])
        invariant
            i <= s@.len(),
            white_end(s@, 0) == white_end(s@, i as int),
            forall|k: int| 0 <= k < i ==> white(#[trigger] s@[k]),
        decreases s@.len() - i,
    {
        i += 1;
    }
    i
}

/// Drops the white space at the start.
pub fn trimmed_start<'a>(s: &'a [char]) -> (r: &'a [char])
    ensures
        r@ == trim_start(s@),
{
    let i: usize = skip_white(s);
    proof {
        assert(s@.skip(i as int) =~= s@.subrange(i as int, s@.len() as int));
    }
    slice_subrange(s, i, s.len())
}

/// Drops the white space at both ends.
pub fn trimmed<'a>(s: &'a [char]) -> (r: &'a [char])
    ensures
        r@ == trim(s@),
{
    let i: usize = skip_white(s);
    let mut j: usize = s.len();
    while i < j && is_white(s[j - 1])
        invariant
            i <= j <= s@.len(),
            white_back(s@, i as int, s@.len() as int) == white_back(s@, i as int, j as int),
        decreases j,
    {
        j -= 1;
    }
    slice_subrange(s, i, j)
}

/// Text whose two ends are not white space is left alone by `trim`.
pub proof fn lemma_trim_nothing(s: Seq<char>)
    requires
        s.len() > 0 ==> !white(s[0]) && !white(s.last()),
    ensures
        trim(s) == s,
{
    assert(s.subrange(0, s.len() as int) =~= s);
}

/// Every character of the trimmed text is a character of the text.
pub proof fn lemma_trim_within(s: Seq<char>)
    ensures
        0 <= white_end(s, 0) <= white_back(s, white_end(s, 0), s.len() as int) <= s.len(),
{
    lemma_white_end_bounds(s, 0);
    lemma_white_back_bounds(s, white_end(s, 0), s.len() as int);
}

pub proof fn lemma_white_end_bounds(s: Seq<char>, i: int)
    requires
        0 <= i <= s.len(),
    ensures
        i <= white_end(s, i) <= s.len(),
        forall|k: int| i <= k < white_end(s, i) ==> white(#[trigger] s[k]),
    decreases s.len() - i,
{
    if i < s.len() && white(s[i]) {
        lemma_white_end_bounds(s, i + 1);
    }
}

pub proof fn lemma_white_back_bounds(s: Seq<char>, lo: int, j: int)
    requires
        0 <= lo <= j <= s.len(),
    ensures
        lo <= white_back(s, lo, j) <= j,
        forall|k: int| white_back(s, lo, j) <= k < j ==> white(#[trigger] s[k]),
    decreases j - lo,
{
    if lo < j && white(s[j - 1]) {
        lemma_white_back_bounds(s, lo, j - 1);
    }
}

// ---- Prefixes and searching ----

/// Whether the text begins with the given characters.
pub open spec fn starts_with(s: Seq<char>, p: Seq<char>) -> bool {
    p.len() <= s.len() && s.take(p.len() as int) == p
}

/// Whether the text ends with the given characters.
pub open spec fn ends_with(s: Seq<char>, p: Seq<char>) -> bool {
    p.len() <= s.len() && s.skip(s.len() - p.len()) == p
}

/// Whether `p` stands in `s` at index `i`.
pub open spec fn occurs_at(s: Seq<char>, p: Seq<char>, i: int) -> bool {
    0 <= i && i + p.len() <= s.len() && s.subrange(i, i + p.len()) == p
}

/// The first index at or after `i` at which `p` stands in `s`.
pub open spec fn find_from(s: Seq<char>, p: Seq<char>, i: int) -> Option<int>
    decreases s.len() - i + 1,
{
    if i < 0 || i + p.len() > s.len() {
        None
    } else if occurs_at(s, p, i) {
        Some(i)
    } else {
        find_from(s, p, i + 1)
    }
}

/// The first index at or after `i` that holds `c`, or the length.
pub open spec fn index_of(s: Seq<char>, c: char, i: int) -> int
    decreases s.len() - i,
{
    if 0 <= i < s.len() && s[i] != c {
        index_of(s, c, i + 1)
    } else {
        i
    }
}

fn chars_at(s: &[char], p: &[char], i: usize) -> (r: bool)
    requires
        i + p@.len() <= s@.len(),
    ensures
        r == occurs_at(s@, p@, i as int),
{
    let n: usize = s.len();
    let mut k: usize = 0;
    while k < p.len()
        invariant
            n == s@.len(),
            k <= p@.len(),
            i + p@.len() <= n,
            forall|m: int| 0 <= m < k ==> s@[i + m] == p@[m],
        decreases p@.len() - k,
    {
        if s[i + k] != p[k] {
            proof {
                assert(s@.subrange(i as int, i + p@.len())[k as int] != p@[k as int]);
            }
            return false;
        }
        k += 1;
    }
    proof {
        assert(s@.subrange(i as int, i + p@.len()) =~= p@);
    }
    true
}

/// Whether the text begins with `p`.
pub fn has_prefix(s: &[char], p: &[char]) -> (r: bool)
    ensures
        r == starts_with(s@, p@),
{
    if p.len() > s.len() {
        return false;
    }
    proof {
        assert(s@.take(p@.len() as int) =~= s@.subrange(0, p@.len() as int));
    }
    chars_at(s, p, 0)
}

/// What follows `p` in a text that begins with `p`.
pub fn after_prefix<'a>(s: &'a [char], p: &[char]) -> (r: Option<&'a [char]>)
    ensures
        r is Some <==> starts_with(s@, p@),
        r matches Some(t) ==> t@ == s@.skip(p@.len() as int),
{
    if has_prefix(s, p) {
        proof {
            assert(s@.skip(p@.len() as int) =~= s@.subrange(p@.len() as int, s@.len() as int));
        }
        Some(slice_subrange(s, p.len(), s.len()))
    } else {
        None
    }
}

/// What precedes `p` in a text that ends with `p`.
pub fn before_suffix<'a>(s: &'a [char], p: &[char]) -> (r: Option<&'a [char]>)
    ensures
        r is Some <==> ends_with(s@, p@),
        r matches Some(t) ==> t@ == s@.take(s@.len() - p@.len()),
{
    if p.len() > s.len() {
        return None;
    }
    let n: usize = s.len() - p.len();
    proof {
        assert(s@.skip(n as int) =~= s@.subrange(n as int, n + p@.len()));
        assert(s@.take(n as int) =~= s@.subrange(0, n as int));
    }
    if chars_at(s, p, n) {
        Some(slice_subrange(s, 0, n))
    } else {
        None
    }
}

/// The first place at which `p` stands in the text.
pub fn find(s: &[char], p: &[char]) -> (r: Option<usize>)
    ensures
        r is Some <==> find_from(s@, p@, 0) is Some,
        r matches Some(i) ==> find_from(s@, p@, 0) == Some(i as int) && i + p@.len() <= s@.len(),
{
    let mut i: usize = 0;
    while p.len() <= s.len() - i
        invariant
            i <= s@.len(),
            find_from(s@, p@, 0) == find_from(s@, p@, i as int),
        decreases s@.len() - i,
    {
        if chars_at(s, p, i) {
            return Some(i);
        }
        proof {
            if i == s@.len() {
                assert(s@.subrange(i as int, i as int) =~= p@);
            }
        }
        i += 1;
    }
    None
}

/// The first index at or after `from` that holds `c`, or the length.
pub fn find_char(s: &[char], c: char, from: usize) -> (r: usize)
    requires
        from <= s@.len(),
    ensures
        r == index_of(s@, c, from as int),
        from <= r <= s@.len(),
        r < s@.len() ==> s@[r as int] == c,
        forall|k: int| from <= k < r ==> s@[k] != c,
{
    let mut i: usize = from;
    while i < s.len() && s[i] != c
        invariant
            from <= i <= s@.len(),
            index_of(s@, c, from as int) == index_of(s@, c, i as int),
            forall|k: int| from <= k < i ==> s@[k] != c,
        decreases s@.len() - i,
    {
        i += 1;
    }
    i
}

pub proof fn lemma_index_of_bounds(s: Seq<char>, c: char, i: int)
    requires
        0 <= i <= s.len(),
    ensures
        i <= index_of(s, c, i) <= s.len(),
        index_of(s, c, i) < s.len() ==> s[index_of(s, c, i)] == c,
        forall|k: int| i <= k < index_of(s, c, i) ==> s[k] != c,
    decreases s.len() - i,
{
    if i < s.len() && s[i] != c {
        lemma_index_of_bounds(s, c, i + 1);
    }
}

/// The number of times the text begins with `c`.
pub open spec fn run_of(s: Seq<char>, c: char, i: int) -> int
    decreases s.len() - i,
{
    if 0 <= i < s.len() && s[i] == c {
        run_of(s, c, i + 1)
    } else {
        i
    }
}

/// The text without the run of `c` at its start.
pub open spec fn without_leading(s: Seq<char>, c: char) -> Seq<char> {
    s.skip(run_of(s, c, 0))
}

/// Drops the run of `c` at the start.
pub fn trimmed_leading<'a>(s: &'a [char], c: char) -> (r: &'a [char])
    ensures
        r@ == without_leading(s@, c),
{
    let mut i: usize = 0;
    while i < s.len() && s[i] == c
        invariant
            i <= s@.len(),
            run_of(s@, c, 0) == run_of(s@, c, i as int),
        decreases s@.len() - i,
    {
        i += 1;
    }
    proof {
        assert(s@.skip(i as int) =~= s@.subrange(i as int, s@.len() as int));
    }
    slice_subrange(s, i, s.len())
}

pub proof fn lemma_run_of_bounds(s: Seq<char>, c: char, i: int)
    requires
        0 <= i <= s.len(),
    ensures
        i <= run_of(s, c, i) <= s.len(),
        forall|k: int| i <= k < run_of(s, c, i) ==> s[k] == c,
        run_of(s, c, i) < s.len() ==> s[run_of(s, c, i)] != c,
    decreases s.len() - i,
{
    if i < s.len() && s[i] == c {
        lemma_run_of_bounds(s, c, i + 1);
    }
}

// ---- Splitting ----

/// The pieces of the text from index `i` on that the separator divides it into.
pub open spec fn split_from(s: Seq<char>, sep: char, i: int) -> Seq<Seq<char>>
    decreases s.len() - i,
{
    let j = index_of(s, sep, i);
    if i <= j < s.len() {
        seq![s.subrange(i, j)] + split_from(s, sep, j + 1)
    } else {
        seq![s.subrange(i, s.len() as int)]
    }
}

/// The pieces that the separator divides the text into; one more than the
/// number of separators.
pub open spec fn split(s: Seq<char>, sep: char) -> Seq<Seq<char>> {
    split_from(s, sep, 0)
}

/// What a vector of slices holds, as a sequence of sequences.
pub open spec fn pieces(v: Seq<&[char]>) -> Seq<Seq<char>> {
    v.map_values(|p: &[char]| p@)
}

/// Splits the text at each separator.
pub fn split_at_char<'a>(s: &'a [char], sep: char) -> (r: Vec<&'a [char]>)
    ensures
        pieces(r@) == split(s@, sep),
        r@.len() >= 1,
{
    let mut out: Vec<&'a [char]> = Vec::new();
    let mut i: usize = 0;
    proof {
        assert(pieces(out@) + split_from(s@, sep, 0) =~= split_from(s@, sep, 0));
    }
    loop
        invariant
            i <= s@.len(),
            pieces(out@) + split_from(s@, sep, i as int) == split(s@, sep),
        decreases s@.len() - i,
    {
        let j: usize = find_char(s, sep, i);
        let ghost before = out@;
        let piece = slice_subrange(s, i, j);
        out.push(piece);
        proof {
            assert(pieces(out@) =~= pieces(before).push(s@.subrange(i as int, j as int)));
        }
        if j < s.len() {
            proof {
                assert(pieces(out@) + split_from(s@, sep, j + 1) =~= pieces(before) + split_from(
                    s@,
                    sep,
                    i as int,
                ));
            }
            i = j + 1;
        } else {
            proof {
                assert(pieces(out@) =~= pieces(before) + split_from(s@, sep, i as int));
            }
            return out;
        }
    }
}

proof fn lemma_index_shift(s: Seq<char>, c: char, i: int)
    requires
        0 <= i <= s.len(),
    ensures
        index_of(s, c, i) == i + index_of(s.skip(i), c, 0),
    decreases s.len() - i,
{
    let t = s.skip(i);
    if i < s.len() && s[i] != c {
        assert(t[0] == s[i]);
        lemma_index_shift(s, c, i + 1);
        if i > 0 {
            lemma_index_shift(t, c, 1);
            assert(t.skip(1) =~= s.skip(i + 1));
        } else {
            assert(t =~= s);
        }
    }
}

proof fn lemma_split_shift(s: Seq<char>, sep: char, i: int)
    requires
        0 <= i <= s.len(),
    ensures
        split_from(s, sep, i) == split(s.skip(i), sep),
    decreases s.len() - i,
{
    let t = s.skip(i);
    lemma_index_shift(s, sep, i);
    lemma_index_of_bounds(s, sep, i);
    let j = index_of(s, sep, i);
    if j < s.len() {
        assert(s.subrange(i, j) =~= t.subrange(0, j - i));
        lemma_split_shift(s, sep, j + 1);
        if i > 0 {
            lemma_split_shift(t, sep, j - i + 1);
            assert(t.skip(j - i + 1) =~= s.skip(j + 1));
        } else {
            assert(t =~= s);
        }
    } else {
        assert(s.subrange(i, s.len() as int) =~= t.subrange(0, t.len() as int));
    }
}

/// A piece without a separator, a separator and more text split into the piece
/// and the pieces of the rest.
pub proof fn lemma_split_cons(a: Seq<char>, sep: char, rest: Seq<char>)
    requires
        forall|k: int| 0 <= k < a.len() ==> a[k] != sep,
    ensures
        split(a + seq![sep] + rest, sep) == seq![a] + split(rest, sep),
{
    let s = a + seq![sep] + rest;
    let n = a.len() as int;
    lemma_index_is(s, sep, 0, n);
    lemma_split_shift(s, sep, n + 1);
    assert(s.skip(n + 1) =~= rest);
    assert(s.subrange(0, n) =~= a);
}

/// A text without a separator is one piece.
pub proof fn lemma_split_single(a: Seq<char>, sep: char)
    requires
        forall|k: int| 0 <= k < a.len() ==> a[k] != sep,
    ensures
        split(a, sep) == seq![a],
{
    lemma_index_is(a, sep, 0, a.len() as int);
    assert(a.subrange(0, a.len() as int) =~= a);
}

/// The first place of a character, from where it is and where it is not.
pub proof fn lemma_index_is(s: Seq<char>, c: char, i: int, j: int)
    requires
        0 <= i <= j <= s.len(),
        forall|k: int| i <= k < j ==> s[k] != c,
        j < s.len() ==> s[j] == c,
    ensures
        index_of(s, c, i) == j,
    decreases j - i,
{
    if i < j {
        lemma_index_is(s, c, i + 1, j);
    }
}

/// Every character of the text is a separator or stands in one of the pieces.
pub proof fn lemma_split_covers(s: Seq<char>, sep: char, i: int, k: int)
    requires
        0 <= i <= k < s.len(),
    ensures
        s[k] == sep || exists|p: int, q: int|
            0 <= p < split_from(s, sep, i).len() && 0 <= q < split_from(s, sep, i)[p].len()
                && #[trigger] split_from(s, sep, i)[p][q] == s[k],
    decreases s.len() - i,
{
    lemma_index_of_bounds(s, sep, i);
    let all = split_from(s, sep, i);
    let j = index_of(s, sep, i);
    if k < j || j == s.len() {
        assert(all[0][k - i] == s[k]);
    } else if k > j {
        let rest = split_from(s, sep, j + 1);
        lemma_split_covers(s, sep, j + 1, k);
        if s[k] != sep {
            let (p, q) = choose|p: int, q: int|
                0 <= p < rest.len() && 0 <= q < rest[p].len() && #[trigger] rest[p][q] == s[k];
            assert(all[p + 1] == rest[p]);
            assert(all[p + 1][q] == s[k]);
        }
    }
}

// ---- Decimal numbers ----

/// Whether the character is one of `0` to `9`.
pub open spec fn is_digit(c: char) -> bool {
    '0' <= c <= '9'
}

/// The value of a digit.
pub open spec fn digit_value(c: char) -> int {
    c as u32 - '0' as u32
}

pub open spec fn all_digits(s: Seq<char>) -> bool {
    forall|i: int| 0 <= i < s.len() ==> is_digit(#[trigger] s[i])
}

/// The number that a sequence of digits writes.
pub open spec fn digits_value(s: Seq<char>) -> int
    decreases s.len(),
{
    if s.len() == 0 {
        0
    } else {
        10 * digits_value(s.drop_last()) + digit_value(s.last())
    }
}

/// The text after one leading plus sign, if there is one.
pub open spec fn unsigned_body(s: Seq<char>) -> Seq<char> {
    if s.len() > 0 && s[0] == '+' {
        s.drop_first()
    } else {
        s
    }
}

/// The unsigned number that a text writes, if it is at most `max`: digits, at
/// least one, with at most one plus sign before them.
pub open spec fn parse_unsigned(s: Seq<char>, max: int) -> Option<int> {
    let t = unsigned_body(s);
    if t.len() > 0 && all_digits(t) && digits_value(t) <= max {
        Some(digits_value(t))
    } else {
        None
    }
}

pub proof fn lemma_digits_value_prefix(s: Seq<char>, i: int)
    requires
        0 <= i <= s.len(),
        all_digits(s),
    ensures
        0 <= digits_value(s.take(i)) <= digits_value(s),
    decreases s.len() - i,
{
    if i == s.len() {
        assert(s.take(i) =~= s);
        lemma_digits_value_nonneg(s);
    } else {
        lemma_digits_value_prefix(s, i + 1);
        assert(s.take(i + 1).drop_last() =~= s.take(i));
        assert(all_digits(s.take(i)));
        lemma_digits_value_nonneg(s.take(i));
    }
}

pub proof fn lemma_digits_value_nonneg(s: Seq<char>)
    requires
        all_digits(s),
    ensures
        digits_value(s) >= 0,
    decreases s.len(),
{
    if s.len() > 0 {
        assert(all_digits(s.drop_last()));
        lemma_digits_value_nonneg(s.drop_last());
    }
}

/// A number that was read is in range, and what it was read from holds digits
/// and at most a plus sign.
pub proof fn lemma_parse_unsigned_range(s: Seq<char>, max: int)
    requires
        parse_unsigned(s, max) is Some,
    ensures
        0 <= parse_unsigned(s, max)->0 <= max,
        forall|k: int| 0 <= k < s.len() ==> is_digit(#[trigger] s[k]) || s[k] == '+',
{
    let t = unsigned_body(s);
    lemma_digits_value_nonneg(t);
    assert forall|k: int| 0 <= k < s.len() implies is_digit(#[trigger] s[k]) || s[k] == '+' by {
        if s[0] == '+' {
            if k > 0 {
                assert(t[k - 1] == s[k]);
            }
        } else {
            assert(t[k] == s[k]);
        }
    }
}

/// Reads an unsigned number that is at most `max`.
pub fn read_unsigned(s: &[char], max: u64) -> (r: Option<u64>)
    ensures
        r is Some <==> parse_unsigned(s@, max as int) is Some,
        r matches Some(v) ==> parse_unsigned(s@, max as int) == Some(v as int),
{
    let start: usize = if s.len() > 0 && s[0] == '+' {
        1
    } else {
        0
    };
    let t: &[char] = slice_subrange(s, start, s.len());
    proof {
        assert(t@ =~= unsigned_body(s@));
    }
    if t.len() == 0 {
        return None;
    }
    let mut value: u64 = 0;
    let mut i: usize = 0;
    while i < t.len()
        invariant
            t@ == unsigned_body(s@),
            i <= t@.len(),
            forall|k: int| 0 <= k < i ==> is_digit(#[trigger] t@[k]),
            value == digits_value(t@.take(i as int)),
            value <= max,
        decreases t@.len() - i,
    {
        let c: char = t[i];
        if c < '0' || '9' < c {
            proof {
                assert(!is_digit(t@[i as int]));
            }
            return None;
        }
        let d: u64 = (c as u32 - 48) as u64;
        proof {
            assert(t@.take(i + 1).drop_last() =~= t@.take(i as int));
            assert(digits_value(t@.take(i + 1)) == 10 * value + d);
            if all_digits(t@) {
                lemma_digits_value_prefix(t@, i + 1);
            }
        }
        if value > (u64::MAX - d) / 10 || value * 10 + d > max {
            return None;
        }
        value = value * 10 + d;
        i += 1;
    }
    proof {
        assert(t@.take(t@.len() as int) =~= t@);
    }
    Some(value)
}

/// The digit that writes a value below ten.
pub open spec fn digit_char(d: int) -> char {
    ('0' as u32 + d) as char
}

/// The decimal form of a number, without leading zeros.
pub open spec fn decimal(n: int) -> Seq<char>
    decreases n,
{
    if n < 10 {
        seq![digit_char(n)]
    } else {
        decimal(n / 10).push(digit_char(n % 10))
    }
}

/// `k` times the digit zero.
pub open spec fn zeros(k: int) -> Seq<char> {
    Seq::new(if k > 0 { k as nat } else { 0 }, |i: int| '0')
}

/// The decimal form of a number, filled up with zeros on the left to the width.
pub open spec fn padded(n: int, width: int) -> Seq<char> {
    zeros(width - decimal(n).len()) + decimal(n)
}

fn decimal_chars(n: u64) -> (r: Vec<char>)
    ensures
        r@ == decimal(n as int),
    decreases n,
{
    if n < 10 {
        let c: char = (48u8 + n as u8) as char;
        let mut v: Vec<char> = Vec::new();
        v.push(c);
        proof {
            assert(v@ =~= decimal(n as int));
        }
        v
    } else {
        let mut v = decimal_chars(n / 10);
        let d: u8 = (n % 10) as u8;
        v.push((48u8 + d) as char);
        v
    }
}

/// Appends the decimal form of a number.
pub fn push_decimal(out: &mut String, n: u64)
    ensures
        final(out)@ == old(out)@ + decimal(n as int),
{
    let v = decimal_chars(n);
    let s = from_chars(v.as_slice());
    push_all(out, s.as_str());
}

/// The decimal form of a number that may be negative.
pub open spec fn signed_decimal(n: int) -> Seq<char> {
    if n < 0 {
        seq!['-'] + decimal(-n)
    } else {
        decimal(n)
    }
}

/// Appends the decimal form of a number that may be negative.
pub fn push_signed(out: &mut String, n: i64)
    ensures
        final(out)@ == old(out)@ + signed_decimal(n as int),
{
    if n < 0 {
        let ghost before = out@;
        out.push('-');
        let m: u64 = (-(n + 1)) as u64 + 1;
        push_decimal(out, m);
        proof {
            assert(out@ =~= before + signed_decimal(n as int));
        }
    } else {
        push_decimal(out, n as u64);
    }
}

/// Appends the decimal form of a number, filled up with zeros to the width.
pub fn push_padded(out: &mut String, n: u64, width: usize)
    ensures
        final(out)@ == old(out)@ + padded(n as int, width as int),
{
    let v = decimal_chars(n);
    let ghost before = out@;
    let mut i: usize = v.len();
    let ghost len = v@.len() as int;
    while i < width
        invariant
            len == v@.len(),
            len <= i,
            i <= width || i == len,
            out@ == before + zeros(i - len),
        decreases width - i,
    {
        out.push('0');
        proof {
            assert(before + zeros(i + 1 - len) =~= (before + zeros(i - len)).push('0'));
        }
        i += 1;
    }
    let s = from_chars(v.as_slice());
    push_all(out, s.as_str());
    proof {
        assert(zeros(i - len) =~= zeros(width - len));
        assert(out@ =~= before + padded(n as int, width as int));
    }
}

/// Reading back a decimal form gives the number.
pub proof fn lemma_decimal_value(n: int)
    requires
        0 <= n,
    ensures
        all_digits(decimal(n)),
        decimal(n).len() >= 1,
        digits_value(decimal(n)) == n,
    decreases n,
{
    if n < 10 {
        assert(decimal(n).drop_last() =~= Seq::<char>::empty());
        assert(digit_value(digit_char(n)) == n);
        assert(digits_value(decimal(n)) == 10 * digits_value(decimal(n).drop_last()) + digit_value(
            decimal(n).last(),
        ));
    } else {
        lemma_decimal_value(n / 10);
        assert(decimal(n).drop_last() =~= decimal(n / 10));
        assert(digit_value(digit_char(n % 10)) == n % 10);
    }
}

/// Zeros on the left do not change the number.
pub proof fn lemma_zeros_value(k: int, s: Seq<char>)
    requires
        0 <= k,
        all_digits(s),
    ensures
        all_digits(zeros(k) + s),
        digits_value(zeros(k) + s) == digits_value(s),
    decreases k + s.len(),
{
    let t = zeros(k) + s;
    if s.len() > 0 {
        assert(t.drop_last() =~= zeros(k) + s.drop_last());
        assert(all_digits(s.drop_last()));
        lemma_zeros_value(k, s.drop_last());
    } else if k > 0 {
        assert(t.drop_last() =~= zeros(k - 1) + s);
        lemma_zeros_value(k - 1, s);
    } else {
        assert(t =~= s);
    }
}

/// Reading back a padded form gives the number.
pub proof fn lemma_padded_value(n: int, width: int)
    requires
        0 <= n,
    ensures
        all_digits(padded(n, width)),
        padded(n, width).len() >= 1,
        padded(n, width).len() >= width,
        digits_value(padded(n, width)) == n,
{
    lemma_decimal_value(n);
    let k = if width > decimal(n).len() {
        width - decimal(n).len()
    } else {
        0
    };
    assert(zeros(width - decimal(n).len()) =~= zeros(k));
    lemma_zeros_value(k, decimal(n));
}

/// A number below ten to the width takes exactly the width.
pub proof fn lemma_padded_width(n: int, width: int)
    requires
        0 <= n,
        (width == 2 && n < 100) || (width == 4 && n < 10000),
    ensures
        padded(n, width).len() == width,
{
    reveal_with_fuel(decimal, 5);
}

// ---- Case ----

/// The lower-case form of an ASCII letter; any other character is kept.
pub open spec fn ascii_lower(c: char) -> char {
    if 'A' <= c <= 'Z' {
        (c as u32 + 32) as char
    } else {
        c
    }
}

pub open spec fn ascii_lower_all(s: Seq<char>) -> Seq<char> {
    s.map_values(|c: char| ascii_lower(c))
}

/// The lower-case form of the ASCII letters of a text.
pub fn lowered(s: &[char]) -> (r: Vec<char>)
    ensures
        r@ == ascii_lower_all(s@),
{
    let mut out: Vec<char> = Vec::new();
    let mut i: usize = 0;
    while i < s.len()
        invariant
            i <= s@.len(),
            out@ == ascii_lower_all(s@.take(i as int)),
        decreases s@.len() - i,
    {
        let c: char = s[i];
        let d: char = if 'A' <= c && c <= 'Z' {
            (c as u8 + 32u8) as char
        } else {
            c
        };
        out.push(d);
        proof {
            assert(ascii_lower_all(s@.take(i + 1)) =~= ascii_lower_all(s@.take(i as int)).push(d));
        }
        i += 1;
    }
    proof {
        assert(s@.take(s@.len() as int) =~= s@);
    }
    out
}

// ---- Paths ----

/// A path with slashes for its backslashes.
pub open spec fn slashed(path: Seq<char>) -> Seq<char> {
    path.map_values(
        |c: char|
            if c == '\\' {
                '/'
            } else {
                c
            },
    )
}

/// Writes a path with slashes.
pub fn with_slashes(path: &str) -> (r: String)
    ensures
        r@ == slashed(path@),
{
    let chars = to_chars(path);
    let mut out: Vec<char> = Vec::new();
    let mut i: usize = 0;
    while i < chars.len()
        invariant
            i <= chars@.len(),
            chars@ == path@,
            out@ == slashed(path@.take(i as int)),
        decreases chars@.len() - i,
    {
        let c: char = chars[i];
        let d: char = if c == '\\' {
            '/'
        } else {
            c
        };
        out.push(d);
        proof {
            assert(slashed(path@.take(i + 1)) =~= slashed(path@.take(i as int)).push(d));
        }
        i += 1;
    }
    proof {
        assert(path@.take(i as int) =~= path@);
    }
    from_chars(out.as_slice())
}

// ---- Lists ----

/// What a vector of strings holds.
pub open spec fn texts(v: Seq<String>) -> Seq<Seq<char>> {
    v.map_values(|s: String| s@)
}

/// Appends a string to a list.
pub fn push_text(v: &mut Vec<String>, s: String)
    ensures
        texts(final(v)@) == texts(old(v)@).push(s@),
        final(v)@.len() == old(v)@.len() + 1,
{
    let ghost before = v@;
    v.push(s);
    proof {
        assert(texts(v@) =~= texts(before).push(s@));
    }
}

/// The texts with a comma and a space between them.
pub open spec fn comma_separated(items: Seq<Seq<char>>) -> Seq<char>
    decreases items.len(),
{
    if items.len() == 0 {
        Seq::empty()
    } else if items.len() == 1 {
        items[0]
    } else {
        comma_separated(items.drop_last()) + ", "@ + items.last()
    }
}

/// A list as it is written for a developer: in brackets, with commas.
pub open spec fn list_text(items: Seq<Seq<char>>) -> Seq<char> {
    "["@ + comma_separated(items) + "]"@
}

/// Appends a list.
pub fn push_list(out: &mut String, items: &Vec<String>)
    ensures
        final(out)@ == old(out)@ + list_text(texts(items@)),
{
    let ghost before = out@;
    push_all(out, "[");
    let ghost opened = out@;
    let ghost all = texts(items@);
    let mut i: usize = 0;
    proof {
        assert(opened + comma_separated(all.take(0)) =~= opened);
    }
    while i < items.len()
        invariant
            i <= items@.len(),
            all == texts(items@),
            out@ == opened + comma_separated(all.take(i as int)),
        decreases items@.len() - i,
    {
        if i > 0 {
            push_all(out, ", ");
        }
        push_all(out, items[i].as_str());
        proof {
            let next = all.take(i + 1);
            assert(next.drop_last() =~= all.take(i as int));
            assert(next.last() == items@[i as int]@);
            assert(out@ =~= opened + comma_separated(next));
        }
        i += 1;
    }
    push_all(out, "]");
    proof {
        assert(all.take(i as int) =~= all);
        assert(out@ =~= before + list_text(all));
    }
}

/// What `{:?}` makes of a text.
pub uninterp spec fn debug_text(s: Seq<char>) -> Seq<char>;

/// `format!` with `{:?}` on a text: the result depends on the text alone. Which
/// characters are escaped, and how, is not stated.
#[verifier::external_body]
pub(crate) fn debug_of(s: &str) -> (r: String)
    ensures
        r@ == debug_text(s@),
{
    format!("{:?}", s)
}

// ---- What the texts promise ----

/// Trimming drops white space at the two ends and nothing else: what is left stands
/// in the text, all around it is white space, and it neither begins nor ends with
/// any.
pub proof fn law_trim(s: Seq<char>, i: int, j: int)
    requires
        i == white_end(s, 0),
        j == white_back(s, i, s.len() as int),
    ensures
        0 <= i <= j <= s.len(),
        trim(s) == s.subrange(i, j),
        trim_start(s) == s.skip(i),
        forall|k: int| 0 <= k < i || j <= k < s.len() ==> white(#[trigger] s[k]),
        trim(s).len() > 0 ==> !white(trim(s)[0]) && !white(trim(s).last()),
        i < s.len() ==> !white(s[i]),
{
    lemma_white_end_bounds(s, 0);
    lemma_white_back_bounds(s, i, s.len() as int);
    lemma_white_end_stops(s, 0);
    lemma_white_back_stops(s, i, s.len() as int);
}

proof fn lemma_white_end_stops(s: Seq<char>, i: int)
    requires
        0 <= i <= s.len(),
    ensures
        white_end(s, i) < s.len() ==> !white(s[white_end(s, i)]),
    decreases s.len() - i,
{
    if i < s.len() && white(s[i]) {
        lemma_white_end_stops(s, i + 1);
    }
}

proof fn lemma_white_back_stops(s: Seq<char>, lo: int, j: int)
    requires
        0 <= lo <= j <= s.len(),
    ensures
        white_back(s, lo, j) > lo ==> !white(s[white_back(s, lo, j) - 1]),
    decreases j - lo,
{
    if lo < j && white(s[j - 1]) {
        lemma_white_back_stops(s, lo, j - 1);
    }
}

/// White space around a text is no part of it.
pub proof fn law_trim_around(before: Seq<char>, s: Seq<char>, after: Seq<char>)
    requires
        forall|k: int| 0 <= k < before.len() ==> white(#[trigger] before[k]),
        forall|k: int| 0 <= k < after.len() ==> white(#[trigger] after[k]),
        s.len() > 0,
        !white(s[0]),
        !white(s.last()),
    ensures
        trim(before + s + after) == s,
        trim_start(before + s + after) == s + after,
{
    let all = before + s + after;
    let (a, b) = (before.len() as int, (before.len() + s.len()) as int);
    assert forall|k: int| 0 <= k < a implies white(#[trigger] all[k]) by {
        assert(all[k] == before[k]);
    }
    assert forall|k: int| b <= k < all.len() implies white(#[trigger] all[k]) by {
        assert(all[k] == after[k - b]);
    }
    assert(all[a] == s[0]);
    assert(all[b - 1] == s.last());
    lemma_white_end_is(all, 0, a);
    lemma_white_back_is(all, a, all.len() as int, b);
    assert(all.subrange(a, b) =~= s);
    assert(all.skip(a) =~= s + after);
}

proof fn lemma_white_end_is(s: Seq<char>, i: int, j: int)
    requires
        0 <= i <= j < s.len(),
        forall|k: int| i <= k < j ==> white(#[trigger] s[k]),
        !white(s[j]),
    ensures
        white_end(s, i) == j,
    decreases j - i,
{
    if i < j {
        assert(white(s[i]));
        lemma_white_end_is(s, i + 1, j);
    }
}

proof fn lemma_white_back_is(s: Seq<char>, lo: int, j: int, b: int)
    requires
        0 <= lo < b <= j <= s.len(),
        forall|k: int| b <= k < j ==> white(#[trigger] s[k]),
        !white(s[b - 1]),
    ensures
        white_back(s, lo, j) == b,
    decreases j - b,
{
    if b < j {
        assert(white(s[j - 1]));
        lemma_white_back_is(s, lo, j - 1, b);
    }
}

/// Of the ASCII characters the space, the tabs, the ends of lines and of pages are
/// white space, and no others; beyond ASCII there are 19 more.
pub proof fn law_white_space(c: char)
    ensures
        (c as u32) < 128 ==> (white(c) <==> c == ' ' || c == '\t' || c == '\n' || c == '\r' || c
            == '\u{b}' || c == '\u{c}'),
        (c as u32) >= 128 ==> (white(c) <==> c == '\u{85}' || c == '\u{a0}' || c == '\u{1680}' || (
        '\u{2000}' <= c && c <= '\u{200a}') || c == '\u{2028}' || c == '\u{2029}' || c == '\u{202f}'
            || c == '\u{205f}' || c == '\u{3000}'),
{
}

/// A search finds the first place of what is searched for, and fails only if it
/// stands nowhere.
pub proof fn law_search_finds_the_first(s: Seq<char>, p: Seq<char>, i: int)
    requires
        0 <= i <= s.len(),
    ensures
        match find_from(s, p, i) {
            Some(k) => {
                &&& i <= k <= s.len() - p.len()
                &&& s.subrange(k, k + p.len()) == p
                &&& forall|m: int|
                    i <= m < k ==> #[trigger] s.subrange(m, m + p.len()) != p
            },
            None => forall|m: int|
                i <= m && m + p.len() <= s.len() ==> #[trigger] s.subrange(m, m + p.len()) != p,
        },
    decreases s.len() - i,
{
    if i + p.len() <= s.len() && !occurs_at(s, p, i) {
        if i < s.len() {
            law_search_finds_the_first(s, p, i + 1);
        } else {
            assert(s.subrange(i, i + p.len()) =~= p);
        }
    }
}

/// A number is written in base ten, the digits by their codes, without a zero before
/// it, and is read back from there.
pub proof fn law_decimal(n: int, d: int, max: int)
    requires
        0 <= n,
        0 <= d < 10,
    ensures
        decimal(d).len() == 1,
        decimal(d)[0] as u32 == 48 + d,
        n > 0 ==> decimal(10 * n + d) == decimal(n) + decimal(d) && decimal(n)[0] != '0',
        parse_unsigned(decimal(n), max) == (if n <= max {
            Some(n)
        } else {
            None
        }),
        parse_unsigned(seq!['+'] + decimal(n), max) == parse_unsigned(decimal(n), max),
    decreases n,
{
    lemma_decimal_value(n);
    if n > 0 {
        assert((10 * n + d) / 10 == n);
        assert((10 * n + d) % 10 == d);
        assert(decimal(10 * n + d) =~= decimal(n) + decimal(d));
        if n >= 10 {
            law_decimal(n / 10, n % 10, max);
            assert(decimal(n)[0] == decimal(n / 10)[0]);
        }
    }
    assert(is_digit(decimal(n)[0]));
    let plus = seq!['+'] + decimal(n);
    assert(plus.drop_first() =~= decimal(n));
}

/// A padded number has the width that is asked for, if it fits, and is the number
/// with zeros before it.
pub proof fn law_padded(n: int, width: int)
    requires
        0 <= n,
    ensures
        padded(n, width).len() == (if width > decimal(n).len() {
            width
        } else {
            decimal(n).len() as int
        }),
        padded(n, width).skip(padded(n, width).len() - decimal(n).len()) == decimal(n),
        forall|k: int|
            0 <= k < padded(n, width).len() - decimal(n).len() ==> #[trigger] padded(n, width)[k]
                == '0',
        digits_value(padded(n, width)) == n,
{
    lemma_padded_value(n, width);
    assert(padded(n, width).skip(padded(n, width).len() - decimal(n).len()) =~= decimal(n));
}

/// A number below zero is written with a minus sign before it.
pub proof fn law_signed_decimal(n: int)
    ensures
        n >= 0 ==> signed_decimal(n) == decimal(n),
        n < 0 ==> signed_decimal(n)[0] == '-' && signed_decimal(n).skip(1) == decimal(0 - n),
{
    if n < 0 {
        assert(signed_decimal(n).skip(1) =~= decimal(-n));
    }
}

/// A text is read as a number only if it is made of digits, with at most a plus sign
/// before them; what is read is within the limit.
pub proof fn law_only_numbers_are_read(s: Seq<char>, max: int)
    requires
        parse_unsigned(s, max) is Some,
    ensures
        0 <= parse_unsigned(s, max)->0 <= max,
        s.len() > 0,
        forall|k: int|
            0 <= k < s.len() ==> 48 <= #[trigger] s[k] as u32 <= 57 || (k == 0 && s[k] == '+'
                && s.len() > 1),
{
    lemma_parse_unsigned_range(s, max);
    let t = unsigned_body(s);
    assert forall|k: int| 0 <= k < s.len() implies 48 <= #[trigger] s[k] as u32 <= 57 || (k == 0
        && s[k] == '+' && s.len() > 1) by {
        if s[0] == '+' {
            if k > 0 {
                assert(is_digit(t[k - 1]));
            }
        } else {
            assert(is_digit(t[k]));
        }
    }
}

/// Lowering changes the letters from A to Z and nothing else.
pub proof fn law_ascii_lower(c: char)
    ensures
        65 <= c as u32 <= 90 ==> ascii_lower(c) as u32 == c as u32 + 32,
        !(65 <= c as u32 <= 90) ==> ascii_lower(c) == c,
        ascii_lower(ascii_lower(c)) == ascii_lower(c),
{
}

/// Lowering and turning backslashes go character by character.
pub proof fn law_character_by_character(s: Seq<char>, i: int)
    requires
        0 <= i < s.len(),
    ensures
        ascii_lower_all(s).len() == s.len(),
        ascii_lower_all(s)[i] == ascii_lower(s[i]),
        slashed(s).len() == s.len(),
        s[i] == '\\' ==> slashed(s)[i] == '/',
        s[i] != '\\' ==> slashed(s)[i] == s[i],
{
}

/// A list is written in brackets, with a comma and a space between two items.
pub proof fn law_list_text(items: Seq<Seq<char>>, item: Seq<char>)
    ensures
        list_text(Seq::empty()) == "[]"@,
        list_text(seq![item]) == seq!['['] + item + seq![']'],
        items.len() > 0 ==> list_text(items.push(item)) == list_text(items).drop_last() + seq![
            ',',
            ' ',
        ] + item + seq![']'],
{
    reveal_strlit("[]");
    reveal_strlit("[");
    reveal_strlit("]");
    reveal_strlit(", ");
    assert(list_text(Seq::empty()) =~= "[]"@);
    assert(list_text(seq![item]) =~= seq!['['] + item + seq![']']);
    if items.len() > 0 {
        assert(items.push(item).drop_last() =~= items);
        assert(list_text(items.push(item)) =~= list_text(items).drop_last() + seq![',', ' '] + item
            + seq![']']);
    }
}

/// What optional texts and lists of texts hold is each text, as it is and where it
/// is.
pub proof fn law_texts_are_held(s: Option<&str>, t: Option<String>, v: Seq<String>, i: int)
    ensures
        opt_str(s) is Some <==> s is Some,
        s is Some ==> opt_str(s)->0 == s->0@,
        opt_string(t) is Some <==> t is Some,
        t is Some ==> opt_string(t)->0 == t->0@,
        texts(v).len() == v.len(),
        0 <= i < v.len() ==> texts(v)[i] == v[i]@,
{
}

/// What a list of slices holds is each slice, as it is and where it is.
pub proof fn law_pieces_are_held(v: Seq<&[char]>, i: int)
    ensures
        pieces(v).len() == v.len(),
        0 <= i < v.len() ==> pieces(v)[i] == v[i]@,
{
}

} // verus!
