//! Version numbers: reading, comparing and writing them.
use vstd::prelude::*;

use crate::text::{
    all_digits, decimal, is_digit, law_decimal, law_trim_around, lemma_decimal_value,
    lemma_padded_value, lemma_padded_width, lemma_parse_unsigned_range, lemma_run_of_bounds,
    lemma_split_cons, lemma_split_covers, lemma_split_single, lemma_trim_nothing, lemma_trim_within,
    lemma_white_back_bounds, lemma_white_end_bounds, opt_str, padded, parse_unsigned, pieces,
    push_all, push_padded, read_unsigned, run_of, split, split_at_char, to_chars, trim, trimmed,
    trimmed_leading, white, white_back, white_end, without_leading,
};

verus! {

/// The four numbers of a version.
pub type Version = (int, int, int, int);

/// A segment of a version: its number, or 0 where there is none.
pub open spec fn segment(segs: Seq<Seq<char>>, i: int) -> Option<int> {
    if i < segs.len() {
        parse_unsigned(segs[i], u32::MAX as int)
    } else {
        Some(0)
    }
}

/// The segments of a version, without the white space around it and the `v`
/// before it.
pub open spec fn segments(v: Seq<char>) -> Seq<Seq<char>> {
    split(without_leading(trim(v), 'v'), '.')
}

/// The numbers of a version: at most four segments, each an unsigned number of
/// 32 bits; missing ones are 0.
pub open spec fn version_of(v: Seq<char>) -> Option<Version> {
    let segs = segments(v);
    if segs.len() > 4 {
        None
    } else {
        match (segment(segs, 0), segment(segs, 1), segment(segs, 2), segment(segs, 3)) {
            (Some(a), Some(b), Some(c), Some(d)) => Some((a, b, c, d)),
            _ => None,
        }
    }
}

fn read_segment(segs: &Vec<&[char]>, i: usize) -> (r: Option<u32>)
    ensures
        match r {
            Some(n) => segment(pieces(segs@), i as int) == Some(n as int),
            None => segment(pieces(segs@), i as int) is None,
        },
{
    if i < segs.len() {
        proof {
            assert(pieces(segs@)[i as int] == segs@[i as int]@);
        }
        match read_unsigned(segs[i], 0xffff_ffff) {
            Some(n) => Some(n as u32),
            None => None,
        }
    } else {
        Some(0)
    }
}

/// Reads the numbers of a version.
pub fn parse_version(v: &str) -> (r: Option<(u32, u32, u32, u32)>)
    ensures
        match r {
            Some((a, b, c, d)) => version_of(v@) == Some(
                (a as int, b as int, c as int, d as int),
            ),
            None => version_of(v@) is None,
        },
{
    let chars = to_chars(v);
    let segs = split_at_char(trimmed_leading(trimmed(chars.as_slice()), 'v'), '.');
    proof {
        assert(pieces(segs@).len() == segs@.len());
    }
    if segs.len() > 4 {
        return None;
    }
    let a = read_segment(&segs, 0);
    let b = read_segment(&segs, 1);
    let c = read_segment(&segs, 2);
    let d = read_segment(&segs, 3);
    match (a, b, c, d) {
        (Some(a), Some(b), Some(c), Some(d)) => Some((a, b, c, d)),
        _ => None,
    }
}

/// Whether `b` is a later version than `a`: the first number that differs decides.
pub open spec fn later(a: Version, b: Version) -> bool {
    ||| a.0 < b.0
    ||| a.0 == b.0 && a.1 < b.1
    ||| a.0 == b.0 && a.1 == b.1 && a.2 < b.2
    ||| a.0 == b.0 && a.1 == b.1 && a.2 == b.2 && a.3 < b.3
}

/// Whether the second text is a later version than the first; no if either is
/// not a version.
pub open spec fn newer(local: Seq<char>, remote: Seq<char>) -> bool {
    match (version_of(local), version_of(remote)) {
        (Some(a), Some(b)) => later(a, b),
        _ => false,
    }
}

/// Whether the remote version is later than the local one.
pub fn is_newer(local: &str, remote: &str) -> (r: bool)
    ensures
        r == newer(local@, remote@),
{
    match (parse_version(local), parse_version(remote)) {
        (Some(a), Some(b)) => {
            if a.0 != b.0 {
                a.0 < b.0
            } else if a.1 != b.1 {
                a.1 < b.1
            } else if a.2 != b.2 {
                a.2 < b.2
            } else {
                a.3 < b.3
            }
        },
        _ => false,
    }
}

/// No version is newer than itself, two versions are not newer than each other,
/// and what is newer than a newer version is newer.
pub proof fn law_newer_is_an_order(a: Seq<char>, b: Seq<char>, c: Seq<char>)
    ensures
        !newer(a, a),
        !(newer(a, b) && newer(b, a)),
        newer(a, b) && newer(b, c) ==> newer(a, c),
{
}

/// Of two texts that are versions, one is newer unless their numbers agree.
pub proof fn law_newer_is_total(a: Seq<char>, b: Seq<char>)
    requires
        version_of(a) is Some,
        version_of(b) is Some,
    ensures
        newer(a, b) || newer(b, a) || version_of(a) == version_of(b),
{
}

/// A version as four numbers of at least two digits, with dots between them.
pub open spec fn version_text(v: Version) -> Seq<char> {
    padded(v.0, 2) + "."@ + padded(v.1, 2) + "."@ + padded(v.2, 2) + "."@ + padded(v.3, 2)
}

/// Writes a version.
pub fn format_version(v: (u32, u32, u32, u32)) -> (r: String)
    ensures
        r@ == version_text((v.0 as int, v.1 as int, v.2 as int, v.3 as int)),
{
    let mut out = String::new();
    push_padded(&mut out, v.0 as u64, 2);
    push_all(&mut out, ".");
    push_padded(&mut out, v.1 as u64, 2);
    push_all(&mut out, ".");
    push_padded(&mut out, v.2 as u64, 2);
    push_all(&mut out, ".");
    push_padded(&mut out, v.3 as u64, 2);
    proof {
        assert(Seq::<char>::empty() + padded(v.0 as int, 2) =~= padded(v.0 as int, 2));
    }
    out
}

/// The segments of a setting that are numbers, in order.
pub open spec fn number_segments(segs: Seq<Seq<char>>) -> Seq<int>
    decreases segs.len(),
{
    if segs.len() == 0 {
        Seq::empty()
    } else {
        match parse_unsigned(segs.last(), u32::MAX as int) {
            Some(n) => number_segments(segs.drop_last()).push(n),
            None => number_segments(segs.drop_last()),
        }
    }
}

/// The numbers of a dotted text, in order; segments that are no numbers are left out.
pub fn version_key(s: &str) -> (r: Vec<u32>)
    ensures
        r@.map_values(|n: u32| n as int) == number_segments(split(s@, '.')),
{
    let chars = to_chars(s);
    let segs = split_at_char(chars.as_slice(), '.');
    let mut parts: Vec<u32> = Vec::new();
    let mut i: usize = 0;
    while i < segs.len()
        invariant
            i <= segs@.len(),
            parts@.map_values(|n: u32| n as int) == number_segments(pieces(segs@).take(i as int)),
        decreases segs@.len() - i,
    {
        proof {
            assert(pieces(segs@).take(i + 1).drop_last() =~= pieces(segs@).take(i as int));
            assert(pieces(segs@)[i as int] == segs@[i as int]@);
        }
        let ghost before = parts@;
        match read_unsigned(segs[i], 0xffff_ffff) {
            Some(n) => {
                parts.push(n as u32);
                proof {
                    assert(parts@.map_values(|n: u32| n as int) =~= before.map_values(
                        |n: u32| n as int,
                    ).push(n as int));
                }
            },
            None => {},
        }
        i += 1;
    }
    proof {
        assert(pieces(segs@).take(i as int) =~= pieces(segs@));
    }
    parts
}

/// The version of a build: the setting, if exactly four of its segments are
/// numbers; else the date of the build.
pub open spec fn build_version(setting: Option<Seq<char>>, date: (int, int, int)) -> Version {
    match setting {
        Some(s) => {
            let n = number_segments(split(s, '.'));
            if n.len() == 4 {
                (n[0], n[1], n[2], n[3])
            } else {
                (date.0, date.1, date.2, 0)
            }
        },
        None => (date.0, date.1, date.2, 0),
    }
}

/// The version of a build, from the setting that a release is built with, or
/// from the date of the build: two-digit year, month, day.
pub fn exe_version(setting: Option<&str>, date: (u32, u32, u32)) -> (r: (u32, u32, u32, u32))
    ensures
        (r.0 as int, r.1 as int, r.2 as int, r.3 as int) == build_version(
            opt_str(setting),
            (date.0 as int, date.1 as int, date.2 as int),
        ),
{
    if let Some(s) = setting {
        let parts = version_key(s);
        proof {
            let n = parts@.map_values(|n: u32| n as int);
            assert(n.len() == parts@.len());
        }
        if parts.len() == 4 {
            return (parts[0], parts[1], parts[2], parts[3]);
        }
    }
    (date.0, date.1, date.2, 0)
}

/// The version of this build, as text.
pub fn local_version(setting: Option<&str>, date: (u32, u32, u32)) -> (r: String)
    ensures
        r@ == version_text(
            build_version(opt_str(setting), (date.0 as int, date.1 as int, date.2 as int)),
        ),
{
    format_version(exe_version(setting, date))
}

/// A version that is written is read back.
pub proof fn law_version_round_trip(v: Version)
    requires
        0 <= v.0 <= u32::MAX,
        0 <= v.1 <= u32::MAX,
        0 <= v.2 <= u32::MAX,
        0 <= v.3 <= u32::MAX,
    ensures
        version_of(version_text(v)) == Some(v),
{
    let t = version_text(v);
    let (a, b, c, d) = (padded(v.0, 2), padded(v.1, 2), padded(v.2, 2), padded(v.3, 2));
    lemma_padded_segment(v.0);
    lemma_padded_segment(v.1);
    lemma_padded_segment(v.2);
    lemma_padded_segment(v.3);
    lemma_four_segments(a, b, c, d);
    assert(segments(t) == seq![a, b, c, d]);
}

proof fn lemma_four_segments(a: Seq<char>, b: Seq<char>, c: Seq<char>, d: Seq<char>)
    requires
        a.len() > 0,
        d.len() > 0,
        all_digits(a),
        all_digits(b),
        all_digits(c),
        all_digits(d),
    ensures
        segments(a + "."@ + b + "."@ + c + "."@ + d) == seq![a, b, c, d],
{
    let t = a + "."@ + b + "."@ + c + "."@ + d;
    let dot = seq!['.'];
    let cd = c + dot + d;
    let bcd = b + dot + cd;
    assert(t == a + dot + bcd) by {
        reveal_strlit(".");
        assert("."@ =~= dot);
        assert(t =~= a + dot + bcd);
    }
    assert(t[0] == a[0]);
    assert(t.last() == d.last());
    assert(is_digit(a[0]) && is_digit(d[d.len() - 1]));
    lemma_trim_nothing(t);
    assert(t.skip(0) =~= t);
    lemma_split_cons(a, '.', bcd);
    lemma_split_cons(b, '.', cd);
    lemma_split_cons(c, '.', d);
    lemma_split_single(d, '.');
    assert(split(t, '.') =~= seq![a, b, c, d]);
}

proof fn lemma_padded_segment(n: int)
    requires
        0 <= n <= u32::MAX,
    ensures
        padded(n, 2).len() >= 1,
        all_digits(padded(n, 2)),
        forall|k: int| 0 <= k < padded(n, 2).len() ==> padded(n, 2)[k] != '.',
        parse_unsigned(padded(n, 2), u32::MAX as int) == Some(n),
{
    lemma_padded_value(n, 2);
    let p = padded(n, 2);
    assert(is_digit(p[0]));
    assert forall|k: int| 0 <= k < p.len() implies p[k] != '.' by {
        assert(is_digit(p[k]));
    }
}

/// The version of a build is a version: it is read back as the four numbers.
pub proof fn law_local_version_is_a_version(setting: Option<Seq<char>>, date: (int, int, int))
    requires
        0 <= date.0 <= u32::MAX,
        0 <= date.1 <= u32::MAX,
        0 <= date.2 <= u32::MAX,
    ensures
        version_of(version_text(build_version(setting, date))) == Some(
            build_version(setting, date),
        ),
{
    match setting {
        Some(s) => {
            lemma_number_segments(split(s, '.'));
        },
        None => {},
    }
    law_version_round_trip(build_version(setting, date));
}

proof fn lemma_number_segments(segs: Seq<Seq<char>>)
    ensures
        forall|k: int|
            0 <= k < number_segments(segs).len() ==> 0 <= #[trigger] number_segments(segs)[k]
                <= u32::MAX,
    decreases segs.len(),
{
    if segs.len() > 0 {
        lemma_number_segments(segs.drop_last());
        if parse_unsigned(segs.last(), u32::MAX as int) is Some {
            lemma_parse_unsigned_range(segs.last(), u32::MAX as int);
        }
        let all = number_segments(segs);
        let init = number_segments(segs.drop_last());
        assert forall|k: int| 0 <= k < all.len() implies 0 <= #[trigger] all[k] <= u32::MAX by {
            if k < init.len() {
                assert(all[k] == init[k]);
            }
        }
    }
}

/// Characters of a version number.
pub open spec fn version_char(c: char) -> bool {
    is_digit(c) || c == '.'
}

/// Whether a text is made of digits and dots only, and is not empty.
pub open spec fn dotted_digits(v: Seq<char>) -> bool {
    v.len() > 0 && forall|k: int| 0 <= k < v.len() ==> version_char(#[trigger] v[k])
}

/// Whether a text is made of digits and dots only, and is not empty.
pub fn is_dotted_digits(v: &[char]) -> (r: bool)
    ensures
        r == dotted_digits(v@),
{
    let mut i: usize = 0;
    while i < v.len()
        invariant
            i <= v@.len(),
            forall|k: int| 0 <= k < i ==> version_char(#[trigger] v@[k]),
        decreases v@.len() - i,
    {
        let c: char = v[i];
        if !(('0' <= c && c <= '9') || c == '.') {
            return false;
        }
        i += 1;
    }
    v.len() > 0
}

/// Characters that a version can be written with.
pub open spec fn plain_char(c: char) -> bool {
    is_digit(c) || c == '.' || c == '+' || c == 'v' || white(c)
}

/// A text that is read as a version holds digits, dots, plus signs, the letter
/// `v` and white space only.
pub proof fn law_version_is_plain(v: Seq<char>)
    requires
        version_of(v) is Some,
    ensures
        forall|k: int| 0 <= k < v.len() ==> plain_char(#[trigger] v[k]),
{
    lemma_trim_within(v);
    let a = white_end(v, 0);
    let b = white_back(v, a, v.len() as int);
    let t = trim(v);
    lemma_white_end_bounds(v, 0);
    lemma_white_back_bounds(v, a, v.len() as int);
    lemma_run_of_bounds(t, 'v', 0);
    let r = run_of(t, 'v', 0);
    let u = without_leading(t, 'v');
    let segs = segments(v);
    assert forall|k: int| 0 <= k < v.len() implies plain_char(#[trigger] v[k]) by {
        if a <= k < b && k - a >= r {
            assert(t[k - a] == v[k]);
            assert(u[k - a - r] == v[k]);
            lemma_split_covers(u, '.', 0, k - a - r);
            if v[k] != '.' {
                let (p, q) = choose|p: int, q: int|
                    0 <= p < segs.len() && 0 <= q < segs[p].len() && #[trigger] segs[p][q] == v[k];
                assert(segment(segs, p) is Some) by {
                    assert(p == 0 || p == 1 || p == 2 || p == 3);
                }
                lemma_parse_unsigned_range(segs[p], u32::MAX as int);
            }
        } else if a <= k < b {
            assert(t[k - a] == v[k]);
        }
    }
}

/// The first of the four numbers in which two versions differ decides which is the
/// newer one: the year before the month, the month before the day, the day before
/// the count. Versions that differ in none are not newer than each other.
pub proof fn law_first_difference_decides(a: Seq<char>, b: Seq<char>)
    requires
        version_of(a) is Some,
        version_of(b) is Some,
    ensures
        ({
            let (x, y) = (version_of(a)->0, version_of(b)->0);
            &&& x.0 != y.0 ==> (newer(a, b) <==> x.0 < y.0)
            &&& x.0 == y.0 && x.1 != y.1 ==> (newer(a, b) <==> x.1 < y.1)
            &&& x.0 == y.0 && x.1 == y.1 && x.2 != y.2 ==> (newer(a, b) <==> x.2 < y.2)
            &&& x.0 == y.0 && x.1 == y.1 && x.2 == y.2 ==> (newer(a, b) <==> x.3 < y.3)
        }),
{
}

/// What is no version is not newer than anything, and nothing is newer than it.
pub proof fn law_only_versions_compare(a: Seq<char>, b: Seq<char>)
    requires
        newer(a, b),
    ensures
        version_of(a) is Some,
        version_of(b) is Some,
{
}

proof fn lemma_split_numbers(a: int, b: int, c: int, d: int)
    requires
        0 <= a,
        0 <= b,
        0 <= c,
        0 <= d,
    ensures
        split(decimal(a), '.') == seq![decimal(a)],
        split(decimal(a) + seq!['.'] + decimal(b), '.') == seq![decimal(a), decimal(b)],
        split(decimal(a) + seq!['.'] + (decimal(b) + seq!['.'] + decimal(c)), '.') == seq![
            decimal(a),
            decimal(b),
            decimal(c),
        ],
        split(
            decimal(a) + seq!['.'] + (decimal(b) + seq!['.'] + (decimal(c) + seq!['.'] + decimal(
                d,
            ))),
            '.',
        ) == seq![decimal(a), decimal(b), decimal(c), decimal(d)],
{
    lemma_no_dot(a);
    lemma_no_dot(b);
    lemma_no_dot(c);
    lemma_no_dot(d);
    let two = decimal(c) + seq!['.'] + decimal(d);
    let three = decimal(b) + seq!['.'] + two;
    lemma_split_single(decimal(a), '.');
    lemma_split_single(decimal(b), '.');
    lemma_split_single(decimal(c), '.');
    lemma_split_single(decimal(d), '.');
    lemma_split_cons(decimal(a), '.', decimal(b));
    lemma_split_cons(decimal(b), '.', decimal(c));
    lemma_split_cons(decimal(a), '.', decimal(b) + seq!['.'] + decimal(c));
    lemma_split_cons(decimal(c), '.', decimal(d));
    lemma_split_cons(decimal(b), '.', two);
    lemma_split_cons(decimal(a), '.', three);
    assert(split(decimal(a) + seq!['.'] + decimal(b), '.') =~= seq![decimal(a), decimal(b)]);
    assert(split(decimal(b) + seq!['.'] + decimal(c), '.') =~= seq![decimal(b), decimal(c)]);
    assert(split(two, '.') =~= seq![decimal(c), decimal(d)]);
    assert(split(three, '.') =~= seq![decimal(b), decimal(c), decimal(d)]);
    assert(split(decimal(a) + seq!['.'] + (decimal(b) + seq!['.'] + decimal(c)), '.') =~= seq![
        decimal(a),
        decimal(b),
        decimal(c),
    ]);
    assert(split(decimal(a) + seq!['.'] + three, '.') =~= seq![
        decimal(a),
        decimal(b),
        decimal(c),
        decimal(d),
    ]);
}

proof fn lemma_no_dot(n: int)
    requires
        0 <= n,
    ensures
        decimal(n).len() > 0,
        forall|k: int| 0 <= k < decimal(n).len() ==> decimal(n)[k] != '.',
        decimal(n)[0] != 'v',
        !white(decimal(n)[0]),
        !white(decimal(n).last()),
{
    lemma_decimal_value(n);
    assert(is_digit(decimal(n)[0]) && is_digit(decimal(n).last()));
    assert forall|k: int| 0 <= k < decimal(n).len() implies decimal(n)[k] != '.' by {
        assert(is_digit(decimal(n)[k]));
    }
}

/// White space around a version and letters `v` before it do not matter.
pub proof fn law_version_around(before: Seq<char>, n: nat, v: Seq<char>, after: Seq<char>)
    requires
        forall|k: int| 0 <= k < before.len() ==> white(#[trigger] before[k]),
        forall|k: int| 0 <= k < after.len() ==> white(#[trigger] after[k]),
        v.len() > 0,
        v[0] != 'v',
        !white(v[0]),
        !white(v.last()),
    ensures
        version_of(before + (Seq::new(n, |i: int| 'v') + v) + after) == version_of(v),
{
    let vs = Seq::new(n, |i: int| 'v');
    let s = vs + v;
    assert(s[0] == 'v' || s[0] == v[0]);
    assert(s.last() == v.last());
    law_trim_around(before, s, after);
    lemma_trim_nothing(v);
    lemma_run_is(s, 'v', 0, n as int);
    lemma_run_is(v, 'v', 0, 0);
    assert(s.skip(n as int) =~= v);
    assert(v.skip(0) =~= v);
}

proof fn lemma_run_is(s: Seq<char>, c: char, i: int, j: int)
    requires
        0 <= i <= j < s.len(),
        forall|k: int| i <= k < j ==> s[k] == c,
        s[j] != c,
    ensures
        run_of(s, c, i) == j,
    decreases j - i,
{
    if i < j {
        lemma_run_is(s, c, i + 1, j);
    }
}

/// A version is read from its decimal numbers, in the order in which they stand:
/// four, or fewer, and the missing ones are zero.
pub proof fn law_version_is_read(a: u32, b: u32, c: u32, d: u32)
    ensures
        ({
            let (w, x, y, z) = (
                decimal(a as int),
                decimal(b as int),
                decimal(c as int),
                decimal(d as int),
            );
            let dot = seq!['.'];
            &&& version_of(w) == Some((a as int, 0int, 0int, 0int))
            &&& version_of(w + dot + x) == Some((a as int, b as int, 0int, 0int))
            &&& version_of(w + dot + (x + dot + y)) == Some((a as int, b as int, c as int, 0int))
            &&& version_of(w + dot + (x + dot + (y + dot + z))) == Some(
                (a as int, b as int, c as int, d as int),
            )
        }),
{
    let (w, x, y, z) = (decimal(a as int), decimal(b as int), decimal(c as int), decimal(d as int));
    let dot = seq!['.'];
    lemma_split_numbers(a as int, b as int, c as int, d as int);
    lemma_no_dot(a as int);
    lemma_no_dot(b as int);
    lemma_no_dot(c as int);
    lemma_no_dot(d as int);
    law_decimal(a as int, 0, u32::MAX as int);
    law_decimal(b as int, 0, u32::MAX as int);
    law_decimal(c as int, 0, u32::MAX as int);
    law_decimal(d as int, 0, u32::MAX as int);
    lemma_plain_segments(w);
    lemma_plain_segments(w + dot + x);
    lemma_plain_segments(w + dot + (x + dot + y));
    lemma_plain_segments(w + dot + (x + dot + (y + dot + z)));
}

proof fn lemma_plain_segments(v: Seq<char>)
    requires
        v.len() > 0,
        v[0] != 'v',
        !white(v[0]),
        !white(v.last()),
    ensures
        segments(v) == split(v, '.'),
{
    lemma_trim_nothing(v);
    lemma_run_is(v, 'v', 0, 0);
    assert(v.skip(0) =~= v);
}

/// A text of more than four segments is no version, nor is one with a segment that
/// is no number of 32 bits.
pub proof fn law_what_is_no_version(v: Seq<char>, i: int)
    requires
        version_of(v) is Some,
    ensures
        1 <= segments(v).len() <= 4,
        0 <= i < segments(v).len() ==> parse_unsigned(segments(v)[i], 4294967295) is Some,
{
    assert(segments(v).len() >= 1);
    if 0 <= i < segments(v).len() {
        assert(i == 0 || i == 1 || i == 2 || i == 3);
        assert(segment(segments(v), i) is Some);
    }
}

/// A version of numbers below a hundred is written in eleven characters: two digits
/// for each number, in their order, and dots between them.
pub proof fn law_version_columns(v: Version)
    requires
        0 <= v.0 < 100,
        0 <= v.1 < 100,
        0 <= v.2 < 100,
        0 <= v.3 < 100,
    ensures
        ({
            let s = version_text(v);
            &&& s.len() == 11
            &&& s[2] == '.' && s[5] == '.' && s[8] == '.'
            &&& parse_unsigned(s.subrange(0, 2), 99) == Some(v.0)
            &&& parse_unsigned(s.subrange(3, 5), 99) == Some(v.1)
            &&& parse_unsigned(s.subrange(6, 8), 99) == Some(v.2)
            &&& parse_unsigned(s.subrange(9, 11), 99) == Some(v.3)
        }),
{
    reveal_strlit(".");
    let s = version_text(v);
    lemma_two_digits(v.0);
    lemma_two_digits(v.1);
    lemma_two_digits(v.2);
    lemma_two_digits(v.3);
    assert(s.subrange(0, 2) =~= padded(v.0, 2));
    assert(s.subrange(3, 5) =~= padded(v.1, 2));
    assert(s.subrange(6, 8) =~= padded(v.2, 2));
    assert(s.subrange(9, 11) =~= padded(v.3, 2));
}

proof fn lemma_two_digits(n: int)
    requires
        0 <= n < 100,
    ensures
        padded(n, 2).len() == 2,
        parse_unsigned(padded(n, 2), 99) == Some(n),
{
    lemma_padded_value(n, 2);
    lemma_padded_width(n, 2);
    assert(is_digit(padded(n, 2)[0]));
}

/// The numbers of a dotted text come segment by segment, in order; a segment that is
/// no number gives none.
pub proof fn law_numbers_by_segment(x: Seq<Seq<char>>, y: Seq<Seq<char>>, seg: Seq<char>)
    ensures
        number_segments(x + y) == number_segments(x) + number_segments(y),
        number_segments(seq![seg]) == (match parse_unsigned(seg, 4294967295) {
            Some(n) => seq![n],
            None => seq![],
        }),
        number_segments(Seq::empty()) == Seq::<int>::empty(),
    decreases y.len(),
{
    assert(seq![seg].drop_last() =~= Seq::<Seq<char>>::empty());
    assert(number_segments(Seq::empty()) =~= Seq::<int>::empty());
    match parse_unsigned(seg, 4294967295) {
        Some(n) => {
            assert(Seq::<int>::empty().push(n) =~= seq![n]);
        },
        None => {},
    }
    if y.len() > 0 {
        assert((x + y).drop_last() =~= x + y.drop_last());
        law_numbers_by_segment(x, y.drop_last(), seg);
        assert(number_segments(x + y) =~= number_segments(x) + number_segments(y));
    } else {
        assert(x + y =~= x);
        assert(number_segments(x + y) =~= number_segments(x) + number_segments(y));
    }
}

/// The version of a build is the one that is set, if that has four numbers; else it
/// is the date of the build, and the count is zero.
pub proof fn law_build_version(a: u32, b: u32, c: u32, d: u32, date: (int, int, int))
    ensures
        ({
            let (w, x, y, z) = (
                decimal(a as int),
                decimal(b as int),
                decimal(c as int),
                decimal(d as int),
            );
            let dot = seq!['.'];
            let dated = (date.0, date.1, date.2, 0int);
            &&& build_version(Some(w + dot + (x + dot + (y + dot + z))), date) == (
                a as int,
                b as int,
                c as int,
                d as int,
            )
            &&& build_version(None, date) == dated
            &&& build_version(Some(w), date) == dated
            &&& build_version(Some(w + dot + x), date) == dated
            &&& build_version(Some(w + dot + (x + dot + y)), date) == dated
        }),
{
    let (w, x, y, z) = (decimal(a as int), decimal(b as int), decimal(c as int), decimal(d as int));
    lemma_split_numbers(a as int, b as int, c as int, d as int);
    law_decimal(a as int, 0, u32::MAX as int);
    law_decimal(b as int, 0, u32::MAX as int);
    law_decimal(c as int, 0, u32::MAX as int);
    law_decimal(d as int, 0, u32::MAX as int);
    reveal_with_fuel(number_segments, 5);
    assert(seq![w, x, y, z].drop_last() =~= seq![w, x, y]);
    assert(seq![w, x, y].drop_last() =~= seq![w, x]);
    assert(seq![w, x].drop_last() =~= seq![w]);
    assert(seq![w].drop_last() =~= Seq::<Seq<char>>::empty());
}

} // verus!
