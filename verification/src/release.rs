//! The latest release: where to ask for it, and what the answer says.
use vstd::prelude::*;
use vstd::slice::slice_subrange;

use crate::text::{
    find, find_char, find_from, from_chars, index_of, law_search_finds_the_first, law_trim,
    lemma_index_is, lemma_index_of_bounds, lemma_run_of_bounds, lemma_split_cons,
    lemma_split_single, opt_str, opt_string, pieces, push_all, push_text, run_of, split,
    split_at_char, texts, to_chars, trim, trim_start, trimmed, trimmed_leading, trimmed_start,
    white, white_back, white_end, without_leading,
};
use crate::version::{dotted_digits, is_dotted_digits, parse_version, version_char, version_of};

verus! {

/// A release that was found.
#[derive(Debug)]
pub struct UpdateInfo {
    /// The version number: digits and dots, without a leading `v`.
    pub version: String,
}

// ---- The answer ----

/// The index of the quote that closes a string, from index `i` on: the first
/// quote that no backslash escapes.
pub open spec fn close_at(q: Seq<char>, i: int) -> Option<int>
    decreases q.len() - i,
{
    if i < 0 || i >= q.len() {
        None
    } else if q[i] == '\\' {
        if i + 2 <= q.len() {
            close_at(q, i + 2)
        } else {
            None
        }
    } else if q[i] == '"' {
        Some(i)
    } else {
        close_at(q, i + 1)
    }
}

/// The character that stands for itself after a backslash.
pub open spec fn unescaped(c: char) -> char {
    if c == 'n' {
        '\n'
    } else if c == 't' {
        '\t'
    } else {
        c
    }
}

/// The text from index `i` on with each escape replaced by what it stands for.
pub open spec fn unescape_from(raw: Seq<char>, i: int) -> Seq<char>
    decreases raw.len() - i,
{
    if i < 0 || i >= raw.len() {
        Seq::empty()
    } else if raw[i] != '\\' {
        seq![raw[i]] + unescape_from(raw, i + 1)
    } else if i + 1 < raw.len() {
        seq![unescaped(raw[i + 1])] + unescape_from(raw, i + 2)
    } else {
        Seq::empty()
    }
}

/// The text that a quoted string holds, if its closing quote is there.
pub open spec fn quoted(after: Seq<char>) -> Option<Seq<char>> {
    if after.len() > 0 && after[0] == '"' {
        let q = after.skip(1);
        match close_at(q, 0) {
            Some(end) => Some(unescape_from(q.take(end), 0)),
            None => None,
        }
    } else {
        None
    }
}

/// A key in quotes.
pub open spec fn quoted_key(key: Seq<char>) -> Seq<char> {
    "\""@ + key + "\""@
}

/// The string value of a key: the first quoted occurrence of the key, the next
/// colon, white space, and a quoted string.
pub open spec fn json_string(body: Seq<char>, key: Seq<char>) -> Option<Seq<char>> {
    let pat = quoted_key(key);
    match find_from(body, pat, 0) {
        None => None,
        Some(at) => {
            let rest = body.skip(at + pat.len());
            let colon = index_of(rest, ':', 0);
            if colon < rest.len() {
                quoted(trim_start(rest.skip(colon + 1)))
            } else {
                None
            }
        },
    }
}

fn find_close(q: &[char]) -> (r: Option<usize>)
    ensures
        match r {
            Some(i) => close_at(q@, 0) == Some(i as int) && i < q@.len(),
            None => close_at(q@, 0) is None,
        },
{
    let n: usize = q.len();
    let mut i: usize = 0;
    while i < n
        invariant
            n == q@.len(),
            i <= n,
            close_at(q@, 0) == close_at(q@, i as int),
        decreases n - i,
    {
        if q[i] == '\\' {
            if n - i < 2 {
                return None;
            }
            i += 2;
        } else if q[i] == '"' {
            return Some(i);
        } else {
            i += 1;
        }
    }
    None
}

fn unescape(raw: &[char]) -> (r: String)
    ensures
        r@ == unescape_from(raw@, 0),
{
    let n: usize = raw.len();
    let mut out = String::new();
    let mut i: usize = 0;
    proof {
        assert(out@ + unescape_from(raw@, 0) =~= unescape_from(raw@, 0));
    }
    while i < n
        invariant
            n == raw@.len(),
            i <= n,
            out@ + unescape_from(raw@, i as int) == unescape_from(raw@, 0),
        decreases n - i,
    {
        let ghost before = out@;
        let ghost at = i as int;
        if raw[i] != '\\' {
            out.push(raw[i]);
            i += 1;
        } else if n - i >= 2 {
            let c: char = raw[i + 1];
            out.push(
                if c == 'n' {
                    '\n'
                } else if c == 't' {
                    '\t'
                } else {
                    c
                },
            );
            i += 2;
        } else {
            i += 1;
        }
        proof {
            assert(out@ + unescape_from(raw@, i as int) =~= before + unescape_from(raw@, at));
        }
    }
    proof {
        assert(out@ + unescape_from(raw@, i as int) =~= out@);
    }
    out
}

/// Reads the string value of a key.
pub fn extract_json_string(body: &str, key: &str) -> (r: Option<String>)
    ensures
        opt_string(r) == json_string(body@, key@),
{
    let mut pat = "\"".to_string();
    push_all(&mut pat, key);
    push_all(&mut pat, "\"");
    let pat = to_chars(pat.as_str());
    let body = to_chars(body);
    let total: usize = body.len();
    let at: usize = match find(body.as_slice(), pat.as_slice()) {
        Some(at) => at + pat.len(),
        None => {
            return None;
        },
    };
    let rest = slice_subrange(body.as_slice(), at, total);
    proof {
        assert(rest@ =~= body@.skip(at as int));
    }
    let colon: usize = find_char(rest, ':', 0);
    if colon >= rest.len() {
        return None;
    }
    let value = slice_subrange(rest, colon + 1, rest.len());
    proof {
        assert(value@ =~= rest@.skip(colon + 1));
    }
    let after = trimmed_start(value);
    if after.len() == 0 || after[0] != '"' {
        return None;
    }
    let q = slice_subrange(after, 1, after.len());
    proof {
        assert(q@ =~= after@.skip(1));
    }
    match find_close(q) {
        Some(end) => {
            let raw = slice_subrange(q, 0, end);
            proof {
                assert(raw@ =~= q@.take(end as int));
            }
            Some(unescape(raw))
        },
        None => None,
    }
}

/// The version that an answer about the latest release names: its tag without the
/// leading `v`, if that is a version of digits and dots only.
pub open spec fn release_version(body: Seq<char>) -> Option<Seq<char>> {
    match json_string(body, "tag_name"@) {
        Some(tag) => {
            let v = without_leading(tag, 'v');
            if dotted_digits(v) && version_of(v) is Some {
                Some(v)
            } else {
                None
            }
        },
        None => None,
    }
}

/// The version that an answer names is a version, and is made of digits and dots
/// only: it has no `v` before it, no sign and no white space.
pub proof fn law_release_version_is_plain(body: Seq<char>)
    requires
        release_version(body) is Some,
    ensures
        release_version(body)->0.len() > 0,
        forall|k: int|
            0 <= k < release_version(body)->0.len() ==> version_char(
                #[trigger] release_version(body)->0[k],
            ),
        version_of(release_version(body)->0) is Some,
{
}

/// Reads the answer about the latest release.
pub fn parse_release_json(body: &str) -> (r: Option<UpdateInfo>)
    ensures
        match r {
            Some(info) => release_version(body@) == Some(info.version@),
            None => release_version(body@) is None,
        },
{
    let tag = match extract_json_string(body, "tag_name") {
        Some(tag) => tag,
        None => {
            return None;
        },
    };
    let chars = to_chars(tag.as_str());
    let number = trimmed_leading(chars.as_slice(), 'v');
    if !is_dotted_digits(number) {
        return None;
    }
    let version = from_chars(number);
    match parse_version(version.as_str()) {
        Some(_) => Some(UpdateInfo { version }),
        None => None,
    }
}

/// A character as it is written inside a quoted string.
pub open spec fn escape_char(c: char) -> Seq<char> {
    if c == '"' || c == '\\' {
        seq!['\\', c]
    } else if c == '\n' {
        seq!['\\', 'n']
    } else if c == '\t' {
        seq!['\\', 't']
    } else {
        seq![c]
    }
}

/// A text as it is written inside a quoted string.
pub open spec fn escaped(v: Seq<char>) -> Seq<char>
    decreases v.len(),
{
    if v.len() == 0 {
        Seq::empty()
    } else {
        escape_char(v[0]) + escaped(v.drop_first())
    }
}

proof fn lemma_close_escaped(pre: Seq<char>, v: Seq<char>, tail: Seq<char>)
    ensures
        close_at(pre + escaped(v) + seq!['"'] + tail, pre.len() as int) == Some(
            (pre + escaped(v)).len() as int,
        ),
    decreases v.len(),
{
    let s = pre + escaped(v) + seq!['"'] + tail;
    if v.len() == 0 {
        assert(s[pre.len() as int] == '"');
    } else {
        let e = escape_char(v[0]);
        let rest = v.drop_first();
        lemma_close_escaped(pre + e, rest, tail);
        assert(pre + e + escaped(rest) =~= pre + escaped(v));
        assert(s =~= (pre + e) + escaped(rest) + seq!['"'] + tail);
        assert(s[pre.len() as int] == e[0]);
    }
}

proof fn lemma_unescape_escaped(pre: Seq<char>, v: Seq<char>)
    ensures
        unescape_from(pre + escaped(v), pre.len() as int) == v,
    decreases v.len(),
{
    let s = pre + escaped(v);
    if v.len() == 0 {
        assert(v =~= Seq::<char>::empty());
    } else {
        let e = escape_char(v[0]);
        let rest = v.drop_first();
        lemma_unescape_escaped(pre + e, rest);
        assert(s =~= (pre + e) + escaped(rest));
        assert(s[pre.len() as int] == e[0]);
        if e.len() == 2 {
            assert(s[pre.len() as int + 1] == e[1]);
        }
        assert(seq![v[0]] + rest =~= v);
    }
}

/// A value that is written as a quoted string after its key and a colon is read
/// back, whatever it holds and whatever stands around it.
pub proof fn law_json_round_trip(
    before: Seq<char>,
    key: Seq<char>,
    value: Seq<char>,
    tail: Seq<char>,
)
    requires
        find_from(
            before + quoted_key(key) + seq![':', '"'] + escaped(value) + seq!['"'] + tail,
            quoted_key(key),
            0,
        ) == Some(before.len() as int),
    ensures
        json_string(
            before + quoted_key(key) + seq![':', '"'] + escaped(value) + seq!['"'] + tail,
            key,
        ) == Some(value),
{
    let pat = quoted_key(key);
    let inner = escaped(value) + seq!['"'] + tail;
    let body = before + pat + seq![':', '"'] + escaped(value) + seq!['"'] + tail;
    let rest = body.skip(before.len() as int + pat.len());
    assert(rest =~= seq![':', '"'] + inner);
    assert(index_of(rest, ':', 0) == 0);
    let after = rest.skip(1);
    assert(after =~= seq!['"'] + inner);
    assert(white_end(after, 0) == 0);
    assert(after.skip(0) =~= after);
    let q = after.skip(1);
    assert(q =~= Seq::<char>::empty() + escaped(value) + seq!['"'] + tail);
    lemma_close_escaped(Seq::empty(), value, tail);
    assert(Seq::<char>::empty() + escaped(value) =~= escaped(value));
    assert(q.take(escaped(value).len() as int) =~= Seq::<char>::empty() + escaped(value));
    lemma_unescape_escaped(Seq::empty(), value);
}

// ---- Where to ask ----

/// Where the latest release is asked for.
pub open spec fn api_url() -> Seq<char> {
    "https://api.github.com/repos/NekoPawClub/DshLauncher/releases/latest"@
}

/// The addresses through the mirrors of a setting: each that is not blank, in
/// order, before the address.
pub open spec fn mirrored(prefixes: Seq<Seq<char>>) -> Seq<Seq<char>>
    decreases prefixes.len(),
{
    if prefixes.len() == 0 {
        Seq::empty()
    } else if trim(prefixes.last()).len() > 0 {
        mirrored(prefixes.drop_last()).push(trim(prefixes.last()) + api_url())
    } else {
        mirrored(prefixes.drop_last())
    }
}

/// The addresses to ask, in order: the API itself, the mirrors of the setting,
/// the mirrors that are built in.
pub open spec fn candidates(custom: Option<Seq<char>>) -> Seq<Seq<char>> {
    seq![api_url()] + (match custom {
        Some(c) => mirrored(split(c, ',')),
        None => Seq::empty(),
    }) + seq!["https://ghproxy.net/"@ + api_url(), "https://ghfast.top/"@ + api_url()]
}

fn through(prefix: &str) -> (r: String)
    ensures
        r@ == prefix@ + api_url(),
{
    let mut url = prefix.to_string();
    push_all(&mut url, "https://api.github.com/repos/NekoPawClub/DshLauncher/releases/latest");
    url
}

/// The addresses to ask for the latest release, in order.
pub fn candidate_urls(custom: Option<&str>) -> (r: Vec<String>)
    ensures
        texts(r@) == candidates(opt_str(custom)),
        r@.len() >= 3,
{
    let mut urls: Vec<String> = Vec::new();
    push_text(&mut urls, through(""));
    proof {
        reveal_strlit("");
        assert(""@ + api_url() =~= api_url());
        assert(texts(urls@) =~= seq![api_url()]);
    }
    let ghost head = seq![api_url()];
    let ghost mut extra: Seq<Seq<char>> = Seq::empty();
    if let Some(list) = custom {
        let chars = to_chars(list);
        let parts = split_at_char(chars.as_slice(), ',');
        let mut i: usize = 0;
        while i < parts.len()
            invariant
                i <= parts@.len(),
                urls@.len() >= 1,
                head == seq![api_url()],
                texts(urls@) == head + mirrored(pieces(parts@).take(i as int)),
            decreases parts@.len() - i,
        {
            proof {
                assert(pieces(parts@).take(i + 1).drop_last() =~= pieces(parts@).take(i as int));
                assert(pieces(parts@)[i as int] == parts@[i as int]@);
            }
            let m = trimmed(parts[i]);
            if m.len() > 0 {
                let prefix = from_chars(m);
                push_text(&mut urls, through(prefix.as_str()));
                proof {
                    assert(texts(urls@) =~= head + mirrored(pieces(parts@).take(i + 1)));
                }
            }
            i += 1;
        }
        proof {
            assert(pieces(parts@).take(i as int) =~= pieces(parts@));
            extra = mirrored(pieces(parts@));
        }
    }
    proof {
        assert(texts(urls@) =~= head + extra);
    }
    push_text(&mut urls, through("https://ghproxy.net/"));
    push_text(&mut urls, through("https://ghfast.top/"));
    proof {
        assert(texts(urls@) =~= candidates(opt_str(custom)));
    }
    urls
}

// ---- Asking one address after another ----

/// What to do next about the latest release.
#[derive(Clone, Copy, Debug, PartialEq, Eq, Structural)]
pub enum FetchAction {
    /// Ask the address at this index.
    Get(usize),
    /// An answer named a version.
    Found,
    /// No address gave an answer that names a version.
    Failed,
}

/// The version in an answer, if there is an answer and it names one.
pub open spec fn usable(body: Option<Seq<char>>) -> Option<Seq<char>> {
    match body {
        Some(b) => release_version(b),
        None => None,
    }
}

/// The index of the first answer that names a version, from `i` on, or the
/// number of answers.
pub open spec fn first_usable(bodies: Seq<Option<Seq<char>>>, i: int) -> int
    decreases bodies.len() - i,
{
    if 0 <= i < bodies.len() && usable(bodies[i]) is None {
        first_usable(bodies, i + 1)
    } else {
        i
    }
}

/// The version that the first usable answer names.
pub open spec fn first_version(bodies: Seq<Option<Seq<char>>>) -> Option<Seq<char>> {
    let k = first_usable(bodies, 0);
    if k < bodies.len() {
        usable(bodies[k])
    } else {
        None
    }
}

/// The addresses that are left to ask.
pub struct Fetch {
    urls: Vec<String>,
    next: usize,
    found: Option<UpdateInfo>,
    answers: Ghost<Seq<Option<Seq<char>>>>,
}

impl Fetch {
    pub closed spec fn wf(&self) -> bool {
        &&& self.urls@.len() >= 1
        &&& self.next <= self.urls@.len()
        &&& self.next == self.answers@.len()
        &&& self.found is None ==> forall|k: int|
            0 <= k < self.answers@.len() ==> usable(#[trigger] self.answers@[k]) is None
    }

    /// What the addresses answered so far, in order.
    pub closed spec fn answers(&self) -> Seq<Option<Seq<char>>> {
        self.answers@
    }

    /// The addresses, in the order in which they are asked.
    pub closed spec fn addresses(&self) -> Seq<Seq<char>> {
        texts(self.urls@)
    }

    /// How many addresses have answered or failed.
    pub closed spec fn asked(&self) -> int {
        self.next as int
    }

    /// The version that was found.
    pub closed spec fn version(&self) -> Option<Seq<char>> {
        match self.found {
            Some(info) => Some(info.version@),
            None => None,
        }
    }

    /// Starts with the first address.
    pub fn new(custom: Option<&str>) -> (r: Fetch)
        ensures
            r.wf(),
            r.addresses() == candidates(opt_str(custom)),
            r.asked() == 0,
            r.answers() == Seq::<Option<Seq<char>>>::empty(),
            r.version() is None,
    {
        Fetch { urls: candidate_urls(custom), next: 0, found: None, answers: Ghost(Seq::empty()) }
    }

    /// An address to ask.
    pub fn url(&self, i: usize) -> (r: &str)
        requires
            self.wf(),
            i < self.addresses().len(),
        ensures
            r@ == self.addresses()[i as int],
    {
        self.urls[i].as_str()
    }

    /// What is to be done before the first answer.
    pub fn start(&self) -> (r: FetchAction)
        requires
            self.wf(),
            self.asked() == 0,
        ensures
            r == FetchAction::Get(0),
            self.addresses().len() >= 1,
    {
        FetchAction::Get(0)
    }

    /// Takes the answer of the address that was asked, if it gave one: the first
    /// answer that names a version decides, and the later addresses are not asked.
    pub fn answer(&mut self, body: Option<&str>) -> (r: FetchAction)
        requires
            old(self).wf(),
            old(self).version() is None,
            old(self).asked() < old(self).addresses().len(),
        ensures
            final(self).wf(),
            final(self).addresses() == old(self).addresses(),
            final(self).asked() == old(self).asked() + 1,
            final(self).answers() == old(self).answers().push(opt_str(body)),
            final(self).version() == usable(opt_str(body)),
            final(self).version() == first_version(final(self).answers()),
            r == (if usable(opt_str(body)) is Some {
                FetchAction::Found
            } else if old(self).asked() + 1 < old(self).addresses().len() {
                FetchAction::Get((old(self).asked() + 1) as usize)
            } else {
                FetchAction::Failed
            }),
    {
        let n: usize = self.urls.len();
        proof {
            assert(texts(self.urls@).len() == n);
            let this = seq![opt_str(body)];
            law_fetch_skips_failures(self.answers@, this);
            assert(self.answers@ + this =~= self.answers@.push(opt_str(body)));
            reveal_with_fuel(first_usable, 2);
        }
        self.answers = Ghost(self.answers@.push(opt_str(body)));
        self.next += 1;
        self.found = match body {
            Some(b) => parse_release_json(b),
            None => None,
        };
        match &self.found {
            Some(_) => FetchAction::Found,
            None => if self.next < n {
                FetchAction::Get(self.next)
            } else {
                FetchAction::Failed
            },
        }
    }

    /// The release that was found.
    pub fn result(self) -> (r: Option<UpdateInfo>)
        ensures
            match r {
                Some(info) => self.version() == Some(info.version@),
                None => self.version() is None,
            },
    {
        self.found
    }
}

/// An answer that names no version, or no answer, changes nothing: what comes
/// after it decides.
pub proof fn law_fetch_skips_failures(failed: Seq<Option<Seq<char>>>, rest: Seq<Option<Seq<char>>>)
    requires
        forall|k: int| 0 <= k < failed.len() ==> usable(#[trigger] failed[k]) is None,
    ensures
        first_version(failed + rest) == first_version(rest),
{
    lemma_first_usable_skips(failed, rest, 0);
    lemma_first_usable_shift(failed, rest, 0);
    lemma_first_usable_bounds(rest, 0);
}

proof fn lemma_first_usable_bounds(bodies: Seq<Option<Seq<char>>>, i: int)
    requires
        0 <= i <= bodies.len(),
    ensures
        i <= first_usable(bodies, i) <= bodies.len(),
    decreases bodies.len() - i,
{
    if i < bodies.len() && usable(bodies[i]) is None {
        lemma_first_usable_bounds(bodies, i + 1);
    }
}

proof fn lemma_first_usable_skips(
    failed: Seq<Option<Seq<char>>>,
    rest: Seq<Option<Seq<char>>>,
    i: int,
)
    requires
        0 <= i <= failed.len(),
        forall|k: int| 0 <= k < failed.len() ==> usable(#[trigger] failed[k]) is None,
    ensures
        first_usable(failed + rest, i) == first_usable(failed + rest, failed.len() as int),
    decreases failed.len() - i,
{
    if i < failed.len() {
        assert((failed + rest)[i] == failed[i]);
        lemma_first_usable_skips(failed, rest, i + 1);
    }
}

proof fn lemma_first_usable_shift(
    failed: Seq<Option<Seq<char>>>,
    rest: Seq<Option<Seq<char>>>,
    i: int,
)
    requires
        0 <= i <= rest.len(),
    ensures
        first_usable(failed + rest, failed.len() + i) == failed.len() + first_usable(rest, i),
    decreases rest.len() - i,
{
    if i < rest.len() {
        assert((failed + rest)[failed.len() + i] == rest[i]);
        lemma_first_usable_shift(failed, rest, i + 1);
    }
}

// ---- What the answers promise ----

proof fn lemma_unescape_shift(pre: Seq<char>, s: Seq<char>, i: int)
    requires
        0 <= i <= s.len(),
    ensures
        unescape_from(pre + s, pre.len() + i) == unescape_from(s, i),
    decreases s.len() - i,
{
    let t = pre + s;
    if i < s.len() {
        assert(t[pre.len() + i] == s[i]);
        if s[i] != '\\' {
            lemma_unescape_shift(pre, s, i + 1);
        } else if i + 1 < s.len() {
            assert(t[pre.len() + i + 1] == s[i + 1]);
            lemma_unescape_shift(pre, s, i + 2);
        }
    }
}

/// A backslash and a character stand for one character: with `n` for the line feed,
/// with `t` for the tab, with any other for that one. A character without a
/// backslash stands for itself.
pub proof fn law_escapes(c: char, rest: Seq<char>)
    ensures
        unescape_from(seq!['\\', c] + rest, 0) == seq![
            if c == 'n' {
                '\u{a}'
            } else if c == 't' {
                '\u{9}'
            } else {
                c
            },
        ] + unescape_from(rest, 0),
        c != '\\' ==> unescape_from(seq![c] + rest, 0) == seq![c] + unescape_from(rest, 0),
        unescape_from(Seq::empty(), 0) == Seq::<char>::empty(),
{
    let two = seq!['\\', c] + rest;
    assert(two[0] == '\\' && two[1] == c);
    lemma_unescape_shift(seq!['\\', c], rest, 0);
    let one = seq![c] + rest;
    assert(one[0] == c);
    lemma_unescape_shift(seq![c], rest, 0);
}

proof fn lemma_close_shift(pre: Seq<char>, s: Seq<char>, i: int)
    requires
        0 <= i <= s.len(),
    ensures
        close_at(pre + s, pre.len() + i) == (match close_at(s, i) {
            Some(k) => Some(pre.len() + k),
            None => None,
        }),
    decreases s.len() - i,
{
    let t = pre + s;
    if i < s.len() {
        assert(t[pre.len() + i] == s[i]);
        if s[i] == '\\' {
            if i + 2 <= s.len() {
                lemma_close_shift(pre, s, i + 2);
            }
        } else if s[i] != '"' {
            lemma_close_shift(pre, s, i + 1);
        }
    }
}

/// A string ends at the first quote that no backslash stands before; a backslash
/// takes the character after it along, whatever it is.
pub proof fn law_where_a_string_ends(c: char, rest: Seq<char>)
    ensures
        close_at(seq!['"'] + rest, 0) == Some(0int),
        close_at(seq!['\\', c] + rest, 0) == (match close_at(rest, 0) {
            Some(k) => Some(k + 2),
            None => None,
        }),
        c != '"' && c != '\\' ==> close_at(seq![c] + rest, 0) == (match close_at(rest, 0) {
            Some(k) => Some(k + 1),
            None => None,
        }),
        close_at(Seq::empty(), 0) is None,
{
    assert((seq!['"'] + rest)[0] == '"');
    let two = seq!['\\', c] + rest;
    assert(two[0] == '\\');
    lemma_close_shift(seq!['\\', c], rest, 0);
    let one = seq![c] + rest;
    assert(one[0] == c);
    lemma_close_shift(seq![c], rest, 0);
}

/// The value of a key is found whatever stands between the key and the colon, and
/// with white space between the colon and the value.
pub proof fn law_json_with_white_space(
    before: Seq<char>,
    key: Seq<char>,
    gap: Seq<char>,
    blank: Seq<char>,
    value: Seq<char>,
    tail: Seq<char>,
)
    requires
        forall|k: int| 0 <= k < gap.len() ==> gap[k] != ':',
        forall|k: int| 0 <= k < blank.len() ==> white(#[trigger] blank[k]),
        find_from(
            before + quoted_key(key) + (gap + seq![':'] + (blank + (seq!['"'] + (escaped(value)
                + seq!['"'] + tail)))),
            quoted_key(key),
            0,
        ) == Some(before.len() as int),
    ensures
        json_string(
            before + quoted_key(key) + (gap + seq![':'] + (blank + (seq!['"'] + (escaped(value)
                + seq!['"'] + tail)))),
            key,
        ) == Some(value),
{
    let pat = quoted_key(key);
    let inner = escaped(value) + seq!['"'] + tail;
    let string = seq!['"'] + inner;
    let after = blank + string;
    let rest = gap + seq![':'] + after;
    let body = before + pat + rest;
    let n = gap.len() as int;
    assert(body.skip(before.len() as int + pat.len()) =~= rest);
    assert forall|k: int| 0 <= k < n implies rest[k] != ':' by {
        assert(rest[k] == gap[k]);
    }
    assert(rest[n] == ':');
    lemma_index_is(rest, ':', 0, n);
    assert(rest.skip(n + 1) =~= after);
    lemma_blank(blank, string);
    assert(string.skip(1) =~= inner);
    lemma_close_escaped(Seq::empty(), value, tail);
    assert(Seq::<char>::empty() + escaped(value) =~= escaped(value));
    assert(Seq::<char>::empty() + escaped(value) + seq!['"'] + tail =~= inner);
    assert(inner.take(escaped(value).len() as int) =~= escaped(value));
    lemma_unescape_escaped(Seq::empty(), value);
}

proof fn lemma_blank(blank: Seq<char>, string: Seq<char>)
    requires
        forall|k: int| 0 <= k < blank.len() ==> white(#[trigger] blank[k]),
        string.len() > 0,
        string[0] == '"',
    ensures
        trim_start(blank + string) == string,
{
    let all = blank + string;
    let i = white_end(all, 0);
    let j = white_back(all, i, all.len() as int);
    law_trim(all, i, j);
    let n = blank.len() as int;
    assert(all[n] == '"');
    if i > n {
        assert(white(all[n]));
    } else if i < n {
        assert(all[i] == blank[i]);
    }
    assert(all.skip(n) =~= string);
}

/// A key that does not occur has no value; nor has one that no colon follows, or
/// whose value is no string.
pub proof fn law_json_needs_the_key(body: Seq<char>, key: Seq<char>)
    requires
        json_string(body, key) is Some,
    ensures
        exists|k: int|
            0 <= k && k + key.len() + 2 <= body.len() && #[trigger] body.subrange(
                k,
                k + key.len() + 2,
            ) == seq!['"'] + key + seq!['"'],
        body.contains(':'),
{
    reveal_strlit("\"");
    let pat = quoted_key(key);
    assert(pat =~= seq!['"'] + key + seq!['"']);
    law_search_finds_the_first(body, pat, 0);
    let at = find_from(body, pat, 0)->0;
    assert(body.subrange(at, at + key.len() + 2) == pat);
    let rest = body.skip(at + pat.len());
    lemma_index_of_bounds(rest, ':', 0);
    let c = index_of(rest, ':', 0);
    assert(rest[c] == ':');
    assert(body[at + pat.len() + c] == ':');
}

/// The version of a release is its tag without the letters `v` before it, if that is
/// a version of digits and dots; a tag that is not such a version gives none.
pub proof fn law_release_version_is_the_tag(body: Seq<char>, n: nat, v: Seq<char>)
    requires
        json_string(body, "tag_name"@) == Some(Seq::new(n, |i: int| 'v') + v),
        v.len() > 0,
        v[0] != 'v',
    ensures
        release_version(body) == (if version_of(v) is Some && forall|k: int|
            0 <= k < v.len() ==> '0' <= #[trigger] v[k] <= '9' || v[k] == '.' {
            Some(v)
        } else {
            None
        }),
{
    let tag = Seq::new(n, |i: int| 'v') + v;
    lemma_run_of_bounds(tag, 'v', 0);
    let r = run_of(tag, 'v', 0);
    if r > n {
        assert(tag[n as int] == v[0]);
    }
    if r < n {
        assert(tag[r] == 'v');
    }
    assert(tag.skip(n as int) =~= v);
    assert(dotted_digits(v) <==> forall|k: int|
        0 <= k < v.len() ==> '0' <= #[trigger] v[k] <= '9' || v[k] == '.') by {
        if dotted_digits(v) {
            assert forall|k: int| 0 <= k < v.len() implies '0' <= #[trigger] v[k] <= '9' || v[k]
                == '.' by {
                assert(version_char(v[k]));
            }
        }
    }
}

/// Without a tag there is no version.
pub proof fn law_no_tag_no_version(body: Seq<char>)
    requires
        json_string(body, "tag_name"@) is None,
    ensures
        release_version(body) is None,
{
}

/// The API itself is asked first, the mirrors that are built in last, and those of a
/// setting in between.
pub proof fn law_order_of_the_addresses(custom: Option<Seq<char>>)
    ensures
        ({
            let all = candidates(custom);
            let api = "https://api.github.com/repos/NekoPawClub/DshLauncher/releases/latest"@;
            &&& all.len() >= 3
            &&& all[0] == api
            &&& all[all.len() - 2] == "https://ghproxy.net/"@ + api
            &&& all[all.len() - 1] == "https://ghfast.top/"@ + api
            &&& custom is None ==> all.len() == 3
            &&& custom is Some ==> all.subrange(1, all.len() - 2) == mirrored(split(custom->0, ','))
        }),
{
    let all = candidates(custom);
    if custom is Some {
        assert(all.subrange(1, all.len() - 2) =~= mirrored(split(custom->0, ',')));
    }
}

/// The mirrors of a setting stand between commas, and are asked in their order, each
/// without the white space around it; blank ones are left out.
pub proof fn law_mirrors_of_the_setting(a: Seq<char>, rest: Seq<char>)
    requires
        forall|k: int| 0 <= k < a.len() ==> a[k] != ',',
    ensures
        ({
            let one = if trim(a).len() > 0 {
                seq![
                    trim(a)
                        + "https://api.github.com/repos/NekoPawClub/DshLauncher/releases/latest"@,
                ]
            } else {
                seq![]
            };
            &&& mirrored(split(a, ',')) == one
            &&& mirrored(split(a + seq![','] + rest, ',')) == one + mirrored(split(rest, ','))
        }),
{
    lemma_split_single(a, ',');
    lemma_split_cons(a, ',', rest);
    lemma_mirrored_one(a);
    lemma_mirrored_concat(seq![a], split(rest, ','));
}

proof fn lemma_mirrored_one(a: Seq<char>)
    ensures
        mirrored(seq![a]) == (if trim(a).len() > 0 {
            seq![trim(a) + api_url()]
        } else {
            seq![]
        }),
{
    assert(seq![a].drop_last() =~= Seq::<Seq<char>>::empty());
    assert(mirrored(Seq::empty()) =~= Seq::<Seq<char>>::empty());
    assert(Seq::<Seq<char>>::empty().push(trim(a) + api_url()) =~= seq![trim(a) + api_url()]);
}

proof fn lemma_mirrored_concat(a: Seq<Seq<char>>, b: Seq<Seq<char>>)
    ensures
        mirrored(a + b) == mirrored(a) + mirrored(b),
    decreases b.len(),
{
    if b.len() > 0 {
        assert((a + b).drop_last() =~= a + b.drop_last());
        lemma_mirrored_concat(a, b.drop_last());
        assert(mirrored(a + b) =~= mirrored(a) + mirrored(b));
    } else {
        assert(a + b =~= a);
        assert(mirrored(a + b) =~= mirrored(a) + mirrored(b));
    }
}

/// The first answer that names a version decides, whatever would come after it.
pub proof fn law_first_version_decides(body: Seq<char>, rest: Seq<Option<Seq<char>>>)
    requires
        release_version(body) is Some,
    ensures
        first_version(seq![Some(body)] + rest) == release_version(body),
        first_version(Seq::empty()) is None,
{
    let all = seq![Some(body)] + rest;
    assert(all[0] == Some(body));
}

} // verus!
