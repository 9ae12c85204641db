//! The resources of the Windows program: what they hold, and which resource
//! compiler builds them.
use vstd::prelude::*;

use crate::bytes::{lossy_text, text_of};
use crate::text::{
    decimal, find, find_from, from_chars, is_digit, law_search_finds_the_first,
    lemma_decimal_value, lemma_split_cons, lemma_split_single, opt_str, opt_string, pieces,
    push_all, push_decimal, push_text, same_text, slashed, split, split_at_char, texts, to_chars,
    trim, trimmed, with_slashes,
};
use crate::version::{format_version, number_segments, version_key, version_text, Version};
use crate::wide::{lower_text, to_lowercase};

verus! {

// ---- The script ----

/// The four numbers of a version, with commas between them.
pub open spec fn comma_version(v: Version) -> Seq<char> {
    decimal(v.0) + ","@ + decimal(v.1) + ","@ + decimal(v.2) + ","@ + decimal(v.3)
}

/// The script that the resource compiler reads: the icon of the program and its
/// version, once as numbers and once as text.
pub open spec fn script_text(icon: Seq<char>, v: Version) -> Seq<char> {
    "\n1 ICON \""@ + slashed(icon) + "\"\n\n1 VERSIONINFO\nFILEVERSION    "@ + comma_version(v)
        + "\nPRODUCTVERSION "@ + comma_version(v)
        + "\nFILEOS         0x40004\nFILETYPE       0x1\nBEGIN\n    BLOCK \"StringFileInfo\"\n    BEGIN\n        BLOCK \"040904b0\"\n        BEGIN\n            VALUE \"CompanyName\",      \"DshLauncher\"\n            VALUE \"FileDescription\",  \"DeepSeek Harness Tray Guardian\"\n            VALUE \"FileVersion\",      \""@
        + version_text(v)
        + "\"\n            VALUE \"InternalName\",     \"DshLauncher\"\n            VALUE \"LegalCopyright\",   \"Copyright (C) 2026 DshLauncher\"\n            VALUE \"OriginalFilename\", \"DshLauncher.exe\"\n            VALUE \"ProductName\",      \"DshLauncher\"\n            VALUE \"ProductVersion\",   \""@
        + version_text(v)
        + "\"\n        END\n    END\n    BLOCK \"VarFileInfo\"\n    BEGIN\n        VALUE \"Translation\", 0x409, 1200\n    END\nEND\n"@
}

fn push_numbers(out: &mut String, v: (u32, u32, u32, u32))
    ensures
        final(out)@ == old(out)@ + comma_version((v.0 as int, v.1 as int, v.2 as int, v.3 as int)),
{
    let ghost before = out@;
    push_decimal(out, v.0 as u64);
    push_all(out, ",");
    push_decimal(out, v.1 as u64);
    push_all(out, ",");
    push_decimal(out, v.2 as u64);
    push_all(out, ",");
    push_decimal(out, v.3 as u64);
    proof {
        assert(out@ =~= before + comma_version((v.0 as int, v.1 as int, v.2 as int, v.3 as int)));
    }
}

/// Writes the script for the resource compiler.
pub fn resource_script(icon: &str, v: (u32, u32, u32, u32)) -> (r: String)
    ensures
        r@ == script_text(icon@, (v.0 as int, v.1 as int, v.2 as int, v.3 as int)),
{
    let icon = with_slashes(icon);
    let version = format_version(v);
    let mut out = "\n1 ICON \"".to_string();
    push_all(&mut out, icon.as_str());
    push_all(&mut out, "\"\n\n1 VERSIONINFO\nFILEVERSION    ");
    push_numbers(&mut out, v);
    push_all(&mut out, "\nPRODUCTVERSION ");
    push_numbers(&mut out, v);
    push_all(
        &mut out,
        "\nFILEOS         0x40004\nFILETYPE       0x1\nBEGIN\n    BLOCK \"StringFileInfo\"\n    BEGIN\n        BLOCK \"040904b0\"\n        BEGIN\n            VALUE \"CompanyName\",      \"DshLauncher\"\n            VALUE \"FileDescription\",  \"DeepSeek Harness Tray Guardian\"\n            VALUE \"FileVersion\",      \"",
    );
    push_all(&mut out, version.as_str());
    push_all(
        &mut out,
        "\"\n            VALUE \"InternalName\",     \"DshLauncher\"\n            VALUE \"LegalCopyright\",   \"Copyright (C) 2026 DshLauncher\"\n            VALUE \"OriginalFilename\", \"DshLauncher.exe\"\n            VALUE \"ProductName\",      \"DshLauncher\"\n            VALUE \"ProductVersion\",   \"",
    );
    push_all(&mut out, version.as_str());
    push_all(
        &mut out,
        "\"\n        END\n    END\n    BLOCK \"VarFileInfo\"\n    BEGIN\n        VALUE \"Translation\", 0x409, 1200\n    END\nEND\n",
    );
    out
}

// ---- Architectures ----

/// The name of an architecture in the paths of the kits.
pub open spec fn arch_name(arch: Seq<char>) -> Seq<char> {
    if arch == "x86"@ {
        "x86"@
    } else if arch == "aarch64"@ {
        "arm64"@
    } else {
        "x64"@
    }
}

/// The name that the kits have for the architecture of the host.
pub fn host_arch(arch: &str) -> (r: &'static str)
    ensures
        r@ == arch_name(arch@),
{
    if same_text(arch, "x86") {
        "x86"
    } else if same_text(arch, "aarch64") {
        "arm64"
    } else {
        "x64"
    }
}

/// What a vector of literals holds.
pub open spec fn literals(v: Seq<&'static str>) -> Seq<Seq<char>> {
    v.map_values(|s: &'static str| s@)
}

/// A list of one architecture, or of none if it is the host's.
pub open spec fn unless(arch: Seq<char>, host: Seq<char>) -> Seq<Seq<char>> {
    if arch == host {
        seq![]
    } else {
        seq![arch]
    }
}

/// The architectures in the order in which they are looked for: that of the host,
/// then the others.
pub open spec fn arch_order(host: Seq<char>) -> Seq<Seq<char>> {
    seq![host] + unless("x64"@, host) + unless("x86"@, host) + unless("arm64"@, host)
}

fn add_unless(v: &mut Vec<&'static str>, arch: &'static str, host: &str)
    ensures
        literals(final(v)@) == literals(old(v)@) + unless(arch@, host@),
{
    let ghost before = v@;
    if !same_text(arch, host) {
        v.push(arch);
    }
    proof {
        assert(literals(v@) =~= literals(before) + unless(arch@, host@));
    }
}

/// The architectures in the order in which they are looked for.
pub fn preferred_archs(host: &'static str) -> (r: Vec<&'static str>)
    ensures
        literals(r@) == arch_order(host@),
{
    let mut v: Vec<&'static str> = Vec::new();
    v.push(host);
    proof {
        assert(literals(v@) =~= seq![host@]);
    }
    add_unless(&mut v, "x64", host);
    add_unless(&mut v, "x86", host);
    add_unless(&mut v, "arm64", host);
    v
}

/// The host's own architecture comes first, and each of the three comes once.
pub proof fn law_host_comes_first(arch: Seq<char>)
    ensures
        ({
            let order = arch_order(arch_name(arch));
            &&& order.len() == 3
            &&& order[0] == arch_name(arch)
            &&& order.no_duplicates()
            &&& order.contains("x64"@)
            &&& order.contains("x86"@)
            &&& order.contains("arm64"@)
        }),
{
    reveal_strlit("x64");
    reveal_strlit("x86");
    reveal_strlit("arm64");
    let host = arch_name(arch);
    let order = arch_order(host);
    assert("x64"@[1] != "x86"@[1]);
    assert("x64"@.len() != "arm64"@.len());
    assert("x86"@.len() != "arm64"@.len());
    if host == "x64"@ {
        assert(order =~= seq!["x64"@, "x86"@, "arm64"@]);
    } else if host == "x86"@ {
        assert(order =~= seq!["x86"@, "x64"@, "arm64"@]);
    } else {
        assert(order =~= seq!["arm64"@, "x64"@, "x86"@]);
    }
    assert(order.contains(order[0]) && order.contains(order[1]) && order.contains(order[2]));
}

/// The architecture that a path in lower case names.
pub open spec fn arch_in_text(lower: Seq<char>) -> Option<Seq<char>> {
    if find_from(lower, "x64"@, 0) is Some {
        Some("x64"@)
    } else if find_from(lower, "arm64"@, 0) is Some {
        Some("arm64"@)
    } else if find_from(lower, "x86"@, 0) is Some {
        Some("x86"@)
    } else {
        None
    }
}

/// The architecture that a path in lower case names.
pub fn arch_in(lower: &str) -> (r: Option<&'static str>)
    ensures
        opt_str(r) == arch_in_text(lower@),
{
    let chars = to_chars(lower);
    let x64 = to_chars("x64");
    let arm64 = to_chars("arm64");
    let x86 = to_chars("x86");
    if find(chars.as_slice(), x64.as_slice()).is_some() {
        Some("x64")
    } else if find(chars.as_slice(), arm64.as_slice()).is_some() {
        Some("arm64")
    } else if find(chars.as_slice(), x86.as_slice()).is_some() {
        Some("x86")
    } else {
        None
    }
}

/// The architecture that a path names, in whatever case.
pub fn path_arch_hint(path: &str) -> (r: Option<&'static str>)
    ensures
        opt_str(r) == arch_in_text(lower_text(path@)),
{
    let lower = to_lowercase(path);
    arch_in(lower.as_str())
}

/// The first of the paths, from index `i` on, that names the architecture.
pub open spec fn first_of_arch(paths: Seq<Seq<char>>, arch: Seq<char>, i: int) -> Option<int>
    decreases paths.len() - i,
{
    if 0 <= i < paths.len() {
        if arch_in_text(lower_text(paths[i])) == Some(arch) {
            Some(i)
        } else {
            first_of_arch(paths, arch, i + 1)
        }
    } else {
        None
    }
}

/// The path that is chosen: the first that names the first architecture that any
/// of them names, else the first.
pub open spec fn preferred(paths: Seq<Seq<char>>, archs: Seq<Seq<char>>, a: int) -> Option<int>
    decreases archs.len() - a,
{
    if 0 <= a < archs.len() {
        match first_of_arch(paths, archs[a], 0) {
            Some(i) => Some(i),
            None => preferred(paths, archs, a + 1),
        }
    } else if paths.len() > 0 {
        Some(0)
    } else {
        None
    }
}

fn find_of_arch(paths: &Vec<String>, arch: &str) -> (r: Option<usize>)
    ensures
        match r {
            Some(i) => first_of_arch(texts(paths@), arch@, 0) == Some(i as int) && i < paths@.len(),
            None => first_of_arch(texts(paths@), arch@, 0) is None,
        },
{
    let mut i: usize = 0;
    while i < paths.len()
        invariant
            i <= paths@.len(),
            first_of_arch(texts(paths@), arch@, 0) == first_of_arch(texts(paths@), arch@, i as int),
        decreases paths@.len() - i,
    {
        proof {
            assert(texts(paths@)[i as int] == paths@[i as int]@);
        }
        if let Some(hint) = path_arch_hint(paths[i].as_str()) {
            if same_text(hint, arch) {
                return Some(i);
            }
        }
        i += 1;
    }
    None
}

/// Picks a resource compiler among those that were found: one for the host's
/// architecture if there is one, else one for another, else the first.
pub fn pick_preferred_rc(paths: &Vec<String>, host: &'static str) -> (r: Option<usize>)
    ensures
        match r {
            Some(i) => preferred(texts(paths@), arch_order(host@), 0) == Some(i as int) && i
                < paths@.len(),
            None => preferred(texts(paths@), arch_order(host@), 0) is None,
        },
{
    let archs = preferred_archs(host);
    let mut a: usize = 0;
    while a < archs.len()
        invariant
            a <= archs@.len(),
            literals(archs@) == arch_order(host@),
            preferred(texts(paths@), arch_order(host@), 0) == preferred(
                texts(paths@),
                arch_order(host@),
                a as int,
            ),
        decreases archs@.len() - a,
    {
        proof {
            assert(literals(archs@)[a as int] == archs@[a as int]@);
        }
        if let Some(i) = find_of_arch(paths, archs[a]) {
            return Some(i);
        }
        a += 1;
    }
    if paths.len() > 0 {
        Some(0)
    } else {
        None
    }
}

// ---- Versions of the kits ----

/// Whether the first list of numbers comes before the second: the first number
/// that differs decides, and of two lists that agree the shorter comes first.
pub open spec fn key_before(a: Seq<int>, b: Seq<int>, i: int) -> bool
    decreases b.len() - i,
{
    if i < 0 || i >= b.len() {
        false
    } else if i >= a.len() {
        true
    } else if a[i] != b[i] {
        a[i] < b[i]
    } else {
        key_before(a, b, i + 1)
    }
}

proof fn lemma_not_before(a: Seq<int>, b: Seq<int>, c: Seq<int>, i: int)
    requires
        0 <= i,
        !key_before(a, b, i),
        !key_before(b, c, i),
    ensures
        !key_before(a, c, i),
    decreases a.len() + b.len() + c.len() - i,
{
    if i < a.len() && i < b.len() && i < c.len() && a[i] == b[i] && b[i] == c[i] {
        lemma_not_before(a, b, c, i + 1);
    }
}

proof fn lemma_one_before(a: Seq<int>, b: Seq<int>, i: int)
    requires
        0 <= i,
        key_before(a, b, i),
    ensures
        !key_before(b, a, i),
    decreases b.len() - i,
{
    if i < a.len() && a[i] == b[i] {
        lemma_one_before(a, b, i + 1);
    }
}

/// The numbers of the name of a version.
pub open spec fn key_of(name: Seq<char>) -> Seq<int> {
    number_segments(split(name, '.'))
}

/// Whether the version of the first name comes before that of the second.
pub open spec fn older(a: Seq<char>, b: Seq<char>) -> bool {
    key_before(key_of(a), key_of(b), 0)
}

fn is_older(a: &str, b: &str) -> (r: bool)
    ensures
        r == older(a@, b@),
{
    let x = version_key(a);
    let y = version_key(b);
    let ghost kx = key_of(a@);
    let ghost ky = key_of(b@);
    proof {
        assert(x@.map_values(|n: u32| n as int).len() == x@.len());
        assert(y@.map_values(|n: u32| n as int).len() == y@.len());
    }
    let mut i: usize = 0;
    while i < y.len()
        invariant
            i <= y@.len(),
            kx == key_of(a@),
            ky == key_of(b@),
            kx == x@.map_values(|n: u32| n as int),
            ky == y@.map_values(|n: u32| n as int),
            kx.len() == x@.len(),
            ky.len() == y@.len(),
            key_before(kx, ky, 0) == key_before(kx, ky, i as int),
        decreases y@.len() - i,
    {
        if i >= x.len() {
            return true;
        }
        proof {
            assert(kx[i as int] == x@[i as int] as int);
            assert(ky[i as int] == y@[i as int] as int);
        }
        if x[i] != y[i] {
            return x[i] < y[i];
        }
        i += 1;
    }
    false
}

/// Where the name `i` stands in an order of names: behind those with a newer
/// version.
pub open spec fn place(names: Seq<Seq<char>>, order: Seq<int>, i: int, at: int) -> int
    decreases order.len() - at,
{
    if 0 <= at < order.len() && older(names[i], names[order[at]]) {
        place(names, order, i, at + 1)
    } else {
        at
    }
}

/// The first `n` names, the newest version first; of the same version, the later
/// name first.
pub open spec fn newest_order(names: Seq<Seq<char>>, n: int) -> Seq<int>
    decreases n,
{
    if n <= 0 {
        Seq::empty()
    } else {
        let order = newest_order(names, n - 1);
        order.insert(place(names, order, n - 1, 0), n - 1)
    }
}

/// Whether the name `i` comes before the name `j`.
pub open spec fn comes_first(names: Seq<Seq<char>>, i: int, j: int) -> bool {
    older(names[j], names[i]) || (!older(names[i], names[j]) && i > j)
}

proof fn lemma_place(names: Seq<Seq<char>>, order: Seq<int>, i: int, at: int)
    requires
        0 <= at <= order.len(),
        forall|k: int| 0 <= k < at ==> older(names[i], names[#[trigger] order[k]]),
    ensures
        at <= place(names, order, i, at) <= order.len(),
        forall|k: int|
            0 <= k < place(names, order, i, at) ==> older(names[i], names[#[trigger] order[k]]),
        place(names, order, i, at) < order.len() ==> !older(
            names[i],
            names[order[place(names, order, i, at)]],
        ),
    decreases order.len() - at,
{
    if at < order.len() && older(names[i], names[order[at]]) {
        lemma_place(names, order, i, at + 1);
    }
}

/// The order holds each name once, and of two names the one with the newer version
/// comes first.
pub proof fn law_newest_first(names: Seq<Seq<char>>, n: int)
    requires
        0 <= n <= names.len(),
    ensures
        newest_order(names, n).len() == n,
        forall|k: int| 0 <= k < n ==> 0 <= #[trigger] newest_order(names, n)[k] < n,
        forall|p: int, q: int|
            0 <= p < q < n ==> comes_first(
                names,
                #[trigger] newest_order(names, n)[p],
                #[trigger] newest_order(names, n)[q],
            ),
    decreases n,
{
    if n > 0 {
        law_newest_first(names, n - 1);
        let order = newest_order(names, n - 1);
        let i = n - 1;
        let at = place(names, order, i, 0);
        lemma_place(names, order, i, 0);
        let more = newest_order(names, n);
        assert(more == order.insert(at, i));
        assert forall|p: int, q: int| 0 <= p < q < n implies comes_first(
            names,
            #[trigger] more[p],
            #[trigger] more[q],
        ) by {
            if q < at {
                assert(more[p] == order[p] && more[q] == order[q]);
            } else if q == at {
                assert(more[p] == order[p] && more[q] == i);
            } else if p < at {
                assert(more[p] == order[p] && more[q] == order[q - 1]);
            } else if p == at {
                assert(more[p] == i && more[q] == order[q - 1]);
                let first = order[at];
                let other = order[q - 1];
                if at < q - 1 {
                    assert(comes_first(names, first, other));
                    if older(names[other], names[first]) {
                        lemma_one_before(key_of(names[other]), key_of(names[first]), 0);
                    }
                    lemma_not_before(key_of(names[i]), key_of(names[first]), key_of(names[other]), 0);
                }
                assert(!older(names[i], names[other]));
            } else {
                assert(more[p] == order[p - 1] && more[q] == order[q - 1]);
            }
        }
    }
}

/// The names, the newest version first.
fn sort_newest(names: &Vec<String>) -> (r: Vec<usize>)
    ensures
        r@.map_values(|i: usize| i as int) == newest_order(texts(names@), names@.len() as int),
        forall|k: int| 0 <= k < r@.len() ==> #[trigger] r@[k] < names@.len(),
{
    let ghost all = texts(names@);
    let mut order: Vec<usize> = Vec::new();
    let mut n: usize = 0;
    proof {
        assert(order@.map_values(|i: usize| i as int) =~= newest_order(all, 0));
    }
    while n < names.len()
        invariant
            n <= names@.len(),
            all == texts(names@),
            order@.map_values(|i: usize| i as int) == newest_order(all, n as int),
            forall|k: int| 0 <= k < order@.len() ==> #[trigger] order@[k] < names@.len(),
        decreases names@.len() - n,
    {
        let ghost before = newest_order(all, n as int);
        proof {
            assert(before.len() == order@.len());
        }
        let mut at: usize = 0;
        while at < order.len() && is_older(names[n].as_str(), names[order[at]].as_str())
            invariant
                n < names@.len(),
                at <= order@.len(),
                all == texts(names@),
                before == order@.map_values(|i: usize| i as int),
                before.len() == order@.len(),
                forall|k: int| 0 <= k < order@.len() ==> #[trigger] order@[k] < names@.len(),
                place(all, before, n as int, 0) == place(all, before, n as int, at as int),
            decreases order@.len() - at,
        {
            proof {
                assert(before[at as int] == order@[at as int] as int);
                assert(all[n as int] == names@[n as int]@);
                assert(all[order@[at as int] as int] == names@[order@[at as int] as int]@);
            }
            at += 1;
        }
        proof {
            if at < order@.len() {
                assert(before[at as int] == order@[at as int] as int);
                assert(all[n as int] == names@[n as int]@);
                assert(all[order@[at as int] as int] == names@[order@[at as int] as int]@);
            }
        }
        order.insert(at, n);
        n += 1;
        proof {
            assert(order@.map_values(|i: usize| i as int) =~= newest_order(all, n as int));
        }
    }
    order
}

// ---- Looking for the resource compiler ----

/// The directories of the kits.
pub open spec fn kit_root(i: int) -> Seq<char> {
    if i == 0 {
        "C:\\Program Files (x86)\\Windows Kits\\10\\bin"@
    } else {
        "C:\\Program Files\\Windows Kits\\10\\bin"@
    }
}

/// The directories of Visual Studio.
pub open spec fn studio_root(i: int) -> Seq<char> {
    if i == 0 {
        "C:\\Program Files\\Microsoft Visual Studio"@
    } else {
        "C:\\Program Files (x86)\\Microsoft Visual Studio"@
    }
}

/// Where a version of the kits has its resource compiler for an architecture.
pub open spec fn kit_path(root: Seq<char>, version: Seq<char>, arch: Seq<char>) -> Seq<char> {
    root + "\\"@ + version + "\\"@ + arch + "\\rc.exe"@
}

/// The places in one version of the kits, in the order of the architectures.
pub open spec fn version_paths(
    root: Seq<char>,
    version: Seq<char>,
    archs: Seq<Seq<char>>,
) -> Seq<Seq<char>> {
    archs.map_values(|arch: Seq<char>| kit_path(root, version, arch))
}

/// The places in some versions of the kits, in the given order.
pub open spec fn kit_paths(
    root: Seq<char>,
    names: Seq<Seq<char>>,
    order: Seq<int>,
    archs: Seq<Seq<char>>,
) -> Seq<Seq<char>>
    decreases order.len(),
{
    if order.len() == 0 {
        Seq::empty()
    } else {
        kit_paths(root, names, order.drop_last(), archs) + version_paths(
            root,
            names[order.last()],
            archs,
        )
    }
}

fn push_version_paths(
    out: &mut Vec<String>,
    root: &str,
    version: &str,
    archs: &Vec<&'static str>,
)
    ensures
        texts(final(out)@) == texts(old(out)@) + version_paths(root@, version@, literals(archs@)),
{
    let ghost before = texts(out@);
    let ghost all = literals(archs@);
    let mut a: usize = 0;
    proof {
        assert(before + version_paths(root@, version@, all.take(0)) =~= before);
    }
    while a < archs.len()
        invariant
            a <= archs@.len(),
            all == literals(archs@),
            texts(out@) == before + version_paths(root@, version@, all.take(a as int)),
        decreases archs@.len() - a,
    {
        let mut path = String::new();
        push_all(&mut path, root);
        push_all(&mut path, "\\");
        push_all(&mut path, version);
        push_all(&mut path, "\\");
        push_all(&mut path, archs[a]);
        push_all(&mut path, "\\rc.exe");
        proof {
            assert(Seq::<char>::empty() + root@ =~= root@);
            assert(all[a as int] == archs@[a as int]@);
            assert(version_paths(root@, version@, all.take(a + 1)) =~= version_paths(
                root@,
                version@,
                all.take(a as int),
            ).push(path@));
            assert(before + version_paths(root@, version@, all.take(a as int)).push(path@) =~= (
            before + version_paths(root@, version@, all.take(a as int))).push(path@));
        }
        push_text(out, path);
        a += 1;
    }
    proof {
        assert(all.take(a as int) =~= all);
    }
}

/// The places to look in under a directory of the kits, given what it holds.
fn list_kit_paths(root: &str, names: &Vec<String>, host: &'static str) -> (r: Vec<String>)
    ensures
        texts(r@) == kit_paths(
            root@,
            texts(names@),
            newest_order(texts(names@), names@.len() as int),
            arch_order(host@),
        ),
{
    let archs = preferred_archs(host);
    let order = sort_newest(names);
    let ghost all = order@.map_values(|i: usize| i as int);
    let mut out: Vec<String> = Vec::new();
    let mut k: usize = 0;
    proof {
        assert(all.len() == order@.len());
        assert(texts(out@) =~= kit_paths(root@, texts(names@), all.take(0), arch_order(host@)));
    }
    while k < order.len()
        invariant
            k <= order@.len(),
            all == order@.map_values(|i: usize| i as int),
            all.len() == order@.len(),
            forall|j: int| 0 <= j < order@.len() ==> #[trigger] order@[j] < names@.len(),
            literals(archs@) == arch_order(host@),
            texts(out@) == kit_paths(
                root@,
                texts(names@),
                all.take(k as int),
                arch_order(host@),
            ),
        decreases order@.len() - k,
    {
        proof {
            assert(all.take(k + 1).drop_last() =~= all.take(k as int));
            assert(all.take(k + 1).last() == order@[k as int] as int);
            assert(texts(names@)[order@[k as int] as int] == names@[order@[k as int] as int]@);
        }
        push_version_paths(&mut out, root, names[order[k]].as_str(), &archs);
        k += 1;
    }
    proof {
        assert(all.take(k as int) =~= all);
    }
    out
}

/// The paths that the output of a search lists: its lines, without the white space
/// around them.
pub open spec fn listed_paths(text: Seq<char>) -> Seq<Seq<char>> {
    let parts = split(text, '\n');
    let whole = if parts.last().len() == 0 {
        parts.drop_last()
    } else {
        parts
    };
    whole.map_values(|p: Seq<char>| trim(p))
}

fn read_listed(out: &[u8]) -> (r: Vec<String>)
    ensures
        texts(r@) == listed_paths(text_of(out@)),
{
    let text = lossy_text(out);
    let chars = to_chars(text.as_str());
    let parts = split_at_char(chars.as_slice(), '\n');
    let ghost all = pieces(parts@);
    proof {
        assert(all.len() == parts@.len());
        assert(all.last() == parts@.last()@);
    }
    let n: usize = if parts[parts.len() - 1].len() == 0 {
        parts.len() - 1
    } else {
        parts.len()
    };
    let mut paths: Vec<String> = Vec::new();
    let mut i: usize = 0;
    let ghost whole = all.take(n as int);
    proof {
        assert(whole =~= if all.last().len() == 0 {
            all.drop_last()
        } else {
            all
        });
        assert(texts(paths@) =~= whole.take(0).map_values(|p: Seq<char>| trim(p)));
    }
    while i < n
        invariant
            i <= n <= parts@.len(),
            all == pieces(parts@),
            whole == all.take(n as int),
            texts(paths@) == whole.take(i as int).map_values(|p: Seq<char>| trim(p)),
        decreases n - i,
    {
        let path = from_chars(trimmed(parts[i]));
        proof {
            assert(all[i as int] == parts@[i as int]@);
            assert(whole[i as int] == all[i as int]);
            assert(whole.take(i + 1).map_values(|p: Seq<char>| trim(p)) =~= whole.take(
                i as int,
            ).map_values(|p: Seq<char>| trim(p)).push(path@));
        }
        push_text(&mut paths, path);
        i += 1;
    }
    proof {
        assert(whole.take(i as int) =~= whole);
    }
    paths
}

/// How many directories deep Visual Studio is looked through.
pub const STUDIO_DEPTH: usize = 5;

/// What is done about an entry of a directory.
#[derive(Clone, Copy, Debug, PartialEq, Eq, Structural)]
pub enum RcEntry {
    /// It is a directory: look through it, so many directories deep.
    Descend(usize),
    /// It is a resource compiler.
    Take,
    /// It is neither, or too deep.
    Pass,
}

/// What is done about an entry of a directory that is looked through so many
/// directories deep, itself included: directories are looked through, one less
/// deep, and files are taken by their name.
pub fn find_rc_files_recursive(depth: usize, is_dir: bool, name: &str) -> (r: RcEntry)
    ensures
        r == (if depth == 0 {
            RcEntry::Pass
        } else if is_dir {
            RcEntry::Descend((depth - 1) as usize)
        } else if name@ == "rc.exe"@ {
            RcEntry::Take
        } else {
            RcEntry::Pass
        }),
{
    if depth == 0 {
        RcEntry::Pass
    } else if is_dir {
        RcEntry::Descend(depth - 1)
    } else if same_text(name, "rc.exe") {
        RcEntry::Take
    } else {
        RcEntry::Pass
    }
}

/// Where the search stands: what is asked for once the places at hand are used up.
#[derive(Clone, Copy, Debug, PartialEq, Eq, Structural)]
pub enum SearchStage {
    Setting,
    InPath,
    Kits(usize),
    Studio(usize),
    Over,
}

/// What the search asks for.
#[derive(Clone, Copy, Debug, PartialEq, Eq, Structural)]
pub enum SearchAction {
    /// Read the setting that names the resource compiler.
    AskSetting,
    /// Run the system's search for the resource compiler.
    SearchPath,
    /// List a directory of the kits.
    ListKits(usize),
    /// Find the resource compilers under a directory of Visual Studio.
    ListStudio(usize),
    /// See whether the next place is a file.
    Check,
    Finish,
}

/// What came of it.
#[derive(Debug)]
pub enum SearchEvent {
    Setting(Option<String>),
    /// What the system's search wrote, if it found anything.
    Listed(Option<Vec<u8>>),
    /// The names in the directory.
    Versions(Vec<String>),
    /// The resource compilers under the directory.
    Found(Vec<String>),
    /// Whether the place is a file.
    File(bool),
}

/// The search as a mathematical value.
pub struct SearchState {
    /// The host's architecture.
    pub host: Seq<char>,
    pub stage: SearchStage,
    /// The places at hand, in the order in which they are looked at.
    pub places: Seq<Seq<char>>,
    /// What was found under the directories of Visual Studio.
    pub candidates: Seq<Seq<char>>,
    pub found: Option<Seq<char>>,
}

pub open spec fn search_start(arch: Seq<char>) -> SearchState {
    SearchState {
        host: arch_name(arch),
        stage: SearchStage::Setting,
        places: seq![],
        candidates: seq![],
        found: None,
    }
}

/// What the search asks for next.
pub open spec fn search_action(st: SearchState) -> SearchAction {
    if st.stage is Over {
        SearchAction::Finish
    } else if st.places.len() > 0 {
        SearchAction::Check
    } else {
        match st.stage {
            SearchStage::Setting => SearchAction::AskSetting,
            SearchStage::InPath => SearchAction::SearchPath,
            SearchStage::Kits(i) => SearchAction::ListKits(i),
            SearchStage::Studio(i) => SearchAction::ListStudio(i),
            SearchStage::Over => SearchAction::Finish,
        }
    }
}

/// The path that is picked among the candidates.
pub open spec fn picked(paths: Seq<Seq<char>>, host: Seq<char>) -> Option<Seq<char>> {
    match preferred(paths, arch_order(host), 0) {
        Some(i) => Some(paths[i]),
        None => None,
    }
}

/// The search after an answer.
pub open spec fn search_step(st: SearchState, event: SearchEvent) -> SearchState {
    match (search_action(st), event) {
        (SearchAction::Check, SearchEvent::File(true)) => SearchState {
            stage: SearchStage::Over,
            found: Some(st.places[0]),
            ..st
        },
        (SearchAction::Check, SearchEvent::File(false)) => SearchState {
            places: st.places.drop_first(),
            ..st
        },
        (SearchAction::AskSetting, SearchEvent::Setting(path)) => SearchState {
            stage: SearchStage::InPath,
            places: match path {
                Some(p) => seq![p@],
                None => seq![],
            },
            ..st
        },
        (SearchAction::SearchPath, SearchEvent::Listed(out)) => SearchState {
            stage: SearchStage::Kits(0),
            places: match out {
                Some(b) => listed_paths(text_of(b@)),
                None => seq![],
            },
            ..st
        },
        (SearchAction::ListKits(i), SearchEvent::Versions(names)) => SearchState {
            stage: if i == 0 {
                SearchStage::Kits(1)
            } else {
                SearchStage::Studio(0)
            },
            places: kit_paths(
                kit_root(i as int),
                texts(names@),
                newest_order(texts(names@), names@.len() as int),
                arch_order(st.host),
            ),
            ..st
        },
        (SearchAction::ListStudio(i), SearchEvent::Found(paths)) => {
            let candidates = st.candidates + texts(paths@);
            if i == 0 {
                SearchState { stage: SearchStage::Studio(1), candidates, ..st }
            } else {
                SearchState {
                    stage: SearchStage::Over,
                    candidates,
                    found: picked(candidates, st.host),
                    ..st
                }
            }
        },
        _ => st,
    }
}

/// The search for the resource compiler: the setting, the system's search path, the
/// kits from the newest version down, then whatever Visual Studio has.
#[derive(Debug)]
pub struct RcSearch {
    host: &'static str,
    stage: SearchStage,
    places: Vec<String>,
    next: usize,
    candidates: Vec<String>,
    found: Option<String>,
}

impl View for RcSearch {
    type V = SearchState;

    closed spec fn view(&self) -> SearchState {
        SearchState {
            host: self.host@,
            stage: self.stage,
            places: texts(self.places@).skip(self.next as int),
            candidates: texts(self.candidates@),
            found: opt_string(self.found),
        }
    }
}

/// The directory of the kits with this number.
pub fn kits_dir(i: usize) -> (r: &'static str)
    ensures
        r@ == kit_root(i as int),
{
    if i == 0 {
        "C:\\Program Files (x86)\\Windows Kits\\10\\bin"
    } else {
        "C:\\Program Files\\Windows Kits\\10\\bin"
    }
}

/// The directory of Visual Studio with this number.
pub fn studio_dir(i: usize) -> (r: &'static str)
    ensures
        r@ == studio_root(i as int),
{
    if i == 0 {
        "C:\\Program Files\\Microsoft Visual Studio"
    } else {
        "C:\\Program Files (x86)\\Microsoft Visual Studio"
    }
}

impl RcSearch {
    pub closed spec fn wf(&self) -> bool {
        self.next <= self.places@.len()
    }

    /// Starts the search on a host of the given architecture.
    pub fn find_rc_exe(arch: &str) -> (r: RcSearch)
        ensures
            r.wf(),
            r@ == search_start(arch@),
    {
        let r = RcSearch {
            host: host_arch(arch),
            stage: SearchStage::Setting,
            places: Vec::new(),
            next: 0,
            candidates: Vec::new(),
            found: None,
        };
        proof {
            assert(r@.places =~= seq![]);
            assert(r@.candidates =~= seq![]);
        }
        r
    }

    pub fn action(&self) -> (r: SearchAction)
        requires
            self.wf(),
        ensures
            r == search_action(self@),
    {
        proof {
            assert(texts(self.places@).len() == self.places@.len());
        }
        match self.stage {
            SearchStage::Over => SearchAction::Finish,
            _ => if self.next < self.places.len() {
                SearchAction::Check
            } else {
                match self.stage {
                    SearchStage::Setting => SearchAction::AskSetting,
                    SearchStage::InPath => SearchAction::SearchPath,
                    SearchStage::Kits(i) => SearchAction::ListKits(i),
                    SearchStage::Studio(i) => SearchAction::ListStudio(i),
                    SearchStage::Over => SearchAction::Finish,
                }
            },
        }
    }

    /// The place to look at.
    pub fn place(&self) -> (r: &str)
        requires
            self.wf(),
            search_action(self@) is Check,
        ensures
            r@ == self@.places[0],
    {
        proof {
            assert(texts(self.places@).len() == self.places@.len());
            assert(texts(self.places@)[self.next as int] == self.places@[self.next as int]@);
        }
        self.places[self.next].as_str()
    }

    /// Takes an answer into account.
    pub fn step(&mut self, event: SearchEvent)
        requires
            old(self).wf(),
        ensures
            final(self).wf(),
            final(self)@ == search_step(old(self)@, event),
    {
        let ghost before = self@;
        proof {
            assert(texts(self.places@).len() == self.places@.len());
            assert(texts(self.candidates@).len() == self.candidates@.len());
        }
        match (self.action(), event) {
            (SearchAction::Check, SearchEvent::File(true)) => {
                proof {
                    assert(texts(self.places@)[self.next as int] == self.places@[self.next as int]@);
                }
                let place = self.places[self.next].as_str().to_string();
                self.found = Some(place);
                self.stage = SearchStage::Over;
            },
            (SearchAction::Check, SearchEvent::File(false)) => {
                proof {
                    assert(before.places.len() == self.places.len() - self.next);
                }
                self.next = self.next + 1;
                proof {
                    assert(self@.places =~= before.places.drop_first());
                }
            },
            (SearchAction::AskSetting, SearchEvent::Setting(path)) => {
                let mut places: Vec<String> = Vec::new();
                proof {
                    assert(texts(places@) =~= seq![]);
                }
                if let Some(path) = path {
                    push_text(&mut places, path);
                    proof {
                        assert(texts(places@) =~= seq![path@]);
                    }
                }
                self.stage = SearchStage::InPath;
                self.renew(places);
            },
            (SearchAction::SearchPath, SearchEvent::Listed(out)) => {
                let places = match out {
                    Some(out) => read_listed(out.as_slice()),
                    None => {
                        let none: Vec<String> = Vec::new();
                        proof {
                            assert(texts(none@) =~= seq![]);
                        }
                        none
                    },
                };
                self.stage = SearchStage::Kits(0);
                self.renew(places);
            },
            (SearchAction::ListKits(i), SearchEvent::Versions(names)) => {
                let places = list_kit_paths(kits_dir(i), &names, self.host);
                self.stage = if i == 0 {
                    SearchStage::Kits(1)
                } else {
                    SearchStage::Studio(0)
                };
                self.renew(places);
            },
            (SearchAction::ListStudio(i), SearchEvent::Found(paths)) => {
                self.collect(paths);
                if i == 0 {
                    self.stage = SearchStage::Studio(1);
                } else {
                    self.found = match pick_preferred_rc(&self.candidates, self.host) {
                        Some(k) => {
                            proof {
                                assert(texts(self.candidates@)[k as int]
                                    == self.candidates@[k as int]@);
                            }
                            Some(self.candidates[k].as_str().to_string())
                        },
                        None => None,
                    };
                    self.stage = SearchStage::Over;
                }
            },
            _ => {},
        }
    }

    fn renew(&mut self, places: Vec<String>)
        ensures
            final(self).wf(),
            final(self)@ == (SearchState { places: texts(places@), ..old(self)@ }),
    {
        self.places = places;
        self.next = 0;
        proof {
            assert(self@.places =~= texts(places@));
        }
    }

    fn collect(&mut self, paths: Vec<String>)
        requires
            old(self).wf(),
        ensures
            final(self).wf(),
            final(self)@ == (SearchState {
                candidates: old(self)@.candidates + texts(paths@),
                ..old(self)@
            }),
    {
        let mut paths = paths;
        let ghost before = self.candidates@;
        let ghost all = paths@;
        self.candidates.append(&mut paths);
        proof {
            assert(texts(self.candidates@) =~= texts(before) + texts(all));
        }
    }

    /// The resource compiler that was found.
    pub fn result(self) -> (r: Option<String>)
        ensures
            opt_string(r) == self@.found,
    {
        self.found
    }
}

/// How much is left of a search: the stages to come, and the places at hand.
pub open spec fn search_left(st: SearchState) -> int {
    match st.stage {
        SearchStage::Setting => 6,
        SearchStage::InPath => 5,
        SearchStage::Kits(i) => if i == 0 {
            4
        } else {
            3
        },
        SearchStage::Studio(i) => if i == 0 {
            2
        } else {
            1
        },
        SearchStage::Over => 0,
    }
}

/// Whether an event answers what the search asks for.
pub open spec fn search_answers(action: SearchAction, event: SearchEvent) -> bool {
    match action {
        SearchAction::AskSetting => event is Setting,
        SearchAction::SearchPath => event is Listed,
        SearchAction::ListKits(_) => event is Versions,
        SearchAction::ListStudio(_) => event is Found,
        SearchAction::Check => event is File,
        SearchAction::Finish => false,
    }
}

/// The search comes to an end: with every answer a stage is done, or a place at hand.
pub proof fn law_search_ends(st: SearchState, event: SearchEvent)
    requires
        search_answers(search_action(st), event),
    ensures
        ({
            let next = search_step(st, event);
            ||| search_left(next) < search_left(st)
            ||| search_left(next) == search_left(st) && next.places.len() < st.places.len()
        }),
{
}

/// The search after so many places that are no files.
pub open spec fn after_misses(st: SearchState, k: int) -> SearchState
    decreases k,
{
    if k <= 0 {
        st
    } else {
        search_step(after_misses(st, k - 1), SearchEvent::File(false))
    }
}

proof fn lemma_misses(st: SearchState, k: int)
    requires
        !(st.stage is Over),
        0 <= k <= st.places.len(),
    ensures
        after_misses(st, k) == (SearchState { places: st.places.skip(k), ..st }),
    decreases k,
{
    if k > 0 {
        lemma_misses(st, k - 1);
        assert(st.places.skip(k - 1).drop_first() =~= st.places.skip(k));
    } else {
        assert(st.places.skip(0) =~= st.places);
    }
}

/// Of the places at hand the first that is a file is what is found.
pub proof fn law_first_file_is_found(st: SearchState, k: int)
    requires
        !(st.stage is Over),
        0 <= k < st.places.len(),
    ensures
        search_step(after_misses(st, k), SearchEvent::File(true)).found == Some(st.places[k]),
        search_step(after_misses(st, k), SearchEvent::File(true)).stage is Over,
{
    lemma_misses(st, k);
}

// ---- What the resources and the search promise ----

/// The numbers of a version stand in their order between commas.
pub proof fn law_comma_version(v: Version)
    requires
        0 <= v.0,
        0 <= v.1,
        0 <= v.2,
        0 <= v.3,
    ensures
        split(comma_version(v), ',') == seq![decimal(v.0), decimal(v.1), decimal(v.2), decimal(v.3)],
{
    reveal_strlit(",");
    let comma = seq![','];
    let three = decimal(v.2) + comma + decimal(v.3);
    let two = decimal(v.1) + comma + three;
    assert(comma_version(v) =~= decimal(v.0) + comma + two);
    lemma_no_comma(v.0);
    lemma_no_comma(v.1);
    lemma_no_comma(v.2);
    lemma_no_comma(v.3);
    lemma_split_single(decimal(v.3), ',');
    lemma_split_cons(decimal(v.2), ',', decimal(v.3));
    lemma_split_cons(decimal(v.1), ',', three);
    lemma_split_cons(decimal(v.0), ',', two);
    assert(split(comma_version(v), ',') =~= seq![
        decimal(v.0),
        decimal(v.1),
        decimal(v.2),
        decimal(v.3),
    ]);
}

proof fn lemma_no_comma(n: int)
    requires
        0 <= n,
    ensures
        forall|k: int| 0 <= k < decimal(n).len() ==> decimal(n)[k] != ',',
{
    lemma_decimal_value(n);
    assert forall|k: int| 0 <= k < decimal(n).len() implies decimal(n)[k] != ',' by {
        assert(is_digit(decimal(n)[k]));
    }
}

/// The script names the icon, with slashes, and after it the version as numbers;
/// what follows the icon does not depend on it.
pub proof fn law_script_names_icon_and_version(icon: Seq<char>, v: Version)
    ensures
        ({
            let head = "\n1 ICON \""@;
            let next = "\"\n\n1 VERSIONINFO\nFILEVERSION    "@;
            let (n, k, m) = (head.len() as int, icon.len() as int, next.len() as int);
            let c = comma_version(v).len() as int;
            let s = script_text(icon, v);
            &&& s.take(n) == head
            &&& s.subrange(n, n + k) == slashed(icon)
            &&& s.subrange(n + k, n + k + m) == next
            &&& s.subrange(n + k + m, n + k + m + c) == comma_version(v)
            &&& s.skip(n + k) == script_text(Seq::empty(), v).skip(n)
        }),
{
    let head = "\n1 ICON \""@;
    let next = "\"\n\n1 VERSIONINFO\nFILEVERSION    "@;
    let (n, k, m) = (head.len() as int, icon.len() as int, next.len() as int);
    let c = comma_version(v).len() as int;
    let s = script_text(icon, v);
    assert(s.take(n) =~= head);
    assert(s.subrange(n, n + k) =~= slashed(icon));
    assert(s.subrange(n + k, n + k + m) =~= next);
    assert(s.subrange(n + k + m, n + k + m + c) =~= comma_version(v));
    assert(s.skip(n + k) =~= script_text(Seq::empty(), v).skip(n));
}

/// The kits call 32-bit Intel x86, 64-bit ARM arm64, and everything else x64.
pub proof fn law_names_of_architectures(arch: Seq<char>)
    ensures
        arch_name("x86"@) == "x86"@,
        arch_name("aarch64"@) == "arm64"@,
        arch != "x86"@ && arch != "aarch64"@ ==> arch_name(arch) == "x64"@,
{
    reveal_strlit("x86");
    reveal_strlit("aarch64");
    assert("x86"@.len() != "aarch64"@.len());
}

/// Whether a text stands somewhere in another.
pub open spec fn stands_in(s: Seq<char>, p: Seq<char>) -> bool {
    exists|k: int| 0 <= k && k + p.len() <= s.len() && #[trigger] s.subrange(k, k + p.len()) == p
}

proof fn lemma_stands_in(s: Seq<char>, p: Seq<char>)
    ensures
        find_from(s, p, 0) is Some <==> stands_in(s, p),
{
    law_search_finds_the_first(s, p, 0);
    match find_from(s, p, 0) {
        Some(k) => {
            assert(s.subrange(k, k + p.len()) == p);
        },
        None => {},
    }
}

/// A path names the architecture that stands in it: x64 before arm64, and arm64
/// before x86; one in which none stands names none.
pub proof fn law_architecture_of_a_path(lower: Seq<char>)
    ensures
        arch_in_text(lower) == Some("x64"@) <==> stands_in(lower, "x64"@),
        arch_in_text(lower) == Some("arm64"@) <==> stands_in(lower, "arm64"@) && !stands_in(
            lower,
            "x64"@,
        ),
        arch_in_text(lower) == Some("x86"@) <==> stands_in(lower, "x86"@) && !stands_in(
            lower,
            "x64"@,
        ) && !stands_in(lower, "arm64"@),
        arch_in_text(lower) is None <==> !stands_in(lower, "x64"@) && !stands_in(lower, "x86"@)
            && !stands_in(lower, "arm64"@),
{
    reveal_strlit("x64");
    reveal_strlit("x86");
    reveal_strlit("arm64");
    assert("x64"@[1] != "x86"@[1]);
    assert("x64"@.len() != "arm64"@.len());
    assert("x86"@.len() != "arm64"@.len());
    lemma_stands_in(lower, "x64"@);
    lemma_stands_in(lower, "x86"@);
    lemma_stands_in(lower, "arm64"@);
}

/// Of the paths that name an architecture the first is found, and none only if no
/// path names it.
pub proof fn law_first_of_an_architecture(paths: Seq<Seq<char>>, arch: Seq<char>, i: int)
    requires
        0 <= i <= paths.len(),
    ensures
        match first_of_arch(paths, arch, i) {
            Some(k) => {
                &&& i <= k < paths.len()
                &&& arch_in_text(lower_text(paths[k])) == Some(arch)
                &&& forall|m: int|
                    i <= m < k ==> arch_in_text(lower_text(#[trigger] paths[m])) != Some(arch)
            },
            None => forall|m: int|
                i <= m < paths.len() ==> arch_in_text(lower_text(#[trigger] paths[m])) != Some(
                    arch,
                ),
        },
    decreases paths.len() - i,
{
    if i < paths.len() && arch_in_text(lower_text(paths[i])) != Some(arch) {
        law_first_of_an_architecture(paths, arch, i + 1);
    }
}

/// The path that is chosen names the first architecture of the list that any path
/// names, and is the first that does; if none of them is named, it is the first path.
pub proof fn law_which_path_is_chosen(paths: Seq<Seq<char>>, archs: Seq<Seq<char>>, a: int)
    requires
        0 <= a <= archs.len(),
    ensures
        paths.len() == 0 ==> preferred(paths, archs, a) is None,
        paths.len() > 0 ==> preferred(paths, archs, a) is Some && 0 <= preferred(
            paths,
            archs,
            a,
        )->0 < paths.len(),
        paths.len() > 0 ==> {
            let i = preferred(paths, archs, a)->0;
            ||| i == 0 && forall|b: int, m: int|
                a <= b < archs.len() && 0 <= m < paths.len() ==> arch_in_text(
                    lower_text(#[trigger] paths[m]),
                ) != Some(#[trigger] archs[b])
            ||| exists|b: int|
                {
                    &&& a <= b < archs.len()
                    &&& arch_in_text(lower_text(paths[i])) == Some(#[trigger] archs[b])
                    &&& forall|m: int|
                        0 <= m < i ==> arch_in_text(lower_text(#[trigger] paths[m])) != Some(
                            archs[b],
                        )
                    &&& forall|c: int, m: int|
                        a <= c < b && 0 <= m < paths.len() ==> arch_in_text(
                            lower_text(#[trigger] paths[m]),
                        ) != Some(#[trigger] archs[c])
                }
        },
    decreases archs.len() - a,
{
    if a < archs.len() {
        law_first_of_an_architecture(paths, archs[a], 0);
        if first_of_arch(paths, archs[a], 0) is None {
            law_which_path_is_chosen(paths, archs, a + 1);
        } else {
            let i = preferred(paths, archs, a)->0;
            assert(arch_in_text(lower_text(paths[i])) == Some(archs[a]));
        }
    }
}

/// Of two lists of numbers the first number that differs decides which comes before;
/// a list that is the start of another comes before it.
pub proof fn law_first_number_decides(
    a: Seq<int>,
    x: int,
    b: Seq<int>,
    y: int,
    c: Seq<int>,
)
    ensures
        x != y ==> (key_before(a + seq![x] + b, a + seq![y] + c, 0) <==> x < y),
        key_before(a, a + seq![y] + c, 0),
        !key_before(a + seq![x] + b, a, 0),
        !key_before(a, a, 0),
{
    if x != y {
        lemma_key_from(a + seq![x] + b, a + seq![y] + c, 0, a.len() as int);
    }
    lemma_key_from(a, a + seq![y] + c, 0, a.len() as int);
    lemma_key_from(a + seq![x] + b, a, 0, a.len() as int);
    lemma_key_from(a, a, 0, a.len() as int);
}

proof fn lemma_key_from(a: Seq<int>, b: Seq<int>, i: int, n: int)
    requires
        0 <= i <= n,
        n <= a.len(),
        n <= b.len(),
        forall|k: int| i <= k < n ==> a[k] == b[k],
    ensures
        key_before(a, b, i) == key_before(a, b, n),
    decreases n - i,
{
    if i < n {
        lemma_key_from(a, b, i + 1, n);
    }
}

/// The places in the kits go version by version, in the given order, and in each
/// version architecture by architecture.
pub proof fn law_places_in_the_kits(
    root: Seq<char>,
    names: Seq<Seq<char>>,
    order: Seq<int>,
    i: int,
    archs: Seq<Seq<char>>,
    a: int,
)
    requires
        0 <= a < archs.len(),
    ensures
        kit_paths(root, names, Seq::empty(), archs) == Seq::<Seq<char>>::empty(),
        ({
            let before = kit_paths(root, names, order, archs);
            let all = kit_paths(root, names, order.push(i), archs);
            &&& all.len() == before.len() + archs.len()
            &&& all.take(before.len() as int) == before
            &&& all[before.len() + a] == root + "\\"@ + names[i] + "\\"@ + archs[a] + "\\rc.exe"@
        }),
{
    assert(order.push(i).drop_last() =~= order);
    let before = kit_paths(root, names, order, archs);
    let all = kit_paths(root, names, order.push(i), archs);
    assert(all.take(before.len() as int) =~= before);
}

/// The output of a search is read line by line, each line without the white space
/// around it; an empty piece after the last line feed is no line.
pub proof fn law_listed_line_by_line(line: Seq<char>, rest: Seq<char>)
    requires
        forall|k: int| 0 <= k < line.len() ==> line[k] != '\n',
    ensures
        listed_paths(Seq::empty()) == Seq::<Seq<char>>::empty(),
        line.len() > 0 ==> listed_paths(line) == seq![trim(line)],
        listed_paths(line + seq!['\n'] + rest) == seq![trim(line)] + listed_paths(rest),
{
    lemma_split_single(Seq::empty(), '\n');
    lemma_split_single(line, '\n');
    lemma_split_cons(line, '\n', rest);
    assert(listed_paths(Seq::empty()) =~= Seq::<Seq<char>>::empty());
    if line.len() > 0 {
        assert(listed_paths(line) =~= seq![trim(line)]);
    }
    let tail = split(rest, '\n');
    let all = split(line + seq!['\n'] + rest, '\n');
    assert(tail.len() >= 1);
    assert(all.last() == tail.last());
    assert(listed_paths(line + seq!['\n'] + rest) =~= seq![trim(line)] + listed_paths(rest));
}

/// The search asks in this order: the setting, the system's search, the two
/// directories of the kits, the two of Visual Studio; each only once the places that
/// came of the one before are used up.
pub proof fn law_order_of_the_search(
    arch: Seq<char>,
    setting: Option<String>,
    listed: Option<Vec<u8>>,
    names: Vec<String>,
    paths: Vec<String>,
)
    ensures
        ({
            let start = search_start(arch);
            let asked = search_step(start, SearchEvent::Setting(setting));
            let first = SearchState { places: seq![], ..asked };
            let searched = search_step(first, SearchEvent::Listed(listed));
            let second = SearchState { places: seq![], ..searched };
            let kits = search_step(second, SearchEvent::Versions(names));
            let third = SearchState { places: seq![], ..kits };
            let more = search_step(third, SearchEvent::Versions(names));
            let fourth = SearchState { places: seq![], ..more };
            let studio = search_step(fourth, SearchEvent::Found(paths));
            let end = search_step(studio, SearchEvent::Found(paths));
            &&& search_action(start) == SearchAction::AskSetting
            &&& setting is Some ==> asked.places == seq![setting->0@] && search_action(asked)
                == SearchAction::Check
            &&& setting is None ==> asked.places == Seq::<Seq<char>>::empty()
            &&& search_action(first) == SearchAction::SearchPath
            &&& listed is Some ==> searched.places == listed_paths(text_of(listed->0@))
            &&& listed is None ==> searched.places == Seq::<Seq<char>>::empty()
            &&& search_action(second) == SearchAction::ListKits(0)
            &&& search_action(third) == SearchAction::ListKits(1)
            &&& search_action(fourth) == SearchAction::ListStudio(0)
            &&& search_action(studio) == SearchAction::ListStudio(1)
            &&& search_action(end) == SearchAction::Finish
            &&& end.candidates == texts(paths@) + texts(paths@)
            &&& end.found == picked(end.candidates, arch_name(arch))
            &&& asked.found is None && searched.found is None && kits.found is None
            &&& more.found is None && studio.found is None
        }),
{
    assert(Seq::<Seq<char>>::empty() + texts(paths@) =~= texts(paths@));
}

/// A directory of the kits gives places in that directory, from the newest version
/// down, the host's own architecture first.
pub proof fn law_places_of_a_kit(st: SearchState, names: Vec<String>, i: usize)
    requires
        search_action(st) == SearchAction::ListKits(i),
    ensures
        search_step(st, SearchEvent::Versions(names)).places == kit_paths(
            if i == 0 {
                "C:\\Program Files (x86)\\Windows Kits\\10\\bin"@
            } else {
                "C:\\Program Files\\Windows Kits\\10\\bin"@
            },
            texts(names@),
            newest_order(texts(names@), names@.len() as int),
            arch_order(st.host),
        ),
{
}

/// What answers nothing that was asked for changes nothing.
pub proof fn law_unasked_is_ignored(st: SearchState, event: SearchEvent)
    requires
        !search_answers(search_action(st), event),
    ensures
        search_step(st, event) == st,
{
}

/// No name stands behind one with an older version, and of names with the same
/// version the later one stands first.
pub proof fn law_no_older_version_first(names: Seq<Seq<char>>, p: int, q: int)
    requires
        0 <= p < q < names.len(),
    ensures
        ({
            let order = newest_order(names, names.len() as int);
            let (x, y) = (key_of(names[order[p]]), key_of(names[order[q]]));
            &&& !key_before(x, y, 0)
            &&& x == y ==> order[p] > order[q]
        }),
{
    let n = names.len() as int;
    law_newest_first(names, n);
    let order = newest_order(names, n);
    assert(comes_first(names, order[p], order[q]));
    let (x, y) = (key_of(names[order[p]]), key_of(names[order[q]]));
    if key_before(x, y, 0) {
        lemma_one_before(x, y, 0);
    }
}

} // verus!
