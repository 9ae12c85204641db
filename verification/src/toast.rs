//! The notice about a new version: its text, the address of the launcher's icon,
//! and the steps of registering and showing it.
use vstd::prelude::*;
use vstd::utf8::{
    decode_utf8, encode_utf8, encode_utf8_decode_utf8, is_ascii_chars, is_ascii_chars_encode_utf8,
};

use crate::release::{law_release_version_is_plain, release_version};
use crate::text::{is_digit, push_all, slashed, with_slashes};
use crate::version::version_char;
use crate::wide::{to_wide, wide};

verus! {

// ---- The text ----

/// The name by which the system knows the launcher's notices.
pub open spec fn aumid_text() -> Seq<char> {
    "NekoPawClub.DshLauncher"@
}

/// The name by which the system knows the launcher's notices.
pub fn aumid() -> (r: &'static str)
    ensures
        r@ == aumid_text(),
{
    "NekoPawClub.DshLauncher"
}

/// The notice about a version: a click on it opens the page with the releases.
pub open spec fn notice_xml(version: Seq<char>) -> Seq<char> {
    "<toast activationType=\"protocol\" launch=\"https://github.com/NekoPawClub/DshLauncher/releases\"><visual><binding template=\"ToastGeneric\"><text>DshLauncher 新版本 v"@
        + version + "</text><text>点击通知打开下载页面</text></binding></visual></toast>"@
}

/// The notice about a version, as XML.
pub fn toast_xml(version: &str) -> (r: String)
    ensures
        r@ == notice_xml(version@),
{
    let mut xml =
        "<toast activationType=\"protocol\" launch=\"https://github.com/NekoPawClub/DshLauncher/releases\"><visual><binding template=\"ToastGeneric\"><text>DshLauncher 新版本 v".to_string();
    push_all(&mut xml, version);
    push_all(&mut xml, "</text><text>点击通知打开下载页面</text></binding></visual></toast>");
    xml
}

/// Whether a character means something in XML.
pub open spec fn xml_special(c: char) -> bool {
    c == '<' || c == '>' || c == '&' || c == '"' || c == '\''
}

/// The version in a notice is safe in XML: what an answer about the latest release
/// gives as a version is made of digits and dots, and holds no character that means
/// something there.
pub proof fn law_notice_is_safe(body: Seq<char>)
    requires
        release_version(body) is Some,
    ensures
        forall|k: int|
            0 <= k < release_version(body)->0.len() ==> version_char(
                #[trigger] release_version(body)->0[k],
            ) && !xml_special(release_version(body)->0[k]),
{
    law_release_version_is_plain(body);
}

// ---- The address of a file ----

/// Bytes that stand for themselves in the address of a file.
pub open spec fn uri_safe(b: u8) -> bool {
    ||| 0x30 <= b <= 0x39
    ||| 0x41 <= b <= 0x5a
    ||| 0x61 <= b <= 0x7a
    ||| b == 0x2f
    ||| b == 0x3a
    ||| b == 0x2d
    ||| b == 0x5f
    ||| b == 0x2e
    ||| b == 0x7e
}

/// A hexadecimal digit, in upper case.
pub open spec fn hex_digit(d: int) -> char {
    if d < 10 {
        (0x30 + d) as char
    } else {
        (0x37 + d) as char
    }
}

/// A byte in the address of a file: itself, or a percent sign and two digits.
pub open spec fn uri_byte(b: u8) -> Seq<char> {
    if uri_safe(b) {
        seq![b as char]
    } else {
        seq!['%', hex_digit(b as int / 16), hex_digit(b as int % 16)]
    }
}

/// The bytes from index `i` on, in the address of a file.
pub open spec fn uri_bytes(b: Seq<u8>, i: int) -> Seq<char>
    decreases b.len() - i,
{
    if 0 <= i < b.len() {
        uri_byte(b[i]) + uri_bytes(b, i + 1)
    } else {
        Seq::empty()
    }
}

/// The address of a file: its path, with slashes, in UTF-8, with everything but
/// plain characters encoded.
pub open spec fn uri_of(path: Seq<char>) -> Seq<char> {
    "file:///"@ + uri_bytes(encode_utf8(slashed(path)), 0)
}

fn hex(d: u8) -> (r: char)
    requires
        d < 16,
    ensures
        r == hex_digit(d as int),
{
    if d < 10 {
        (0x30u8 + d) as char
    } else {
        (0x37u8 + d) as char
    }
}

/// The address of a file.
pub fn file_uri(path: &str) -> (r: String)
    ensures
        r@ == uri_of(path@),
{
    let mut out = "file:///".to_string();
    let ghost head = out@;
    let path = with_slashes(path);
    let bytes = path.as_str().as_bytes();
    let n: usize = bytes.len();
    let mut i: usize = 0;
    while i < n
        invariant
            n == bytes@.len(),
            i <= n,
            out@ + uri_bytes(bytes@, i as int) == head + uri_bytes(bytes@, 0),
        decreases n - i,
    {
        let b: u8 = bytes[i];
        let ghost before = out@;
        if (0x30 <= b && b <= 0x39) || (0x41 <= b && b <= 0x5a) || (0x61 <= b && b <= 0x7a) || b
            == 0x2f || b == 0x3a || b == 0x2d || b == 0x5f || b == 0x2e || b == 0x7e {
            out.push(b as char);
        } else {
            out.push('%');
            out.push(hex(b / 16));
            out.push(hex(b % 16));
        }
        proof {
            assert(out@ =~= before + uri_byte(b));
            assert(out@ + uri_bytes(bytes@, i + 1) =~= before + uri_bytes(bytes@, i as int));
        }
        i += 1;
    }
    proof {
        assert(out@ + uri_bytes(bytes@, i as int) =~= out@);
    }
    out
}

/// The value of a hexadecimal digit.
pub open spec fn hex_value(c: char) -> int {
    if c <= '9' {
        c as int - 0x30
    } else {
        c as int - 0x37
    }
}

/// The bytes that an address stands for, from index `i` on.
pub open spec fn uri_decoded(s: Seq<char>, i: int) -> Seq<u8>
    decreases s.len() - i,
{
    if i < 0 || i >= s.len() {
        Seq::empty()
    } else if s[i] == '%' && i + 3 <= s.len() {
        seq![(hex_value(s[i + 1]) * 16 + hex_value(s[i + 2])) as u8] + uri_decoded(s, i + 3)
    } else {
        seq![s[i] as u8] + uri_decoded(s, i + 1)
    }
}

proof fn lemma_hex(d: int)
    requires
        0 <= d < 16,
    ensures
        hex_value(hex_digit(d)) == d,
        is_digit(hex_digit(d)) || 'A' <= hex_digit(d) <= 'F',
{
}

proof fn lemma_uri_decoded(b: Seq<u8>, i: int, pre: Seq<char>)
    requires
        0 <= i <= b.len(),
    ensures
        uri_decoded(pre + uri_bytes(b, i), pre.len() as int) == b.skip(i),
    decreases b.len() - i,
{
    let s = pre + uri_bytes(b, i);
    let at = pre.len() as int;
    if i < b.len() {
        let unit = uri_byte(b[i]);
        let rest = uri_bytes(b, i + 1);
        lemma_uri_decoded(b, i + 1, pre + unit);
        assert(s =~= pre + unit + rest);
        assert(s[at] == unit[0]);
        assert(b.skip(i) =~= seq![b[i]] + b.skip(i + 1));
        if uri_safe(b[i]) {
            assert(s[at] == b[i] as char);
            assert(s[at] as u8 == b[i]);
        } else {
            lemma_hex(b[i] as int / 16);
            lemma_hex(b[i] as int % 16);
            assert(s[at + 1] == unit[1]);
            assert(s[at + 2] == unit[2]);
        }
    } else {
        assert(b.skip(i) =~= Seq::<u8>::empty());
    }
}

/// The address of a file stands for its path: decoded, it gives the path back,
/// with slashes for its backslashes.
pub proof fn law_uri_stands_for_path(path: Seq<char>)
    ensures
        decode_utf8(uri_decoded(uri_of(path), "file:///"@.len() as int)) == slashed(path),
{
    let b = encode_utf8(slashed(path));
    encode_utf8_decode_utf8(slashed(path));
    lemma_uri_decoded(b, 0, "file:///"@);
    assert(b.skip(0) =~= b);
}

/// Characters that the address of a file is written with.
pub open spec fn uri_char(c: char) -> bool {
    is_digit(c) || 'A' <= c <= 'Z' || 'a' <= c <= 'z' || c == '/' || c == ':' || c == '-' || c
        == '_' || c == '.' || c == '~' || c == '%'
}

/// The address of a file holds plain characters and percent signs only.
pub proof fn law_uri_is_plain(path: Seq<char>)
    ensures
        forall|k: int| 0 <= k < uri_of(path).len() ==> uri_char(#[trigger] uri_of(path)[k]),
{
    reveal_strlit("file:///");
    let b = encode_utf8(slashed(path));
    lemma_uri_plain(b, 0);
    let tail = uri_bytes(b, 0);
    let head = "file:///"@;
    assert forall|k: int| 0 <= k < uri_of(path).len() implies uri_char(
        #[trigger] uri_of(path)[k],
    ) by {
        if k < head.len() {
            assert(uri_of(path)[k] == head[k]);
        } else {
            assert(uri_of(path)[k] == tail[k - head.len()]);
        }
    }
}

proof fn lemma_uri_plain(b: Seq<u8>, i: int)
    requires
        0 <= i <= b.len(),
    ensures
        forall|k: int| 0 <= k < uri_bytes(b, i).len() ==> uri_char(#[trigger] uri_bytes(b, i)[k]),
    decreases b.len() - i,
{
    if i < b.len() {
        lemma_uri_plain(b, i + 1);
        let unit = uri_byte(b[i]);
        let rest = uri_bytes(b, i + 1);
        let all = uri_bytes(b, i);
        lemma_hex(b[i] as int / 16);
        lemma_hex(b[i] as int % 16);
        assert forall|k: int| 0 <= k < all.len() implies uri_char(#[trigger] all[k]) by {
            if k < unit.len() {
                assert(all[k] == unit[k]);
                assert(k == 0 || k == 1 || k == 2);
            } else {
                assert(all[k] == rest[k - unit.len()]);
            }
        }
    }
}

// ---- Registering ----

/// The key that the launcher's name is registered under, zero-terminated.
pub fn registry_key() -> (r: Vec<u16>)
    ensures
        r@ == wide("Software\\Classes\\AppUserModelId\\"@ + aumid_text()),
{
    let mut key = "Software\\Classes\\AppUserModelId\\".to_string();
    push_all(&mut key, aumid());
    to_wide(key.as_str())
}

/// A value to be written into the registry, both zero-terminated.
#[derive(Debug)]
pub struct RegistryValue {
    pub name: Vec<u16>,
    pub value: Vec<u16>,
    /// The size of the value, in bytes.
    pub size: u32,
}

/// A text value to be written into the registry.
pub fn set_reg_string(name: &str, value: &str) -> (r: RegistryValue)
    requires
        2 * wide(value@).len() <= u32::MAX,
    ensures
        r.name@ == wide(name@),
        r.value@ == wide(value@),
        r.size == 2 * wide(value@).len(),
{
    let name = to_wide(name);
    let value = to_wide(value);
    let size: u32 = value.len() as u32 * 2;
    RegistryValue { name, value, size }
}

/// What to do to register the launcher's name.
#[derive(Clone, Copy, Debug, PartialEq, Eq, Structural)]
pub enum RegisterAction {
    /// Create or open the key.
    OpenKey,
    /// Write the name that is shown.
    SetName,
    /// Write the address of the icon.
    SetIcon,
    CloseKey,
    Finish,
}

/// Why the launcher's name could not be registered.
#[derive(Clone, Copy, Debug, PartialEq, Eq, Structural)]
pub enum RegisterError {
    /// The system's error.
    System(u32),
    /// The system gave no key.
    NoKey,
}

/// How far the registering is.
#[derive(Clone, Copy, Debug, PartialEq, Eq, Structural)]
pub struct Register {
    pub action: RegisterAction,
    pub error: Option<RegisterError>,
}

/// The first error stays.
pub open spec fn first_error(before: Option<RegisterError>, status: u32) -> Option<RegisterError> {
    if before is None && status != 0 {
        Some(RegisterError::System(status))
    } else {
        before
    }
}

/// What the answer of a call leads to; `key` says whether opening gave a key.
pub open spec fn register_step(st: Register, status: u32, key: bool) -> Register {
    match st.action {
        RegisterAction::OpenKey => if status != 0 {
            Register {
                action: RegisterAction::Finish,
                error: Some(RegisterError::System(status)),
            }
        } else if !key {
            Register { action: RegisterAction::Finish, error: Some(RegisterError::NoKey) }
        } else {
            Register { action: RegisterAction::SetName, ..st }
        },
        RegisterAction::SetName => Register {
            action: RegisterAction::SetIcon,
            error: first_error(st.error, status),
        },
        RegisterAction::SetIcon => Register {
            action: RegisterAction::CloseKey,
            error: first_error(st.error, status),
        },
        RegisterAction::CloseKey => Register { action: RegisterAction::Finish, ..st },
        RegisterAction::Finish => st,
    }
}

impl Register {
    /// Before the first call.
    pub fn register_aumid() -> (r: Register)
        ensures
            r == (Register { action: RegisterAction::OpenKey, error: None }),
    {
        Register { action: RegisterAction::OpenKey, error: None }
    }

    /// Takes the answer of a call.
    pub fn step(&mut self, status: u32, key: bool)
        ensures
            *final(self) == register_step(*old(self), status, key),
    {
        match self.action {
            RegisterAction::OpenKey => {
                if status != 0 {
                    self.action = RegisterAction::Finish;
                    self.error = Some(RegisterError::System(status));
                } else if !key {
                    self.action = RegisterAction::Finish;
                    self.error = Some(RegisterError::NoKey);
                } else {
                    self.action = RegisterAction::SetName;
                }
            },
            RegisterAction::SetName => {
                self.action = RegisterAction::SetIcon;
                self.error = keep_first(self.error, status);
            },
            RegisterAction::SetIcon => {
                self.action = RegisterAction::CloseKey;
                self.error = keep_first(self.error, status);
            },
            RegisterAction::CloseKey => {
                self.action = RegisterAction::Finish;
            },
            RegisterAction::Finish => {},
        }
    }
}

fn keep_first(before: Option<RegisterError>, status: u32) -> (r: Option<RegisterError>)
    ensures
        r == first_error(before, status),
{
    match before {
        None => if status != 0 {
            Some(RegisterError::System(status))
        } else {
            None
        },
        Some(e) => Some(e),
    }
}

/// Both values are written, and the key is closed, whatever became of the first;
/// registering succeeds if and only if every call did, and else gives the error of
/// the first that did not.
pub proof fn law_registering(open: u32, key: bool, name: u32, icon: u32, close: u32)
    ensures
        ({
            let start = Register { action: RegisterAction::OpenKey, error: None };
            let opened = register_step(start, open, key);
            let named = register_step(opened, name, key);
            let drawn = register_step(named, icon, key);
            let closed = register_step(drawn, close, key);
            &&& opened.action == RegisterAction::SetName <==> open == 0 && key
            &&& open == 0 && key ==> named.action == RegisterAction::SetIcon && drawn.action
                == RegisterAction::CloseKey
            &&& closed.action == RegisterAction::Finish
            &&& closed.error == (if open != 0 {
                Some(RegisterError::System(open))
            } else if !key {
                Some(RegisterError::NoKey)
            } else if name != 0 {
                Some(RegisterError::System(name))
            } else if icon != 0 {
                Some(RegisterError::System(icon))
            } else {
                None
            })
        }),
{
}

// ---- Showing ----

/// Which step of showing a notice is under way.
#[derive(Clone, Copy, Debug, PartialEq, Eq, Structural)]
pub enum ToastStep {
    /// Find out where the launcher's executable is.
    FindExe,
    /// Register the launcher's name.
    Register,
    /// Make an XML document.
    CreateXml,
    /// Read the notice into it.
    LoadXml,
    /// Make a notice of it.
    CreateToast,
    /// Get the notifier for the launcher's name.
    CreateNotifier,
    /// Show the notice.
    Show,
    /// The notice is shown.
    Shown,
}

/// What the failure of a step is reported as.
pub open spec fn step_failed_text(step: ToastStep) -> Seq<char> {
    match step {
        ToastStep::FindExe => "获取当前 exe 路径失败："@,
        ToastStep::Register => "注册 AUMID 失败："@,
        ToastStep::CreateXml => "创建 XmlDocument 失败："@,
        ToastStep::LoadXml => "解析 toast XML 失败："@,
        ToastStep::CreateToast => "创建 ToastNotification 失败："@,
        ToastStep::CreateNotifier => "创建 ToastNotifier 失败："@,
        ToastStep::Show => "显示 toast 失败："@,
        ToastStep::Shown => ""@,
    }
}

/// The step after one that succeeded.
pub open spec fn next_toast_step(step: ToastStep) -> ToastStep {
    match step {
        ToastStep::FindExe => ToastStep::Register,
        ToastStep::Register => ToastStep::CreateXml,
        ToastStep::CreateXml => ToastStep::LoadXml,
        ToastStep::LoadXml => ToastStep::CreateToast,
        ToastStep::CreateToast => ToastStep::CreateNotifier,
        ToastStep::CreateNotifier => ToastStep::Show,
        ToastStep::Show => ToastStep::Shown,
        ToastStep::Shown => ToastStep::Shown,
    }
}

/// What the outcome of a step leads to: the next step, or the error that showing
/// the notice fails with.
pub fn show_update_toast(step: ToastStep, error: Option<&str>) -> (r: Result<ToastStep, String>)
    ensures
        match r {
            Ok(next) => error is None && next == next_toast_step(step),
            Err(e) => error is Some && e@ == step_failed_text(step) + error->0@,
        },
{
    match error {
        None => Ok(
            match step {
                ToastStep::FindExe => ToastStep::Register,
                ToastStep::Register => ToastStep::CreateXml,
                ToastStep::CreateXml => ToastStep::LoadXml,
                ToastStep::LoadXml => ToastStep::CreateToast,
                ToastStep::CreateToast => ToastStep::CreateNotifier,
                ToastStep::CreateNotifier => ToastStep::Show,
                ToastStep::Show => ToastStep::Shown,
                ToastStep::Shown => ToastStep::Shown,
            },
        ),
        Some(e) => {
            let mut text = match step {
                ToastStep::FindExe => "获取当前 exe 路径失败：".to_string(),
                ToastStep::Register => "注册 AUMID 失败：".to_string(),
                ToastStep::CreateXml => "创建 XmlDocument 失败：".to_string(),
                ToastStep::LoadXml => "解析 toast XML 失败：".to_string(),
                ToastStep::CreateToast => "创建 ToastNotification 失败：".to_string(),
                ToastStep::CreateNotifier => "创建 ToastNotifier 失败：".to_string(),
                ToastStep::Show => "显示 toast 失败：".to_string(),
                ToastStep::Shown => "".to_string(),
            };
            push_all(&mut text, e);
            Err(text)
        },
    }
}

/// A path of plain ASCII characters stands in its address as it is, with slashes for
/// its backslashes: nothing of it is encoded.
pub proof fn law_plain_path_is_kept(path: Seq<char>)
    requires
        forall|k: int|
            0 <= k < path.len() ==> {
                let c = #[trigger] path[k];
                is_digit(c) || 'A' <= c <= 'Z' || 'a' <= c <= 'z' || c == '/' || c == '\\' || c
                    == ':' || c == '-' || c == '_' || c == '.' || c == '~'
            },
    ensures
        uri_of(path) == "file:///"@ + slashed(path),
{
    let s = slashed(path);
    assert forall|k: int| 0 <= k < s.len() implies plain(#[trigger] s[k]) by {
        let c = path[k];
        assert(is_digit(c) || 'A' <= c <= 'Z' || 'a' <= c <= 'z' || c == '/' || c == '\\' || c
            == ':' || c == '-' || c == '_' || c == '.' || c == '~');
    }
    lemma_plain_bytes(s);
    lemma_plain_uri(encode_utf8(s), s, 0);
    assert(s.skip(0) =~= s);
}

/// Characters that an address writes as they are.
spec fn plain(c: char) -> bool {
    is_digit(c) || 'A' <= c <= 'Z' || 'a' <= c <= 'z' || c == '/' || c == ':' || c == '-' || c
        == '_' || c == '.' || c == '~'
}

proof fn lemma_plain_bytes(s: Seq<char>)
    requires
        forall|k: int| 0 <= k < s.len() ==> plain(#[trigger] s[k]),
    ensures
        encode_utf8(s).len() == s.len(),
        forall|k: int| 0 <= k < s.len() ==> #[trigger] encode_utf8(s)[k] as int == s[k] as int,
{
    assert(is_ascii_chars(s)) by {
        assert forall|k: int| 0 <= k < s.len() implies '\0' <= #[trigger] s[k] <= '\u{7f}' by {
            assert(plain(s[k]));
        }
    }
    is_ascii_chars_encode_utf8(s);
}

proof fn lemma_plain_uri(b: Seq<u8>, s: Seq<char>, i: int)
    requires
        0 <= i <= s.len(),
        b.len() == s.len(),
        forall|k: int| 0 <= k < s.len() ==> plain(#[trigger] s[k]),
        forall|k: int| 0 <= k < s.len() ==> #[trigger] b[k] as int == s[k] as int,
    ensures
        uri_bytes(b, i) == s.skip(i),
    decreases s.len() - i,
{
    if i < s.len() {
        lemma_plain_uri(b, s, i + 1);
        assert(plain(s[i]));
        assert(b[i] as int == s[i] as int);
        assert(uri_byte(b[i]) =~= seq![s[i]]);
        assert(seq![s[i]] + s.skip(i + 1) =~= s.skip(i));
    } else {
        assert(s.skip(i) =~= Seq::<char>::empty());
    }
}

/// Every other byte is written as a percent sign and its two hexadecimal digits, the
/// high one first.
pub proof fn law_other_bytes_are_encoded(b: u8, rest: Seq<u8>)
    requires
        !(0x30 <= b <= 0x39 || 0x41 <= b <= 0x5a || 0x61 <= b <= 0x7a),
        b != 0x2f,
        b != 0x3a,
        b != 0x2d,
        b != 0x5f,
        b != 0x2e,
        b != 0x7e,
    ensures
        uri_bytes(seq![b] + rest, 0).len() == 3 + uri_bytes(seq![b] + rest, 1).len(),
        uri_bytes(seq![b] + rest, 0)[0] == '%',
        b as int == 16 * hex_value(uri_bytes(seq![b] + rest, 0)[1]) + hex_value(
            uri_bytes(seq![b] + rest, 0)[2],
        ),
        0 <= hex_value(uri_bytes(seq![b] + rest, 0)[2]) < 16,
{
    lemma_hex(b as int / 16);
    lemma_hex(b as int % 16);
}

/// The notice names the version, and what else it holds does not depend on it.
pub proof fn law_notice_names_the_version(version: Seq<char>)
    ensures
        ({
            let head = "<toast activationType=\"protocol\" launch=\"https://github.com/NekoPawClub/DshLauncher/releases\"><visual><binding template=\"ToastGeneric\"><text>DshLauncher 新版本 v"@;
            let n = head.len() as int;
            let xml = notice_xml(version);
            &&& xml.take(n) == head
            &&& xml.subrange(n, n + version.len()) == version
            &&& xml.skip(n + version.len()) == notice_xml(Seq::empty()).skip(n)
        }),
{
    let head = "<toast activationType=\"protocol\" launch=\"https://github.com/NekoPawClub/DshLauncher/releases\"><visual><binding template=\"ToastGeneric\"><text>DshLauncher 新版本 v"@;
    let n = head.len() as int;
    let xml = notice_xml(version);
    assert(xml.take(n) =~= head);
    assert(xml.subrange(n, n + version.len()) =~= version);
    assert(xml.skip(n + version.len()) =~= notice_xml(Seq::empty()).skip(n));
}

/// A notice takes seven steps, each once and in this order, and is then shown.
pub proof fn law_steps_of_a_notice()
    ensures
        next_toast_step(ToastStep::FindExe) == ToastStep::Register,
        next_toast_step(next_toast_step(ToastStep::FindExe)) == ToastStep::CreateXml,
        next_toast_step(ToastStep::CreateXml) == ToastStep::LoadXml,
        next_toast_step(next_toast_step(ToastStep::CreateXml)) == ToastStep::CreateToast,
        next_toast_step(ToastStep::CreateToast) == ToastStep::CreateNotifier,
        next_toast_step(next_toast_step(ToastStep::CreateToast)) == ToastStep::Show,
        next_toast_step(ToastStep::Show) == ToastStep::Shown,
        next_toast_step(ToastStep::Shown) == ToastStep::Shown,
{
}

/// Hexadecimal digits are 0 to 9 and the capitals A to F.
pub proof fn law_hex_digits(d: int)
    requires
        0 <= d < 16,
    ensures
        d < 10 ==> hex_digit(d) as u32 == 48 + d,
        d >= 10 ==> hex_digit(d) as u32 == 65 + (d - 10),
{
}

} // verus!
