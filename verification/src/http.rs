//! One HTTP request, as a machine: which call of the HTTP service comes next,
//! what its outcome leads to, and what is closed at the end.
use vstd::prelude::*;

use crate::bytes::{extend, lossy_text, text_of};
use crate::text::{ascii_lower_all, has_prefix, lowered, starts_with, to_chars};
use crate::wide::{to_wide, wide};

verus! {

/// The largest body that is read: a larger one is no answer.
pub const MAX_RESPONSE_BYTES: usize = 4 * 1024 * 1024;

/// The flag for TLS 1.2 (`WINHTTP_FLAG_SECURE_PROTOCOL_TLS1_2`).
pub const TLS1_2: u32 = 0x800;

/// The flags for TLS 1.2 and TLS 1.3 together.
pub const TLS1_2_AND_1_3: u32 = 0x2800;

/// The flag of a request over TLS (`WINHTTP_FLAG_SECURE`).
pub const SECURE_REQUEST: u32 = 0x80_0000;

/// Milliseconds for finding the address, connecting, sending and receiving.
pub const RESOLVE_TIMEOUT_MS: i32 = 3000;

pub const CONNECT_TIMEOUT_MS: i32 = 5000;

pub const SEND_TIMEOUT_MS: i32 = 8000;

pub const RECEIVE_TIMEOUT_MS: i32 = 8000;

/// Whether an address asks for TLS.
pub open spec fn asks_for_tls(url: Seq<char>) -> bool {
    starts_with(ascii_lower_all(url), "https://"@)
}

/// Whether an address asks for TLS.
pub fn is_https(url: &str) -> (r: bool)
    ensures
        r == asks_for_tls(url@),
{
    let chars = to_chars(url);
    let low = lowered(chars.as_slice());
    let scheme = to_chars("https://");
    has_prefix(low.as_slice(), scheme.as_slice())
}

/// An address taken apart.
#[derive(Debug)]
pub struct CrackedUrl {
    /// The host, zero-terminated.
    pub host: Vec<u16>,
    pub port: u16,
    pub path: Vec<u16>,
    /// What follows the path: the query.
    pub extra: Vec<u16>,
}

/// What a request asks the host for: the path, or `/` if it is empty, and the
/// query, zero-terminated.
pub open spec fn object_name(path: Seq<u16>, extra: Seq<u16>) -> Seq<u16> {
    (if path.len() == 0 {
        seq![47u16]
    } else {
        path
    }) + extra + seq![0u16]
}

fn append_units(out: &mut Vec<u16>, more: &Vec<u16>)
    ensures
        final(out)@ == old(out)@ + more@,
{
    let ghost before = out@;
    let mut i: usize = 0;
    while i < more.len()
        invariant
            i <= more@.len(),
            out@ == before + more@.take(i as int),
        decreases more@.len() - i,
    {
        out.push(more[i]);
        proof {
            assert(before + more@.take(i + 1) =~= (before + more@.take(i as int)).push(
                more@[i as int],
            ));
        }
        i += 1;
    }
    proof {
        assert(more@.take(i as int) =~= more@);
    }
}

/// A handle of the HTTP service.
#[derive(Clone, Copy, Debug, PartialEq, Eq, Structural)]
pub enum HttpHandle {
    Session,
    Connection,
    Request,
}

/// Which call is under way.
#[derive(Clone, Copy, Debug, PartialEq, Eq, Structural)]
pub enum HttpPhase {
    Open,
    Protocols,
    OldProtocols,
    Crack,
    Timeouts,
    Connect,
    Request,
    Send,
    Receive,
    Status,
    Available,
    Read,
    Closing,
    Done,
}

/// The call that is to be made.
#[derive(Clone, Copy, Debug, PartialEq, Eq, Structural)]
pub enum HttpAction {
    /// Open a session through the proxy that the system is set to.
    Open,
    /// Allow these TLS versions in the session.
    SetProtocols(u32),
    /// Take the address apart.
    Crack,
    /// Set the timeouts of the session.
    SetTimeouts,
    /// Connect to the host.
    Connect,
    /// Open a request with these flags.
    OpenRequest(u32),
    Send,
    Receive,
    /// Ask for the status code.
    QueryStatus,
    /// Ask how many bytes can be read.
    QueryAvailable,
    /// Read at most this many bytes.
    Read(u32),
    Close(HttpHandle),
    /// All is closed; the result is there.
    Finish,
}

/// What a call gave.
#[derive(Debug)]
pub enum HttpEvent {
    /// It succeeded, with nothing to report.
    Succeeded,
    /// It failed.
    Failed,
    Cracked(CrackedUrl),
    Status(u32),
    Available(u32),
    Bytes(Vec<u8>),
}

/// The state of a request.
pub struct HttpState {
    pub url: Seq<char>,
    pub phase: HttpPhase,
    pub session: bool,
    pub connection: bool,
    pub request: bool,
    pub host: Seq<u16>,
    pub port: u16,
    pub path: Seq<u16>,
    pub extra: Seq<u16>,
    /// The status code, once it is known.
    pub status: Option<u32>,
    /// How many bytes are to be read next.
    pub size: u32,
    pub body: Seq<u8>,
    /// Whether the whole body was read.
    pub complete: bool,
}

/// Before the first call.
pub open spec fn fresh(url: Seq<char>) -> HttpState {
    HttpState {
        url,
        phase: HttpPhase::Open,
        session: false,
        connection: false,
        request: false,
        host: Seq::empty(),
        port: 0,
        path: Seq::empty(),
        extra: Seq::empty(),
        status: None,
        size: 0,
        body: Seq::empty(),
        complete: false,
    }
}

/// Nothing more is asked: what is open is closed.
pub open spec fn shut(st: HttpState) -> HttpState {
    HttpState {
        phase: if st.session {
            HttpPhase::Closing
        } else {
            HttpPhase::Done
        },
        ..st
    }
}

/// The innermost handle is closed.
pub open spec fn close_one(st: HttpState) -> HttpState {
    if st.request {
        HttpState { request: false, ..st }
    } else if st.connection {
        HttpState { connection: false, ..st }
    } else {
        HttpState { session: false, phase: HttpPhase::Done, ..st }
    }
}

/// Whether a status code says that the request was granted.
pub open spec fn granted(status: u32) -> bool {
    200 <= status < 300
}

/// What the outcome of a call leads to.
pub open spec fn http_step(st: HttpState, event: HttpEvent) -> HttpState {
    match (st.phase, event) {
        (HttpPhase::Open, HttpEvent::Succeeded) => HttpState {
            session: true,
            phase: if asks_for_tls(st.url) {
                HttpPhase::Protocols
            } else {
                HttpPhase::Crack
            },
            ..st
        },
        (HttpPhase::Protocols, HttpEvent::Succeeded) => HttpState { phase: HttpPhase::Crack, ..st },
        (HttpPhase::Protocols, _) => HttpState { phase: HttpPhase::OldProtocols, ..st },
        (HttpPhase::OldProtocols, HttpEvent::Succeeded) => HttpState { phase: HttpPhase::Crack, ..st },
        (HttpPhase::Crack, HttpEvent::Cracked(u)) => HttpState {
            host: u.host@,
            port: u.port,
            path: u.path@,
            extra: u.extra@,
            phase: HttpPhase::Timeouts,
            ..st
        },
        (HttpPhase::Timeouts, _) => HttpState { phase: HttpPhase::Connect, ..st },
        (HttpPhase::Connect, HttpEvent::Succeeded) => HttpState {
            connection: true,
            phase: HttpPhase::Request,
            ..st
        },
        (HttpPhase::Request, HttpEvent::Succeeded) => HttpState {
            request: true,
            phase: HttpPhase::Send,
            ..st
        },
        (HttpPhase::Send, HttpEvent::Succeeded) => HttpState { phase: HttpPhase::Receive, ..st },
        (HttpPhase::Receive, HttpEvent::Succeeded) => HttpState { phase: HttpPhase::Status, ..st },
        (HttpPhase::Status, HttpEvent::Status(code)) => {
            let st = HttpState { status: Some(code), ..st };
            if granted(code) {
                HttpState { phase: HttpPhase::Available, ..st }
            } else {
                shut(st)
            }
        },
        (HttpPhase::Available, HttpEvent::Available(size)) => if size == 0 {
            shut(HttpState { complete: true, ..st })
        } else if size <= MAX_RESPONSE_BYTES {
            HttpState { size, phase: HttpPhase::Read, ..st }
        } else {
            shut(st)
        },
        (HttpPhase::Read, HttpEvent::Bytes(more)) => if more@.len() == 0 {
            shut(HttpState { complete: true, ..st })
        } else if st.body.len() + more@.len() <= MAX_RESPONSE_BYTES {
            HttpState { body: st.body + more@, phase: HttpPhase::Available, ..st }
        } else {
            shut(st)
        },
        (HttpPhase::Closing, _) => close_one(st),
        (HttpPhase::Done, _) => st,
        _ => shut(st),
    }
}

/// The call that a state asks for.
pub open spec fn http_action(st: HttpState) -> HttpAction {
    match st.phase {
        HttpPhase::Open => HttpAction::Open,
        HttpPhase::Protocols => HttpAction::SetProtocols(TLS1_2_AND_1_3),
        HttpPhase::OldProtocols => HttpAction::SetProtocols(TLS1_2),
        HttpPhase::Crack => HttpAction::Crack,
        HttpPhase::Timeouts => HttpAction::SetTimeouts,
        HttpPhase::Connect => HttpAction::Connect,
        HttpPhase::Request => HttpAction::OpenRequest(
            if asks_for_tls(st.url) {
                SECURE_REQUEST
            } else {
                0
            },
        ),
        HttpPhase::Send => HttpAction::Send,
        HttpPhase::Receive => HttpAction::Receive,
        HttpPhase::Status => HttpAction::QueryStatus,
        HttpPhase::Available => HttpAction::QueryAvailable,
        HttpPhase::Read => HttpAction::Read(st.size),
        HttpPhase::Closing => HttpAction::Close(
            if st.request {
                HttpHandle::Request
            } else if st.connection {
                HttpHandle::Connection
            } else {
                HttpHandle::Session
            },
        ),
        HttpPhase::Done => HttpAction::Finish,
    }
}

/// What holds of a request at every moment: which handles are open in which
/// phase, that nothing is read before the request was granted, that the body is
/// no larger than the limit, and that a result is known only at the end.
pub open spec fn http_inv(st: HttpState) -> bool {
    &&& st.request ==> st.connection
    &&& st.connection ==> st.session
    &&& match st.phase {
        HttpPhase::Open => !st.session,
        HttpPhase::Protocols | HttpPhase::OldProtocols => st.session && !st.connection
            && asks_for_tls(st.url),
        HttpPhase::Crack | HttpPhase::Timeouts | HttpPhase::Connect => st.session
            && !st.connection,
        HttpPhase::Request => st.connection && !st.request,
        HttpPhase::Send | HttpPhase::Receive | HttpPhase::Status => st.request,
        HttpPhase::Available | HttpPhase::Read => st.request && st.status is Some && granted(
            st.status->0,
        ),
        HttpPhase::Closing => st.session,
        HttpPhase::Done => !st.session,
    }
    &&& st.complete ==> (st.phase == HttpPhase::Closing || st.phase == HttpPhase::Done)
        && st.status is Some && granted(st.status->0)
    &&& st.body.len() <= MAX_RESPONSE_BYTES
}

/// The result of a request that is over: the body as text if it was read whole.
pub open spec fn http_result(st: HttpState) -> Result<Seq<char>, ()> {
    if st.complete {
        Ok(text_of(st.body))
    } else {
        Err(())
    }
}

/// A request.
#[derive(Debug)]
pub struct HttpGet {
    url: String,
    phase: HttpPhase,
    session: bool,
    connection: bool,
    request: bool,
    cracked: CrackedUrl,
    status: Option<u32>,
    size: u32,
    body: Vec<u8>,
    complete: bool,
}

impl View for HttpGet {
    type V = HttpState;

    closed spec fn view(&self) -> HttpState {
        HttpState {
            url: self.url@,
            phase: self.phase,
            session: self.session,
            connection: self.connection,
            request: self.request,
            host: self.cracked.host@,
            port: self.cracked.port,
            path: self.cracked.path@,
            extra: self.cracked.extra@,
            status: self.status,
            size: self.size,
            body: self.body@,
            complete: self.complete,
        }
    }
}

/// What the service is told about who asks, zero-terminated.
pub fn user_agent() -> (r: Vec<u16>)
    ensures
        r@ == wide("DshLauncher-updater/1.0"@),
{
    to_wide("DshLauncher-updater/1.0")
}

/// The method of the request, zero-terminated.
pub fn verb() -> (r: Vec<u16>)
    ensures
        r@ == wide("GET"@),
{
    to_wide("GET")
}

impl HttpGet {
    pub closed spec fn wf(&self) -> bool {
        http_inv(self@)
    }

    /// A request that has not begun.
    pub fn http_get(url: &str) -> (r: HttpGet)
        ensures
            r.wf(),
            r@ == fresh(url@),
            http_inv(r@),
    {
        let cracked = CrackedUrl {
            host: Vec::new(),
            port: 0,
            path: Vec::new(),
            extra: Vec::new(),
        };
        HttpGet {
            url: url.to_string(),
            phase: HttpPhase::Open,
            session: false,
            connection: false,
            request: false,
            cracked,
            status: None,
            size: 0,
            body: Vec::new(),
            complete: false,
        }
    }

    /// The address, zero-terminated.
    pub fn address(&self) -> (r: Vec<u16>)
        ensures
            r@ == wide(self@.url),
    {
        to_wide(self.url.as_str())
    }

    /// The host to connect to.
    pub fn host(&self) -> (r: &Vec<u16>)
        ensures
            r@ == self@.host,
    {
        &self.cracked.host
    }

    /// The port to connect to.
    pub fn port(&self) -> (r: u16)
        ensures
            r == self@.port,
    {
        self.cracked.port
    }

    /// What the host is asked for.
    pub fn object(&self) -> (r: Vec<u16>)
        ensures
            r@ == object_name(self@.path, self@.extra),
    {
        let mut object: Vec<u16> = Vec::new();
        if self.cracked.path.len() == 0 {
            object.push(47);
        } else {
            append_units(&mut object, &self.cracked.path);
        }
        append_units(&mut object, &self.cracked.extra);
        object.push(0);
        proof {
            assert(object@ =~= object_name(self@.path, self@.extra));
        }
        object
    }

    /// The call that comes next.
    pub fn action(&self) -> (r: HttpAction)
        requires
            self.wf(),
        ensures
            r == http_action(self@),
    {
        match self.phase {
            HttpPhase::Open => HttpAction::Open,
            HttpPhase::Protocols => HttpAction::SetProtocols(TLS1_2_AND_1_3),
            HttpPhase::OldProtocols => HttpAction::SetProtocols(TLS1_2),
            HttpPhase::Crack => HttpAction::Crack,
            HttpPhase::Timeouts => HttpAction::SetTimeouts,
            HttpPhase::Connect => HttpAction::Connect,
            HttpPhase::Request => HttpAction::OpenRequest(
                if is_https(self.url.as_str()) {
                    SECURE_REQUEST
                } else {
                    0
                },
            ),
            HttpPhase::Send => HttpAction::Send,
            HttpPhase::Receive => HttpAction::Receive,
            HttpPhase::Status => HttpAction::QueryStatus,
            HttpPhase::Available => HttpAction::QueryAvailable,
            HttpPhase::Read => HttpAction::Read(self.size),
            HttpPhase::Closing => HttpAction::Close(
                if self.request {
                    HttpHandle::Request
                } else if self.connection {
                    HttpHandle::Connection
                } else {
                    HttpHandle::Session
                },
            ),
            HttpPhase::Done => HttpAction::Finish,
        }
    }

    fn shut(&mut self)
        ensures
            final(self)@ == shut(old(self)@),
    {
        self.phase = if self.session {
            HttpPhase::Closing
        } else {
            HttpPhase::Done
        };
    }

    fn close_one(&mut self)
        ensures
            final(self)@ == close_one(old(self)@),
    {
        if self.request {
            self.request = false;
        } else if self.connection {
            self.connection = false;
        } else {
            self.session = false;
            self.phase = HttpPhase::Done;
        }
    }

    /// Takes the outcome of the call.
    pub fn step(&mut self, event: HttpEvent)
        requires
            old(self).wf(),
        ensures
            final(self).wf(),
            final(self)@ == http_step(old(self)@, event),
            http_inv(final(self)@),
    {
        match (self.phase, event) {
            (HttpPhase::Open, HttpEvent::Succeeded) => {
                self.session = true;
                self.phase = if is_https(self.url.as_str()) {
                    HttpPhase::Protocols
                } else {
                    HttpPhase::Crack
                };
            },
            (HttpPhase::Protocols, HttpEvent::Succeeded) => {
                self.phase = HttpPhase::Crack;
            },
            (HttpPhase::Protocols, _) => {
                self.phase = HttpPhase::OldProtocols;
            },
            (HttpPhase::OldProtocols, HttpEvent::Succeeded) => {
                self.phase = HttpPhase::Crack;
            },
            (HttpPhase::Crack, HttpEvent::Cracked(u)) => {
                self.cracked = u;
                self.phase = HttpPhase::Timeouts;
            },
            (HttpPhase::Timeouts, _) => {
                self.phase = HttpPhase::Connect;
            },
            (HttpPhase::Connect, HttpEvent::Succeeded) => {
                self.connection = true;
                self.phase = HttpPhase::Request;
            },
            (HttpPhase::Request, HttpEvent::Succeeded) => {
                self.request = true;
                self.phase = HttpPhase::Send;
            },
            (HttpPhase::Send, HttpEvent::Succeeded) => {
                self.phase = HttpPhase::Receive;
            },
            (HttpPhase::Receive, HttpEvent::Succeeded) => {
                self.phase = HttpPhase::Status;
            },
            (HttpPhase::Status, HttpEvent::Status(code)) => {
                self.status = Some(code);
                if 200 <= code && code < 300 {
                    self.phase = HttpPhase::Available;
                } else {
                    self.shut();
                }
            },
            (HttpPhase::Available, HttpEvent::Available(size)) => {
                if size == 0 {
                    self.complete = true;
                    self.shut();
                } else if size as usize <= MAX_RESPONSE_BYTES {
                    self.size = size;
                    self.phase = HttpPhase::Read;
                } else {
                    self.shut();
                }
            },
            (HttpPhase::Read, HttpEvent::Bytes(more)) => {
                if more.len() == 0 {
                    self.complete = true;
                    self.shut();
                } else if more.len() <= MAX_RESPONSE_BYTES && self.body.len()
                    <= MAX_RESPONSE_BYTES - more.len() {
                    extend(&mut self.body, more.as_slice());
                    self.phase = HttpPhase::Available;
                } else {
                    self.shut();
                }
            },
            (HttpPhase::Closing, _) => {
                self.close_one();
            },
            (HttpPhase::Done, _) => {},
            _ => {
                self.shut();
            },
        }
    }

    /// The result, once the request is over.
    pub fn result(&self) -> (r: Result<String, ()>)
        ensures
            match r {
                Ok(text) => http_result(self@) == Ok::<Seq<char>, ()>(text@),
                Err(()) => http_result(self@) is Err,
            },
    {
        if self.complete {
            Ok(lossy_text(self.body.as_slice()))
        } else {
            Err(())
        }
    }
}

// ---- What a request promises ----

/// A run: the states that the outcomes of the calls lead through.
pub open spec fn http_run(url: Seq<char>, events: Seq<HttpEvent>) -> HttpState
    decreases events.len(),
{
    if events.len() == 0 {
        fresh(url)
    } else {
        http_step(http_run(url, events.drop_last()), events.last())
    }
}

/// What holds of a request holds after every run.
pub proof fn law_http_invariant(url: Seq<char>, events: Seq<HttpEvent>)
    ensures
        http_inv(http_run(url, events)),
        http_run(url, events).url == url,
    decreases events.len(),
{
    if events.len() > 0 {
        law_http_invariant(url, events.drop_last());
    }
}

/// When a request is over, every handle that was opened has been closed.
pub proof fn law_http_closes_everything(url: Seq<char>, events: Seq<HttpEvent>)
    requires
        http_action(http_run(url, events)) == HttpAction::Finish,
    ensures
        !http_run(url, events).session,
        !http_run(url, events).connection,
        !http_run(url, events).request,
{
    law_http_invariant(url, events);
}

/// Only an answer with a status code of success gives a text, and one that is no
/// larger than the limit.
pub proof fn law_http_only_success(url: Seq<char>, events: Seq<HttpEvent>)
    requires
        http_result(http_run(url, events)) is Ok,
    ensures
        http_run(url, events).status is Some,
        200 <= http_run(url, events).status->0 < 300,
        http_run(url, events).body.len() <= 4 * 1024 * 1024,
{
    law_http_invariant(url, events);
}

/// A failed call leads to closing and to no result. The exceptions: where TLS 1.3
/// cannot be had, TLS 1.2 alone is tried; timeouts that cannot be set stay as they
/// are.
pub proof fn law_http_failure_is_final(st: HttpState)
    requires
        http_inv(st),
        st.phase != HttpPhase::Protocols,
        st.phase != HttpPhase::Timeouts,
        st.phase != HttpPhase::Closing,
        st.phase != HttpPhase::Done,
    ensures
        ({
            let next = http_step(st, HttpEvent::Failed);
            &&& next.phase == HttpPhase::Closing || next.phase == HttpPhase::Done
            &&& http_result(next) is Err
        }),
{
}

/// Closing changes no result, closes one handle at each step, the innermost
/// first, and so ends.
pub proof fn law_http_closing_ends(st: HttpState, event: HttpEvent)
    requires
        http_inv(st),
        st.phase == HttpPhase::Closing,
    ensures
        ({
            let next = http_step(st, event);
            let open = |s: HttpState|
                (if s.session {
                    1int
                } else {
                    0
                }) + (if s.connection {
                    1int
                } else {
                    0
                }) + (if s.request {
                    1int
                } else {
                    0
                });
            &&& http_result(next) == http_result(st)
            &&& open(next) == open(st) - 1
            &&& next.phase == HttpPhase::Done <==> open(next) == 0
        }),
{
}

/// Reading ends: each piece that is kept makes the body longer, up to the limit.
pub proof fn law_http_reading_ends(st: HttpState, event: HttpEvent)
    requires
        http_inv(st),
        st.phase == HttpPhase::Read,
        http_step(st, event).phase == HttpPhase::Available,
    ensures
        st.body.len() < http_step(st, event).body.len() <= MAX_RESPONSE_BYTES,
{
}

/// A request over TLS allows TLS 1.2 and 1.3, or TLS 1.2 alone, before anything
/// is sent, and is sent with the flag for TLS; another one does neither.
pub proof fn law_http_tls(url: Seq<char>, events: Seq<HttpEvent>)
    ensures
        ({
            let st = http_run(url, events);
            &&& http_action(st) matches HttpAction::SetProtocols(flags) ==> asks_for_tls(url) && (
            flags == TLS1_2_AND_1_3 || flags == TLS1_2)
            &&& http_action(st) matches HttpAction::OpenRequest(flags) ==> flags == (if asks_for_tls(
                url,
            ) {
                SECURE_REQUEST
            } else {
                0
            })
            &&& st.phase == HttpPhase::Crack && asks_for_tls(url) ==> exists|k: int|
                0 < k <= events.len() && #[trigger] events[k - 1] == HttpEvent::Succeeded && (http_run(
                    url,
                    events.take(k - 1),
                ).phase == HttpPhase::Protocols || http_run(url, events.take(k - 1)).phase
                    == HttpPhase::OldProtocols)
        }),
    decreases events.len(),
{
    law_http_invariant(url, events);
    if events.len() > 0 {
        let n = events.len() as int;
        law_http_tls(url, events.drop_last());
        assert(events.take(n - 1) =~= events.drop_last());
        assert(events[n - 1] == events.last());
    }
}

/// An address asks for TLS exactly if its scheme is https, in capitals or not.
pub proof fn law_scheme_decides(url: Seq<char>, scheme: Seq<char>)
    requires
        scheme == "https://"@,
    ensures
        asks_for_tls(url) <==> url.len() >= 8 && forall|k: int|
            0 <= k < 8 ==> {
                ||| #[trigger] url[k] == scheme[k]
                ||| 65 <= url[k] as u32 <= 90 && url[k] as u32 + 32 == scheme[k] as u32
            },
{
    reveal_strlit("https://");
    let low = ascii_lower_all(url);
    if url.len() >= 8 {
        assert forall|k: int| 0 <= k < 8 implies (low.take(8)[k] == scheme[k] <==> {
            ||| #[trigger] url[k] == scheme[k]
            ||| 65 <= url[k] as u32 <= 90 && url[k] as u32 + 32 == scheme[k] as u32
        }) by {
            assert(low.take(8)[k] == crate::text::ascii_lower(url[k]));
        }
        if asks_for_tls(url) {
            assert forall|k: int| 0 <= k < 8 implies {
                ||| #[trigger] url[k] == scheme[k]
                ||| 65 <= url[k] as u32 <= 90 && url[k] as u32 + 32 == scheme[k] as u32
            } by {
                assert(low.take(8)[k] == scheme[k]);
            }
        } else if forall|k: int|
            0 <= k < 8 ==> {
                ||| #[trigger] url[k] == scheme[k]
                ||| 65 <= url[k] as u32 <= 90 && url[k] as u32 + 32 == scheme[k] as u32
            } {
            assert forall|k: int| 0 <= k < 8 implies low.take(8)[k] == scheme[k] by {
                let c = url[k];
                assert(c == scheme[k] || (65 <= c as u32 <= 90 && c as u32 + 32
                    == scheme[k] as u32));
            }
            assert(low.take(8) =~= scheme);
        }
    }
}

/// What a request asks the host for begins with the path, or with a slash if there
/// is none, goes on with the query, and ends with a zero.
pub proof fn law_object_name(path: Seq<u16>, extra: Seq<u16>)
    ensures
        ({
            let name = object_name(path, extra);
            let n = if path.len() == 0 {
                1int
            } else {
                path.len() as int
            };
            &&& name.len() == n + extra.len() + 1
            &&& path.len() > 0 ==> name.take(n) == path
            &&& path.len() == 0 ==> name[0] == '/' as u32
            &&& name.subrange(n, n + extra.len()) == extra
            &&& name.last() == 0
        }),
{
    let name = object_name(path, extra);
    let n = if path.len() == 0 {
        1int
    } else {
        path.len() as int
    };
    if path.len() > 0 {
        assert(name.take(n) =~= path);
    }
    assert(name.subrange(n, n + extra.len()) =~= extra);
}

/// The calls of a request over TLS, in order, as long as each succeeds; one without
/// TLS sets no protocols.
pub proof fn law_order_of_the_calls(url: Seq<char>, u: CrackedUrl, code: u32)
    ensures
        ({
            let opened = http_step(fresh(url), HttpEvent::Succeeded);
            let both = http_step(opened, HttpEvent::Succeeded);
            let old = http_step(opened, HttpEvent::Failed);
            let ready = if asks_for_tls(url) {
                both
            } else {
                opened
            };
            let cracked = http_step(ready, HttpEvent::Cracked(u));
            let timed = http_step(cracked, HttpEvent::Succeeded);
            let connected = http_step(timed, HttpEvent::Succeeded);
            let asked = http_step(connected, HttpEvent::Succeeded);
            let sent = http_step(asked, HttpEvent::Succeeded);
            let received = http_step(sent, HttpEvent::Succeeded);
            let told = http_step(received, HttpEvent::Status(code));
            &&& http_action(fresh(url)) == HttpAction::Open
            &&& asks_for_tls(url) ==> {
                &&& http_action(opened) == HttpAction::SetProtocols(0x2800)
                &&& http_action(old) == HttpAction::SetProtocols(0x800)
                &&& http_step(old, HttpEvent::Succeeded) == both
            }
            &&& http_action(ready) == HttpAction::Crack
            &&& http_action(cracked) == HttpAction::SetTimeouts
            &&& http_action(timed) == HttpAction::Connect
            &&& http_step(cracked, HttpEvent::Failed) == timed
            &&& http_action(connected) == HttpAction::OpenRequest(
                if asks_for_tls(url) {
                    0x80_0000
                } else {
                    0
                },
            )
            &&& http_action(asked) == HttpAction::Send
            &&& http_action(sent) == HttpAction::Receive
            &&& http_action(received) == HttpAction::QueryStatus
            &&& 200 <= code <= 299 ==> http_action(told) == HttpAction::QueryAvailable
            &&& !(200 <= code <= 299) ==> http_action(told) == HttpAction::Close(
                HttpHandle::Request,
            ) && http_result(told) is Err
            &&& told.host == u.host@ && told.port == u.port
            &&& told.path == u.path@ && told.extra == u.extra@
            &&& told.body == Seq::<u8>::empty()
        }),
{
}

/// The body is what was read, piece after piece, until nothing is left: then it is
/// the answer. A piece that would make it larger than four mebibytes ends the
/// request without an answer, as does one that is announced as larger.
pub proof fn law_body_is_what_was_read(st: HttpState, size: u32, more: Vec<u8>)
    requires
        http_inv(st),
        http_action(st) == HttpAction::QueryAvailable,
    ensures
        ({
            let available = http_step(st, HttpEvent::Available(size));
            let read = http_step(available, HttpEvent::Bytes(more));
            &&& size == 0 ==> http_result(available) == Ok::<Seq<char>, ()>(text_of(st.body))
                && http_action(available) == HttpAction::Close(HttpHandle::Request)
            &&& size > 4_194_304 ==> http_result(available) is Err && http_action(available)
                == HttpAction::Close(HttpHandle::Request)
            &&& 0 < size <= 4_194_304 ==> {
                &&& http_action(available) == HttpAction::Read(size)
                &&& more@.len() == 0 ==> http_result(read) == Ok::<Seq<char>, ()>(text_of(st.body))
                    && http_action(read) == HttpAction::Close(HttpHandle::Request)
                &&& 0 < more@.len() && st.body.len() + more@.len() <= 4_194_304 ==> read.body
                    == st.body + more@ && http_action(read) == HttpAction::QueryAvailable
                &&& st.body.len() + more@.len() > 4_194_304 && more@.len() > 0 ==> http_result(
                    read,
                ) is Err && http_action(read) == HttpAction::Close(HttpHandle::Request)
            }
        }),
{
}

/// What is open is closed from the inside: the request, the connection, the session;
/// then the request is over, and nothing changes any more.
pub proof fn law_closing_order(st: HttpState, event: HttpEvent)
    requires
        http_inv(st),
        http_action(st) is Close,
    ensures
        ({
            let next = http_step(st, event);
            &&& http_action(st) == HttpAction::Close(HttpHandle::Request) <==> st.request
            &&& http_action(st) == HttpAction::Close(HttpHandle::Connection) <==> !st.request
                && st.connection
            &&& http_action(st) == HttpAction::Close(HttpHandle::Session) ==> http_action(next)
                == HttpAction::Finish && http_step(next, event) == next
            &&& http_action(st) == HttpAction::Close(HttpHandle::Connection) ==> http_action(next)
                == HttpAction::Close(HttpHandle::Session)
            &&& http_action(st) == HttpAction::Close(HttpHandle::Request) ==> http_action(next)
                == HttpAction::Close(HttpHandle::Connection)
        }),
{
}

/// A session that cannot be opened ends the request at once, with nothing to close.
pub proof fn law_no_session(url: Seq<char>)
    ensures
        http_action(http_step(fresh(url), HttpEvent::Failed)) == HttpAction::Finish,
        http_result(http_step(fresh(url), HttpEvent::Failed)) is Err,
{
}

/// Before the first call nothing is open, known or read.
pub proof fn law_request_begins_afresh(url: Seq<char>)
    ensures
        ({
            let st = fresh(url);
            &&& st.url == url && st.phase == HttpPhase::Open
            &&& !st.session && !st.connection && !st.request && !st.complete
            &&& st.host == Seq::<u16>::empty() && st.path == Seq::<u16>::empty()
            &&& st.extra == Seq::<u16>::empty() && st.body == Seq::<u8>::empty()
            &&& st.port == 0 && st.size == 0 && st.status is None
        }),
{
}

} // verus!
