use dsh_launcher::http::{
    is_https, user_agent, verb, CrackedUrl, HttpAction, HttpEvent, HttpGet, HttpHandle,
    CONNECT_TIMEOUT_MS, MAX_RESPONSE_BYTES, RECEIVE_TIMEOUT_MS, RESOLVE_TIMEOUT_MS, SECURE_REQUEST,
    SEND_TIMEOUT_MS, TLS1_2, TLS1_2_AND_1_3,
};
use dsh_launcher::wide::to_wide;
use windows_sys::Win32::Networking::WinHttp::{
    WINHTTP_FLAG_SECURE, WINHTTP_FLAG_SECURE_PROTOCOL_TLS1_2,
    WINHTTP_FLAG_SECURE_PROTOCOL_TLS1_3,
};

fn cracked(path: &str, extra: &str) -> HttpEvent {
    HttpEvent::Cracked(CrackedUrl {
        host: to_wide("h"),
        port: 443,
        path: path.encode_utf16().collect(),
        extra: extra.encode_utf16().collect(),
    })
}

/// A request that is about to ask for the status code.
fn sent() -> HttpGet {
    let mut get = HttpGet::http_get("HTTPS://h/p?q");
    for event in [
        HttpEvent::Succeeded,
        HttpEvent::Succeeded,
        cracked("/p", "?q"),
        HttpEvent::Succeeded,
        HttpEvent::Succeeded,
        HttpEvent::Succeeded,
        HttpEvent::Succeeded,
        HttpEvent::Succeeded,
    ] {
        get.step(event);
    }
    assert_eq!(get.action(), HttpAction::QueryStatus);
    get
}

fn close_all(get: &mut HttpGet) {
    assert_eq!(get.action(), HttpAction::Close(HttpHandle::Request));
    get.step(HttpEvent::Succeeded);
    assert_eq!(get.action(), HttpAction::Close(HttpHandle::Connection));
    get.step(HttpEvent::Failed);
    assert_eq!(get.action(), HttpAction::Close(HttpHandle::Session));
    get.step(HttpEvent::Succeeded);
    assert_eq!(get.action(), HttpAction::Finish);
}

#[test]
fn request_over_tls() {
    let mut get = HttpGet::http_get("HTTPS://h/p?q");
    assert_eq!(get.action(), HttpAction::Open);
    assert_eq!(get.address(), to_wide("HTTPS://h/p?q"));
    get.step(HttpEvent::Succeeded);
    assert_eq!(get.action(), HttpAction::SetProtocols(TLS1_2_AND_1_3));
    get.step(HttpEvent::Failed);
    assert_eq!(get.action(), HttpAction::SetProtocols(TLS1_2));
    get.step(HttpEvent::Succeeded);
    assert_eq!(get.action(), HttpAction::Crack);
    get.step(cracked("/p", "?q"));
    assert_eq!(get.action(), HttpAction::SetTimeouts);
    get.step(HttpEvent::Failed);
    assert_eq!(get.action(), HttpAction::Connect);
    assert_eq!(get.host(), &to_wide("h"));
    assert_eq!(get.port(), 443);
    get.step(HttpEvent::Succeeded);
    assert_eq!(get.action(), HttpAction::OpenRequest(SECURE_REQUEST));
    assert_eq!(get.object(), to_wide("/p?q"));
    get.step(HttpEvent::Succeeded);
    assert_eq!(get.action(), HttpAction::Send);
    get.step(HttpEvent::Succeeded);
    assert_eq!(get.action(), HttpAction::Receive);
    get.step(HttpEvent::Succeeded);
    assert_eq!(get.action(), HttpAction::QueryStatus);
    get.step(HttpEvent::Status(200));
    assert_eq!(get.action(), HttpAction::QueryAvailable);
    get.step(HttpEvent::Available(3));
    assert_eq!(get.action(), HttpAction::Read(3));
    get.step(HttpEvent::Bytes(b"a\xe4\xb8".to_vec()));
    get.step(HttpEvent::Available(1));
    get.step(HttpEvent::Bytes(b"\xad".to_vec()));
    get.step(HttpEvent::Available(0));
    close_all(&mut get);
    assert_eq!(get.result(), Ok("a中".to_string()));
}

#[test]
fn request_without_tls() {
    let mut get = HttpGet::http_get("http://h");
    get.step(HttpEvent::Succeeded);
    assert_eq!(get.action(), HttpAction::Crack);
    get.step(cracked("", ""));
    get.step(HttpEvent::Succeeded);
    get.step(HttpEvent::Succeeded);
    assert_eq!(get.action(), HttpAction::OpenRequest(0));
    assert_eq!(get.object(), to_wide("/"));
    assert!(!is_https("http://h"));
    assert!(is_https("hTTps://h"));
}

#[test]
fn status_decides() {
    for (code, ok) in [(199, false), (200, true), (299, true), (300, false), (404, false)] {
        let mut get = sent();
        get.step(HttpEvent::Status(code));
        if ok {
            assert_eq!(get.action(), HttpAction::QueryAvailable);
        } else {
            close_all(&mut get);
            assert_eq!(get.result(), Err(()));
        }
    }
    let mut get = sent();
    get.step(HttpEvent::Failed);
    close_all(&mut get);
    assert_eq!(get.result(), Err(()));
}

#[test]
fn early_failures_close_what_is_open() {
    let mut get = HttpGet::http_get("https://h");
    get.step(HttpEvent::Failed);
    assert_eq!(get.action(), HttpAction::Finish);
    assert_eq!(get.result(), Err(()));

    let mut get = HttpGet::http_get("https://h");
    get.step(HttpEvent::Succeeded);
    get.step(HttpEvent::Failed);
    get.step(HttpEvent::Failed);
    assert_eq!(get.action(), HttpAction::Close(HttpHandle::Session));
    get.step(HttpEvent::Succeeded);
    assert_eq!(get.action(), HttpAction::Finish);

    let mut get = HttpGet::http_get("http://h");
    get.step(HttpEvent::Succeeded);
    get.step(cracked("", ""));
    get.step(HttpEvent::Succeeded);
    get.step(HttpEvent::Succeeded);
    get.step(HttpEvent::Failed);
    assert_eq!(get.action(), HttpAction::Close(HttpHandle::Connection));
}

#[test]
fn body_failures_give_no_text() {
    let mut get = sent();
    get.step(HttpEvent::Status(200));
    get.step(HttpEvent::Failed);
    close_all(&mut get);
    assert_eq!(get.result(), Err(()));

    let mut get = sent();
    get.step(HttpEvent::Status(200));
    get.step(HttpEvent::Available(4));
    get.step(HttpEvent::Bytes(b"abcd".to_vec()));
    get.step(HttpEvent::Available(4));
    get.step(HttpEvent::Failed);
    close_all(&mut get);
    assert_eq!(get.result(), Err(()));
}

#[test]
fn body_is_bounded() {
    let max = MAX_RESPONSE_BYTES;
    let mut get = sent();
    get.step(HttpEvent::Status(200));
    get.step(HttpEvent::Available(max as u32 + 1));
    close_all(&mut get);
    assert_eq!(get.result(), Err(()));

    let mut get = sent();
    get.step(HttpEvent::Status(200));
    get.step(HttpEvent::Available(max as u32));
    get.step(HttpEvent::Bytes(vec![b'x'; max]));
    assert_eq!(get.action(), HttpAction::QueryAvailable);
    get.step(HttpEvent::Available(1));
    get.step(HttpEvent::Bytes(vec![b'x']));
    close_all(&mut get);
    assert_eq!(get.result(), Err(()));

    let mut get = sent();
    get.step(HttpEvent::Status(200));
    get.step(HttpEvent::Available(1));
    get.step(HttpEvent::Bytes(vec![]));
    close_all(&mut get);
    assert_eq!(get.result(), Ok(String::new()));
}

#[test]
fn numbers_of_the_http_service() {
    assert_eq!(TLS1_2, WINHTTP_FLAG_SECURE_PROTOCOL_TLS1_2);
    assert_eq!(
        TLS1_2_AND_1_3,
        WINHTTP_FLAG_SECURE_PROTOCOL_TLS1_2 | WINHTTP_FLAG_SECURE_PROTOCOL_TLS1_3
    );
    assert_eq!(SECURE_REQUEST, WINHTTP_FLAG_SECURE);
    assert_eq!(user_agent(), to_wide("DshLauncher-updater/1.0"));
    assert_eq!(verb(), to_wide("GET"));
    assert_eq!(
        (RESOLVE_TIMEOUT_MS, CONNECT_TIMEOUT_MS, SEND_TIMEOUT_MS, RECEIVE_TIMEOUT_MS),
        (3000, 5000, 8000, 8000)
    );
}
