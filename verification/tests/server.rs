use dirwatch::dirwatch::PascalString;
use dirwatch::http::HttpMethod;
use dirwatch::server::{
    apply_route, handler_step, inject_after_head, is_quit_key, is_quit_sentinel, route_request,
    runner_step, sse_message_bytes, quit_sentinel_bytes, watcher_wants_shutdown, ConnId,
    ConnState, Event, HandlerAction, Route, RunnerAction,
};

fn conn(n: u16) -> ConnId {
    ConnId { addr: 0x7f000001, port: n }
}

#[test]
fn runner_runs_only_on_file_changes() {
    let path = PascalString::new(b"/w/f");
    assert_eq!(runner_step(&Event::FileChange(path)), RunnerAction::Run);
    assert_eq!(runner_step(&Event::Quit), RunnerAction::Exit);
    assert_eq!(runner_step(&Event::Start), RunnerAction::Ignore);
    assert_eq!(runner_step(&Event::CmdFinished), RunnerAction::Ignore);
    assert_eq!(runner_step(&Event::HttpRequest(conn(1))), RunnerAction::Ignore);
}

#[test]
fn handler_reacts_only_to_its_own_connection() {
    let mine = ConnState { id: conn(1), streaming: false };
    assert_eq!(handler_step(&mine, &Event::HttpRequest(conn(1))), HandlerAction::Respond);
    assert_eq!(handler_step(&mine, &Event::HttpRequest(conn(2))), HandlerAction::Ignore);
    assert_eq!(handler_step(&mine, &Event::StreamClosed(conn(1))), HandlerAction::Exit);
    assert_eq!(handler_step(&mine, &Event::StreamClosed(conn(2))), HandlerAction::Ignore);
}

#[test]
fn handler_pushes_reloads_only_while_streaming() {
    let plain = ConnState { id: conn(1), streaming: false };
    let streaming = ConnState { id: conn(1), streaming: true };
    assert_eq!(handler_step(&plain, &Event::CmdFinished), HandlerAction::Ignore);
    assert_eq!(handler_step(&streaming, &Event::CmdFinished), HandlerAction::PushReload);
}

#[test]
fn quit_terminates_every_component() {
    let streaming = ConnState { id: conn(1), streaming: true };
    let plain = ConnState { id: conn(2), streaming: false };
    assert_eq!(handler_step(&streaming, &Event::Quit), HandlerAction::CloseWriteAndExit);
    assert_eq!(handler_step(&plain, &Event::Quit), HandlerAction::CloseWriteAndExit);
    assert_eq!(runner_step(&Event::Quit), RunnerAction::Exit);
    assert!(watcher_wants_shutdown(&Event::Quit));
    assert!(!watcher_wants_shutdown(&Event::CmdFinished));
    assert!(is_quit_sentinel(b"QUIT\r\n"));
}

#[test]
fn handler_ignores_start_sentinel() {
    let s = ConnState { id: conn(1), streaming: true };
    assert_eq!(handler_step(&s, &Event::Start), HandlerAction::Ignore);
}

#[test]
fn routing_serves_directories_files_and_the_event_stream() {
    assert_eq!(route_request(&HttpMethod::Get, b"/", true), Route::ServeIndex);
    assert_eq!(route_request(&HttpMethod::Get, b"/sse", false), Route::OpenEventStream);
    assert_eq!(route_request(&HttpMethod::Get, b"/index.html", false), Route::ServeFile);
    assert_eq!(route_request(&HttpMethod::Post, b"/index.html", false), Route::NotFound);
    assert_eq!(route_request(&HttpMethod::Get, b"/sse", true), Route::ServeIndex);
}

#[test]
fn opening_the_event_stream_is_sticky() {
    let mut s = ConnState { id: conn(1), streaming: false };
    apply_route(&mut s, &Route::ServeFile);
    assert!(!s.streaming);
    apply_route(&mut s, &Route::OpenEventStream);
    assert!(s.streaming);
    apply_route(&mut s, &Route::ServeIndex);
    assert!(s.streaming);
}

#[test]
fn push_notification_line_has_the_event_stream_form() {
    assert_eq!(sse_message_bytes(), b"data: File changed\n\n".to_vec());
}

#[test]
fn quit_sentinel_is_recognized_exactly() {
    assert_eq!(quit_sentinel_bytes(), b"QUIT\r\n".to_vec());
    assert!(is_quit_sentinel(b"QUIT\r\n"));
    assert!(!is_quit_sentinel(b"QUIT\r"));
    assert!(!is_quit_sentinel(b"GET /i"));
    assert!(!is_quit_sentinel(b""));
}

#[test]
fn quit_key_is_q_in_either_case() {
    assert!(is_quit_key(b'q'));
    assert!(is_quit_key(b'Q'));
    assert!(!is_quit_key(b'x'));
    assert!(!is_quit_key(b'\n'));
}

#[test]
fn reload_script_is_injected_after_head() {
    let mut page = b"<html><head><title>t</title></head></html>".to_vec();
    inject_after_head(&mut page, b"<script>reload</script>");
    assert_eq!(
        page,
        b"<html><head><script>reload</script><title>t</title></head></html>".to_vec()
    );
}

#[test]
fn pages_without_head_are_untouched() {
    let mut page = b"<html><body>plain</body></html>".to_vec();
    let original = page.clone();
    inject_after_head(&mut page, b"<script></script>");
    assert_eq!(page, original);
}

#[test]
fn injection_uses_the_first_head_marker() {
    let mut page = b"<head>a<head>b".to_vec();
    inject_after_head(&mut page, b"X");
    assert_eq!(page, b"<head>Xa<head>b".to_vec());
}
