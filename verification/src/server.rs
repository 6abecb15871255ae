//! Event-driven coordination: the event type the bus carries and the decision
//! steps of the components that consume it — the command runner, the
//! per-connection handler, the watcher's shutdown listener, and the keyboard
//! and sentinel-connection shutdown protocol.
//!
//! Each step function maps the component's state and one received event to
//! the action the component takes next; the unverified I/O shell runs the
//! loops, performs the actions (spawn a command, write a socket, stop
//! accepting), and feeds the next event back in.

use crate::dirwatch::PascalString;
use crate::http::HttpMethod;
use crate::http::bytes_eq;
use vstd::prelude::*;

verus! {

/// Identity of one connection: the remote peer's address and port, as plain
/// values. Bus events carry it so that every connection can share one bus and
/// react only to its own events.
#[derive(Clone, Copy, PartialEq, Eq, Structural, Debug)]
pub struct ConnId {
    /// The peer's IP address, as the integer value of its bits.
    pub addr: u128,
    /// The peer's port.
    pub port: u16,
}

/// One message on the event bus. Events are plain values, copied on every
/// send and receive.
#[derive(Clone, Copy)]
pub enum Event {
    /// The initial sentinel a channel is created with.
    Start,
    /// The watcher saw a change at this path.
    FileChange(PascalString),
    /// The command runner finished one run of the build command.
    CmdFinished,
    /// The reader of this connection parsed one request.
    HttpRequest(ConnId),
    /// The reader of this connection reached end of stream.
    StreamClosed(ConnId),
    /// Cooperative shutdown: every component terminates on observing it.
    Quit,
}

/// What the command runner does about one received event.
#[derive(Clone, Copy, PartialEq, Eq, Structural, Debug)]
pub enum RunnerAction {
    /// Run the build command, wait for it, then publish [`Event::CmdFinished`].
    Run,
    /// Terminate the runner.
    Exit,
    /// Nothing; poll again.
    Ignore,
}

/// The runner's decision for one event: only a file change starts a run, only
/// shutdown stops the runner, everything else is skipped. Because the runner
/// polls again only after a run completes, runs never overlap.
pub open spec fn runner_action(event: Event) -> RunnerAction {
    match event {
        Event::FileChange(_) => RunnerAction::Run,
        Event::Quit => RunnerAction::Exit,
        _ => RunnerAction::Ignore,
    }
}

/// Decides what the command runner does about `event`.
pub fn runner_step(event: &Event) -> (a: RunnerAction)
    ensures
        a == runner_action(*event),
{
    match event {
        Event::FileChange(_) => RunnerAction::Run,
        Event::Quit => RunnerAction::Exit,
        _ => RunnerAction::Ignore,
    }
}

/// A connection handler's state: which connection it serves and whether the
/// connection has been switched into push-notification streaming mode.
#[derive(Clone, Copy)]
pub struct ConnState {
    /// The connection this handler serves.
    pub id: ConnId,
    /// Whether the connection streams push notifications.
    pub streaming: bool,
}

/// What a connection handler does about one received event.
#[derive(Clone, Copy, PartialEq, Eq, Structural, Debug)]
pub enum HandlerAction {
    /// Build and write exactly one response to the stored request.
    Respond,
    /// Write one push-notification line to the socket.
    PushReload,
    /// Leave the handler loop; the connection is gone.
    Exit,
    /// Half-close the write side of the socket and leave the handler loop.
    CloseWriteAndExit,
    /// Nothing; the event belongs to another connection or carries no work.
    Ignore,
}

/// The handler's decision for one event: it reacts to its own connection's
/// requests and closure, to finished command runs while streaming, and to
/// shutdown; everything else — in particular other connections' events — is
/// skipped, which lets one bus multiplex every connection.
pub open spec fn handler_action(state: ConnState, event: Event) -> HandlerAction {
    match event {
        Event::CmdFinished => if state.streaming {
            HandlerAction::PushReload
        } else {
            HandlerAction::Ignore
        },
        Event::HttpRequest(id) => if id == state.id {
            HandlerAction::Respond
        } else {
            HandlerAction::Ignore
        },
        Event::StreamClosed(id) => if id == state.id {
            HandlerAction::Exit
        } else {
            HandlerAction::Ignore
        },
        Event::Quit => HandlerAction::CloseWriteAndExit,
        _ => HandlerAction::Ignore,
    }
}

/// Decides what the handler of connection `state` does about `event`.
pub fn handler_step(state: &ConnState, event: &Event) -> (a: HandlerAction)
    ensures
        a == handler_action(*state, *event),
{
    match event {
        Event::CmdFinished => {
            if state.streaming {
                HandlerAction::PushReload
            } else {
                HandlerAction::Ignore
            }
        },
        Event::HttpRequest(id) => {
            if id.addr == state.id.addr && id.port == state.id.port {
                HandlerAction::Respond
            } else {
                HandlerAction::Ignore
            }
        },
        Event::StreamClosed(id) => {
            if id.addr == state.id.addr && id.port == state.id.port {
                HandlerAction::Exit
            } else {
                HandlerAction::Ignore
            }
        },
        Event::Quit => HandlerAction::CloseWriteAndExit,
        _ => HandlerAction::Ignore,
    }
}

/// Whether the watcher's bus listener sets the shutdown flag on this event.
pub open spec fn stops_watcher(event: Event) -> bool {
    event is Quit
}

/// Decides whether the watcher's bus listener sets the shutdown flag: it does
/// exactly on the shutdown event.
pub fn watcher_wants_shutdown(event: &Event) -> (r: bool)
    ensures
        r == stops_watcher(*event),
{
    match event {
        Event::Quit => true,
        _ => false,
    }
}

/// How a response to one request is built: a directory is served its index
/// page, the push-notification endpoint switches the connection into
/// streaming mode, any other path is served as a file, and only GET requests
/// are served at all.
#[derive(Clone, Copy, PartialEq, Eq, Structural, Debug)]
pub enum Route {
    /// Serve the directory's index page, with the reload script injected.
    ServeIndex,
    /// Answer with an event-stream header and start streaming.
    OpenEventStream,
    /// Serve the file at the request path.
    ServeFile,
    /// Answer 404.
    NotFound,
}

/// The request path that opens the push-notification stream: "/sse".
pub open spec fn event_stream_path() -> Seq<u8> {
    seq![47u8, 115, 115, 101]
}

/// The routing decision for one request.
pub open spec fn route_for(method: HttpMethod, path: Seq<u8>, path_is_dir: bool) -> Route {
    if !(method is Get) {
        Route::NotFound
    } else if path_is_dir {
        Route::ServeIndex
    } else if path == event_stream_path() {
        Route::OpenEventStream
    } else {
        Route::ServeFile
    }
}

/// Decides how to answer one parsed request; `path_is_dir` reports whether
/// the path names a directory under the served root, which only the
/// filesystem knows.
pub fn route_request(method: &HttpMethod, path: &[u8], path_is_dir: bool) -> (r: Route)
    ensures
        r == route_for(*method, path@, path_is_dir),
{
    let is_get = match method {
        HttpMethod::Get => true,
        _ => false,
    };
    if !is_get {
        return Route::NotFound;
    }
    if path_is_dir {
        return Route::ServeIndex;
    }
    let sse = [47u8, 115, 115, 101];
    if bytes_eq(path, sse.as_slice()) {
        proof {
            assert(sse@ =~= event_stream_path());
        }
        return Route::OpenEventStream;
    }
    proof {
        assert(sse@ =~= event_stream_path());
    }
    Route::ServeFile
}

/// Applies a routing decision to the handler's state: opening the event
/// stream switches the connection into streaming mode, nothing ever switches
/// it back, and the connection identity never changes.
pub fn apply_route(state: &mut ConnState, route: &Route)
    ensures
        final(state).streaming == (old(state).streaming || *route is OpenEventStream),
        final(state).id == old(state).id,
{
    match route {
        Route::OpenEventStream => {
            state.streaming = true;
        },
        _ => (),
    }
}

/// The push-notification line written per finished command run:
/// "data: File changed\n\n".
pub open spec fn sse_message() -> Seq<u8> {
    seq![
        100u8,
        97,
        116,
        97,
        58,
        32,
        70,
        105,
        108,
        101,
        32,
        99,
        104,
        97,
        110,
        103,
        101,
        100,
        10,
        10,
    ]
}

/// The bytes of one push-notification message.
pub fn sse_message_bytes() -> (v: Vec<u8>)
    ensures
        v@ == sse_message(),
{
    let m = [
        100u8,
        97,
        116,
        97,
        58,
        32,
        70,
        105,
        108,
        101,
        32,
        99,
        104,
        97,
        110,
        103,
        101,
        100,
        10,
        10,
    ];
    let v = vstd::slice::slice_to_vec(m.as_slice());
    proof {
        assert(m@ =~= sse_message());
    }
    v
}

/// The byte sequence the shutdown controller writes over its throwaway
/// loopback connection: "QUIT\r\n".
pub open spec fn quit_sentinel() -> Seq<u8> {
    seq![81u8, 85, 73, 84, 13, 10]
}

/// The bytes of the shutdown sentinel.
pub fn quit_sentinel_bytes() -> (v: Vec<u8>)
    ensures
        v@ == quit_sentinel(),
{
    let m = [81u8, 85, 73, 84, 13, 10];
    let v = vstd::slice::slice_to_vec(m.as_slice());
    proof {
        assert(m@ =~= quit_sentinel());
    }
    v
}

/// Whether the first bytes of a newly accepted connection are the shutdown
/// sentinel; the accept loop stops instead of dispatching such a connection.
pub fn is_quit_sentinel(peek: &[u8]) -> (r: bool)
    ensures
        r <==> peek@ == quit_sentinel(),
{
    let m = [81u8, 85, 73, 84, 13, 10];
    let r = bytes_eq(peek, m.as_slice());
    proof {
        assert(m@ =~= quit_sentinel());
    }
    r
}

/// Whether a key press asks for shutdown: the quit key, either case.
pub fn is_quit_key(key: u8) -> (r: bool)
    ensures
        r <==> (key == 113 || key == 81),
{
    key == 113 || key == 81
}

/// Whether `needle` occurs in `hay` at position `i`.
pub open spec fn found_at(hay: Seq<u8>, needle: Seq<u8>, i: int) -> bool {
    &&& 0 <= i
    &&& i + needle.len() <= hay.len()
    &&& hay.subrange(i, i + needle.len()) == needle
}

/// The first position at or after `i` where `needle` occurs in `hay`.
pub open spec fn first_match_from(hay: Seq<u8>, needle: Seq<u8>, i: int) -> Option<int>
    decreases hay.len() - i,
{
    if i < 0 || i + needle.len() > hay.len() {
        None
    } else if found_at(hay, needle, i) {
        Some(i)
    } else if i + needle.len() == hay.len() {
        None
    } else {
        first_match_from(hay, needle, i + 1)
    }
}

/// The first position where `needle` occurs in `hay`.
pub open spec fn first_match(hay: Seq<u8>, needle: Seq<u8>) -> Option<int> {
    first_match_from(hay, needle, 0)
}

/// Finds the first occurrence of `needle` in `hay`.
fn find_marker(hay: &[u8], needle: &[u8]) -> (r: Option<usize>)
    ensures
        r matches Some(i) ==> first_match(hay@, needle@) == Some(i as int) && found_at(
            hay@,
            needle@,
            i as int,
        ),
        r is None ==> first_match(hay@, needle@) is None,
{
    let hn = hay.len();
    let nn = needle.len();
    if nn > hn {
        return None;
    }
    if nn == 0 {
        proof {
            assert(hay@.subrange(0, 0) =~= needle@);
        }
        return Some(0);
    }
    let mut i: usize = 0;
    #[verifier::loop_isolation(false)]
    while i <= hn - nn
        invariant
            i <= hn - nn + 1,
            first_match(hay@, needle@) == first_match_from(hay@, needle@, i as int),
        decreases hn - i,
    {
        let window = vstd::slice::slice_subrange(hay, i, i + nn);
        if bytes_eq(window, needle) {
            return Some(i);
        }
        i = i + 1;
    }
    None
}

/// The marker after which the reload script is injected: "<head>".
pub open spec fn head_marker() -> Seq<u8> {
    seq![60u8, 104, 101, 97, 100, 62]
}

/// Splices `payload` into a served page right after the first "<head>"
/// marker; a page without the marker is left untouched.
pub fn inject_after_head(contents: &mut Vec<u8>, payload: &[u8])
    ensures
        match first_match(old(contents)@, head_marker()) {
            Some(i) => final(contents)@ == old(contents)@.take(i + head_marker().len())
                + payload@ + old(contents)@.skip(i + head_marker().len()),
            None => *final(contents) == *old(contents),
        },
{
    let marker = [60u8, 104, 101, 97, 100, 62];
    proof {
        assert(marker@ =~= head_marker());
    }
    let n = contents.len();
    let idx = match find_marker(contents.as_slice(), marker.as_slice()) {
        Some(i) => i,
        None => {
            return ;
        },
    };
    let cut = idx + 6;
    let mut out: Vec<u8> = vstd::slice::slice_to_vec(
        vstd::slice::slice_subrange(contents.as_slice(), 0, cut),
    );
    let pn = payload.len();
    let mut j: usize = 0;
    #[verifier::loop_isolation(false)]
    while j < pn
        invariant
            j <= pn,
            out@ == contents@.take(cut as int) + payload@.take(j as int),
        decreases pn - j,
    {
        out.push(*vstd::slice::slice_index_get(payload, j));
        proof {
            assert(contents@.take(cut as int) + payload@.take(j + 1) =~= (contents@.take(
                cut as int,
            ) + payload@.take(j as int)).push(payload@[j as int]));
        }
        j = j + 1;
    }
    let mut k: usize = cut;
    #[verifier::loop_isolation(false)]
    while k < n
        invariant
            cut <= k <= n,
            out@ == contents@.take(cut as int) + payload@.take(pn as int) + contents@.subrange(
                cut as int,
                k as int,
            ),
        decreases n - k,
    {
        let b = contents[k];
        out.push(b);
        proof {
            assert(contents@.take(cut as int) + payload@.take(pn as int) + contents@.subrange(
                cut as int,
                k + 1,
            ) =~= (contents@.take(cut as int) + payload@.take(pn as int) + contents@.subrange(
                cut as int,
                k as int,
            )).push(contents@[k as int]));
        }
        k = k + 1;
    }
    proof {
        assert(payload@.take(pn as int) =~= payload@);
        assert(contents@.subrange(cut as int, n as int) =~= contents@.skip(cut as int));
    }
    *contents = out;
}

/// Law: publishing the shutdown event terminates every component. The
/// runner's step exits on it, every connection handler — streaming or not —
/// half-closes its socket and exits on it, the watcher's listener sets the
/// shutdown flag on it, and the sentinel connection's first bytes stop the
/// accept loop. The interval is bounded: by
/// [`crate::channels::lemma_catch_up_bounded`], a receiver reaches the
/// shutdown event — the newest send once producers stop — within `capacity`
/// polls.
pub proof fn lemma_quit_stops_every_component(state: ConnState)
    ensures
        runner_action(Event::Quit) is Exit,
        handler_action(state, Event::Quit) is CloseWriteAndExit,
        stops_watcher(Event::Quit),
{
}

/// Law: command runs are serialized and never overlap. The runner starts a
/// run only for a file-change event — one run per observed event, and no
/// other event starts one — and it polls for the next event only after the
/// run completed; rapid file changes that more than `capacity` newer sends
/// overwrite are never observed and so never rerun.
pub proof fn lemma_runs_are_serialized(event: Event)
    ensures
        runner_action(event) is Run <==> event is FileChange,
        runner_action(event) is Run ==> !(runner_action(event) is Exit) && !(runner_action(event)
            is Ignore),
{
}

} // verus!
