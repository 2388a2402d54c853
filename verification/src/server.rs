//! The server's dispatch: every request gets exactly one response, whether
//! it is a filesystem request, a transfer request or bytes that hold no
//! request at all.
//!
//! On the stream transport the session is the connection's own. On the
//! datagram transport it is looked up in the session store by the identity
//! of the sender, and created on the first request.

use crate::action::{
    Outcome, OutcomeView, Pending, PendingView, Reply, ReplyView, Step, StepView, Transport,
};
use crate::handler::{
    error_response, failure_response, finish_fs_request, finished_fs, handle_fs_request, plain,
    planned_fs,
};
use crate::message::{Request, RequestView, Response, ResponseView};
use crate::request_codec::{decode_request, parse_request};
use crate::response_codec::{encode_response, response_bytes};
use crate::session::{
    is_idle, names, session_for, swept, Session, SessionStore, SessionView, IDLE_THRESHOLD_SECS,
};
use crate::transfer::{finish_transfer, finished_transfer, plan_transfer, planned_transfer};
use crate::wire::DecodeFailure;
use vstd::prelude::*;

verus! {

/// Largest datagram that the transport can carry.
pub const MAX_PACKET_SIZE: usize = 65507;

/// Largest encoded response that is sent in a datagram.
pub const MAX_PAYLOAD_SIZE: usize = 65000;

/// Whether a request is one of the filesystem handler's.
pub open spec fn is_fs_request(r: RequestView) -> bool {
    r is Dir || r is CdUp || r is Cd || r is Mkdir || r is Copy
}

/// Whether a pending request is one of the filesystem handler's.
pub open spec fn is_fs_pending(p: PendingView) -> bool {
    p is List || p is Cd || p is Mkdir || p is Copy
}

/// The first half of serving a request: the session afterwards, and the
/// answer or the action to carry out.
pub open spec fn planned(s: SessionView, transport: Transport, r: RequestView) -> (
    SessionView,
    StepView,
) {
    if is_fs_request(r) {
        planned_fs(s, r)
    } else {
        planned_transfer(s, transport, r)
    }
}

/// The second half of serving a request: the session afterwards, and the
/// reply.
pub open spec fn finished(s: SessionView, transport: Transport, p: PendingView, o: OutcomeView) -> (
    SessionView,
    ReplyView,
) {
    if is_fs_pending(p) {
        (finished_fs(s, p, o).0, plain(finished_fs(s, p, o).1))
    } else {
        finished_transfer(s, transport, p, o)
    }
}

/// The first half of serving a request on either transport.
pub fn plan_request(session: &mut Session, transport: Transport, request: Request) -> (step: Step)
    ensures
        (final(session)@, step@) == planned(old(session)@, transport, request@),
{
    match request {
        Request::Dir | Request::CdUp | Request::Cd { .. } | Request::Mkdir { .. } | Request::Copy {
            ..
        } => handle_fs_request(session, request),
        _ => plan_transfer(session, transport, request),
    }
}

/// The second half of serving a request on either transport.
pub fn finish_request(
    session: &mut Session,
    transport: Transport,
    pending: Pending,
    outcome: Outcome,
) -> (reply: Reply)
    ensures
        (final(session)@, reply@) == finished(old(session)@, transport, pending@, outcome@),
{
    match pending {
        Pending::List | Pending::Cd { .. } | Pending::Mkdir | Pending::Copy => {
            let response = finish_fs_request(session, pending, outcome);
            Reply { response, followup: crate::action::Followup::Nothing }
        },
        _ => finish_transfer(session, transport, pending, outcome),
    }
}

/// What is wrong with bytes that hold no message, in words.
pub open spec fn decode_error_text(e: DecodeFailure) -> Seq<char> {
    match e {
        DecodeFailure::UnexpectedEnd => "unexpected end of input"@,
        DecodeFailure::InvalidInteger => "invalid integer encoding"@,
        DecodeFailure::InvalidBoolean => "invalid boolean value"@,
        DecodeFailure::InvalidUtf8 => "invalid UTF-8 in string"@,
        DecodeFailure::LengthOutOfRange => "length out of range"@,
        DecodeFailure::UnexpectedVariant => "unexpected variant"@,
    }
}

/// What is wrong with bytes that hold no message, in words.
pub fn describe_decode_error(e: DecodeFailure) -> (text: String)
    ensures
        text@ == decode_error_text(e),
{
    match e {
        DecodeFailure::UnexpectedEnd => "unexpected end of input".to_owned(),
        DecodeFailure::InvalidInteger => "invalid integer encoding".to_owned(),
        DecodeFailure::InvalidBoolean => "invalid boolean value".to_owned(),
        DecodeFailure::InvalidUtf8 => "invalid UTF-8 in string".to_owned(),
        DecodeFailure::LengthOutOfRange => "length out of range".to_owned(),
        DecodeFailure::UnexpectedVariant => "unexpected variant".to_owned(),
    }
}

/// The response to bytes that hold no request.
pub open spec fn invalid_request(e: DecodeFailure) -> ResponseView {
    ResponseView::Error("Invalid request: "@ + decode_error_text(e))
}

/// A session with its last activity set to `now`.
pub open spec fn touched(s: SessionView, now: u64) -> SessionView {
    SessionView { last_activity: now, ..s }
}

/// What a datagram from `client` at time `now` comes to: the sessions
/// afterwards, and the answer or the action to carry out. Bytes that hold no
/// request are answered without touching any session. A request meets the
/// session of its sender, or a new one, and marks it as active.
pub open spec fn datagram_planned(
    sessions: Map<Seq<char>, SessionView>,
    root: Seq<Seq<u8>>,
    client: Seq<char>,
    now: u64,
    datagram: Seq<u8>,
) -> (Map<Seq<char>, SessionView>, StepView) {
    match parse_request(datagram) {
        Err(e) => (sessions, StepView::Reply(invalid_request(e))),
        Ok((request, _)) => {
            let met = touched(session_for(sessions, client, root, now), now);
            let (after, step) = planned(met, Transport::Datagram, request);
            (sessions.insert(client, after), step)
        },
    }
}

/// What the outcome of an action for `client` comes to: the sessions
/// afterwards, and the reply.
pub open spec fn datagram_finished(
    sessions: Map<Seq<char>, SessionView>,
    root: Seq<Seq<u8>>,
    client: Seq<char>,
    now: u64,
    p: PendingView,
    o: OutcomeView,
) -> (Map<Seq<char>, SessionView>, ReplyView) {
    let met = session_for(sessions, client, root, now);
    let (after, reply) = finished(met, Transport::Datagram, p, o);
    (sessions.insert(client, after), reply)
}

/// The first half of serving a datagram: decodes it and, where it holds a
/// request, plans that request in the session of its sender.
pub fn receive_datagram(store: &mut SessionStore, client: &str, now: u64, datagram: &[u8]) -> (step:
    Step)
    requires
        old(store).wf(),
    ensures
        final(store).wf(),
        final(store).root_view() == old(store).root_view(),
        (final(store)@, step@) == datagram_planned(
            old(store)@,
            old(store).root_view(),
            client@,
            now,
            datagram@,
        ),
{
    match decode_request(datagram) {
        Err(e) => {
            let text = describe_decode_error(e);
            Step::Reply(failure_response("Invalid request: ", &text))
        },
        Ok((request, _)) => {
            let session = store.get_or_create(client, now);
            session.touch(now);
            plan_request(session, Transport::Datagram, request)
        },
    }
}

/// One turn of the datagram server's loop, for a datagram that arrived from
/// `client` at time `now`: first every session that has been idle for
/// longer than the threshold by then is evicted, then the datagram is
/// served as `receive_datagram` serves it.
/// Gives the clients whose sessions were evicted, for the host to close
/// their files, and the answer or the action to carry out.
pub fn accept_datagram(store: &mut SessionStore, client: &str, now: u64, datagram: &[u8]) -> (res: (
    Vec<String>,
    Step,
))
    requires
        old(store).wf(),
    ensures
        final(store).wf(),
        final(store).root_view() == old(store).root_view(),
        (final(store)@, res.1@) == datagram_planned(
            swept(old(store)@, now, IDLE_THRESHOLD_SECS),
            old(store).root_view(),
            client@,
            now,
            datagram@,
        ),
        forall|c: Seq<char>|
            names(res.0@).contains(c) <==> old(store)@.contains_key(c) && is_idle(
                old(store)@[c].last_activity,
                now,
                IDLE_THRESHOLD_SECS,
            ),
        names(res.0@).no_duplicates(),
{
    let evicted = store.sweep(now, IDLE_THRESHOLD_SECS);
    let step = receive_datagram(store, client, now, datagram);
    (evicted, step)
}

/// The second half of serving a datagram: turns the outcome of the action
/// into the reply, in the session of the sender.
pub fn complete_datagram(
    store: &mut SessionStore,
    client: &str,
    now: u64,
    pending: Pending,
    outcome: Outcome,
) -> (reply: Reply)
    requires
        old(store).wf(),
    ensures
        final(store).wf(),
        final(store).root_view() == old(store).root_view(),
        (final(store)@, reply@) == datagram_finished(
            old(store)@,
            old(store).root_view(),
            client@,
            now,
            pending@,
            outcome@,
        ),
{
    let session = store.get_or_create(client, now);
    finish_request(session, Transport::Datagram, pending, outcome)
}

/// The response that takes the place of one too large for a datagram.
pub open spec fn too_large() -> ResponseView {
    ResponseView::Error("Response too large for UDP"@)
}

/// The payload that carries a response in a datagram: its encoding, or
/// where that is longer than `MAX_PAYLOAD_SIZE` the encoding of an error in
/// its place.
pub open spec fn datagram_payload(response: ResponseView) -> Seq<u8> {
    if response_bytes(response).len() > MAX_PAYLOAD_SIZE {
        response_bytes(too_large())
    } else {
        response_bytes(response)
    }
}

/// Encodes a response for a datagram. The payload never exceeds
/// `MAX_PAYLOAD_SIZE`.
pub fn fit_datagram(response: &Response) -> (payload: Vec<u8>)
    ensures
        payload@ == datagram_payload(response@),
        payload@.len() <= MAX_PAYLOAD_SIZE,
{
    let payload = encode_response(response);
    if payload.len() > MAX_PAYLOAD_SIZE {
        let substitute = error_response("Response too large for UDP");
        let short = encode_response(&substitute);
        proof {
            lemma_too_large_fits();
        }
        short
    } else {
        payload
    }
}

/// The error that takes the place of a response too large for a datagram is
/// 28 bytes long.
pub proof fn lemma_too_large_fits()
    ensures
        response_bytes(too_large()).len() == 28,
{
    let text = "Response too large for UDP"@;
    reveal_strlit("Response too large for UDP");
    assert(text.len() == 26);
    assert(vstd::utf8::is_ascii_chars(text));
    vstd::utf8::is_ascii_chars_encode_utf8(text);
    crate::wire::lemma_varint_len(26);
    crate::wire::lemma_varint_len(4);
}

/// A chunk that arrives after the session of its sender was evicted finds
/// no transfer to belong to: it meets a new session at the root and is
/// refused, so the loss of the transfer shows at the client.
pub proof fn lemma_chunk_after_eviction(
    sessions: Map<Seq<char>, SessionView>,
    root: Seq<Seq<u8>>,
    client: Seq<char>,
    sweep_time: u64,
    threshold: u64,
    now: u64,
    datagram: Seq<u8>,
)
    requires
        sessions.contains_key(client),
        is_idle(sessions[client].last_activity, sweep_time, threshold),
        parse_request(datagram) matches Ok(p) && (p.0 is UploadChunk || p.0 is DownloadChunk),
    ensures
        ({
            let left = swept(sessions, sweep_time, threshold);
            let served = datagram_planned(left, root, client, now, datagram);
            &&& !left.contains_key(client)
            &&& served.0 == left.insert(client, crate::session::fresh_session(root, now))
            &&& parse_request(datagram)->Ok_0.0 is UploadChunk ==> served.1 == StepView::Reply(
                ResponseView::Error("No active upload session"@),
            )
            &&& parse_request(datagram)->Ok_0.0 is DownloadChunk ==> served.1 == StepView::Reply(
                ResponseView::Error("No active download session"@),
            )
        }),
{
}

/// Serving a request never moves a session out of the sandbox, and never
/// changes the root of the sandbox.
pub proof fn lemma_session_stays_within(
    s: SessionView,
    transport: Transport,
    r: RequestView,
    p: PendingView,
    o: OutcomeView,
)
    requires
        s.root.is_prefix_of(s.current_directory),
    ensures
        planned(s, transport, r).0.root == s.root,
        planned(s, transport, r).0.root.is_prefix_of(planned(s, transport, r).0.current_directory),
        finished(s, transport, p, o).0.root == s.root,
        finished(s, transport, p, o).0.root.is_prefix_of(
            finished(s, transport, p, o).0.current_directory,
        ),
{
    crate::handler::lemma_directory_stays_within(s, r, p, o);
}

/// A request that is answered with an error leaves the current directory
/// as it was.
pub proof fn lemma_error_keeps_directory(
    s: SessionView,
    transport: Transport,
    r: RequestView,
    p: PendingView,
    o: OutcomeView,
)
    ensures
        planned(s, transport, r).1 matches StepView::Reply(ResponseView::Error(_)) ==> planned(
            s,
            transport,
            r,
        ).0 == s,
        finished(s, transport, p, o).1.response is Error ==> finished(
            s,
            transport,
            p,
            o,
        ).0.current_directory == s.current_directory,
{
    crate::handler::lemma_failure_changes_nothing(s, r, p, o);
}

} // verus!
