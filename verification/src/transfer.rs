//! The transfer engine on the server: uploads and downloads, streamed raw on
//! the stream transport and moved in acknowledged chunks on the datagram
//! transport.
//!
//! On the datagram transport the session keeps what has been announced: an
//! upload is open from its announcement to its last chunk, a download from
//! its request to the first chunk that is shorter than a full one. The
//! position in the file is the host's: chunk numbers are echoed, not checked.

use crate::action::{
    Action, ActionView, Followup, Outcome, OutcomeView, Pending, PendingView, Reply, ReplyView,
    Step, StepView, Transport,
};
use crate::handler::{error_response, failure_response, plain, unexpected_outcome};
use crate::message::{Request, RequestView, Response, ResponseView};
use crate::sandbox::{
    dot, file_name, final_name, join_text, joined, render, segments,
};
use crate::session::{
    DownloadState, DownloadView, Session, SessionView, UploadState, UploadView,
};
use crate::wire::utf8_to_string;
use vstd::prelude::*;
use vstd::utf8::{decode_utf8, encode_utf8, valid_utf8};

verus! {

/// Bytes in a full chunk of the datagram transport.
pub const CHUNK_SIZE: usize = 8192;

/// The text of the file that an upload is to create: `file_name` under the
/// current directory where `dst_path` is empty or `.`, else under `dst_path`
/// as seen from the current directory.
pub open spec fn upload_target(dir: Seq<u8>, dst_path: Seq<char>, file_name: Seq<char>) -> Seq<u8> {
    if encode_utf8(dst_path).len() == 0 || encode_utf8(dst_path) == dot() {
        joined(dir, encode_utf8(file_name))
    } else {
        joined(joined(dir, encode_utf8(dst_path)), encode_utf8(file_name))
    }
}

/// The name under which a file is announced to the client: the name that its
/// path ends in, or `file` where the path ends in none or the name is not
/// valid UTF-8.
pub open spec fn announced_name(path: Seq<u8>) -> Seq<char> {
    match final_name(segments(path)) {
        Some(name) => if valid_utf8(name) {
            decode_utf8(name)
        } else {
            "file"@
        },
        None => "file"@,
    }
}

/// The sum of two counters, held at the largest value where it would pass
/// it.
pub open spec fn capped_sum(a: u64, b: nat) -> u64 {
    if a + b > u64::MAX {
        u64::MAX
    } else {
        (a + b) as u64
    }
}

/// The first half of serving a transfer request.
pub open spec fn planned_transfer(s: SessionView, transport: Transport, r: RequestView) -> (
    SessionView,
    StepView,
) {
    match r {
        RequestView::Upload { dst_path, file_name, size } => {
            let path = upload_target(render(s.current_directory), dst_path, file_name);
            (
                s,
                StepView::Perform {
                    action: ActionView::CreateFile { path },
                    pending: PendingView::Upload { file_path: path, size },
                },
            )
        },
        RequestView::Download { src_path } => {
            let path = joined(render(s.current_directory), encode_utf8(src_path));
            (
                s,
                StepView::Perform {
                    action: ActionView::OpenFile { path },
                    pending: PendingView::Download { file_name: announced_name(path) },
                },
            )
        },
        RequestView::UploadChunk { chunk_id, data, is_last } => {
            if transport == Transport::Stream {
                (s, StepView::Reply(ResponseView::Error("Unexpected request in FS handler"@)))
            } else if s.upload_state is None {
                (s, StepView::Reply(ResponseView::Error("No active upload session"@)))
            } else {
                (
                    s,
                    StepView::Perform {
                        action: ActionView::AppendChunk { data, finish: is_last },
                        pending: PendingView::UploadChunk {
                            chunk_id,
                            len: data.len() as usize,
                            is_last,
                        },
                    },
                )
            }
        },
        RequestView::DownloadChunk { chunk_id } => {
            if transport == Transport::Stream {
                (s, StepView::Reply(ResponseView::Error("Unexpected request in FS handler"@)))
            } else if s.download_state is None {
                (s, StepView::Reply(ResponseView::Error("No active download session"@)))
            } else {
                (
                    s,
                    StepView::Perform {
                        action: ActionView::ReadChunk { limit: CHUNK_SIZE },
                        pending: PendingView::DownloadChunk { chunk_id },
                    },
                )
            }
        },
        _ => (s, StepView::Reply(ResponseView::Error("Unexpected request in FS handler"@))),
    }
}

/// The second half of an upload announcement.
pub open spec fn finished_upload(
    s: SessionView,
    transport: Transport,
    file_path: Seq<u8>,
    size: u64,
    o: OutcomeView,
) -> (SessionView, ReplyView) {
    match o {
        OutcomeView::Done => if transport == Transport::Stream {
            (
                s,
                ReplyView {
                    response: ResponseView::Success,
                    followup: Followup::ReceiveFile { size },
                },
            )
        } else {
            (
                SessionView {
                    upload_state: Some(
                        UploadView { file_path, expected_size: size, received_bytes: 0 },
                    ),
                    ..s
                },
                plain(ResponseView::Success),
            )
        },
        OutcomeView::Failed(reason) => (
            s,
            plain(ResponseView::Error("Cannot create file: "@ + reason)),
        ),
        _ => (s, plain(unexpected_outcome())),
    }
}

/// The second half of a download request.
pub open spec fn finished_download(
    s: SessionView,
    transport: Transport,
    file_name: Seq<char>,
    o: OutcomeView,
) -> (SessionView, ReplyView) {
    match o {
        OutcomeView::Opened { size } => if transport == Transport::Stream {
            (
                s,
                ReplyView {
                    response: ResponseView::FileMetadata { name: file_name, size },
                    followup: Followup::SendFile { size },
                },
            )
        } else {
            (
                SessionView {
                    download_state: Some(
                        DownloadView { file_name, file_size: size, sent_chunks: 0 },
                    ),
                    ..s
                },
                plain(ResponseView::FileMetadata { name: file_name, size }),
            )
        },
        OutcomeView::Failed(reason) => (s, plain(ResponseView::Error("Open failed: "@ + reason))),
        _ => (s, plain(unexpected_outcome())),
    }
}

/// The second half of an upload chunk: the chunk is counted and
/// acknowledged, and the last one closes the upload; a failed write closes
/// it too.
pub open spec fn finished_upload_chunk(
    s: SessionView,
    chunk_id: u32,
    len: usize,
    is_last: bool,
    o: OutcomeView,
) -> (SessionView, ReplyView) {
    match o {
        OutcomeView::Done => match s.upload_state {
            None => (s, plain(ResponseView::Error("No active upload session"@))),
            Some(upload) => (
                SessionView {
                    upload_state: if is_last {
                        None
                    } else {
                        Some(
                            UploadView {
                                received_bytes: capped_sum(upload.received_bytes, len as nat),
                                ..upload
                            },
                        )
                    },
                    ..s
                },
                plain(ResponseView::ChunkAck { chunk_id }),
            ),
        },
        OutcomeView::Failed(reason) => (
            SessionView { upload_state: None, ..s },
            plain(ResponseView::Error("Write error: "@ + reason)),
        ),
        _ => (s, plain(unexpected_outcome())),
    }
}

/// The second half of a download chunk: what was read is sent under the
/// number that was asked for; a read shorter than a full chunk is the last
/// and closes the download; a failed read closes it too.
pub open spec fn finished_download_chunk(s: SessionView, chunk_id: u32, o: OutcomeView) -> (
    SessionView,
    ReplyView,
) {
    match o {
        OutcomeView::Data(data) => match s.download_state {
            None => (s, plain(ResponseView::Error("No active download session"@))),
            Some(download) => (
                SessionView {
                    download_state: if data.len() < CHUNK_SIZE {
                        None
                    } else {
                        Some(
                            DownloadView {
                                sent_chunks: if download.sent_chunks == u32::MAX {
                                    u32::MAX
                                } else {
                                    (download.sent_chunks + 1) as u32
                                },
                                ..download
                            },
                        )
                    },
                    ..s
                },
                plain(
                    ResponseView::FileChunk { chunk_id, data, is_last: data.len() < CHUNK_SIZE },
                ),
            ),
        },
        OutcomeView::Failed(reason) => (
            SessionView { download_state: None, ..s },
            plain(ResponseView::Error("Read error: "@ + reason)),
        ),
        _ => (s, plain(unexpected_outcome())),
    }
}

/// The second half of serving a transfer request.
pub open spec fn finished_transfer(
    s: SessionView,
    transport: Transport,
    p: PendingView,
    o: OutcomeView,
) -> (SessionView, ReplyView) {
    match p {
        PendingView::Upload { file_path, size } => finished_upload(s, transport, file_path, size, o),
        PendingView::Download { file_name } => finished_download(s, transport, file_name, o),
        PendingView::UploadChunk { chunk_id, len, is_last } => finished_upload_chunk(
            s,
            chunk_id,
            len,
            is_last,
            o,
        ),
        PendingView::DownloadChunk { chunk_id } => finished_download_chunk(s, chunk_id, o),
        _ => (s, plain(unexpected_outcome())),
    }
}

/// A reply that nothing follows.
fn plain_reply(response: Response) -> (reply: Reply)
    ensures
        reply@ == plain(response@),
{
    Reply { response, followup: Followup::Nothing }
}

/// The name under which the file at `path` is announced to the client.
pub fn display_name(path: &[u8]) -> (name: String)
    ensures
        name@ == announced_name(path@),
{
    match file_name(path) {
        Some(bytes) => match utf8_to_string(bytes) {
            Some(name) => name,
            None => "file".to_owned(),
        },
        None => "file".to_owned(),
    }
}

/// The text of the file that an upload is to create.
fn upload_path(session: &Session, dst_path: &String, file_name: &String) -> (path: Vec<u8>)
    ensures
        path@ == upload_target(render(session@.current_directory), dst_path@, file_name@),
{
    let dst = dst_path.as_str().as_bytes();
    if dst.len() == 0 || (dst.len() == 1 && dst[0] == crate::sandbox::DOT) {
        assert(dst@.len() == 1 && dst@[0] == crate::sandbox::DOT ==> dst@ =~= dot());
        session.current_directory().join_raw(file_name.as_str())
    } else {
        assert(dst@ != dot()) by {
            if dst@ == dot() {
                assert(dot().len() == 1 && dot()[0] == crate::sandbox::DOT);
            }
        }
        let dir = session.current_directory().join_raw(dst_path.as_str());
        join_text(dir.as_slice(), file_name.as_str().as_bytes())
    }
}

/// The first half of serving a transfer request: `Upload`, `Download`, and
/// on the datagram transport `UploadChunk` and `DownloadChunk`. A chunk
/// request without the transfer that it belongs to is refused.
pub fn plan_transfer(session: &Session, transport: Transport, request: Request) -> (step: Step)
    ensures
        (session@, step@) == planned_transfer(session@, transport, request@),
{
    match request {
        Request::Upload { dst_path, file_name, size } => {
            let path = upload_path(session, &dst_path, &file_name);
            Step::Perform {
                action: Action::CreateFile { path: path.clone() },
                pending: Pending::Upload { file_path: path, size },
            }
        },
        Request::Download { src_path } => {
            let path = session.current_directory().join_raw(src_path.as_str());
            let file_name = display_name(path.as_slice());
            Step::Perform { action: Action::OpenFile { path }, pending: Pending::Download { file_name } }
        },
        Request::UploadChunk { chunk_id, data, is_last } => {
            match transport {
                Transport::Stream => Step::Reply(
                    error_response("Unexpected request in FS handler"),
                ),
                Transport::Datagram => {
                    if session.upload_state().is_none() {
                        Step::Reply(error_response("No active upload session"))
                    } else {
                        let len: usize = data.len();
                        Step::Perform {
                            action: Action::AppendChunk { data, finish: is_last },
                            pending: Pending::UploadChunk { chunk_id, len, is_last },
                        }
                    }
                },
            }
        },
        Request::DownloadChunk { chunk_id } => {
            match transport {
                Transport::Stream => Step::Reply(
                    error_response("Unexpected request in FS handler"),
                ),
                Transport::Datagram => {
                    if session.download_state().is_none() {
                        Step::Reply(error_response("No active download session"))
                    } else {
                        Step::Perform {
                            action: Action::ReadChunk { limit: CHUNK_SIZE },
                            pending: Pending::DownloadChunk { chunk_id },
                        }
                    }
                },
            }
        },
        _ => Step::Reply(error_response("Unexpected request in FS handler")),
    }
}

/// The second half of an upload announcement.
fn finish_upload(
    session: &mut Session,
    transport: Transport,
    file_path: Vec<u8>,
    size: u64,
    outcome: Outcome,
) -> (reply: Reply)
    ensures
        (final(session)@, reply@) == finished_upload(
            old(session)@,
            transport,
            file_path@,
            size,
            outcome@,
        ),
{
    match outcome {
        Outcome::Done => match transport {
            Transport::Stream => Reply {
                response: Response::Success,
                followup: Followup::ReceiveFile { size },
            },
            Transport::Datagram => {
                session.set_upload_state(
                    Some(UploadState { file_path, expected_size: size, received_bytes: 0 }),
                );
                plain_reply(Response::Success)
            },
        },
        Outcome::Failed(reason) => plain_reply(failure_response("Cannot create file: ", &reason)),
        _ => plain_reply(error_response("Unexpected filesystem outcome")),
    }
}

/// The second half of a download request.
fn finish_download(
    session: &mut Session,
    transport: Transport,
    file_name: String,
    outcome: Outcome,
) -> (reply: Reply)
    ensures
        (final(session)@, reply@) == finished_download(
            old(session)@,
            transport,
            file_name@,
            outcome@,
        ),
{
    match outcome {
        Outcome::Opened { size } => match transport {
            Transport::Stream => Reply {
                response: Response::FileMetadata { name: file_name, size },
                followup: Followup::SendFile { size },
            },
            Transport::Datagram => {
                let name = file_name.clone();
                session.set_download_state(
                    Some(DownloadState { file_name, file_size: size, sent_chunks: 0 }),
                );
                plain_reply(Response::FileMetadata { name, size })
            },
        },
        Outcome::Failed(reason) => plain_reply(failure_response("Open failed: ", &reason)),
        _ => plain_reply(error_response("Unexpected filesystem outcome")),
    }
}

/// The second half of an upload chunk.
fn finish_upload_chunk(
    session: &mut Session,
    chunk_id: u32,
    len: usize,
    is_last: bool,
    outcome: Outcome,
) -> (reply: Reply)
    ensures
        (final(session)@, reply@) == finished_upload_chunk(
            old(session)@,
            chunk_id,
            len,
            is_last,
            outcome@,
        ),
{
    match outcome {
        Outcome::Done => {
            let next: Option<UploadState> = match session.upload_state() {
                None => {
                    return plain_reply(error_response("No active upload session"));
                },
                Some(upload) => {
                    if is_last {
                        None
                    } else {
                        let received: u64 = if len as u64 > u64::MAX - upload.received_bytes {
                            u64::MAX
                        } else {
                            upload.received_bytes + len as u64
                        };
                        Some(
                            UploadState {
                                file_path: upload.file_path.clone(),
                                expected_size: upload.expected_size,
                                received_bytes: received,
                            },
                        )
                    }
                },
            };
            session.set_upload_state(next);
            plain_reply(Response::ChunkAck { chunk_id })
        },
        Outcome::Failed(reason) => {
            session.set_upload_state(None);
            plain_reply(failure_response("Write error: ", &reason))
        },
        _ => plain_reply(error_response("Unexpected filesystem outcome")),
    }
}

/// The second half of a download chunk.
fn finish_download_chunk(session: &mut Session, chunk_id: u32, outcome: Outcome) -> (reply: Reply)
    ensures
        (final(session)@, reply@) == finished_download_chunk(old(session)@, chunk_id, outcome@),
{
    match outcome {
        Outcome::Data(data) => {
            let is_last: bool = data.len() < CHUNK_SIZE;
            let next: Option<DownloadState> = match session.download_state() {
                None => {
                    return plain_reply(error_response("No active download session"));
                },
                Some(download) => {
                    if is_last {
                        None
                    } else {
                        let sent: u32 = if download.sent_chunks == u32::MAX {
                            u32::MAX
                        } else {
                            download.sent_chunks + 1
                        };
                        Some(
                            DownloadState {
                                file_name: download.file_name.clone(),
                                file_size: download.file_size,
                                sent_chunks: sent,
                            },
                        )
                    }
                },
            };
            session.set_download_state(next);
            plain_reply(Response::FileChunk { chunk_id, data, is_last })
        },
        Outcome::Failed(reason) => {
            session.set_download_state(None);
            plain_reply(failure_response("Read error: ", &reason))
        },
        _ => plain_reply(error_response("Unexpected filesystem outcome")),
    }
}

/// The second half of serving a transfer request: the response to the
/// outcome of the action, and on the stream transport the raw transfer that
/// follows it.
pub fn finish_transfer(
    session: &mut Session,
    transport: Transport,
    pending: Pending,
    outcome: Outcome,
) -> (reply: Reply)
    ensures
        (final(session)@, reply@) == finished_transfer(
            old(session)@,
            transport,
            pending@,
            outcome@,
        ),
{
    match pending {
        Pending::Upload { file_path, size } => finish_upload(
            session,
            transport,
            file_path,
            size,
            outcome,
        ),
        Pending::Download { file_name } => finish_download(session, transport, file_name, outcome),
        Pending::UploadChunk { chunk_id, len, is_last } => finish_upload_chunk(
            session,
            chunk_id,
            len,
            is_last,
            outcome,
        ),
        Pending::DownloadChunk { chunk_id } => finish_download_chunk(session, chunk_id, outcome),
        _ => plain_reply(error_response("Unexpected filesystem outcome")),
    }
}

/// On the datagram transport, a chunk that belongs to no transfer is
/// refused, and the session stays as it was.
pub proof fn lemma_chunk_without_transfer(s: SessionView, chunk_id: u32, data: Seq<u8>, is_last: bool)
    ensures
        s.upload_state is None ==> planned_transfer(
            s,
            Transport::Datagram,
            RequestView::UploadChunk { chunk_id, data, is_last },
        ) == (s, StepView::Reply(ResponseView::Error("No active upload session"@))),
        s.download_state is None ==> planned_transfer(
            s,
            Transport::Datagram,
            RequestView::DownloadChunk { chunk_id },
        ) == (s, StepView::Reply(ResponseView::Error("No active download session"@))),
{
}

/// An upload is open from its announcement to its last chunk: a stored
/// chunk is acknowledged under its number; one that is not the last adds
/// its length to the bytes received, the last closes the upload.
pub proof fn lemma_upload_runs_to_its_last_chunk(
    s: SessionView,
    upload: UploadView,
    chunk_id: u32,
    len: usize,
    is_last: bool,
)
    requires
        s.upload_state == Some(upload),
    ensures
        ({
            let after = finished_upload_chunk(s, chunk_id, len, is_last, OutcomeView::Done);
            &&& after.1 == plain(ResponseView::ChunkAck { chunk_id })
            &&& is_last ==> after.0 == SessionView { upload_state: None, ..s }
            &&& !is_last ==> after.0 == SessionView {
                upload_state: Some(
                    UploadView {
                        received_bytes: capped_sum(upload.received_bytes, len as nat),
                        ..upload
                    },
                ),
                ..s
            }
        }),
{
}

/// A download is open from its request to the first chunk that is shorter
/// than a full one: that chunk, and no other, is marked as the last.
pub proof fn lemma_download_ends_with_a_short_chunk(
    s: SessionView,
    download: DownloadView,
    chunk_id: u32,
    data: Seq<u8>,
)
    requires
        s.download_state == Some(download),
    ensures
        ({
            let after = finished_download_chunk(s, chunk_id, OutcomeView::Data(data));
            &&& after.1 == plain(
                ResponseView::FileChunk { chunk_id, data, is_last: data.len() < CHUNK_SIZE },
            )
            &&& after.0.download_state is None <==> data.len() < CHUNK_SIZE
            &&& after.0 == SessionView { download_state: after.0.download_state, ..s }
        }),
{
}

} // verus!
