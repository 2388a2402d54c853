//! What passes between the server's rules and the host that owns the
//! filesystem: the actions that a request calls for, their outcomes, and
//! what is remembered in between.

use crate::message::{entries_view, DirEntry, DirEntryView, Response, ResponseView};
use crate::sandbox::DirPath;
use vstd::prelude::*;

verus! {

/// The transport that a request arrived on.
#[derive(Clone, Copy, Debug, PartialEq, Eq, Structural)]
pub enum Transport {
    /// A reliable byte stream: one client, bulk data as raw bytes.
    Stream,
    /// Datagrams: many clients, bulk data in acknowledged chunks.
    Datagram,
}

/// What the host is to do on the filesystem. Paths are texts; they have not
/// been checked against the sandbox unless the action says so.
#[derive(Clone, Debug, PartialEq, Eq)]
pub enum Action {
    /// List the entries of the directory.
    ListDir { dir: Vec<u8> },
    /// Tell whether the path, which lies within the sandbox, is an existing
    /// directory.
    ProbeDir { dir: Vec<u8> },
    /// Create the directory.
    CreateDir { dir: Vec<u8> },
    /// Copy the file at `src` to `dst`.
    CopyFile { src: Vec<u8>, dst: Vec<u8> },
    /// Create the file, and the directories above it as needed, and keep it
    /// open for the client's upload.
    CreateFile { path: Vec<u8> },
    /// Open the file for the client's download and report its size.
    OpenFile { path: Vec<u8> },
    /// Append the data to the client's upload; where `finish` is set, flush
    /// and close the file afterwards.
    AppendChunk { data: Vec<u8>, finish: bool },
    /// Read up to `limit` bytes from where the client's download stands.
    ReadChunk { limit: usize },
}

/// What came of an action.
#[derive(Clone, Debug, PartialEq, Eq)]
pub enum Outcome {
    /// The entries of the directory.
    Listed(Vec<DirEntry>),
    /// Whether the path is an existing directory.
    IsDir(bool),
    /// The action went through and has nothing to report.
    Done,
    /// The number of bytes copied.
    Copied(u64),
    /// The file is open; its size.
    Opened { size: u64 },
    /// The bytes read.
    Data(Vec<u8>),
    /// The action failed; the reason in words.
    Failed(String),
}

/// What is remembered of a request while its action is carried out.
#[derive(Clone, Debug, PartialEq, Eq)]
pub enum Pending {
    /// A listing of the current directory.
    List,
    /// A move to `target`, once it is known to be a directory.
    Cd { target: DirPath },
    /// The creation of a directory.
    Mkdir,
    /// A copy.
    Copy,
    /// The announcement of an upload of `size` bytes to `file_path`.
    Upload { file_path: Vec<u8>, size: u64 },
    /// The request for a file, to be announced as `file_name`.
    Download { file_name: String },
    /// A chunk of `len` bytes of an upload.
    UploadChunk { chunk_id: u32, len: usize, is_last: bool },
    /// The request for a chunk of a download.
    DownloadChunk { chunk_id: u32 },
}

/// The first half of serving a request: an answer at once, or an action to
/// carry out first.
#[derive(Clone, Debug, PartialEq, Eq)]
pub enum Step {
    /// The response; nothing is to be done first.
    Reply(Response),
    /// Carry out `action`, then finish the request with `pending` and the
    /// outcome.
    Perform { action: Action, pending: Pending },
}

/// What follows a response on the stream transport.
#[derive(Clone, Copy, Debug, PartialEq, Eq, Structural)]
pub enum Followup {
    /// Nothing: the next request.
    Nothing,
    /// The client sends `size` raw bytes, to be written to the created file.
    ReceiveFile { size: u64 },
    /// The server sends the `size` raw bytes of the opened file.
    SendFile { size: u64 },
}

/// The second half of serving a request: the response, and what follows it.
#[derive(Clone, Debug, PartialEq, Eq)]
pub struct Reply {
    pub response: Response,
    pub followup: Followup,
}

/// An action as a mathematical value.
pub ghost enum ActionView {
    ListDir { dir: Seq<u8> },
    ProbeDir { dir: Seq<u8> },
    CreateDir { dir: Seq<u8> },
    CopyFile { src: Seq<u8>, dst: Seq<u8> },
    CreateFile { path: Seq<u8> },
    OpenFile { path: Seq<u8> },
    AppendChunk { data: Seq<u8>, finish: bool },
    ReadChunk { limit: usize },
}

/// An outcome as a mathematical value.
pub ghost enum OutcomeView {
    Listed(Seq<DirEntryView>),
    IsDir(bool),
    Done,
    Copied(u64),
    Opened { size: u64 },
    Data(Seq<u8>),
    Failed(Seq<char>),
}

/// A pending request as a mathematical value.
pub ghost enum PendingView {
    List,
    Cd { target: Seq<Seq<u8>> },
    Mkdir,
    Copy,
    Upload { file_path: Seq<u8>, size: u64 },
    Download { file_name: Seq<char> },
    UploadChunk { chunk_id: u32, len: usize, is_last: bool },
    DownloadChunk { chunk_id: u32 },
}

/// A step as a mathematical value.
pub ghost enum StepView {
    Reply(ResponseView),
    Perform { action: ActionView, pending: PendingView },
}

/// A reply as a mathematical value.
pub ghost struct ReplyView {
    pub response: ResponseView,
    pub followup: Followup,
}

impl View for Action {
    type V = ActionView;

    open spec fn view(&self) -> ActionView {
        match *self {
            Action::ListDir { dir } => ActionView::ListDir { dir: dir@ },
            Action::ProbeDir { dir } => ActionView::ProbeDir { dir: dir@ },
            Action::CreateDir { dir } => ActionView::CreateDir { dir: dir@ },
            Action::CopyFile { src, dst } => ActionView::CopyFile { src: src@, dst: dst@ },
            Action::CreateFile { path } => ActionView::CreateFile { path: path@ },
            Action::OpenFile { path } => ActionView::OpenFile { path: path@ },
            Action::AppendChunk { data, finish } => ActionView::AppendChunk { data: data@, finish },
            Action::ReadChunk { limit } => ActionView::ReadChunk { limit },
        }
    }
}

impl View for Outcome {
    type V = OutcomeView;

    open spec fn view(&self) -> OutcomeView {
        match *self {
            Outcome::Listed(entries) => OutcomeView::Listed(entries_view(entries@)),
            Outcome::IsDir(yes) => OutcomeView::IsDir(yes),
            Outcome::Done => OutcomeView::Done,
            Outcome::Copied(n) => OutcomeView::Copied(n),
            Outcome::Opened { size } => OutcomeView::Opened { size },
            Outcome::Data(bytes) => OutcomeView::Data(bytes@),
            Outcome::Failed(reason) => OutcomeView::Failed(reason@),
        }
    }
}

impl View for Pending {
    type V = PendingView;

    open spec fn view(&self) -> PendingView {
        match *self {
            Pending::List => PendingView::List,
            Pending::Cd { target } => PendingView::Cd { target: target@ },
            Pending::Mkdir => PendingView::Mkdir,
            Pending::Copy => PendingView::Copy,
            Pending::Upload { file_path, size } => PendingView::Upload {
                file_path: file_path@,
                size,
            },
            Pending::Download { file_name } => PendingView::Download { file_name: file_name@ },
            Pending::UploadChunk { chunk_id, len, is_last } => PendingView::UploadChunk {
                chunk_id,
                len,
                is_last,
            },
            Pending::DownloadChunk { chunk_id } => PendingView::DownloadChunk { chunk_id },
        }
    }
}

impl View for Step {
    type V = StepView;

    open spec fn view(&self) -> StepView {
        match *self {
            Step::Reply(response) => StepView::Reply(response@),
            Step::Perform { action, pending } => StepView::Perform {
                action: action@,
                pending: pending@,
            },
        }
    }
}

impl View for Reply {
    type V = ReplyView;

    open spec fn view(&self) -> ReplyView {
        ReplyView { response: self.response@, followup: self.followup }
    }
}

} // verus!
