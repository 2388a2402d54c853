//! The messages of the protocol: what a client may ask and what a server may
//! answer.

use vstd::prelude::*;

verus! {

/// What a client asks of the server.
#[derive(Clone, Debug, PartialEq, Eq)]
pub enum Request {
    /// List the current directory.
    Dir,
    /// Move to the parent of the current directory.
    CdUp,
    /// Create a directory under the current one.
    Mkdir { name: String },
    /// Move to a directory below the current one.
    Cd { path: String },
    /// Copy a file; both paths are taken relative to the current directory.
    Copy { src: String, dst: String },
    /// Announce an upload of `size` bytes to `dst_path/file_name`.
    Upload { dst_path: String, file_name: String, size: u64 },
    /// Ask for the file at `src_path`.
    Download { src_path: String },
    /// One chunk of an announced upload (datagram transport).
    UploadChunk { chunk_id: u32, data: Vec<u8>, is_last: bool },
    /// Ask for the next chunk of a download (datagram transport).
    DownloadChunk { chunk_id: u32 },
}

/// One entry of a directory listing.
#[derive(Clone, Debug, PartialEq, Eq)]
pub struct DirEntry {
    pub name: String,
    pub is_dir: bool,
}

/// What the server answers.
#[derive(Clone, Debug, PartialEq, Eq)]
pub enum Response {
    /// The request was carried out.
    Success,
    /// The entries of the current directory, in no particular order.
    DirList(Vec<DirEntry>),
    /// A copy went through.
    CopyResult { bytes_copied: u64 },
    /// Name and size of the file that a download will deliver.
    FileMetadata { name: String, size: u64 },
    /// The request failed; the message says why. The current directory is
    /// as it was; a chunk that could not be written or read has closed its
    /// transfer.
    Error(String),
    /// An uploaded chunk was stored (datagram transport).
    ChunkAck { chunk_id: u32 },
    /// One chunk of a download (datagram transport).
    FileChunk { chunk_id: u32, data: Vec<u8>, is_last: bool },
}

/// A request as a mathematical value.
pub ghost enum RequestView {
    Dir,
    CdUp,
    Mkdir { name: Seq<char> },
    Cd { path: Seq<char> },
    Copy { src: Seq<char>, dst: Seq<char> },
    Upload { dst_path: Seq<char>, file_name: Seq<char>, size: u64 },
    Download { src_path: Seq<char> },
    UploadChunk { chunk_id: u32, data: Seq<u8>, is_last: bool },
    DownloadChunk { chunk_id: u32 },
}

/// A directory entry as a mathematical value.
pub ghost struct DirEntryView {
    pub name: Seq<char>,
    pub is_dir: bool,
}

/// A response as a mathematical value.
pub ghost enum ResponseView {
    Success,
    DirList(Seq<DirEntryView>),
    CopyResult { bytes_copied: u64 },
    FileMetadata { name: Seq<char>, size: u64 },
    Error(Seq<char>),
    ChunkAck { chunk_id: u32 },
    FileChunk { chunk_id: u32, data: Seq<u8>, is_last: bool },
}

impl View for Request {
    type V = RequestView;

    open spec fn view(&self) -> RequestView {
        match *self {
            Request::Dir => RequestView::Dir,
            Request::CdUp => RequestView::CdUp,
            Request::Mkdir { name } => RequestView::Mkdir { name: name@ },
            Request::Cd { path } => RequestView::Cd { path: path@ },
            Request::Copy { src, dst } => RequestView::Copy { src: src@, dst: dst@ },
            Request::Upload { dst_path, file_name, size } => RequestView::Upload {
                dst_path: dst_path@,
                file_name: file_name@,
                size,
            },
            Request::Download { src_path } => RequestView::Download { src_path: src_path@ },
            Request::UploadChunk { chunk_id, data, is_last } => RequestView::UploadChunk {
                chunk_id,
                data: data@,
                is_last,
            },
            Request::DownloadChunk { chunk_id } => RequestView::DownloadChunk { chunk_id },
        }
    }
}

impl View for DirEntry {
    type V = DirEntryView;

    open spec fn view(&self) -> DirEntryView {
        DirEntryView { name: self.name@, is_dir: self.is_dir }
    }
}

/// The entries of a listing as mathematical values, in the same order.
pub open spec fn entries_view(entries: Seq<DirEntry>) -> Seq<DirEntryView> {
    Seq::new(entries.len(), |i: int| entries[i]@)
}

impl View for Response {
    type V = ResponseView;

    open spec fn view(&self) -> ResponseView {
        match *self {
            Response::Success => ResponseView::Success,
            Response::DirList(entries) => ResponseView::DirList(entries_view(entries@)),
            Response::CopyResult { bytes_copied } => ResponseView::CopyResult { bytes_copied },
            Response::FileMetadata { name, size } => ResponseView::FileMetadata {
                name: name@,
                size,
            },
            Response::Error(message) => ResponseView::Error(message@),
            Response::ChunkAck { chunk_id } => ResponseView::ChunkAck { chunk_id },
            Response::FileChunk { chunk_id, data, is_last } => ResponseView::FileChunk {
                chunk_id,
                data: data@,
                is_last,
            },
        }
    }
}

} // verus!
