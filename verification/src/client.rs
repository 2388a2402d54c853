//! The client's side of the protocol: the request for each operation, what
//! to make of the response, and the bookkeeping of chunked transfers on the
//! datagram transport.
//!
//! A chunked upload sends the blocks of a file in order, numbered from 0,
//! and waits for the acknowledgement of each before it sends the next. The
//! chunk with which the announced size is reached is marked as the last, and
//! no other. A chunked download
//! asks for chunk after chunk until one arrives that is marked as the last.
//! A response that carries another number than the one awaited ends the
//! transfer: nothing is resent or resumed.

use crate::message::{entries_view, DirEntry, Request, RequestView, Response, ResponseView};
use crate::sandbox::{file_name, final_name, join_text, joined, segments};
use crate::transfer::CHUNK_SIZE;
use crate::wire::utf8_to_string;
use vstd::prelude::*;
use vstd::string::StringSliceAdditionalSpecFns;
use vstd::utf8::{decode_utf8, valid_utf8};

verus! {

/// Seconds that a client of the datagram transport waits for a response
/// before it gives the request up.
pub const RECEIVE_TIMEOUT_SECS: u64 = 5;

/// Why an operation of the client failed.
#[derive(Clone, Debug, PartialEq, Eq)]
pub enum ClientError {
    /// The server answered with an error; its message.
    Server(String),
    /// The server answered with a response of a kind that does not fit the
    /// request.
    UnexpectedResponse,
    /// A chunk was answered under another number than it was sent or asked
    /// for.
    ChunkMismatch { expected: u32, got: u32 },
    /// The file has more chunks than can be numbered.
    TooManyChunks,
    /// The path of the file to upload ends in no file name.
    InvalidFileName,
}

/// An error of the client as a mathematical value.
pub ghost enum ClientErrorView {
    Server(Seq<char>),
    UnexpectedResponse,
    ChunkMismatch { expected: u32, got: u32 },
    TooManyChunks,
    InvalidFileName,
}

impl View for ClientError {
    type V = ClientErrorView;

    open spec fn view(&self) -> ClientErrorView {
        match *self {
            ClientError::Server(message) => ClientErrorView::Server(message@),
            ClientError::UnexpectedResponse => ClientErrorView::UnexpectedResponse,
            ClientError::ChunkMismatch { expected, got } => ClientErrorView::ChunkMismatch {
                expected,
                got,
            },
            ClientError::TooManyChunks => ClientErrorView::TooManyChunks,
            ClientError::InvalidFileName => ClientErrorView::InvalidFileName,
        }
    }
}

/// The request that lists the current directory.
pub fn list() -> (request: Request)
    ensures
        request@ == RequestView::Dir,
{
    Request::Dir
}

/// The request that moves to the directory at `path`.
pub fn change_dir(path: String) -> (request: Request)
    ensures
        request@ == (RequestView::Cd { path: path@ }),
{
    Request::Cd { path }
}

/// The request that moves to the parent directory.
pub fn change_dir_up() -> (request: Request)
    ensures
        request@ == RequestView::CdUp,
{
    Request::CdUp
}

/// The request that creates the directory `name`.
pub fn make_dir(name: String) -> (request: Request)
    ensures
        request@ == (RequestView::Mkdir { name: name@ }),
{
    Request::Mkdir { name }
}

/// The request that copies the file at `src` to `dst`.
pub fn copy(src: String, dst: String) -> (request: Request)
    ensures
        request@ == (RequestView::Copy { src: src@, dst: dst@ }),
{
    Request::Copy { src, dst }
}

/// The request that asks for the file at `remote_path`.
pub fn download(remote_path: String) -> (request: Request)
    ensures
        request@ == (RequestView::Download { src_path: remote_path@ }),
{
    Request::Download { src_path: remote_path }
}

/// The name under which a local file is uploaded: the name that its path
/// ends in, if it ends in one.
pub open spec fn upload_name(local_path: Seq<u8>) -> Option<Seq<char>> {
    match final_name(segments(local_path)) {
        Some(name) => if valid_utf8(name) {
            Some(decode_utf8(name))
        } else {
            None
        },
        None => None,
    }
}

/// The request that announces the upload of the local file at `local_path`,
/// of `size` bytes, into the remote directory `remote_dir`. The file keeps
/// its name. `InvalidFileName` where the path ends in no name.
pub fn upload(local_path: &str, remote_dir: String, size: u64) -> (res: Result<
    Request,
    ClientError,
>)
    ensures
        match upload_name(local_path.spec_bytes()) {
            Some(name) => res matches Ok(request) && request@ == (RequestView::Upload {
                dst_path: remote_dir@,
                file_name: name,
                size,
            }),
            None => res matches Err(e) && e@ == ClientErrorView::InvalidFileName,
        },
{
    let name = match file_name(local_path.as_bytes()) {
        Some(bytes) => utf8_to_string(bytes),
        None => None,
    };
    match name {
        Some(file_name) => Ok(Request::Upload { dst_path: remote_dir, file_name, size }),
        None => Err(ClientError::InvalidFileName),
    }
}

/// The text of the local path under which a downloaded file is stored: the
/// name that the server announced, as seen from `local_dir`. The name is
/// taken as it comes.
pub fn download_target(local_dir: &str, name: &str) -> (path: Vec<u8>)
    ensures
        path@ == joined(local_dir.spec_bytes(), name.spec_bytes()),
{
    join_text(local_dir.as_bytes(), name.as_bytes())
}

/// The error that a response stands for where it is not the one hoped for.
pub open spec fn refusal(r: ResponseView) -> ClientErrorView {
    match r {
        ResponseView::Error(message) => ClientErrorView::Server(message),
        _ => ClientErrorView::UnexpectedResponse,
    }
}

/// The error that a response stands for where it is not the one hoped for.
fn refuse(response: Response) -> (e: ClientError)
    ensures
        e@ == refusal(response@),
{
    match response {
        Response::Error(message) => ClientError::Server(message),
        _ => ClientError::UnexpectedResponse,
    }
}

/// Reads the response to a request that is answered with plain success:
/// `Cd`, `CdUp`, `Mkdir`, and the announcement of an upload.
pub fn expect_success(response: Response) -> (res: Result<(), ClientError>)
    ensures
        match response@ {
            ResponseView::Success => res is Ok,
            other => res matches Err(e) && e@ == refusal(other),
        },
{
    match response {
        Response::Success => Ok(()),
        other => Err(refuse(other)),
    }
}

/// Reads the response to `Dir`: the entries of the listing.
pub fn expect_listing(response: Response) -> (res: Result<Vec<DirEntry>, ClientError>)
    ensures
        match response@ {
            ResponseView::DirList(entries) => res matches Ok(list) && entries_view(list@)
                == entries,
            other => res matches Err(e) && e@ == refusal(other),
        },
{
    match response {
        Response::DirList(entries) => Ok(entries),
        other => Err(refuse(other)),
    }
}

/// Reads the response to `Copy`: the number of bytes copied.
pub fn expect_copy_result(response: Response) -> (res: Result<u64, ClientError>)
    ensures
        match response@ {
            ResponseView::CopyResult { bytes_copied } => res matches Ok(n) && n == bytes_copied,
            other => res matches Err(e) && e@ == refusal(other),
        },
{
    match response {
        Response::CopyResult { bytes_copied } => Ok(bytes_copied),
        other => Err(refuse(other)),
    }
}

/// Reads the response to `Download`: the name and size of the file.
pub fn expect_metadata(response: Response) -> (res: Result<(String, u64), ClientError>)
    ensures
        match response@ {
            ResponseView::FileMetadata { name, size } => res matches Ok(p) && p.0@ == name && p.1
                == size,
            other => res matches Err(e) && e@ == refusal(other),
        },
{
    match response {
        Response::FileMetadata { name, size } => Ok((name, size)),
        other => Err(refuse(other)),
    }
}

/// The request that carries the block `data` as chunk `chunk_id` of an
/// upload.
pub open spec fn chunk_request(chunk_id: u32, data: Seq<u8>, is_last: bool) -> RequestView {
    RequestView::UploadChunk { chunk_id, data, is_last }
}

/// The bookkeeping of a chunked upload.
#[derive(Clone, Copy, Debug, PartialEq, Eq)]
pub struct ChunkedUpload {
    /// Bytes that the upload was announced with.
    pub size: u64,
    /// Number of the chunk to send next, or of the one that is awaiting its
    /// acknowledgement.
    pub chunk_id: u32,
    /// Bytes acknowledged so far.
    pub total_sent: u64,
    /// Length of the chunk that is awaiting its acknowledgement, and whether
    /// it was marked as the last.
    pub in_flight: Option<(usize, bool)>,
}

/// What an upload does with a block that was read from the file.
#[derive(Clone, Debug, PartialEq, Eq)]
pub enum UploadStep {
    /// The block is empty: the file has ended, and the upload with it.
    Finished,
    /// Send this request and wait for its acknowledgement.
    Send(Request),
}

/// Whether a block of `len` bytes is the last of the upload: with it, the
/// bytes sent reach the size that was announced.
pub open spec fn reaches_size(u: ChunkedUpload, len: nat) -> bool {
    u.total_sent + len >= u.size
}

/// What reading a block makes of an upload: for a block that is not empty,
/// the chunk that carries it is in flight.
pub open spec fn upload_sent(u: ChunkedUpload, block: Seq<u8>) -> ChunkedUpload {
    if block.len() == 0 {
        u
    } else {
        ChunkedUpload {
            in_flight: Some((block.len() as usize, reaches_size(u, block.len()))),
            ..u
        }
    }
}

/// What an acknowledged chunk of `len` bytes makes of the bookkeeping: the
/// bytes are counted, nothing is in flight any more, and unless the chunk
/// was the last the number of the next chunk is one higher. `None` where
/// that number cannot be held.
pub open spec fn upload_advanced(u: ChunkedUpload, len: usize, was_last: bool) -> Option<
    ChunkedUpload,
> {
    let total_sent = if u.total_sent + len > u64::MAX {
        u64::MAX
    } else {
        (u.total_sent + len) as u64
    };
    if was_last {
        Some(ChunkedUpload { total_sent, in_flight: None, ..u })
    } else if u.chunk_id == u32::MAX {
        None
    } else {
        Some(ChunkedUpload { chunk_id: (u.chunk_id + 1) as u32, total_sent, in_flight: None, ..u })
    }
}

/// What a response makes of an upload: the bookkeeping afterwards and
/// whether the upload is complete, or the error that ends the upload. An
/// acknowledgement counts only for the chunk in flight, under its number.
pub open spec fn acknowledged(u: ChunkedUpload, r: ResponseView) -> Result<
    (ChunkedUpload, bool),
    ClientErrorView,
> {
    match r {
        ResponseView::ChunkAck { chunk_id } => match u.in_flight {
            None => Err(ClientErrorView::UnexpectedResponse),
            Some((len, was_last)) => {
                if chunk_id != u.chunk_id {
                    Err(ClientErrorView::ChunkMismatch { expected: u.chunk_id, got: chunk_id })
                } else {
                    match upload_advanced(u, len, was_last) {
                        Some(next) => Ok((next, was_last)),
                        None => Err(ClientErrorView::TooManyChunks),
                    }
                }
            },
        },
        other => Err(refusal(other)),
    }
}

impl ChunkedUpload {
    /// An upload of `size` bytes of which nothing has been sent.
    pub fn new(size: u64) -> (upload: ChunkedUpload)
        ensures
            upload == (ChunkedUpload { size, chunk_id: 0, total_sent: 0, in_flight: None }),
    {
        ChunkedUpload { size, chunk_id: 0, total_sent: 0, in_flight: None }
    }

    /// What to do with the block that the next read of the file gave. The
    /// block with which the announced size is reached goes out marked as the
    /// last, whatever its length.
    pub fn next_step(&mut self, block: Vec<u8>) -> (step: UploadStep)
        ensures
            *final(self) == upload_sent(*old(self), block@),
            match step {
                UploadStep::Finished => block@.len() == 0,
                UploadStep::Send(request) => block@.len() > 0 && request@ == chunk_request(
                    old(self).chunk_id,
                    block@,
                    reaches_size(*old(self), block@.len()),
                ),
            },
    {
        let len: usize = block.len();
        if len == 0 {
            UploadStep::Finished
        } else {
            let is_last: bool = self.total_sent >= self.size || len as u64 >= self.size
                - self.total_sent;
            self.in_flight = Some((len, is_last));
            UploadStep::Send(Request::UploadChunk { chunk_id: self.chunk_id, data: block, is_last })
        }
    }

    /// Reads the response to the chunk in flight. Tells whether the upload
    /// is complete. On an error nothing changes.
    pub fn acknowledge(&mut self, response: Response) -> (res: Result<bool, ClientError>)
        ensures
            match acknowledged(*old(self), response@) {
                Ok((next, done)) => res matches Ok(d) && d == done && *final(self) == next,
                Err(error) => res matches Err(e) && e@ == error && *final(self) == *old(self),
            },
    {
        match response {
            Response::ChunkAck { chunk_id } => {
                let (len, was_last) = match self.in_flight {
                    Some(sent) => sent,
                    None => {
                        return Err(ClientError::UnexpectedResponse);
                    },
                };
                if chunk_id != self.chunk_id {
                    return Err(ClientError::ChunkMismatch { expected: self.chunk_id, got: chunk_id });
                }
                if !was_last && self.chunk_id == u32::MAX {
                    return Err(ClientError::TooManyChunks);
                }
                self.total_sent = if len as u64 > u64::MAX - self.total_sent {
                    u64::MAX
                } else {
                    self.total_sent + len as u64
                };
                if !was_last {
                    self.chunk_id = self.chunk_id + 1;
                }
                self.in_flight = None;
                Ok(was_last)
            },
            other => Err(refuse(other)),
        }
    }
}

/// The bookkeeping of a chunked download.
#[derive(Clone, Copy, Debug, PartialEq, Eq, Structural)]
pub struct ChunkedDownload {
    /// Number of the chunk to ask for next.
    pub chunk_id: u32,
    /// Bytes received so far.
    pub total_received: u64,
}

/// What a received chunk of `len` bytes makes of the bookkeeping. `None`
/// where the number of the next chunk cannot be held.
pub open spec fn download_advanced(d: ChunkedDownload, len: nat, is_last: bool) -> Option<
    ChunkedDownload,
> {
    let total_received = if d.total_received + len > u64::MAX {
        u64::MAX
    } else {
        (d.total_received + len) as u64
    };
    if is_last {
        Some(ChunkedDownload { chunk_id: d.chunk_id, total_received })
    } else if d.chunk_id == u32::MAX {
        None
    } else {
        Some(ChunkedDownload { chunk_id: (d.chunk_id + 1) as u32, total_received })
    }
}

/// What the response to the request for the next chunk makes of a
/// download: the bookkeeping afterwards with the data of the chunk and
/// whether it is the last, or the error that ends the download.
pub open spec fn accepted(d: ChunkedDownload, r: ResponseView) -> Result<
    (ChunkedDownload, Seq<u8>, bool),
    ClientErrorView,
> {
    match r {
        ResponseView::FileChunk { chunk_id, data, is_last } => {
            if chunk_id != d.chunk_id {
                Err(ClientErrorView::ChunkMismatch { expected: d.chunk_id, got: chunk_id })
            } else {
                match download_advanced(d, data.len(), is_last) {
                    Some(next) => Ok((next, data, is_last)),
                    None => Err(ClientErrorView::TooManyChunks),
                }
            }
        },
        other => Err(refusal(other)),
    }
}

impl ChunkedDownload {
    /// A download of which nothing has been received.
    pub fn new() -> (download: ChunkedDownload)
        ensures
            download == (ChunkedDownload { chunk_id: 0, total_received: 0 }),
    {
        ChunkedDownload { chunk_id: 0, total_received: 0 }
    }

    /// The request for the next chunk.
    pub fn next_request(&self) -> (request: Request)
        ensures
            request@ == (RequestView::DownloadChunk { chunk_id: self.chunk_id }),
    {
        Request::DownloadChunk { chunk_id: self.chunk_id }
    }

    /// Reads the response to the request for the next chunk. Gives the data
    /// of the chunk and whether it is the last. On an error nothing changes.
    pub fn accept(&mut self, response: Response) -> (res: Result<(Vec<u8>, bool), ClientError>)
        ensures
            match accepted(*old(self), response@) {
                Ok((next, data, is_last)) => res matches Ok(p) && p.0@ == data && p.1 == is_last
                    && *final(self) == next,
                Err(error) => res matches Err(e) && e@ == error && *final(self) == *old(self),
            },
    {
        match response {
            Response::FileChunk { chunk_id, data, is_last } => {
                if chunk_id != self.chunk_id {
                    return Err(ClientError::ChunkMismatch { expected: self.chunk_id, got: chunk_id });
                }
                if !is_last && self.chunk_id == u32::MAX {
                    return Err(ClientError::TooManyChunks);
                }
                let len: usize = data.len();
                self.total_received = if len as u64 > u64::MAX - self.total_received {
                    u64::MAX
                } else {
                    self.total_received + len as u64
                };
                if !is_last {
                    self.chunk_id = self.chunk_id + 1;
                }
                Ok((data, is_last))
            },
            other => Err(refuse(other)),
        }
    }
}

/// The number of chunks in which a file of `n` bytes is uploaded: `n`
/// divided by the size of a chunk, rounded up.
pub open spec fn chunk_count(n: nat) -> nat {
    (n + CHUNK_SIZE - 1) as nat / (CHUNK_SIZE as nat)
}

/// The bytes of the chunk with number `i` of a file with content `data`.
pub open spec fn chunk_data(data: Seq<u8>, i: nat) -> Seq<u8> {
    if (i + 1) * CHUNK_SIZE <= data.len() {
        data.subrange(i * CHUNK_SIZE, (i + 1) * CHUNK_SIZE)
    } else {
        data.subrange(i * CHUNK_SIZE, data.len() as int)
    }
}

/// The requests by which a file with content `data` is uploaded, in order:
/// chunk after chunk, the final one marked as the last.
pub open spec fn upload_requests(data: Seq<u8>) -> Seq<RequestView> {
    Seq::new(
        chunk_count(data.len()),
        |i: int|
            chunk_request(
                i as u32,
                chunk_data(data, i as nat),
                i == chunk_count(data.len()) - 1,
            ),
    )
}

/// The requests of a list as mathematical values, in the same order.
pub open spec fn requests_view(list: Seq<Request>) -> Seq<RequestView> {
    Seq::new(list.len(), |i: int| list[i]@)
}

/// A file of `n` bytes is uploaded in `n / CHUNK_SIZE` chunks, rounded up.
/// They are numbered from 0 without gaps; every chunk but the final one is
/// full, and the final one holds what is left. The final chunk is marked as
/// the last, and no other is.
pub proof fn lemma_upload_chunks(data: Seq<u8>, i: int)
    requires
        chunk_count(data.len()) <= u32::MAX + 1,
        0 <= i < chunk_count(data.len()),
    ensures
        upload_requests(data).len() == chunk_count(data.len()),
        (chunk_count(data.len()) - 1) * CHUNK_SIZE < data.len() <= chunk_count(data.len())
            * CHUNK_SIZE,
        upload_requests(data)[i] matches RequestView::UploadChunk { chunk_id, data: block, is_last }
            && {
            &&& chunk_id == i
            &&& i < chunk_count(data.len()) - 1 ==> block.len() == CHUNK_SIZE
            &&& i == chunk_count(data.len()) - 1 ==> block.len() == data.len() - i * CHUNK_SIZE
                && 0 < block.len() <= CHUNK_SIZE
            &&& is_last <==> i == chunk_count(data.len()) - 1
            &&& block == data.subrange(i * CHUNK_SIZE, i * CHUNK_SIZE + block.len())
        },
{
}

/// An empty file is uploaded without any chunk.
pub proof fn lemma_upload_of_nothing(data: Seq<u8>)
    ensures
        chunk_count(data.len()) == 0 <==> data.len() == 0,
        data.len() == 0 ==> upload_requests(data) == Seq::<RequestView>::empty(),
{
    if data.len() == 0 {
        assert(upload_requests(data) =~= Seq::<RequestView>::empty());
    }
}

/// The requests by which a file with content `data` is uploaded: the steps
/// that a chunked upload of that size takes when the file is read a full
/// chunk at a time and every chunk is acknowledged. `TooManyChunks` where
/// there are more chunks than 32 bits can number.
pub fn split_upload(data: &[u8]) -> (res: Result<Vec<Request>, ClientError>)
    ensures
        match res {
            Ok(list) => requests_view(list@) == upload_requests(data@) && chunk_count(
                data@.len(),
            ) <= u32::MAX + 1,
            Err(e) => e@ == ClientErrorView::TooManyChunks && chunk_count(data@.len()) > u32::MAX
                + 1,
        },
{
    let mut list: Vec<Request> = Vec::new();
    let mut upload = ChunkedUpload::new(data.len() as u64);
    let mut pos: usize = 0;
    let ghost all = upload_requests(data@);
    let ghost count = chunk_count(data@.len());
    while pos < data.len()
        invariant
            all == upload_requests(data@),
            count == chunk_count(data@.len()),
            pos <= data@.len(),
            list@.len() <= count,
            upload.size == data@.len(),
            upload.total_sent == pos,
            pos < data@.len() ==> pos == list@.len() * CHUNK_SIZE && upload.chunk_id == list@.len()
                && upload.in_flight is None,
            pos == data@.len() ==> list@.len() == count,
            list@.len() <= u32::MAX + 1,
            forall|k: int| 0 <= k < list@.len() ==> (#[trigger] list@[k])@ == all[k],
        decreases data@.len() - pos,
    {
        let end: usize = if data.len() - pos > CHUNK_SIZE {
            pos + CHUNK_SIZE
        } else {
            data.len()
        };
        let block = vstd::slice::slice_to_vec(vstd::slice::slice_subrange(data, pos, end));
        let ghost index = list@.len() as int;
        assert(block@ =~= chunk_data(data@, index as nat));
        match upload.next_step(block) {
            UploadStep::Send(request) => {
                list.push(request);
            },
            UploadStep::Finished => {},
        }
        let ack = Response::ChunkAck { chunk_id: upload.chunk_id };
        match upload.acknowledge(ack) {
            Ok(_) => {},
            Err(e) => {
                return Err(ClientError::TooManyChunks);
            },
        }
        pos = end;
    }
    assert(requests_view(list@) =~= all);
    Ok(list)
}

} // verus!
