//! The stream transport: messages follow one another on a byte stream
//! without any framing but their own encoding, and after the metadata
//! exchange of a transfer exactly as many raw bytes as were announced follow
//! on the same stream.
//!
//! The inbox holds what has arrived and has not been read yet, and hands it
//! out as messages or as raw bytes. The raw transfer counts the bytes of a
//! file down.

use crate::message::{Request, RequestView, Response, ResponseView};
use crate::request_codec::{
    decode_request, lemma_request_round_trip, parse_request, request_bytes, request_fits,
};
use crate::response_codec::{
    decode_response, lemma_response_round_trip, parse_response, response_bytes, response_fits,
};
use crate::wire::DecodeFailure;
use vstd::prelude::*;

verus! {

/// Bytes that a receiver asks the stream for at a time.
pub const STREAM_BUFFER_SIZE: usize = 8192;

/// Why a raw transfer was given up.
#[derive(Clone, Copy, Debug, PartialEq, Eq, Structural)]
pub enum StreamError {
    /// The stream ended after `received` of the `expected` bytes.
    UnexpectedEof { received: u64, expected: u64 },
    /// More bytes were reported than were asked for.
    Overrun,
}

/// The receiving end of a raw transfer: the bytes announced, and how many
/// of them are still to come.
#[derive(Debug, PartialEq, Eq)]
pub struct RawTransfer {
    size: u64,
    remaining: u64,
}

/// How many bytes to ask for when `remaining` are still to come: a buffer's
/// worth, or what is left if that is less.
pub open spec fn read_size(remaining: u64) -> usize {
    if remaining < STREAM_BUFFER_SIZE {
        remaining as usize
    } else {
        STREAM_BUFFER_SIZE
    }
}

/// What a read of `n` bytes comes to when `remaining` of `size` bytes are
/// still to come: the bytes left afterwards, or the reason to give up. A read
/// of nothing before the end is the end of the stream.
pub open spec fn after_read(size: u64, remaining: u64, n: usize) -> Result<u64, StreamError> {
    if n > read_size(remaining) {
        Err(StreamError::Overrun)
    } else if n == 0 && remaining > 0 {
        Err(StreamError::UnexpectedEof { received: (size - remaining) as u64, expected: size })
    } else {
        Ok((remaining - n) as u64)
    }
}

impl RawTransfer {
    #[verifier::type_invariant]
    spec fn counted_down(self) -> bool {
        self.remaining <= self.size
    }

    /// Bytes announced.
    pub closed spec fn size_view(&self) -> u64 {
        self.size
    }

    /// Bytes still to come.
    pub closed spec fn remaining_view(&self) -> u64 {
        self.remaining
    }

    /// A transfer of `size` bytes, none of them received yet.
    pub fn new(size: u64) -> (transfer: RawTransfer)
        ensures
            transfer.size_view() == size,
            transfer.remaining_view() == size,
    {
        RawTransfer { size, remaining: size }
    }

    /// Bytes announced.
    pub fn size(&self) -> (n: u64)
        ensures
            n == self.size_view(),
    {
        self.size
    }

    /// Bytes still to come; never more than were announced.
    pub fn remaining(&self) -> (n: u64)
        ensures
            n == self.remaining_view(),
            n <= self.size_view(),
    {
        proof {
            use_type_invariant(self);
        }
        self.remaining
    }

    /// Bytes received so far.
    pub fn received(&self) -> (n: u64)
        ensures
            n == self.size_view() - self.remaining_view(),
    {
        proof {
            use_type_invariant(self);
        }
        self.size - self.remaining
    }

    /// Whether every byte has been received.
    pub fn is_complete(&self) -> (done: bool)
        ensures
            done == (self.remaining_view() == 0),
    {
        self.remaining == 0
    }

    /// How many bytes to ask the stream for next; nothing only where the
    /// transfer is complete.
    pub fn next_read(&self) -> (n: usize)
        ensures
            n == read_size(self.remaining_view()),
            n <= STREAM_BUFFER_SIZE,
            n == 0 <==> self.remaining_view() == 0,
    {
        if self.remaining < STREAM_BUFFER_SIZE as u64 {
            self.remaining as usize
        } else {
            STREAM_BUFFER_SIZE
        }
    }

    /// Takes note of a read of `n` bytes. Tells whether the transfer is
    /// complete, or why it is given up; in that case nothing changes.
    pub fn record(&mut self, n: usize) -> (res: Result<bool, StreamError>)
        ensures
            final(self).size_view() == old(self).size_view(),
            match after_read(old(self).size_view(), old(self).remaining_view(), n) {
                Ok(left) => final(self).remaining_view() == left && res == Ok::<bool, StreamError>(
                    left == 0,
                ),
                Err(e) => final(self).remaining_view() == old(self).remaining_view() && res
                    == Err::<bool, StreamError>(e),
            },
    {
        proof {
            use_type_invariant(&*self);
        }
        if n > self.next_read() {
            return Err(StreamError::Overrun);
        }
        if n == 0 && self.remaining > 0 {
            return Err(
                StreamError::UnexpectedEof {
                    received: self.size - self.remaining,
                    expected: self.size,
                },
            );
        }
        self.remaining = self.remaining - n as u64;
        Ok(self.remaining == 0)
    }
}

/// A read that is filled always makes progress, and the transfer is
/// complete exactly when as many bytes have been read as were announced.
pub proof fn lemma_filled_read_progress(size: u64, remaining: u64)
    requires
        0 < remaining <= size,
    ensures
        read_size(remaining) > 0,
        after_read(size, remaining, read_size(remaining)) == Ok::<u64, StreamError>(
            (remaining - read_size(remaining)) as u64,
        ),
        remaining - read_size(remaining) < remaining,
        (remaining - read_size(remaining) == 0) <==> remaining <= STREAM_BUFFER_SIZE,
{
}

/// Whatever a read returns, the bytes still to come never grow, and they
/// shrink by exactly what was read.
pub proof fn lemma_read_counts_down(size: u64, remaining: u64, n: usize)
    requires
        remaining <= size,
    ensures
        after_read(size, remaining, n) matches Ok(left) ==> left + n == remaining && left <= size,
{
}

/// The bytes that have arrived on a stream and have not been read yet.
#[derive(Debug, PartialEq, Eq)]
pub struct Inbox {
    pending: Vec<u8>,
}

impl View for Inbox {
    type V = Seq<u8>;

    closed spec fn view(&self) -> Seq<u8> {
        self.pending@
    }
}

/// How many of `available` bytes a read of at most `limit` bytes takes.
pub open spec fn taken(available: nat, limit: usize) -> nat {
    if available < limit {
        available
    } else {
        limit as nat
    }
}

impl Inbox {
    /// An inbox with nothing in it.
    pub fn new() -> (inbox: Inbox)
        ensures
            inbox@ == Seq::<u8>::empty(),
    {
        Inbox { pending: Vec::new() }
    }

    /// Number of bytes that have not been read yet.
    pub fn len(&self) -> (n: usize)
        ensures
            n == self@.len(),
    {
        self.pending.len()
    }

    /// Adds bytes that have arrived behind those that are there.
    pub fn feed(&mut self, bytes: &[u8])
        ensures
            final(self)@ == old(self)@ + bytes@,
    {
        let mut arrived = vstd::slice::slice_to_vec(bytes);
        self.pending.append(&mut arrived);
    }

    /// Removes the first `n` bytes.
    fn drop_front(&mut self, n: usize)
        requires
            n <= old(self)@.len(),
        ensures
            final(self)@ == old(self)@.skip(n as int),
    {
        let rest = self.pending.split_off(n);
        self.pending = rest;
    }

    /// Reads the request at the front, if it has arrived in full: `None`
    /// where more bytes are needed to tell. What follows the request stays
    /// in the inbox; on an error nothing is removed.
    pub fn next_request(&mut self) -> (res: Result<Option<Request>, DecodeFailure>)
        ensures
            match parse_request(old(self)@) {
                Ok((r, n)) => res matches Ok(Some(request)) && request@ == r && final(self)@
                    == old(self)@.skip(n as int),
                Err(DecodeFailure::UnexpectedEnd) => res matches Ok(None) && final(self)@ == old(
                    self,
                )@,
                Err(e) => res matches Err(f) && f == e && final(self)@ == old(self)@,
            },
    {
        match decode_request(self.pending.as_slice()) {
            Ok((request, used)) => {
                self.drop_front(used);
                Ok(Some(request))
            },
            Err(DecodeFailure::UnexpectedEnd) => Ok(None),
            Err(e) => Err(e),
        }
    }

    /// Reads the response at the front, if it has arrived in full: `None`
    /// where more bytes are needed to tell. What follows the response stays
    /// in the inbox; on an error nothing is removed.
    pub fn next_response(&mut self) -> (res: Result<Option<Response>, DecodeFailure>)
        ensures
            match parse_response(old(self)@) {
                Ok((r, n)) => res matches Ok(Some(response)) && response@ == r && final(self)@
                    == old(self)@.skip(n as int),
                Err(DecodeFailure::UnexpectedEnd) => res matches Ok(None) && final(self)@ == old(
                    self,
                )@,
                Err(e) => res matches Err(f) && f == e && final(self)@ == old(self)@,
            },
    {
        match decode_response(self.pending.as_slice()) {
            Ok((response, used)) => {
                self.drop_front(used);
                Ok(Some(response))
            },
            Err(DecodeFailure::UnexpectedEnd) => Ok(None),
            Err(e) => Err(e),
        }
    }

    /// Takes up to `limit` raw bytes from the front.
    pub fn take_raw(&mut self, limit: usize) -> (bytes: Vec<u8>)
        ensures
            bytes@ == old(self)@.take(taken(old(self)@.len(), limit) as int),
            final(self)@ == old(self)@.skip(taken(old(self)@.len(), limit) as int),
    {
        let n: usize = if self.pending.len() < limit {
            self.pending.len()
        } else {
            limit
        };
        let rest = self.pending.split_off(n);
        let mut front: Vec<u8> = Vec::new();
        front.append(&mut self.pending);
        self.pending = rest;
        front
    }
}

/// A request that was written to a stream is read from it as it was
/// written, and what was written behind it is what stays behind it.
pub proof fn lemma_stream_keeps_request_boundaries(r: RequestView, behind: Seq<u8>)
    requires
        request_fits(r),
    ensures
        parse_request(request_bytes(r) + behind) matches Ok(p) && p.0 == r && (request_bytes(r)
            + behind).skip(p.1 as int) == behind,
{
    lemma_request_round_trip(r, behind);
    assert((request_bytes(r) + behind).skip(request_bytes(r).len() as int) =~= behind);
}

/// A response that was written to a stream is read from it as it was
/// written, and what was written behind it, be it the raw bytes of a file,
/// is what stays behind it.
pub proof fn lemma_stream_keeps_response_boundaries(r: ResponseView, behind: Seq<u8>)
    requires
        response_fits(r),
    ensures
        parse_response(response_bytes(r) + behind) matches Ok(p) && p.0 == r && (response_bytes(r)
            + behind).skip(p.1 as int) == behind,
{
    lemma_response_round_trip(r, behind);
    assert((response_bytes(r) + behind).skip(response_bytes(r).len() as int) =~= behind);
}

/// How many of the `available` bytes at the front of an inbox belong to a
/// transfer of which `remaining` bytes are still to come.
pub open spec fn file_part(remaining: u64, available: nat) -> nat {
    if available < remaining {
        available
    } else {
        remaining as nat
    }
}

impl RawTransfer {
    /// Takes from the inbox what belongs to this transfer: the bytes at its
    /// front, as far as the transfer still has bytes to come. What lies
    /// behind them stays in the inbox.
    pub fn take_from(&mut self, inbox: &mut Inbox) -> (bytes: Vec<u8>)
        ensures
            final(self).size_view() == old(self).size_view(),
            final(self).remaining_view() == old(self).remaining_view() - file_part(
                old(self).remaining_view(),
                old(inbox)@.len(),
            ),
            bytes@ == old(inbox)@.take(
                file_part(old(self).remaining_view(), old(inbox)@.len()) as int,
            ),
            final(inbox)@ == old(inbox)@.skip(
                file_part(old(self).remaining_view(), old(inbox)@.len()) as int,
            ),
    {
        let mut bytes: Vec<u8> = Vec::new();
        assert(old(inbox)@.take(0) =~= bytes@);
        assert(old(inbox)@.skip(0) =~= inbox@);
        while !self.is_complete() && inbox.len() > 0
            invariant
                self.size_view() == old(self).size_view(),
                bytes@.len() <= old(self).remaining_view(),
                bytes@.len() <= old(inbox)@.len(),
                self.remaining_view() == old(self).remaining_view() - bytes@.len(),
                bytes@ == old(inbox)@.take(bytes@.len() as int),
                inbox@ == old(inbox)@.skip(bytes@.len() as int),
            decreases inbox@.len(),
        {
            let ghost before = bytes@;
            let ghost pending = inbox@;
            let mut block = inbox.take_raw(self.next_read());
            let n: usize = block.len();
            let ghost left = self.remaining_view();
            match self.record(n) {
                Ok(_) => {},
                Err(_) => {},
            }
            assert(self.remaining_view() == left - n);
            bytes.append(&mut block);
            assert(bytes@ =~= old(inbox)@.take(bytes@.len() as int));
            assert(inbox@ =~= old(inbox)@.skip(bytes@.len() as int));
        }
        bytes
    }
}

/// What a streamed upload puts on the stream: the announcement, then the
/// content of the file as it is, nothing in between and nothing around it.
pub open spec fn upload_stream(dst_path: Seq<char>, file_name: Seq<char>, content: Seq<u8>) -> Seq<
    u8,
> {
    request_bytes(RequestView::Upload { dst_path, file_name, size: content.len() as u64 })
        + content
}

/// What a streamed download puts on the stream: the metadata, then the
/// content of the file as it is.
pub open spec fn download_stream(name: Seq<char>, content: Seq<u8>) -> Seq<u8> {
    response_bytes(ResponseView::FileMetadata { name, size: content.len() as u64 }) + content
}

/// A streamed upload arrives as it was sent: the receiver reads the
/// announcement, then finds exactly the content of the file in the bytes
/// that the announced size counts, and what was sent behind the file is
/// what is left for the next request.
pub proof fn lemma_streamed_upload_arrives(
    dst_path: Seq<char>,
    file_name: Seq<char>,
    content: Seq<u8>,
    behind: Seq<u8>,
)
    requires
        content.len() <= u64::MAX,
        request_fits(
            RequestView::Upload { dst_path, file_name, size: content.len() as u64 },
        ),
    ensures
        ({
            let wire = upload_stream(dst_path, file_name, content) + behind;
            let size = content.len() as u64;
            &&& parse_request(wire) matches Ok(p)
            &&& parse_request(wire)->Ok_0.0 == RequestView::Upload { dst_path, file_name, size }
            &&& file_part(size, wire.skip(parse_request(wire)->Ok_0.1 as int).len())
                == content.len()
            &&& wire.skip(parse_request(wire)->Ok_0.1 as int).take(content.len() as int) == content
            &&& wire.skip(parse_request(wire)->Ok_0.1 as int).skip(content.len() as int) == behind
        }),
{
    let announce = RequestView::Upload { dst_path, file_name, size: content.len() as u64 };
    let wire = upload_stream(dst_path, file_name, content) + behind;
    assert(wire =~= request_bytes(announce) + (content + behind));
    lemma_stream_keeps_request_boundaries(announce, content + behind);
    assert((content + behind).take(content.len() as int) =~= content);
    assert((content + behind).skip(content.len() as int) =~= behind);
}

/// A streamed download arrives as it was sent: the receiver reads the
/// metadata, then finds exactly the content of the file in the bytes that
/// the announced size counts, and what was sent behind the file is what is
/// left for the next response.
pub proof fn lemma_streamed_download_arrives(name: Seq<char>, content: Seq<u8>, behind: Seq<u8>)
    requires
        content.len() <= u64::MAX,
        response_fits(ResponseView::FileMetadata { name, size: content.len() as u64 }),
    ensures
        ({
            let wire = download_stream(name, content) + behind;
            let size = content.len() as u64;
            &&& parse_response(wire) matches Ok(p)
            &&& parse_response(wire)->Ok_0.0 == ResponseView::FileMetadata { name, size }
            &&& file_part(size, wire.skip(parse_response(wire)->Ok_0.1 as int).len())
                == content.len()
            &&& wire.skip(parse_response(wire)->Ok_0.1 as int).take(content.len() as int)
                == content
            &&& wire.skip(parse_response(wire)->Ok_0.1 as int).skip(content.len() as int)
                == behind
        }),
{
    let metadata = ResponseView::FileMetadata { name, size: content.len() as u64 };
    let wire = download_stream(name, content) + behind;
    assert(wire =~= response_bytes(metadata) + (content + behind));
    lemma_stream_keeps_response_boundaries(metadata, content + behind);
    assert((content + behind).take(content.len() as int) =~= content);
    assert((content + behind).skip(content.len() as int) =~= behind);
}

/// A file that is streamed up and then streamed down again arrives with
/// the content that it was sent with, whatever its length, provided the
/// host stores what it receives and sends what it stored.
pub proof fn lemma_streamed_round_trip(
    dst_path: Seq<char>,
    file_name: Seq<char>,
    content: Seq<u8>,
)
    requires
        content.len() <= u64::MAX,
        request_fits(
            RequestView::Upload { dst_path, file_name, size: content.len() as u64 },
        ),
        response_fits(ResponseView::FileMetadata { name: file_name, size: content.len() as u64 }),
    ensures
        ({
            let up = upload_stream(dst_path, file_name, content);
            let stored = up.skip(parse_request(up)->Ok_0.1 as int).take(content.len() as int);
            let down = download_stream(file_name, stored);
            &&& stored == content
            &&& down.skip(parse_response(down)->Ok_0.1 as int).take(stored.len() as int)
                == content
            &&& down.skip(parse_response(down)->Ok_0.1 as int).skip(stored.len() as int).len()
                == 0
        }),
{
    let up = upload_stream(dst_path, file_name, content);
    assert(up + Seq::<u8>::empty() =~= up);
    lemma_streamed_upload_arrives(dst_path, file_name, content, Seq::empty());
    let down = download_stream(file_name, content);
    assert(down + Seq::<u8>::empty() =~= down);
    lemma_streamed_download_arrives(file_name, content, Seq::empty());
}

} // verus!
