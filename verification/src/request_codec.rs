//! The binary encoding of requests.
//!
//! A message is the index of its variant as a 32-bit integer, followed by the
//! fields of the variant in the order of their declaration. The encoding is
//! self-delimiting, so messages can follow one another on a byte stream, or
//! travel one per datagram.

use crate::message::{Request, RequestView};
use crate::wire::{
    bool_at, bool_byte, bytes_at, bytes_field, lemma_bool_at, lemma_bool_at_extends, lemma_bytes_at,
    lemma_bytes_at_extends, lemma_string_at, lemma_string_at_extends, lemma_u32_at_extends,
    lemma_u64_at_extends,
    lemma_tagged, lemma_u32_at, lemma_u64_at, put_bool, put_bytes, put_str, put_u32, put_u64,
    string_at, string_field, take_bool, take_bytes, take_string, take_u32, take_u64, u32_at,
    u64_at, varint, DecodeFailure,
};
use vstd::prelude::*;
use vstd::utf8::encode_utf8;

verus! {

/// Variant index of `Request::Dir`.
pub const TAG_DIR: u32 = 0;

/// Variant index of `Request::CdUp`.
pub const TAG_CD_UP: u32 = 1;

/// Variant index of `Request::Mkdir`.
pub const TAG_MKDIR: u32 = 2;

/// Variant index of `Request::Cd`.
pub const TAG_CD: u32 = 3;

/// Variant index of `Request::Copy`.
pub const TAG_COPY: u32 = 4;

/// Variant index of `Request::Upload`.
pub const TAG_UPLOAD: u32 = 5;

/// Variant index of `Request::Download`.
pub const TAG_DOWNLOAD: u32 = 6;

/// Variant index of `Request::UploadChunk`.
pub const TAG_UPLOAD_CHUNK: u32 = 7;

/// Variant index of `Request::DownloadChunk`.
pub const TAG_DOWNLOAD_CHUNK: u32 = 8;

/// Whether every string and byte string of the request is short enough for
/// its length to be held in memory. This holds of the view of every `Request`.
pub open spec fn request_fits(r: RequestView) -> bool {
    match r {
        RequestView::Dir => true,
        RequestView::CdUp => true,
        RequestView::Mkdir { name } => encode_utf8(name).len() <= usize::MAX,
        RequestView::Cd { path } => encode_utf8(path).len() <= usize::MAX,
        RequestView::Copy { src, dst } => encode_utf8(src).len() <= usize::MAX && encode_utf8(
            dst,
        ).len() <= usize::MAX,
        RequestView::Upload { dst_path, file_name, size } => encode_utf8(dst_path).len()
            <= usize::MAX && encode_utf8(file_name).len() <= usize::MAX,
        RequestView::Download { src_path } => encode_utf8(src_path).len() <= usize::MAX,
        RequestView::UploadChunk { chunk_id, data, is_last } => data.len() <= usize::MAX,
        RequestView::DownloadChunk { chunk_id } => true,
    }
}

/// Reads the name of a directory to create.
pub open spec fn parse_mkdir(bytes: Seq<u8>, pos: nat) -> Result<(RequestView, nat), DecodeFailure> {
    match string_at(bytes, pos) {
        Err(e) => Err(e),
        Ok((name, end)) => Ok((RequestView::Mkdir { name }, end)),
    }
}

/// Reads the path of a directory to move to.
pub open spec fn parse_cd(bytes: Seq<u8>, pos: nat) -> Result<(RequestView, nat), DecodeFailure> {
    match string_at(bytes, pos) {
        Err(e) => Err(e),
        Ok((path, end)) => Ok((RequestView::Cd { path }, end)),
    }
}

/// Reads the two paths of a copy request.
pub open spec fn parse_copy(bytes: Seq<u8>, pos: nat) -> Result<(RequestView, nat), DecodeFailure> {
    match string_at(bytes, pos) {
        Err(e) => Err(e),
        Ok((src, pos1)) => match string_at(bytes, pos1) {
            Err(e) => Err(e),
            Ok((dst, pos2)) => Ok((RequestView::Copy { src, dst }, pos2)),
        },
    }
}

/// Reads the fields of an upload announcement.
pub open spec fn parse_upload(bytes: Seq<u8>, pos: nat) -> Result<(RequestView, nat), DecodeFailure> {
    match string_at(bytes, pos) {
        Err(e) => Err(e),
        Ok((dst_path, pos1)) => match string_at(bytes, pos1) {
            Err(e) => Err(e),
            Ok((file_name, pos2)) => match u64_at(bytes, pos2) {
                Err(e) => Err(e),
                Ok((size, pos3)) => Ok((RequestView::Upload { dst_path, file_name, size }, pos3)),
            },
        },
    }
}

/// Reads the path of a file to download.
pub open spec fn parse_download(bytes: Seq<u8>, pos: nat) -> Result<
    (RequestView, nat),
    DecodeFailure,
> {
    match string_at(bytes, pos) {
        Err(e) => Err(e),
        Ok((src_path, end)) => Ok((RequestView::Download { src_path }, end)),
    }
}

/// Reads the fields of an upload chunk.
pub open spec fn parse_upload_chunk(bytes: Seq<u8>, pos: nat) -> Result<
    (RequestView, nat),
    DecodeFailure,
> {
    match u32_at(bytes, pos) {
        Err(e) => Err(e),
        Ok((chunk_id, pos1)) => match bytes_at(bytes, pos1) {
            Err(e) => Err(e),
            Ok((data, pos2)) => match bool_at(bytes, pos2) {
                Err(e) => Err(e),
                Ok((is_last, pos3)) => Ok(
                    (RequestView::UploadChunk { chunk_id, data, is_last }, pos3),
                ),
            },
        },
    }
}

/// Reads the number of the chunk that a download asks for.
pub open spec fn parse_download_chunk(bytes: Seq<u8>, pos: nat) -> Result<
    (RequestView, nat),
    DecodeFailure,
> {
    match u32_at(bytes, pos) {
        Err(e) => Err(e),
        Ok((chunk_id, end)) => Ok((RequestView::DownloadChunk { chunk_id }, end)),
    }
}

/// Reads the fields of the request variant with index `tag`, from `pos` on.
pub open spec fn parse_request_fields(bytes: Seq<u8>, tag: u32, pos: nat) -> Result<
    (RequestView, nat),
    DecodeFailure,
> {
    if tag == TAG_DIR {
        Ok((RequestView::Dir, pos))
    } else if tag == TAG_CD_UP {
        Ok((RequestView::CdUp, pos))
    } else if tag == TAG_MKDIR {
        parse_mkdir(bytes, pos)
    } else if tag == TAG_CD {
        parse_cd(bytes, pos)
    } else if tag == TAG_COPY {
        parse_copy(bytes, pos)
    } else if tag == TAG_UPLOAD {
        parse_upload(bytes, pos)
    } else if tag == TAG_DOWNLOAD {
        parse_download(bytes, pos)
    } else if tag == TAG_UPLOAD_CHUNK {
        parse_upload_chunk(bytes, pos)
    } else if tag == TAG_DOWNLOAD_CHUNK {
        parse_download_chunk(bytes, pos)
    } else {
        Err(DecodeFailure::UnexpectedVariant)
    }
}

/// Reads a request from the front of `bytes`: gives the request and the
/// number of bytes that it occupies, or the reason why there is none. Bytes
/// behind the request are not looked at.
pub open spec fn parse_request(bytes: Seq<u8>) -> Result<(RequestView, nat), DecodeFailure> {
    match u32_at(bytes, 0) {
        Err(e) => Err(e),
        Ok((tag, pos)) => parse_request_fields(bytes, tag, pos),
    }
}

/// The variant index of a request.
pub open spec fn request_tag(r: RequestView) -> u32 {
    match r {
        RequestView::Dir => TAG_DIR,
        RequestView::CdUp => TAG_CD_UP,
        RequestView::Mkdir { .. } => TAG_MKDIR,
        RequestView::Cd { .. } => TAG_CD,
        RequestView::Copy { .. } => TAG_COPY,
        RequestView::Upload { .. } => TAG_UPLOAD,
        RequestView::Download { .. } => TAG_DOWNLOAD,
        RequestView::UploadChunk { .. } => TAG_UPLOAD_CHUNK,
        RequestView::DownloadChunk { .. } => TAG_DOWNLOAD_CHUNK,
    }
}

/// The encoding of the fields of a request, without its variant index.
pub open spec fn request_fields(r: RequestView) -> Seq<u8> {
    match r {
        RequestView::Dir => Seq::empty(),
        RequestView::CdUp => Seq::empty(),
        RequestView::Mkdir { name } => string_field(name),
        RequestView::Cd { path } => string_field(path),
        RequestView::Copy { src, dst } => string_field(src) + string_field(dst),
        RequestView::Upload { dst_path, file_name, size } => string_field(dst_path) + (
        string_field(file_name) + varint(size as nat)),
        RequestView::Download { src_path } => string_field(src_path),
        RequestView::UploadChunk { chunk_id, data, is_last } => varint(chunk_id as nat) + (
        bytes_field(data) + bool_byte(is_last)),
        RequestView::DownloadChunk { chunk_id } => varint(chunk_id as nat),
    }
}

/// The encoding of a request.
pub open spec fn request_bytes(r: RequestView) -> Seq<u8> {
    varint(request_tag(r) as nat) + request_fields(r)
}

/// Reading back the fields of a copy request.
proof fn lemma_copy_fields(bytes: Seq<u8>, pos: nat, src: Seq<char>, dst: Seq<char>, rest: Seq<u8>)
    requires
        encode_utf8(src).len() <= usize::MAX,
        encode_utf8(dst).len() <= usize::MAX,
        pos <= bytes.len(),
        bytes.skip(pos as int) == string_field(src) + string_field(dst) + rest,
    ensures
        parse_copy(bytes, pos) == Ok::<(RequestView, nat), DecodeFailure>(
            (RequestView::Copy { src, dst }, pos + (string_field(src) + string_field(dst)).len()),
        ),
{
    let f1 = string_field(src);
    let f2 = string_field(dst);
    assert(f1 + f2 + rest =~= f1 + (f2 + rest));
    lemma_string_at(bytes, pos, src, f2 + rest);
    lemma_string_at(bytes, pos + f1.len(), dst, rest);
}

/// Reading back the fields of an upload announcement.
proof fn lemma_upload_fields(
    bytes: Seq<u8>,
    pos: nat,
    dst_path: Seq<char>,
    file_name: Seq<char>,
    size: u64,
    rest: Seq<u8>,
)
    requires
        encode_utf8(dst_path).len() <= usize::MAX,
        encode_utf8(file_name).len() <= usize::MAX,
        pos <= bytes.len(),
        bytes.skip(pos as int) == string_field(dst_path) + (string_field(file_name) + varint(
            size as nat,
        )) + rest,
    ensures
        parse_upload(bytes, pos) == Ok::<(RequestView, nat), DecodeFailure>(
            (
                RequestView::Upload { dst_path, file_name, size },
                pos + (string_field(dst_path) + (string_field(file_name) + varint(
                    size as nat,
                ))).len(),
            ),
        ),
{
    let f1 = string_field(dst_path);
    let f2 = string_field(file_name);
    let f3 = varint(size as nat);
    assert(f1 + (f2 + f3) + rest =~= f1 + (f2 + (f3 + rest)));
    lemma_string_at(bytes, pos, dst_path, f2 + (f3 + rest));
    lemma_string_at(bytes, pos + f1.len(), file_name, f3 + rest);
    lemma_u64_at(bytes, pos + f1.len() + f2.len(), size, rest);
}

/// Reading back the fields of an upload chunk.
proof fn lemma_upload_chunk_fields(
    bytes: Seq<u8>,
    pos: nat,
    chunk_id: u32,
    data: Seq<u8>,
    is_last: bool,
    rest: Seq<u8>,
)
    requires
        data.len() <= usize::MAX,
        pos <= bytes.len(),
        bytes.skip(pos as int) == varint(chunk_id as nat) + (bytes_field(data) + bool_byte(
            is_last,
        )) + rest,
    ensures
        parse_upload_chunk(bytes, pos) == Ok::<(RequestView, nat), DecodeFailure>(
            (
                RequestView::UploadChunk { chunk_id, data, is_last },
                pos + (varint(chunk_id as nat) + (bytes_field(data) + bool_byte(is_last))).len(),
            ),
        ),
{
    let f1 = varint(chunk_id as nat);
    let f2 = bytes_field(data);
    let f3 = bool_byte(is_last);
    assert(f1 + (f2 + f3) + rest =~= f1 + (f2 + (f3 + rest)));
    lemma_u32_at(bytes, pos, chunk_id, f2 + (f3 + rest));
    lemma_bytes_at(bytes, pos + f1.len(), data, f3 + rest);
    lemma_bool_at(bytes, pos + f1.len() + f2.len(), is_last, rest);
}

/// Where the bytes from `pos` on are the fields of `r` followed by `rest`,
/// reading the fields of its variant at `pos` gives `r` and stops in front of
/// `rest`.
pub proof fn lemma_request_fields(bytes: Seq<u8>, pos: nat, r: RequestView, rest: Seq<u8>)
    requires
        request_fits(r),
        pos <= bytes.len(),
        bytes.skip(pos as int) == request_fields(r) + rest,
    ensures
        parse_request_fields(bytes, request_tag(r), pos) == Ok::<(RequestView, nat), DecodeFailure>(
            (r, pos + request_fields(r).len()),
        ),
{
    match r {
        RequestView::Dir => {},
        RequestView::CdUp => {},
        RequestView::Mkdir { name } => {
            lemma_string_at(bytes, pos, name, rest);
        },
        RequestView::Cd { path } => {
            lemma_string_at(bytes, pos, path, rest);
        },
        RequestView::Copy { src, dst } => {
            lemma_copy_fields(bytes, pos, src, dst, rest);
        },
        RequestView::Upload { dst_path, file_name, size } => {
            lemma_upload_fields(bytes, pos, dst_path, file_name, size, rest);
        },
        RequestView::Download { src_path } => {
            lemma_string_at(bytes, pos, src_path, rest);
        },
        RequestView::UploadChunk { chunk_id, data, is_last } => {
            lemma_upload_chunk_fields(bytes, pos, chunk_id, data, is_last, rest);
        },
        RequestView::DownloadChunk { chunk_id } => {
            lemma_u32_at(bytes, pos, chunk_id, rest);
        },
    }
}

/// Decoding an encoded request gives the request back and stops where its
/// encoding ends, whatever bytes follow it.
pub proof fn lemma_request_round_trip(r: RequestView, rest: Seq<u8>)
    requires
        request_fits(r),
    ensures
        parse_request(request_bytes(r) + rest) == Ok::<(RequestView, nat), DecodeFailure>(
            (r, request_bytes(r).len()),
        ),
{
    let bytes = request_bytes(r) + rest;
    lemma_tagged(bytes, request_tag(r), request_fields(r), rest);
    lemma_request_fields(bytes, varint(request_tag(r) as nat).len(), r, rest);
}

/// More input changes nothing of what one string field reads as.
proof fn lemma_one_string_extends(bytes: Seq<u8>, pos: nat, more: Seq<u8>)
    requires
        pos <= bytes.len(),
    ensures
        parse_mkdir(bytes, pos) != Err::<(RequestView, nat), DecodeFailure>(
            DecodeFailure::UnexpectedEnd,
        ) ==> parse_mkdir(bytes + more, pos) == parse_mkdir(bytes, pos),
        parse_cd(bytes, pos) != Err::<(RequestView, nat), DecodeFailure>(DecodeFailure::UnexpectedEnd)
            ==> parse_cd(bytes + more, pos) == parse_cd(bytes, pos),
        parse_download(bytes, pos) != Err::<(RequestView, nat), DecodeFailure>(
            DecodeFailure::UnexpectedEnd,
        ) ==> parse_download(bytes + more, pos) == parse_download(bytes, pos),
        parse_mkdir(bytes, pos) matches Ok(p) ==> p.1 <= bytes.len(),
        parse_cd(bytes, pos) matches Ok(p) ==> p.1 <= bytes.len(),
        parse_download(bytes, pos) matches Ok(p) ==> p.1 <= bytes.len(),
{
    lemma_string_at_extends(bytes, pos, more);
}

/// More input changes nothing of what the fields of a copy request read as.
proof fn lemma_copy_extends(bytes: Seq<u8>, pos: nat, more: Seq<u8>)
    requires
        pos <= bytes.len(),
    ensures
        parse_copy(bytes, pos) != Err::<(RequestView, nat), DecodeFailure>(
            DecodeFailure::UnexpectedEnd,
        ) ==> parse_copy(bytes + more, pos) == parse_copy(bytes, pos),
        parse_copy(bytes, pos) matches Ok(p) ==> p.1 <= bytes.len(),
{
    lemma_string_at_extends(bytes, pos, more);
    match string_at(bytes, pos) {
        Ok((_, pos1)) => {
            lemma_string_at_extends(bytes, pos1, more);
        },
        Err(_) => {},
    }
}

/// More input changes nothing of what the fields of an upload announcement
/// read as.
proof fn lemma_upload_extends(bytes: Seq<u8>, pos: nat, more: Seq<u8>)
    requires
        pos <= bytes.len(),
    ensures
        parse_upload(bytes, pos) != Err::<(RequestView, nat), DecodeFailure>(
            DecodeFailure::UnexpectedEnd,
        ) ==> parse_upload(bytes + more, pos) == parse_upload(bytes, pos),
        parse_upload(bytes, pos) matches Ok(p) ==> p.1 <= bytes.len(),
{
    lemma_string_at_extends(bytes, pos, more);
    match string_at(bytes, pos) {
        Ok((_, pos1)) => {
            lemma_string_at_extends(bytes, pos1, more);
            match string_at(bytes, pos1) {
                Ok((_, pos2)) => {
                    lemma_u64_at_extends(bytes, pos2, more);
                },
                Err(_) => {},
            }
        },
        Err(_) => {},
    }
}

/// More input changes nothing of what the fields of an upload chunk read
/// as.
proof fn lemma_upload_chunk_extends(bytes: Seq<u8>, pos: nat, more: Seq<u8>)
    requires
        pos <= bytes.len(),
    ensures
        parse_upload_chunk(bytes, pos) != Err::<(RequestView, nat), DecodeFailure>(
            DecodeFailure::UnexpectedEnd,
        ) ==> parse_upload_chunk(bytes + more, pos) == parse_upload_chunk(bytes, pos),
        parse_upload_chunk(bytes, pos) matches Ok(p) ==> p.1 <= bytes.len(),
{
    lemma_u32_at_extends(bytes, pos, more);
    match u32_at(bytes, pos) {
        Ok((_, pos1)) => {
            lemma_bytes_at_extends(bytes, pos1, more);
            match bytes_at(bytes, pos1) {
                Ok((_, pos2)) => {
                    lemma_bool_at_extends(bytes, pos2, more);
                },
                Err(_) => {},
            }
        },
        Err(_) => {},
    }
}

/// More input behind it changes nothing of what the fields of a request
/// read as, unless the input ended before they did.
proof fn lemma_request_fields_extend(bytes: Seq<u8>, tag: u32, pos: nat, more: Seq<u8>)
    requires
        pos <= bytes.len(),
    ensures
        parse_request_fields(bytes, tag, pos) != Err::<(RequestView, nat), DecodeFailure>(
            DecodeFailure::UnexpectedEnd,
        ) ==> parse_request_fields(bytes + more, tag, pos) == parse_request_fields(bytes, tag, pos),
        parse_request_fields(bytes, tag, pos) matches Ok(p) ==> p.1 <= bytes.len(),
{
    lemma_one_string_extends(bytes, pos, more);
    lemma_copy_extends(bytes, pos, more);
    lemma_upload_extends(bytes, pos, more);
    lemma_upload_chunk_extends(bytes, pos, more);
    lemma_u32_at_extends(bytes, pos, more);
}

/// A request that has been read stays the same request however much input
/// follows it, and an input that is refused for another reason than its
/// ending stays refused for that reason. What is read lies within the
/// input.
pub proof fn lemma_parse_request_extends(bytes: Seq<u8>, more: Seq<u8>)
    ensures
        parse_request(bytes) != Err::<(RequestView, nat), DecodeFailure>(DecodeFailure::UnexpectedEnd)
            ==> parse_request(bytes + more) == parse_request(bytes),
        parse_request(bytes) matches Ok(p) ==> p.1 <= bytes.len(),
{
    lemma_u32_at_extends(bytes, 0, more);
    match u32_at(bytes, 0) {
        Ok((tag, pos)) => {
            lemma_request_fields_extend(bytes, tag, pos, more);
        },
        Err(_) => {},
    }
}

/// Every proper beginning of an encoded request reads as an input that
/// ended too early: a reader that takes a stream byte by byte finds the
/// request exactly when its last byte has come.
pub proof fn lemma_request_prefix_incomplete(r: RequestView, cut: int)
    requires
        request_fits(r),
        0 <= cut < request_bytes(r).len(),
    ensures
        parse_request(request_bytes(r).take(cut)) == Err::<(RequestView, nat), DecodeFailure>(
            DecodeFailure::UnexpectedEnd,
        ),
{
    let whole = request_bytes(r);
    let head = whole.take(cut);
    let tail = whole.skip(cut);
    assert(head + tail =~= whole);
    assert(whole + Seq::<u8>::empty() =~= whole);
    lemma_request_round_trip(r, Seq::empty());
    lemma_parse_request_extends(head, tail);
}

/// Encodes a request. Decoding the result gives the request back.
pub fn encode_request(req: &Request) -> (out: Vec<u8>)
    ensures
        out@ == request_bytes(req@),
        request_fits(req@),
        parse_request(out@) == Ok::<(RequestView, nat), DecodeFailure>((req@, out@.len())),
{
    let mut out: Vec<u8> = Vec::new();
    match req {
        Request::Dir => {
            put_u32(&mut out, TAG_DIR);
        },
        Request::CdUp => {
            put_u32(&mut out, TAG_CD_UP);
        },
        Request::Mkdir { name } => {
            put_u32(&mut out, TAG_MKDIR);
            put_str(&mut out, name.as_str());
        },
        Request::Cd { path } => {
            put_u32(&mut out, TAG_CD);
            put_str(&mut out, path.as_str());
        },
        Request::Copy { src, dst } => {
            put_u32(&mut out, TAG_COPY);
            put_str(&mut out, src.as_str());
            put_str(&mut out, dst.as_str());
        },
        Request::Upload { dst_path, file_name, size } => {
            put_u32(&mut out, TAG_UPLOAD);
            put_str(&mut out, dst_path.as_str());
            put_str(&mut out, file_name.as_str());
            put_u64(&mut out, *size);
        },
        Request::Download { src_path } => {
            put_u32(&mut out, TAG_DOWNLOAD);
            put_str(&mut out, src_path.as_str());
        },
        Request::UploadChunk { chunk_id, data, is_last } => {
            put_u32(&mut out, TAG_UPLOAD_CHUNK);
            put_u32(&mut out, *chunk_id);
            put_bytes(&mut out, data.as_slice());
            put_bool(&mut out, *is_last);
        },
        Request::DownloadChunk { chunk_id } => {
            put_u32(&mut out, TAG_DOWNLOAD_CHUNK);
            put_u32(&mut out, *chunk_id);
        },
    }
    proof {
        assert(out@ =~= request_bytes(req@));
        lemma_request_round_trip(req@, Seq::empty());
        assert(request_bytes(req@) + Seq::<u8>::empty() =~= request_bytes(req@));
    }
    out
}

/// Decodes the two paths of a copy request, from `pos` on.
fn decode_copy(bytes: &[u8], pos: usize) -> (res: Result<(Request, usize), DecodeFailure>)
    requires
        pos <= bytes@.len(),
    ensures
        match parse_copy(bytes@, pos as nat) {
            Ok((r, n)) => res matches Ok(p) && p.0@ == r && p.1 == n && n <= bytes@.len(),
            Err(e) => res matches Err(f) && f == e,
        },
{
    let (src, pos1) = match take_string(bytes, pos) {
        Ok(v) => v,
        Err(e) => {
            return Err(e);
        },
    };
    match take_string(bytes, pos1) {
        Ok((dst, end)) => Ok((Request::Copy { src, dst }, end)),
        Err(e) => Err(e),
    }
}

/// Decodes the fields of an upload announcement, from `pos` on.
fn decode_upload(bytes: &[u8], pos: usize) -> (res: Result<(Request, usize), DecodeFailure>)
    requires
        pos <= bytes@.len(),
    ensures
        match parse_upload(bytes@, pos as nat) {
            Ok((r, n)) => res matches Ok(p) && p.0@ == r && p.1 == n && n <= bytes@.len(),
            Err(e) => res matches Err(f) && f == e,
        },
{
    let (dst_path, pos1) = match take_string(bytes, pos) {
        Ok(v) => v,
        Err(e) => {
            return Err(e);
        },
    };
    let (file_name, pos2) = match take_string(bytes, pos1) {
        Ok(v) => v,
        Err(e) => {
            return Err(e);
        },
    };
    match take_u64(bytes, pos2) {
        Ok((size, end)) => Ok((Request::Upload { dst_path, file_name, size }, end)),
        Err(e) => Err(e),
    }
}

/// Decodes the fields of an upload chunk, from `pos` on.
fn decode_upload_chunk(bytes: &[u8], pos: usize) -> (res: Result<(Request, usize), DecodeFailure>)
    requires
        pos <= bytes@.len(),
    ensures
        match parse_upload_chunk(bytes@, pos as nat) {
            Ok((r, n)) => res matches Ok(p) && p.0@ == r && p.1 == n && n <= bytes@.len(),
            Err(e) => res matches Err(f) && f == e,
        },
{
    let (chunk_id, pos1) = match take_u32(bytes, pos) {
        Ok(v) => v,
        Err(e) => {
            return Err(e);
        },
    };
    let (data, pos2) = match take_bytes(bytes, pos1) {
        Ok(v) => v,
        Err(e) => {
            return Err(e);
        },
    };
    match take_bool(bytes, pos2) {
        Ok((is_last, end)) => Ok((Request::UploadChunk { chunk_id, data, is_last }, end)),
        Err(e) => Err(e),
    }
}

/// Decodes the request at the front of `bytes`. Gives the request and the
/// number of bytes read, or the reason why the bytes hold no request; bytes
/// behind the request are ignored. `UnexpectedEnd` is the only error that
/// more input could mend.
pub fn decode_request(bytes: &[u8]) -> (res: Result<(Request, usize), DecodeFailure>)
    ensures
        match parse_request(bytes@) {
            Ok((r, n)) => res matches Ok(p) && p.0@ == r && p.1 == n && n <= bytes@.len(),
            Err(e) => res matches Err(f) && f == e,
        },
{
    let (tag, pos) = match take_u32(bytes, 0) {
        Ok(v) => v,
        Err(e) => {
            return Err(e);
        },
    };
    if tag == TAG_DIR {
        Ok((Request::Dir, pos))
    } else if tag == TAG_CD_UP {
        Ok((Request::CdUp, pos))
    } else if tag == TAG_MKDIR {
        match take_string(bytes, pos) {
            Ok((name, end)) => Ok((Request::Mkdir { name }, end)),
            Err(e) => Err(e),
        }
    } else if tag == TAG_CD {
        match take_string(bytes, pos) {
            Ok((path, end)) => Ok((Request::Cd { path }, end)),
            Err(e) => Err(e),
        }
    } else if tag == TAG_COPY {
        decode_copy(bytes, pos)
    } else if tag == TAG_UPLOAD {
        decode_upload(bytes, pos)
    } else if tag == TAG_DOWNLOAD {
        match take_string(bytes, pos) {
            Ok((src_path, end)) => Ok((Request::Download { src_path }, end)),
            Err(e) => Err(e),
        }
    } else if tag == TAG_UPLOAD_CHUNK {
        decode_upload_chunk(bytes, pos)
    } else if tag == TAG_DOWNLOAD_CHUNK {
        match take_u32(bytes, pos) {
            Ok((chunk_id, end)) => Ok((Request::DownloadChunk { chunk_id }, end)),
            Err(e) => Err(e),
        }
    } else {
        Err(DecodeFailure::UnexpectedVariant)
    }
}

} // verus!
