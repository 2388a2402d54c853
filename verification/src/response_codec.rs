//! The binary encoding of responses.
//!
//! A response is the index of its variant as a 32-bit integer, followed by
//! the fields of the variant in the order of their declaration. A listing is
//! the number of its entries followed by the entries, each a name and a flag.

use crate::message::{entries_view, DirEntry, DirEntryView, Response, ResponseView};
use crate::wire::{
    bool_at, bool_byte, bytes_at, bytes_field, lemma_bool_at, lemma_bool_at_extends, lemma_bytes_at,
    lemma_bytes_at_extends, lemma_string_at, lemma_string_at_extends, lemma_u32_at_extends,
    lemma_u64_at_extends,
    lemma_tagged, lemma_u32_at, lemma_u64_at, put_bool, put_bytes, put_str, put_u32, put_u64, string_at,
    string_field, take_bool, take_bytes, take_string, take_u32, take_u64, u32_at, u64_at, varint,
    DecodeFailure,
};
use vstd::prelude::*;
use vstd::utf8::encode_utf8;

verus! {

/// Variant index of `Response::Success`.
pub const TAG_SUCCESS: u32 = 0;

/// Variant index of `Response::DirList`.
pub const TAG_DIR_LIST: u32 = 1;

/// Variant index of `Response::CopyResult`.
pub const TAG_COPY_RESULT: u32 = 2;

/// Variant index of `Response::FileMetadata`.
pub const TAG_FILE_METADATA: u32 = 3;

/// Variant index of `Response::Error`.
pub const TAG_ERROR: u32 = 4;

/// Variant index of `Response::ChunkAck`.
pub const TAG_CHUNK_ACK: u32 = 5;

/// Variant index of `Response::FileChunk`.
pub const TAG_FILE_CHUNK: u32 = 6;

/// The encoding of one entry of a listing.
pub open spec fn entry_bytes(e: DirEntryView) -> Seq<u8> {
    string_field(e.name) + bool_byte(e.is_dir)
}

/// The encodings of the entries of a listing, one after the other.
pub open spec fn entries_bytes(entries: Seq<DirEntryView>) -> Seq<u8>
    decreases entries.len(),
{
    if entries.len() == 0 {
        Seq::empty()
    } else {
        entry_bytes(entries[0]) + entries_bytes(entries.skip(1))
    }
}

/// The encoding of the fields of a response, without its variant index.
pub open spec fn response_fields(r: ResponseView) -> Seq<u8> {
    match r {
        ResponseView::Success => Seq::empty(),
        ResponseView::DirList(entries) => varint(entries.len()) + entries_bytes(entries),
        ResponseView::CopyResult { bytes_copied } => varint(bytes_copied as nat),
        ResponseView::FileMetadata { name, size } => string_field(name) + varint(size as nat),
        ResponseView::Error(message) => string_field(message),
        ResponseView::ChunkAck { chunk_id } => varint(chunk_id as nat),
        ResponseView::FileChunk { chunk_id, data, is_last } => varint(chunk_id as nat) + (
        bytes_field(data) + bool_byte(is_last)),
    }
}

/// The variant index of a response.
pub open spec fn response_tag(r: ResponseView) -> u32 {
    match r {
        ResponseView::Success => TAG_SUCCESS,
        ResponseView::DirList(..) => TAG_DIR_LIST,
        ResponseView::CopyResult { .. } => TAG_COPY_RESULT,
        ResponseView::FileMetadata { .. } => TAG_FILE_METADATA,
        ResponseView::Error(..) => TAG_ERROR,
        ResponseView::ChunkAck { .. } => TAG_CHUNK_ACK,
        ResponseView::FileChunk { .. } => TAG_FILE_CHUNK,
    }
}

/// The encoding of a response.
pub open spec fn response_bytes(r: ResponseView) -> Seq<u8> {
    varint(response_tag(r) as nat) + response_fields(r)
}

/// Whether the name of every entry is short enough for its length to be held
/// in memory.
pub open spec fn entries_fit(entries: Seq<DirEntryView>) -> bool {
    forall|i: int| 0 <= i < entries.len() ==> encode_utf8(#[trigger] entries[i].name).len()
        <= usize::MAX
}

/// Whether every string, byte string and listing of the response is short
/// enough for its length to be held in memory. This holds of the view of
/// every `Response`.
pub open spec fn response_fits(r: ResponseView) -> bool {
    match r {
        ResponseView::Success => true,
        ResponseView::DirList(entries) => entries.len() <= usize::MAX && entries_fit(entries),
        ResponseView::CopyResult { bytes_copied } => true,
        ResponseView::FileMetadata { name, size } => encode_utf8(name).len() <= usize::MAX,
        ResponseView::Error(message) => encode_utf8(message).len() <= usize::MAX,
        ResponseView::ChunkAck { chunk_id } => true,
        ResponseView::FileChunk { chunk_id, data, is_last } => data.len() <= usize::MAX,
    }
}

/// Reads one entry of a listing at `pos`.
pub open spec fn entry_at(bytes: Seq<u8>, pos: nat) -> Result<(DirEntryView, nat), DecodeFailure> {
    match string_at(bytes, pos) {
        Err(e) => Err(e),
        Ok((name, pos1)) => match bool_at(bytes, pos1) {
            Err(e) => Err(e),
            Ok((is_dir, pos2)) => Ok((DirEntryView { name, is_dir }, pos2)),
        },
    }
}

/// Reads `count` entries of a listing, the first of them at `pos`.
pub open spec fn entries_at(bytes: Seq<u8>, pos: nat, count: nat) -> Result<
    (Seq<DirEntryView>, nat),
    DecodeFailure,
>
    decreases count,
{
    if count == 0 {
        Ok((Seq::empty(), pos))
    } else {
        match entry_at(bytes, pos) {
            Err(e) => Err(e),
            Ok((first, pos1)) => match entries_at(bytes, pos1, (count - 1) as nat) {
                Err(e) => Err(e),
                Ok((others, pos2)) => Ok((seq![first] + others, pos2)),
            },
        }
    }
}

/// Reads a listing at `pos`: the number of entries, then the entries.
pub open spec fn parse_dir_list(bytes: Seq<u8>, pos: nat) -> Result<
    (ResponseView, nat),
    DecodeFailure,
> {
    match u64_at(bytes, pos) {
        Err(e) => Err(e),
        Ok((count, pos1)) => {
            if count > usize::MAX {
                Err(DecodeFailure::LengthOutOfRange)
            } else {
                match entries_at(bytes, pos1, count as nat) {
                    Err(e) => Err(e),
                    Ok((entries, pos2)) => Ok((ResponseView::DirList(entries), pos2)),
                }
            }
        },
    }
}

/// Reads the number of bytes that a copy moved.
pub open spec fn parse_copy_result(bytes: Seq<u8>, pos: nat) -> Result<
    (ResponseView, nat),
    DecodeFailure,
> {
    match u64_at(bytes, pos) {
        Err(e) => Err(e),
        Ok((bytes_copied, end)) => Ok((ResponseView::CopyResult { bytes_copied }, end)),
    }
}

/// Reads the name and size of a file.
pub open spec fn parse_file_metadata(bytes: Seq<u8>, pos: nat) -> Result<
    (ResponseView, nat),
    DecodeFailure,
> {
    match string_at(bytes, pos) {
        Err(e) => Err(e),
        Ok((name, pos1)) => match u64_at(bytes, pos1) {
            Err(e) => Err(e),
            Ok((size, pos2)) => Ok((ResponseView::FileMetadata { name, size }, pos2)),
        },
    }
}

/// Reads the message of an error.
pub open spec fn parse_error(bytes: Seq<u8>, pos: nat) -> Result<(ResponseView, nat), DecodeFailure> {
    match string_at(bytes, pos) {
        Err(e) => Err(e),
        Ok((message, end)) => Ok((ResponseView::Error(message), end)),
    }
}

/// Reads the number of an acknowledged chunk.
pub open spec fn parse_chunk_ack(bytes: Seq<u8>, pos: nat) -> Result<
    (ResponseView, nat),
    DecodeFailure,
> {
    match u32_at(bytes, pos) {
        Err(e) => Err(e),
        Ok((chunk_id, end)) => Ok((ResponseView::ChunkAck { chunk_id }, end)),
    }
}

/// Reads the fields of a file chunk.
pub open spec fn parse_file_chunk(bytes: Seq<u8>, pos: nat) -> Result<
    (ResponseView, nat),
    DecodeFailure,
> {
    match u32_at(bytes, pos) {
        Err(e) => Err(e),
        Ok((chunk_id, pos1)) => match bytes_at(bytes, pos1) {
            Err(e) => Err(e),
            Ok((data, pos2)) => match bool_at(bytes, pos2) {
                Err(e) => Err(e),
                Ok((is_last, pos3)) => Ok((ResponseView::FileChunk { chunk_id, data, is_last }, pos3)),
            },
        },
    }
}

/// Reads the fields of the response variant with index `tag`, from `pos` on.
pub open spec fn parse_response_fields(bytes: Seq<u8>, tag: u32, pos: nat) -> Result<
    (ResponseView, nat),
    DecodeFailure,
> {
    if tag == TAG_SUCCESS {
        Ok((ResponseView::Success, pos))
    } else if tag == TAG_DIR_LIST {
        parse_dir_list(bytes, pos)
    } else if tag == TAG_COPY_RESULT {
        parse_copy_result(bytes, pos)
    } else if tag == TAG_FILE_METADATA {
        parse_file_metadata(bytes, pos)
    } else if tag == TAG_ERROR {
        parse_error(bytes, pos)
    } else if tag == TAG_CHUNK_ACK {
        parse_chunk_ack(bytes, pos)
    } else if tag == TAG_FILE_CHUNK {
        parse_file_chunk(bytes, pos)
    } else {
        Err(DecodeFailure::UnexpectedVariant)
    }
}

/// Reads a response from the front of `bytes`: gives the response and the
/// number of bytes that it occupies, or the reason why there is none. Bytes
/// behind the response are not looked at.
pub open spec fn parse_response(bytes: Seq<u8>) -> Result<(ResponseView, nat), DecodeFailure> {
    match u32_at(bytes, 0) {
        Err(e) => Err(e),
        Ok((tag, pos)) => parse_response_fields(bytes, tag, pos),
    }
}

/// Adding an entry at the end of a listing adds its encoding at the end.
pub proof fn lemma_entries_bytes_push(entries: Seq<DirEntryView>, last: DirEntryView)
    ensures
        entries_bytes(entries.push(last)) == entries_bytes(entries) + entry_bytes(last),
    decreases entries.len(),
{
    let all = entries.push(last);
    if entries.len() == 0 {
        assert(all.skip(1) =~= Seq::<DirEntryView>::empty());
        assert(entries_bytes(all.skip(1)) =~= Seq::<u8>::empty());
        assert(entries_bytes(all) =~= entry_bytes(last));
        assert(entries_bytes(entries) + entry_bytes(last) =~= entry_bytes(last));
    } else {
        assert(all.skip(1) =~= entries.skip(1).push(last));
        lemma_entries_bytes_push(entries.skip(1), last);
        assert(entries_bytes(all) =~= entries_bytes(entries) + entry_bytes(last));
    }
}

/// Where the bytes from `pos` on are the encoding of `e` followed by `rest`,
/// reading an entry at `pos` gives `e`.
pub proof fn lemma_entry_at(bytes: Seq<u8>, pos: nat, e: DirEntryView, rest: Seq<u8>)
    requires
        encode_utf8(e.name).len() <= usize::MAX,
        pos <= bytes.len(),
        bytes.skip(pos as int) == entry_bytes(e) + rest,
    ensures
        entry_at(bytes, pos) == Ok::<(DirEntryView, nat), DecodeFailure>(
            (e, pos + entry_bytes(e).len()),
        ),
        pos + entry_bytes(e).len() <= bytes.len(),
        bytes.skip((pos + entry_bytes(e).len()) as int) == rest,
{
    let f1 = string_field(e.name);
    let f2 = bool_byte(e.is_dir);
    assert(entry_bytes(e) + rest =~= f1 + (f2 + rest));
    lemma_string_at(bytes, pos, e.name, f2 + rest);
    lemma_bool_at(bytes, pos + f1.len(), e.is_dir, rest);
}

/// Where the bytes from `pos` on are the encodings of `entries` followed by
/// `rest`, reading that many entries at `pos` gives them back.
pub proof fn lemma_entries_at(bytes: Seq<u8>, pos: nat, entries: Seq<DirEntryView>, rest: Seq<u8>)
    requires
        entries_fit(entries),
        pos <= bytes.len(),
        bytes.skip(pos as int) == entries_bytes(entries) + rest,
    ensures
        entries_at(bytes, pos, entries.len()) == Ok::<(Seq<DirEntryView>, nat), DecodeFailure>(
            (entries, pos + entries_bytes(entries).len()),
        ),
        pos + entries_bytes(entries).len() <= bytes.len(),
        bytes.skip((pos + entries_bytes(entries).len()) as int) == rest,
    decreases entries.len(),
{
    if entries.len() == 0 {
        assert(entries_bytes(entries) + rest =~= rest);
        assert(entries =~= Seq::<DirEntryView>::empty());
    } else {
        let first = entries[0];
        let others = entries.skip(1);
        let f1 = entry_bytes(first);
        let f2 = entries_bytes(others);
        assert(entries_bytes(entries) + rest =~= f1 + (f2 + rest));
        lemma_entry_at(bytes, pos, first, f2 + rest);
        assert(entries_fit(others)) by {
            assert forall|i: int| 0 <= i < others.len() implies encode_utf8(
                #[trigger] others[i].name,
            ).len() <= usize::MAX by {
                assert(others[i] == entries[i + 1]);
            }
        }
        lemma_entries_at(bytes, pos + f1.len(), others, rest);
        assert(seq![first] + others =~= entries);
    }
}

/// Reading back a listing.
proof fn lemma_dir_list_fields(bytes: Seq<u8>, pos: nat, entries: Seq<DirEntryView>, rest: Seq<u8>)
    requires
        entries.len() <= usize::MAX,
        entries_fit(entries),
        pos <= bytes.len(),
        bytes.skip(pos as int) == varint(entries.len()) + entries_bytes(entries) + rest,
    ensures
        parse_dir_list(bytes, pos) == Ok::<(ResponseView, nat), DecodeFailure>(
            (
                ResponseView::DirList(entries),
                pos + (varint(entries.len()) + entries_bytes(entries)).len(),
            ),
        ),
{
    let f1 = varint(entries.len());
    let f2 = entries_bytes(entries);
    assert(f1 + f2 + rest =~= f1 + (f2 + rest));
    lemma_u64_at(bytes, pos, entries.len() as u64, f2 + rest);
    lemma_entries_at(bytes, pos + f1.len(), entries, rest);
}

/// Reading back the name and size of a file.
proof fn lemma_file_metadata_fields(
    bytes: Seq<u8>,
    pos: nat,
    name: Seq<char>,
    size: u64,
    rest: Seq<u8>,
)
    requires
        encode_utf8(name).len() <= usize::MAX,
        pos <= bytes.len(),
        bytes.skip(pos as int) == string_field(name) + varint(size as nat) + rest,
    ensures
        parse_file_metadata(bytes, pos) == Ok::<(ResponseView, nat), DecodeFailure>(
            (
                ResponseView::FileMetadata { name, size },
                pos + (string_field(name) + varint(size as nat)).len(),
            ),
        ),
{
    let f1 = string_field(name);
    let f2 = varint(size as nat);
    assert(f1 + f2 + rest =~= f1 + (f2 + rest));
    lemma_string_at(bytes, pos, name, f2 + rest);
    lemma_u64_at(bytes, pos + f1.len(), size, rest);
}

/// Reading back the fields of a file chunk.
proof fn lemma_file_chunk_fields(
    bytes: Seq<u8>,
    pos: nat,
    chunk_id: u32,
    data: Seq<u8>,
    is_last: bool,
    rest: Seq<u8>,
)
    requires
        data.len() <= usize::MAX,
        pos <= bytes.len(),
        bytes.skip(pos as int) == varint(chunk_id as nat) + (bytes_field(data) + bool_byte(
            is_last,
        )) + rest,
    ensures
        parse_file_chunk(bytes, pos) == Ok::<(ResponseView, nat), DecodeFailure>(
            (
                ResponseView::FileChunk { chunk_id, data, is_last },
                pos + (varint(chunk_id as nat) + (bytes_field(data) + bool_byte(is_last))).len(),
            ),
        ),
{
    let f1 = varint(chunk_id as nat);
    let f2 = bytes_field(data);
    let f3 = bool_byte(is_last);
    assert(f1 + (f2 + f3) + rest =~= f1 + (f2 + (f3 + rest)));
    lemma_u32_at(bytes, pos, chunk_id, f2 + (f3 + rest));
    lemma_bytes_at(bytes, pos + f1.len(), data, f3 + rest);
    lemma_bool_at(bytes, pos + f1.len() + f2.len(), is_last, rest);
}

/// Where the bytes from `pos` on are the fields of `r` followed by `rest`,
/// reading the fields of its variant at `pos` gives `r` and stops in front of
/// `rest`.
pub proof fn lemma_response_fields(bytes: Seq<u8>, pos: nat, r: ResponseView, rest: Seq<u8>)
    requires
        response_fits(r),
        pos <= bytes.len(),
        bytes.skip(pos as int) == response_fields(r) + rest,
    ensures
        parse_response_fields(bytes, response_tag(r), pos) == Ok::<
            (ResponseView, nat),
            DecodeFailure,
        >((r, pos + response_fields(r).len())),
{
    match r {
        ResponseView::Success => {},
        ResponseView::DirList(entries) => {
            lemma_dir_list_fields(bytes, pos, entries, rest);
        },
        ResponseView::CopyResult { bytes_copied } => {
            lemma_u64_at(bytes, pos, bytes_copied, rest);
        },
        ResponseView::FileMetadata { name, size } => {
            lemma_file_metadata_fields(bytes, pos, name, size, rest);
        },
        ResponseView::Error(message) => {
            lemma_string_at(bytes, pos, message, rest);
        },
        ResponseView::ChunkAck { chunk_id } => {
            lemma_u32_at(bytes, pos, chunk_id, rest);
        },
        ResponseView::FileChunk { chunk_id, data, is_last } => {
            lemma_file_chunk_fields(bytes, pos, chunk_id, data, is_last, rest);
        },
    }
}

/// Decoding an encoded response gives the response back and stops where its
/// encoding ends, whatever bytes follow it.
pub proof fn lemma_response_round_trip(r: ResponseView, rest: Seq<u8>)
    requires
        response_fits(r),
    ensures
        parse_response(response_bytes(r) + rest) == Ok::<(ResponseView, nat), DecodeFailure>(
            (r, response_bytes(r).len()),
        ),
{
    let bytes = response_bytes(r) + rest;
    lemma_tagged(bytes, response_tag(r), response_fields(r), rest);
    lemma_response_fields(bytes, varint(response_tag(r) as nat).len(), r, rest);
}

/// More input changes nothing of what an entry reads as, unless the input
/// ended before the entry did.
proof fn lemma_entry_at_extends(bytes: Seq<u8>, pos: nat, more: Seq<u8>)
    requires
        pos <= bytes.len(),
    ensures
        entry_at(bytes, pos) != Err::<(DirEntryView, nat), DecodeFailure>(DecodeFailure::UnexpectedEnd)
            ==> entry_at(bytes + more, pos) == entry_at(bytes, pos),
        entry_at(bytes, pos) matches Ok(p) ==> pos < p.1 <= bytes.len(),
{
    lemma_string_at_extends(bytes, pos, more);
    match string_at(bytes, pos) {
        Ok((_, pos1)) => {
            lemma_bool_at_extends(bytes, pos1, more);
        },
        Err(_) => {},
    }
}

/// More input changes nothing of what a run of entries reads as, unless the
/// input ended before the entries did.
proof fn lemma_entries_at_extends(bytes: Seq<u8>, pos: nat, count: nat, more: Seq<u8>)
    requires
        pos <= bytes.len(),
    ensures
        entries_at(bytes, pos, count) != Err::<(Seq<DirEntryView>, nat), DecodeFailure>(
            DecodeFailure::UnexpectedEnd,
        ) ==> entries_at(bytes + more, pos, count) == entries_at(bytes, pos, count),
        entries_at(bytes, pos, count) matches Ok(p) ==> pos <= p.1 <= bytes.len(),
    decreases count,
{
    if count > 0 {
        lemma_entry_at_extends(bytes, pos, more);
        match entry_at(bytes, pos) {
            Ok((_, pos1)) => {
                lemma_entries_at_extends(bytes, pos1, (count - 1) as nat, more);
            },
            Err(_) => {},
        }
    }
}

/// More input changes nothing of what a listing reads as.
proof fn lemma_dir_list_extends(bytes: Seq<u8>, pos: nat, more: Seq<u8>)
    requires
        pos <= bytes.len(),
    ensures
        parse_dir_list(bytes, pos) != Err::<(ResponseView, nat), DecodeFailure>(
            DecodeFailure::UnexpectedEnd,
        ) ==> parse_dir_list(bytes + more, pos) == parse_dir_list(bytes, pos),
        parse_dir_list(bytes, pos) matches Ok(p) ==> p.1 <= bytes.len(),
{
    lemma_u64_at_extends(bytes, pos, more);
    match u64_at(bytes, pos) {
        Ok((count, pos1)) => {
            lemma_entries_at_extends(bytes, pos1, count as nat, more);
        },
        Err(_) => {},
    }
}

/// More input changes nothing of what the name and size of a file read as.
proof fn lemma_file_metadata_extends(bytes: Seq<u8>, pos: nat, more: Seq<u8>)
    requires
        pos <= bytes.len(),
    ensures
        parse_file_metadata(bytes, pos) != Err::<(ResponseView, nat), DecodeFailure>(
            DecodeFailure::UnexpectedEnd,
        ) ==> parse_file_metadata(bytes + more, pos) == parse_file_metadata(bytes, pos),
        parse_file_metadata(bytes, pos) matches Ok(p) ==> p.1 <= bytes.len(),
{
    lemma_string_at_extends(bytes, pos, more);
    match string_at(bytes, pos) {
        Ok((_, pos1)) => {
            lemma_u64_at_extends(bytes, pos1, more);
        },
        Err(_) => {},
    }
}

/// More input changes nothing of what the fields of a file chunk read as.
proof fn lemma_file_chunk_extends(bytes: Seq<u8>, pos: nat, more: Seq<u8>)
    requires
        pos <= bytes.len(),
    ensures
        parse_file_chunk(bytes, pos) != Err::<(ResponseView, nat), DecodeFailure>(
            DecodeFailure::UnexpectedEnd,
        ) ==> parse_file_chunk(bytes + more, pos) == parse_file_chunk(bytes, pos),
        parse_file_chunk(bytes, pos) matches Ok(p) ==> p.1 <= bytes.len(),
{
    lemma_u32_at_extends(bytes, pos, more);
    match u32_at(bytes, pos) {
        Ok((_, pos1)) => {
            lemma_bytes_at_extends(bytes, pos1, more);
            match bytes_at(bytes, pos1) {
                Ok((_, pos2)) => {
                    lemma_bool_at_extends(bytes, pos2, more);
                },
                Err(_) => {},
            }
        },
        Err(_) => {},
    }
}

/// More input behind it changes nothing of what the fields of a response
/// read as, unless the input ended before they did.
proof fn lemma_response_fields_extend(bytes: Seq<u8>, tag: u32, pos: nat, more: Seq<u8>)
    requires
        pos <= bytes.len(),
    ensures
        parse_response_fields(bytes, tag, pos) != Err::<(ResponseView, nat), DecodeFailure>(
            DecodeFailure::UnexpectedEnd,
        ) ==> parse_response_fields(bytes + more, tag, pos) == parse_response_fields(
            bytes,
            tag,
            pos,
        ),
        parse_response_fields(bytes, tag, pos) matches Ok(p) ==> p.1 <= bytes.len(),
{
    lemma_dir_list_extends(bytes, pos, more);
    lemma_file_metadata_extends(bytes, pos, more);
    lemma_file_chunk_extends(bytes, pos, more);
    lemma_u64_at_extends(bytes, pos, more);
    lemma_u32_at_extends(bytes, pos, more);
    lemma_string_at_extends(bytes, pos, more);
}

/// A response that has been read stays the same response however much
/// input follows it, and an input that is refused for another reason than
/// its ending stays refused for that reason. What is read lies within the
/// input.
pub proof fn lemma_parse_response_extends(bytes: Seq<u8>, more: Seq<u8>)
    ensures
        parse_response(bytes) != Err::<(ResponseView, nat), DecodeFailure>(
            DecodeFailure::UnexpectedEnd,
        ) ==> parse_response(bytes + more) == parse_response(bytes),
        parse_response(bytes) matches Ok(p) ==> p.1 <= bytes.len(),
{
    lemma_u32_at_extends(bytes, 0, more);
    match u32_at(bytes, 0) {
        Ok((tag, pos)) => {
            lemma_response_fields_extend(bytes, tag, pos, more);
        },
        Err(_) => {},
    }
}

/// Every proper beginning of an encoded response reads as an input that
/// ended too early: a reader that takes a stream byte by byte finds the
/// response exactly when its last byte has come.
pub proof fn lemma_response_prefix_incomplete(r: ResponseView, cut: int)
    requires
        response_fits(r),
        0 <= cut < response_bytes(r).len(),
    ensures
        parse_response(response_bytes(r).take(cut)) == Err::<(ResponseView, nat), DecodeFailure>(
            DecodeFailure::UnexpectedEnd,
        ),
{
    let whole = response_bytes(r);
    let head = whole.take(cut);
    let tail = whole.skip(cut);
    assert(head + tail =~= whole);
    assert(whole + Seq::<u8>::empty() =~= whole);
    lemma_response_round_trip(r, Seq::empty());
    lemma_parse_response_extends(head, tail);
}

/// The first `n` entries of a listing followed by the next one are its first
/// `n + 1` entries.
proof fn lemma_entries_take_next(entries: Seq<DirEntry>, n: int)
    requires
        0 <= n < entries.len(),
    ensures
        entries_view(entries.take(n + 1)) == entries_view(entries.take(n)).push(entries[n]@),
{
    assert(entries_view(entries.take(n + 1)) =~= entries_view(entries.take(n)).push(entries[n]@));
}

/// Appends the encodings of the entries of a listing to `out`.
fn put_entries(out: &mut Vec<u8>, entries: &Vec<DirEntry>)
    ensures
        final(out)@ == old(out)@ + entries_bytes(entries_view(entries@)),
        entries_fit(entries_view(entries@)),
{
    let mut i: usize = 0;
    assert(old(out)@ + entries_bytes(entries_view(entries@.take(0))) =~= old(out)@);
    while i < entries.len()
        invariant
            i <= entries.len(),
            out@ == old(out)@ + entries_bytes(entries_view(entries@.take(i as int))),
            entries_fit(entries_view(entries@.take(i as int))),
        decreases entries.len() - i,
    {
        let ghost before = out@;
        let ghost done = entries_view(entries@.take(i as int));
        let entry = &entries[i];
        put_str(out, entry.name.as_str());
        put_bool(out, entry.is_dir);
        proof {
            lemma_entries_take_next(entries@, i as int);
            lemma_entries_bytes_push(done, entry@);
            assert(out@ =~= before + entry_bytes(entry@));
            assert(out@ =~= old(out)@ + entries_bytes(done.push(entry@)));
        }
        i += 1;
    }
    assert(entries@.take(i as int) =~= entries@);
}

/// Encodes a response. Decoding the result gives the response back.
pub fn encode_response(resp: &Response) -> (out: Vec<u8>)
    ensures
        out@ == response_bytes(resp@),
        response_fits(resp@),
        parse_response(out@) == Ok::<(ResponseView, nat), DecodeFailure>((resp@, out@.len())),
{
    let mut out: Vec<u8> = Vec::new();
    match resp {
        Response::Success => {
            put_u32(&mut out, TAG_SUCCESS);
        },
        Response::DirList(entries) => {
            put_u32(&mut out, TAG_DIR_LIST);
            put_u64(&mut out, entries.len() as u64);
            put_entries(&mut out, entries);
        },
        Response::CopyResult { bytes_copied } => {
            put_u32(&mut out, TAG_COPY_RESULT);
            put_u64(&mut out, *bytes_copied);
        },
        Response::FileMetadata { name, size } => {
            put_u32(&mut out, TAG_FILE_METADATA);
            put_str(&mut out, name.as_str());
            put_u64(&mut out, *size);
        },
        Response::Error(message) => {
            put_u32(&mut out, TAG_ERROR);
            put_str(&mut out, message.as_str());
        },
        Response::ChunkAck { chunk_id } => {
            put_u32(&mut out, TAG_CHUNK_ACK);
            put_u32(&mut out, *chunk_id);
        },
        Response::FileChunk { chunk_id, data, is_last } => {
            put_u32(&mut out, TAG_FILE_CHUNK);
            put_u32(&mut out, *chunk_id);
            put_bytes(&mut out, data.as_slice());
            put_bool(&mut out, *is_last);
        },
    }
    proof {
        assert(out@ =~= response_bytes(resp@));
        lemma_response_round_trip(resp@, Seq::empty());
        assert(response_bytes(resp@) + Seq::<u8>::empty() =~= response_bytes(resp@));
    }
    out
}

/// What reading `count` entries at `pos` gives once `done` have been read
/// and the next is at `next`.
spec fn entries_after(
    bytes: Seq<u8>,
    done: Seq<DirEntryView>,
    next: nat,
    left: nat,
) -> Result<(Seq<DirEntryView>, nat), DecodeFailure> {
    match entries_at(bytes, next, left) {
        Err(e) => Err(e),
        Ok((others, end)) => Ok((done + others, end)),
    }
}

/// Decodes the `count` entries of a listing, the first of them at `pos`.
fn take_entries(bytes: &[u8], pos: usize, count: usize) -> (res: Result<
    (Vec<DirEntry>, usize),
    DecodeFailure,
>)
    requires
        pos <= bytes@.len(),
    ensures
        match entries_at(bytes@, pos as nat, count as nat) {
            Ok((entries, end)) => res matches Ok(p) && entries_view(p.0@) == entries && p.1 == end
                && end <= bytes@.len(),
            Err(e) => res matches Err(f) && f == e,
        },
{
    let mut entries: Vec<DirEntry> = Vec::new();
    let mut next: usize = pos;
    let mut i: usize = 0;
    assert(Seq::<DirEntryView>::empty() + entries_at(bytes@, pos as nat, count as nat)->Ok_0.0
        =~= entries_at(bytes@, pos as nat, count as nat)->Ok_0.0);
    assert(entries_view(entries@) =~= Seq::<DirEntryView>::empty());
    while i < count
        invariant
            i <= count,
            next <= bytes@.len(),
            entries_at(bytes@, pos as nat, count as nat) == entries_after(
                bytes@,
                entries_view(entries@),
                next as nat,
                (count - i) as nat,
            ),
        decreases count - i,
    {
        let ghost done = entries_view(entries@);
        let (name, pos1) = match take_string(bytes, next) {
            Ok(v) => v,
            Err(e) => {
                return Err(e);
            },
        };
        let (is_dir, pos2) = match take_bool(bytes, pos1) {
            Ok(v) => v,
            Err(e) => {
                return Err(e);
            },
        };
        let entry = DirEntry { name, is_dir };
        entries.push(entry);
        proof {
            let left = (count - i) as nat;
            let tail = entries_at(bytes@, pos2 as nat, (left - 1) as nat);
            assert(entries_view(entries@) =~= done.push(entry@));
            if tail is Ok {
                assert(done + (seq![entry@] + tail->Ok_0.0) =~= done.push(entry@) + tail->Ok_0.0);
            }
        }
        next = pos2;
        i += 1;
    }
    assert(entries_view(entries@) + Seq::<DirEntryView>::empty() =~= entries_view(entries@));
    Ok((entries, next))
}

/// Decodes a listing, from `pos` on.
fn decode_dir_list(bytes: &[u8], pos: usize) -> (res: Result<(Response, usize), DecodeFailure>)
    requires
        pos <= bytes@.len(),
    ensures
        match parse_dir_list(bytes@, pos as nat) {
            Ok((r, n)) => res matches Ok(p) && p.0@ == r && p.1 == n && n <= bytes@.len(),
            Err(e) => res matches Err(f) && f == e,
        },
{
    let (count, pos1) = match take_u64(bytes, pos) {
        Ok(v) => v,
        Err(e) => {
            return Err(e);
        },
    };
    if count > usize::MAX as u64 {
        return Err(DecodeFailure::LengthOutOfRange);
    }
    match take_entries(bytes, pos1, count as usize) {
        Ok((entries, end)) => Ok((Response::DirList(entries), end)),
        Err(e) => Err(e),
    }
}

/// Decodes the name and size of a file, from `pos` on.
fn decode_file_metadata(bytes: &[u8], pos: usize) -> (res: Result<(Response, usize), DecodeFailure>)
    requires
        pos <= bytes@.len(),
    ensures
        match parse_file_metadata(bytes@, pos as nat) {
            Ok((r, n)) => res matches Ok(p) && p.0@ == r && p.1 == n && n <= bytes@.len(),
            Err(e) => res matches Err(f) && f == e,
        },
{
    let (name, pos1) = match take_string(bytes, pos) {
        Ok(v) => v,
        Err(e) => {
            return Err(e);
        },
    };
    match take_u64(bytes, pos1) {
        Ok((size, end)) => Ok((Response::FileMetadata { name, size }, end)),
        Err(e) => Err(e),
    }
}

/// Decodes the fields of a file chunk, from `pos` on.
fn decode_file_chunk(bytes: &[u8], pos: usize) -> (res: Result<(Response, usize), DecodeFailure>)
    requires
        pos <= bytes@.len(),
    ensures
        match parse_file_chunk(bytes@, pos as nat) {
            Ok((r, n)) => res matches Ok(p) && p.0@ == r && p.1 == n && n <= bytes@.len(),
            Err(e) => res matches Err(f) && f == e,
        },
{
    let (chunk_id, pos1) = match take_u32(bytes, pos) {
        Ok(v) => v,
        Err(e) => {
            return Err(e);
        },
    };
    let (data, pos2) = match take_bytes(bytes, pos1) {
        Ok(v) => v,
        Err(e) => {
            return Err(e);
        },
    };
    match take_bool(bytes, pos2) {
        Ok((is_last, end)) => Ok((Response::FileChunk { chunk_id, data, is_last }, end)),
        Err(e) => Err(e),
    }
}

/// Decodes the response at the front of `bytes`. Gives the response and the
/// number of bytes read, or the reason why the bytes hold no response; bytes
/// behind the response are ignored. `UnexpectedEnd` is the only error that
/// more input could mend.
pub fn decode_response(bytes: &[u8]) -> (res: Result<(Response, usize), DecodeFailure>)
    ensures
        match parse_response(bytes@) {
            Ok((r, n)) => res matches Ok(p) && p.0@ == r && p.1 == n && n <= bytes@.len(),
            Err(e) => res matches Err(f) && f == e,
        },
{
    let (tag, pos) = match take_u32(bytes, 0) {
        Ok(v) => v,
        Err(e) => {
            return Err(e);
        },
    };
    if tag == TAG_SUCCESS {
        Ok((Response::Success, pos))
    } else if tag == TAG_DIR_LIST {
        decode_dir_list(bytes, pos)
    } else if tag == TAG_COPY_RESULT {
        match take_u64(bytes, pos) {
            Ok((bytes_copied, end)) => Ok((Response::CopyResult { bytes_copied }, end)),
            Err(e) => Err(e),
        }
    } else if tag == TAG_FILE_METADATA {
        decode_file_metadata(bytes, pos)
    } else if tag == TAG_ERROR {
        match take_string(bytes, pos) {
            Ok((message, end)) => Ok((Response::Error(message), end)),
            Err(e) => Err(e),
        }
    } else if tag == TAG_CHUNK_ACK {
        match take_u32(bytes, pos) {
            Ok((chunk_id, end)) => Ok((Response::ChunkAck { chunk_id }, end)),
            Err(e) => Err(e),
        }
    } else if tag == TAG_FILE_CHUNK {
        decode_file_chunk(bytes, pos)
    } else {
        Err(DecodeFailure::UnexpectedVariant)
    }
}

} // verus!
