use shell_protocol::message::{DirEntry, Request, Response};
use shell_protocol::request_codec::{decode_request, encode_request};
use shell_protocol::response_codec::{decode_response, encode_response};
use shell_protocol::wire::{
    put_bool, put_bytes, put_str, put_u32, put_u64, take_bool, take_bytes, take_string, take_u32,
    take_u64, utf8_to_string, DecodeFailure,
};

fn text(s: &str) -> String {
    s.to_string()
}

fn all_requests() -> Vec<Request> {
    vec![
        Request::Dir,
        Request::CdUp,
        Request::Mkdir { name: text("a") },
        Request::Cd { path: text("docs/2024") },
        Request::Copy { src: text("in.txt"), dst: text("out.txt") },
        Request::Upload { dst_path: text("."), file_name: text("photo.png"), size: 123_456_789 },
        Request::Download { src_path: text("photo.png") },
        Request::UploadChunk { chunk_id: 0, data: vec![], is_last: true },
        Request::UploadChunk { chunk_id: 70_000, data: vec![1, 2, 3], is_last: false },
        Request::DownloadChunk { chunk_id: u32::MAX },
    ]
}

fn all_responses() -> Vec<Response> {
    vec![
        Response::Success,
        Response::DirList(vec![]),
        Response::DirList(vec![
            DirEntry { name: text("b"), is_dir: true },
            DirEntry { name: text("notes.txt"), is_dir: false },
        ]),
        Response::CopyResult { bytes_copied: u64::MAX },
        Response::FileMetadata { name: text("photo.png"), size: 0 },
        Response::Error(text("copy failed: No such file or directory")),
        Response::ChunkAck { chunk_id: 251 },
        Response::FileChunk { chunk_id: 3, data: vec![], is_last: true },
        Response::FileChunk { chunk_id: 4, data: vec![0xff; 8192], is_last: false },
    ]
}

#[test]
fn small_integers_take_one_byte() {
    let mut out = Vec::new();
    put_u64(&mut out, 0);
    put_u64(&mut out, 250);
    put_u32(&mut out, 7);
    assert_eq!(out, vec![0, 250, 7]);
}

#[test]
fn larger_integers_take_a_marker_and_little_endian_bytes() {
    let mut out = Vec::new();
    put_u64(&mut out, 251);
    assert_eq!(out, vec![251, 251, 0]);
    let mut out = Vec::new();
    put_u32(&mut out, 0x1234);
    assert_eq!(out, vec![251, 0x34, 0x12]);
    let mut out = Vec::new();
    put_u64(&mut out, 0x1_0000);
    assert_eq!(out, vec![252, 0, 0, 1, 0]);
    let mut out = Vec::new();
    put_u32(&mut out, u32::MAX);
    assert_eq!(out, vec![252, 255, 255, 255, 255]);
    let mut out = Vec::new();
    put_u64(&mut out, 0x0102_0304_0506_0708);
    assert_eq!(out, vec![253, 8, 7, 6, 5, 4, 3, 2, 1]);
}

#[test]
fn put_appends_behind_what_is_there() {
    let mut out = vec![9u8, 9];
    put_u64(&mut out, 300);
    put_bool(&mut out, true);
    put_bool(&mut out, false);
    put_bytes(&mut out, &[5, 6]);
    put_str(&mut out, "hé");
    assert_eq!(out, vec![9, 9, 251, 44, 1, 1, 0, 2, 5, 6, 3, b'h', 0xc3, 0xa9]);
}

#[test]
fn integers_read_back_at_any_position() {
    for v in [0u64, 1, 250, 251, 65_535, 65_536, u32::MAX as u64, u32::MAX as u64 + 1, u64::MAX] {
        let mut out = vec![0xaau8];
        put_u64(&mut out, v);
        let end = out.len();
        out.push(0x55);
        assert_eq!(take_u64(&out, 1), Ok((v, end)));
    }
    for v in [0u32, 250, 251, 65_535, 65_536, u32::MAX] {
        let mut out = Vec::new();
        put_u32(&mut out, v);
        assert_eq!(take_u32(&out, 0), Ok((v, out.len())));
    }
}

#[test]
fn a_longer_form_than_needed_is_accepted() {
    assert_eq!(take_u64(&[251, 5, 0], 0), Ok((5, 3)));
    assert_eq!(take_u32(&[252, 5, 0, 0, 0], 0), Ok((5, 5)));
    assert_eq!(take_u64(&[253, 5, 0, 0, 0, 0, 0, 0, 0], 0), Ok((5, 9)));
}

#[test]
fn integer_errors() {
    assert_eq!(take_u64(&[], 0), Err(DecodeFailure::UnexpectedEnd));
    assert_eq!(take_u64(&[7], 1), Err(DecodeFailure::UnexpectedEnd));
    assert_eq!(take_u64(&[251, 1], 0), Err(DecodeFailure::UnexpectedEnd));
    assert_eq!(take_u64(&[253, 1, 2, 3, 4, 5, 6, 7], 0), Err(DecodeFailure::UnexpectedEnd));
    assert_eq!(take_u64(&[254, 0, 0, 0], 0), Err(DecodeFailure::InvalidInteger));
    assert_eq!(take_u64(&[255], 0), Err(DecodeFailure::InvalidInteger));
    assert_eq!(take_u32(&[253, 0, 0, 0, 0, 0, 0, 0, 0], 0), Err(DecodeFailure::InvalidInteger));
    assert_eq!(take_u32(&[253], 0), Err(DecodeFailure::InvalidInteger));
    assert_eq!(take_u32(&[252, 0, 0, 0], 0), Err(DecodeFailure::UnexpectedEnd));
}

#[test]
fn booleans_are_zero_or_one() {
    assert_eq!(take_bool(&[0], 0), Ok((false, 1)));
    assert_eq!(take_bool(&[3, 1], 1), Ok((true, 2)));
    assert_eq!(take_bool(&[2], 0), Err(DecodeFailure::InvalidBoolean));
    assert_eq!(take_bool(&[1], 1), Err(DecodeFailure::UnexpectedEnd));
}

#[test]
fn byte_strings_carry_their_length() {
    assert_eq!(take_bytes(&[0], 0), Ok((vec![], 1)));
    assert_eq!(take_bytes(&[3, 7, 8, 9, 1], 0), Ok((vec![7, 8, 9], 4)));
    assert_eq!(take_bytes(&[3, 7, 8], 0), Err(DecodeFailure::UnexpectedEnd));
    assert_eq!(take_bytes(&[253, 255, 255, 255, 255, 255, 255, 255, 127], 0), Err(DecodeFailure::UnexpectedEnd));
    let long = vec![0x42u8; 300];
    let mut out = Vec::new();
    put_bytes(&mut out, &long);
    assert_eq!(&out[..3], &[251, 44, 1]);
    assert_eq!(take_bytes(&out, 0), Ok((long, 303)));
}

#[test]
fn strings_must_be_utf8() {
    assert_eq!(take_string(&[2, b'o', b'k'], 0), Ok((text("ok"), 3)));
    assert_eq!(take_string(&[2, 0xc3, 0xa9], 0), Ok((text("é"), 3)));
    assert_eq!(take_string(&[2, 0xc3, 0x28], 0), Err(DecodeFailure::InvalidUtf8));
    assert_eq!(take_string(&[1, 0xff], 0), Err(DecodeFailure::InvalidUtf8));
    assert_eq!(take_string(&[4, b'a'], 0), Err(DecodeFailure::UnexpectedEnd));
}

#[test]
fn requests_have_the_documented_bytes() {
    assert_eq!(encode_request(&Request::Dir), vec![0]);
    assert_eq!(encode_request(&Request::CdUp), vec![1]);
    assert_eq!(encode_request(&Request::Mkdir { name: text("a") }), vec![2, 1, b'a']);
    assert_eq!(encode_request(&Request::Cd { path: text("a") }), vec![3, 1, b'a']);
    assert_eq!(
        encode_request(&Request::Copy { src: text("x"), dst: text("yz") }),
        vec![4, 1, b'x', 2, b'y', b'z']
    );
    assert_eq!(
        encode_request(&Request::Upload { dst_path: text("."), file_name: text("f"), size: 8193 }),
        vec![5, 1, b'.', 1, b'f', 251, 1, 32]
    );
    assert_eq!(encode_request(&Request::Download { src_path: text("f") }), vec![6, 1, b'f']);
    assert_eq!(
        encode_request(&Request::UploadChunk { chunk_id: 2, data: vec![9, 8], is_last: true }),
        vec![7, 2, 2, 9, 8, 1]
    );
    assert_eq!(encode_request(&Request::DownloadChunk { chunk_id: 300 }), vec![8, 251, 44, 1]);
}

#[test]
fn responses_have_the_documented_bytes() {
    assert_eq!(encode_response(&Response::Success), vec![0]);
    assert_eq!(encode_response(&Response::DirList(vec![])), vec![1, 0]);
    assert_eq!(
        encode_response(&Response::DirList(vec![
            DirEntry { name: text("b"), is_dir: true },
            DirEntry { name: text("c"), is_dir: false },
        ])),
        vec![1, 2, 1, b'b', 1, 1, b'c', 0]
    );
    assert_eq!(encode_response(&Response::CopyResult { bytes_copied: 5 }), vec![2, 5]);
    assert_eq!(
        encode_response(&Response::FileMetadata { name: text("f"), size: 65_536 }),
        vec![3, 1, b'f', 252, 0, 0, 1, 0]
    );
    assert_eq!(encode_response(&Response::Error(text("no"))), vec![4, 2, b'n', b'o']);
    assert_eq!(encode_response(&Response::ChunkAck { chunk_id: 1 }), vec![5, 1]);
    assert_eq!(
        encode_response(&Response::FileChunk { chunk_id: 1, data: vec![], is_last: true }),
        vec![6, 1, 0, 1]
    );
}

#[test]
fn requests_agree_with_bincode() {
    let standard = bincode::config::standard();
    assert_eq!(encode_request(&Request::Dir), bincode::encode_to_vec(0u32, standard).unwrap());
    assert_eq!(
        encode_request(&Request::Mkdir { name: text("näme") }),
        bincode::encode_to_vec((2u32, text("näme")), standard).unwrap()
    );
    assert_eq!(
        encode_request(&Request::Copy { src: text("in.txt"), dst: text("out.txt") }),
        bincode::encode_to_vec((4u32, text("in.txt"), text("out.txt")), standard).unwrap()
    );
    assert_eq!(
        encode_request(&Request::Upload { dst_path: text("d"), file_name: text("f"), size: u64::MAX }),
        bincode::encode_to_vec((5u32, text("d"), text("f"), u64::MAX), standard).unwrap()
    );
    let data = vec![7u8; 8192];
    assert_eq!(
        encode_request(&Request::UploadChunk { chunk_id: 66_000, data: data.clone(), is_last: false }),
        bincode::encode_to_vec((7u32, 66_000u32, data, false), standard).unwrap()
    );
    assert_eq!(
        encode_request(&Request::DownloadChunk { chunk_id: 9 }),
        bincode::encode_to_vec((8u32, 9u32), standard).unwrap()
    );
}

#[test]
fn responses_agree_with_bincode() {
    let standard = bincode::config::standard();
    assert_eq!(
        encode_response(&Response::DirList(vec![
            DirEntry { name: text("b"), is_dir: true },
            DirEntry { name: text("notes.txt"), is_dir: false },
        ])),
        bincode::encode_to_vec((1u32, vec![(text("b"), true), (text("notes.txt"), false)]), standard)
            .unwrap()
    );
    assert_eq!(
        encode_response(&Response::CopyResult { bytes_copied: 70_000 }),
        bincode::encode_to_vec((2u32, 70_000u64), standard).unwrap()
    );
    assert_eq!(
        encode_response(&Response::FileMetadata { name: text("f.bin"), size: 1 << 40 }),
        bincode::encode_to_vec((3u32, text("f.bin"), 1u64 << 40), standard).unwrap()
    );
    assert_eq!(
        encode_response(&Response::Error(text("Cannot go above root"))),
        bincode::encode_to_vec((4u32, text("Cannot go above root")), standard).unwrap()
    );
    assert_eq!(
        encode_response(&Response::FileChunk { chunk_id: 2, data: vec![1, 2, 3], is_last: true }),
        bincode::encode_to_vec((6u32, 2u32, vec![1u8, 2, 3], true), standard).unwrap()
    );
}

#[test]
fn what_bincode_writes_is_understood() {
    let standard = bincode::config::standard();
    let bytes = bincode::encode_to_vec((5u32, text("up"), text("a.txt"), 8192u64), standard).unwrap();
    assert_eq!(
        decode_request(&bytes),
        Ok((
            Request::Upload { dst_path: text("up"), file_name: text("a.txt"), size: 8192 },
            bytes.len()
        ))
    );
    let bytes = bincode::encode_to_vec((1u32, vec![(text("x"), false)]), standard).unwrap();
    assert_eq!(
        decode_response(&bytes),
        Ok((Response::DirList(vec![DirEntry { name: text("x"), is_dir: false }]), bytes.len()))
    );
}

#[test]
fn every_request_round_trips() {
    for request in all_requests() {
        let bytes = encode_request(&request);
        assert_eq!(decode_request(&bytes), Ok((request, bytes.len())));
    }
}

#[test]
fn every_response_round_trips() {
    for response in all_responses() {
        let bytes = encode_response(&response);
        assert_eq!(decode_response(&bytes), Ok((response, bytes.len())));
    }
}

#[test]
fn messages_are_self_delimiting() {
    let mut stream = Vec::new();
    let mut ends = Vec::new();
    for request in all_requests() {
        stream.extend_from_slice(&encode_request(&request));
        ends.push(stream.len());
    }
    let mut pos = 0;
    for (request, end) in all_requests().into_iter().zip(ends) {
        let (decoded, used) = decode_request(&stream[pos..]).unwrap();
        assert_eq!(decoded, request);
        pos += used;
        assert_eq!(pos, end);
    }
    assert_eq!(pos, stream.len());
}

#[test]
fn bytes_behind_a_message_are_ignored() {
    let mut bytes = encode_response(&Response::ChunkAck { chunk_id: 5 });
    let len = bytes.len();
    bytes.extend_from_slice(&[0xde, 0xad]);
    assert_eq!(decode_response(&bytes), Ok((Response::ChunkAck { chunk_id: 5 }, len)));
}

#[test]
fn a_cut_message_is_an_unexpected_end() {
    for request in all_requests() {
        let bytes = encode_request(&request);
        for cut in 0..bytes.len() {
            assert_eq!(decode_request(&bytes[..cut]), Err(DecodeFailure::UnexpectedEnd));
        }
    }
    for response in all_responses() {
        let bytes = encode_response(&response);
        for cut in 0..bytes.len() {
            assert_eq!(decode_response(&bytes[..cut]), Err(DecodeFailure::UnexpectedEnd));
        }
    }
}

#[test]
fn unknown_variants_are_refused() {
    assert_eq!(decode_request(&[9]), Err(DecodeFailure::UnexpectedVariant));
    assert_eq!(decode_request(&[251, 0, 1]), Err(DecodeFailure::UnexpectedVariant));
    assert_eq!(decode_response(&[7]), Err(DecodeFailure::UnexpectedVariant));
    assert_eq!(decode_response(&[252, 0, 0, 0, 1]), Err(DecodeFailure::UnexpectedVariant));
}

#[test]
fn malformed_fields_are_refused() {
    assert_eq!(decode_request(&[253, 0, 0, 0, 0, 0, 0, 0, 0]), Err(DecodeFailure::InvalidInteger));
    assert_eq!(decode_request(&[2, 1, 0x80]), Err(DecodeFailure::InvalidUtf8));
    assert_eq!(decode_request(&[7, 0, 0, 2]), Err(DecodeFailure::InvalidBoolean));
    assert_eq!(decode_request(&[8, 253, 1, 0, 0, 0, 0, 0, 0, 0]), Err(DecodeFailure::InvalidInteger));
    assert_eq!(decode_response(&[1, 1, 1, b'a', 5]), Err(DecodeFailure::InvalidBoolean));
    assert_eq!(decode_response(&[1, 2, 1, b'a', 1]), Err(DecodeFailure::UnexpectedEnd));
    assert_eq!(decode_response(&[6, 254]), Err(DecodeFailure::InvalidInteger));
}

#[test]
fn a_huge_announced_listing_fails_without_its_entries() {
    assert_eq!(
        decode_response(&[1, 253, 255, 255, 255, 255, 255, 255, 255, 127]),
        Err(DecodeFailure::UnexpectedEnd)
    );
}

#[test]
fn bytes_spell_a_string_where_they_are_utf8() {
    assert_eq!(utf8_to_string(vec![]), Some(String::new()));
    assert_eq!(utf8_to_string(b"plain".to_vec()), Some(text("plain")));
    assert_eq!(utf8_to_string(vec![0xe2, 0x82, 0xac]), Some(text("\u{20ac}")));
    assert_eq!(utf8_to_string(vec![0xf0, 0x9f, 0x98, 0x80]), Some(text("\u{1f600}")));
    assert_eq!(utf8_to_string(vec![0xe2, 0x82]), None);
    assert_eq!(utf8_to_string(vec![0xc0, 0x80]), None);
    assert_eq!(utf8_to_string(vec![0xed, 0xa0, 0x80]), None);
    assert_eq!(utf8_to_string(vec![0xf4, 0x90, 0x80, 0x80]), None);
    assert_eq!(utf8_to_string(vec![0x80]), None);
}
