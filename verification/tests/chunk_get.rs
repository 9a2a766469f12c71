use spdm_lite_responder::chunk_get::{
    chunk_response_header, fill_large_response_chunk, finish_chunk_get, handle_chunk_get, valid_transport_padding,
    ActiveLargeResponse, ChunkGetError, ChunkPlan, ConnectionState, FillError, LargeResponse,
    LargeResponseSlot, Phase, TranscriptAction, TransportLimits,
};
use spdm_lite_responder::wire::{read_u16_le, CHUNK_ATTR_LAST_CHUNK, CHUNK_RESPONSE_CODE};

const VERSION: u8 = 0x12;

fn active(size: usize, sent: usize, seq: u16) -> ActiveLargeResponse {
    ActiveLargeResponse {
        handle: 7,
        next_seq_num: seq,
        response_size: size,
        bytes_sent: sent,
        kind: LargeResponse::Buffered,
    }
}

fn state(a: Option<ActiveLargeResponse>) -> ConnectionState {
    ConnectionState {
        phase: Phase::AfterAlgorithms,
        version: VERSION,
        chunking_enabled: true,
        large_response: LargeResponseSlot { active: a },
    }
}

fn limits() -> TransportLimits {
    TransportLimits { mtu: 64, send_len_alignment: 4, header_size: 1, data_transfer_size: 56 }
}

fn request(handle: u8, seq: u16) -> Vec<u8> {
    vec![VERSION, 0x86, 0, handle, (seq % 256) as u8, (seq / 256) as u8]
}

#[test]
fn first_chunk_is_sized_by_transfer_size() {
    let s = state(Some(active(100, 0, 0)));
    let plan = handle_chunk_get(&s, &limits(), &request(7, 0)).unwrap();
    assert_eq!(
        plan,
        ChunkPlan {
            handle: 7,
            chunk_seq_num: 0,
            offset: 0,
            chunk_size: 40,
            last_chunk: false,
            large_response_size: 100,
            message_len: 56,
        }
    );
}

#[test]
fn later_chunk_has_no_size_field() {
    let s = state(Some(active(100, 40, 1)));
    let plan = handle_chunk_get(&s, &limits(), &request(7, 1)).unwrap();
    assert_eq!(plan.chunk_size, 44);
    assert_eq!(plan.offset, 40);
    assert!(!plan.last_chunk);
    assert_eq!(plan.message_len, 56);
}

#[test]
fn last_chunk_takes_the_rest() {
    let s = state(Some(active(100, 84, 2)));
    let plan = handle_chunk_get(&s, &limits(), &request(7, 2)).unwrap();
    assert_eq!(plan.chunk_size, 16);
    assert!(plan.last_chunk);
    assert_eq!(plan.message_len, 28);
    assert_eq!(limits().header_size + plan.message_len, 29);
}

#[test]
fn refused_before_capabilities() {
    let mut s = state(Some(active(100, 0, 0)));
    s.phase = Phase::AfterVersion;
    assert_eq!(
        handle_chunk_get(&s, &limits(), &request(7, 0)),
        Err(ChunkGetError::UnexpectedRequest)
    );
}

#[test]
fn refused_without_chunking() {
    let mut s = state(Some(active(100, 0, 0)));
    s.chunking_enabled = false;
    assert_eq!(
        handle_chunk_get(&s, &limits(), &request(7, 0)),
        Err(ChunkGetError::UnexpectedRequest)
    );
}

#[test]
fn refused_above_mtu() {
    let s = state(Some(active(100, 0, 0)));
    let l = TransportLimits { mtu: 5, ..limits() };
    assert_eq!(handle_chunk_get(&s, &l, &request(7, 0)), Err(ChunkGetError::InvalidRequest));
}

#[test]
fn refused_short_header() {
    let s = state(Some(active(100, 0, 0)));
    assert_eq!(handle_chunk_get(&s, &limits(), &[VERSION]), Err(ChunkGetError::InvalidRequest));
}

#[test]
fn refused_other_version() {
    let s = state(Some(active(100, 0, 0)));
    let mut req = request(7, 0);
    req[0] = 0x11;
    assert_eq!(handle_chunk_get(&s, &limits(), &req), Err(ChunkGetError::VersionMismatch));
    // The version is checked before the body's length.
    assert_eq!(handle_chunk_get(&s, &limits(), &[0x11, 0x86]), Err(ChunkGetError::VersionMismatch));
}

#[test]
fn refused_short_body() {
    let s = state(Some(active(100, 0, 0)));
    assert_eq!(
        handle_chunk_get(&s, &limits(), &[VERSION, 0x86, 0, 7, 0]),
        Err(ChunkGetError::InvalidRequest)
    );
}

#[test]
fn refused_nonzero_param1() {
    let s = state(Some(active(100, 0, 0)));
    let mut req = request(7, 0);
    req[2] = 1;
    assert_eq!(handle_chunk_get(&s, &limits(), &req), Err(ChunkGetError::InvalidRequest));
}

#[test]
fn padding_of_request() {
    let s = state(Some(active(100, 0, 0)));
    let mut req = request(7, 0);
    req.extend_from_slice(&[0, 0]);
    assert!(handle_chunk_get(&s, &limits(), &req).is_ok());
    let mut bad = request(7, 0);
    bad.extend_from_slice(&[0, 1]);
    assert_eq!(handle_chunk_get(&s, &limits(), &bad), Err(ChunkGetError::InvalidRequest));
    let mut long = request(7, 0);
    long.extend_from_slice(&[0, 0, 0]);
    assert_eq!(handle_chunk_get(&s, &limits(), &long), Err(ChunkGetError::InvalidRequest));
}

#[test]
fn refused_without_large_response() {
    let s = state(None);
    assert_eq!(
        handle_chunk_get(&s, &limits(), &request(7, 0)),
        Err(ChunkGetError::UnexpectedRequest)
    );
}

#[test]
fn refused_wrong_handle_or_sequence() {
    let s = state(Some(active(100, 40, 1)));
    assert_eq!(handle_chunk_get(&s, &limits(), &request(8, 1)), Err(ChunkGetError::InvalidRequest));
    assert_eq!(handle_chunk_get(&s, &limits(), &request(7, 2)), Err(ChunkGetError::InvalidRequest));
}

#[test]
fn refused_when_no_room_for_data() {
    let s = state(Some(active(100, 0, 0)));
    let l = TransportLimits { data_transfer_size: 16, ..limits() };
    assert_eq!(handle_chunk_get(&s, &l, &request(7, 0)), Err(ChunkGetError::InvalidRequest));
    let l = TransportLimits { data_transfer_size: 17, ..limits() };
    assert_eq!(handle_chunk_get(&s, &l, &request(7, 0)).unwrap().chunk_size, 1);
}

#[test]
fn refused_when_all_sent() {
    let s = state(Some(active(100, 100, 3)));
    assert_eq!(handle_chunk_get(&s, &limits(), &request(7, 3)), Err(ChunkGetError::InvalidRequest));
}

#[test]
fn whole_transfer_is_contiguous_and_ends() {
    let mut s = state(Some(active(100, 0, 0)));
    let mut delivered = 0usize;
    let mut seq = 0u16;
    loop {
        let plan = handle_chunk_get(&s, &limits(), &request(7, seq)).unwrap();
        assert_eq!(plan.offset, delivered);
        assert_eq!(plan.chunk_seq_num, seq);
        assert!(plan.message_len <= limits().data_transfer_size);
        delivered += plan.chunk_size;
        s.large_response.chunk_sent(plan.chunk_size);
        seq += 1;
        if plan.last_chunk {
            break;
        }
    }
    assert_eq!(delivered, 100);
    assert_eq!(seq, 3);
    assert_eq!(handle_chunk_get(&s, &limits(), &request(7, seq)), Err(ChunkGetError::InvalidRequest));
}

#[test]
fn chunk_sent_advances_and_wraps() {
    let mut slot = LargeResponseSlot { active: Some(active(100, 10, u16::MAX)) };
    slot.chunk_sent(5);
    let a = slot.response().unwrap();
    assert_eq!(a.bytes_sent, 15);
    assert_eq!(a.next_seq_num, 0);
    let mut empty = LargeResponseSlot { active: None };
    empty.chunk_sent(5);
    assert!(empty.response().is_none());
}

#[test]
fn header_of_first_chunk() {
    let plan = ChunkPlan {
        handle: 7,
        chunk_seq_num: 0,
        offset: 0,
        chunk_size: 0x0123,
        last_chunk: false,
        large_response_size: 0x0102_0304,
        message_len: 0,
    };
    assert_eq!(
        chunk_response_header(VERSION, &plan),
        vec![VERSION, CHUNK_RESPONSE_CODE, 0, 7, 0, 0, 0, 0, 0x23, 0x01, 0, 0, 4, 3, 2, 1]
    );
}

#[test]
fn header_of_last_chunk() {
    let plan = ChunkPlan {
        handle: 9,
        chunk_seq_num: 0x0102,
        offset: 0,
        chunk_size: 16,
        last_chunk: true,
        large_response_size: 100,
        message_len: 0,
    };
    assert_eq!(
        chunk_response_header(VERSION, &plan),
        vec![VERSION, CHUNK_RESPONSE_CODE, CHUNK_ATTR_LAST_CHUNK, 9, 2, 1, 0, 0, 16, 0, 0, 0]
    );
}

#[test]
fn header_length_matches_plan() {
    let s = state(Some(active(100, 0, 0)));
    let plan = handle_chunk_get(&s, &limits(), &request(7, 0)).unwrap();
    let header = chunk_response_header(VERSION, &plan);
    assert_eq!(header.len() + plan.chunk_size, plan.message_len);
}

#[test]
fn padding_rules() {
    assert!(valid_transport_padding(4, 6, &[]));
    assert!(valid_transport_padding(4, 6, &[0, 0]));
    assert!(!valid_transport_padding(4, 6, &[0]));
    assert!(!valid_transport_padding(4, 6, &[0, 2]));
    assert!(!valid_transport_padding(4, 8, &[0, 0, 0, 0]));
    assert!(!valid_transport_padding(1, 6, &[0]));
    assert!(!valid_transport_padding(0, 6, &[0]));
    assert!(valid_transport_padding(0, 6, &[]));
    assert!(valid_transport_padding(8, 6, &[0, 0]));
}

#[test]
fn padding_aligns_message() {
    for align in 2usize..10 {
        for len in 0usize..20 {
            let pad = vec![0u8; (align - len % align) % align];
            assert!(pad.is_empty() || valid_transport_padding(align, len, &pad));
            assert_eq!((len + pad.len()) % align, 0);
        }
    }
}

#[test]
fn fill_checks_bounds_and_kind() {
    let buffered = active(100, 0, 0);
    let cert = ActiveLargeResponse { kind: LargeResponse::Certificate, ..buffered };
    assert_eq!(fill_large_response_chunk(&buffered, 60, 40), Ok(TranscriptAction::Nothing));
    assert_eq!(fill_large_response_chunk(&cert, 0, 40), Ok(TranscriptAction::AppendM1));
    assert_eq!(fill_large_response_chunk(&cert, 61, 40), Err(FillError::Invariant));
    assert_eq!(fill_large_response_chunk(&cert, usize::MAX, 2), Err(FillError::Invariant));
}

#[test]
fn read_u16_is_little_endian() {
    assert_eq!(read_u16_le(&[0, 0x34, 0x12], 1), 0x1234);
}

#[test]
fn finish_writes_header_and_records_chunk() {
    let mut s = state(Some(active(100, 84, 2)));
    let l = limits();
    let plan = handle_chunk_get(&s, &l, &request(7, 2)).unwrap();
    let raw_len = l.header_size + plan.message_len;
    let mut rsp = vec![0xAAu8; raw_len + 3];
    for b in &mut rsp[l.header_size + 12..raw_len] {
        *b = 0x55;
    }
    finish_chunk_get(&mut s, &l, &plan, &mut rsp);
    assert_eq!(rsp[0], 0xAA);
    assert_eq!(
        &rsp[1..13],
        &[VERSION, CHUNK_RESPONSE_CODE, CHUNK_ATTR_LAST_CHUNK, 7, 2, 0, 0, 0, 16, 0, 0, 0]
    );
    assert!(rsp[13..29].iter().all(|&b| b == 0x55));
    assert_eq!(&rsp[29..], &[0xAA, 0xAA, 0xAA]);
    let a = s.large_response.response().unwrap();
    assert_eq!(a.bytes_sent, 100);
    assert_eq!(a.next_seq_num, 3);
}

#[test]
fn whole_transfer_through_finish() {
    let content: Vec<u8> = (0..100u32).map(|i| (i * 7 % 251) as u8).collect();
    let mut s = state(Some(active(100, 0, 0)));
    let l = limits();
    let mut received = Vec::new();
    let mut lasts = 0;
    let mut size_fields = 0;
    let mut seq = 0u16;
    while let Ok(plan) = handle_chunk_get(&s, &l, &request(7, seq)) {
        let header_len = plan.message_len - plan.chunk_size;
        let mut rsp = vec![0u8; l.header_size + plan.message_len];
        let start = l.header_size + header_len;
        rsp[start..start + plan.chunk_size]
            .copy_from_slice(&content[plan.offset..plan.offset + plan.chunk_size]);
        finish_chunk_get(&mut s, &l, &plan, &mut rsp);
        if rsp[l.header_size + 2] == CHUNK_ATTR_LAST_CHUNK {
            lasts += 1;
        }
        if header_len == 16 {
            size_fields += 1;
            assert_eq!(&rsp[l.header_size + 12..l.header_size + 16], &[100, 0, 0, 0]);
        }
        received.extend_from_slice(&rsp[start..]);
        seq += 1;
    }
    assert_eq!(received, content);
    assert_eq!(lasts, 1);
    assert_eq!(size_fields, 1);
    assert_eq!(seq, 3);
}

#[test]
fn largest_transfer_size_is_served() {
    let s = state(Some(active(100, 0, 0)));
    let l = TransportLimits { header_size: 4, data_transfer_size: usize::MAX, ..limits() };
    let plan = handle_chunk_get(&s, &l, &request(7, 0)).unwrap();
    assert_eq!(plan.chunk_size, 100);
    assert!(plan.last_chunk);
    assert_eq!(plan.message_len, 116);
    let mut refused = s;
    refused.phase = Phase::Initial;
    assert_eq!(
        handle_chunk_get(&refused, &l, &request(7, 0)),
        Err(ChunkGetError::UnexpectedRequest)
    );
}
