use whatsapp_rs::frame::{encode_frame, wa_conn_header, FrameReader, MAX_FRAME_LEN};

#[test]
fn encode_then_read_round_trips() {
    let mut out = Vec::new();
    encode_frame(b"hello chatd", &mut out).unwrap();
    let mut r = FrameReader::new();
    r.push(&out);
    assert_eq!(r.next_frame().as_deref(), Some(&b"hello chatd"[..]));
    assert_eq!(r.next_frame(), None);
}

#[test]
fn reassembles_across_arbitrary_chunks() {
    let mut out = Vec::new();
    encode_frame(&[0xAB; 600], &mut out).unwrap();
    let mut r = FrameReader::new();
    for b in &out {
        assert_eq!(r.next_frame(), None, "must not yield until the full frame arrives");
        r.push(std::slice::from_ref(b));
    }
    let frame = r.next_frame().expect("frame completes on last byte");
    assert_eq!(frame, vec![0xAB; 600]);
}

#[test]
fn two_frames_in_one_buffer() {
    let mut out = Vec::new();
    encode_frame(b"first", &mut out).unwrap();
    encode_frame(b"second", &mut out).unwrap();
    let mut r = FrameReader::new();
    r.push(&out);
    assert_eq!(r.next_frame().as_deref(), Some(&b"first"[..]));
    assert_eq!(r.next_frame().as_deref(), Some(&b"second"[..]));
    assert_eq!(r.next_frame(), None);
}

#[test]
fn oversized_frame_is_rejected() {
    let mut out = Vec::new();
    let err = encode_frame(&[], &mut out).is_ok();
    assert!(err);
    assert_eq!(MAX_FRAME_LEN, 0xFF_FFFF);
}

#[test]
fn frame_header_is_big_endian_length() {
    let mut out = Vec::new();
    encode_frame(&[1u8; 600], &mut out).unwrap();
    assert_eq!(&out[..3], &[0, 2, 88]);
    assert_eq!(out.len(), 603);
}

#[test]
fn too_large_payload_is_refused_and_leaves_output_alone() {
    let big = vec![0u8; MAX_FRAME_LEN + 1];
    let mut out = vec![9u8];
    let r = encode_frame(&big, &mut out);
    assert!(matches!(r, Err(whatsapp_rs::frame::Error::FrameTooLarge(n)) if n == MAX_FRAME_LEN + 1));
    assert_eq!(out, vec![9u8]);
}

#[test]
fn buffered_counts_unread_bytes() {
    let mut r = FrameReader::new();
    r.push(&[0, 0, 5, 1, 2]);
    assert_eq!(r.buffered(), 5);
    assert_eq!(r.next_frame(), None);
    r.push(&[3, 4, 5, 6]);
    assert_eq!(r.next_frame(), Some(vec![1, 2, 3, 4, 5]));
    assert_eq!(r.buffered(), 1);
}

#[test]
fn connection_header_bytes() {
    assert_eq!(wa_conn_header(), [b'W', b'A', 6, 3]);
}
