use msgframe::codec::DecodeError;
use msgframe::codec::Message;
use msgframe::receiver::BUF_SIZE;
use msgframe::receiver::RecvState;

fn frame_of(payload: &[u8]) -> Vec<u8> {
    let msg = Message { len: payload.len() as u32, data: payload.to_vec() };
    let mut buf = Vec::new();
    msg.encode(&mut buf);
    buf
}

#[test]
fn encode_concrete_bytes() {
    let msg = Message { len: 5, data: vec![1, 2, 3, 4, 5] };
    let mut buf = Vec::new();
    msg.encode(&mut buf);
    assert_eq!(buf, vec![0, 0, 0, 5, 1, 2, 3, 4, 5]);
    assert_eq!(msg.encode_len(), 9);
}

#[test]
fn decode_concrete_bytes() {
    let bytes = [0u8, 0, 0, 5, 1, 2, 3, 4, 5];
    let msg = Message::decode(&bytes).unwrap();
    assert_eq!(msg.len, 5);
    assert_eq!(msg.data, vec![1, 2, 3, 4, 5]);
    assert_eq!(msg.encode_len(), 9);
}

#[test]
fn decode_short_header_is_len_error() {
    let bytes = [0u8, 0, 0, 5, 1, 2, 3, 4, 5];
    assert!(matches!(Message::decode(&bytes[..3]), Err(DecodeError::LenError)));
}

#[test]
fn decode_short_payload_is_not_enough_data() {
    let bytes = [0u8, 0, 0, 5, 1, 2, 3, 4, 5];
    assert!(matches!(Message::decode(&bytes[..8]), Err(DecodeError::NotEnoughData)));
}

#[test]
fn decode_empty_is_len_error() {
    assert!(matches!(Message::decode(&[]), Err(DecodeError::LenError)));
}

#[test]
fn round_trip_empty_payload() {
    let buf = frame_of(&[]);
    assert_eq!(buf, vec![0, 0, 0, 0]);
    let back = Message::decode(&buf).unwrap();
    assert_eq!(back.len, 0);
    assert_eq!(back.data, Vec::<u8>::new());
}

#[test]
fn round_trip_small_payload() {
    let payload: Vec<u8> = (0u8..=255).collect();
    let buf = frame_of(&payload);
    let back = Message::decode(&buf).unwrap();
    assert_eq!(back.len, 256);
    assert_eq!(back.data, payload);
}

#[test]
fn round_trip_largest_payload_that_fits() {
    let payload = vec![0xabu8; BUF_SIZE - 4];
    let buf = frame_of(&payload);
    assert_eq!(buf.len(), BUF_SIZE);
    let back = Message::decode(&buf).unwrap();
    assert_eq!(back.len as usize, BUF_SIZE - 4);
    assert_eq!(back.data, payload);

    let mut state = RecvState::default();
    assert_eq!(state.free_space(), BUF_SIZE);
    state.fill(&buf);
    let msg = state.consume().unwrap();
    assert_eq!(msg.data, payload);
}

#[test]
fn round_trip_length_field_above_one_byte() {
    let payload = vec![7u8; 300];
    let buf = frame_of(&payload);
    assert_eq!(&buf[..4], &[0, 0, 1, 44]);
    let back = Message::decode(&buf).unwrap();
    assert_eq!(back.len, 300);
    assert_eq!(back.data, payload);
}

#[test]
fn split_frame_at_every_offset() {
    let payload = [1u8, 2, 3, 4, 5];
    let buf = frame_of(&payload);
    for k in 0..buf.len() {
        let mut state = RecvState::default();
        state.fill(&buf[..k]);
        let first = state.consume();
        if k < 4 {
            assert!(matches!(first, Err(DecodeError::LenError)));
        } else {
            assert!(matches!(first, Err(DecodeError::NotEnoughData)));
        }
        state.fill(&buf[k..]);
        let msg = state.consume().unwrap();
        assert_eq!(msg.len, 5);
        assert_eq!(msg.data, payload.to_vec());
        assert!(state.consume().is_err());
    }
}

#[test]
fn multi_frame_drain() {
    let first_payload = [9u8, 9, 9];
    let second_payload = [1u8, 2, 3, 4, 5];
    let mut both = frame_of(&first_payload);
    both.extend_from_slice(&frame_of(&second_payload));

    let mut state = RecvState::default();
    state.fill(&both);
    let m1 = state.consume().unwrap();
    assert_eq!(m1.len, 3);
    assert_eq!(m1.data, first_payload.to_vec());
    let m2 = state.consume().unwrap();
    assert_eq!(m2.len, 5);
    assert_eq!(m2.data, second_payload.to_vec());
    assert!(matches!(state.consume(), Err(DecodeError::LenError)));
}

#[test]
fn compaction_keeps_partial_frame_across_reads() {
    let first_payload = [4u8, 4, 4, 4];
    let second_payload = [1u8, 2, 3, 4, 5, 6];
    let frame1 = frame_of(&first_payload);
    let frame2 = frame_of(&second_payload);

    // One read carries all of frame1 and frame2 cut mid-payload.
    let cut = 7;
    let mut read = frame1.clone();
    read.extend_from_slice(&frame2[..cut]);

    let mut state = RecvState::default();
    state.fill(&read);
    let m1 = state.consume().unwrap();
    assert_eq!(m1.data, first_payload.to_vec());
    assert!(matches!(state.consume(), Err(DecodeError::NotEnoughData)));
    // The failed consume compacted exactly the partial frame to the front.
    assert_eq!(state.free_space(), BUF_SIZE - cut);

    state.fill(&frame2[cut..]);
    let m2 = state.consume().unwrap();
    assert_eq!(m2.len, 6);
    assert_eq!(m2.data, second_payload.to_vec());
}

#[test]
fn compaction_keeps_partial_header_across_reads() {
    let payload = [8u8; 10];
    let frame = frame_of(&payload);

    let mut state = RecvState::default();
    state.fill(&frame[..2]);
    assert!(matches!(state.consume(), Err(DecodeError::LenError)));
    assert_eq!(state.free_space(), BUF_SIZE - 2);

    state.fill(&frame[2..]);
    let msg = state.consume().unwrap();
    assert_eq!(msg.data, payload.to_vec());
}

#[test]
fn stalled_on_oversize_announced_frame() {
    // 8189 payload bytes would need an 8193-byte frame: one byte too many.
    let header = [0u8, 0, 0x1f, 0xfd];
    let mut state = RecvState::default();
    assert!(!state.stalled());
    state.fill(&header);
    // Detected as soon as the length field is readable.
    assert!(state.stalled());
    assert!(matches!(state.consume(), Err(DecodeError::NotEnoughData)));
    assert!(state.stalled());
}

#[test]
fn not_stalled_on_largest_frame_that_fits() {
    // 8188 payload bytes exactly fill the buffer together with the header.
    let header = [0u8, 0, 0x1f, 0xfc];
    let mut state = RecvState::default();
    state.fill(&header);
    assert!(matches!(state.consume(), Err(DecodeError::NotEnoughData)));
    assert!(!state.stalled());
}

#[test]
fn not_stalled_on_short_header() {
    let mut state = RecvState::default();
    assert!(!state.stalled());
    state.fill(&[0u8, 0]);
    assert!(matches!(state.consume(), Err(DecodeError::LenError)));
    assert!(!state.stalled());
}

#[test]
fn echo_ten_messages_of_1024_bytes() {
    // A loopback exchange in memory: the client sends the same 1024-byte
    // message ten times; an echo peer decodes each frame and encodes the
    // message back; the client expects exactly one echoed message per turn.
    let payload = vec![0u8; 1024];
    let msg = Message { len: 1024, data: payload.clone() };
    let mut request = Vec::new();
    msg.encode(&mut request);

    let mut server_state = RecvState::default();
    let mut client_state = RecvState::default();
    for _ in 0..10 {
        server_state.fill(&request);
        let received = server_state.consume().unwrap();
        assert!(server_state.consume().is_err());

        let mut echo = Vec::new();
        received.encode(&mut echo);
        client_state.fill(&echo);
        let answer = client_state.consume().unwrap();
        assert_eq!(answer.len, 1024);
        assert_eq!(answer.data, payload);
        assert!(client_state.consume().is_err());
    }
}
