use kytan::msg::{decode, encode, Message, DATA_OVERHEAD};
use kytan::engine::request_frame;
use kytan::{BUF_LEN, MTU};

#[test]
fn request_frame_bytes() {
    assert_eq!(request_frame(), vec![0u8, 0, 0, 0]);
    assert_eq!(encode(&Message::Request), vec![0u8, 0, 0, 0]);
}

#[test]
fn response_exact_bytes() {
    let m = Message::Response { id: 7, token: 1 };
    assert_eq!(encode(&m), vec![1u8, 0, 0, 0, 7, 1, 0, 0, 0, 0, 0, 0, 0]);
}

#[test]
fn data_exact_bytes() {
    let m = Message::Data { id: 2, token: 0x0102030405060708, data: vec![9, 9] };
    let expected = vec![
        2u8, 0, 0, 0, // tag
        2, // id
        8, 7, 6, 5, 4, 3, 2, 1, // token, little-endian
        2, 0, 0, 0, 0, 0, 0, 0, // payload length, little-endian
        9, 9, // payload
    ];
    assert_eq!(encode(&m), expected);
}

#[test]
fn round_trip_request() {
    let m = Message::Request;
    assert_eq!(decode(&encode(&m)), Some(m));
}

#[test]
fn round_trip_response() {
    let m = Message::Response { id: 253, token: 0xDEADBEEFCAFEBABE };
    assert_eq!(decode(&encode(&m)), Some(m));
}

#[test]
fn round_trip_data() {
    let m = Message::Data { id: 42, token: u64::MAX, data: (0u8..=255).collect() };
    assert_eq!(decode(&encode(&m)), Some(m));
}

#[test]
fn round_trip_data_empty_payload() {
    let m = Message::Data { id: 2, token: 0, data: vec![] };
    assert_eq!(decode(&encode(&m)), Some(m));
}

#[test]
fn decode_rejects_truncated() {
    assert_eq!(decode(&[]), None);
    assert_eq!(decode(&[0, 0, 0]), None);
    let resp = encode(&Message::Response { id: 3, token: 9 });
    assert_eq!(decode(&resp[..resp.len() - 1]), None);
    let data = encode(&Message::Data { id: 3, token: 9, data: vec![1, 2, 3] });
    assert_eq!(decode(&data[..data.len() - 1]), None);
}

#[test]
fn decode_rejects_trailing_bytes() {
    let mut req = encode(&Message::Request);
    req.push(0);
    assert_eq!(decode(&req), None);
}

#[test]
fn decode_rejects_unknown_tag() {
    assert_eq!(decode(&[3, 0, 0, 0]), None);
    assert_eq!(decode(&[255, 0, 0, 0, 1]), None);
    assert_eq!(decode(&[0, 1, 0, 0]), None);
}

#[test]
fn decode_rejects_wrong_length_field() {
    let mut data = encode(&Message::Data { id: 3, token: 9, data: vec![1, 2, 3] });
    data[13] = 7; // claim seven payload bytes where three follow
    assert_eq!(decode(&data), None);
}

#[test]
fn framing_overhead_is_constant() {
    for n in [0usize, 1, 100, 1500] {
        let m = Message::Data { id: 1, token: 0, data: vec![0xAB; n] };
        assert_eq!(encode(&m).len(), DATA_OVERHEAD + n);
    }
    // the scratch buffer accommodates an MTU-sized frame plus framing
    assert!(MTU + DATA_OVERHEAD <= BUF_LEN);
}
