use vstd::prelude::*;
use vstd::bytes::{spec_u64_to_le_bytes, spec_u64_from_le_bytes, lemma_auto_spec_u64_to_from_le_bytes, u64_to_le_bytes, u64_from_le_bytes};
use vstd::slice::{slice_subrange, slice_to_vec};

verus! {

/// Tag byte of an encoded `Request`.
pub const TAG_REQUEST: u8 = 0;
/// Tag byte of an encoded `Response`.
pub const TAG_RESPONSE: u8 = 1;
/// Tag byte of an encoded `Data`.
pub const TAG_DATA: u8 = 2;

/// Bytes an encoded `Data` message occupies beyond its payload:
/// four tag bytes, one id byte, eight token bytes, eight length bytes.
pub const DATA_OVERHEAD: usize = 21;

/// The three-variant wire message. One UDP datagram carries exactly one
/// encoded message; the `data` field of `Data` holds a compressed IP packet.
#[derive(Debug, PartialEq, Eq)]
pub enum Message {
    Request,
    Response { id: u8, token: u64 },
    Data { id: u8, token: u64, data: Vec<u8> },
}

/// Mathematical model of a `Message`: the payload is a byte sequence.
pub enum MessageView {
    Request,
    Response { id: u8, token: u64 },
    Data { id: u8, token: u64, data: Seq<u8> },
}

impl View for Message {
    type V = MessageView;

    open spec fn view(&self) -> MessageView {
        match self {
            Message::Request => MessageView::Request,
            Message::Response { id, token } => MessageView::Response { id: *id, token: *token },
            Message::Data { id, token, data } => MessageView::Data {
                id: *id,
                token: *token,
                data: data@,
            },
        }
    }
}

/// The encoding of a message: a four-byte little-endian tag, then the
/// fields in declared order, integers little-endian, the payload prefixed
/// by its length as a u64.
pub open spec fn spec_encode(m: MessageView) -> Seq<u8> {
    match m {
        MessageView::Request => seq![TAG_REQUEST, 0u8, 0u8, 0u8],
        MessageView::Response { id, token } => seq![TAG_RESPONSE, 0u8, 0u8, 0u8, id]
            + spec_u64_to_le_bytes(token),
        MessageView::Data { id, token, data } => seq![TAG_DATA, 0u8, 0u8, 0u8, id]
            + spec_u64_to_le_bytes(token) + spec_u64_to_le_bytes(data.len() as u64) + data,
    }
}

/// The decoding of a byte sequence; `None` on any unrecognized, truncated
/// or overlong input.
pub open spec fn spec_decode(b: Seq<u8>) -> Option<MessageView> {
    if b.len() < 4 || b[1] != 0 || b[2] != 0 || b[3] != 0 {
        None
    } else if b[0] == TAG_REQUEST {
        if b.len() == 4 {
            Some(MessageView::Request)
        } else {
            None
        }
    } else if b[0] == TAG_RESPONSE {
        if b.len() == 13 {
            Some(MessageView::Response {
                id: b[4],
                token: spec_u64_from_le_bytes(b.subrange(5, 13)),
            })
        } else {
            None
        }
    } else if b[0] == TAG_DATA {
        if b.len() >= 21 && spec_u64_from_le_bytes(b.subrange(13, 21)) == (b.len() - 21) as u64 {
            Some(MessageView::Data {
                id: b[4],
                token: spec_u64_from_le_bytes(b.subrange(5, 13)),
                data: b.subrange(21, b.len() as int),
            })
        } else {
            None
        }
    } else {
        None
    }
}

/// Decoding inverts encoding: every message comes back structurally equal.
pub proof fn lemma_codec_round_trip(m: MessageView)
    requires
        m matches MessageView::Data { data, .. } ==> data.len() <= u64::MAX,
    ensures
        spec_decode(spec_encode(m)) == Some(m),
{
    lemma_auto_spec_u64_to_from_le_bytes();
    match m {
        MessageView::Request => {
            assert(spec_encode(m) =~= seq![TAG_REQUEST, 0u8, 0u8, 0u8]);
        }
        MessageView::Response { id, token } => {
            let e = spec_encode(m);
            assert(e.len() == 13);
            assert(e.subrange(5, 13) =~= spec_u64_to_le_bytes(token));
            assert(spec_decode(e) == Some(m));
        }
        MessageView::Data { id, token, data } => {
            let e = spec_encode(m);
            assert(e.len() == 21 + data.len());
            assert(e.subrange(5, 13) =~= spec_u64_to_le_bytes(token));
            assert(e.subrange(13, 21) =~= spec_u64_to_le_bytes(data.len() as u64));
            assert(e.subrange(21, e.len() as int) =~= data);
            assert(spec_decode(e) == Some(m));
        }
    }
}

/// An encoded `Data` message is exactly `DATA_OVERHEAD` bytes longer than
/// its payload.
pub proof fn lemma_data_frame_len(id: u8, token: u64, data: Seq<u8>)
    ensures
        spec_encode(MessageView::Data { id, token, data }).len() == DATA_OVERHEAD + data.len(),
{
    lemma_auto_spec_u64_to_from_le_bytes();
}

/// Encode a message for the wire.
pub fn encode(m: &Message) -> (r: Vec<u8>)
    ensures
        r@ == spec_encode(m@),
{
    let mut out: Vec<u8> = Vec::new();
    match m {
        Message::Request => {
            out.push(TAG_REQUEST);
            out.push(0);
            out.push(0);
            out.push(0);
            assert(out@ =~= spec_encode(m@));
        }
        Message::Response { id, token } => {
            out.push(TAG_RESPONSE);
            out.push(0);
            out.push(0);
            out.push(0);
            out.push(*id);
            let mut tb = u64_to_le_bytes(*token);
            out.append(&mut tb);
            assert(out@ =~= spec_encode(m@));
        }
        Message::Data { id, token, data } => {
            out.push(TAG_DATA);
            out.push(0);
            out.push(0);
            out.push(0);
            out.push(*id);
            let mut tb = u64_to_le_bytes(*token);
            out.append(&mut tb);
            let mut lb = u64_to_le_bytes(data.len() as u64);
            out.append(&mut lb);
            let mut db = slice_to_vec(data.as_slice());
            out.append(&mut db);
            assert(out@ =~= spec_encode(m@));
        }
    }
    out
}

/// Decode one datagram; `None` drops it.
pub fn decode(b: &[u8]) -> (r: Option<Message>)
    ensures
        match r {
            Some(m) => spec_decode(b@) == Some(m@),
            None => spec_decode(b@) is None,
        },
{
    let n = b.len();
    if n < 4 || b[1] != 0 || b[2] != 0 || b[3] != 0 {
        return None;
    }
    if b[0] == TAG_REQUEST {
        if n == 4 {
            Some(Message::Request)
        } else {
            None
        }
    } else if b[0] == TAG_RESPONSE {
        if n == 13 {
            let token = u64_from_le_bytes(slice_subrange(b, 5, 13));
            Some(Message::Response { id: b[4], token })
        } else {
            None
        }
    } else if b[0] == TAG_DATA {
        if n >= 21 {
            let len_field = u64_from_le_bytes(slice_subrange(b, 13, 21));
            if len_field == (n - 21) as u64 {
                let token = u64_from_le_bytes(slice_subrange(b, 5, 13));
                let data = slice_to_vec(slice_subrange(b, 21, n));
                Some(Message::Data { id: b[4], token, data })
            } else {
                None
            }
        } else {
            None
        }
    } else {
        None
    }
}

} // verus!
