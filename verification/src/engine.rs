use vstd::prelude::*;
use crate::msg::{Message, MessageView, spec_encode, spec_decode, encode, decode, DATA_OVERHEAD};
use crate::session::{Server, Session, PeerAddr, spec_lookup};
use crate::compress::{compress_of, compress, decompress};
use crate::{BUF_LEN, MTU};

verus! {

/// What the server does with one datagram received on its UDP socket.
pub enum SockAction {
    /// Send these bytes back to the datagram's source peer.
    Reply { datagram: Vec<u8> },
    /// Write this raw packet to the TUN device.
    TunWrite { packet: Vec<u8> },
    /// Drop the datagram.
    Ignore,
}

/// Why the handshake reply was rejected.
#[derive(Clone, Copy, PartialEq, Eq, Structural, Debug)]
pub enum HandshakeError {
    /// The reply did not decode as a wire message.
    Malformed,
    /// The reply decoded, but not as a `Response`.
    UnexpectedVariant,
}

/// Relies on rand::random: draws a 64-bit session token uniformly at
/// random. Nothing can be promised of its value.
#[verifier::external_body]
pub(crate) fn draw_token() -> u64 {
    rand::random::<u64>()
}

/// The encoded `Request` a client opens the handshake with.
pub fn request_frame() -> (r: Vec<u8>)
    ensures
        r@ == spec_encode(MessageView::Request),
{
    encode(&Message::Request)
}

/// Client handshake, receive side: the reply must decode as a `Response`,
/// whose id and token become the session; anything else is fatal.
pub fn parse_response(datagram: &[u8]) -> (r: Result<(u8, u64), HandshakeError>)
    ensures
        match spec_decode(datagram@) {
            Some(MessageView::Response { id, token }) => r == Ok::<(u8, u64), HandshakeError>(
                (id, token),
            ),
            Some(MessageView::Request) => r == Err::<(u8, u64), HandshakeError>(
                HandshakeError::UnexpectedVariant,
            ),
            Some(MessageView::Data { .. }) => r == Err::<(u8, u64), HandshakeError>(
                HandshakeError::UnexpectedVariant,
            ),
            None => r == Err::<(u8, u64), HandshakeError>(HandshakeError::Malformed),
        },
{
    match decode(datagram) {
        None => Err(HandshakeError::Malformed),
        Some(Message::Response { id, token }) => Ok((id, token)),
        Some(_) => Err(HandshakeError::UnexpectedVariant),
    }
}

/// Client, TUN ready: one raw packet read from the TUN device becomes one
/// framed datagram for the server, its payload compressed.
pub fn client_build_frame(id: u8, token: u64, packet: &[u8]) -> (r: Vec<u8>)
    requires
        packet@.len() <= BUF_LEN,
    ensures
        r@ == spec_encode(MessageView::Data { id, token, data: compress_of(packet@) }),
{
    let data = match compress(packet) {
        Some(d) => d,
        None => vstd::pervasive::unreached(),
    };
    encode(&Message::Data { id, token, data })
}

/// Client, SOCK ready: a `Data` datagram whose token matches the session
/// token yields the decompressed packet for the TUN device; a mismatched
/// token, another variant, an undecodable datagram, or a payload that does
/// not decompress is dropped.
pub fn client_handle_datagram(token: u64, datagram: &[u8]) -> (r: Option<Vec<u8>>)
    ensures
        match spec_decode(datagram@) {
            Some(MessageView::Data { id: _, token: t, data: d }) => if t == token {
                forall|p: Seq<u8>|
                    d == #[trigger] compress_of(p) ==> (r matches Some(v) && v@ == p)
            } else {
                r is None
            },
            _ => r is None,
        },
{
    match decode(datagram) {
        Some(Message::Data { id: _, token: t, data }) => {
            if t == token {
                decompress(data.as_slice())
            } else {
                None
            }
        }
        _ => None,
    }
}

/// Server, SOCK ready. A `Request` pops the top free id, records the
/// session under a fresh token, and answers with `Response`; an empty pool
/// refuses it silently. A `Data` datagram is forwarded to the TUN device
/// only when its id is a live session and its token matches that session's
/// token; the peer address stored for the session is never updated. All
/// else is dropped.
pub fn server_handle_datagram(srv: &mut Server, now: u64, datagram: &[u8], peer: PeerAddr) -> (r:
    SockAction)
    requires
        old(srv).inv(),
    ensures
        final(srv).inv(),
        match spec_decode(datagram@) {
            Some(MessageView::Request) => if old(srv).free_pool().len() == 0 {
                r is Ignore && final(srv).free_pool() == old(srv).free_pool()
                    && final(srv).table() == old(srv).table()
            } else {
                final(srv).free_pool() == old(srv).free_pool().drop_last() && (exists|t: u64|
                    {
                        &&& final(srv).table() == old(srv).table().push(
                            (Session {
                                id: old(srv).free_pool().last(),
                                token: t,
                                peer,
                                created_at: now,
                            }),
                        )
                        &&& r matches SockAction::Reply { datagram: dg }
                        &&& dg@ == spec_encode(
                            MessageView::Response { id: old(srv).free_pool().last(), token: t },
                        )
                    })
            },
            Some(MessageView::Data { id, token: t, data: d }) => final(srv).free_pool() == old(
                srv,
            ).free_pool() && final(srv).table() == old(srv).table() && (match spec_lookup(
                old(srv).table(),
                id,
            ) {
                Some(e) => if e.token == t {
                    forall|p: Seq<u8>|
                        d == #[trigger] compress_of(p) ==> (r matches SockAction::TunWrite {
                            packet,
                        } && packet@ == p)
                } else {
                    r is Ignore
                },
                None => r is Ignore,
            }),
            Some(MessageView::Response { .. }) => r is Ignore && final(srv).free_pool() == old(
                srv,
            ).free_pool() && final(srv).table() == old(srv).table(),
            None => r is Ignore && final(srv).free_pool() == old(srv).free_pool()
                && final(srv).table() == old(srv).table(),
        },
{
    match decode(datagram) {
        Some(Message::Request) => {
            let token = draw_token();
            match srv.accept_request(now, peer, token) {
                Some(id) => SockAction::Reply {
                    datagram: encode(&Message::Response { id, token }),
                },
                None => SockAction::Ignore,
            }
        }
        Some(Message::Data { id, token, data }) => {
            match srv.lookup(id) {
                Some(e) => {
                    if e.token == token {
                        match decompress(data.as_slice()) {
                            Some(packet) => SockAction::TunWrite { packet },
                            None => SockAction::Ignore,
                        }
                    } else {
                        SockAction::Ignore
                    }
                }
                None => SockAction::Ignore,
            }
        }
        _ => SockAction::Ignore,
    }
}

/// Server, TUN ready: byte offset 19 of the raw packet — the last octet of
/// the destination address — names the client. A packet shorter than a
/// minimal IPv4 header, or one whose octet names no live session, is
/// dropped; otherwise the packet is compressed, framed under the session's
/// id and token, and sent to the session's stored peer address.
pub fn server_handle_tun(srv: &Server, packet: &[u8]) -> (r: Option<(Vec<u8>, PeerAddr)>)
    requires
        packet@.len() <= BUF_LEN,
    ensures
        packet@.len() < 20 ==> r is None,
        packet@.len() >= 20 ==> match spec_lookup(srv.table(), packet@[19]) {
            Some(e) => r matches Some((dg, p)) && p == e.peer && dg@ == spec_encode(
                MessageView::Data { id: e.id, token: e.token, data: compress_of(packet@) },
            ),
            None => r is None,
        },
{
    if packet.len() < 20 {
        return None;
    }
    let dst_id = packet[19];
    match srv.lookup(dst_id) {
        None => None,
        Some(e) => {
            let data = match compress(packet) {
                Some(d) => d,
                None => vstd::pervasive::unreached(),
            };
            let dg = encode(&Message::Data { id: e.id, token: e.token, data });
            Some((dg, e.peer))
        }
    }
}

/// The ids TUN creation tries, in order: 0 through 254. Creation fails
/// only once every one of them has been attempted.
pub fn tun_attempt_ids() -> (r: Vec<u8>)
    ensures
        r@.len() == 255,
        forall|i: int| 0 <= i < 255 ==> r@[i] == i,
{
    let mut ids: Vec<u8> = Vec::new();
    let mut id: u8 = 0;
    while id <= 254
        invariant
            id <= 255,
            ids@.len() == id,
            forall|i: int| 0 <= i < id ==> ids@[i] == i,
        decreases 255 - id,
    {
        ids.push(id);
        id = id + 1;
    }
    ids
}

/// An encoded `Data` frame whose payload leaves `DATA_OVERHEAD` bytes of
/// headroom fits the scratch buffer; in particular the framing bytes fit
/// beside a full `MTU`-sized payload.
pub proof fn lemma_frame_fits_buffer(id: u8, token: u64, data: Seq<u8>)
    requires
        data.len() + DATA_OVERHEAD <= BUF_LEN,
    ensures
        spec_encode(MessageView::Data { id, token, data }).len() <= BUF_LEN,
        MTU + DATA_OVERHEAD <= BUF_LEN,
{
    crate::msg::lemma_data_frame_len(id, token, data);
}

} // verus!
