use vstd::prelude::*;

verus! {

/// The Snappy block compression of a byte sequence. Its block format takes
/// pages to state, so the result carries only a name; what matters to the
/// tunnel is that decompression inverts it.
pub uninterp spec fn compress_of(p: Seq<u8>) -> Seq<u8>;

/// Relies on snap::raw::Encoder::compress_vec: the output depends on the
/// input bytes alone (the encoder's scratch table is cleared on every
/// call), it is at most `32 + n + n/6` bytes for an `n`-byte input, and
/// the call fails only when the input exceeds the format's maximum size,
/// far above any input admitted here.
#[verifier::external_body]
pub(crate) fn compress(p: &[u8]) -> (r: Option<Vec<u8>>)
    ensures
        r matches Some(v) ==> v@ == compress_of(p@) && v@.len() <= 32 + p@.len() + p@.len() / 6,
        p@.len() <= 0x8000_0000 ==> r is Some,
{
    let mut enc = snap::raw::Encoder::new();
    enc.compress_vec(p).ok()
}

/// Relies on snap::raw::Decoder::decompress_vec: decompressing what the
/// Snappy compressor produced yields exactly the bytes that were
/// compressed. Of any other input nothing is promised.
#[verifier::external_body]
pub(crate) fn decompress(b: &[u8]) -> (r: Option<Vec<u8>>)
    ensures
        r matches Some(v) ==> forall|p: Seq<u8>| b@ == #[trigger] compress_of(p) ==> v@ == p,
        r is None ==> forall|p: Seq<u8>| b@ != #[trigger] compress_of(p),
{
    let mut dec = snap::raw::Decoder::new();
    dec.decompress_vec(b).ok()
}

} // verus!
