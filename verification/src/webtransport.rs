//! Framing of the WebTransport stream.
//!
//! The browser opens one bidirectional stream and both sides send messages
//! as `[4-byte big-endian length][binary frame]`, reusing the binary codec.
//! A length of 0 or one above [`MAX_FRAME`] ends the session.
use vstd::prelude::*;
use crate::wire::{
    be_bytes, be_value, lemma_be_bytes_len, lemma_be_roundtrip_small, lemma_pow256_values, push_be,
    read_be,
};

verus! {

/// The largest frame accepted (16 MiB), which bounds what one frame can
/// make the reader allocate.
pub const MAX_FRAME: u32 = 16777216;

/// The length a prefix announces, when a frame of that length is accepted.
pub open spec fn announced_length(prefix: Seq<u8>) -> Option<nat> {
    let len = be_value(prefix);
    if 0 < len && len <= MAX_FRAME {
        Some(len)
    } else {
        None
    }
}

/// Reads a 4-byte length prefix: the length of the frame that follows, or
/// `None` when the length is 0 or above [`MAX_FRAME`] and the session ends.
pub fn frame_length(prefix: &[u8]) -> (r: Option<usize>)
    requires
        prefix@.len() == 4,
    ensures
        match announced_length(prefix@) {
            Some(len) => r == Some(len as usize),
            None => r is None,
        },
{
    let len = read_be(prefix, 0, 4);
    proof {
        assert(prefix@.subrange(0, 4) =~= prefix@);
    }
    if len == 0 || len > MAX_FRAME as u64 {
        None
    } else {
        Some(len as usize)
    }
}

/// Where the endpoint's TLS identity comes from.
#[derive(Clone, Copy, Debug, PartialEq, Eq, Structural)]
pub enum IdentitySource {
    /// A PEM certificate and key.
    PemFiles,
    /// A generated self-signed certificate (development only).
    SelfSigned,
}

/// The identity to use, given whether a certificate and a key were
/// supplied: both give the PEM pair, neither a self-signed certificate, and
/// one without the other is refused.
pub fn identity_source(cert_given: bool, key_given: bool) -> (r: Result<IdentitySource, String>)
    ensures
        cert_given && key_given ==> r == Ok::<IdentitySource, String>(IdentitySource::PemFiles),
        !cert_given && !key_given ==> r == Ok::<IdentitySource, String>(IdentitySource::SelfSigned),
        cert_given != key_given ==> (r matches Err(e) && e@
            == "WebTransport needs both a cert and key, or neither"@),
{
    if cert_given && key_given {
        Ok(IdentitySource::PemFiles)
    } else if !cert_given && !key_given {
        Ok(IdentitySource::SelfSigned)
    } else {
        Err(String::from_str("WebTransport needs both a cert and key, or neither"))
    }
}

/// Puts the 4-byte big-endian length in front of a message body.
pub fn length_prefixed(body: &[u8]) -> (r: Vec<u8>)
    requires
        body@.len() <= u32::MAX,
    ensures
        r@ == be_bytes(body@.len(), 4) + body@,
{
    let mut out: Vec<u8> = Vec::new();
    push_be(&mut out, body.len() as u64, 4);
    let mut i: usize = 0;
    while i < body.len()
        invariant
            i <= body@.len(),
            out@ == be_bytes(body@.len(), 4) + body@.subrange(0, i as int),
        decreases body@.len() - i,
    {
        out.push(body[i]);
        i = i + 1;
        proof {
            assert(body@.subrange(0, i as int) =~= body@.subrange(0, i - 1 as int).push(
                body@[i - 1],
            ));
        }
    }
    proof {
        assert(body@.subrange(0, body@.len() as int) =~= body@);
    }
    out
}

/// A frame written by [`length_prefixed`] is read back whole by
/// [`frame_length`]: its prefix announces exactly the body's length,
/// whenever that length is accepted.
pub proof fn law_length_prefix_roundtrip(body: Seq<u8>)
    requires
        0 < body.len() <= MAX_FRAME,
    ensures
        (be_bytes(body.len(), 4) + body).subrange(0, 4) == be_bytes(body.len(), 4),
        announced_length(be_bytes(body.len(), 4)) == Some(body.len()),
{
    lemma_be_bytes_len(body.len(), 4);
    lemma_pow256_values();
    lemma_be_roundtrip_small(body.len(), 4);
    assert((be_bytes(body.len(), 4) + body).subrange(0, 4) =~= be_bytes(body.len(), 4));
}

/// A frame length is accepted exactly when it is between 1 and 16 MiB
/// (16777216 bytes), both included.
pub proof fn law_frame_lengths_accepted(prefix: Seq<u8>)
    ensures
        (1 <= be_value(prefix) <= 16777216) ==> announced_length(prefix) == Some(be_value(prefix)),
        (be_value(prefix) == 0 || be_value(prefix) > 16777216) ==> announced_length(prefix) is None,
{
}

} // verus!
