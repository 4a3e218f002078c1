//! Signed envelopes: a wire header, a payload and a signature over both.
//!
//! Layout: `header (8 bytes) || payload_len (u32 LE) || payload ||
//! sig_len (u16 LE) || signature`. The signature covers everything before
//! `sig_len`, so the header is bound to the payload: altering either
//! invalidates the signature.
use crate::encoder::Writer;
use vstd::prelude::*;

verus! {

/// Bytes of the wire header that opens an envelope.
pub const HEADER_BYTES: usize = 8;

/// Bytes of the payload length field.
pub const PAYLOAD_LEN_BYTES: usize = 4;

/// Bytes of the signature length field.
pub const SIG_LEN_BYTES: usize = 2;

/// Why a verifier rejected a signature.
#[derive(Debug, Clone, Copy, PartialEq, Eq)]
pub enum VerifyError {
    /// The signature does not match the message.
    Mismatch,
    /// The signature is not well formed for the scheme.
    Malformed,
}

/// Signs messages; implemented by the caller's signature scheme.
pub trait Signer {
    /// What signing may fail with.
    type Error;

    /// The signature of `msg`.
    fn sign(&self, msg: &[u8]) -> Result<Vec<u8>, Self::Error>;
}

/// Checks signatures; implemented by the caller's signature scheme.
pub trait Verifier {
    /// Accept `sig` as a signature of `msg`, or say why not.
    fn verify(&self, msg: &[u8], sig: &[u8]) -> Result<(), VerifyError>;
}

/// `signer`, asked to sign `msg`, may answer with the signature `sig`.
pub open spec fn signer_gives<S: Signer>(signer: &S, msg: Seq<u8>, sig: Seq<u8>) -> bool {
    exists|m: &[u8], r: Result<Vec<u8>, S::Error>|
        #![trigger call_ensures(S::sign, (signer, m), r)]
        m@ == msg && r is Ok && r->Ok_0@ == sig && call_ensures(S::sign, (signer, m), r)
}

/// `signer`, asked to sign `msg`, may fail with `e`.
pub open spec fn signer_fails<S: Signer>(signer: &S, msg: Seq<u8>, e: S::Error) -> bool {
    exists|m: &[u8]|
        #![trigger call_ensures(S::sign, (signer, m), Err::<Vec<u8>, S::Error>(e))]
        m@ == msg && call_ensures(S::sign, (signer, m), Err::<Vec<u8>, S::Error>(e))
}

/// `verifier`, asked to check the signature `sig` over the message `msg`,
/// may accept it.
pub open spec fn verifier_accepts<V: Verifier>(verifier: &V, msg: Seq<u8>, sig: Seq<u8>) -> bool {
    exists|m: &[u8], s: &[u8], r: Result<(), VerifyError>|
        #![trigger call_ensures(V::verify, (verifier, m, s), r)]
        m@ == msg && s@ == sig && r is Ok && call_ensures(V::verify, (verifier, m, s), r)
}

/// `verifier`, asked to check the signature `sig` over the message `msg`,
/// may reject it with `e`.
pub open spec fn verifier_rejects<V: Verifier>(verifier: &V, msg: Seq<u8>, sig: Seq<u8>, e: VerifyError) -> bool {
    exists|m: &[u8], s: &[u8]|
        #![trigger call_ensures(V::verify, (verifier, m, s), Err::<(), VerifyError>(e))]
        m@ == msg && s@ == sig && call_ensures(V::verify, (verifier, m, s), Err::<(), VerifyError>(e))
}

/// Errors of sealing and opening an envelope.
#[derive(Debug)]
pub enum SignedError<E> {
    /// The signer failed.
    Sign(E),
    /// The verifier rejected the signature.
    Verify(VerifyError),
    /// The bytes are not an envelope: truncated, a length that does not
    /// fit, or bytes left over after the signature.
    Malformed,
}

/// `n` as four little-endian bytes.
pub open spec fn le_u32_bytes(n: nat) -> Seq<u8> {
    seq![
        (n % 256) as u8,
        ((n / 256) % 256) as u8,
        ((n / 65536) % 256) as u8,
        ((n / 16777216) % 256) as u8,
    ]
}

/// `n` as two little-endian bytes.
pub open spec fn le_u16_bytes(n: nat) -> Seq<u8> {
    seq![(n % 256) as u8, ((n / 256) % 256) as u8]
}

/// The number that little-endian bytes `b` spell.
pub open spec fn le_value(b: Seq<u8>) -> nat
    decreases b.len(),
{
    if b.len() == 0 {
        0
    } else {
        b[0] as nat + 256 * le_value(b.skip(1))
    }
}

/// The signed part of an envelope: header, payload length and payload.
pub open spec fn envelope_message(header: Seq<u8>, payload: Seq<u8>) -> Seq<u8> {
    header + le_u32_bytes(payload.len()) + payload
}

/// The whole envelope of `payload` under `header`, signed by `sig`.
pub open spec fn envelope(header: Seq<u8>, payload: Seq<u8>, sig: Seq<u8>) -> Seq<u8> {
    envelope_message(header, payload) + le_u16_bytes(sig.len()) + sig
}

/// The parts of an envelope: where its payload ends (the signed message is
/// everything before), the payload and the signature; `None` when `b` is
/// not an envelope.
pub open spec fn parse_envelope(b: Seq<u8>) -> Option<(nat, Seq<u8>, Seq<u8>)> {
    if b.len() < 12 {
        None
    } else {
        let n: int = le_value(b.subrange(8, 12)) as int;
        if b.len() < 14 + n {
            None
        } else {
            let m: int = le_value(b.subrange(12 + n, 14 + n)) as int;
            if b.len() != 14 + n + m {
                None
            } else {
                Some(((12 + n) as nat, b.subrange(12, 12 + n), b.subrange(14 + n, 14 + n + m)))
            }
        }
    }
}

/// Little-endian bytes of a number spell it back.
pub proof fn lemma_le_round_trip(n: nat)
    ensures
        n < 0x1_0000_0000 ==> le_value(le_u32_bytes(n)) == n,
        n < 0x1_0000 ==> le_value(le_u16_bytes(n)) == n,
{
    let b = le_u32_bytes(n);
    assert(b.skip(1).skip(1).skip(1).skip(1).len() == 0);
    reveal_with_fuel(le_value, 5);
    let c = le_u16_bytes(n);
    assert(c.skip(1).skip(1).len() == 0);
}

/// Opening the envelope of a payload and a signature finds them again, and
/// the signed message is the envelope's message.
pub proof fn lemma_open_sealed(header: Seq<u8>, payload: Seq<u8>, sig: Seq<u8>)
    requires
        header.len() == HEADER_BYTES,
        payload.len() <= u32::MAX,
        sig.len() <= u16::MAX,
    ensures
        parse_envelope(envelope(header, payload, sig)) == Some(
            ((12 + payload.len()) as nat, payload, sig),
        ),
        envelope(header, payload, sig).take(12 + payload.len() as int) == envelope_message(header, payload),
{
    let e = envelope(header, payload, sig);
    let n: int = payload.len() as int;
    lemma_le_round_trip(payload.len());
    lemma_le_round_trip(sig.len());
    assert(e.subrange(8, 12) =~= le_u32_bytes(payload.len()));
    assert(e.subrange(12 + n, 14 + n) =~= le_u16_bytes(sig.len()));
    assert(e.subrange(12, 12 + n) =~= payload);
    assert(e.subrange(14 + n, 14 + n + sig.len() as int) =~= sig);
    assert(e.take(12 + n) =~= envelope_message(header, payload));
}

/// The layout of an envelope, byte by byte: the eight header bytes, the
/// payload length as four little-endian bytes, the payload, the signature
/// length as two little-endian bytes, then the signature.
pub proof fn lemma_envelope_layout(header: Seq<u8>, payload: Seq<u8>, sig: Seq<u8>)
    requires
        header.len() == 8,
    ensures
        envelope(header, payload, sig).len() == 14 + payload.len() + sig.len(),
        envelope(header, payload, sig).take(8) == header,
        envelope(header, payload, sig)[8] == payload.len() % 256,
        envelope(header, payload, sig)[9] == (payload.len() / 256) % 256,
        envelope(header, payload, sig)[10] == (payload.len() / 65536) % 256,
        envelope(header, payload, sig)[11] == (payload.len() / 16777216) % 256,
        envelope(header, payload, sig).subrange(12, 12 + payload.len() as int) == payload,
        envelope(header, payload, sig)[12 + payload.len() as int] == sig.len() % 256,
        envelope(header, payload, sig)[13 + payload.len() as int] == (sig.len() / 256) % 256,
        envelope(header, payload, sig).skip(14 + payload.len() as int) == sig,
{
    let e = envelope(header, payload, sig);
    assert(e.take(8) =~= header);
    assert(e.subrange(12, 12 + payload.len() as int) =~= payload);
    assert(e.skip(14 + payload.len() as int) =~= sig);
}

/// Four bytes spell a number whose little-endian bytes are those bytes.
proof fn lemma_le_u32_inverse(b: Seq<u8>)
    requires
        b.len() == 4,
    ensures
        le_value(b) < 0x1_0000_0000,
        le_u32_bytes(le_value(b)) == b,
{
    reveal_with_fuel(le_value, 5);
    let (x0, x1, x2, x3) = (b[0] as int, b[1] as int, b[2] as int, b[3] as int);
    assert(b.skip(1).skip(1).skip(1).skip(1).len() == 0);
    assert(b.skip(1)[0] == b[1] && b.skip(1).skip(1)[0] == b[2] && b.skip(1).skip(1).skip(1)[0] == b[3]);
    let n = x0 + 256 * (x1 + 256 * (x2 + 256 * x3));
    assert(le_value(b) == n);
    assert(n % 256 == x0 && (n / 256) % 256 == x1 && (n / 65536) % 256 == x2 && (n / 16777216) % 256 == x3
        && n < 0x1_0000_0000) by (nonlinear_arith)
        requires
            0 <= x0 < 256,
            0 <= x1 < 256,
            0 <= x2 < 256,
            0 <= x3 < 256,
            n == x0 + 256 * (x1 + 256 * (x2 + 256 * x3)),
    ;
    assert(le_u32_bytes(n as nat) =~= b);
}

/// Two bytes spell a number whose little-endian bytes are those bytes.
proof fn lemma_le_u16_inverse(b: Seq<u8>)
    requires
        b.len() == 2,
    ensures
        le_value(b) < 0x1_0000,
        le_u16_bytes(le_value(b)) == b,
{
    reveal_with_fuel(le_value, 3);
    let (x0, x1) = (b[0] as int, b[1] as int);
    assert(b.skip(1).skip(1).len() == 0);
    assert(b.skip(1)[0] == b[1]);
    let n = x0 + 256 * x1;
    assert(le_value(b) == n);
    assert(n % 256 == x0 && (n / 256) % 256 == x1 && n < 0x1_0000) by (nonlinear_arith)
        requires
            0 <= x0 < 256,
            0 <= x1 < 256,
            n == x0 + 256 * x1,
    ;
    assert(le_u16_bytes(n as nat) =~= b);
}

/// Whatever opens as an envelope is exactly the envelope of its header,
/// payload and signature: nothing is left before, between or after them,
/// and the signed message ends where the payload does.
pub proof fn lemma_parse_is_exact(b: Seq<u8>)
    ensures
        parse_envelope(b) matches Some((end, p, sig)) ==> b == envelope(b.take(8), p, sig) && end == 12
            + p.len() && p.len() <= u32::MAX && sig.len() <= u16::MAX,
{
    if let Some((end, p, sig)) = parse_envelope(b) {
        lemma_le_u32_inverse(b.subrange(8, 12));
        let n: int = p.len() as int;
        lemma_le_u16_inverse(b.subrange(12 + n, 14 + n));
        assert(b =~= envelope(b.take(8), p, sig));
    }
}

/// The four little-endian bytes of `n`.
fn le_u32(n: u32) -> (b: [u8; 4])
    ensures
        b@ == le_u32_bytes(n as nat),
{
    let b = [(n % 256) as u8, ((n / 256) % 256) as u8, ((n / 65536) % 256) as u8, ((n / 16777216) % 256) as u8];
    assert(b@ =~= le_u32_bytes(n as nat));
    b
}

/// The two little-endian bytes of `n`.
fn le_u16(n: u16) -> (b: [u8; 2])
    ensures
        b@ == le_u16_bytes(n as nat),
{
    let b = [(n % 256) as u8, ((n / 256) % 256) as u8];
    assert(b@ =~= le_u16_bytes(n as nat));
    b
}

/// The number spelled by the `k` little-endian bytes of `b` from `at`.
fn read_le(b: &[u8], at: usize, k: usize) -> (v: u64)
    requires
        k <= 4,
        at + k <= b@.len(),
    ensures
        v == le_value(b@.subrange(at as int, at + k)),
    decreases k,
{
    let total = b.len();
    if k == 0 {
        0
    } else {
        assert(at < total);
        let rest = read_le(b, at + 1, k - 1);
        proof {
            let s = b@.subrange(at as int, at + k);
            assert(s.skip(1) =~= b@.subrange(at + 1, at + k));
            lemma_le_bound(b@.subrange(at + 1, at + k));
        }
        b[at] as u64 + 256 * rest
    }
}

/// Little-endian bytes spell a number below `256` to their count.
proof fn lemma_le_bound(b: Seq<u8>)
    ensures
        b.len() <= 3 ==> le_value(b) < 0x100_0000,
        b.len() <= 2 ==> le_value(b) < 0x1_0000,
        b.len() <= 1 ==> le_value(b) < 0x100,
    decreases b.len(),
{
    if b.len() > 0 {
        lemma_le_bound(b.skip(1));
    }
}

/// The message a signer signs for `payload` under `header`: the header,
/// the payload's length and the payload; `None` when the payload is longer
/// than `u32::MAX` bytes.
pub fn signed_message(header: &[u8; 8], payload: &[u8]) -> (m: Option<Vec<u8>>)
    ensures
        m is None <==> payload@.len() > u32::MAX,
        m matches Some(v) ==> v@ == envelope_message(header@, payload@),
{
    if payload.len() > 0xFFFF_FFFF {
        return None;
    }
    let mut w = Writer::new(Vec::new());
    let _ = w.write_bytes(header.as_slice());
    let len = le_u32(payload.len() as u32);
    let _ = w.write_bytes(len.as_slice());
    let _ = w.write_bytes(payload);
    let message = w.into_bytes();
    proof {
        assert(message@ =~= envelope_message(header@, payload@));
    }
    Some(message)
}

/// `message` followed by the length of `sig` and `sig`; `None` when `sig`
/// is longer than `u16::MAX` bytes.
pub fn frame_signature(message: Vec<u8>, sig: &[u8]) -> (out: Option<Vec<u8>>)
    ensures
        out is None <==> sig@.len() > u16::MAX,
        out matches Some(v) ==> v@ == message@ + le_u16_bytes(sig@.len()) + sig@,
{
    if sig.len() > 0xFFFF {
        return None;
    }
    let mut w = Writer::new(message);
    let len = le_u16(sig.len() as u16);
    let _ = w.write_bytes(len.as_slice());
    let _ = w.write_bytes(sig);
    Some(w.into_bytes())
}

/// The parts of the envelope `bytes`: where its signed message ends, where
/// its payload starts, and where its signature starts; `None` when `bytes`
/// is not an envelope.
pub fn envelope_bounds(bytes: &[u8]) -> (r: Option<(usize, usize)>)
    ensures
        r is None <==> parse_envelope(bytes@) is None,
        r matches Some((end, sig_at)) ==> parse_envelope(bytes@) matches Some((e, p, s)) && end == e
            && 12 <= end && end + 2 == sig_at && sig_at <= bytes@.len() && p == bytes@.subrange(12, end as int)
            && s == bytes@.subrange(sig_at as int, bytes@.len() as int),
{
    if bytes.len() < 12 {
        return None;
    }
    let n = read_le(bytes, 8, 4);
    let len = bytes.len() as u64;
    if len < 14 || n > len - 14 {
        return None;
    }
    let end = (12 + n) as usize;
    let m = read_le(bytes, end, 2);
    if len - 14 - n != m {
        return None;
    }
    Some((end, end + 2))
}

/// The signed envelope format: sealing frames and signs a payload, opening
/// checks the frame and the signature and hands the payload back.
pub struct Signed;

impl Signed {
    /// Seal `payload` under `header` with `signer`: the envelope of the
    /// payload and the signature the signer gives for the envelope's message.
    /// A payload longer than `u32::MAX` bytes, or a signature longer than
    /// `u16::MAX` bytes, cannot be framed.
    pub fn seal<S: Signer>(header: &[u8; 8], payload: &[u8], signer: &S) -> (res: Result<Vec<u8>, SignedError<S::Error>>)
        ensures
            payload@.len() > u32::MAX ==> res matches Err(SignedError::Malformed),
            res matches Ok(out) ==> exists|sig: Seq<u8>|
                sig.len() <= u16::MAX && out@ == envelope(header@, payload@, sig),
            res matches Ok(out) ==> exists|sig: Seq<u8>|
                #![trigger envelope(header@, payload@, sig)]
                sig.len() <= u16::MAX && out@ == envelope(header@, payload@, sig) && signer_gives(
                    signer,
                    envelope_message(header@, payload@),
                    sig,
                ),
            res matches Err(SignedError::Sign(e)) ==> payload@.len() <= u32::MAX && signer_fails(
                signer,
                envelope_message(header@, payload@),
                e,
            ),
    {
        let message = match signed_message(header, payload) {
            Some(m) => m,
            None => {
                return Err(SignedError::Malformed);
            },
        };
        let msg = message.as_slice();
        let signed = signer.sign(msg);
        proof {
            assert(call_ensures(S::sign, (signer, msg), signed));
        }
        let sig = match signed {
            Ok(sig) => sig,
            Err(e) => {
                assert(signer_fails(signer, envelope_message(header@, payload@), e));
                return Err(SignedError::Sign(e));
            },
        };
        let ghost sig_bytes = sig@;
        assert(signer_gives(signer, envelope_message(header@, payload@), sig_bytes));
        match frame_signature(message, sig.as_slice()) {
            Some(out) => {
                proof {
                    assert(out@ =~= envelope(header@, payload@, sig_bytes));
                    assert(sig_bytes.len() <= u16::MAX && out@ == envelope(header@, payload@, sig_bytes));
                }
                Ok(out)
            },
            None => Err(SignedError::Malformed),
        }
    }

    /// Open the envelope `bytes` with `verifier`: its payload, once the
    /// verifier accepts the signature over the envelope's message. The header
    /// is handed back with it, for the caller to check against the wire
    /// version it speaks.
    pub fn open<'a, V: Verifier>(bytes: &'a [u8], verifier: &V) -> (res: Result<([u8; 8], &'a [u8]), SignedError<VerifyError>>)
        ensures
            parse_envelope(bytes@) is None <==> res matches Err(SignedError::Malformed),
            res matches Ok((header, payload)) ==> parse_envelope(bytes@) matches Some((_, p, _)) && payload@ == p
                && header@ == bytes@.take(8),
            res matches Err(e) ==> e is Malformed || e is Verify,
            res is Ok ==> (parse_envelope(bytes@) matches Some((end, _, sig)) && verifier_accepts(
                verifier,
                bytes@.take(end as int),
                sig,
            )),
            res matches Err(SignedError::Verify(e)) ==> (parse_envelope(bytes@) matches Some((end, _, sig))
                && verifier_rejects(verifier, bytes@.take(end as int), sig, e)),
    {
        let (end, sig_at) = match envelope_bounds(bytes) {
            Some(b) => b,
            None => {
                return Err(SignedError::Malformed);
            },
        };
        let message = vstd::slice::slice_subrange(bytes, 0, end);
        let sig = vstd::slice::slice_subrange(bytes, sig_at, bytes.len());
        let verdict = verifier.verify(message, sig);
        proof {
            assert(message@ =~= bytes@.take(end as int));
            assert(call_ensures(V::verify, (verifier, message, sig), verdict));
            assert(parse_envelope(bytes@) matches Some((e, _, s)) && e == end && s == sig@);
        }
        match verdict {
            Ok(()) => {
                let payload = vstd::slice::slice_subrange(bytes, 12, end);
                let header = [bytes[0], bytes[1], bytes[2], bytes[3], bytes[4], bytes[5], bytes[6], bytes[7]];
                assert(header@ =~= bytes@.take(8));
                assert(verifier_accepts(verifier, bytes@.take(end as int), sig@));
                Ok((header, payload))
            },
            Err(e) => {
                assert(verifier_rejects(verifier, bytes@.take(end as int), sig@, e));
                Err(SignedError::Verify(e))
            },
        }
    }
}

} // verus!
