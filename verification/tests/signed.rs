use dol::signed::{
    envelope_bounds, frame_signature, signed_message, Signed, SignedError, Signer, Verifier, VerifyError,
};

const HEADER: [u8; 8] = [b'D', b'O', b'L', b'W', 0, 2, 0, 0];

struct StubSigner;

impl Signer for StubSigner {
    type Error = ();

    fn sign(&self, msg: &[u8]) -> Result<Vec<u8>, ()> {
        let s = msg.iter().copied().fold(0u8, |a, b| a.wrapping_add(b));
        Ok(vec![s; 8])
    }
}

struct StubVerifier;

impl Verifier for StubVerifier {
    fn verify(&self, msg: &[u8], sig: &[u8]) -> Result<(), VerifyError> {
        if sig.len() != 8 {
            return Err(VerifyError::Malformed);
        }
        let want = msg.iter().copied().fold(0u8, |a, b| a.wrapping_add(b));
        if sig.iter().all(|&b| b == want) {
            Ok(())
        } else {
            Err(VerifyError::Mismatch)
        }
    }
}

struct FailingSigner;

impl Signer for FailingSigner {
    type Error = &'static str;

    fn sign(&self, _msg: &[u8]) -> Result<Vec<u8>, &'static str> {
        Err("no key")
    }
}

#[test]
fn roundtrip_empty_payload() {
    let bytes = Signed::seal(&HEADER, b"", &StubSigner).unwrap();
    let (_, out) = Signed::open(&bytes, &StubVerifier).unwrap();
    assert_eq!(out, b"");
}

#[test]
fn roundtrip_some_payload() {
    let bytes = Signed::seal(&HEADER, b"hello world", &StubSigner).unwrap();
    let (header, out) = Signed::open(&bytes, &StubVerifier).unwrap();
    assert_eq!(out, b"hello world");
    assert_eq!(header, HEADER);
}

#[test]
fn rejects_truncated_envelope() {
    let mut bytes = Signed::seal(&HEADER, b"hello", &StubSigner).unwrap();
    bytes.truncate(5);
    let err = Signed::open(&bytes, &StubVerifier).unwrap_err();
    assert!(matches!(err, SignedError::Malformed));
}

#[test]
fn rejects_tampered_payload() {
    let mut bytes = Signed::seal(&HEADER, b"hello", &StubSigner).unwrap();
    let payload_idx = 8 + 4;
    bytes[payload_idx] ^= 0x01;
    let err = Signed::open(&bytes, &StubVerifier).unwrap_err();
    assert!(matches!(err, SignedError::Verify(_)));
}

#[test]
fn rejects_tampered_version() {
    let mut bytes = Signed::seal(&HEADER, b"hello", &StubSigner).unwrap();
    bytes[6] = bytes[6].wrapping_add(1);
    let err = Signed::open(&bytes, &StubVerifier).unwrap_err();
    assert!(matches!(err, SignedError::Verify(_)));
}

#[test]
fn rejects_extra_trailing_bytes() {
    let mut bytes = Signed::seal(&HEADER, b"hi", &StubSigner).unwrap();
    bytes.push(0);
    let err = Signed::open(&bytes, &StubVerifier).unwrap_err();
    assert!(matches!(err, SignedError::Malformed));
}

#[test]
fn sealed_layout_is_header_length_payload_length_signature() {
    let bytes = Signed::seal(&HEADER, b"hi", &StubSigner).unwrap();
    let sum = HEADER
        .iter()
        .chain([2u8, 0, 0, 0].iter())
        .chain(b"hi".iter())
        .fold(0u8, |a, &b| a.wrapping_add(b));
    let mut expected = HEADER.to_vec();
    expected.extend_from_slice(&[2, 0, 0, 0]);
    expected.extend_from_slice(b"hi");
    expected.extend_from_slice(&[8, 0]);
    expected.extend_from_slice(&[sum; 8]);
    assert_eq!(bytes, expected);
    assert_eq!(envelope_bounds(&bytes), Some((14, 16)));
}

#[test]
fn signer_failure_is_reported() {
    let err = Signed::seal(&HEADER, b"hi", &FailingSigner).unwrap_err();
    assert!(matches!(err, SignedError::Sign("no key")));
}

#[test]
fn oversized_signature_cannot_be_framed() {
    let sig = vec![0u8; 0x1_0000];
    assert_eq!(frame_signature(vec![1, 2], &sig), None);
    let ok = frame_signature(vec![1, 2], &[9, 9, 9]).unwrap();
    assert_eq!(ok, vec![1, 2, 3, 0, 9, 9, 9]);
}

#[test]
fn length_fields_are_little_endian() {
    let payload = vec![7u8; 300];
    let bytes = Signed::seal(&HEADER, &payload, &StubSigner).unwrap();
    assert_eq!(&bytes[8..12], &[44, 1, 0, 0]);
    let (_, out) = Signed::open(&bytes, &StubVerifier).unwrap();
    assert_eq!(out.len(), 300);
    assert_eq!(envelope_bounds(&bytes[..11]), None);
}

#[test]
fn signed_message_is_header_length_payload() {
    let m = signed_message(&HEADER, b"abc").unwrap();
    let mut expected = HEADER.to_vec();
    expected.extend_from_slice(&[3, 0, 0, 0]);
    expected.extend_from_slice(b"abc");
    assert_eq!(m, expected);
}
