use wasmnet::webtransport::{frame_length, identity_source, length_prefixed, IdentitySource, MAX_FRAME};

#[test]
fn length_prefix_is_big_endian() {
    assert_eq!(length_prefixed(&[7, 8, 9]), vec![0, 0, 0, 3, 7, 8, 9]);
    assert_eq!(length_prefixed(&[]), vec![0, 0, 0, 0]);
}

#[test]
fn frame_length_accepts_one_to_max_frame() {
    assert_eq!(frame_length(&[0, 0, 0, 3]), Some(3));
    assert_eq!(frame_length(&[0, 0, 0, 0]), None);
    assert_eq!(frame_length(&MAX_FRAME.to_be_bytes()), Some(16 * 1024 * 1024));
    assert_eq!(frame_length(&(MAX_FRAME + 1).to_be_bytes()), None);
    assert_eq!(frame_length(&[0xff, 0xff, 0xff, 0xff]), None);
}

#[test]
fn a_prefixed_frame_reads_back() {
    let body = vec![1u8; 300];
    let framed = length_prefixed(&body);
    assert_eq!(frame_length(&framed[0..4]), Some(300));
    assert_eq!(&framed[4..], &body[..]);
}

#[test]
fn cert_and_key_come_together() {
    assert_eq!(identity_source(true, true), Ok(IdentitySource::PemFiles));
    assert_eq!(identity_source(false, false), Ok(IdentitySource::SelfSigned));
    assert_eq!(
        identity_source(true, false),
        Err("WebTransport needs both a cert and key, or neither".to_string())
    );
    assert!(identity_source(false, true).is_err());
}
