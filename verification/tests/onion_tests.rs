use abysses::protocol::onion::{
    cover_payload, encode_layer, encode_payload, mix_nonce, FinalPayload, NonceSource, OnionLayer,
    OnionLayerHeader, OnionPacket,
};
use abysses::error::AbyssError;
use chacha20poly1305::aead::{Aead, KeyInit};

#[test]
fn payload_wire_format() {
    let p = FinalPayload::RetrieveRequest { name: "ab".into(), expected_hash: [1u8; 32] };
    let mut expected = Vec::new();
    expected.extend_from_slice(&16u64.to_le_bytes());
    expected.extend_from_slice(b"retrieve_request");
    expected.extend_from_slice(&2u64.to_le_bytes());
    expected.extend_from_slice(b"ab");
    expected.extend_from_slice(&[1u8; 32]);
    assert_eq!(encode_payload(&p), expected);

    let p = FinalPayload::StoreRequest { fragment_hash: [2u8; 32], fragment_data: vec![9, 8], ttl: 5 };
    let mut expected = Vec::new();
    expected.extend_from_slice(&13u64.to_le_bytes());
    expected.extend_from_slice(b"store_request");
    expected.extend_from_slice(&[2u8; 32]);
    expected.extend_from_slice(&2u64.to_le_bytes());
    expected.extend_from_slice(&[9, 8]);
    expected.extend_from_slice(&5u32.to_le_bytes());
    assert_eq!(encode_payload(&p), expected);

    let p = FinalPayload::HttpRequest {
        method: "GET".into(),
        path: "/".into(),
        headers: vec![("a".into(), "b".into())],
        body: vec![],
        target_hash: [0u8; 32],
    };
    let bytes = encode_payload(&p);
    assert_eq!(bytes.len(), 8 + 12 + 8 + 3 + 8 + 1 + 8 + (8 + 1 + 8 + 1) + 8 + 32);
}

#[test]
fn cover_payload_is_padded() {
    match cover_payload([3u8; 32]) {
        FinalPayload::CoverTraffic { nonce, padding } => {
            assert_eq!(nonce, [3u8; 32]);
            assert_eq!(padding, vec![0u8; 900]);
        }
        _ => panic!(),
    }
}

#[test]
fn nonce_mixing() {
    let random = [0xFFu8; 12];
    let n = mix_nonce(1, &random);
    assert_eq!(&n[8..], &[0, 0, 0, 0]);
    assert_eq!(n[0], 0xFE);
    assert_eq!(&n[1..8], &[0xFF; 7]);
    let mut src = NonceSource::new();
    let a = src.next_nonce();
    assert_eq!(&a[8..], &[0, 0, 0, 0]);
    assert_eq!(src.counter, 1);
    src.counter = u64::MAX;
    src.next_nonce();
    assert_eq!(src.counter, 0);
}

#[test]
fn layer_is_sealed_and_padded() {
    let key = [7u8; 32];
    let mut src = NonceSource::new();
    let payload = b"inner bytes";
    let layer = OnionPacket::build_layer("me", "next", &key, payload, &mut src).ok().unwrap();
    assert_eq!(layer.header.next_hop, "next");
    assert_eq!(layer.encrypted_payload.len(), payload.len() + 16);
    assert_eq!(layer.header.padding.len(), 924 - payload.len() - 16);
    assert!(layer.header.padding.iter().all(|b| *b == 0));
    let cipher = chacha20poly1305::ChaCha20Poly1305::new(chacha20poly1305::Key::from_slice(&key));
    let plain = cipher
        .decrypt(chacha20poly1305::Nonce::from_slice(&layer.header.nonce), layer.encrypted_payload.as_slice())
        .unwrap();
    assert_eq!(plain, payload.to_vec());
    let wire = encode_layer(&layer);
    assert_eq!(wire.len(), 8 + 4 + 12 + 8 + 8 + 924);
    let other = OnionPacket::build_layer("me", "next", &key, b"x", &mut src).ok().unwrap();
    assert_eq!(encode_layer(&other).len(), wire.len());
}

#[test]
fn layer_wire_format() {
    let l = OnionLayer {
        header: OnionLayerHeader { next_hop: "h".into(), nonce: [4u8; 12], padding: vec![0, 0] },
        encrypted_payload: vec![1],
    };
    let mut expected = Vec::new();
    expected.extend_from_slice(&1u64.to_le_bytes());
    expected.extend_from_slice(b"h");
    expected.extend_from_slice(&[4u8; 12]);
    expected.extend_from_slice(&2u64.to_le_bytes());
    expected.extend_from_slice(&[0, 0]);
    expected.extend_from_slice(&1u64.to_le_bytes());
    expected.extend_from_slice(&[1]);
    assert_eq!(encode_layer(&l), expected);
}

#[test]
fn oversized_layer_is_refused() {
    let mut src = NonceSource::new();
    let big = vec![1u8; 909];
    match OnionPacket::build_layer("me", "next", &[1u8; 32], &big, &mut src) {
        Err(AbyssError::Encryption(e)) => assert_eq!(e, "onion layer exceeds the cell size"),
        _ => panic!("expected an encryption error"),
    }
    assert_eq!(src.counter, 1);
    let fits = vec![1u8; 908];
    assert!(OnionPacket::build_layer("me", "next", &[1u8; 32], &fits, &mut src).is_ok());
}

#[test]
fn packet_middle_layer_never_fits() {
    let mut src = NonceSource::new();
    let keys = [[1u8; 32], [2u8; 32], [3u8; 32]];
    let p = FinalPayload::RetrieveRequest { name: "site".into(), expected_hash: [1u8; 32] };
    let r = OnionPacket::build("h1", "h2", "h3", &keys, &p, &mut src);
    match r {
        Err(AbyssError::Encryption(e)) => assert_eq!(e, "onion layer exceeds the cell size"),
        _ => panic!("expected an encryption error"),
    }
    assert_eq!(src.counter, 2);
    let mut src = NonceSource::new();
    let r = OnionPacket::build("h1", "h2", "h3", &keys, &cover_payload([0u8; 32]), &mut src);
    assert!(r.is_err());
    assert_eq!(src.counter, 1);
}
