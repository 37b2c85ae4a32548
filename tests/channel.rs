use adnl_rldp::channel::{AdnlChannel, AdnlChannelError};
use curve25519_dalek::constants::ED25519_BASEPOINT_POINT;
use curve25519_dalek::edwards::CompressedEdwardsY;
use curve25519_dalek::scalar::Scalar;
use sha2::Digest;

fn fixed_secret() -> [u8; 32] {
    let mut s = [0u8; 32];
    for (i, b) in s.iter_mut().enumerate() {
        *b = (i as u8).wrapping_mul(7).wrapping_add(3);
    }
    s
}

fn pair() -> (AdnlChannel, AdnlChannel) {
    let a = [0u8; 32];
    let b = [0xffu8; 32];
    let s = fixed_secret();
    (
        AdnlChannel::from_shared_secret(a, b, s),
        AdnlChannel::from_shared_secret(b, a, s),
    )
}

fn key_pair(seed: u8) -> ([u8; 32], [u8; 32]) {
    let mut k = [seed; 32];
    k[0] &= 248;
    k[31] &= 127;
    k[31] |= 64;
    let public = (ED25519_BASEPOINT_POINT * Scalar::from_bits(k)).compress().to_bytes();
    (k, public)
}

#[test]
fn channel_encrypt_hello() {
    let (local, peer) = pair();
    let mut buffer = b"hello".to_vec();
    local.encrypt(&mut buffer).unwrap();
    assert_eq!(buffer.len(), 64 + 5);
    assert_eq!(&buffer[..32], &local.channel_out_id()[..]);
    let digest = sha2::Sha256::digest(b"hello");
    assert_eq!(&buffer[32..64], digest.as_slice());
    assert_ne!(&buffer[64..], b"hello");
    peer.decrypt(&mut buffer).unwrap();
    assert_eq!(buffer, b"hello".to_vec());
}

#[test]
fn channel_sides_are_mirrored() {
    let (local, peer) = pair();
    assert_eq!(local.channel_out_id(), peer.channel_in_id());
    assert_eq!(local.channel_in_id(), peer.channel_out_id());
    assert_ne!(local.channel_in_id(), local.channel_out_id());
    assert_eq!(local.local_id(), &[0u8; 32]);
    assert_eq!(local.peer_id(), &[0xffu8; 32]);
}

#[test]
fn channel_round_trip_both_directions() {
    let (local, peer) = pair();
    for len in [0usize, 1, 15, 16, 17, 100, 1000] {
        let payload: Vec<u8> = (0..len).map(|i| (i * 31 % 251) as u8).collect();
        let mut forth = payload.clone();
        local.encrypt(&mut forth).unwrap();
        peer.decrypt(&mut forth).unwrap();
        assert_eq!(forth, payload);
        let mut back = payload.clone();
        peer.encrypt(&mut back).unwrap();
        local.decrypt(&mut back).unwrap();
        assert_eq!(back, payload);
    }
}

#[test]
fn channel_short_packet() {
    let (_, peer) = pair();
    let mut buffer = vec![0u8; 63];
    assert_eq!(peer.decrypt(&mut buffer), Err(AdnlChannelError::ChannelMessageIsTooShort(63)));
    assert_eq!(buffer, vec![0u8; 63]);
}

#[test]
fn channel_checksum_tamper() {
    let (local, peer) = pair();
    let mut buffer = b"some payload".to_vec();
    local.encrypt(&mut buffer).unwrap();
    buffer[70] ^= 0x01;
    assert_eq!(peer.decrypt(&mut buffer), Err(AdnlChannelError::InvalidChannelMessageChecksum));
}

#[test]
fn channel_header_tamper() {
    let (local, peer) = pair();
    let mut buffer = b"some payload".to_vec();
    local.encrypt(&mut buffer).unwrap();
    buffer[40] ^= 0x80;
    assert_eq!(peer.decrypt(&mut buffer), Err(AdnlChannelError::InvalidChannelMessageChecksum));
}

#[test]
fn channel_wrong_side_fails() {
    let (local, _) = pair();
    let mut buffer = b"not for me".to_vec();
    local.encrypt(&mut buffer).unwrap();
    assert_eq!(local.decrypt(&mut buffer), Err(AdnlChannelError::InvalidChannelMessageChecksum));
}

#[test]
fn channel_equal_ids_share_one_secret() {
    let id = [5u8; 32];
    let c = AdnlChannel::from_shared_secret(id, id, fixed_secret());
    assert_eq!(c.channel_in_id(), c.channel_out_id());
}

#[test]
fn channel_key_exchange() {
    let (a_priv, a_pub) = key_pair(11);
    let (b_priv, b_pub) = key_pair(42);
    let a_id = [1u8; 32];
    let b_id = [2u8; 32];
    let at_a = AdnlChannel::new(a_id, b_id, &a_priv, &b_pub).unwrap();
    let at_b = AdnlChannel::new(b_id, a_id, &b_priv, &a_pub).unwrap();
    assert_eq!(at_a.channel_out_id(), at_b.channel_in_id());
    assert_eq!(at_a.channel_in_id(), at_b.channel_out_id());
    let mut buffer = b"over the wire".to_vec();
    at_a.encrypt(&mut buffer).unwrap();
    at_b.decrypt(&mut buffer).unwrap();
    assert_eq!(buffer, b"over the wire".to_vec());
}

#[test]
fn channel_bad_public_key() {
    let (a_priv, _) = key_pair(11);
    let mut bad = [0u8; 32];
    for y in 2u8..=255 {
        bad[0] = y;
        if CompressedEdwardsY(bad).decompress().is_none() {
            break;
        }
    }
    assert!(CompressedEdwardsY(bad).decompress().is_none());
    let r = AdnlChannel::new([1u8; 32], [2u8; 32], &a_priv, &bad);
    assert!(matches!(r, Err(AdnlChannelError::BadPublicKey)));
}

#[test]
fn drop_timer_mark_and_reset() {
    let (mut c, _) = pair();
    assert_eq!(c.update_drop_timeout(100), 130);
    assert_eq!(c.update_drop_timeout(100), 130);
    assert_eq!(c.update_drop_timeout(200), 130);
    c.reset_drop_timeout();
    assert_eq!(c.update_drop_timeout(300), 330);
}
