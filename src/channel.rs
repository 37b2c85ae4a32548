//! A secure channel between two node ids: two direction-specific sides
//! derived from one shared secret, the packet codec, and the drop timer.

use crate::crypto::{apply_ctr_keystream, ctr_keystream, sha256, sha256_of, x25519, x25519_shared};
use crate::ids::{compare_ids, id_cmp, lemma_cmp_from_antisymmetric, AdnlNodeIdShort};
use vstd::prelude::*;

verus! {

/// Seconds between marking an idle channel and its reset.
pub const CHANNEL_RESET_TIMEOUT: i32 = 30;

/// Bytes in the clear at the head of a channel packet: channel id and checksum.
pub const PACKET_HEADER_LEN: usize = 64;

/// Little-endian tag of the `pub.aes key:int256` schema constructor.
pub open spec fn aes_key_tag() -> Seq<u8> {
    seq![0xd4u8, 0xadu8, 0xbcu8, 0x2du8]
}

/// The channel id of a secret: the digest of the serialised AES public key.
pub open spec fn channel_id_of(secret: Seq<u8>) -> Seq<u8> {
    sha256_of(aes_key_tag() + secret)
}

/// A sequence in reverse order.
pub open spec fn reversed(s: Seq<u8>) -> Seq<u8> {
    Seq::new(s.len(), |i: int| s[s.len() - 1 - i])
}

/// The outbound secret at `local` towards `peer`.
pub open spec fn out_secret_of(local: Seq<u8>, peer: Seq<u8>, shared: Seq<u8>) -> Seq<u8> {
    if id_cmp(local, peer) < 0 { reversed(shared) } else { shared }
}

/// The inbound secret at `local` from `peer`.
pub open spec fn in_secret_of(local: Seq<u8>, peer: Seq<u8>, shared: Seq<u8>) -> Seq<u8> {
    if id_cmp(local, peer) > 0 { reversed(shared) } else { shared }
}

/// AES key of a packet: the first half of the secret, the second half of the checksum.
pub open spec fn packet_key(secret: Seq<u8>, checksum: Seq<u8>) -> Seq<u8> {
    secret.subrange(0, 16) + checksum.subrange(16, 32)
}

/// Initial counter block of a packet: four checksum bytes, then the secret's bytes 20 to 32.
pub open spec fn packet_iv(secret: Seq<u8>, checksum: Seq<u8>) -> Seq<u8> {
    checksum.subrange(0, 4) + secret.subrange(20, 32)
}

/// `data` XORed with the packet keystream of `secret` and `checksum`.
pub open spec fn packet_cipher(secret: Seq<u8>, checksum: Seq<u8>, data: Seq<u8>) -> Seq<u8> {
    Seq::new(
        data.len(),
        |i: int| data[i] ^ ctr_keystream(packet_key(secret, checksum), packet_iv(secret, checksum), i as nat),
    )
}

/// The wire form of `payload` on a side with channel id `id` and secret `secret`.
pub open spec fn encrypted_packet(id: Seq<u8>, secret: Seq<u8>, payload: Seq<u8>) -> Seq<u8> {
    id + sha256_of(payload) + packet_cipher(secret, sha256_of(payload), payload)
}

/// The deadline after a mark at `now` of a timer that held `deadline`.
pub open spec fn marked_deadline(deadline: i32, now: i32) -> int {
    if deadline == 0 { now + CHANNEL_RESET_TIMEOUT } else { deadline as int }
}

/// Why a channel packet was refused.
#[derive(Debug, Clone, Copy, PartialEq, Eq, Structural)]
pub enum AdnlChannelError {
    /// The packet is shorter than its header; carries the length.
    ChannelMessageIsTooShort(usize),
    /// The decrypted payload does not match the checksum of the header.
    InvalidChannelMessageChecksum,
    /// The peer's public key is not a valid curve point.
    BadPublicKey,
}

/// The payload a packet decrypts to with `secret`, before the checksum test.
pub open spec fn decrypted_payload(secret: Seq<u8>, packet: Seq<u8>) -> Seq<u8> {
    packet_cipher(secret, packet.subrange(32, 64), packet.subrange(64, packet.len() as int))
}

/// What decrypting `packet` with `secret` gives: the payload, or the error.
pub open spec fn decrypt_result(secret: Seq<u8>, packet: Seq<u8>) -> Result<Seq<u8>, AdnlChannelError> {
    if packet.len() < 64 {
        Err(AdnlChannelError::ChannelMessageIsTooShort(packet.len() as usize))
    } else if sha256_of(decrypted_payload(secret, packet)) == packet.subrange(32, 64) {
        Ok(decrypted_payload(secret, packet))
    } else {
        Err(AdnlChannelError::InvalidChannelMessageChecksum)
    }
}

/// Appends `src[from..to]` to `dst`.
fn extend_range(dst: &mut Vec<u8>, src: &[u8], from: usize, to: usize)
    requires
        from <= to <= src@.len(),
    ensures
        final(dst)@ == old(dst)@ + src@.subrange(from as int, to as int),
{
    let mut i: usize = from;
    while i < to
        invariant
            from <= i <= to <= src@.len(),
            dst@ == old(dst)@ + src@.subrange(from as int, i as int),
        decreases to - i,
    {
        dst.push(src[i]);
        i = i + 1;
        assert(dst@ =~= old(dst)@ + src@.subrange(from as int, i as int));
    }
}

fn build_packet_key(secret: &[u8; 32], checksum: &[u8]) -> (r: Vec<u8>)
    requires
        checksum@.len() == 32,
    ensures
        r@ == packet_key(secret@, checksum@),
        r@.len() == 32,
{
    let mut r: Vec<u8> = Vec::new();
    extend_range(&mut r, secret.as_slice(), 0, 16);
    extend_range(&mut r, checksum, 16, 32);
    assert(r@ =~= packet_key(secret@, checksum@));
    r
}

fn build_packet_iv(secret: &[u8; 32], checksum: &[u8]) -> (r: Vec<u8>)
    requires
        checksum@.len() == 32,
    ensures
        r@ == packet_iv(secret@, checksum@),
        r@.len() == 16,
{
    let mut r: Vec<u8> = Vec::new();
    extend_range(&mut r, checksum, 0, 4);
    extend_range(&mut r, secret.as_slice(), 20, 32);
    assert(r@ =~= packet_iv(secret@, checksum@));
    r
}

/// Applies the packet cipher of `secret` to everything behind the header,
/// keyed by the checksum in the header.
fn process_channel_data(buffer: &mut Vec<u8>, secret: &[u8; 32])
    requires
        old(buffer)@.len() >= PACKET_HEADER_LEN,
    ensures
        final(buffer)@ == old(buffer)@.subrange(0, 64) + packet_cipher(
            secret@,
            old(buffer)@.subrange(32, 64),
            old(buffer)@.subrange(64, old(buffer)@.len() as int),
        ),
{
    let mut checksum: Vec<u8> = Vec::new();
    extend_range(&mut checksum, buffer.as_slice(), 32, 64);
    let key = build_packet_key(secret, checksum.as_slice());
    let iv = build_packet_iv(secret, checksum.as_slice());
    apply_ctr_keystream(key.as_slice(), iv.as_slice(), buffer, PACKET_HEADER_LEN);
    assert(buffer@ =~= old(buffer)@.subrange(0, 64) + packet_cipher(
        secret@,
        old(buffer)@.subrange(32, 64),
        old(buffer)@.subrange(64, old(buffer)@.len() as int),
    ));
}

fn bytes_equal(a: &[u8], b: &[u8]) -> (r: bool)
    ensures
        r == (a@ == b@),
{
    if a.len() != b.len() {
        return false;
    }
    let mut i: usize = 0;
    while i < a.len()
        invariant
            a@.len() == b@.len(),
            0 <= i <= a@.len(),
            forall|j: int| 0 <= j < i ==> a@[j] == b@[j],
        decreases a@.len() - i,
    {
        if a[i] != b[i] {
            return false;
        }
        i = i + 1;
    }
    assert(a@ =~= b@);
    true
}

struct ChannelSide {
    id: [u8; 32],
    secret: [u8; 32],
}

impl ChannelSide {
    fn from_secret(secret: [u8; 32]) -> (r: ChannelSide)
        ensures
            r.secret == secret,
            r.id@ == channel_id_of(secret@),
    {
        ChannelSide { id: compute_channel_id(&secret), secret }
    }
}

fn compute_channel_id(secret: &[u8; 32]) -> (r: [u8; 32])
    ensures
        r@ == channel_id_of(secret@),
{
    let mut data: Vec<u8> = vec![0xd4u8, 0xadu8, 0xbcu8, 0x2du8];
    let mut i: usize = 0;
    while i < 32
        invariant
            0 <= i <= 32,
            data@ == aes_key_tag() + secret@.subrange(0, i as int),
        decreases 32 - i,
    {
        data.push(secret[i]);
        i = i + 1;
        assert(data@ =~= aes_key_tag() + secret@.subrange(0, i as int));
    }
    assert(secret@.subrange(0, 32) =~= secret@);
    sha256(data.as_slice())
}

fn reverse_bytes(s: &[u8; 32]) -> (r: [u8; 32])
    ensures
        r@ == reversed(s@),
{
    let mut r: [u8; 32] = *s;
    let mut i: usize = 0;
    while i < 32
        invariant
            0 <= i <= 32,
            r@.len() == 32,
            forall|j: int| 0 <= j < i ==> r@[j] == s@[31 - j],
        decreases 32 - i,
    {
        r[i] = s[31 - i];
        i = i + 1;
    }
    assert(r@ =~= reversed(s@));
    r
}

/// A secure channel between `local_id` and `peer_id`.
pub struct AdnlChannel {
    channel_out: ChannelSide,
    channel_in: ChannelSide,
    local_id: AdnlNodeIdShort,
    peer_id: AdnlNodeIdShort,
    drop: i32,
}

impl AdnlChannel {
    pub closed spec fn spec_local_id(&self) -> Seq<u8> {
        self.local_id@
    }

    pub closed spec fn spec_peer_id(&self) -> Seq<u8> {
        self.peer_id@
    }

    pub closed spec fn out_secret(&self) -> Seq<u8> {
        self.channel_out.secret@
    }

    pub closed spec fn in_secret(&self) -> Seq<u8> {
        self.channel_in.secret@
    }

    pub closed spec fn out_id(&self) -> Seq<u8> {
        self.channel_out.id@
    }

    pub closed spec fn in_id(&self) -> Seq<u8> {
        self.channel_in.id@
    }

    /// Drop deadline in seconds since the epoch; 0 when unarmed.
    pub closed spec fn drop_deadline(&self) -> i32 {
        self.drop
    }

    /// The channel holds the sides that `shared` gives between its two ids,
    /// with an unarmed drop timer.
    pub open spec fn derived_from(&self, local: Seq<u8>, peer: Seq<u8>, shared: Seq<u8>) -> bool {
        &&& self.spec_local_id() == local
        &&& self.spec_peer_id() == peer
        &&& self.out_secret() == out_secret_of(local, peer, shared)
        &&& self.in_secret() == in_secret_of(local, peer, shared)
        &&& self.out_id() == channel_id_of(out_secret_of(local, peer, shared))
        &&& self.in_id() == channel_id_of(in_secret_of(local, peer, shared))
        &&& self.drop_deadline() == 0
    }

    /// Everything but the drop timer is the same in both channels.
    pub open spec fn same_sides(&self, other: &AdnlChannel) -> bool {
        &&& self.spec_local_id() == other.spec_local_id()
        &&& self.spec_peer_id() == other.spec_peer_id()
        &&& self.out_secret() == other.out_secret()
        &&& self.in_secret() == other.in_secret()
        &&& self.out_id() == other.out_id()
        &&& self.in_id() == other.in_id()
    }

    /// Builds the channel from an already computed X25519 shared secret.
    pub fn from_shared_secret(
        local_id: AdnlNodeIdShort,
        peer_id: AdnlNodeIdShort,
        shared_secret: [u8; 32],
    ) -> (r: AdnlChannel)
        ensures
            r.derived_from(local_id@, peer_id@, shared_secret@),
    {
        let reversed_secret = reverse_bytes(&shared_secret);
        let ord = compare_ids(&local_id, &peer_id);
        let (out_secret, in_secret) = if ord < 0 {
            (reversed_secret, shared_secret)
        } else if ord > 0 {
            (shared_secret, reversed_secret)
        } else {
            (shared_secret, shared_secret)
        };
        AdnlChannel {
            channel_out: ChannelSide::from_secret(out_secret),
            channel_in: ChannelSide::from_secret(in_secret),
            local_id,
            peer_id,
            drop: 0,
        }
    }

    /// Performs the X25519 exchange and derives the two sides from its result.
    pub fn new(
        local_id: AdnlNodeIdShort,
        peer_id: AdnlNodeIdShort,
        local_private_key_part: &[u8; 32],
        peer_public_key: &[u8; 32],
    ) -> (r: Result<AdnlChannel, AdnlChannelError>)
        ensures
            match x25519_shared(local_private_key_part@, peer_public_key@) {
                Some(s) => r matches Ok(c) && c.derived_from(local_id@, peer_id@, s),
                None => r == Err::<AdnlChannel, AdnlChannelError>(AdnlChannelError::BadPublicKey),
            },
    {
        match x25519(local_private_key_part, peer_public_key) {
            Some(shared_secret) => Ok(AdnlChannel::from_shared_secret(local_id, peer_id, shared_secret)),
            None => Err(AdnlChannelError::BadPublicKey),
        }
    }

    pub fn channel_in_id(&self) -> (r: &[u8; 32])
        ensures
            r@ == self.in_id(),
    {
        &self.channel_in.id
    }

    pub fn channel_out_id(&self) -> (r: &[u8; 32])
        ensures
            r@ == self.out_id(),
    {
        &self.channel_out.id
    }

    pub fn local_id(&self) -> (r: &AdnlNodeIdShort)
        ensures
            r@ == self.spec_local_id(),
    {
        &self.local_id
    }

    pub fn peer_id(&self) -> (r: &AdnlNodeIdShort)
        ensures
            r@ == self.spec_peer_id(),
    {
        &self.peer_id
    }

    /// Arms the drop timer at `now + CHANNEL_RESET_TIMEOUT` unless it is
    /// armed already; returns the deadline in force afterwards.
    pub fn update_drop_timeout(&mut self, now: i32) -> (r: i32)
        requires
            old(self).drop_deadline() == 0 ==> now <= i32::MAX - CHANNEL_RESET_TIMEOUT,
        ensures
            final(self).same_sides(old(self)),
            r == marked_deadline(old(self).drop_deadline(), now),
            final(self).drop_deadline() == r,
    {
        if self.drop == 0 {
            self.drop = now + CHANNEL_RESET_TIMEOUT;
        }
        self.drop
    }

    /// Disarms the drop timer.
    pub fn reset_drop_timeout(&mut self)
        ensures
            final(self).same_sides(old(self)),
            final(self).drop_deadline() == 0,
    {
        self.drop = 0;
    }

    /// Decrypts a packet of the inbound side in place and strips its header.
    /// A packet shorter than the header is refused and left as it was; one
    /// whose payload does not match its checksum is refused and left with the
    /// payload decrypted behind the header.
    pub fn decrypt(&self, buffer: &mut Vec<u8>) -> (r: Result<(), AdnlChannelError>)
        ensures
            match decrypt_result(self.in_secret(), old(buffer)@) {
                Ok(p) => r is Ok && final(buffer)@ == p,
                Err(e) => r == Err::<(), AdnlChannelError>(e),
            },
            r == Err::<(), AdnlChannelError>(AdnlChannelError::ChannelMessageIsTooShort(old(buffer)@.len() as usize))
                ==> final(buffer)@ == old(buffer)@,
            r == Err::<(), AdnlChannelError>(AdnlChannelError::InvalidChannelMessageChecksum)
                ==> final(buffer)@ == old(buffer)@.subrange(0, 64) + decrypted_payload(self.in_secret(), old(buffer)@),
    {
        let len = buffer.len();
        if len < PACKET_HEADER_LEN {
            return Err(AdnlChannelError::ChannelMessageIsTooShort(len));
        }
        process_channel_data(buffer, &self.channel_in.secret);
        let mut checksum: Vec<u8> = Vec::new();
        extend_range(&mut checksum, buffer.as_slice(), 32, 64);
        assert(checksum@ =~= old(buffer)@.subrange(32, 64));
        let mut payload: Vec<u8> = Vec::new();
        extend_range(&mut payload, buffer.as_slice(), 64, len);
        assert(payload@ =~= decrypted_payload(self.in_secret(), old(buffer)@));
        assert(buffer@ =~= old(buffer)@.subrange(0, 64) + payload@);
        let digest = sha256(payload.as_slice());
        if !bytes_equal(digest.as_slice(), checksum.as_slice()) {
            return Err(AdnlChannelError::InvalidChannelMessageChecksum);
        }
        *buffer = payload;
        Ok(())
    }

    /// Encrypts `buffer` in place for the outbound side: channel id, payload
    /// checksum, then the payload under the packet cipher.
    pub fn encrypt(&self, buffer: &mut Vec<u8>) -> (r: Result<(), AdnlChannelError>)
        requires
            old(buffer)@.len() + PACKET_HEADER_LEN <= usize::MAX,
        ensures
            r is Ok,
            final(buffer)@ == encrypted_packet(self.out_id(), self.out_secret(), old(buffer)@),
            final(buffer)@.len() == old(buffer)@.len() + PACKET_HEADER_LEN,
            sha256_of(old(buffer)@).len() == 32,
    {
        let checksum = sha256(buffer.as_slice());
        let mut packet: Vec<u8> = Vec::new();
        extend_range(&mut packet, self.channel_out.id.as_slice(), 0, 32);
        extend_range(&mut packet, checksum.as_slice(), 0, 32);
        extend_range(&mut packet, buffer.as_slice(), 0, buffer.len());
        assert(packet@.subrange(32, 64) =~= checksum@);
        assert(packet@.subrange(64, packet@.len() as int) =~= old(buffer)@);
        process_channel_data(&mut packet, &self.channel_out.secret);
        assert(packet@ =~= encrypted_packet(self.out_id(), self.out_secret(), old(buffer)@));
        *buffer = packet;
        Ok(())
    }
}

/// Marking an unarmed channel at `t` sets `t + CHANNEL_RESET_TIMEOUT`; a
/// second mark keeps and returns that deadline; after a reset a mark at `t2`
/// sets `t2 + CHANNEL_RESET_TIMEOUT`. (A deadline of 0 reads as unarmed, so
/// a mark at `-CHANNEL_RESET_TIMEOUT` does not stick.)
pub proof fn lemma_drop_timer(t: i32, t2: i32)
    requires
        t <= i32::MAX - CHANNEL_RESET_TIMEOUT,
        t2 <= i32::MAX - CHANNEL_RESET_TIMEOUT,
        t + CHANNEL_RESET_TIMEOUT != 0,
    ensures
        marked_deadline(0, t) == t + CHANNEL_RESET_TIMEOUT,
        marked_deadline(marked_deadline(0, t) as i32, t2) == t + CHANNEL_RESET_TIMEOUT,
        marked_deadline(0, t2) == t2 + CHANNEL_RESET_TIMEOUT,
{
}

/// The encrypted form of any payload on one side decrypts, with the same
/// secret, back to that payload.
pub proof fn lemma_encrypt_decrypt_round_trip(id: Seq<u8>, secret: Seq<u8>, payload: Seq<u8>)
    requires
        id.len() == 32,
        secret.len() == 32,
        sha256_of(payload).len() == 32,
    ensures
        decrypt_result(secret, encrypted_packet(id, secret, payload)) == Ok::<Seq<u8>, AdnlChannelError>(payload),
{
    let h = sha256_of(payload);
    let packet = encrypted_packet(id, secret, payload);
    assert(packet.subrange(32, 64) =~= h);
    let body = packet.subrange(64, packet.len() as int);
    assert(body =~= packet_cipher(secret, h, payload));
    let k = packet_key(secret, h);
    let v = packet_iv(secret, h);
    assert forall|i: int| 0 <= i < payload.len() implies #[trigger] packet_cipher(secret, h, body)[i] == payload[i] by {
        let x = payload[i];
        let c = ctr_keystream(k, v, i as nat);
        assert((x ^ c) ^ c == x) by (bit_vector);
    }
    assert(decrypted_payload(secret, packet) =~= payload);
}

/// For two distinct ids that share a secret, each end's outbound side is the
/// other end's inbound side, in secret and in channel id.
pub proof fn lemma_channel_symmetry(a: AdnlChannel, b: AdnlChannel, local: [u8; 32], peer: [u8; 32], shared: Seq<u8>)
    requires
        local@ != peer@,
        a.derived_from(local@, peer@, shared),
        b.derived_from(peer@, local@, shared),
    ensures
        a.out_secret() == b.in_secret(),
        a.out_id() == b.in_id(),
        a.in_secret() == b.out_secret(),
        a.in_id() == b.out_id(),
{
    lemma_cmp_from_antisymmetric(local@, peer@, 0);
    crate::ids::lemma_id_cmp_zero(local, peer);
}

/// What one end of a channel encrypts, the other end decrypts back to the
/// same payload.
pub proof fn lemma_channel_round_trip(
    a: AdnlChannel,
    b: AdnlChannel,
    local: [u8; 32],
    peer: [u8; 32],
    shared: [u8; 32],
    payload: Seq<u8>,
)
    requires
        local@ != peer@,
        a.derived_from(local@, peer@, shared@),
        b.derived_from(peer@, local@, shared@),
        sha256_of(payload).len() == 32,
    ensures
        decrypt_result(b.in_secret(), encrypted_packet(a.out_id(), a.out_secret(), payload))
            == Ok::<Seq<u8>, AdnlChannelError>(payload),
{
    lemma_channel_symmetry(a, b, local, peer, shared@);
    lemma_encrypt_decrypt_round_trip(a.out_id(), a.out_secret(), payload);
}

} // verus!
