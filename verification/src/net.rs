//! Names of peers, addresses and connections, as plain values.

use vstd::prelude::*;

verus! {

/// The most bytes that the digest of a peer's multihash can have.
pub const MAX_DIGEST_LEN: usize = 64;

/// Identifier of a peer of the network: a multihash of at most [`MAX_DIGEST_LEN`] bytes.
///
/// Bytes of `digest` from `size` on are zero, so peers are equal exactly when their fields are.
#[derive(Copy, Clone, Debug, Hash)]
pub struct PeerId {
    code: u64,
    size: u8,
    digest: [u8; 64],
}

impl PeerId {
    #[verifier::type_invariant]
    pub closed spec fn wf(self) -> bool {
        &&& self.size <= MAX_DIGEST_LEN
        &&& forall|i: int| self.size <= i < MAX_DIGEST_LEN ==> self.digest[i] == 0
    }

    /// The code of the hash function.
    pub closed spec fn spec_code(self) -> u64 {
        self.code
    }

    /// The bytes that the hash function gave.
    pub closed spec fn spec_digest(self) -> Seq<u8> {
        self.digest@.take(self.size as int)
    }

    /// The peer with this multihash, or `None` where the digest is too long for one.
    pub fn from_multihash(code: u64, digest: &[u8]) -> (peer: Option<PeerId>)
        ensures
            peer is Some <==> digest@.len() <= MAX_DIGEST_LEN,
            peer matches Some(p) ==> p.wf() && p.spec_code() == code && p.spec_digest()
                == digest@,
    {
        if digest.len() > MAX_DIGEST_LEN {
            return None;
        }
        let mut bytes: [u8; 64] = [0u8; 64];
        let mut i: usize = 0;
        while i < digest.len()
            invariant
                i <= digest@.len() <= MAX_DIGEST_LEN,
                bytes@.take(i as int) =~= digest@.take(i as int),
                forall|j: int| i <= j < MAX_DIGEST_LEN ==> bytes[j] == 0,
            decreases digest@.len() - i,
        {
            bytes[i] = digest[i];
            i += 1;
        }
        let peer = PeerId { code, size: digest.len() as u8, digest: bytes };
        assert(peer.spec_digest() =~= digest@);
        Some(peer)
    }

    /// The code of the hash function.
    pub fn code(&self) -> (code: u64)
        ensures
            code == self.spec_code(),
    {
        self.code
    }

    /// The bytes that the hash function gave.
    pub fn digest(&self) -> (digest: Vec<u8>)
        ensures
            digest@ == self.spec_digest(),
    {
        proof {
            use_type_invariant(*self);
        }
        let mut digest: Vec<u8> = Vec::new();
        let size: usize = self.size as usize;
        let mut i: usize = 0;
        while i < size
            invariant
                i <= size == self.size <= MAX_DIGEST_LEN,
                digest@ =~= self.digest@.take(i as int),
            decreases size - i,
        {
            digest.push(self.digest[i]);
            i += 1;
        }
        digest
    }
}

impl PartialEq for PeerId {
    fn eq(&self, other: &PeerId) -> (same: bool) {
        if self.code != other.code || self.size != other.size {
            return false;
        }
        let mut i: usize = 0;
        while i < MAX_DIGEST_LEN
            invariant
                i <= MAX_DIGEST_LEN,
                forall|j: int| 0 <= j < i ==> self.digest[j] == other.digest[j],
            decreases MAX_DIGEST_LEN - i,
        {
            if self.digest[i] != other.digest[i] {
                return false;
            }
            i += 1;
        }
        assert(self.digest =~= other.digest);
        true
    }
}

impl vstd::std_specs::cmp::PartialEqSpecImpl for PeerId {
    open spec fn obeys_eq_spec() -> bool {
        true
    }

    open spec fn eq_spec(&self, other: &PeerId) -> bool {
        *self == *other
    }
}

impl Eq for PeerId {

}

/// Peers with the same hash code and the same digest are the same peer.
pub proof fn lemma_peer_id_is_its_multihash(p: PeerId, q: PeerId)
    requires
        p.wf(),
        q.wf(),
        p.spec_code() == q.spec_code(),
        p.spec_digest() == q.spec_digest(),
    ensures
        p == q,
{
    assert(p.spec_digest().len() == p.size);
    assert(q.spec_digest().len() == q.size);
    assert forall|i: int| 0 <= i < MAX_DIGEST_LEN implies p.digest[i] == q.digest[i] by {
        if i < p.size {
            assert(p.digest[i] == p.spec_digest()[i]);
            assert(q.digest[i] == q.spec_digest()[i]);
        }
    }
    assert(p.digest =~= q.digest);
}

/// An address at which a peer can be dialed, in the binary form of a multiaddress.
#[derive(Debug, Hash)]
pub struct Multiaddr {
    bytes: Vec<u8>,
}

impl View for Multiaddr {
    type V = Seq<u8>;

    closed spec fn view(&self) -> Seq<u8> {
        self.bytes@
    }
}

impl Multiaddr {
    /// The address with this binary form.
    pub fn from_bytes(bytes: Vec<u8>) -> (address: Multiaddr)
        ensures
            address@ == bytes@,
    {
        Multiaddr { bytes }
    }

    /// The binary form of this address.
    pub fn into_bytes(self) -> (bytes: Vec<u8>)
        ensures
            bytes@ == self@,
    {
        self.bytes
    }

    /// Whether this address is another one than `other`.
    pub fn differs(&self, other: &Multiaddr) -> (differs: bool)
        ensures
            differs == (self@ != other@),
    {
        if self.bytes.len() != other.bytes.len() {
            return true;
        }
        let mut i: usize = 0;
        while i < self.bytes.len()
            invariant
                i <= self.bytes@.len() == other.bytes@.len(),
                self.bytes@.take(i as int) =~= other.bytes@.take(i as int),
            decreases self.bytes@.len() - i,
        {
            if self.bytes[i] != other.bytes[i] {
                return true;
            }
            i += 1;
        }
        assert(self.bytes@.take(i as int) =~= self.bytes@);
        assert(other.bytes@.take(i as int) =~= other.bytes@);
        false
    }
}

impl PartialEq for Multiaddr {
    fn eq(&self, other: &Multiaddr) -> (same: bool) {
        !self.differs(other)
    }
}

impl vstd::std_specs::cmp::PartialEqSpecImpl for Multiaddr {
    open spec fn obeys_eq_spec() -> bool {
        true
    }

    open spec fn eq_spec(&self, other: &Multiaddr) -> bool {
        self@ == other@
    }
}

impl Eq for Multiaddr {

}

impl Clone for Multiaddr {
    fn clone(&self) -> (address: Multiaddr)
        ensures
            address@ == self@,
    {
        let bytes: Vec<u8> = self.bytes.clone();
        assert(bytes@ =~= self.bytes@);
        Multiaddr { bytes }
    }
}

/// The binary forms of addresses.
pub open spec fn address_views(addresses: Seq<Multiaddr>) -> Seq<Seq<u8>> {
    addresses.map_values(|address: Multiaddr| address@)
}

/// Picks the binary forms other than `address`.
pub open spec fn other_than(address: Seq<u8>) -> spec_fn(Seq<u8>) -> bool {
    |kept: Seq<u8>| kept != address
}

/// Picks the addresses whose binary form is another one than `address`.
pub open spec fn address_other_than(address: Seq<u8>) -> spec_fn(Multiaddr) -> bool {
    |kept: Multiaddr| kept@ != address
}

/// To pick addresses by their binary form is to pick binary forms.
pub proof fn lemma_filter_views(addresses: Seq<Multiaddr>, address: Seq<u8>)
    ensures
        address_views(addresses.filter(address_other_than(address))) == address_views(
            addresses,
        ).filter(other_than(address)),
    decreases addresses.len(),
{
    reveal(Seq::filter);
    if addresses.len() > 0 {
        lemma_filter_views(addresses.drop_last(), address);
        assert(address_views(addresses).drop_last() =~= address_views(addresses.drop_last()));
    }
    assert(address_views(addresses.filter(address_other_than(address))) =~= address_views(
        addresses,
    ).filter(other_than(address)));
}

/// Identifier of a connection, unique among all connections of the local node.
#[derive(Copy, Clone, Debug, PartialEq, Eq, Hash, Structural)]
pub struct ConnectionId(pub usize);

} // verus!
