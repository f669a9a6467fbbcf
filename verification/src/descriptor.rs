use crate::errors::RdmaError;
use crate::gid::Gid;
use vstd::bytes::*;
use vstd::prelude::*;
use vstd::slice::slice_subrange;

verus! {

broadcast use vstd::array::group_array_axioms;

/// Size in bytes of an encoded connection descriptor:
/// eight for the buffer address, four for the remote key, four for the
/// queue-pair number, two for the local identifier, sixteen for the GID.
pub const DESCRIPTOR_LEN: usize = 34;

/// Everything one peer must know about the other before either may issue an
/// RDMA operation: where the remote buffer lives, the token that authorizes
/// access to it, and the remote queue pair's addressing.
#[derive(Clone, Copy, Debug, PartialEq, Eq)]
pub struct ConnectionDescriptor {
    /// Address of the peer's shared buffer.
    pub addr: u64,
    /// Token authorizing remote access to that buffer.
    pub rkey: u32,
    /// Queue-pair number of the peer.
    pub qp_num: u32,
    /// Local identifier of the peer's adapter port.
    pub lid: u16,
    /// Global identifier of the peer's adapter port.
    pub gid: Gid,
}

/// Wire form of a descriptor: each integer little-endian, fields in
/// declaration order, the GID as its raw bytes. Both peers must use this
/// same layout; it does not depend on the machine's byte order.
pub open spec fn spec_encode_descriptor(d: ConnectionDescriptor) -> Seq<u8> {
    spec_u64_to_le_bytes(d.addr) + spec_u32_to_le_bytes(d.rkey) + spec_u32_to_le_bytes(d.qp_num)
        + spec_u16_to_le_bytes(d.lid) + d.gid.raw@
}

pub proof fn lemma_encode_descriptor_len(d: ConnectionDescriptor)
    ensures
        spec_encode_descriptor(d).len() == DESCRIPTOR_LEN,
{
    lemma_auto_spec_u64_to_from_le_bytes();
    lemma_auto_spec_u32_to_from_le_bytes();
    lemma_auto_spec_u16_to_from_le_bytes();
}

/// Two descriptors with the same wire form are the same descriptor.
pub proof fn lemma_encode_descriptor_injective(d1: ConnectionDescriptor, d2: ConnectionDescriptor)
    requires
        spec_encode_descriptor(d1) == spec_encode_descriptor(d2),
    ensures
        d1 == d2,
{
    lemma_auto_spec_u64_to_from_le_bytes();
    lemma_auto_spec_u32_to_from_le_bytes();
    lemma_auto_spec_u16_to_from_le_bytes();
    let s1 = spec_encode_descriptor(d1);
    let s2 = spec_encode_descriptor(d2);
    assert(s1.subrange(0, 8) =~= spec_u64_to_le_bytes(d1.addr));
    assert(s2.subrange(0, 8) =~= spec_u64_to_le_bytes(d2.addr));
    assert(s1.subrange(8, 12) =~= spec_u32_to_le_bytes(d1.rkey));
    assert(s2.subrange(8, 12) =~= spec_u32_to_le_bytes(d2.rkey));
    assert(s1.subrange(12, 16) =~= spec_u32_to_le_bytes(d1.qp_num));
    assert(s2.subrange(12, 16) =~= spec_u32_to_le_bytes(d2.qp_num));
    assert(s1.subrange(16, 18) =~= spec_u16_to_le_bytes(d1.lid));
    assert(s2.subrange(16, 18) =~= spec_u16_to_le_bytes(d2.lid));
    assert(s1.subrange(18, 34) =~= d1.gid.raw@);
    assert(s2.subrange(18, 34) =~= d2.gid.raw@);
    assert(d1.addr == d2.addr);
    assert(d1.rkey == d2.rkey);
    assert(d1.qp_num == d2.qp_num);
    assert(d1.lid == d2.lid);
    assert(d1.gid.raw =~= d2.gid.raw);
}

/// Serialize a descriptor for the bootstrap side channel.
pub fn encode_descriptor(d: &ConnectionDescriptor) -> (r: Vec<u8>)
    ensures
        r@ == spec_encode_descriptor(*d),
        r@.len() == DESCRIPTOR_LEN,
{
    let mut out = u64_to_le_bytes(d.addr);
    let mut rkey_bytes = u32_to_le_bytes(d.rkey);
    let mut qpn_bytes = u32_to_le_bytes(d.qp_num);
    let mut lid_bytes = u16_to_le_bytes(d.lid);
    out.append(&mut rkey_bytes);
    out.append(&mut qpn_bytes);
    out.append(&mut lid_bytes);
    let mut i: usize = 0;
    while i < 16
        invariant
            i <= 16,
            out@ == spec_u64_to_le_bytes(d.addr) + spec_u32_to_le_bytes(d.rkey)
                + spec_u32_to_le_bytes(d.qp_num) + spec_u16_to_le_bytes(d.lid) + d.gid.raw@.take(
                i as int,
            ),
        decreases 16 - i,
    {
        out.push(d.gid.raw[i]);
        proof {
            assert(d.gid.raw@.take(i + 1) =~= d.gid.raw@.take(i as int).push(d.gid.raw@[i as int]));
        }
        i = i + 1;
    }
    proof {
        assert(d.gid.raw@.take(16) =~= d.gid.raw@);
        lemma_encode_descriptor_len(*d);
    }
    out
}

/// Parse a descriptor received from the peer. Exactly the sequences produced
/// by [`spec_encode_descriptor`] are accepted, and the input must be exactly
/// one descriptor long; anything else is a `BootstrapIoError`.
pub fn decode_descriptor(bytes: &[u8]) -> (r: Result<ConnectionDescriptor, RdmaError>)
    ensures
        r is Ok <==> bytes@.len() == DESCRIPTOR_LEN,
        r matches Ok(d) ==> spec_encode_descriptor(d) == bytes@,
        r matches Err(e) ==> e == RdmaError::BootstrapIoError,
{
    if bytes.len() != DESCRIPTOR_LEN {
        return Err(RdmaError::BootstrapIoError);
    }
    proof {
        lemma_auto_spec_u64_to_from_le_bytes();
        lemma_auto_spec_u32_to_from_le_bytes();
        lemma_auto_spec_u16_to_from_le_bytes();
    }
    let addr = u64_from_le_bytes(slice_subrange(bytes, 0, 8));
    let rkey = u32_from_le_bytes(slice_subrange(bytes, 8, 12));
    let qp_num = u32_from_le_bytes(slice_subrange(bytes, 12, 16));
    let lid = u16_from_le_bytes(slice_subrange(bytes, 16, 18));
    let g = slice_subrange(bytes, 18, 34);
    let raw: [u8; 16] = [g[0], g[1], g[2], g[3], g[4], g[5], g[6], g[7], g[8], g[9], g[10], g[11],
        g[12], g[13], g[14], g[15]];
    let d = ConnectionDescriptor { addr, rkey, qp_num, lid, gid: Gid { raw } };
    proof {
        assert(raw@ =~= bytes@.subrange(18, 34));
        assert(spec_encode_descriptor(d) =~= bytes@);
    }
    Ok(d)
}

/// Bootstrap round trip: when two peers each write their own descriptor and
/// then read the other's, the descriptor each one records is exactly the
/// descriptor the other computed locally, because decoding accepts exactly
/// one wire form per descriptor.
pub proof fn lemma_bootstrap_round_trip(
    mine: ConnectionDescriptor,
    theirs: ConnectionDescriptor,
    recorded_here: ConnectionDescriptor,
    recorded_there: ConnectionDescriptor,
)
    requires
        spec_encode_descriptor(recorded_here) == spec_encode_descriptor(theirs),
        spec_encode_descriptor(recorded_there) == spec_encode_descriptor(mine),
    ensures
        recorded_here == theirs,
        recorded_there == mine,
{
    lemma_encode_descriptor_injective(recorded_here, theirs);
    lemma_encode_descriptor_injective(recorded_there, mine);
}

} // verus!
