use crate::math::IVec3;
use vstd::prelude::*;

verus! {

/// One more than the largest key: keys take 96 bits.
pub open spec fn key_limit() -> int {
    0x1_0000_0000_0000_0000_0000_0000
}

/// The key of a lattice point: its coordinates, each moved into the
/// unsigned range, side by side in 96 bits, x highest.
pub open spec fn spec_chunk_key(p: IVec3) -> u128 {
    ((p.x + 0x8000_0000) * 0x1_0000_0000_0000_0000 + (p.y + 0x8000_0000) * 0x1_0000_0000 + (p.z
        + 0x8000_0000)) as u128
}

/// The lattice point with key `k`.
pub open spec fn spec_key_chunk(k: u128) -> IVec3 {
    IVec3 {
        x: (k as int / 0x1_0000_0000_0000_0000 - 0x8000_0000) as i32,
        y: ((k as int / 0x1_0000_0000) % 0x1_0000_0000 - 0x8000_0000) as i32,
        z: (k as int % 0x1_0000_0000 - 0x8000_0000) as i32,
    }
}

/// Every point has a key below the limit, and the key names the point.
pub proof fn lemma_key_of_chunk(p: IVec3)
    ensures
        spec_chunk_key(p) < key_limit(),
        spec_key_chunk(spec_chunk_key(p)) == p,
{
    let k = (p.x + 0x8000_0000) * 0x1_0000_0000_0000_0000 + (p.y + 0x8000_0000) * 0x1_0000_0000 + (
    p.z + 0x8000_0000);
    assert(0 <= k < key_limit());
    assert(spec_chunk_key(p) == k);
    let q = spec_key_chunk(spec_chunk_key(p));
    assert(k / 0x1_0000_0000_0000_0000 == p.x + 0x8000_0000);
    assert(k % 0x1_0000_0000 == p.z + 0x8000_0000);
    assert((k / 0x1_0000_0000) % 0x1_0000_0000 == p.y + 0x8000_0000);
}

/// Every key below the limit is the key of the point it names.
pub proof fn lemma_chunk_of_key(k: u128)
    requires
        k < key_limit(),
    ensures
        spec_chunk_key(spec_key_chunk(k)) == k,
{
    let p = spec_key_chunk(k);
    let ki = k as int;
    assert(p.x == ki / 0x1_0000_0000_0000_0000 - 0x8000_0000);
    assert(p.y == (ki / 0x1_0000_0000) % 0x1_0000_0000 - 0x8000_0000);
    assert(p.z == ki % 0x1_0000_0000 - 0x8000_0000);
}

/// Distinct points have distinct keys.
pub proof fn lemma_key_injective(p: IVec3, q: IVec3)
    requires
        spec_chunk_key(p) == spec_chunk_key(q),
    ensures
        p == q,
{
    lemma_key_of_chunk(p);
    lemma_key_of_chunk(q);
}

/// The key of a lattice point.
pub fn chunk_key(p: IVec3) -> (k: u128)
    ensures
        k == spec_chunk_key(p),
        k < key_limit(),
{
    proof {
        lemma_key_of_chunk(p);
    }
    let x: u128 = (p.x as i64 + 0x8000_0000) as u128;
    let y: u128 = (p.y as i64 + 0x8000_0000) as u128;
    let z: u128 = (p.z as i64 + 0x8000_0000) as u128;
    x * 0x1_0000_0000_0000_0000 + y * 0x1_0000_0000 + z
}

/// The lattice point with key `k`.
pub fn key_chunk(k: u128) -> (p: IVec3)
    requires
        k < key_limit(),
    ensures
        p == spec_key_chunk(k),
        spec_chunk_key(p) == k,
{
    proof {
        lemma_chunk_of_key(k);
    }
    let x: i64 = (k / 0x1_0000_0000_0000_0000) as i64 - 0x8000_0000;
    let y: i64 = ((k / 0x1_0000_0000) % 0x1_0000_0000) as i64 - 0x8000_0000;
    let z: i64 = (k % 0x1_0000_0000) as i64 - 0x8000_0000;
    IVec3 { x: x as i32, y: y as i32, z: z as i32 }
}

} // verus!
