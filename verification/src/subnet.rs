//! The subnet allocator.
//!
//! Each namespace instance gets one /24 block out of the reserved parent
//! range 10.200.0.0/16, identified by its third octet.  Allocation is
//! advisory: the allocator inspects the currently assigned veth addresses
//! and always answers with the lowest free index, so two racing instances
//! that re-query before committing pick deterministically.

use vstd::prelude::*;

use crate::error::VoponoError;
use crate::net::Ipv4Net;

verus! {

/// The candidate network for third octet `t`: 10.200.t.1/24.
pub open spec fn target_net(t: int) -> Ipv4Net {
    Ipv4Net { a: 10, b: 200, c: t as u8, d: 1, prefix: 24 }
}

/// Whether the block with third octet `t` is already taken: some assigned
/// address is exactly 10.200.t.1/24.
pub open spec fn occupied(assigned: Seq<Ipv4Net>, t: int) -> bool {
    assigned.contains(target_net(t))
}

/// Whether some element of `v` equals `x`.
fn contains_net(v: &Vec<Ipv4Net>, x: Ipv4Net) -> (b: bool)
    ensures
        b == v@.contains(x),
{
    let mut i: usize = 0;
    while i < v.len()
        invariant
            i <= v@.len(),
            forall|k: int| 0 <= k < i ==> v@[k] != x,
        decreases v@.len() - i,
    {
        if v[i] == x {
            return true;
        }
        i = i + 1;
    }
    false
}

/// Picks the subnet block for a new namespace: the lowest third octet in
/// 1..=254 whose block 10.200.t.1/24 is not among the assigned addresses.
/// Fails with `NoFreeSubnet` exactly when every candidate is occupied.
pub fn get_target_subnet(assigned: &Vec<Ipv4Net>) -> (r: Result<u8, VoponoError>)
    ensures
        r matches Ok(t) ==> 1 <= t <= 254 && !occupied(assigned@, t as int) && (forall|j: int|
            1 <= j < t ==> occupied(assigned@, j)),
        (r is Err) == (forall|j: int| 1 <= j <= 254 ==> occupied(assigned@, j)),
        r is Err ==> r == Err::<u8, VoponoError>(VoponoError::NoFreeSubnet),
{
    let mut t: u8 = 1;
    while t <= 254
        invariant
            1 <= t <= 255,
            forall|j: int| 1 <= j < t ==> occupied(assigned@, j),
        decreases 255 - t,
    {
        let candidate = Ipv4Net { a: 10, b: 200, c: t, d: 1, prefix: 24 };
        if !contains_net(assigned, candidate) {
            proof {
                assert(candidate == target_net(t as int));
                assert(!occupied(assigned@, t as int));
            }
            return Ok(t);
        }
        t = t + 1;
    }
    Err(VoponoError::NoFreeSubnet)
}

} // verus!
