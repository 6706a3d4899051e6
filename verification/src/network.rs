//! Names for the things two nodes talk about: networks, blocks and places in
//! a chain.

use vstd::prelude::*;

verus! {

/// Which network a node is on, by the marker it puts in front of every frame.
#[derive(Clone, Copy, Debug, PartialEq, Eq, Structural)]
pub struct NetworkId {
    pub marker: u32,
}

impl NetworkId {
    pub fn new(marker: u32) -> (network: NetworkId)
        ensures
            network == (NetworkId { marker }),
    {
        NetworkId { marker }
    }

    pub fn as_u32(self) -> (marker: u32)
        ensures
            marker == self.marker,
    {
        self.marker
    }
}

/// The networks this program knows by name.
#[derive(Clone, Copy, Debug, PartialEq, Eq, Structural)]
pub enum NetworkName {
    /// The public test network.
    Testnet6,
    /// One machine talking to itself.
    Devnet,
    /// Any network this program has no name for.
    Unnamed,
}

/// A thirty two byte identifier, as two numbers.
#[derive(Clone, Copy, Debug, PartialEq, Eq, Structural)]
pub struct Hash32 {
    pub high: u128,
    pub low: u128,
}

impl Hash32 {
    /// The identifier that stands for nothing.
    pub open spec fn spec_zero() -> Hash32 {
        Hash32 { high: 0, low: 0 }
    }

    #[verifier::when_used_as_spec(spec_zero)]
    pub fn zero() -> (id: Hash32)
        ensures
            id == Hash32::spec_zero(),
    {
        Hash32 { high: 0, low: 0 }
    }
}

/// A block, and where it sits.
#[derive(Clone, Copy, Debug, PartialEq, Eq, Structural)]
pub struct Located {
    pub height: u64,
    pub id: Hash32,
}

impl Located {
    pub fn new(height: u64, id: Hash32) -> (located: Located)
        ensures
            located == (Located { height, id }),
    {
        Located { height, id }
    }
}

/// A network is known by its marker, a place by its height and id, and the id
/// of nothing is zero.
pub proof fn names_are_kept_as_given(
    marker: u32,
    network: NetworkId,
    said: u32,
    height: u64,
    id: Hash32,
    located: Located,
    zero: Hash32,
)
    requires
        call_ensures(NetworkId::new, (marker,), network),
        call_ensures(NetworkId::as_u32, (network,), said),
        call_ensures(Located::new, (height, id), located),
        call_ensures(Hash32::zero, (), zero),
    ensures
        said == marker,
        located.height == height && located.id == id,
        zero.high == 0 && zero.low == 0,
{
}

} // verus!
