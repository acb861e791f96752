use vstd::prelude::*;

verus! {

/// The ordering key of an operation: a logical timestamp and the node that
/// issued the operation. Keys are ranked lexicographically, timestamp first,
/// so that any two distinct keys are ordered the same way on every replica.
#[derive(Clone, Copy, Debug, PartialEq, Eq, Structural)]
pub struct TieBreakKey {
    pub timestamp: u64,
    pub node_id: u128,
}

/// `a` ranks strictly below `b`.
pub open spec fn key_lt(a: TieBreakKey, b: TieBreakKey) -> bool {
    a.timestamp < b.timestamp || (a.timestamp == b.timestamp && a.node_id < b.node_id)
}

/// The order on keys is total: two keys that differ are ranked one way.
pub proof fn lemma_key_total(a: TieBreakKey, b: TieBreakKey)
    ensures
        a == b || key_lt(a, b) || key_lt(b, a),
        !(key_lt(a, b) && key_lt(b, a)),
        !key_lt(a, a),
{
}

impl TieBreakKey {
    pub fn new(timestamp: u64, node_id: u128) -> (r: TieBreakKey)
        ensures
            r.timestamp == timestamp,
            r.node_id == node_id,
    {
        TieBreakKey { timestamp, node_id }
    }

    /// Whether `self` ranks strictly below `other`.
    pub fn precedes(&self, other: &TieBreakKey) -> (r: bool)
        ensures
            r == key_lt(*self, *other),
    {
        self.timestamp < other.timestamp || (self.timestamp == other.timestamp && self.node_id
            < other.node_id)
    }
}

} // verus!
