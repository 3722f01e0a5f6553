//! Plain-value identities shared by the client's bookkeeping.
use vstd::prelude::*;

verus! {

/// An action identity: the connection epoch and command stream of the owner,
/// the command sequence and the action slot inside that command.
#[derive(Clone, Copy, Debug, PartialEq, Eq, Structural)]
pub struct ActionKey {
    pub connection: u64,
    pub stream: u64,
    pub command: u64,
    pub slot: u8,
}

/// Lexicographic order on (connection, stream, command, slot), the order in
/// which action records are kept and walked.
pub open spec fn key_lt(a: ActionKey, b: ActionKey) -> bool {
    ||| a.connection < b.connection
    ||| a.connection == b.connection && a.stream < b.stream
    ||| a.connection == b.connection && a.stream == b.stream && a.command < b.command
    ||| a.connection == b.connection && a.stream == b.stream && a.command == b.command
        && a.slot < b.slot
}

/// Executable form of `key_lt`.
pub fn key_less(a: &ActionKey, b: &ActionKey) -> (result: bool)
    ensures
        result == key_lt(*a, *b),
{
    if a.connection != b.connection {
        a.connection < b.connection
    } else if a.stream != b.stream {
        a.stream < b.stream
    } else if a.command != b.command {
        a.command < b.command
    } else {
        a.slot < b.slot
    }
}

/// `key_lt` is a strict total order.
pub proof fn lemma_key_order(a: ActionKey, b: ActionKey, c: ActionKey)
    ensures
        !key_lt(a, a),
        key_lt(a, b) ==> !key_lt(b, a),
        key_lt(a, b) && key_lt(b, c) ==> key_lt(a, c),
        a == b || key_lt(a, b) || key_lt(b, a),
{
}

/// A replicated entity: slot index and its reuse generation.
#[derive(Clone, Copy, Debug, PartialEq, Eq, Structural)]
pub struct EntityId {
    pub index: u64,
    pub generation: u32,
}

/// One scoped incarnation of an entity on one connection.
#[derive(Clone, Copy, Debug, PartialEq, Eq, Structural)]
pub struct ScopeIdentity {
    pub connection: u64,
    pub entity: EntityId,
    pub scope: u64,
    pub representation: u64,
}

/// Proof that one public state was decoded.
#[derive(Clone, Copy, Debug, PartialEq, Eq, Structural)]
pub struct StateReceipt {
    pub scope: ScopeIdentity,
    pub baseline_generation: u64,
    pub snapshot: u64,
    pub version: u64,
}

/// The rendered combat time an action was aimed at, with its owner checkpoint.
#[derive(Clone, Copy, Debug, PartialEq, Eq, Structural)]
pub struct CombatViewStamp {
    pub sampled_at: u64,
    pub sampled_fraction: u16,
    pub viewed_at: u64,
    pub viewed_fraction: u16,
    pub reference: StateReceipt,
}

/// A prediction group and one revision of its membership.
#[derive(Clone, Copy, Debug, PartialEq, Eq, Structural)]
pub struct GroupRevision {
    pub group: u64,
    pub revision: u64,
}

/// `a - b`, or zero when `b` exceeds `a`.
pub open spec fn sat_sub(a: u64, b: u64) -> u64 {
    if a >= b {
        (a - b) as u64
    } else {
        0
    }
}

} // verus!
