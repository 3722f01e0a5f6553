//! Bounded histories of decoded owner checkpoints: which snapshots prove
//! activation, and which checkpoint a rendered combat view refers to.
use vstd::prelude::*;
use std::collections::VecDeque;
use crate::ids::{StateReceipt, CombatViewStamp};

verus! {

/// Decoded owner groups remembered for activation.
pub const DECODED_GROUP_HISTORY: usize = 32;
/// Owner checkpoints remembered for combat views.
pub const COMBAT_REFERENCE_HISTORY: usize = 64;

/// Snapshots of decoded owner groups with their end ticks, by snapshot.
pub struct DecodedGroups {
    groups: Vec<(u64, u64)>,
}

/// Snapshots strictly increase.
pub open spec fn snapshots_sorted(s: Seq<(u64, u64)>) -> bool {
    forall|i: int, j: int| 0 <= i < j < s.len() ==> (#[trigger] s[i]).0 < (#[trigger] s[j]).0
}

/// Where snapshot `k` goes: after every smaller snapshot.
pub open spec fn snapshot_position(s: Seq<(u64, u64)>, k: u64) -> int
    decreases s.len(),
{
    if s.len() == 0 {
        0
    } else if s.last().0 < k {
        s.len() as int
    } else {
        snapshot_position(s.drop_last(), k)
    }
}

/// The groups after decoding `snapshot` through `tick`: an existing entry is
/// replaced, a new one is placed in order, and the oldest snapshot leaves
/// beyond 32 entries.
pub open spec fn record_spec(s: Seq<(u64, u64)>, snapshot: u64, tick: u64) -> Seq<(u64, u64)> {
    let p = snapshot_position(s, snapshot);
    let t = if p < s.len() && s[p].0 == snapshot {
        s.update(p, (snapshot, tick))
    } else {
        s.insert(p, (snapshot, tick))
    };
    if t.len() > DECODED_GROUP_HISTORY {
        t.drop_first()
    } else {
        t
    }
}

/// The end tick recorded for `snapshot`.
pub open spec fn tick_of(s: Seq<(u64, u64)>, snapshot: u64) -> Option<u64> {
    if exists|i: int| 0 <= i < s.len() && s[i].0 == snapshot {
        Some(s[choose|i: int| 0 <= i < s.len() && s[i].0 == snapshot].1)
    } else {
        None
    }
}

/// A session becomes active once the server's activation proof names a
/// decoded owner snapshot that its finalization has reached.
pub open spec fn activation_spec(
    active: bool,
    acknowledged: Option<(u64, u64)>,
    s: Seq<(u64, u64)>,
) -> bool {
    active || match acknowledged {
        Some((snapshot, through)) => match tick_of(s, snapshot) {
            Some(tick) => through >= tick,
            None => false,
        },
        None => false,
    }
}

proof fn lemma_snapshot_position(s: Seq<(u64, u64)>, k: u64)
    requires
        snapshots_sorted(s),
    ensures
        0 <= snapshot_position(s, k) <= s.len(),
        forall|i: int| 0 <= i < snapshot_position(s, k) ==> (#[trigger] s[i]).0 < k,
        forall|i: int| snapshot_position(s, k) <= i < s.len() ==> (#[trigger] s[i]).0 >= k,
    decreases s.len(),
{
    if s.len() > 0 {
        if s.last().0 < k {
        } else {
            let t = s.drop_last();
            lemma_snapshot_position(t, k);
            assert forall|i: int| snapshot_position(s, k) <= i < s.len() implies (#[trigger] s[i]).0 >= k by {
                if i < s.len() - 1 {
                    assert(t[i] == s[i]);
                }
            }
            assert forall|i: int| 0 <= i < snapshot_position(s, k) implies (#[trigger] s[i]).0 < k by {
                assert(t[i] == s[i]);
            }
        }
    }
}

impl DecodedGroups {
    pub closed spec fn view(&self) -> Seq<(u64, u64)> {
        self.groups@
    }

    pub closed spec fn wf(&self) -> bool {
        &&& snapshots_sorted(self.groups@)
        &&& self.groups@.len() <= DECODED_GROUP_HISTORY
    }

    pub fn new() -> (result: DecodedGroups)
        ensures
            result.wf(),
            result.view() == Seq::<(u64, u64)>::empty(),
    {
        DecodedGroups { groups: Vec::new() }
    }

    pub fn len(&self) -> (result: usize)
        ensures
            result == self.view().len(),
    {
        self.groups.len()
    }

    /// Remembers that the owner group of `snapshot` was decoded through `tick`.
    pub fn record(&mut self, snapshot: u64, tick: u64)
        requires
            old(self).wf(),
        ensures
            final(self).wf(),
            final(self).view() == record_spec(old(self).view(), snapshot, tick),
    {
        let ghost s = self.groups@;
        let mut i: usize = 0;
        while i < self.groups.len() && self.groups[i].0 < snapshot
            invariant
                s == self.groups@,
                i <= s.len(),
                forall|j: int| 0 <= j < i ==> (#[trigger] s[j]).0 < snapshot,
            decreases s.len() - i,
        {
            i = i + 1;
        }
        proof {
            lemma_snapshot_position(s, snapshot);
            let p = snapshot_position(s, snapshot);
            if i < p {
                assert(s[i as int].0 < snapshot);
            }
            if p < i {
                assert(s[p].0 < snapshot);
            }
            assert(i == p);
        }
        if i < self.groups.len() && self.groups[i].0 == snapshot {
            self.groups.set(i, (snapshot, tick));
            assert(snapshots_sorted(self.groups@)) by {
                assert forall|a: int, b: int| 0 <= a < b < self.groups@.len() implies (
                #[trigger] self.groups@[a]).0 < (#[trigger] self.groups@[b]).0 by {
                    assert(self.groups@[a].0 == s[a].0);
                    assert(self.groups@[b].0 == s[b].0);
                }
            }
        } else {
            self.groups.insert(i, (snapshot, tick));
            assert(snapshots_sorted(self.groups@)) by {
                let t = self.groups@;
                assert forall|a: int, b: int| 0 <= a < b < t.len() implies (#[trigger] t[a]).0 < (
                #[trigger] t[b]).0 by {
                    if b < i {
                    } else if b == i {
                    } else if a < i {
                        assert(t[b] == s[b - 1]);
                        assert(s[b - 1].0 > snapshot);
                    } else if a == i {
                        assert(t[b] == s[b - 1]);
                        assert(s[b - 1].0 > snapshot);
                    } else {
                        assert(t[a] == s[a - 1]);
                        assert(t[b] == s[b - 1]);
                    }
                }
            }
        }
        let ghost t = self.groups@;
        if self.groups.len() > DECODED_GROUP_HISTORY {
            self.groups.remove(0);
            assert(self.groups@ =~= t.drop_first());
            assert(snapshots_sorted(self.groups@)) by {
                assert forall|a: int, b: int| 0 <= a < b < self.groups@.len() implies (
                #[trigger] self.groups@[a]).0 < (#[trigger] self.groups@[b]).0 by {
                    assert(self.groups@[a] == t[a + 1]);
                    assert(self.groups@[b] == t[b + 1]);
                }
            }
        }
    }

    /// Whether the session is active after considering the server's
    /// activation proof against the decoded groups.
    pub fn activation(&self, active: bool, acknowledged: Option<(u64, u64)>) -> (result: bool)
        requires
            self.wf(),
        ensures
            result == activation_spec(active, acknowledged, self.view()),
            result == (active || (acknowledged matches Some((snapshot, through)) && exists|i: int|
                0 <= i < self.view().len() && (#[trigger] self.view()[i]).0 == snapshot && through
                    >= self.view()[i].1)),
    {
        proof {
            law_activation_needs_finalized_snapshot(active, acknowledged, self.view());
        }
        if active {
            return true;
        }
        match acknowledged {
            None => false,
            Some((snapshot, through)) => {
                let ghost s = self.groups@;
                for i in 0..self.groups.len()
                    invariant
                        s == self.groups@,
                        !active,
                        acknowledged == Some((snapshot, through)),
                        snapshots_sorted(s),
                        forall|j: int| 0 <= j < i ==> s[j].0 != snapshot,
                {
                    if self.groups[i].0 == snapshot {
                        proof {
                            let w = choose|w: int| 0 <= w < s.len() && s[w].0 == snapshot;
                            if w < i {
                            } else if w > i {
                                assert(s[i as int].0 < s[w].0);
                            }
                            assert(w == i);
                            assert(tick_of(s, snapshot) == Some(s[i as int].1));
                            assert(!active);
                            assert(acknowledged == Some((snapshot, through)));
                            assert(activation_spec(active, acknowledged, s) == (through >= s[i as int].1));
                        }
                        return through >= self.groups[i].1;
                    }
                }
                false
            },
        }
    }
}

/// An inactive session becomes active only when finalization has reached
/// the end tick recorded for the snapshot the activation proof names: with
/// snapshots kept in order, activation holds exactly when the session was
/// active or some decoded group of that snapshot ends at or before the
/// acknowledged finalization.
pub proof fn law_activation_needs_finalized_snapshot(
    active: bool,
    acknowledged: Option<(u64, u64)>,
    s: Seq<(u64, u64)>,
)
    requires
        snapshots_sorted(s),
    ensures
        activation_spec(active, acknowledged, s) == (active || (acknowledged matches Some(
            (snapshot, through),
        ) && exists|i: int| 0 <= i < s.len() && (#[trigger] s[i]).0 == snapshot && through >= s[i].1)),
{
    if let Some((snapshot, through)) = acknowledged {
        if exists|i: int| 0 <= i < s.len() && (#[trigger] s[i]).0 == snapshot {
            let w = choose|i: int| 0 <= i < s.len() && s[i].0 == snapshot;
            assert forall|i: int| 0 <= i < s.len() && (#[trigger] s[i]).0 == snapshot implies i == w by {
                if i < w {
                    assert(s[i].0 < s[w].0);
                } else if i > w {
                    assert(s[w].0 < s[i].0);
                }
            }
            assert(tick_of(s, snapshot) == Some(s[w].1));
        }
    }
}

/// Owner checkpoint receipts with their end ticks, oldest first.
pub struct CombatReferences {
    references: VecDeque<(StateReceipt, u64)>,
}

/// The newest checkpoint at or before the viewed tick.
pub open spec fn reference_spec(s: Seq<(StateReceipt, u64)>, viewed_at: u64) -> Option<StateReceipt>
    decreases s.len(),
{
    if s.len() == 0 {
        None
    } else if s.last().1 <= viewed_at {
        Some(s.last().0)
    } else {
        reference_spec(s.drop_last(), viewed_at)
    }
}

/// The history after one more checkpoint, keeping the newest 64.
pub open spec fn push_spec(s: Seq<(StateReceipt, u64)>, receipt: StateReceipt, tick: u64) -> Seq<
    (StateReceipt, u64),
> {
    let t = s.push((receipt, tick));
    if t.len() > COMBAT_REFERENCE_HISTORY {
        t.drop_first()
    } else {
        t
    }
}

/// The combat view stamp `capture_view` produces.
pub open spec fn capture_spec(
    s: Seq<(StateReceipt, u64)>,
    active: bool,
    recovering: bool,
    sampled: Option<(u64, u16)>,
    viewed: Option<(u64, u16)>,
) -> Option<CombatViewStamp> {
    if !active || recovering {
        None
    } else {
        match (sampled, viewed) {
            (Some((sampled_at, sampled_fraction)), Some((viewed_at, viewed_fraction))) => if viewed_at
                > sampled_at || (viewed_at == sampled_at && viewed_fraction > sampled_fraction) {
                None
            } else {
                match reference_spec(s, viewed_at) {
                    Some(reference) => Some(
                        CombatViewStamp {
                            sampled_at,
                            sampled_fraction,
                            viewed_at,
                            viewed_fraction,
                            reference,
                        },
                    ),
                    None => None,
                }
            },
            _ => None,
        }
    }
}

impl CombatReferences {
    pub closed spec fn view(&self) -> Seq<(StateReceipt, u64)> {
        self.references@
    }

    pub closed spec fn wf(&self) -> bool {
        self.references@.len() <= COMBAT_REFERENCE_HISTORY
    }

    pub fn new() -> (result: CombatReferences)
        ensures
            result.wf(),
            result.view() == Seq::<(StateReceipt, u64)>::empty(),
    {
        CombatReferences { references: VecDeque::new() }
    }

    /// Remembers a newly decoded owner checkpoint.
    pub fn push(&mut self, receipt: StateReceipt, tick: u64)
        requires
            old(self).wf(),
        ensures
            final(self).wf(),
            final(self).view() == push_spec(old(self).view(), receipt, tick),
    {
        self.references.push_back((receipt, tick));
        let ghost t = self.references@;
        if self.references.len() > COMBAT_REFERENCE_HISTORY {
            let _ = self.references.pop_front();
            assert(self.references@ =~= t.drop_first());
        }
    }

    /// The stamp of a combat action aimed at what is rendered now: the
    /// simulation tick and phase the action is sampled at, the tick and phase
    /// of the rendered combat view, and the owner checkpoint that view shows.
    /// Nothing is stamped while the session is not active or recovering,
    /// when either time is unknown, when the view is ahead of the sample, or
    /// when no kept checkpoint is old enough.
    pub fn capture_view(
        &self,
        active: bool,
        recovering: bool,
        sampled: Option<(u64, u16)>,
        viewed: Option<(u64, u16)>,
    ) -> (result: Option<CombatViewStamp>)
        ensures
            result == capture_spec(self.view(), active, recovering, sampled, viewed),
    {
        if !active || recovering {
            return None;
        }
        let (sampled_at, sampled_fraction) = match sampled {
            Some(p) => p,
            None => return None,
        };
        let (viewed_at, viewed_fraction) = match viewed {
            Some(p) => p,
            None => return None,
        };
        if viewed_at > sampled_at || (viewed_at == sampled_at && viewed_fraction > sampled_fraction) {
            return None;
        }
        match self.reference_for_view(viewed_at) {
            Some(reference) => Some(
                CombatViewStamp {
                    sampled_at,
                    sampled_fraction,
                    viewed_at,
                    viewed_fraction,
                    reference,
                },
            ),
            None => None,
        }
    }

    /// The checkpoint a combat view rendered at `viewed_at` refers to.
    pub fn reference_for_view(&self, viewed_at: u64) -> (result: Option<StateReceipt>)
        ensures
            result == reference_spec(self.view(), viewed_at),
    {
        let ghost s = self.references@;
        let mut i = self.references.len();
        assert(s.take(i as int) =~= s);
        while i > 0
            invariant
                s == self.references@,
                i <= s.len(),
                reference_spec(s, viewed_at) == reference_spec(s.take(i as int), viewed_at),
            decreases i,
        {
            let (receipt, tick) = self.references[i - 1];
            let ghost t = s.take(i as int);
            assert(t.last() == s[i - 1]);
            if tick <= viewed_at {
                return Some(receipt);
            }
            assert(t.drop_last() =~= s.take(i - 1));
            i = i - 1;
        }
        None
    }
}

// ---------------------------------------------------------------- laws

/// A newer checkpoint cannot move the reference of a view frozen before it:
/// while fewer than 64 checkpoints are kept, adding one after the viewed
/// tick leaves that view's reference unchanged.
pub proof fn law_new_checkpoint_keeps_frozen_reference(
    s: Seq<(StateReceipt, u64)>,
    receipt: StateReceipt,
    tick: u64,
    viewed_at: u64,
)
    requires
        s.len() < COMBAT_REFERENCE_HISTORY,
        tick > viewed_at,
    ensures
        reference_spec(push_spec(s, receipt, tick), viewed_at) == reference_spec(s, viewed_at),
{
    let t = s.push((receipt, tick));
    assert(t.drop_last() =~= s);
}

/// Activation is never revoked by later bookkeeping: an active session stays
/// active whatever the groups hold.
pub proof fn law_activation_is_sticky(acknowledged: Option<(u64, u64)>, s: Seq<(u64, u64)>)
    ensures
        activation_spec(true, acknowledged, s),
{
}

/// The reference a view names is a kept checkpoint at or before the view.
pub proof fn lemma_reference_is_at_or_before(s: Seq<(StateReceipt, u64)>, viewed_at: u64)
    ensures
        reference_spec(s, viewed_at) matches Some(r) ==> exists|i: int|
            0 <= i < s.len() && (#[trigger] s[i]).0 == r && s[i].1 <= viewed_at,
    decreases s.len(),
{
    if s.len() > 0 && s.last().1 > viewed_at {
        let t = s.drop_last();
        lemma_reference_is_at_or_before(t, viewed_at);
        if reference_spec(t, viewed_at) is Some {
            let r = reference_spec(t, viewed_at)->0;
            let i = choose|i: int| 0 <= i < t.len() && (#[trigger] t[i]).0 == r && t[i].1 <= viewed_at;
            assert(s[i] == t[i]);
        }
    } else if s.len() > 0 {
        assert(s[s.len() - 1] == s.last());
    }
}

/// A stamped combat action never looks ahead of its own sample, and its
/// reference checkpoint ends no later than the view.
pub proof fn law_combat_view_never_leads_sample(
    s: Seq<(StateReceipt, u64)>,
    active: bool,
    recovering: bool,
    sampled: Option<(u64, u16)>,
    viewed: Option<(u64, u16)>,
)
    ensures
        capture_spec(s, active, recovering, sampled, viewed) matches Some(stamp) ==> {
            &&& active && !recovering
            &&& stamp.viewed_at < stamp.sampled_at || (stamp.viewed_at == stamp.sampled_at
                && stamp.viewed_fraction <= stamp.sampled_fraction)
            &&& exists|i: int|
                0 <= i < s.len() && (#[trigger] s[i]).0 == stamp.reference && s[i].1
                    <= stamp.viewed_at
        },
{
    if let (Some((_, _)), Some((viewed_at, _))) = (sampled, viewed) {
        lemma_reference_is_at_or_before(s, viewed_at);
    }
}

} // verus!
