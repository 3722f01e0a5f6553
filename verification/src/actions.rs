//! Hardware action edges keep their order across simulation ticks; charge
//! releases and cancels are bound to the episode their press started.
use vstd::prelude::*;
use std::collections::VecDeque;

verus! {

/// At most this many edges wait for later commands.
pub const ACTION_BACKLOG: usize = 32;

/// One hardware action edge. A release or cancel with episode zero refers to
/// the charge the last press started. `Other` stands for any action that
/// needs no episode, by the caller's index.
#[derive(Clone, Copy, Debug, PartialEq, Eq, Structural)]
pub enum EdgeAction {
    ChargeBegin,
    ChargeRelease { episode: u64 },
    ChargeCancel { episode: u64 },
    Other(u64),
}

/// Too many edges are waiting.
#[derive(Clone, Copy, Debug, PartialEq, Eq, Structural)]
pub enum BacklogError {
    Capacity,
}

impl BacklogError {
    pub fn message(&self) -> (result: &'static str)
        ensures
            result@ == match *self {
                BacklogError::Capacity => "Pending action capacity"@,
            },
    {
        "Pending action capacity"
    }
}

/// Edges waiting for a command and the open charge episode.
pub struct ActionQueue {
    backlog: VecDeque<EdgeAction>,
    charge_episode: Option<u64>,
}

/// The mathematical value of the queue.
pub struct QueueView {
    pub backlog: Seq<EdgeAction>,
    pub charge_episode: Option<u64>,
}

impl View for ActionQueue {
    type V = QueueView;

    closed spec fn view(&self) -> QueueView {
        QueueView { backlog: self.backlog@, charge_episode: self.charge_episode }
    }
}

/// The action one edge becomes in the command with `sequence`, and the open
/// charge episode afterwards. A release or cancel without an open episode
/// is dropped.
pub open spec fn resolve_spec(charge: Option<u64>, edge: EdgeAction, sequence: u64) -> (
    Option<EdgeAction>,
    Option<u64>,
) {
    match edge {
        EdgeAction::ChargeBegin => (Some(EdgeAction::ChargeBegin), Some(sequence)),
        EdgeAction::ChargeRelease { episode } => if episode == 0 {
            match charge {
                Some(e) => (Some(EdgeAction::ChargeRelease { episode: e }), None),
                None => (None, None),
            }
        } else {
            (Some(edge), charge)
        },
        EdgeAction::ChargeCancel { episode } => if episode == 0 {
            match charge {
                Some(e) => (Some(EdgeAction::ChargeCancel { episode: e }), None),
                None => (None, None),
            }
        } else {
            (Some(edge), charge)
        },
        EdgeAction::Other(_) => (Some(edge), charge),
    }
}

impl ActionQueue {
    pub closed spec fn wf(&self) -> bool {
        self.backlog@.len() <= ACTION_BACKLOG
    }

    /// No waiting edge and no open charge.
    pub fn new() -> (result: ActionQueue)
        ensures
            result.wf(),
            result@.backlog == Seq::<EdgeAction>::empty(),
            result@.charge_episode is None,
    {
        ActionQueue { backlog: VecDeque::new(), charge_episode: None }
    }

    pub fn charge_episode(&self) -> (result: Option<u64>)
        ensures
            result == self@.charge_episode,
    {
        self.charge_episode
    }

    /// Queues this sample's edges behind the waiting ones and takes the
    /// oldest for the command with `sequence`.
    pub fn next_action(&mut self, edges: &Vec<EdgeAction>, sequence: u64) -> (result: Result<
        Option<EdgeAction>,
        BacklogError,
    >)
        requires
            old(self).wf(),
        ensures
            final(self).wf(),
            old(self)@.backlog.len() + edges@.len() > ACTION_BACKLOG ==> {
                &&& result == Err::<Option<EdgeAction>, BacklogError>(BacklogError::Capacity)
                &&& final(self)@ == old(self)@
            },
            old(self)@.backlog.len() + edges@.len() <= ACTION_BACKLOG ==> {
                let all = old(self)@.backlog + edges@;
                if all.len() == 0 {
                    &&& result == Ok::<Option<EdgeAction>, BacklogError>(None)
                    &&& final(self)@ == old(self)@
                } else {
                    let (action, charge) = resolve_spec(old(self)@.charge_episode, all[0], sequence);
                    &&& result == Ok::<Option<EdgeAction>, BacklogError>(action)
                    &&& final(self)@.backlog == all.drop_first()
                    &&& final(self)@.charge_episode == charge
                }
            },
    {
        if edges.len() > ACTION_BACKLOG - self.backlog.len() {
            return Err(BacklogError::Capacity);
        }
        let ghost all = self.backlog@ + edges@;
        let ghost start = self.backlog@;
        for i in 0..edges.len()
            invariant
                self.backlog@ == start + edges@.take(i as int),
                start.len() + edges@.len() <= ACTION_BACKLOG,
                self.charge_episode == old(self)@.charge_episode,
                start == old(self)@.backlog,
        {
            self.backlog.push_back(edges[i]);
            assert(edges@.take(i + 1) =~= edges@.take(i as int).push(edges@[i as int]));
            assert(self.backlog@ =~= start + edges@.take(i + 1));
        }
        assert(edges@.take(edges@.len() as int) =~= edges@);
        let edge = match self.backlog.pop_front() {
            None => return Ok(None),
            Some(edge) => edge,
        };
        assert(self.backlog@ =~= all.drop_first());
        let action = match edge {
            EdgeAction::ChargeBegin => {
                self.charge_episode = Some(sequence);
                Some(EdgeAction::ChargeBegin)
            },
            EdgeAction::ChargeRelease { episode } => if episode == 0 {
                match self.charge_episode {
                    Some(e) => {
                        self.charge_episode = None;
                        Some(EdgeAction::ChargeRelease { episode: e })
                    },
                    None => None,
                }
            } else {
                Some(edge)
            },
            EdgeAction::ChargeCancel { episode } => if episode == 0 {
                match self.charge_episode {
                    Some(e) => {
                        self.charge_episode = None;
                        Some(EdgeAction::ChargeCancel { episode: e })
                    },
                    None => None,
                }
            } else {
                Some(edge)
            },
            EdgeAction::Other(_) => Some(edge),
        };
        Ok(action)
    }

    /// Recovery drops every waiting edge and the open charge.
    pub fn recover(&mut self)
        ensures
            final(self).wf(),
            final(self)@.backlog == Seq::<EdgeAction>::empty(),
            final(self)@.charge_episode is None,
    {
        self.backlog = VecDeque::new();
        self.charge_episode = None;
        assert(self.backlog@ =~= Seq::<EdgeAction>::empty());
    }
}

/// An action edge at its slot in a command.
#[derive(Clone, Copy, Debug, PartialEq, Eq, Structural)]
pub struct SlotEdge {
    pub slot: u8,
    pub action: EdgeAction,
}

/// The edge the owner model steps with: the first edge of the lowest slot.
pub open spec fn first_edge_spec(edges: Seq<SlotEdge>) -> Option<SlotEdge>
    decreases edges.len(),
{
    if edges.len() == 0 {
        None
    } else {
        match first_edge_spec(edges.drop_last()) {
            Some(best) => if edges.last().slot < best.slot {
                Some(edges.last())
            } else {
                Some(best)
            },
            None => Some(edges.last()),
        }
    }
}

/// Picks the edge a command's prediction steps with.
pub fn first_edge(edges: &Vec<SlotEdge>) -> (result: Option<SlotEdge>)
    ensures
        result == first_edge_spec(edges@),
{
    let n = edges.len();
    let mut best: Option<SlotEdge> = None;
    for i in 0..n
        invariant
            n == edges@.len(),
            best == first_edge_spec(edges@.take(i as int)),
    {
        let e = edges[i];
        proof {
            assert(edges@.take(i as int + 1).drop_last() =~= edges@.take(i as int));
            assert(edges@.take(i as int + 1).last() == e);
        }
        best = match best {
            Some(b) => if e.slot < b.slot {
                Some(e)
            } else {
                Some(b)
            },
            None => Some(e),
        };
    }
    assert(edges@.take(n as int) =~= edges@);
    best
}

/// What a charge edge asks the combat simulation to do.
#[derive(Clone, Copy, Debug, PartialEq, Eq, Structural)]
pub enum ChargeCommand {
    Begin { episode: u64 },
    Release { episode: u64 },
    Cancel { episode: u64 },
}

/// A press in the command with `sequence` opens the episode named by that
/// sequence; a release or cancel names the episode it was resolved to.
pub open spec fn charge_spec(action: EdgeAction, sequence: u64) -> Option<ChargeCommand> {
    match action {
        EdgeAction::ChargeBegin => Some(ChargeCommand::Begin { episode: sequence }),
        EdgeAction::ChargeRelease { episode } => Some(ChargeCommand::Release { episode }),
        EdgeAction::ChargeCancel { episode } => Some(ChargeCommand::Cancel { episode }),
        EdgeAction::Other(_) => None,
    }
}

pub fn charge_command(action: EdgeAction, sequence: u64) -> (result: Option<ChargeCommand>)
    ensures
        result == charge_spec(action, sequence),
{
    match action {
        EdgeAction::ChargeBegin => Some(ChargeCommand::Begin { episode: sequence }),
        EdgeAction::ChargeRelease { episode } => Some(ChargeCommand::Release { episode }),
        EdgeAction::ChargeCancel { episode } => Some(ChargeCommand::Cancel { episode }),
        EdgeAction::Other(_) => None,
    }
}

// ---------------------------------------------------------------- laws

/// A press followed by a release of the pending charge, in commands `first`
/// and then `second`, releases exactly the episode the press opened and
/// leaves no charge open.
pub proof fn law_release_binds_press_episode(charge: Option<u64>, first: u64, second: u64)
    ensures
        ({
            let (begin, open) = resolve_spec(charge, EdgeAction::ChargeBegin, first);
            let (release, closed) = resolve_spec(open, EdgeAction::ChargeRelease { episode: 0 }, second);
            &&& begin == Some(EdgeAction::ChargeBegin)
            &&& release == Some(EdgeAction::ChargeRelease { episode: first })
            &&& closed is None
        }),
{
}

/// Without an open charge, a pending release or cancel is dropped rather
/// than sent with a made-up episode.
pub proof fn law_release_without_press_is_dropped(sequence: u64)
    ensures
        resolve_spec(None, EdgeAction::ChargeRelease { episode: 0 }, sequence).0 is None,
        resolve_spec(None, EdgeAction::ChargeCancel { episode: 0 }, sequence).0 is None,
{
}

/// Resolution never emits a release or cancel for episode zero.
pub proof fn law_no_episode_zero_release(charge: Option<u64>, edge: EdgeAction, sequence: u64)
    requires
        charge matches Some(e) ==> e != 0,
    ensures
        resolve_spec(charge, edge, sequence).0 != Some(EdgeAction::ChargeRelease { episode: 0 }),
        resolve_spec(charge, edge, sequence).0 != Some(EdgeAction::ChargeCancel { episode: 0 }),
{
}

/// The simulation sees one charge episode from press to release: the press
/// resolved in command `first` begins episode `first`, and the coalesced
/// release resolved in a later command `second` releases that same episode.
pub proof fn law_simulated_charge_episode_is_stable(charge: Option<u64>, first: u64, second: u64)
    ensures
        ({
            let (begin, open) = resolve_spec(charge, EdgeAction::ChargeBegin, first);
            let (release, _) = resolve_spec(open, EdgeAction::ChargeRelease { episode: 0 }, second);
            &&& charge_spec(begin->0, first) == Some(ChargeCommand::Begin { episode: first })
            &&& charge_spec(release->0, second) == Some(ChargeCommand::Release { episode: first })
        }),
{
}

/// The edge a prediction steps with has the lowest slot of the command, and
/// is the first edge at that slot.
pub proof fn law_first_edge_has_lowest_slot(edges: Seq<SlotEdge>)
    ensures
        edges.len() == 0 <==> first_edge_spec(edges) is None,
        first_edge_spec(edges) matches Some(e) ==> exists|i: int|
            0 <= i < edges.len() && #[trigger] edges[i] == e && (forall|j: int|
                0 <= j < edges.len() ==> e.slot <= #[trigger] edges[j].slot) && (forall|j: int|
                0 <= j < i ==> edges[j].slot > e.slot),
    decreases edges.len(),
{
    if edges.len() > 0 {
        let t = edges.drop_last();
        law_first_edge_has_lowest_slot(t);
        let last = edges.last();
        assert(edges[edges.len() - 1] == last);
        assert forall|j: int| 0 <= j < t.len() implies #[trigger] t[j] == edges[j] by {}
        if first_edge_spec(t) is Some && !(last.slot < first_edge_spec(t)->0.slot) {
            let b = first_edge_spec(t)->0;
            let i = choose|i: int|
                0 <= i < t.len() && #[trigger] t[i] == b && (forall|j: int|
                    0 <= j < t.len() ==> b.slot <= #[trigger] t[j].slot) && (forall|j: int|
                    0 <= j < i ==> t[j].slot > b.slot);
            assert(edges[i] == b);
            assert forall|j: int| 0 <= j < edges.len() implies b.slot <= #[trigger] edges[j].slot by {
                if j < t.len() {
                    assert(t[j] == edges[j]);
                }
            }
            assert forall|j: int| 0 <= j < i implies edges[j].slot > b.slot by {
                assert(t[j] == edges[j]);
            }
        } else {
            let i = edges.len() - 1;
            assert forall|j: int| 0 <= j < edges.len() implies last.slot <= #[trigger] edges[j].slot by {
                if j < t.len() {
                    assert(t[j] == edges[j]);
                    if first_edge_spec(t) is Some {
                        let b = first_edge_spec(t)->0;
                        let w = choose|w: int|
                            0 <= w < t.len() && #[trigger] t[w] == b && (forall|k: int|
                                0 <= k < t.len() ==> b.slot <= #[trigger] t[k].slot) && (forall|k: int|
                                0 <= k < w ==> t[k].slot > b.slot);
                        assert(b.slot <= t[j].slot);
                    }
                }
            }
            assert forall|j: int| 0 <= j < i implies edges[j].slot > last.slot by {
                assert(t[j] == edges[j]);
                if first_edge_spec(t) is Some {
                    let b = first_edge_spec(t)->0;
                    let w = choose|w: int|
                        0 <= w < t.len() && #[trigger] t[w] == b && (forall|k: int|
                            0 <= k < t.len() ==> b.slot <= #[trigger] t[k].slot) && (forall|k: int|
                            0 <= k < w ==> t[k].slot > b.slot);
                    assert(b.slot <= t[j].slot);
                }
            }
        }
    }
}

} // verus!
