//! Which public replicas are rendered: a replica that refers to a source
//! hero or enemy waits until that source is itself known.
use vstd::prelude::*;
use crate::ids::EntityId;

verus! {

/// What source entitlement reads of a public replica.
#[derive(Clone, Copy, Debug, PartialEq, Eq, Structural)]
pub enum ActorSource {
    /// A hero, which can be the source of other replicas.
    Hero(u64),
    /// An enemy, which can be the source of other replicas.
    Enemy(u64),
    /// A projectile and its owner, if it has one.
    Projectile(Option<u64>),
    /// A wisp and its owner, if it has one.
    Wisp(Option<u64>),
    /// An effect and its owner; zero is no owner.
    Effect(u64),
    /// Any replica without a source.
    Other,
}

/// Whether `id` is a known source: the local owner, or a hero or enemy
/// among the replicas.
pub open spec fn known_source(actors: Seq<ActorSource>, owner: u64, id: u64) -> bool {
    id == owner || exists|i: int|
        0 <= i < actors.len() && (#[trigger] actors[i] == ActorSource::Hero(id) || actors[i]
            == ActorSource::Enemy(id))
}

/// Whether a replica may be rendered beside `actors`.
pub open spec fn entitled(a: ActorSource, actors: Seq<ActorSource>, owner: u64) -> bool {
    match a {
        ActorSource::Projectile(o) | ActorSource::Wisp(o) => match o {
            Some(id) => known_source(actors, owner, id),
            None => true,
        },
        ActorSource::Effect(id) => id == 0 || known_source(actors, owner, id),
        _ => true,
    }
}

/// The replicas of `among` that may be rendered beside `actors`, in order.
pub open spec fn entitled_among(among: Seq<ActorSource>, actors: Seq<ActorSource>, owner: u64) -> Seq<
    ActorSource,
> {
    among.filter(|a: ActorSource| entitled(a, actors, owner))
}

fn is_known_source(actors: &Vec<ActorSource>, owner: u64, id: u64) -> (result: bool)
    ensures
        result == known_source(actors@, owner, id),
{
    if id == owner {
        return true;
    }
    let n = actors.len();
    for i in 0..n
        invariant
            n == actors@.len(),
            id != owner,
            forall|k: int|
                0 <= k < i ==> !(#[trigger] actors@[k] == ActorSource::Hero(id) || actors@[k]
                    == ActorSource::Enemy(id)),
    {
        let a = actors[i];
        let found = match a {
            ActorSource::Hero(h) => h == id,
            ActorSource::Enemy(e) => e == id,
            _ => false,
        };
        if found {
            assert(actors@[i as int] == ActorSource::Hero(id) || actors@[i as int]
                == ActorSource::Enemy(id));
            return true;
        }
    }
    false
}

/// The replicas to render, in order: those whose source is known; the
/// others are kept by the scope table and wait for their source.
pub fn entitled_actors(actors: &Vec<ActorSource>, owner: u64) -> (result: Vec<ActorSource>)
    ensures
        result@ == entitled_among(actors@, actors@, owner),
        forall|k: int|
            0 <= k < result@.len() ==> match #[trigger] result@[k] {
                ActorSource::Projectile(Some(id)) => id == owner || exists|j: int|
                    0 <= j < actors@.len() && ((#[trigger] actors@[j]) == ActorSource::Hero(id) || actors@[j]
                        == ActorSource::Enemy(id)),
                ActorSource::Wisp(Some(id)) => id == owner || exists|j: int|
                    0 <= j < actors@.len() && ((#[trigger] actors@[j]) == ActorSource::Hero(id) || actors@[j]
                        == ActorSource::Enemy(id)),
                ActorSource::Effect(id) => id == 0 || id == owner || exists|j: int|
                    0 <= j < actors@.len() && ((#[trigger] actors@[j]) == ActorSource::Hero(id) || actors@[j]
                        == ActorSource::Enemy(id)),
                _ => true,
            },
        forall|k: int| 0 <= k < result@.len() ==> actors@.contains(#[trigger] result@[k]),
        forall|i: int|
            0 <= i < actors@.len() && (match #[trigger] actors@[i] {
                ActorSource::Projectile(Some(id)) => id == owner || exists|j: int|
                    0 <= j < actors@.len() && (actors@[j] == ActorSource::Hero(id) || actors@[j]
                        == ActorSource::Enemy(id)),
                ActorSource::Wisp(Some(id)) => id == owner || exists|j: int|
                    0 <= j < actors@.len() && (actors@[j] == ActorSource::Hero(id) || actors@[j]
                        == ActorSource::Enemy(id)),
                ActorSource::Effect(id) => id == 0 || id == owner || exists|j: int|
                    0 <= j < actors@.len() && (actors@[j] == ActorSource::Hero(id) || actors@[j]
                        == ActorSource::Enemy(id)),
                _ => true,
            }) ==> result@.contains(actors@[i]),
{
    proof {
        law_rendered_sources_are_known(actors@, owner);
    }
    let n = actors.len();
    let mut out: Vec<ActorSource> = Vec::new();
    for i in 0..n
        invariant
            n == actors@.len(),
            out@ == entitled_among(actors@.take(i as int), actors@, owner),
    {
        let a = actors[i];
        proof {
            reveal(Seq::filter);
            assert(actors@.take(i as int + 1).drop_last() =~= actors@.take(i as int));
            assert(actors@.take(i as int + 1).last() == a);
        }
        let keep = match a {
            ActorSource::Projectile(o) | ActorSource::Wisp(o) => match o {
                Some(id) => is_known_source(actors, owner, id),
                None => true,
            },
            ActorSource::Effect(id) => id == 0 || is_known_source(actors, owner, id),
            _ => true,
        };
        if keep {
            out.push(a);
        }
    }
    assert(actors@.take(n as int) =~= actors@);
    out
}

/// What public-replica suppression reads of a presentation journal entry:
/// whether it is a projectile event, and the public entity bound to it.
#[derive(Clone, Copy, Debug, PartialEq, Eq, Structural)]
pub struct JournalBinding {
    pub projectile: bool,
    pub binding: Option<EntityId>,
}

/// Whether a projectile journal entry, live or retired, is bound to `entity`.
pub open spec fn suppressed_spec(journal: Seq<JournalBinding>, entity: EntityId) -> bool {
    exists|i: int|
        0 <= i < journal.len() && (#[trigger] journal[i]).projectile && journal[i].binding == Some(
            entity,
        )
}

/// Whether the public replica of `entity` is hidden because a predicted
/// projectile already stands for it (a retired one too, so that a late
/// binding cannot bring it back).
pub fn suppress_public(journal: &Vec<JournalBinding>, entity: EntityId) -> (result: bool)
    ensures
        result == suppressed_spec(journal@, entity),
{
    let n = journal.len();
    for i in 0..n
        invariant
            n == journal@.len(),
            forall|k: int|
                0 <= k < i ==> !((#[trigger] journal@[k]).projectile && journal@[k].binding == Some(
                    entity,
                )),
    {
        let e = journal[i];
        let bound = match e.binding {
            Some(b) => b == entity,
            None => false,
        };
        if e.projectile && bound {
            assert(journal@[i as int].projectile && journal@[i as int].binding == Some(entity));
            return true;
        }
    }
    false
}

/// A decoded public replica: the entity it is published for and what source
/// entitlement reads of it.
#[derive(Clone, Copy, Debug, PartialEq, Eq, Structural)]
pub struct PublicReplica {
    pub entity: EntityId,
    pub actor: ActorSource,
}

/// Whether a replica stays in the presentation: under owner prediction a
/// projectile that a journal entry stands for is left out.
pub open spec fn shown_replica(r: PublicReplica, predicted: bool, journal: Seq<JournalBinding>) -> bool {
    !(predicted && r.actor is Projectile && suppressed_spec(journal, r.entity))
}

/// The replicas left in the presentation, in order.
pub open spec fn shown_actors(
    replicas: Seq<PublicReplica>,
    predicted: bool,
    journal: Seq<JournalBinding>,
) -> Seq<ActorSource> {
    replicas.filter(|r: PublicReplica| shown_replica(r, predicted, journal)).map_values(
        |r: PublicReplica| r.actor,
    )
}

/// The replicas to render, in order: the suppressed predicted projectiles
/// are left out, then the rest wait for their sources as `entitled_actors`
/// decides.
pub fn rendered_actors(
    replicas: &Vec<PublicReplica>,
    predicted: bool,
    journal: &Vec<JournalBinding>,
    owner: u64,
) -> (result: Vec<ActorSource>)
    ensures
        result@ == entitled_among(
            shown_actors(replicas@, predicted, journal@),
            shown_actors(replicas@, predicted, journal@),
            owner,
        ),
{
    let n = replicas.len();
    let mut shown: Vec<ActorSource> = Vec::new();
    for i in 0..n
        invariant
            n == replicas@.len(),
            shown@ == shown_actors(replicas@.take(i as int), predicted, journal@),
    {
        let r = replicas[i];
        let ghost before = replicas@.take(i as int).filter(
            |r: PublicReplica| shown_replica(r, predicted, journal@),
        );
        proof {
            reveal(Seq::filter);
            assert(replicas@.take(i as int + 1).drop_last() =~= replicas@.take(i as int));
            assert(replicas@.take(i as int + 1).last() == r);
        }
        let hide = predicted && match r.actor {
            ActorSource::Projectile(_) => suppress_public(journal, r.entity),
            _ => false,
        };
        if !hide {
            shown.push(r.actor);
            proof {
                assert(before.push(r).map_values(|r: PublicReplica| r.actor) =~= before.map_values(
                    |r: PublicReplica| r.actor,
                ).push(r.actor));
            }
        }
    }
    assert(replicas@.take(n as int) =~= replicas@);
    entitled_actors(&shown, owner)
}

/// The pose time every shown combat entity agrees on: `None` when one of
/// them has no sampled pose or two disagree, the playback cursor when no
/// combat entity is shown.
pub open spec fn common_time_spec(shown: Seq<Option<u64>>, cursor: u64) -> Option<u64> {
    if shown.len() == 0 {
        Some(cursor)
    } else if (forall|i: int| 0 <= i < shown.len() ==> #[trigger] shown[i] == shown[0])
        && shown[0] is Some {
        shown[0]
    } else {
        None
    }
}

/// Only a coherent rendered combat time may stamp a mixed-time query.
/// `shown` holds each combat entity's shown pose time, if it has one.
pub fn combat_view_time(shown: &Vec<Option<u64>>, cursor: u64) -> (result: Option<u64>)
    ensures
        result == common_time_spec(shown@, cursor),
{
    let n = shown.len();
    if n == 0 {
        return Some(cursor);
    }
    let first = match shown[0] {
        Some(t) => t,
        None => return None,
    };
    for i in 0..n
        invariant
            n == shown@.len(),
            n > 0,
            shown@[0] == Some(first),
            forall|k: int| 0 <= k < i ==> #[trigger] shown@[k] == shown@[0],
    {
        let same = match shown[i] {
            Some(t) => t == first,
            None => false,
        };
        if !same {
            assert(shown@[i as int] != shown@[0]);
            return None;
        }
    }
    Some(first)
}

/// Why a pose sample cannot open another motion segment.
#[derive(Clone, Copy, Debug, PartialEq, Eq, Structural)]
pub enum SegmentError {
    Capacity,
}

/// The motion segment of a new pose sample: a later sample that jumped
/// far or changed platform motion starts a new segment, so that it is not
/// blended with the journey before it; a delivery gap alone does not.
pub open spec fn segment_spec(
    segment: u32,
    tick: u64,
    previous_tick: Option<u64>,
    jumped: bool,
    motion_changed: bool,
) -> Result<u32, SegmentError> {
    if previous_tick matches Some(p) && tick > p && (jumped || motion_changed) {
        if segment == u32::MAX {
            Err(SegmentError::Capacity)
        } else {
            Ok((segment + 1) as u32)
        }
    } else {
        Ok(segment)
    }
}

pub fn next_segment(
    segment: u32,
    tick: u64,
    previous_tick: Option<u64>,
    jumped: bool,
    motion_changed: bool,
) -> (result: Result<u32, SegmentError>)
    ensures
        result == segment_spec(segment, tick, previous_tick, jumped, motion_changed),
{
    let later = match previous_tick {
        Some(p) => tick > p,
        None => false,
    };
    if later && (jumped || motion_changed) {
        match segment.checked_add(1) {
            Some(next) => Ok(next),
            None => Err(SegmentError::Capacity),
        }
    } else {
        Ok(segment)
    }
}

// ---------------------------------------------------------------- laws

/// A replica is rendered exactly when its source is known: every rendered
/// projectile or wisp with an owner, and every rendered effect with a
/// nonzero owner, names the local owner or a hero or enemy among the
/// replicas; every rendered replica is one of them; and every replica whose
/// source is known (or that has none) is rendered.
pub proof fn law_rendered_sources_are_known(actors: Seq<ActorSource>, owner: u64)
    ensures
        forall|k: int|
            0 <= k < entitled_among(actors, actors, owner).len() ==> match #[trigger] entitled_among(actors, actors, owner)[k] {
                ActorSource::Projectile(Some(id)) => id == owner || exists|j: int|
                    0 <= j < actors.len() && ((#[trigger] actors[j]) == ActorSource::Hero(id) || actors[j]
                        == ActorSource::Enemy(id)),
                ActorSource::Wisp(Some(id)) => id == owner || exists|j: int|
                    0 <= j < actors.len() && ((#[trigger] actors[j]) == ActorSource::Hero(id) || actors[j]
                        == ActorSource::Enemy(id)),
                ActorSource::Effect(id) => id == 0 || id == owner || exists|j: int|
                    0 <= j < actors.len() && ((#[trigger] actors[j]) == ActorSource::Hero(id) || actors[j]
                        == ActorSource::Enemy(id)),
                _ => true,
            },
        forall|k: int| 0 <= k < entitled_among(actors, actors, owner).len() ==> actors.contains(#[trigger] entitled_among(actors, actors, owner)[k]),
        forall|i: int|
            0 <= i < actors.len() && (match #[trigger] actors[i] {
                ActorSource::Projectile(Some(id)) => id == owner || exists|j: int|
                    0 <= j < actors.len() && (actors[j] == ActorSource::Hero(id) || actors[j]
                        == ActorSource::Enemy(id)),
                ActorSource::Wisp(Some(id)) => id == owner || exists|j: int|
                    0 <= j < actors.len() && (actors[j] == ActorSource::Hero(id) || actors[j]
                        == ActorSource::Enemy(id)),
                ActorSource::Effect(id) => id == 0 || id == owner || exists|j: int|
                    0 <= j < actors.len() && (actors[j] == ActorSource::Hero(id) || actors[j]
                        == ActorSource::Enemy(id)),
                _ => true,
            }) ==> entitled_among(actors, actors, owner).contains(actors[i]),
{
    let pred = |a: ActorSource| entitled(a, actors, owner);
    let r = actors.filter(pred);
    assert forall|k: int| 0 <= k < r.len() implies actors.contains(#[trigger] r[k]) by {
        actors.lemma_filter_pred(pred, k);
        lemma_filter_member(actors, pred, k);
    }
    assert forall|k: int| 0 <= k < r.len() implies entitled(#[trigger] r[k], actors, owner) by {
        actors.lemma_filter_pred(pred, k);
    }
    assert forall|i: int| 0 <= i < actors.len() && entitled(#[trigger] actors[i], actors, owner) implies r.contains(
        actors[i],
    ) by {
        actors.lemma_filter_contains(pred, i);
    }
}

/// Every element a filter keeps is an element of the filtered sequence.
proof fn lemma_filter_member<A>(s: Seq<A>, p: spec_fn(A) -> bool, k: int)
    requires
        0 <= k < s.filter(p).len(),
    ensures
        s.contains(s.filter(p)[k]),
    decreases s.len(),
{
    reveal(Seq::filter);
    let r = s.drop_last().filter(p);
    if p(s.last()) && k == r.len() {
        assert(s[s.len() - 1] == s.filter(p)[k]);
    } else {
        lemma_filter_member(s.drop_last(), p, k);
        let j = choose|j: int| 0 <= j < s.drop_last().len() && s.drop_last()[j] == r[k];
        assert(s[j] == s.filter(p)[k]);
    }
}

/// Every rendered replica's source is known; heroes, enemies and replicas
/// without a source are always rendered.
pub proof fn law_rendered_references_are_known(actors: Seq<ActorSource>, owner: u64)
    ensures
        forall|k: int|
            0 <= k < entitled_among(actors, actors, owner).len() ==> entitled(
                #[trigger] entitled_among(actors, actors, owner)[k],
                actors,
                owner,
            ),
        forall|i: int|
            0 <= i < actors.len() && (actors[i] is Hero || actors[i] is Enemy || actors[i] is Other)
                ==> entitled_among(actors, actors, owner).contains(#[trigger] actors[i]),
{
    let pred = |a: ActorSource| entitled(a, actors, owner);
    assert forall|k: int| 0 <= k < actors.filter(pred).len() implies pred(
        #[trigger] actors.filter(pred)[k],
    ) by {
        actors.lemma_filter_pred(pred, k);
    }
    assert forall|i: int|
        0 <= i < actors.len() && (actors[i] is Hero || actors[i] is Enemy || actors[i] is Other)
            implies actors.filter(pred).contains(#[trigger] actors[i]) by {
        actors.lemma_filter_contains(pred, i);
    }
}

/// A combat view time is one that every shown combat entity agrees on.
pub proof fn law_combat_time_is_common(shown: Seq<Option<u64>>, cursor: u64)
    ensures
        common_time_spec(shown, cursor) matches Some(t) ==> forall|i: int|
            0 <= i < shown.len() ==> #[trigger] shown[i] == Some(t),
{
}

} // verus!
