//! Control identities of the owner group's baseline members: which reset
//! and retirement controls a member accepts, which are old traffic, and how
//! an accepted batch moves the members, all or nothing.
use vstd::prelude::*;
use crate::ids::{EntityId, ScopeIdentity, GroupRevision};

verus! {

/// The context a member's baselines belong to: its scope, the payload
/// schema and the owner group publication that declared it.
#[derive(Clone, Copy, Debug, PartialEq, Eq, Structural)]
pub struct BaselineContext {
    pub scope: ScopeIdentity,
    pub schema: u64,
    pub group: Option<GroupRevision>,
}

/// A reliable request to restart a member's baselines at `generation`.
#[derive(Clone, Copy, Debug, PartialEq, Eq, Structural)]
pub struct BaselineReset {
    pub context: BaselineContext,
    pub generation: u64,
}

/// Retirement of a member's decoded baselines through snapshot `through`.
#[derive(Clone, Copy, Debug, PartialEq, Eq, Structural)]
pub struct RetirementFence {
    pub context: BaselineContext,
    pub generation: u64,
    pub through: u64,
}

/// What the client's scope table remembers of an entity index: its latest
/// scope and whether that scope was closed.
#[derive(Clone, Copy, Debug, PartialEq, Eq, Structural)]
pub struct ScopeFence {
    pub scope: ScopeIdentity,
    pub closed: bool,
}

/// Why a control is old traffic rather than an error.
#[derive(Clone, Copy, Debug, PartialEq, Eq, Structural)]
pub enum ObsoleteReason {
    Scope,
    Publication,
    RetiredBaseline,
}

/// Why a baseline control is refused.
#[derive(Clone, Copy, Debug, PartialEq, Eq, Structural)]
pub enum ControlError {
    Conflict,
    InvalidIdentity,
    Unknown,
    Capacity,
    Obsolete(ObsoleteReason),
}

/// One member's control identity: its context, its baseline generation and
/// the retirement it proposed that the server has not acknowledged yet.
#[derive(Clone, Copy, Debug, PartialEq, Eq, Structural)]
pub struct MemberControl {
    pub context: BaselineContext,
    pub generation: u64,
    pub retirement: Option<RetirementFence>,
}

/// The group identity named by a context, if any.
pub open spec fn group_id(g: Option<GroupRevision>) -> Option<u64> {
    match g {
        Some(r) => Some(r.group),
        None => None,
    }
}

/// The group revision named by a context; no group orders first.
pub open spec fn revision(g: Option<GroupRevision>) -> int {
    match g {
        Some(r) => r.revision as int,
        None => -1,
    }
}

/// How a member whose context is `current` at `current_generation` judges a
/// control for `context` at `generation`; `reset` for a reset, and
/// `admitted` the protocol's own verdict on the control's identity, which
/// is checked before anything else.
pub open spec fn control_context_spec(
    current: BaselineContext,
    current_generation: u64,
    context: BaselineContext,
    generation: u64,
    reset: bool,
    admitted: Result<(), ControlError>,
) -> Result<(), ControlError> {
    if admitted is Err {
        admitted
    } else if context.scope.connection != current.scope.connection || context.scope.entity
        != current.scope.entity || context.schema != current.schema || group_id(context.group)
        != group_id(current.group) {
        Err(ControlError::Conflict)
    } else if context.scope.scope < current.scope.scope && context.scope.representation
        <= current.scope.representation && revision(context.group) <= revision(current.group) {
        Err(ControlError::Obsolete(ObsoleteReason::Scope))
    } else if context.scope != current.scope {
        Err(ControlError::Conflict)
    } else if revision(context.group) < revision(current.group) {
        Err(ControlError::Obsolete(ObsoleteReason::Publication))
    } else if revision(context.group) > revision(current.group) {
        if reset {
            Ok(())
        } else {
            Err(ControlError::Conflict)
        }
    } else if generation < current_generation {
        Err(ControlError::Obsolete(ObsoleteReason::RetiredBaseline))
    } else if generation != current_generation && !(reset && current_generation + 1 == generation) {
        Err(ControlError::Conflict)
    } else {
        Ok(())
    }
}

fn revision_of(g: Option<GroupRevision>) -> (result: (bool, u64))
    ensures
        result.0 == (g is Some),
        g is Some ==> result.1 == g->0.revision,
{
    match g {
        Some(r) => (true, r.revision),
        None => (false, 0),
    }
}

/// `revision(a) < revision(b)`.
fn revision_less(a: Option<GroupRevision>, b: Option<GroupRevision>) -> (result: bool)
    ensures
        result == (revision(a) < revision(b)),
{
    let (ha, ra) = revision_of(a);
    let (hb, rb) = revision_of(b);
    if !hb {
        false
    } else if !ha {
        true
    } else {
        ra < rb
    }
}

/// `group_id(a) == group_id(b)`.
fn same_group(a: Option<GroupRevision>, b: Option<GroupRevision>) -> (result: bool)
    ensures
        result == (group_id(a) == group_id(b)),
{
    match (a, b) {
        (Some(x), Some(y)) => x.group == y.group,
        (None, None) => true,
        _ => false,
    }
}

/// Judges a control against a member's current identity. Unrelated and
/// malformed dimensions are refused before age is considered; a reset may
/// move to a newer publication or to the next generation.
pub fn control_context(
    current: &BaselineContext,
    current_generation: u64,
    context: &BaselineContext,
    generation: u64,
    reset: bool,
    admitted: Result<(), ControlError>,
) -> (result: Result<(), ControlError>)
    ensures
        result == control_context_spec(
            *current,
            current_generation,
            *context,
            generation,
            reset,
            admitted,
        ),
{
    if admitted.is_err() {
        return admitted;
    }
    if context.scope.connection != current.scope.connection || context.scope.entity
        != current.scope.entity || context.schema != current.schema || !same_group(
        context.group,
        current.group,
    ) {
        return Err(ControlError::Conflict);
    }
    if context.scope.scope < current.scope.scope && context.scope.representation
        <= current.scope.representation && !revision_less(current.group, context.group) {
        return Err(ControlError::Obsolete(ObsoleteReason::Scope));
    }
    if context.scope != current.scope {
        return Err(ControlError::Conflict);
    }
    if revision_less(context.group, current.group) {
        return Err(ControlError::Obsolete(ObsoleteReason::Publication));
    }
    if revision_less(current.group, context.group) {
        if reset {
            return Ok(());
        }
        return Err(ControlError::Conflict);
    }
    if generation < current_generation {
        return Err(ControlError::Obsolete(ObsoleteReason::RetiredBaseline));
    }
    if generation != current_generation && !(reset && current_generation < u64::MAX
        && current_generation + 1 == generation) {
        return Err(ControlError::Conflict);
    }
    Ok(())
}

/// Whether a scope table entry proves that `scope` was this entity's scope:
/// the same scope, or an older one before a closed newer scope.
pub open spec fn fence_covers(known: ScopeFence, scope: ScopeIdentity) -> bool {
    &&& known.scope.entity == scope.entity
    &&& known.scope.connection == scope.connection
    &&& (known.scope == scope || (known.closed && scope.scope < known.scope.scope
        && scope.representation <= known.scope.representation))
}

fn covers(known: &ScopeFence, scope: &ScopeIdentity) -> (result: bool)
    ensures
        result == fence_covers(*known, *scope),
{
    known.scope.entity == scope.entity && known.scope.connection == scope.connection && (
    known.scope == *scope || (known.closed && scope.scope < known.scope.scope
        && scope.representation <= known.scope.representation))
}

/// Protocol limits of the owner group.
#[derive(Clone, Copy, Debug, PartialEq, Eq, Structural)]
pub struct OwnerLimits {
    /// Most members an owner group may declare.
    pub members: usize,
    /// The owner group's identity.
    pub owner_group: u64,
    /// Bytes that retained and staged caches may take together.
    pub peak_bytes: usize,
    /// Bytes the decoded caches may keep resident.
    pub resident_bytes: usize,
}

/// What the members' caches hold now: all retained bytes with bookkeeping,
/// and the decoded cache bytes alone.
#[derive(Clone, Copy, Debug, PartialEq, Eq, Structural)]
pub struct CacheUsage {
    pub retained: usize,
    pub resident: usize,
}

/// Packet scratch charged when staging a copy of the members.
pub const STAGING_SCRATCH: usize = 262144;

/// Whether a staged copy of `count` members fits the limits.
pub open spec fn stage_fits(count: int, usage: CacheUsage, limits: OwnerLimits) -> bool {
    &&& count <= limits.members
    &&& usage.retained * 2 + STAGING_SCRATCH <= limits.peak_bytes
    &&& usage.resident <= limits.resident_bytes
}

pub open spec fn entity_lt(a: EntityId, b: EntityId) -> bool {
    a.index < b.index || (a.index == b.index && a.generation < b.generation)
}

fn entity_less(a: EntityId, b: EntityId) -> (result: bool)
    ensures
        result == entity_lt(a, b),
{
    a.index < b.index || (a.index == b.index && a.generation < b.generation)
}

pub open spec fn entity_of(m: MemberControl) -> EntityId {
    m.context.scope.entity
}

/// Members are kept in entity order, each entity once.
pub open spec fn members_sorted(s: Seq<MemberControl>) -> bool {
    forall|i: int, j: int|
        0 <= i < j < s.len() ==> entity_lt(entity_of(#[trigger] s[i]), entity_of(#[trigger] s[j]))
}

/// The position of `e`'s member.
pub open spec fn find_member(s: Seq<MemberControl>, e: EntityId) -> Option<int>
    decreases s.len(),
{
    if s.len() == 0 {
        None
    } else if entity_of(s[0]) == e {
        Some(0)
    } else {
        match find_member(s.drop_first(), e) {
            Some(i) => Some(i + 1),
            None => None,
        }
    }
}

pub proof fn lemma_find_member(s: Seq<MemberControl>, e: EntityId)
    ensures
        match find_member(s, e) {
            Some(i) => 0 <= i < s.len() && entity_of(s[i]) == e && forall|j: int|
                0 <= j < i ==> entity_of(s[j]) != e,
            None => forall|j: int| 0 <= j < s.len() ==> entity_of(#[trigger] s[j]) != e,
        },
    decreases s.len(),
{
    if s.len() > 0 && entity_of(s[0]) != e {
        lemma_find_member(s.drop_first(), e);
        assert forall|j: int| 1 <= j < s.len() implies s[j] == s.drop_first()[j - 1] by {}
    }
}

/// Where a member for the new entity `e` goes: after every smaller entity.
pub open spec fn insert_pos(s: Seq<MemberControl>, e: EntityId) -> int
    decreases s.len(),
{
    if s.len() == 0 {
        0
    } else if entity_lt(entity_of(s.last()), e) {
        s.len() as int
    } else {
        insert_pos(s.drop_last(), e)
    }
}

proof fn lemma_insert_pos(s: Seq<MemberControl>, e: EntityId)
    requires
        members_sorted(s),
    ensures
        0 <= insert_pos(s, e) <= s.len(),
        forall|i: int| 0 <= i < insert_pos(s, e) ==> entity_lt(entity_of(#[trigger] s[i]), e),
        forall|i: int| insert_pos(s, e) <= i < s.len() ==> !entity_lt(entity_of(#[trigger] s[i]), e),
    decreases s.len(),
{
    if s.len() > 0 && !entity_lt(entity_of(s.last()), e) {
        let t = s.drop_last();
        lemma_insert_pos(t, e);
        assert forall|i: int| insert_pos(s, e) <= i < s.len() implies !entity_lt(
            entity_of(#[trigger] s[i]),
            e,
        ) by {
            if i < s.len() - 1 {
                assert(t[i] == s[i]);
            }
        }
        assert forall|i: int| 0 <= i < insert_pos(s, e) implies entity_lt(
            entity_of(#[trigger] s[i]),
            e,
        ) by {
            assert(t[i] == s[i]);
        }
    }
}

proof fn lemma_sorted_insert(s: Seq<MemberControl>, m: MemberControl)
    requires
        members_sorted(s),
        find_member(s, entity_of(m)) is None,
    ensures
        members_sorted(s.insert(insert_pos(s, entity_of(m)), m)),
{
    lemma_insert_pos(s, entity_of(m));
    lemma_find_member(s, entity_of(m));
    let p = insert_pos(s, entity_of(m));
    let t = s.insert(p, m);
    assert forall|i: int, j: int| 0 <= i < j < t.len() implies entity_lt(
        entity_of(#[trigger] t[i]),
        entity_of(#[trigger] t[j]),
    ) by {
        if j < p {
            assert(t[i] == s[i] && t[j] == s[j]);
        } else if j == p {
            assert(t[i] == s[i]);
        } else if i < p {
            assert(t[i] == s[i] && t[j] == s[j - 1]);
            assert(entity_of(s[j - 1]) != entity_of(m));
        } else if i == p {
            assert(t[j] == s[j - 1]);
            assert(entity_of(s[j - 1]) != entity_of(m));
        } else {
            assert(t[i] == s[i - 1] && t[j] == s[j - 1]);
        }
    }
}

/// One reset with what the caller learned about it: the protocol's refusal
/// of its identity, if any, and the scope table's entry for its entity
/// index on its connection, if one is known.
#[derive(Clone, Copy, Debug)]
pub struct ResetControl {
    pub reset: BaselineReset,
    pub refused: Option<ControlError>,
    pub known: Option<ScopeFence>,
}

pub open spec fn admitted_of(refused: Option<ControlError>) -> Result<(), ControlError> {
    match refused {
        Some(e) => Err(e),
        None => Ok(()),
    }
}

pub open spec fn is_obsolete(r: Result<(), ControlError>) -> bool {
    r matches Err(ControlError::Obsolete(_))
}

/// The `i`-th reset names an owner group revision that a member already
/// replaced, and the member calls the reset old traffic.
pub open spec fn older_group_at(
    m: Seq<MemberControl>,
    c: Seq<ResetControl>,
    owner_group: u64,
    i: int,
) -> bool {
    let r = c[i].reset;
    match find_member(m, r.context.scope.entity) {
        Some(k) => match (r.context.group, m[k].context.group) {
            (Some(incoming), Some(current)) => {
                &&& incoming.group == owner_group
                &&& incoming.group == current.group
                &&& incoming.revision < current.revision
                &&& is_obsolete(
                    control_context_spec(
                        m[k].context,
                        m[k].generation,
                        r.context,
                        r.generation,
                        true,
                        admitted_of(c[i].refused),
                    ),
                )
            },
            _ => false,
        },
        None => false,
    }
}

/// Some reset of the batch belongs to an owner publication the members
/// already moved past.
pub open spec fn older_group_known(m: Seq<MemberControl>, c: Seq<ResetControl>, owner_group: u64) -> bool {
    exists|i: int| 0 <= i < c.len() && #[trigger] older_group_at(m, c, owner_group, i)
}

/// How the `i`-th reset of a batch is judged: a hard error, old traffic
/// (`Ok(Some(..))`) or acceptable (`Ok(None)`).
pub open spec fn reset_step(m: Seq<MemberControl>, c: Seq<ResetControl>, older: bool, i: int) -> Result<
    Option<ControlError>,
    ControlError,
> {
    let r = c[i].reset;
    let e = r.context.scope.entity;
    if c[i].refused is Some {
        Err(c[i].refused->0)
    } else if (exists|j: int| 0 <= j < i && #[trigger] c[j].reset.context.scope.entity == e)
        || c[0].reset.context.group != r.context.group {
        Err(ControlError::InvalidIdentity)
    } else {
        match find_member(m, e) {
            Some(k) => match control_context_spec(
                m[k].context,
                m[k].generation,
                r.context,
                r.generation,
                true,
                Ok(()),
            ) {
                Err(ControlError::Obsolete(x)) => Ok(Some(ControlError::Obsolete(x))),
                Err(x) => Err(x),
                Ok(_) => Ok(None),
            },
            None => if m.len() == 0 {
                Ok(None)
            } else {
                let current = m[0].context;
                if older && r.context.schema == 1 && (c[i].known matches Some(f) && fence_covers(
                    f,
                    r.context.scope,
                )) {
                    Ok(Some(ControlError::Obsolete(ObsoleteReason::Publication)))
                } else if r.context.scope.connection != current.scope.connection
                    || r.context.schema != 1 || !(current.group matches Some(before)
                    && r.context.group matches Some(after) && before.group == after.group
                    && after.revision > before.revision) {
                    Err(ControlError::Conflict)
                } else {
                    Ok(None)
                }
            },
        }
    }
}

/// The batch's verdict through its first `n` resets: the first hard error,
/// or the last old-traffic refusal, if any.
pub open spec fn reset_scan(m: Seq<MemberControl>, c: Seq<ResetControl>, older: bool, n: int) -> Result<
    Option<ControlError>,
    ControlError,
>
    decreases n,
{
    if n <= 0 {
        Ok(None)
    } else {
        match reset_scan(m, c, older, n - 1) {
            Err(e) => Err(e),
            Ok(prev) => match reset_step(m, c, older, n - 1) {
                Err(e) => Err(e),
                Ok(Some(o)) => Ok(Some(o)),
                Ok(None) => Ok(prev),
            },
        }
    }
}

proof fn lemma_scan_err_sticky(
    m: Seq<MemberControl>,
    c: Seq<ResetControl>,
    older: bool,
    i: int,
    n: int,
    e: ControlError,
)
    requires
        0 <= i <= n,
        reset_scan(m, c, older, i) == Err::<Option<ControlError>, ControlError>(e),
    ensures
        reset_scan(m, c, older, n) == Err::<Option<ControlError>, ControlError>(e),
    decreases n - i,
{
    if i < n {
        lemma_scan_err_sticky(m, c, older, i, n - 1, e);
    }
}

/// A member after the reset `r`: its generation moves, and a changed
/// generation drops its pending retirement. A new member is inserted in
/// entity order while the group has room.
pub open spec fn apply_reset_spec(t: Seq<MemberControl>, r: BaselineReset, limit: usize) -> Result<
    Seq<MemberControl>,
    ControlError,
> {
    let e = r.context.scope.entity;
    match find_member(t, e) {
        Some(k) => Ok(
            t.update(
                k,
                MemberControl {
                    generation: r.generation,
                    retirement: if t[k].generation != r.generation {
                        None
                    } else {
                        t[k].retirement
                    },
                    ..t[k]
                },
            ),
        ),
        None => if t.len() >= limit {
            Err(ControlError::Capacity)
        } else {
            Ok(
                t.insert(
                    insert_pos(t, e),
                    MemberControl { context: r.context, generation: r.generation, retirement: None },
                ),
            )
        },
    }
}

/// The members after the first `n` resets.
pub open spec fn apply_resets_spec(
    t: Seq<MemberControl>,
    c: Seq<ResetControl>,
    limit: usize,
    n: int,
) -> Result<Seq<MemberControl>, ControlError>
    decreases n,
{
    if n <= 0 {
        Ok(t)
    } else {
        match apply_resets_spec(t, c, limit, n - 1) {
            Err(e) => Err(e),
            Ok(u) => apply_reset_spec(u, c[n - 1].reset, limit),
        }
    }
}

proof fn lemma_apply_err_sticky(
    t: Seq<MemberControl>,
    c: Seq<ResetControl>,
    limit: usize,
    i: int,
    n: int,
    e: ControlError,
)
    requires
        0 <= i <= n,
        apply_resets_spec(t, c, limit, i) == Err::<Seq<MemberControl>, ControlError>(e),
    ensures
        apply_resets_spec(t, c, limit, n) == Err::<Seq<MemberControl>, ControlError>(e),
    decreases n - i,
{
    if i < n {
        lemma_apply_err_sticky(t, c, limit, i, n - 1, e);
    }
}

/// A batch for another group replaces every member.
pub open spec fn reset_base(m: Seq<MemberControl>, c: Seq<ResetControl>) -> Seq<MemberControl> {
    if c.len() > 0 && exists|j: int|
        0 <= j < m.len() && #[trigger] m[j].context.group != c[0].reset.context.group {
        Seq::empty()
    } else {
        m
    }
}

/// What a reset batch does to the members: `Err` leaves them unchanged.
pub open spec fn resets_outcome(
    m: Seq<MemberControl>,
    c: Seq<ResetControl>,
    usage: CacheUsage,
    limits: OwnerLimits,
) -> Result<Seq<MemberControl>, ControlError> {
    if !stage_fits(m.len() as int, usage, limits) {
        Err(ControlError::Capacity)
    } else {
        match reset_scan(m, c, older_group_known(m, c, limits.owner_group), c.len() as int) {
            Err(e) => Err(e),
            Ok(Some(o)) => Err(o),
            Ok(None) => apply_resets_spec(reset_base(m, c), c, limits.members, c.len() as int),
        }
    }
}

/// One retirement acknowledgement with what the caller learned about it,
/// as for a reset.
#[derive(Clone, Copy, Debug)]
pub struct RetirementControl {
    pub fence: RetirementFence,
    pub refused: Option<ControlError>,
    pub known: Option<ScopeFence>,
}

/// A refused retirement batch, with the acknowledgement that was refused
/// when one was.
#[derive(Clone, Copy, Debug, PartialEq, Eq, Structural)]
pub struct RetirementRejection {
    pub error: ControlError,
    pub fence: Option<RetirementFence>,
}

/// What is wrong with the `i`-th acknowledgement of a batch on its own:
/// its identity, a zero or repeated member, or a context outside the owner
/// group of the batch's first acknowledgement.
pub open spec fn fence_check(c: Seq<RetirementControl>, owner_group: u64, i: int) -> Option<
    ControlError,
> {
    let f = c[i].fence;
    let first = c[0].fence.context;
    if c[i].refused is Some {
        c[i].refused
    } else if f.through == 0 || exists|j: int|
        0 <= j < i && #[trigger] c[j].fence.context.scope.entity == f.context.scope.entity {
        Some(ControlError::InvalidIdentity)
    } else if f.context.group != first.group || f.context.scope.connection
        != first.scope.connection || f.context.schema != 1 || group_id(f.context.group) != Some(
        owner_group,
    ) {
        Some(ControlError::Conflict)
    } else {
        None
    }
}

/// The first of the first `n` acknowledgements that is wrong on its own.
pub open spec fn first_invalid(c: Seq<RetirementControl>, owner_group: u64, n: int) -> Option<int>
    decreases n,
{
    if n <= 0 {
        None
    } else {
        match first_invalid(c, owner_group, n - 1) {
            Some(i) => Some(i),
            None => if fence_check(c, owner_group, n - 1) is Some {
                Some(n - 1)
            } else {
                None
            },
        }
    }
}

proof fn lemma_first_invalid(c: Seq<RetirementControl>, owner_group: u64, n: int)
    requires
        n >= 0,
    ensures
        match first_invalid(c, owner_group, n) {
            Some(i) => 0 <= i < n && fence_check(c, owner_group, i) is Some && forall|j: int|
                0 <= j < i ==> fence_check(c, owner_group, j) is None,
            None => forall|j: int| 0 <= j < n ==> #[trigger] fence_check(c, owner_group, j) is None,
        },
    decreases n,
{
    if n > 0 {
        lemma_first_invalid(c, owner_group, n - 1);
    }
}

proof fn lemma_first_invalid_sticky(c: Seq<RetirementControl>, owner_group: u64, i: int, n: int)
    requires
        0 <= i <= n,
        first_invalid(c, owner_group, i) is Some,
    ensures
        first_invalid(c, owner_group, n) == first_invalid(c, owner_group, i),
    decreases n - i,
{
    if i < n {
        lemma_first_invalid_sticky(c, owner_group, i, n - 1);
    }
}

/// A member already moved to a newer revision of the batch's owner group.
pub open spec fn older_retirement_group(m: Seq<MemberControl>, first: BaselineContext) -> bool {
    exists|k: int|
        0 <= k < m.len() && m[k].context.scope.connection == first.scope.connection && (
        #[trigger] m[k].context.group matches Some(current) && first.group matches Some(incoming)
            && current.group == incoming.group && incoming.revision < current.revision)
}

/// How the `i`-th acknowledgement is judged against the members: a hard
/// error, old traffic (`Ok(Some(..))`) or acceptable (`Ok(None)`). One for
/// an entity that is no member is at best old traffic of a removed optional
/// member, proven by the scope table and a newer owner group.
pub open spec fn ack_step(m: Seq<MemberControl>, c: Seq<RetirementControl>, older: bool, i: int) -> Result<
    Option<ControlError>,
    ControlError,
> {
    let f = c[i].fence;
    match find_member(m, f.context.scope.entity) {
        None => match c[i].known {
            None => Err(ControlError::Unknown),
            Some(k) => if !fence_covers(k, f.context.scope) {
                Err(ControlError::Conflict)
            } else if !older {
                Err(ControlError::Unknown)
            } else {
                Ok(Some(ControlError::Obsolete(ObsoleteReason::Publication)))
            },
        },
        Some(x) => match control_context_spec(
            m[x].context,
            m[x].generation,
            f.context,
            f.generation,
            false,
            admitted_of(c[i].refused),
        ) {
            Err(ControlError::Obsolete(r)) => Ok(Some(ControlError::Obsolete(r))),
            Err(e) => Err(e),
            Ok(_) => Ok(None),
        },
    }
}

/// The judgement through the first `n` acknowledgements: the first hard
/// error, or the last old traffic, each with its position.
pub open spec fn ack_scan(m: Seq<MemberControl>, c: Seq<RetirementControl>, older: bool, n: int) -> Result<
    Option<(ControlError, int)>,
    (ControlError, int),
>
    decreases n,
{
    if n <= 0 {
        Ok(None)
    } else {
        match ack_scan(m, c, older, n - 1) {
            Err(e) => Err(e),
            Ok(prev) => match ack_step(m, c, older, n - 1) {
                Err(e) => Err((e, n - 1)),
                Ok(Some(o)) => Ok(Some((o, n - 1))),
                Ok(None) => Ok(prev),
            },
        }
    }
}

proof fn lemma_ack_err_sticky(
    m: Seq<MemberControl>,
    c: Seq<RetirementControl>,
    older: bool,
    i: int,
    n: int,
    e: (ControlError, int),
)
    requires
        0 <= i <= n,
        ack_scan(m, c, older, i) == Err::<Option<(ControlError, int)>, (ControlError, int)>(e),
    ensures
        ack_scan(m, c, older, n) == Err::<Option<(ControlError, int)>, (ControlError, int)>(e),
    decreases n - i,
{
    if i < n {
        lemma_ack_err_sticky(m, c, older, i, n - 1, e);
    }
}

/// Whether one of the first `n` acknowledgements is the retirement `mk`
/// still waits for.
pub open spec fn acknowledged(mk: MemberControl, c: Seq<RetirementControl>, n: int) -> bool {
    exists|i: int|
        0 <= i < n && entity_of(mk) == c[i].fence.context.scope.entity && mk.retirement == Some(
            #[trigger] c[i].fence,
        )
}

/// The members once the first `n` acknowledgements released the
/// retirements they answer.
pub open spec fn released(m: Seq<MemberControl>, c: Seq<RetirementControl>, n: int) -> Seq<
    MemberControl,
> {
    Seq::new(
        m.len(),
        |k: int|
            if acknowledged(m[k], c, n) {
                MemberControl { retirement: None, ..m[k] }
            } else {
                m[k]
            },
    )
}

/// What a retirement acknowledgement batch does to the members: `Err`
/// leaves them unchanged.
pub open spec fn retirements_outcome(
    m: Seq<MemberControl>,
    c: Seq<RetirementControl>,
    usage: CacheUsage,
    limits: OwnerLimits,
) -> Result<Seq<MemberControl>, RetirementRejection> {
    if c.len() == 0 || c.len() > limits.members {
        Err(RetirementRejection { error: ControlError::InvalidIdentity, fence: None })
    } else {
        match first_invalid(c, limits.owner_group, c.len() as int) {
            Some(i) => Err(
                RetirementRejection {
                    error: fence_check(c, limits.owner_group, i)->0,
                    fence: Some(c[i].fence),
                },
            ),
            None => if !stage_fits(m.len() as int, usage, limits) {
                Err(RetirementRejection { error: ControlError::Capacity, fence: None })
            } else {
                match ack_scan(
                    m,
                    c,
                    older_retirement_group(m, c[0].fence.context),
                    c.len() as int,
                ) {
                    Err((e, i)) => Err(RetirementRejection { error: e, fence: Some(c[i].fence) }),
                    Ok(Some((e, i))) => Err(
                        RetirementRejection { error: e, fence: Some(c[i].fence) },
                    ),
                    Ok(None) => Ok(released(m, c, c.len() as int)),
                }
            },
        }
    }
}

/// The retirement a member proposes, given its cache's `retained` state
/// count and `latest` decoded snapshot: none while one is in flight, with
/// fewer than two states, or with nothing before the latest snapshot.
pub open spec fn proposal_spec(mk: MemberControl, retained: usize, latest: Option<u64>) -> Result<
    Option<RetirementFence>,
    ControlError,
> {
    if mk.retirement is Some || retained < 2 {
        Ok(None)
    } else {
        match latest {
            None => Err(ControlError::Unknown),
            Some(l) => if l <= 1 {
                Ok(None)
            } else {
                Ok(
                    Some(
                        RetirementFence {
                            context: mk.context,
                            generation: mk.generation,
                            through: (l - 1) as u64,
                        },
                    ),
                )
            },
        }
    }
}

/// The members of the owner group, by entity.
pub struct OwnerBaselines {
    members: Vec<MemberControl>,
}

impl View for OwnerBaselines {
    type V = Seq<MemberControl>;

    closed spec fn view(&self) -> Seq<MemberControl> {
        self.members@
    }
}

fn find_in(members: &Vec<MemberControl>, e: EntityId) -> (result: Option<usize>)
    ensures
        match find_member(members@, e) {
            Some(i) => result == Some(i as usize),
            None => result is None,
        },
        result matches Some(i) ==> i < members@.len() && entity_of(members@[i as int]) == e
            && find_member(members@, e) == Some(i as int),
        result is None <==> find_member(members@, e) is None,
{
    proof {
        lemma_find_member(members@, e);
    }
    let n = members.len();
    for i in 0..n
        invariant
            n == members@.len(),
            forall|j: int| 0 <= j < i ==> entity_of(#[trigger] members@[j]) != e,
            match find_member(members@, e) {
                Some(k) => 0 <= k < members@.len() && entity_of(members@[k]) == e && forall|j: int|
                    0 <= j < k ==> entity_of(members@[j]) != e,
                None => forall|j: int| 0 <= j < members@.len() ==> entity_of(#[trigger] members@[j]) != e,
            },
    {
        if members[i].context.scope.entity == e {
            proof {
                if let Some(k) = find_member(members@, e) {
                    if k < i {
                        assert(entity_of(members@[k]) != e);
                    }
                    if (i as int) < k {
                        assert(entity_of(members@[i as int]) != e);
                    }
                } else {
                    assert(entity_of(members@[i as int]) != e);
                }
            }
            return Some(i);
        }
    }
    proof {
        if let Some(k) = find_member(members@, e) {
            assert(entity_of(members@[k]) != e);
        }
    }
    None
}

fn insert_position_in(members: &Vec<MemberControl>, e: EntityId) -> (result: usize)
    requires
        members_sorted(members@),
    ensures
        result == insert_pos(members@, e),
{
    let ghost s = members@;
    let mut i: usize = 0;
    while i < members.len() && entity_less(members[i].context.scope.entity, e)
        invariant
            s == members@,
            i <= s.len(),
            forall|j: int| 0 <= j < i ==> entity_lt(entity_of(#[trigger] s[j]), e),
        decreases s.len() - i,
    {
        i = i + 1;
    }
    proof {
        lemma_insert_pos(s, e);
        let p = insert_pos(s, e);
        if i < p {
            assert(entity_lt(entity_of(s[i as int]), e));
        }
        if p < i {
            assert(entity_lt(entity_of(s[p]), e));
        }
    }
    i
}

impl OwnerBaselines {
    pub closed spec fn wf(&self) -> bool {
        members_sorted(self.members@)
    }

    /// No member yet.
    pub fn new() -> (result: OwnerBaselines)
        ensures
            result.wf(),
            result@ == Seq::<MemberControl>::empty(),
    {
        OwnerBaselines { members: Vec::new() }
    }

    /// How many members are held.
    pub fn len(&self) -> (result: usize)
        ensures
            result == self@.len(),
    {
        self.members.len()
    }

    /// A member's context and baseline generation.
    pub fn identity(&self, entity: EntityId) -> (result: Option<(BaselineContext, u64)>)
        ensures
            match find_member(self@, entity) {
                Some(i) => result == Some((self@[i].context, self@[i].generation)),
                None => result is None,
            },
    {
        match find_in(&self.members, entity) {
            Some(i) => Some((self.members[i].context, self.members[i].generation)),
            None => None,
        }
    }

    /// The retirement a member proposed and the server has not acknowledged.
    pub fn pending_retirement(&self, entity: EntityId) -> (result: Option<RetirementFence>)
        ensures
            match find_member(self@, entity) {
                Some(i) => result == self@[i].retirement,
                None => result is None,
            },
    {
        match find_in(&self.members, entity) {
            Some(i) => self.members[i].retirement,
            None => None,
        }
    }

    fn older_group_exec(&self, controls: &Vec<ResetControl>, owner_group: u64) -> (result: bool)
        requires
            self.wf(),
        ensures
            result == older_group_known(self@, controls@, owner_group),
    {
        let n = controls.len();
        for i in 0..n
            invariant
                n == controls@.len(),
                forall|j: int| 0 <= j < i ==> !#[trigger] older_group_at(self@, controls@, owner_group, j),
        {
            let r = controls[i].reset;
            if let Some(k) = find_in(&self.members, r.context.scope.entity) {
                let member = self.members[k];
                if let (Some(incoming), Some(current)) = (r.context.group, member.context.group) {
                    if incoming.group == owner_group && incoming.group == current.group
                        && incoming.revision < current.revision {
                        let admitted = match controls[i].refused {
                            Some(e) => Err(e),
                            None => Ok(()),
                        };
                        let verdict = control_context(
                            &member.context,
                            member.generation,
                            &r.context,
                            r.generation,
                            true,
                            admitted,
                        );
                        if let Err(ControlError::Obsolete(_)) = verdict {
                            assert(older_group_at(self@, controls@, owner_group, i as int));
                            return true;
                        }
                    }
                }
            }
        }
        false
    }

    fn reset_step_exec(&self, controls: &Vec<ResetControl>, older: bool, i: usize) -> (result: Result<
        Option<ControlError>,
        ControlError,
    >)
        requires
            self.wf(),
            i < controls@.len(),
        ensures
            result == reset_step(self@, controls@, older, i as int),
    {
        let c = controls[i];
        let r = c.reset;
        let e = r.context.scope.entity;
        if let Some(refusal) = c.refused {
            return Err(refusal);
        }
        let mut j: usize = 0;
        while j < i
            invariant
                i < controls@.len(),
                j <= i,
                e == controls@[i as int].reset.context.scope.entity,
                controls@[i as int].refused is None,
                forall|k: int| 0 <= k < j ==> #[trigger] controls@[k].reset.context.scope.entity != e,
            decreases i - j,
        {
            if controls[j].reset.context.scope.entity == e {
                assert(controls@[j as int].reset.context.scope.entity == e);
                assert(exists|k: int|
                    0 <= k < i && #[trigger] controls@[k].reset.context.scope.entity == e);
                return Err(ControlError::InvalidIdentity);
            }
            j = j + 1;
        }
        if controls[0].reset.context.group != r.context.group {
            return Err(ControlError::InvalidIdentity);
        }
        match find_in(&self.members, e) {
            Some(k) => {
                let member = self.members[k];
                match control_context(
                    &member.context,
                    member.generation,
                    &r.context,
                    r.generation,
                    true,
                    Ok(()),
                ) {
                    Err(ControlError::Obsolete(x)) => Ok(Some(ControlError::Obsolete(x))),
                    Err(x) => Err(x),
                    Ok(_) => Ok(None),
                }
            },
            None => {
                if self.members.len() == 0 {
                    return Ok(None);
                }
                let current = self.members[0].context;
                let covered = match c.known {
                    Some(f) => covers(&f, &r.context.scope),
                    None => false,
                };
                if older && r.context.schema == 1 && covered {
                    return Ok(Some(ControlError::Obsolete(ObsoleteReason::Publication)));
                }
                let advances = match (current.group, r.context.group) {
                    (Some(before), Some(after)) => before.group == after.group && after.revision
                        > before.revision,
                    _ => false,
                };
                if r.context.scope.connection != current.scope.connection || r.context.schema != 1
                    || !advances {
                    Err(ControlError::Conflict)
                } else {
                    Ok(None)
                }
            },
        }
    }

    /// Applies a batch of owner baseline resets, all or nothing. Every reset
    /// is checked before any member changes: a hard error wins over old
    /// traffic, and old traffic refuses the whole batch. A reset for another
    /// group publication replaces every member; a reset of a known member
    /// moves its generation and drops a retirement promise only when the
    /// generation changed. The members' caches are reset alike by the
    /// caller once the batch is accepted.
    pub fn apply_resets(
        &mut self,
        controls: &Vec<ResetControl>,
        usage: CacheUsage,
        limits: OwnerLimits,
    ) -> (result: Result<(), ControlError>)
        requires
            old(self).wf(),
            usage.retained <= (usize::MAX - STAGING_SCRATCH) / 2,
        ensures
            final(self).wf(),
            match resets_outcome(old(self)@, controls@, usage, limits) {
                Err(e) => result == Err::<(), ControlError>(e) && final(self)@ == old(self)@,
                Ok(next) => result == Ok::<(), ControlError>(()) && final(self)@ == next,
            },
    {
        if self.members.len() > limits.members || usage.retained * 2 + STAGING_SCRATCH
            > limits.peak_bytes || usage.resident > limits.resident_bytes {
            return Err(ControlError::Capacity);
        }
        let older = self.older_group_exec(controls, limits.owner_group);
        let n = controls.len();
        let ghost m = self@;
        let ghost c = controls@;
        let mut obsolete: Option<ControlError> = None;
        for i in 0..n
            invariant
                n == c.len(),
                m == self@,
                c == controls@,
                self.wf(),
                stage_fits(m.len() as int, usage, limits),
                older == older_group_known(m, c, limits.owner_group),
                reset_scan(m, c, older, i as int) == Ok::<Option<ControlError>, ControlError>(
                    obsolete,
                ),
        {
            match self.reset_step_exec(controls, older, i) {
                Err(e) => {
                    proof {
                        assert(reset_scan(m, c, older, i as int + 1) == Err::<
                            Option<ControlError>,
                            ControlError,
                        >(e));
                        lemma_scan_err_sticky(m, c, older, i as int + 1, n as int, e);
                    }
                    return Err(e);
                },
                Ok(Some(o)) => {
                    obsolete = Some(o);
                },
                Ok(None) => {},
            }
        }
        if let Some(o) = obsolete {
            return Err(o);
        }
        let mut replace = false;
        if n > 0 {
            let group = controls[0].reset.context.group;
            for j in 0..self.members.len()
                invariant
                    m == self@,
                    n > 0,
                    group == c[0].reset.context.group,
                    !replace ==> forall|k: int| 0 <= k < j ==> #[trigger] m[k].context.group == group,
                    replace ==> exists|k: int|
                        0 <= k < m.len() && #[trigger] m[k].context.group != group,
            {
                if self.members[j].context.group != group {
                    replace = true;
                }
            }
        }
        let mut next: Vec<MemberControl> = Vec::new();
        if !replace {
            for j in 0..self.members.len()
                invariant
                    m == self@,
                    next@ == m.take(j as int),
            {
                next.push(self.members[j]);
                assert(next@ =~= m.take(j + 1));
            }
            assert(next@ =~= m);
        }
        let ghost base = reset_base(m, c);
        assert(next@ == base);
        for i in 0..n
            invariant
                n == c.len(),
                c == controls@,
                m == self@,
                self.wf(),
                stage_fits(m.len() as int, usage, limits),
                reset_scan(m, c, older_group_known(m, c, limits.owner_group), n as int) == Ok::<
                    Option<ControlError>,
                    ControlError,
                >(None),
                base == reset_base(m, c),
                members_sorted(next@),
                apply_resets_spec(base, c, limits.members, i as int) == Ok::<
                    Seq<MemberControl>,
                    ControlError,
                >(next@),
        {
            let r = controls[i].reset;
            let e = r.context.scope.entity;
            match find_in(&next, e) {
                Some(k) => {
                    let mut member = next[k];
                    if member.generation != r.generation {
                        member.retirement = None;
                    }
                    member.generation = r.generation;
                    let ghost before = next@;
                    next.set(k, member);
                    proof {
                        assert forall|a: int, b: int| 0 <= a < b < next@.len() implies entity_lt(
                            entity_of(#[trigger] next@[a]),
                            entity_of(#[trigger] next@[b]),
                        ) by {
                            assert(entity_of(next@[a]) == entity_of(before[a]));
                            assert(entity_of(next@[b]) == entity_of(before[b]));
                        }
                    }
                },
                None => {
                    if next.len() >= limits.members {
                        proof {
                            lemma_apply_err_sticky(
                                base,
                                c,
                                limits.members,
                                i as int + 1,
                                n as int,
                                ControlError::Capacity,
                            );
                        }
                        return Err(ControlError::Capacity);
                    }
                    let member = MemberControl {
                        context: r.context,
                        generation: r.generation,
                        retirement: None,
                    };
                    let p = insert_position_in(&next, e);
                    proof {
                        lemma_insert_pos(next@, e);
                        lemma_sorted_insert(next@, member);
                    }
                    next.insert(p, member);
                },
            }
        }
        self.members = next;
        Ok(())
    }

    fn fence_check_exec(controls: &Vec<RetirementControl>, owner_group: u64, i: usize) -> (result:
        Option<ControlError>)
        requires
            i < controls@.len(),
        ensures
            result == fence_check(controls@, owner_group, i as int),
    {
        let c = controls[i];
        let f = c.fence;
        let first = controls[0].fence.context;
        if c.refused.is_some() {
            return c.refused;
        }
        if f.through == 0 {
            return Some(ControlError::InvalidIdentity);
        }
        let e = f.context.scope.entity;
        let mut j: usize = 0;
        while j < i
            invariant
                i < controls@.len(),
                j <= i,
                e == controls@[i as int].fence.context.scope.entity,
                controls@[i as int].refused is None,
                controls@[i as int].fence.through != 0,
                forall|k: int| 0 <= k < j ==> #[trigger] controls@[k].fence.context.scope.entity != e,
            decreases i - j,
        {
            if controls[j].fence.context.scope.entity == e {
                assert(controls@[j as int].fence.context.scope.entity == e);
                return Some(ControlError::InvalidIdentity);
            }
            j = j + 1;
        }
        let in_owner_group = match f.context.group {
            Some(g) => g.group == owner_group,
            None => false,
        };
        if f.context.group != first.group || f.context.scope.connection != first.scope.connection
            || f.context.schema != 1 || !in_owner_group {
            return Some(ControlError::Conflict);
        }
        None
    }

    fn older_retirement_exec(&self, first: BaselineContext) -> (result: bool)
        ensures
            result == older_retirement_group(self@, first),
    {
        let n = self.members.len();
        for k in 0..n
            invariant
                n == self@.len(),
                forall|j: int|
                    0 <= j < k ==> !(self@[j].context.scope.connection == first.scope.connection && (
                    #[trigger] self@[j].context.group matches Some(current) && first.group matches Some(
                        incoming,
                    ) && current.group == incoming.group && incoming.revision < current.revision)),
        {
            let m = self.members[k];
            if m.context.scope.connection == first.scope.connection {
                if let (Some(current), Some(incoming)) = (m.context.group, first.group) {
                    if current.group == incoming.group && incoming.revision < current.revision {
                        assert(self@[k as int].context.group matches Some(current));
                        return true;
                    }
                }
            }
        }
        false
    }

    fn ack_step_exec(&self, controls: &Vec<RetirementControl>, older: bool, i: usize) -> (result:
        Result<Option<ControlError>, ControlError>)
        requires
            i < controls@.len(),
        ensures
            result == ack_step(self@, controls@, older, i as int),
    {
        let c = controls[i];
        let f = c.fence;
        match find_in(&self.members, f.context.scope.entity) {
            None => match c.known {
                None => Err(ControlError::Unknown),
                Some(k) => {
                    if !covers(&k, &f.context.scope) {
                        Err(ControlError::Conflict)
                    } else if !older {
                        Err(ControlError::Unknown)
                    } else {
                        Ok(Some(ControlError::Obsolete(ObsoleteReason::Publication)))
                    }
                },
            },
            Some(x) => {
                let member = self.members[x];
                let admitted = match c.refused {
                    Some(e) => Err(e),
                    None => Ok(()),
                };
                match control_context(
                    &member.context,
                    member.generation,
                    &f.context,
                    f.generation,
                    false,
                    admitted,
                ) {
                    Err(ControlError::Obsolete(r)) => Ok(Some(ControlError::Obsolete(r))),
                    Err(e) => Err(e),
                    Ok(_) => Ok(None),
                }
            },
        }
    }

    /// Applies the server's acknowledgements of proposed retirements, all
    /// or nothing. The whole batch is checked on its own before any member
    /// serves as evidence of age; then a hard error wins over old traffic,
    /// and old traffic refuses the batch. An accepted acknowledgement
    /// releases its member's matching retirement promise. The members'
    /// caches retire alike by the caller once the batch is accepted.
    pub fn acknowledge_retirements(
        &mut self,
        controls: &Vec<RetirementControl>,
        usage: CacheUsage,
        limits: OwnerLimits,
    ) -> (result: Result<(), RetirementRejection>)
        requires
            old(self).wf(),
            usage.retained <= (usize::MAX - STAGING_SCRATCH) / 2,
        ensures
            final(self).wf(),
            match retirements_outcome(old(self)@, controls@, usage, limits) {
                Err(e) => result == Err::<(), RetirementRejection>(e) && final(self)@ == old(self)@,
                Ok(next) => result == Ok::<(), RetirementRejection>(()) && final(self)@ == next,
            },
    {
        let n = controls.len();
        if n == 0 || n > limits.members {
            return Err(RetirementRejection { error: ControlError::InvalidIdentity, fence: None });
        }
        let ghost m = self@;
        let ghost c = controls@;
        for i in 0..n
            invariant
                n == c.len(),
                c == controls@,
                m == self@,
                self.wf(),
                0 < n <= limits.members,
                first_invalid(c, limits.owner_group, i as int) is None,
        {
            if let Some(error) = Self::fence_check_exec(controls, limits.owner_group, i) {
                proof {
                    assert(first_invalid(c, limits.owner_group, i as int + 1) == Some(i as int));
                    lemma_first_invalid_sticky(c, limits.owner_group, i as int + 1, n as int);
                }
                return Err(RetirementRejection { error, fence: Some(controls[i].fence) });
            }
        }
        proof {
            lemma_first_invalid(c, limits.owner_group, n as int);
        }
        let older = self.older_retirement_exec(controls[0].fence.context);
        if self.members.len() > limits.members || usage.retained * 2 + STAGING_SCRATCH
            > limits.peak_bytes || usage.resident > limits.resident_bytes {
            return Err(RetirementRejection { error: ControlError::Capacity, fence: None });
        }
        let mut obsolete: Option<(ControlError, usize)> = None;
        for i in 0..n
            invariant
                n == c.len(),
                c == controls@,
                m == self@,
                self.wf(),
                0 < n <= limits.members,
                first_invalid(c, limits.owner_group, n as int) is None,
                stage_fits(m.len() as int, usage, limits),
                older == older_retirement_group(m, c[0].fence.context),
                ack_scan(m, c, older, i as int) == match obsolete {
                    Some((e, j)) => Ok::<Option<(ControlError, int)>, (ControlError, int)>(
                        Some((e, j as int)),
                    ),
                    None => Ok::<Option<(ControlError, int)>, (ControlError, int)>(None),
                },
                obsolete matches Some((e, j)) ==> j < n,
        {
            match self.ack_step_exec(controls, older, i) {
                Err(e) => {
                    proof {
                        assert(ack_scan(m, c, older, i as int + 1) == Err::<
                            Option<(ControlError, int)>,
                            (ControlError, int),
                        >((e, i as int)));
                        lemma_ack_err_sticky(m, c, older, i as int + 1, n as int, (e, i as int));
                    }
                    return Err(RetirementRejection { error: e, fence: Some(controls[i].fence) });
                },
                Ok(Some(o)) => {
                    obsolete = Some((o, i));
                },
                Ok(None) => {},
            }
        }
        if let Some((e, j)) = obsolete {
            return Err(RetirementRejection { error: e, fence: Some(controls[j].fence) });
        }
        let mut next: Vec<MemberControl> = Vec::new();
        for k in 0..self.members.len()
            invariant
                m == self@,
                next@ == m.take(k as int),
        {
            next.push(self.members[k]);
            assert(next@ =~= m.take(k + 1));
        }
        assert(next@ =~= m);
        assert(released(m, c, 0) =~= m);
        for i in 0..n
            invariant
                n == c.len(),
                c == controls@,
                m == self@,
                self.wf(),
                first_invalid(c, limits.owner_group, n as int) is None,
                forall|j: int| 0 <= j < n ==> #[trigger] fence_check(c, limits.owner_group, j) is None,
                next@ == released(m, c, i as int),
        {
            let f = controls[i].fence;
            let e = f.context.scope.entity;
            match find_in(&next, e) {
                Some(x) => {
                    let member = next[x];
                    let waiting = match member.retirement {
                        Some(r) => r == f,
                        None => false,
                    };
                    proof {
                        assert(fence_check(c, limits.owner_group, i as int) is None);
                        assert forall|j: int| 0 <= j < i implies #[trigger] c[j].fence.context.scope.entity != e by {
                            assert(fence_check(c, limits.owner_group, i as int) is None);
                        }
                    }
                    if waiting {
                        next.set(x, MemberControl { retirement: None, ..member });
                    }
                    proof {
                        assert forall|k: int| 0 <= k < m.len() implies #[trigger] next@[k]
                            == released(m, c, i as int + 1)[k] by {
                            if k == x as int {
                                if waiting {
                                    assert(acknowledged(m[k], c, i as int + 1));
                                } else {
                                    if acknowledged(m[k], c, i as int + 1) {
                                        let w = choose|w: int|
                                            0 <= w < i + 1 && entity_of(m[k])
                                                == c[w].fence.context.scope.entity
                                                && m[k].retirement == Some(#[trigger] c[w].fence);
                                        assert(w != i as int);
                                    }
                                }
                            } else {
                                assert(entity_of(m[k]) != e) by {
                                    assert(members_sorted(m));
                                    if k < x as int {
                                        assert(entity_lt(entity_of(m[k]), entity_of(m[x as int])));
                                    } else {
                                        assert(entity_lt(entity_of(m[x as int]), entity_of(m[k])));
                                    }
                                }
                                if acknowledged(m[k], c, i as int + 1) {
                                    let w = choose|w: int|
                                        0 <= w < i + 1 && entity_of(m[k])
                                            == c[w].fence.context.scope.entity && m[k].retirement
                                            == Some(#[trigger] c[w].fence);
                                    assert(w != i as int);
                                    assert(acknowledged(m[k], c, i as int));
                                }
                            }
                        }
                        assert(next@ =~= released(m, c, i as int + 1));
                    }
                },
                None => {
                    proof {
                        lemma_find_member(next@, e);
                        assert forall|k: int| 0 <= k < m.len() implies #[trigger] next@[k]
                            == released(m, c, i as int + 1)[k] by {
                            assert(entity_of(next@[k]) == entity_of(m[k]));
                            if acknowledged(m[k], c, i as int + 1) {
                                let w = choose|w: int|
                                    0 <= w < i + 1 && entity_of(m[k])
                                        == c[w].fence.context.scope.entity && m[k].retirement
                                        == Some(#[trigger] c[w].fence);
                                assert(w != i as int);
                                assert(acknowledged(m[k], c, i as int));
                            }
                        }
                        assert(next@ =~= released(m, c, i as int + 1));
                    }
                },
            }
        }
        self.members = next;
        Ok(())
    }

    /// The members' entities, in order.
    pub fn entities(&self) -> (result: Vec<EntityId>)
        ensures
            result@.len() == self@.len(),
            forall|k: int| 0 <= k < self@.len() ==> result@[k] == entity_of(#[trigger] self@[k]),
    {
        let mut out: Vec<EntityId> = Vec::new();
        for k in 0..self.members.len()
            invariant
                out@.len() == k,
                forall|j: int| 0 <= j < k ==> out@[j] == entity_of(#[trigger] self@[j]),
        {
            out.push(self.members[k].context.scope.entity);
        }
        out
    }

    /// Proposes retiring a member's decoded baselines up to, but not
    /// including, its latest decoded snapshot. `retained_states` and
    /// `latest` describe the member's cache. A member with a request still
    /// in flight, fewer than two retained states, or nothing to retire
    /// proposes nothing; a cache with states but no current one is refused.
    pub fn propose_retirement(
        &mut self,
        entity: EntityId,
        retained_states: usize,
        latest: Option<u64>,
    ) -> (result: Result<Option<RetirementFence>, ControlError>)
        requires
            old(self).wf(),
        ensures
            final(self).wf(),
            match find_member(old(self)@, entity) {
                None => result == Ok::<Option<RetirementFence>, ControlError>(None) && final(self)@
                    == old(self)@,
                Some(k) => {
                    &&& result == proposal_spec(old(self)@[k], retained_states, latest)
                    &&& final(self)@ == match result {
                        Ok(Some(fence)) => old(self)@.update(
                            k,
                            MemberControl { retirement: Some(fence), ..old(self)@[k] },
                        ),
                        _ => old(self)@,
                    }
                },
            },
    {
        let k = match find_in(&self.members, entity) {
            Some(k) => k,
            None => return Ok(None),
        };
        let member = self.members[k];
        if member.retirement.is_some() || retained_states < 2 {
            return Ok(None);
        }
        let latest = match latest {
            Some(l) => l,
            None => return Err(ControlError::Unknown),
        };
        if latest <= 1 {
            return Ok(None);
        }
        let fence = RetirementFence {
            context: member.context,
            generation: member.generation,
            through: latest - 1,
        };
        let ghost before = self.members@;
        self.members.set(k, MemberControl { retirement: Some(fence), ..member });
        proof {
            assert forall|a: int, b: int| 0 <= a < b < self.members@.len() implies entity_lt(
                entity_of(#[trigger] self.members@[a]),
                entity_of(#[trigger] self.members@[b]),
            ) by {
                assert(entity_of(self.members@[a]) == entity_of(before[a]));
                assert(entity_of(self.members@[b]) == entity_of(before[b]));
            }
        }
        Ok(Some(fence))
    }

    /// Keeps a complete full seed that the game may still refuse: a full
    /// state for the member's own context that is not an ordinary advance,
    /// because its generation differs or its snapshot is no newer than the
    /// member's `current` decoded one.
    pub fn rejected_full_seed(
        &self,
        context: BaselineContext,
        generation: u64,
        snapshot: u64,
        full: bool,
        bytes: &Vec<u8>,
        current: Option<u64>,
    ) -> (result: Option<Vec<u8>>)
        ensures
            ({
                let keep = match find_member(self@, context.scope.entity) {
                    Some(k) => self@[k].context == context && (self@[k].generation != generation
                        || (current matches Some(c) && snapshot <= c)) && full,
                    None => false,
                };
                if keep {
                    result matches Some(b) && b@ == bytes@
                } else {
                    result is None
                }
            }),
    {
        let k = match find_in(&self.members, context.scope.entity) {
            Some(k) => k,
            None => return None,
        };
        let member = self.members[k];
        let older = match current {
            Some(c) => snapshot <= c,
            None => false,
        };
        if member.context == context && (member.generation != generation || older) && full {
            Some(crate::outcomes::copy_bytes(bytes))
        } else {
            None
        }
    }

    /// Makes room for a public state of `context`: a member of another
    /// context is replaced, and a new member needs a full state and room in
    /// the group. The member's cache then decodes the state.
    pub fn admit_member(&mut self, context: BaselineContext, generation: u64, full: bool, limits: OwnerLimits) -> (result: Result<(), ControlError>)
        requires
            old(self).wf(),
        ensures
            final(self).wf(),
            ({
                let e = context.scope.entity;
                let kept = match find_member(old(self)@, e) {
                    Some(k) => if old(self)@[k].context == context {
                        old(self)@
                    } else {
                        old(self)@.remove(k)
                    },
                    None => old(self)@,
                };
                if find_member(kept, e) is Some {
                    result == Ok::<(), ControlError>(()) && final(self)@ == kept
                } else if kept.len() >= limits.members || !full {
                    result == Err::<(), ControlError>(ControlError::InvalidIdentity) && final(self)@
                        == kept
                } else {
                    result == Ok::<(), ControlError>(()) && final(self)@ == kept.insert(
                        insert_pos(kept, e),
                        MemberControl { context, generation, retirement: None },
                    )
                }
            }),
    {
        let e = context.scope.entity;
        if let Some(k) = find_in(&self.members, e) {
            if self.members[k].context == context {
                return Ok(());
            }
            self.revoke(e);
        }
        proof {
            lemma_find_member(self.members@, e);
        }
        if self.members.len() >= limits.members || !full {
            return Err(ControlError::InvalidIdentity);
        }
        let member = MemberControl { context, generation, retirement: None };
        let p = insert_position_in(&self.members, e);
        proof {
            lemma_insert_pos(self.members@, e);
            lemma_sorted_insert(self.members@, member);
        }
        self.members.insert(p, member);
        Ok(())
    }

    /// Forgets a member whose scope was revoked.
    pub fn revoke(&mut self, entity: EntityId)
        requires
            old(self).wf(),
        ensures
            final(self).wf(),
            match find_member(old(self)@, entity) {
                Some(i) => final(self)@ == old(self)@.remove(i),
                None => final(self)@ == old(self)@,
            },
    {
        if let Some(i) = find_in(&self.members, entity) {
            let ghost s = self.members@;
            self.members.remove(i);
            proof {
                let t = self.members@;
                assert forall|a: int, b: int| 0 <= a < b < t.len() implies entity_lt(
                    entity_of(#[trigger] t[a]),
                    entity_of(#[trigger] t[b]),
                ) by {
                    let a2 = if a < i { a } else { a + 1 };
                    let b2 = if b < i { b } else { b + 1 };
                    assert(t[a] == s[a2] && t[b] == s[b2]);
                }
            }
        }
    }
}

// ---------------------------------------------------------------- laws

/// A baseline generation moves only by reset, and only to the next one:
/// at the member's own scope and publication, an acknowledgement must name
/// the current generation, and a reset the current or the next one.
pub proof fn law_generation_moves_only_by_reset(
    current: BaselineContext,
    current_generation: u64,
    generation: u64,
    reset: bool,
)
    ensures
        control_context_spec(current, current_generation, current, generation, reset, Ok(())) is Ok
            <==> (generation == current_generation || (reset && generation == current_generation
            + 1)),
{
}

/// Old traffic is old: a control called obsolete names an older scope, an
/// older publication or a retired generation.
pub proof fn law_obsolete_controls_are_older(
    current: BaselineContext,
    current_generation: u64,
    context: BaselineContext,
    generation: u64,
    reset: bool,
)
    ensures
        is_obsolete(
            control_context_spec(current, current_generation, context, generation, reset, Ok(())),
        ) ==> context.scope.scope < current.scope.scope || revision(context.group) < revision(
            current.group,
        ) || generation < current_generation,
{
}

/// A reset batch is refused as old traffic only when none of its resets
/// is a hard error.
pub proof fn law_reset_hard_errors_win(m: Seq<MemberControl>, c: Seq<ResetControl>, older: bool, n: int)
    requires
        0 <= n,
        reset_scan(m, c, older, n) matches Ok(Some(_)),
    ensures
        forall|j: int| 0 <= j < n ==> #[trigger] reset_step(m, c, older, j) is Ok,
    decreases n,
{
    if n > 0 {
        if reset_scan(m, c, older, n - 1) matches Ok(Some(_)) {
            law_reset_hard_errors_win(m, c, older, n - 1);
        } else {
            lemma_reset_scan_clean(m, c, older, n - 1);
        }
    }
}

proof fn lemma_reset_scan_clean(m: Seq<MemberControl>, c: Seq<ResetControl>, older: bool, n: int)
    requires
        0 <= n,
        reset_scan(m, c, older, n) is Ok,
    ensures
        forall|j: int| 0 <= j < n ==> #[trigger] reset_step(m, c, older, j) is Ok,
    decreases n,
{
    if n > 0 {
        lemma_reset_scan_clean(m, c, older, n - 1);
    }
}

/// A retirement batch is refused as old traffic only when none of its
/// acknowledgements is a hard error.
pub proof fn law_retirement_hard_errors_win(
    m: Seq<MemberControl>,
    c: Seq<RetirementControl>,
    older: bool,
    n: int,
)
    requires
        0 <= n,
        ack_scan(m, c, older, n) matches Ok(Some(_)),
    ensures
        forall|j: int| 0 <= j < n ==> #[trigger] ack_step(m, c, older, j) is Ok,
    decreases n,
{
    lemma_ack_scan_clean(m, c, older, n);
}

proof fn lemma_ack_scan_clean(m: Seq<MemberControl>, c: Seq<RetirementControl>, older: bool, n: int)
    requires
        0 <= n,
        ack_scan(m, c, older, n) is Ok,
    ensures
        forall|j: int| 0 <= j < n ==> #[trigger] ack_step(m, c, older, j) is Ok,
    decreases n,
{
    if n > 0 {
        lemma_ack_scan_clean(m, c, older, n - 1);
    }
}

/// A reset at the member's current generation keeps its outstanding
/// retirement promise; one that changes the generation drops it.
pub proof fn law_duplicate_reset_keeps_retirement(t: Seq<MemberControl>, r: BaselineReset, limit: usize)
    requires
        find_member(t, r.context.scope.entity) is Some,
    ensures
        ({
            let k = find_member(t, r.context.scope.entity)->0;
            apply_reset_spec(t, r, limit) matches Ok(u) && u[k].generation == r.generation
                && u[k].retirement == if t[k].generation == r.generation {
                t[k].retirement
            } else {
                None
            }
        }),
{
    lemma_find_member(t, r.context.scope.entity);
}

/// A proposed retirement never reaches the latest decoded snapshot, and a
/// member never has two retirements in flight.
pub proof fn law_retirement_keeps_latest(mk: MemberControl, retained: usize, latest: Option<u64>)
    ensures
        proposal_spec(mk, retained, latest) matches Ok(Some(f)) ==> (latest matches Some(l) && 1
            <= f.through < l),
        mk.retirement is Some ==> proposal_spec(mk, retained, latest) == Ok::<
            Option<RetirementFence>,
            ControlError,
        >(None),
{
}

/// In sorted members, an entity's member is found at its own position.
pub proof fn lemma_find_sorted(s: Seq<MemberControl>, k: int)
    requires
        members_sorted(s),
        0 <= k < s.len(),
    ensures
        find_member(s, entity_of(s[k])) == Some(k),
{
    lemma_find_member(s, entity_of(s[k]));
    match find_member(s, entity_of(s[k])) {
        Some(i) => {
            if i < k {
                assert(entity_lt(entity_of(s[i]), entity_of(s[k])));
            }
        },
        None => {
            assert(entity_of(s[k]) != entity_of(s[k]));
        },
    }
}

/// The server's acknowledgement of a member's proposed retirement releases
/// that promise and changes nothing else.
pub proof fn law_acknowledgement_releases_proposal(
    m: Seq<MemberControl>,
    k: int,
    retained: usize,
    latest: Option<u64>,
    known: Option<ScopeFence>,
    usage: CacheUsage,
    limits: OwnerLimits,
)
    requires
        members_sorted(m),
        0 <= k < m.len(),
        proposal_spec(m[k], retained, latest) is Ok,
        proposal_spec(m[k], retained, latest)->Ok_0 is Some,
        m[k].context.schema == 1,
        m[k].context.group matches Some(g) && g.group == limits.owner_group,
        limits.members >= 1,
        stage_fits(m.len() as int, usage, limits),
    ensures
        ({
            let f = proposal_spec(m[k], retained, latest)->Ok_0->0;
            let proposed = m.update(k, MemberControl { retirement: Some(f), ..m[k] });
            let c = seq![RetirementControl { fence: f, refused: None, known }];
            retirements_outcome(proposed, c, usage, limits) == Ok::<
                Seq<MemberControl>,
                RetirementRejection,
            >(m.update(k, MemberControl { retirement: None, ..m[k] }))
        }),
{
    let f = proposal_spec(m[k], retained, latest)->Ok_0->0;
    let proposed = m.update(k, MemberControl { retirement: Some(f), ..m[k] });
    let c = seq![RetirementControl { fence: f, refused: None, known }];
    assert(members_sorted(proposed)) by {
        assert forall|a: int, b: int| 0 <= a < b < proposed.len() implies entity_lt(
            entity_of(#[trigger] proposed[a]),
            entity_of(#[trigger] proposed[b]),
        ) by {
            assert(entity_of(proposed[a]) == entity_of(m[a]));
            assert(entity_of(proposed[b]) == entity_of(m[b]));
        }
    }
    assert(fence_check(c, limits.owner_group, 0) is None);
    assert(first_invalid(c, limits.owner_group, 0) is None);
    assert(first_invalid(c, limits.owner_group, 1) is None);
    lemma_find_sorted(proposed, k);
    assert(entity_of(proposed[k]) == f.context.scope.entity);
    let older = older_retirement_group(proposed, c[0].fence.context);
    assert(ack_step(proposed, c, older, 0) == Ok::<Option<ControlError>, ControlError>(None));
    assert(ack_scan(proposed, c, older, 0) == Ok::<Option<(ControlError, int)>, (ControlError, int)>(
        None,
    ));
    assert(ack_scan(proposed, c, older_retirement_group(proposed, c[0].fence.context), 1)
        == Ok::<Option<(ControlError, int)>, (ControlError, int)>(None));
    let expected = m.update(k, MemberControl { retirement: None, ..m[k] });
    let got = released(proposed, c, 1);
    assert forall|j: int| 0 <= j < m.len() implies #[trigger] got[j] == expected[j] by {
        if j == k {
            assert(acknowledged(proposed[j], c, 1)) by {
                assert(c[0].fence == f);
            }
        } else {
            if acknowledged(proposed[j], c, 1) {
                assert(entity_of(proposed[j]) == c[0].fence.context.scope.entity);
                if j < k {
                    assert(entity_lt(entity_of(proposed[j]), entity_of(proposed[k])));
                } else {
                    assert(entity_lt(entity_of(proposed[k]), entity_of(proposed[j])));
                }
            }
        }
    }
    assert(got =~= expected);
}

} // verus!
