//! Bookkeeping of the predicted presentation journal: bounded cue counters
//! and how far the journal's command identities may be retired.
use vstd::prelude::*;
use crate::ids::sat_sub;

verus! {

/// Each cue counter stops at this many cues.
pub const CUE_CAPACITY: u16 = 256;

/// A presentation event the journal created.
#[derive(Clone, Copy, Debug, PartialEq, Eq, Structural)]
pub enum CreatedEvent {
    CastSound,
    CastCamera,
    /// A projectile or reserved simulation object; not counted.
    Object,
}

/// Too many cues of one kind.
#[derive(Clone, Copy, Debug, PartialEq, Eq, Structural)]
pub enum CueError {
    Capacity,
}

impl CueError {
    pub fn message(&self) -> (result: &'static str)
        ensures
            result@ == match *self {
                CueError::Capacity => "presentation cue capacity"@,
            },
    {
        "presentation cue capacity"
    }
}

/// How many cast sounds and camera cues were presented.
#[derive(Clone, Copy, Debug, PartialEq, Eq, Structural)]
pub struct CueCounters {
    pub sounds: u16,
    pub camera_cues: u16,
}

/// The counters after one created event, or `None` past capacity.
pub open spec fn count_one(c: CueCounters, e: CreatedEvent) -> Option<CueCounters> {
    match e {
        CreatedEvent::CastSound => if c.sounds + 1 <= CUE_CAPACITY {
            Some(CueCounters { sounds: (c.sounds + 1) as u16, ..c })
        } else {
            None
        },
        CreatedEvent::CastCamera => if c.camera_cues + 1 <= CUE_CAPACITY {
            Some(CueCounters { camera_cues: (c.camera_cues + 1) as u16, ..c })
        } else {
            None
        },
        CreatedEvent::Object => Some(c),
    }
}

/// The counters after the first `n` created events, and whether all of
/// them fit; counting stops at the first event past capacity.
pub open spec fn count_all(c: CueCounters, s: Seq<CreatedEvent>, n: int) -> (CueCounters, bool)
    decreases n,
{
    if n <= 0 {
        (c, true)
    } else {
        let (prev, ok) = count_all(c, s, n - 1);
        if !ok {
            (prev, false)
        } else {
            match count_one(prev, s[n - 1]) {
                Some(next) => (next, true),
                None => (prev, false),
            }
        }
    }
}

impl CueCounters {
    /// Neither counter is past capacity.
    pub open spec fn wf(&self) -> bool {
        self.sounds <= CUE_CAPACITY && self.camera_cues <= CUE_CAPACITY
    }

    /// No cue presented yet.
    pub fn new() -> (result: CueCounters)
        ensures
            result.wf(),
            result == (CueCounters { sounds: 0, camera_cues: 0 }),
    {
        CueCounters { sounds: 0, camera_cues: 0 }
    }

    /// Counts the cues among the journal's created events, in order. The
    /// first cue past capacity fails; the ones before it stay counted.
    pub fn count(&mut self, created: &Vec<CreatedEvent>) -> (result: Result<(), CueError>)
        requires
            old(self).wf(),
        ensures
            final(self).wf(),
            *final(self) == count_all(*old(self), created@, created@.len() as int).0,
            result is Ok <==> count_all(*old(self), created@, created@.len() as int).1,
            result is Err ==> result == Err::<(), CueError>(CueError::Capacity),
    {
        let ghost start = *self;
        let n = created.len();
        for i in 0..n
            invariant
                n == created@.len(),
                start == *old(self),
                self.wf(),
                count_all(start, created@, i as int) == (*self, true),
        {
            match created[i] {
                CreatedEvent::CastSound => {
                    if self.sounds >= CUE_CAPACITY {
                        proof {
                            lemma_count_fails_sticky(start, created@, i as int + 1, n as int);
                        }
                        return Err(CueError::Capacity);
                    }
                    self.sounds = self.sounds + 1;
                },
                CreatedEvent::CastCamera => {
                    if self.camera_cues >= CUE_CAPACITY {
                        proof {
                            lemma_count_fails_sticky(start, created@, i as int + 1, n as int);
                        }
                        return Err(CueError::Capacity);
                    }
                    self.camera_cues = self.camera_cues + 1;
                },
                CreatedEvent::Object => {},
            }
        }
        Ok(())
    }
}

proof fn lemma_count_fails_sticky(c: CueCounters, s: Seq<CreatedEvent>, i: int, n: int)
    requires
        0 <= i <= n,
        !count_all(c, s, i).1,
    ensures
        count_all(c, s, n) == count_all(c, s, i),
    decreases n - i,
{
    if i < n {
        lemma_count_fails_sticky(c, s, i, n - 1);
    }
}

/// What retirement reads of one journal entry: whether it is still live,
/// its origin tick and the command sequence of its action.
#[derive(Clone, Copy, Debug, PartialEq, Eq, Structural)]
pub struct JournalEntry {
    pub live: bool,
    pub origin: u64,
    pub command: u64,
}

pub open spec fn min_opt(a: Option<u64>, b: u64) -> Option<u64> {
    match a {
        Some(x) => Some(if x <= b { x } else { b }),
        None => Some(b),
    }
}

pub open spec fn max_opt(a: Option<u64>, b: u64) -> Option<u64> {
    match a {
        Some(x) => Some(if x >= b { x } else { b }),
        None => Some(b),
    }
}

/// Whether `m` is the oldest command among the live entries.
pub open spec fn is_live_head(s: Seq<JournalEntry>, m: u64) -> bool {
    &&& exists|i: int| 0 <= i < s.len() && (#[trigger] s[i]).live && s[i].command == m
    &&& forall|i: int| 0 <= i < s.len() && (#[trigger] s[i]).live ==> m <= s[i].command
}

/// The oldest command among the live entries; `None` without a live entry.
pub open spec fn live_head(s: Seq<JournalEntry>) -> Option<u64> {
    if exists|m: u64| is_live_head(s, m) {
        Some(choose|m: u64| is_live_head(s, m))
    } else {
        None
    }
}

/// Whether a settled entry older than the replay window may be retired
/// below the live head.
pub open spec fn retirable(e: JournalEntry, first: u64, head: Option<u64>) -> bool {
    &&& e.origin < first
    &&& !e.live
    &&& match head {
        Some(h) => e.command < h,
        None => true,
    }
}

/// Whether `m` is the newest retirable command.
pub open spec fn is_newest_retirable(s: Seq<JournalEntry>, first: u64, head: Option<u64>, m: u64) -> bool {
    &&& exists|i: int| 0 <= i < s.len() && retirable(#[trigger] s[i], first, head) && s[i].command == m
    &&& forall|i: int| 0 <= i < s.len() && retirable(#[trigger] s[i], first, head) ==> s[i].command <= m
}

/// The newest retirable command; `None` when none is retirable.
pub open spec fn newest_retirable(s: Seq<JournalEntry>, first: u64, head: Option<u64>) -> Option<u64> {
    if exists|m: u64| is_newest_retirable(s, first, head, m) {
        Some(choose|m: u64| is_newest_retirable(s, first, head, m))
    } else {
        None
    }
}

/// How far the journal retires command identities after a publication
/// whose replay window starts at `first`: through the newest settled
/// command older than the window, and through the command before the
/// oldest retained input command, but never up to a live entry's command,
/// and only beyond what is already retired.
pub open spec fn retire_spec(
    s: Seq<JournalEntry>,
    first: u64,
    retained_head: Option<u64>,
    retired_through: u64,
) -> Option<u64> {
    let head = live_head(s);
    let settled = newest_retirable(s, first, head);
    let floor = match retained_head {
        Some(h) => match head {
            Some(l) => Some(
                if sat_sub(h, 1) <= sat_sub(l, 1) {
                    sat_sub(h, 1)
                } else {
                    sat_sub(l, 1)
                },
            ),
            None => Some(sat_sub(h, 1)),
        },
        None => None,
    };
    let candidate = match floor {
        Some(f) => max_opt(settled, f),
        None => settled,
    };
    match candidate {
        Some(r) => if r > retired_through {
            Some(r)
        } else {
            None
        },
        None => None,
    }
}

/// Computes the journal's new retirement bound, if it advances.
pub fn retire_target(
    entries: &Vec<JournalEntry>,
    first: u64,
    retained_head: Option<u64>,
    retired_through: u64,
) -> (result: Option<u64>)
    ensures
        result == retire_spec(entries@, first, retained_head, retired_through),
{
    let ghost s = entries@;
    let n = entries.len();
    let mut head: Option<u64> = None;
    for i in 0..n
        invariant
            n == s.len(),
            s == entries@,
            head matches Some(h) ==> {
                &&& exists|k: int| 0 <= k < i && (#[trigger] s[k]).live && s[k].command == h
                &&& forall|k: int| 0 <= k < i && (#[trigger] s[k]).live ==> h <= s[k].command
            },
            head is None ==> forall|k: int| 0 <= k < i ==> !(#[trigger] s[k]).live,
    {
        let e = entries[i];
        let ghost before = head;
        if e.live {
            head = Some(
                match head {
                    Some(x) => if x <= e.command {
                        x
                    } else {
                        e.command
                    },
                    None => e.command,
                },
            );
        }
        proof {
            assert(s[i as int] == e);
            if let Some(h) = head {
                if before == Some(h) {
                    let k = choose|k: int| 0 <= k < i && (#[trigger] s[k]).live && s[k].command == h;
                    assert(0 <= k < i + 1 && s[k].live && s[k].command == h);
                } else {
                    assert(0 <= i < i + 1 && s[i as int].live && s[i as int].command == h);
                }
            }
        }
    }
    proof {
        lemma_head_found(s, head);
    }
    let mut settled: Option<u64> = None;
    for i in 0..n
        invariant
            n == s.len(),
            s == entries@,
            head == live_head(s),
            settled matches Some(m) ==> {
                &&& exists|k: int| 0 <= k < i && retirable(#[trigger] s[k], first, head) && s[k].command == m
                &&& forall|k: int| 0 <= k < i && retirable(#[trigger] s[k], first, head) ==> s[k].command <= m
            },
            settled is None ==> forall|k: int| 0 <= k < i ==> !retirable(#[trigger] s[k], first, head),
    {
        let e = entries[i];
        let ghost before = settled;
        let below_head = match head {
            Some(h) => e.command < h,
            None => true,
        };
        if e.origin < first && !e.live && below_head {
            settled = Some(
                match settled {
                    Some(x) => if x >= e.command {
                        x
                    } else {
                        e.command
                    },
                    None => e.command,
                },
            );
        }
        proof {
            assert(s[i as int] == e);
            if let Some(m) = settled {
                if before == Some(m) {
                    let k = choose|k: int|
                        0 <= k < i && retirable(#[trigger] s[k], first, head) && s[k].command == m;
                    assert(0 <= k < i + 1 && retirable(s[k], first, head) && s[k].command == m);
                } else {
                    assert(0 <= i < i + 1 && retirable(s[i as int], first, head) && s[i as int].command == m);
                }
            }
        }
    }
    proof {
        lemma_newest_found(s, first, head, settled);
    }
    let floor = match retained_head {
        Some(h) => {
            let f = h.saturating_sub(1);
            match head {
                Some(l) => {
                    let g = l.saturating_sub(1);
                    Some(
                        if f <= g {
                            f
                        } else {
                            g
                        },
                    )
                },
                None => Some(f),
            }
        },
        None => None,
    };
    let candidate = match floor {
        Some(f) => Some(
            match settled {
                Some(x) => if x >= f {
                    x
                } else {
                    f
                },
                None => f,
            },
        ),
        None => settled,
    };
    match candidate {
        Some(r) => if r > retired_through {
            Some(r)
        } else {
            None
        },
        None => None,
    }
}

/// Ticks a presentation event stays live after its origin.
pub const EVENT_LIFETIME_TICKS: u64 = 154;

/// Ticks before the predicted tick that a publication replays.
pub const REPLAY_WINDOW_TICKS: u64 = 255;

/// The first tick a publication at predicted tick `now` replays.
pub fn replay_window_start(now: u64) -> (result: u64)
    ensures
        result == sat_sub(now, REPLAY_WINDOW_TICKS as u64),
{
    now.saturating_sub(REPLAY_WINDOW_TICKS as u64)
}

/// The origin a checkpoint object is published with: the origin the journal
/// already knows for it, else its cast cue's origin, else the publication's
/// tick; an object whose origin is before the replay window is not
/// published again.
pub open spec fn object_origin_spec(known: Option<u64>, cue: Option<u64>, now: u64, first: u64) -> Option<
    u64,
> {
    let origin = match known {
        Some(o) => o,
        None => match cue {
            Some(c) => c,
            None => now,
        },
    };
    if origin >= first {
        Some(origin)
    } else {
        None
    }
}

pub fn object_origin(known: Option<u64>, cue: Option<u64>, now: u64, first: u64) -> (result: Option<u64>)
    ensures
        result == object_origin_spec(known, cue, now, first),
{
    let origin = match known {
        Some(o) => o,
        None => match cue {
            Some(c) => c,
            None => now,
        },
    };
    if origin >= first {
        Some(origin)
    } else {
        None
    }
}

/// Whether a live cue from `origin` has completed its lifetime at `now`.
pub fn cue_completed(origin: u64, now: u64) -> (result: bool)
    ensures
        result == (origin + EVENT_LIFETIME_TICKS <= now),
{
    now >= EVENT_LIFETIME_TICKS && origin <= now - EVENT_LIFETIME_TICKS
}

/// The bookkeeping of one publication at predicted tick `predicted`, with
/// `has_state` telling whether the owner state exists: nothing happens
/// without both. Otherwise the cues among the journal's `created` events are
/// counted in order, a cue past capacity refusing the publication, and the
/// journal's new retirement bound is computed from its `entries` after those
/// changes, over the replay window that ends at the predicted tick. Counters
/// within capacity stay within it, and the bound only ever advances.
pub fn publish_bookkeeping(
    counters: &mut CueCounters,
    predicted: Option<u64>,
    has_state: bool,
    created: &Vec<CreatedEvent>,
    entries: &Vec<JournalEntry>,
    retained_head: Option<u64>,
    retired_through: u64,
) -> (result: Result<Option<u64>, CueError>)
    requires
        old(counters).wf(),
    ensures
        final(counters).wf(),
        (predicted is None || !has_state) ==> result == Ok::<Option<u64>, CueError>(None)
            && *final(counters) == *old(counters),
        predicted is Some && has_state ==> {
            let (c, ok) = count_all(*old(counters), created@, created@.len() as int);
            &&& *final(counters) == c
            &&& !ok ==> result == Err::<Option<u64>, CueError>(CueError::Capacity)
            &&& ok ==> result == Ok::<Option<u64>, CueError>(
                retire_spec(
                    entries@,
                    sat_sub(predicted->0, REPLAY_WINDOW_TICKS as u64),
                    retained_head,
                    retired_through,
                ),
            )
        },
        result matches Ok(Some(r)) ==> r > retired_through,
{
    let now = match predicted {
        Some(t) => t,
        None => return Ok(None),
    };
    if !has_state {
        return Ok(None);
    }
    counters.count(created)?;
    let first = replay_window_start(now);
    Ok(retire_target(entries, first, retained_head, retired_through))
}

/// An outcome for a command the journal already retired changes nothing.
pub fn outcome_is_retired(command: u64, retired_through: u64) -> (result: bool)
    ensures
        result == (command <= retired_through),
{
    command <= retired_through
}

// ---------------------------------------------------------------- laws

/// The head a scan found is the live head.
proof fn lemma_head_found(s: Seq<JournalEntry>, head: Option<u64>)
    requires
        head matches Some(h) ==> is_live_head(s, h),
        head is None ==> forall|k: int| 0 <= k < s.len() ==> !(#[trigger] s[k]).live,
    ensures
        head == live_head(s),
{
    if let Some(h) = head {
        let m = choose|m: u64| is_live_head(s, m);
        let i = choose|i: int| 0 <= i < s.len() && (#[trigger] s[i]).live && s[i].command == m;
        let j = choose|j: int| 0 <= j < s.len() && (#[trigger] s[j]).live && s[j].command == h;
        assert(h <= s[i].command && m <= s[j].command);
    } else {
        assert forall|m: u64| !is_live_head(s, m) by {
            if is_live_head(s, m) {
                let i = choose|i: int| 0 <= i < s.len() && (#[trigger] s[i]).live && s[i].command == m;
                assert(!s[i].live);
            }
        }
    }
}

/// The newest retirable command a scan found is the newest retirable one.
proof fn lemma_newest_found(s: Seq<JournalEntry>, first: u64, head: Option<u64>, found: Option<u64>)
    requires
        found matches Some(r) ==> is_newest_retirable(s, first, head, r),
        found is None ==> forall|k: int| 0 <= k < s.len() ==> !retirable(#[trigger] s[k], first, head),
    ensures
        found == newest_retirable(s, first, head),
{
    if let Some(r) = found {
        let m = choose|m: u64| is_newest_retirable(s, first, head, m);
        let i = choose|i: int| 0 <= i < s.len() && retirable(#[trigger] s[i], first, head) && s[i].command == m;
        let j = choose|j: int| 0 <= j < s.len() && retirable(#[trigger] s[j], first, head) && s[j].command == r;
        assert(s[i].command <= r && s[j].command <= m);
    } else {
        assert forall|m: u64| !is_newest_retirable(s, first, head, m) by {
            if is_newest_retirable(s, first, head, m) {
                let i = choose|i: int|
                    0 <= i < s.len() && retirable(#[trigger] s[i], first, head) && s[i].command == m;
                assert(!retirable(s[i], first, head));
            }
        }
    }
}

/// `m` is the oldest live command among the first `n` entries.
spec fn oldest_live_within(s: Seq<JournalEntry>, n: int, m: u64) -> bool {
    &&& exists|i: int| 0 <= i < n && (#[trigger] s[i]).live && s[i].command == m
    &&& forall|i: int| 0 <= i < n && (#[trigger] s[i]).live ==> m <= s[i].command
}

/// A journal with a live entry has a live head.
proof fn lemma_live_head_exists(s: Seq<JournalEntry>, n: int)
    requires
        0 <= n <= s.len(),
        exists|i: int| 0 <= i < n && (#[trigger] s[i]).live,
    ensures
        exists|m: u64| oldest_live_within(s, n, m),
    decreases n,
{
    if exists|i: int| 0 <= i < n - 1 && (#[trigger] s[i]).live {
        let p = n - 1;
        lemma_live_head_exists(s, p);
        let m = choose|m: u64| oldest_live_within(s, p, m);
        let k = choose|i: int| 0 <= i < n - 1 && (#[trigger] s[i]).live && s[i].command == m;
        if s[n - 1].live && s[n - 1].command < m {
            let c = s[n - 1].command;
            assert(0 <= n - 1 < n && s[n - 1].live && s[n - 1].command == c);
            assert forall|i: int| 0 <= i < n && (#[trigger] s[i]).live implies c <= s[i].command by {
                if i < n - 1 {
                    assert(m <= s[i].command);
                }
            }
            assert(oldest_live_within(s, n, c));
        } else {
            assert(0 <= k < n && s[k].live && s[k].command == m);
            assert forall|i: int| 0 <= i < n && (#[trigger] s[i]).live implies m <= s[i].command by {
                if i < n - 1 {
                    assert(m <= s[i].command);
                }
            }
            assert(oldest_live_within(s, n, m));
        }
    } else {
        let c = s[n - 1].command;
        assert(0 <= n - 1 < n && s[n - 1].live && s[n - 1].command == c);
        assert forall|i: int| 0 <= i < n && (#[trigger] s[i]).live implies c <= s[i].command by {
            assert(i == n - 1);
        }
        assert(oldest_live_within(s, n, c));
    }
}

proof fn lemma_live_head(s: Seq<JournalEntry>)
    ensures
        live_head(s) matches Some(h) ==> exists|i: int|
            0 <= i < s.len() && s[i].live && #[trigger] s[i].command == h,
        forall|i: int| 0 <= i < s.len() && s[i].live ==> (live_head(s) matches Some(h) && h
            <= #[trigger] s[i].command),
{
    if exists|i: int| 0 <= i < s.len() && (#[trigger] s[i]).live {
        let n = s.len() as int;
        lemma_live_head_exists(s, n);
        let w = choose|m: u64| oldest_live_within(s, n, m);
        assert(is_live_head(s, w));
        let m = choose|m: u64| is_live_head(s, m);
        assert(is_live_head(s, m));
        let i = choose|i: int| 0 <= i < s.len() && (#[trigger] s[i]).live && s[i].command == m;
        assert(s[i].command == m);
    }
}

proof fn lemma_newest_retirable(s: Seq<JournalEntry>, first: u64, head: Option<u64>)
    ensures
        newest_retirable(s, first, head) matches Some(r) ==> exists|i: int|
            0 <= i < s.len() && retirable(s[i], first, head) && #[trigger] s[i].command == r,
{
    if let Some(r) = newest_retirable(s, first, head) {
        let i = choose|i: int| 0 <= i < s.len() && retirable(#[trigger] s[i], first, head) && s[i].command == r;
        assert(s[i].command == r);
    }
}

/// Retirement never reaches a live entry's command, and only ever
/// advances.
pub proof fn law_retirement_stops_before_live_entries(
    s: Seq<JournalEntry>,
    first: u64,
    retained_head: Option<u64>,
    retired_through: u64,
)
    ensures
        retire_spec(s, first, retained_head, retired_through) matches Some(r) ==> {
            &&& r > retired_through
            &&& forall|i: int|
                0 <= i < s.len() && s[i].live ==> r <= sat_sub(#[trigger] s[i].command, 1)
        },
{
    lemma_live_head(s);
    lemma_newest_retirable(s, first, live_head(s));
}

/// Counters that start within capacity stay within it.
pub proof fn law_cue_counters_are_bounded(c: CueCounters, s: Seq<CreatedEvent>, n: int)
    requires
        c.sounds <= CUE_CAPACITY,
        c.camera_cues <= CUE_CAPACITY,
        0 <= n,
    ensures
        count_all(c, s, n).0.sounds <= CUE_CAPACITY,
        count_all(c, s, n).0.camera_cues <= CUE_CAPACITY,
    decreases n,
{
    if n > 0 {
        law_cue_counters_are_bounded(c, s, n - 1);
    }
}

} // verus!
