//! Server arrival feedback tunes command lead only from commands that were
//! issued under the current lead policy.
use vstd::prelude::*;
use std::collections::VecDeque;

verus! {

/// At most this many issued commands are remembered.
pub const ISSUANCE_HISTORY: usize = 256;

/// How one command was issued: `policy` names the lead policy it benefited
/// from, or is empty when it filled a target below the policy's first head.
#[derive(Clone, Copy, Debug, PartialEq, Eq, Structural)]
pub struct CommandIssuance {
    pub sequence: u64,
    pub target: u64,
    pub policy: Option<u64>,
    pub feedback_seen: bool,
}

/// The server's measurement of one command's arrival.
#[derive(Clone, Copy, Debug, PartialEq, Eq, Structural)]
pub struct ArrivalSample {
    pub sequence: u64,
    pub target: u64,
    pub arrival_tick: u64,
    pub slack: u8,
}

/// Cumulative arrival counters with the least-slack sample of the period.
#[derive(Clone, Copy, Debug, PartialEq, Eq, Structural)]
pub struct ArrivalFeedback {
    pub sample: Option<ArrivalSample>,
    pub observed_commands: u64,
    pub late_commands: u64,
}

impl ArrivalFeedback {
    /// No command observed yet.
    pub fn initial() -> (result: ArrivalFeedback)
        ensures
            result == (ArrivalFeedback { sample: None, observed_commands: 0, late_commands: 0 }),
    {
        ArrivalFeedback { sample: None, observed_commands: 0, late_commands: 0 }
    }
}

/// Feedback that cannot describe the commands this client issued.
#[derive(Clone, Copy, Debug, PartialEq, Eq, Structural)]
pub enum FeedbackError {
    InvalidSample,
    TimeRange,
}

/// What accepted feedback asks of the lead controller.
#[derive(Clone, Copy, Debug, PartialEq, Eq, Structural)]
pub enum FeedbackVerdict {
    /// Counters only; no sample this period.
    NoSample,
    /// The sample is old evidence and must not tune the lead.
    Ignored,
    /// Tune the lead from this arrival slack.
    Apply(u8),
}

/// Issued commands and the feedback accepted about them.
pub struct ArrivalBook {
    issued: VecDeque<CommandIssuance>,
    retired_through: u64,
    feedback: ArrivalFeedback,
    slack: Option<u8>,
    applied: u64,
    ignored: u64,
    policy: u64,
    policy_head: Option<u64>,
}

/// The mathematical value of the book.
pub struct ArrivalView {
    pub issued: Seq<CommandIssuance>,
    /// Every sequence up to here left the bounded history or a recovery.
    pub retired_through: u64,
    pub feedback: ArrivalFeedback,
    pub slack: Option<u8>,
    pub applied: u64,
    pub ignored: u64,
    pub policy: u64,
    /// The first target issued under the current policy, once known.
    pub policy_head: Option<u64>,
}

impl View for ArrivalBook {
    type V = ArrivalView;

    closed spec fn view(&self) -> ArrivalView {
        ArrivalView {
            issued: self.issued@,
            retired_through: self.retired_through,
            feedback: self.feedback,
            slack: self.slack,
            applied: self.applied,
            ignored: self.ignored,
            policy: self.policy,
            policy_head: self.policy_head,
        }
    }
}

pub open spec fn sat_inc(n: u64) -> u64 {
    if n == u64::MAX {
        n
    } else {
        (n + 1) as u64
    }
}

/// The history after issuing `sequence` for `target` while `newest` is the
/// frame's command head.
pub open spec fn issue_spec(v: ArrivalView, sequence: u64, target: u64, newest: u64) -> ArrivalView {
    let head = match v.policy_head {
        Some(h) => h,
        None => newest,
    };
    let full = v.issued.len() == ISSUANCE_HISTORY;
    let kept = if full {
        v.issued.drop_first()
    } else {
        v.issued
    };
    ArrivalView {
        issued: kept.push(
            CommandIssuance {
                sequence,
                target,
                policy: if target >= head {
                    Some(v.policy)
                } else {
                    None
                },
                feedback_seen: false,
            },
        ),
        retired_through: if full {
            v.issued[0].sequence
        } else {
            v.retired_through
        },
        policy_head: Some(head),
        ..v
    }
}

/// The issuance claims no policy newer than `policy`.
pub open spec fn claims_at_most(c: CommandIssuance, policy: u64) -> bool {
    match c.policy {
        Some(p) => p <= policy,
        None => true,
    }
}

/// The first remembered issuance of `sequence`.
pub open spec fn issued_index(s: Seq<CommandIssuance>, sequence: u64) -> Option<int>
    decreases s.len(),
{
    if s.len() == 0 {
        None
    } else if s[0].sequence == sequence {
        Some(0)
    } else {
        match issued_index(s.drop_first(), sequence) {
            Some(i) => Some(i + 1),
            None => None,
        }
    }
}

/// `issued_index` names the first position holding the sequence.
pub proof fn lemma_issued_index(s: Seq<CommandIssuance>, sequence: u64)
    ensures
        match issued_index(s, sequence) {
            Some(i) => 0 <= i < s.len() && s[i].sequence == sequence && forall|j: int|
                0 <= j < i ==> s[j].sequence != sequence,
            None => forall|j: int| 0 <= j < s.len() ==> s[j].sequence != sequence,
        },
    decreases s.len(),
{
    if s.len() > 0 && s[0].sequence != sequence {
        lemma_issued_index(s.drop_first(), sequence);
        assert forall|j: int| 1 <= j < s.len() implies s[j] == s.drop_first()[j - 1] by {}
    }
}

/// Whether feedback contradicts what was accepted before or what was issued.
pub open spec fn feedback_refused(v: ArrivalView, f: ArrivalFeedback, valid: bool, current_sequence: u64) -> bool {
    let c = v.feedback;
    ||| !valid
    ||| f.observed_commands < c.observed_commands
    ||| f.late_commands < c.late_commands
    ||| (f.sample is Some && f.observed_commands == c.observed_commands)
    ||| f.late_commands - c.late_commands > f.observed_commands - c.observed_commands
    ||| match f.sample {
        None => false,
        Some(s) => {
            ||| s.sequence > current_sequence
            ||| match issued_index(v.issued, s.sequence) {
                Some(i) => v.issued[i].target != s.target || v.issued[i].feedback_seen,
                None => s.sequence > v.retired_through,
            }
        },
    }
}

/// The book after accepting feedback, and its verdict.
pub open spec fn accept_spec(v: ArrivalView, f: ArrivalFeedback) -> (ArrivalView, FeedbackVerdict) {
    match f.sample {
        None => (ArrivalView { feedback: f, slack: None, ..v }, FeedbackVerdict::NoSample),
        Some(s) => {
            let index = issued_index(v.issued, s.sequence);
            let eligible = match index {
                Some(i) => v.issued[i].policy == Some(v.policy),
                None => false,
            };
            let issued = match index {
                Some(i) => v.issued.update(i, CommandIssuance { feedback_seen: true, ..v.issued[i] }),
                None => v.issued,
            };
            let base = ArrivalView { feedback: f, slack: Some(s.slack), issued, ..v };
            if eligible {
                (ArrivalView { applied: sat_inc(v.applied), ..base }, FeedbackVerdict::Apply(s.slack))
            } else {
                (ArrivalView { ignored: sat_inc(v.ignored), ..base }, FeedbackVerdict::Ignored)
            }
        },
    }
}

impl ArrivalBook {
    /// At most `ISSUANCE_HISTORY` issuances; none claims a policy newer than
    /// the current one.
    pub closed spec fn wf(&self) -> bool {
        &&& self.issued@.len() <= ISSUANCE_HISTORY
        &&& forall|i: int|
            0 <= i < self.issued@.len() ==> claims_at_most(#[trigger] self.issued@[i], self.policy)
    }

    /// Nothing issued, no feedback, the initial policy.
    pub fn new() -> (result: ArrivalBook)
        ensures
            result.wf(),
            result@.issued == Seq::<CommandIssuance>::empty(),
            result@.retired_through == 0,
            result@.feedback == (ArrivalFeedback { sample: None, observed_commands: 0, late_commands: 0 }),
            result@.slack is None,
            result@.applied == 0,
            result@.ignored == 0,
            result@.policy == 0,
            result@.policy_head is None,
    {
        ArrivalBook {
            issued: VecDeque::new(),
            retired_through: 0,
            feedback: ArrivalFeedback::initial(),
            slack: None,
            applied: 0,
            ignored: 0,
            policy: 0,
            policy_head: None,
        }
    }

    pub fn feedback(&self) -> (result: ArrivalFeedback)
        ensures
            result == self@.feedback,
    {
        self.feedback
    }

    pub fn slack(&self) -> (result: Option<u8>)
        ensures
            result == self@.slack,
    {
        self.slack
    }

    pub fn applied(&self) -> (result: u64)
        ensures
            result == self@.applied,
    {
        self.applied
    }

    pub fn ignored(&self) -> (result: u64)
        ensures
            result == self@.ignored,
    {
        self.ignored
    }

    pub fn policy(&self) -> (result: u64)
        ensures
            result == self@.policy,
    {
        self.policy
    }

    /// Remembers a newly issued command. Targets below the policy's first
    /// head were filled by a lead increase and have not benefited from it.
    pub fn record_issuance(&mut self, sequence: u64, target: u64, newest: u64)
        requires
            old(self).wf(),
        ensures
            final(self).wf(),
            final(self)@ == issue_spec(old(self)@, sequence, target, newest),
    {
        let head = match self.policy_head {
            Some(h) => h,
            None => newest,
        };
        self.policy_head = Some(head);
        let ghost before = self.issued@;
        if self.issued.len() == ISSUANCE_HISTORY {
            if let Some(retired) = self.issued.pop_front() {
                self.retired_through = retired.sequence;
            }
            assert(self.issued@ =~= before.drop_first());
        }
        let policy = if target >= head {
            Some(self.policy)
        } else {
            None
        };
        self.issued.push_back(CommandIssuance { sequence, target, policy, feedback_seen: false });
        proof {
            let kept = if before.len() == ISSUANCE_HISTORY {
                before.drop_first()
            } else {
                before
            };
            assert forall|i: int| 0 <= i < self.issued@.len() implies claims_at_most(
                #[trigger] self.issued@[i],
                self.policy,
            ) by {
                if i < kept.len() {
                    if before.len() == ISSUANCE_HISTORY {
                        assert(self.issued@[i] == before[i + 1]);
                    } else {
                        assert(self.issued@[i] == before[i]);
                    }
                }
            }
        }
    }

    fn find_issued(&self, sequence: u64) -> (result: Option<usize>)
        ensures
            match result {
                Some(i) => issued_index(self@.issued, sequence) == Some(i as int) && i < self.issued@.len(),
                None => issued_index(self@.issued, sequence) is None,
            },
    {
        let ghost s = self.issued@;
        proof {
            lemma_issued_index(s, sequence);
        }
        for i in 0..self.issued.len()
            invariant
                s == self.issued@,
                forall|j: int| 0 <= j < i ==> s[j].sequence != sequence,
                match issued_index(s, sequence) {
                    Some(k) => 0 <= k < s.len() && s[k].sequence == sequence && forall|j: int|
                        0 <= j < k ==> s[j].sequence != sequence,
                    None => forall|j: int| 0 <= j < s.len() ==> s[j].sequence != sequence,
                },
        {
            if self.issued[i].sequence == sequence {
                proof {
                    let k = issued_index(s, sequence)->0;
                    if k < i {
                    } else if k > i {
                        assert(s[i as int].sequence == sequence);
                    }
                }
                return Some(i);
            }
        }
        None
    }

    /// Validates cumulative feedback against the commands issued through
    /// `current_sequence`; `valid` is the protocol's own check of the record.
    /// Accepted feedback is committed and says whether its sample may tune
    /// the lead.
    pub fn observe_feedback(
        &mut self,
        feedback: ArrivalFeedback,
        valid: bool,
        current_sequence: u64,
    ) -> (result: Result<FeedbackVerdict, FeedbackError>)
        requires
            old(self).wf(),
        ensures
            final(self).wf(),
            feedback_refused(old(self)@, feedback, valid, current_sequence) ==> {
                &&& result == Err::<FeedbackVerdict, FeedbackError>(FeedbackError::InvalidSample)
                &&& final(self)@ == old(self)@
            },
            !feedback_refused(old(self)@, feedback, valid, current_sequence) ==> {
                &&& result == Ok::<FeedbackVerdict, FeedbackError>(accept_spec(old(self)@, feedback).1)
                &&& final(self)@ == accept_spec(old(self)@, feedback).0
            },
    {
        let c = self.feedback;
        if !valid || feedback.observed_commands < c.observed_commands || feedback.late_commands
            < c.late_commands || (feedback.sample.is_some() && feedback.observed_commands
            == c.observed_commands) {
            return Err(FeedbackError::InvalidSample);
        }
        if feedback.late_commands - c.late_commands > feedback.observed_commands
            - c.observed_commands {
            return Err(FeedbackError::InvalidSample);
        }
        let sample = match feedback.sample {
            None => {
                self.feedback = feedback;
                self.slack = None;
                return Ok(FeedbackVerdict::NoSample);
            },
            Some(s) => s,
        };
        if sample.sequence > current_sequence {
            return Err(FeedbackError::InvalidSample);
        }
        let index = self.find_issued(sample.sequence);
        let eligible = match index {
            Some(i) => {
                let issued = self.issued[i];
                if issued.target != sample.target || issued.feedback_seen {
                    return Err(FeedbackError::InvalidSample);
                }
                issued.policy == Some(self.policy)
            },
            None => {
                if sample.sequence > self.retired_through {
                    return Err(FeedbackError::InvalidSample);
                }
                false
            },
        };
        self.feedback = feedback;
        self.slack = Some(sample.slack);
        if let Some(i) = index {
            let mut issued = self.issued[i];
            issued.feedback_seen = true;
            let ghost before = self.issued@;
            let _ = self.issued.remove(i);
            self.issued.insert(i, issued);
            assert(self.issued@ =~= before.update(i as int, issued));
        }
        if !eligible {
            self.ignored = self.ignored.saturating_add(1);
            return Ok(FeedbackVerdict::Ignored);
        }
        self.applied = self.applied.saturating_add(1);
        Ok(FeedbackVerdict::Apply(sample.slack))
    }

    /// The lead controller changed its lead: a new policy starts, and no
    /// command issued so far counts as evidence for it.
    pub fn lead_changed(&mut self) -> (result: Result<(), FeedbackError>)
        requires
            old(self).wf(),
        ensures
            final(self).wf(),
            old(self)@.policy == u64::MAX ==> result == Err::<(), FeedbackError>(
                FeedbackError::TimeRange,
            ) && final(self)@ == old(self)@,
            old(self)@.policy < u64::MAX ==> {
                &&& result is Ok
                &&& final(self)@ == (ArrivalView {
                    policy: (old(self)@.policy + 1) as u64,
                    policy_head: None,
                    ..old(self)@
                })
            },
    {
        if self.policy == u64::MAX {
            return Err(FeedbackError::TimeRange);
        }
        self.policy = self.policy + 1;
        self.policy_head = None;
        Ok(())
    }

    /// Recovery forgets issued commands; every sequence through
    /// `current_sequence` becomes retired history.
    pub fn recover(&mut self, current_sequence: u64)
        requires
            old(self).wf(),
        ensures
            final(self).wf(),
            final(self)@ == (ArrivalView {
                issued: Seq::<CommandIssuance>::empty(),
                retired_through: if old(self)@.retired_through >= current_sequence {
                    old(self)@.retired_through
                } else {
                    current_sequence
                },
                policy_head: None,
                ..old(self)@
            }),
    {
        self.issued = VecDeque::new();
        if self.retired_through < current_sequence {
            self.retired_through = current_sequence;
        }
        self.policy_head = None;
        assert(self.issued@ =~= Seq::<CommandIssuance>::empty());
    }
}

// ---------------------------------------------------------------- laws

/// After a policy change, feedback about any command issued before it is
/// never applied to the lead: old in-flight input cannot retune the new policy.
pub proof fn law_old_issuance_cannot_retune(book: &ArrivalBook, f: ArrivalFeedback)
    requires
        book.wf(),
        book@.policy < u64::MAX,
        f.sample is Some,
    ensures
        ({
            let changed = ArrivalView { policy: (book@.policy + 1) as u64, policy_head: None, ..book@ };
            accept_spec(changed, f).1 != FeedbackVerdict::Apply(f.sample->0.slack)
        }),
{
    let changed = ArrivalView { policy: (book@.policy + 1) as u64, policy_head: None, ..book@ };
    let s = f.sample->0;
    lemma_issued_index(changed.issued, s.sequence);
    match issued_index(changed.issued, s.sequence) {
        Some(i) => {
            assert(claims_at_most(book@.issued[i], book@.policy));
        },
        None => {},
    }
}

/// Accepted feedback never lowers the cumulative counters, and each accepted
/// sample is counted exactly once as applied or ignored.
pub proof fn law_feedback_is_monotone(v: ArrivalView, f: ArrivalFeedback, valid: bool, current_sequence: u64)
    requires
        !feedback_refused(v, f, valid, current_sequence),
        v.applied < u64::MAX,
        v.ignored < u64::MAX,
    ensures
        accept_spec(v, f).0.feedback.observed_commands >= v.feedback.observed_commands,
        accept_spec(v, f).0.feedback.late_commands >= v.feedback.late_commands,
        f.sample is Some ==> accept_spec(v, f).0.applied + accept_spec(v, f).0.ignored == v.applied
            + v.ignored + 1,
        f.sample is None ==> accept_spec(v, f).0.applied == v.applied && accept_spec(v, f).0.ignored
            == v.ignored,
{
}

/// The same sample can be accepted only once: a repeat of accepted feedback
/// about a remembered command is refused.
pub proof fn law_repeated_sample_is_refused(v: ArrivalView, f: ArrivalFeedback, valid: bool, current_sequence: u64)
    requires
        !feedback_refused(v, f, valid, current_sequence),
        f.sample is Some,
        issued_index(v.issued, f.sample->0.sequence) is Some,
    ensures
        feedback_refused(accept_spec(v, f).0, f, valid, current_sequence),
{
    let after = accept_spec(v, f).0;
    let s = f.sample->0;
    lemma_issued_index(v.issued, s.sequence);
    let i = issued_index(v.issued, s.sequence)->0;
    assert(after.issued[i].sequence == s.sequence);
    lemma_issued_index(after.issued, s.sequence);
    let k = issued_index(after.issued, s.sequence);
    assert(k == Some(i)) by {
        if k is None {
            assert(after.issued[i].sequence == s.sequence);
        } else {
            let kk = k->0;
            if kk < i {
                assert(after.issued[kk] == v.issued[kk]);
            } else if kk > i {
                assert(after.issued[i].sequence == s.sequence);
            }
        }
    }
}

} // verus!
