//! The guard: each system capability has its own switch, and capabilities
//! listed for approval wait for a person's decision before they run.
//! Pipeline: capability switch, then approval, then pass.
use vstd::prelude::*;
use crate::config::{GatesConfig, ApprovalConfig, gate_enabled, approval_required};
use crate::text::{chars_of, push_chars, push_str, string_from_chars, str_eq, to_owned_string};
use crate::memory::{uuid_v4, now_rfc3339};

verus! {

broadcast use vstd::string::group_string_axioms;

/// Why the guard stopped an operation.
pub enum GateError {
    /// The capability's switch is off.
    Disabled(String),
    /// A person refused, or the approval timed out.
    Refused(String),
}

pub enum GateErrorView {
    Disabled(Seq<char>),
    Refused(Seq<char>),
}

impl View for GateError {
    type V = GateErrorView;

    open spec fn view(&self) -> GateErrorView {
        match self {
            GateError::Disabled(c) => GateErrorView::Disabled(c@),
            GateError::Refused(r) => GateErrorView::Refused(r@),
        }
    }
}

/// The explanation shown to the agent for a guard error.
pub open spec fn gate_message(e: GateErrorView) -> Seq<char> {
    match e {
        GateErrorView::Disabled(cap) => "能力 `"@ + cap
            + "` 已被管理员在设置中禁用，无法执行此操作。请告知用户并建议其在 Settings 中开启。"@,
        GateErrorView::Refused(reason) => "操作被拒绝："@ + reason,
    }
}

impl GateError {
    pub fn message(&self) -> (r: String)
        ensures
            r@ == gate_message(self@),
    {
        let mut out: Vec<char> = Vec::new();
        match self {
            GateError::Disabled(cap) => {
                push_str(&mut out, "能力 `");
                push_chars(&mut out, &chars_of(cap.as_str()));
                push_str(
                    &mut out,
                    "` 已被管理员在设置中禁用，无法执行此操作。请告知用户并建议其在 Settings 中开启。",
                );
            },
            GateError::Refused(reason) => {
                push_str(&mut out, "操作被拒绝：");
                push_chars(&mut out, &chars_of(reason.as_str()));
            },
        }
        string_from_chars(out.as_slice())
    }
}

/// The reason given when an approval is refused or times out.
pub open spec fn refusal_reason() -> Seq<char> {
    "用户未批准该操作（拒绝或超时）"@
}

/// What the guard does with a request for a capability.
pub enum GateDecision {
    /// Stop: the switch is off.
    Deny(GateError),
    /// Ask a person, waiting at most this many seconds.
    AwaitApproval { timeout_secs: u64 },
    /// Pass without asking.
    Allow,
}

/// The guard's decision for `capability` under the given switches and approval policy.
pub fn gate_decision(gates: &GatesConfig, approval: &ApprovalConfig, capability: &str) -> (r:
    GateDecision)
    ensures
        !gate_enabled(*gates, capability@) ==> (r matches GateDecision::Deny(e) && e@
            == GateErrorView::Disabled(capability@)),
        gate_enabled(*gates, capability@) && approval_required(*approval, capability@) ==> (r
            == (GateDecision::AwaitApproval { timeout_secs: approval.timeout_secs })),
        gate_enabled(*gates, capability@) && !approval_required(*approval, capability@) ==> (r
            == GateDecision::Allow),
{
    if !gates.is_enabled(capability) {
        return GateDecision::Deny(GateError::Disabled(to_owned_string(capability)));
    }
    if approval.requires_approval(capability) {
        return GateDecision::AwaitApproval { timeout_secs: approval.timeout_secs };
    }
    GateDecision::Allow
}

/// The outcome once a person has answered (or the wait ended): pass only when approved.
pub fn approval_verdict(approved: bool) -> (r: Result<(), GateError>)
    ensures
        approved ==> (r is Ok),
        !approved ==> (r matches Err(e) && e@ == GateErrorView::Refused(refusal_reason())),
{
    if approved {
        Ok(())
    } else {
        Err(GateError::Refused(to_owned_string("用户未批准该操作（拒绝或超时）")))
    }
}

/// The whole pipeline's outcome for `capability`, given what a person would answer if asked.
pub open spec fn authorize_outcome(
    gates: GatesConfig,
    approval: ApprovalConfig,
    capability: Seq<char>,
    approved: bool,
) -> Result<(), GateErrorView> {
    if !gate_enabled(gates, capability) {
        Err(GateErrorView::Disabled(capability))
    } else if approval_required(approval, capability) && !approved {
        Err(GateErrorView::Refused(refusal_reason()))
    } else {
        Ok(())
    }
}

/// Law of the guard: an operation passes exactly when its capability's switch is on
/// and, where the policy asks for approval, a person approved it. A switched-off
/// capability is refused whatever anyone answers, and no approval is asked for it.
pub proof fn law_gate_passes_only_enabled_and_approved(
    gates: GatesConfig,
    approval: ApprovalConfig,
    capability: Seq<char>,
    approved: bool,
)
    ensures
        authorize_outcome(gates, approval, capability, approved) is Ok <==> gate_enabled(
            gates,
            capability,
        ) && (approval_required(approval, capability) ==> approved),
        !gate_enabled(gates, capability) ==> authorize_outcome(gates, approval, capability, true)
            == Err::<(), GateErrorView>(GateErrorView::Disabled(capability)),
{
}

/// Runs the pipeline with a known answer: the decision, then the verdict when asked.
pub fn authorize_with(
    gates: &GatesConfig,
    approval: &ApprovalConfig,
    capability: &str,
    approved: bool,
) -> (r: Result<(), GateError>)
    ensures
        match (r, authorize_outcome(*gates, *approval, capability@, approved)) {
            (Ok(()), Ok(())) => true,
            (Err(e), Err(v)) => e@ == v,
            _ => false,
        },
{
    match gate_decision(gates, approval, capability) {
        GateDecision::Deny(e) => Err(e),
        GateDecision::AwaitApproval { timeout_secs: _ } => approval_verdict(approved),
        GateDecision::Allow => Ok(()),
    }
}

/// How an approval wait ended.
pub enum ApprovalWait {
    /// A person answered.
    Answered(bool),
    /// The request was dropped without an answer.
    Dropped,
    /// Nobody answered in time.
    TimedOut,
}

/// An approval waits at least this many seconds.
pub const MIN_APPROVAL_WAIT_SECS: u64 = 5;

/// The time an approval request waits: the configured timeout, at least five seconds.
pub fn approval_wait_secs(timeout_secs: u64) -> (r: u64)
    ensures
        r == if timeout_secs < MIN_APPROVAL_WAIT_SECS {
            MIN_APPROVAL_WAIT_SECS
        } else {
            timeout_secs
        },
{
    if timeout_secs < MIN_APPROVAL_WAIT_SECS {
        MIN_APPROVAL_WAIT_SECS
    } else {
        timeout_secs
    }
}

/// The record status an approval ends in.
pub open spec fn outcome_status(w: ApprovalWait) -> Seq<char> {
    match w {
        ApprovalWait::Answered(true) => "approved"@,
        ApprovalWait::TimedOut => "expired"@,
        _ => "denied"@,
    }
}

/// Whether the operation was approved, and the status its record ends in:
/// only an explicit yes approves; a dropped request is denied, a timeout expires.
pub fn approval_outcome(w: &ApprovalWait) -> (r: (bool, String))
    ensures
        r.0 == (*w == ApprovalWait::Answered(true)),
        r.1@ == outcome_status(*w),
{
    match w {
        ApprovalWait::Answered(true) => (true, to_owned_string("approved")),
        ApprovalWait::TimedOut => (false, to_owned_string("expired")),
        _ => (false, to_owned_string("denied")),
    }
}


/// One approval request and where it stands.
pub struct PendingApproval {
    pub id: String,
    pub capability: String,
    pub tool: String,
    pub summary: String,
    /// The tool arguments' JSON text.
    pub args: String,
    pub created_ts: String,
    /// pending | approved | denied | expired
    pub status: String,
}

impl PendingApproval {
    /// A new pending request with a fresh id and the current time.
    pub fn new(capability: &str, tool: &str, summary: &str, args: &str) -> (r: Self)
        ensures
            r.capability@ == capability@,
            r.tool@ == tool@,
            r.summary@ == summary@,
            r.args@ == args@,
            r.status@ == "pending"@,
            r.id@.len() == 36,
    {
        PendingApproval {
            id: uuid_v4(),
            capability: to_owned_string(capability),
            tool: to_owned_string(tool),
            summary: to_owned_string(summary),
            args: to_owned_string(args),
            created_ts: now_rfc3339(),
            status: to_owned_string("pending"),
        }
    }

    /// A copy of the record.
    pub fn duplicate(&self) -> (r: Self)
        ensures
            r == *self,
    {
        PendingApproval {
            id: self.id.clone(),
            capability: self.capability.clone(),
            tool: self.tool.clone(),
            summary: self.summary.clone(),
            args: self.args.clone(),
            created_ts: self.created_ts.clone(),
            status: self.status.clone(),
        }
    }
}

/// At most this many approval records are kept in memory (the audit log keeps all).
pub const MAX_APPROVAL_RECORDS: usize = 500;

/// The position of the first record with id `id`.
pub open spec fn first_with_id(records: Seq<PendingApproval>, id: Seq<char>) -> Option<int>
    decreases records.len(),
{
    if records.len() == 0 {
        None
    } else if records[0].id@ == id {
        Some(0)
    } else {
        match first_with_id(records.drop_first(), id) {
            Some(k) => Some(k + 1),
            None => None,
        }
    }
}

pub proof fn lemma_first_with_id(records: Seq<PendingApproval>, id: Seq<char>)
    ensures
        match first_with_id(records, id) {
            Some(k) => 0 <= k < records.len() && records[k].id@ == id && forall|j: int|
                0 <= j < k ==> records[j].id@ != id,
            None => forall|j: int| 0 <= j < records.len() ==> records[j].id@ != id,
        },
    decreases records.len(),
{
    if records.len() > 0 && records[0].id@ != id {
        lemma_first_with_id(records.drop_first(), id);
        match first_with_id(records.drop_first(), id) {
            Some(k) => {
                assert forall|j: int| 0 <= j < k + 1 implies records[j].id@ != id by {
                    if j > 0 {
                        assert(records[j] == records.drop_first()[j - 1]);
                    }
                }
            },
            None => {
                assert forall|j: int| 0 <= j < records.len() implies records[j].id@ != id by {
                    if j > 0 {
                        assert(records[j] == records.drop_first()[j - 1]);
                    }
                }
            },
        }
    }
}

/// `b` is `a` with its status set to `status`.
pub open spec fn restatused(a: PendingApproval, b: PendingApproval, status: Seq<char>) -> bool {
    &&& b.id == a.id
    &&& b.capability == a.capability
    &&& b.tool == a.tool
    &&& b.summary == a.summary
    &&& b.args == a.args
    &&& b.created_ts == a.created_ts
    &&& b.status@ == status
}

/// The in-memory list of approval requests, oldest first.
pub struct ApprovalBook {
    records: Vec<PendingApproval>,
}

impl View for ApprovalBook {
    type V = Seq<PendingApproval>;

    closed spec fn view(&self) -> Seq<PendingApproval> {
        self.records@
    }
}

impl ApprovalBook {
    pub fn new() -> (r: Self)
        ensures
            r@.len() == 0,
    {
        ApprovalBook { records: Vec::new() }
    }

    /// Adds a request at the end.
    pub fn push(&mut self, record: PendingApproval)
        ensures
            final(self)@ == old(self)@.push(record),
    {
        self.records.push(record);
    }

    /// Closes the first record with id `id`, if it is still pending, with `status`;
    /// a record already decided keeps its status. Then only the newest
    /// `MAX_APPROVAL_RECORDS` records are kept.
    pub fn finish_record(&mut self, id: &str, status: &str)
        ensures
            ({
                let o = old(self)@;
                let n = final(self)@;
                let cut = o.len() - n.len();
                &&& n.len() == if o.len() > MAX_APPROVAL_RECORDS { MAX_APPROVAL_RECORDS as int } else { o.len() as int }
                &&& forall|j: int| #![trigger n[j]] 0 <= j < n.len() ==> {
                    let k = j + cut;
                    if first_with_id(o, id@) == Some(k) && o[k].status@ == "pending"@ {
                        restatused(o[k], n[j], status@)
                    } else {
                        n[j] == o[k]
                    }
                }
            }),
    {
        let ghost o = self.records@;
        proof {
            lemma_first_with_id(o, id@);
        }
        let mut i: usize = 0;
        while i < self.records.len()
            invariant
                self.records@ == o,
                i <= o.len(),
                forall|j: int| 0 <= j < i ==> o[j].id@ != id@,
            ensures
                self.records@ == o,
                i <= o.len(),
                forall|j: int| 0 <= j < i ==> o[j].id@ != id@,
                i < o.len() ==> o[i as int].id@ == id@,
            decreases self.records.len() - i,
        {
            if str_eq(self.records[i].id.as_str(), id) {
                break;
            }
            i = i + 1;
        }
        if i < self.records.len() {
            assert(first_with_id(o, id@) == Some(i as int));
            if str_eq(self.records[i].status.as_str(), "pending") {
                let r = &self.records[i];
                let updated = PendingApproval {
                    id: r.id.clone(),
                    capability: r.capability.clone(),
                    tool: r.tool.clone(),
                    summary: r.summary.clone(),
                    args: r.args.clone(),
                    created_ts: r.created_ts.clone(),
                    status: to_owned_string(status),
                };
                self.records.set(i, updated);
            }
        } else {
            assert(first_with_id(o, id@) is None);
        }
        let ghost mid = self.records@;
        let len = self.records.len();
        if len > MAX_APPROVAL_RECORDS {
            let excess = len - MAX_APPROVAL_RECORDS;
            let tail = self.records.split_off(excess);
            self.records = tail;
            assert(self.records@ =~= mid.skip(excess as int));
        }
    }

    /// The requests still pending, oldest first.
    pub fn list_pending(&self) -> (r: Vec<PendingApproval>)
        ensures
            r@ == self@.filter(|a: PendingApproval| a.status@ == "pending"@),
    {
        let ghost pred = |a: PendingApproval| a.status@ == "pending"@;
        let mut r: Vec<PendingApproval> = Vec::new();
        let mut i: usize = 0;
        proof {
            reveal(Seq::filter);
            assert(self.records@.take(0).filter(pred) =~= Seq::<PendingApproval>::empty());
        }
        while i < self.records.len()
            invariant
                i <= self.records.len(),
                pred == (|a: PendingApproval| a.status@ == "pending"@),
                r@ == self.records@.take(i as int).filter(pred),
            decreases self.records.len() - i,
        {
            let ghost before = r@;
            if str_eq(self.records[i].status.as_str(), "pending") {
                r.push(self.records[i].duplicate());
            }
            proof {
                reveal(Seq::filter);
                assert(self.records@.take(i + 1).drop_last() =~= self.records@.take(i as int));
                assert(self.records@.take(i + 1).last() == self.records@[i as int]);
            }
            i = i + 1;
        }
        assert(self.records@.take(i as int) =~= self.records@);
        r
    }

    /// The newest `limit` requests, newest first.
    pub fn list_recent(&self, limit: usize) -> (r: Vec<PendingApproval>)
        ensures
            r@.len() == if limit < self@.len() { limit as int } else { self@.len() as int },
            forall|k: int| 0 <= k < r@.len() ==> #[trigger] r@[k] == self@[self@.len() - 1 - k],
    {
        let mut r: Vec<PendingApproval> = Vec::new();
        let n = self.records.len();
        let mut k: usize = 0;
        while k < n && k < limit
            invariant
                n == self.records@.len(),
                k <= n,
                k <= limit,
                r@.len() == k,
                forall|j: int| 0 <= j < k ==> #[trigger] r@[j] == self.records@[n - 1 - j],
            decreases n - k,
        {
            r.push(self.records[n - 1 - k].duplicate());
            k = k + 1;
        }
        r
    }
}


/// The summary and status of the audit record of a guard decision: a switched-off
/// capability is denied; an approval is ok only when given; a free pass is ok.
/// `approved` is what the person answered, and matters only when one was asked.
pub open spec fn decision_record(capability: Seq<char>, asked: bool, enabled: bool, approved: bool) -> (Seq<char>, Seq<char>) {
    if !enabled {
        ("能力 "@ + capability + " 已禁用"@, "denied"@)
    } else if asked {
        if approved {
            ("人工审批通过"@, "ok"@)
        } else {
            ("人工审批拒绝/超时"@, "denied"@)
        }
    } else {
        ("能力 "@ + capability + " 已启用，无需审批"@, "ok"@)
    }
}

/// The audit record (summary, status) for a decision on `capability`.
pub fn decision_audit(capability: &str, decision: &GateDecision, approved: bool) -> (r: (String, String))
    ensures
        ({
            let d = decision_record(
                capability@,
                decision is AwaitApproval,
                !(decision is Deny),
                approved,
            );
            r.0@ == d.0 && r.1@ == d.1
        }),
{
    match decision {
        GateDecision::Deny(_) => {
            let mut out = chars_of("能力 ");
            push_str(&mut out, capability);
            push_str(&mut out, " 已禁用");
            (string_from_chars(out.as_slice()), to_owned_string("denied"))
        },
        GateDecision::AwaitApproval { timeout_secs: _ } => if approved {
            (to_owned_string("人工审批通过"), to_owned_string("ok"))
        } else {
            (to_owned_string("人工审批拒绝/超时"), to_owned_string("denied"))
        },
        GateDecision::Allow => {
            let mut out = chars_of("能力 ");
            push_str(&mut out, capability);
            push_str(&mut out, " 已启用，无需审批");
            (string_from_chars(out.as_slice()), to_owned_string("ok"))
        },
    }
}

} // verus!
