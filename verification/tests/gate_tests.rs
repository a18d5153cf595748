use nova_agent::config::{ApprovalConfig, GatesConfig};
use nova_agent::gate::{
    approval_outcome, approval_verdict, decision_audit, approval_wait_secs, authorize_with, gate_decision, ApprovalBook,
    ApprovalWait, GateDecision, GateError, PendingApproval, MAX_APPROVAL_RECORDS,
};

#[test]
fn gate_error_messages() {
    let d = GateError::Disabled("delete".to_string());
    assert_eq!(
        d.message(),
        "能力 `delete` 已被管理员在设置中禁用，无法执行此操作。请告知用户并建议其在 Settings 中开启。"
    );
    let r = GateError::Refused("超时".to_string());
    assert_eq!(r.message(), "操作被拒绝：超时");
}

#[test]
fn decision_per_capability() {
    let gates = GatesConfig::default();
    let approval = ApprovalConfig::default();
    match gate_decision(&gates, &approval, "delete") {
        GateDecision::Deny(GateError::Disabled(c)) => assert_eq!(c, "delete"),
        _ => panic!("delete is off by default"),
    }
    assert!(matches!(gate_decision(&gates, &approval, "read"), GateDecision::Allow));
    let all_on = GatesConfig { read: true, write: true, edit: true, delete: true, execute: true };
    match gate_decision(&all_on, &approval, "execute") {
        GateDecision::AwaitApproval { timeout_secs } => assert_eq!(timeout_secs, 300),
        _ => panic!("execute needs approval"),
    }
    assert!(matches!(gate_decision(&all_on, &approval, "write"), GateDecision::Allow));
}

/// The guard passes only an enabled capability, and one that needs approval only when approved.
#[test]
fn authorize_pipeline() {
    let approval = ApprovalConfig::default();
    let all_on = GatesConfig { read: true, write: true, edit: true, delete: true, execute: true };
    assert!(authorize_with(&all_on, &approval, "delete", true).is_ok());
    match authorize_with(&all_on, &approval, "delete", false) {
        Err(e) => assert_eq!(e.message(), "操作被拒绝：用户未批准该操作（拒绝或超时）"),
        Ok(()) => panic!("refused approval must not pass"),
    }
    assert!(authorize_with(&all_on, &approval, "read", false).is_ok());
    let gates = GatesConfig::default();
    // a switched-off capability is refused even when a person would approve
    assert!(matches!(authorize_with(&gates, &approval, "delete", true), Err(GateError::Disabled(_))));
    assert!(approval_verdict(true).is_ok());
    assert!(matches!(approval_verdict(false), Err(GateError::Refused(_))));
}

#[test]
fn approval_wait_and_outcome() {
    assert_eq!(approval_wait_secs(0), 5);
    assert_eq!(approval_wait_secs(4), 5);
    assert_eq!(approval_wait_secs(5), 5);
    assert_eq!(approval_wait_secs(300), 300);
    let (ok, s) = approval_outcome(&ApprovalWait::Answered(true));
    assert!(ok);
    assert_eq!(s, "approved");
    let (ok, s) = approval_outcome(&ApprovalWait::Answered(false));
    assert!(!ok);
    assert_eq!(s, "denied");
    let (ok, s) = approval_outcome(&ApprovalWait::Dropped);
    assert!(!ok);
    assert_eq!(s, "denied");
    let (ok, s) = approval_outcome(&ApprovalWait::TimedOut);
    assert!(!ok);
    assert_eq!(s, "expired");
}

#[test]
fn pending_approval_record() {
    let p = PendingApproval::new("delete", "sys_delete", "删除 /tmp/x", "{\"path\":\"/tmp/x\"}");
    assert_eq!(p.capability, "delete");
    assert_eq!(p.tool, "sys_delete");
    assert_eq!(p.summary, "删除 /tmp/x");
    assert_eq!(p.args, "{\"path\":\"/tmp/x\"}");
    assert_eq!(p.status, "pending");
    assert_eq!(p.id.len(), 36);
    let q = PendingApproval::new("delete", "sys_delete", "s", "{}");
    assert_ne!(p.id, q.id);
    let d = p.duplicate();
    assert_eq!(d.id, p.id);
    assert_eq!(d.created_ts, p.created_ts);
}

#[test]
fn approval_book_lifecycle() {
    let mut book = ApprovalBook::new();
    let a = PendingApproval::new("delete", "sys_delete", "a", "{}");
    let b = PendingApproval::new("execute", "sys_execute", "b", "{}");
    let a_id = a.id.clone();
    let b_id = b.id.clone();
    book.push(a);
    book.push(b);
    assert_eq!(book.list_pending().len(), 2);
    book.finish_record(&a_id, "approved");
    let pending = book.list_pending();
    assert_eq!(pending.len(), 1);
    assert_eq!(pending[0].id, b_id);
    // a finished record keeps its first final status
    book.finish_record(&a_id, "expired");
    let recent = book.list_recent(10);
    assert_eq!(recent.len(), 2);
    assert_eq!(recent[0].id, b_id);
    assert_eq!(recent[1].id, a_id);
    assert_eq!(recent[1].status, "approved");
    assert_eq!(book.list_recent(1).len(), 1);
    // an unknown id changes nothing
    book.finish_record("nope", "denied");
    assert_eq!(book.list_pending().len(), 1);
}

#[test]
fn approval_book_keeps_the_latest_records() {
    let mut book = ApprovalBook::new();
    let mut ids = Vec::new();
    for _ in 0..(MAX_APPROVAL_RECORDS + 3) {
        let p = PendingApproval::new("execute", "sys_execute", "x", "{}");
        ids.push(p.id.clone());
        book.push(p);
    }
    let last = ids.last().unwrap().clone();
    book.finish_record(&last, "denied");
    let recent = book.list_recent(MAX_APPROVAL_RECORDS + 10);
    assert_eq!(recent.len(), MAX_APPROVAL_RECORDS);
    assert_eq!(recent[0].id, last);
    assert_eq!(recent[MAX_APPROVAL_RECORDS - 1].id, ids[3]);
}

#[test]
fn decision_audit_records() {
    let gates = GatesConfig::default();
    let approval = ApprovalConfig::default();
    let d = gate_decision(&gates, &approval, "delete");
    assert_eq!(decision_audit("delete", &d, true), ("能力 delete 已禁用".to_string(), "denied".to_string()));
    let d = gate_decision(&gates, &approval, "read");
    assert_eq!(decision_audit("read", &d, false), ("能力 read 已启用，无需审批".to_string(), "ok".to_string()));
    let all_on = GatesConfig { read: true, write: true, edit: true, delete: true, execute: true };
    let d = gate_decision(&all_on, &approval, "execute");
    assert_eq!(decision_audit("execute", &d, true), ("人工审批通过".to_string(), "ok".to_string()));
    assert_eq!(decision_audit("execute", &d, false), ("人工审批拒绝/超时".to_string(), "denied".to_string()));
}
