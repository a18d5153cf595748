use nova_agent::tools::planner::TaskStore;

fn steps(n: usize) -> Vec<String> {
    (0..n).map(|i| format!("step {i}")).collect()
}

#[test]
fn create_abandons_the_previous_plan() {
    let mut store = TaskStore::from_tasks(Vec::new());
    let first = store.create("一", steps(2));
    assert_eq!(first.status, "active");
    assert_eq!(first.steps.len(), 2);
    assert_eq!(first.steps[1].title, "step 1");
    assert_eq!(first.steps[1].status, "pending");
    assert!(first.steps[1].note.is_empty());
    assert_eq!(first.id.len(), 36);
    let second = store.create("二", steps(1));
    let tasks = store.tasks();
    assert_eq!(tasks.len(), 2);
    assert_eq!(tasks[0].status, "abandoned");
    assert_eq!(tasks[1].id, second.id);
    assert_eq!(tasks[1].status, "active");
}

#[test]
fn steps_complete_a_plan() {
    let mut store = TaskStore::from_tasks(Vec::new());
    let plan = store.create("t", steps(2));
    let p = store.update_step(&plan.id, 0, "done", "ok").unwrap();
    assert_eq!(p.steps[0].status, "done");
    assert_eq!(p.steps[0].note, "ok");
    assert_eq!(p.status, "active");
    let p = store.update_step(&plan.id, 1, "in_progress", "").unwrap();
    assert_eq!(p.status, "active");
    assert!(p.steps[1].note.is_empty());
    let p = store.update_step(&plan.id, 1, "failed", "").unwrap();
    assert_eq!(p.status, "completed");
    assert_eq!(store.tasks()[0].status, "completed");
}

#[test]
fn invalid_updates_change_nothing() {
    let mut store = TaskStore::from_tasks(Vec::new());
    let plan = store.create("t", steps(1));
    assert!(store.update_step("missing", 0, "done", "").is_none());
    assert!(store.update_step(&plan.id, 5, "done", "").is_none());
    assert!(store.update_step(&plan.id, 0, "finished", "").is_none());
    assert_eq!(store.tasks()[0].steps[0].status, "pending");
    assert_eq!(store.tasks()[0].status, "active");
}

#[test]
fn list_newest_first() {
    let mut store = TaskStore::from_tasks(Vec::new());
    store.create("a", steps(1));
    store.create("b", steps(1));
    store.create("c", steps(1));
    let l = store.list(2);
    assert_eq!(l.len(), 2);
    assert_eq!(l[0].title, "c");
    assert_eq!(l[1].title, "b");
    assert_eq!(store.list(20).len(), 3);
}
