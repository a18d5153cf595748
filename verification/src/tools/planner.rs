//! Task planning: the agent splits a complex task into steps, then reports each
//! step's progress; plans are kept in order of creation.
use vstd::prelude::*;
use crate::text::{str_eq, to_owned_string};
use crate::memory::{uuid_v4, now_rfc3339};

verus! {

broadcast use vstd::string::group_string_axioms;

pub struct TaskStep {
    pub title: String,
    /// pending | in_progress | done | failed
    pub status: String,
    pub note: String,
}

pub struct TaskPlan {
    pub id: String,
    pub title: String,
    pub created_ts: String,
    /// active | completed | abandoned
    pub status: String,
    pub steps: Vec<TaskStep>,
}

pub struct TaskPlanView {
    pub id: Seq<char>,
    pub title: Seq<char>,
    pub created_ts: Seq<char>,
    pub status: Seq<char>,
    pub steps: Seq<TaskStep>,
}

impl View for TaskPlan {
    type V = TaskPlanView;

    open spec fn view(&self) -> TaskPlanView {
        TaskPlanView {
            id: self.id@,
            title: self.title@,
            created_ts: self.created_ts@,
            status: self.status@,
            steps: self.steps@,
        }
    }
}

impl TaskStep {
    pub fn duplicate(&self) -> (r: Self)
        ensures
            r == *self,
    {
        TaskStep { title: self.title.clone(), status: self.status.clone(), note: self.note.clone() }
    }
}

impl TaskPlan {
    /// A copy of the plan.
    pub fn duplicate(&self) -> (r: Self)
        ensures
            r@ == self@,
    {
        let mut steps: Vec<TaskStep> = Vec::new();
        let mut i: usize = 0;
        while i < self.steps.len()
            invariant
                i <= self.steps.len(),
                steps@ == self.steps@.take(i as int),
            decreases self.steps.len() - i,
        {
            steps.push(self.steps[i].duplicate());
            assert(steps@ =~= self.steps@.take(i + 1));
            i = i + 1;
        }
        assert(steps@ =~= self.steps@);
        TaskPlan {
            id: self.id.clone(),
            title: self.title.clone(),
            created_ts: self.created_ts.clone(),
            status: self.status.clone(),
            steps,
        }
    }
}

/// The statuses a step may be set to.
pub open spec fn valid_step_status(s: Seq<char>) -> bool {
    s == "pending"@ || s == "in_progress"@ || s == "done"@ || s == "failed"@
}

/// Whether every step is done or failed.
pub open spec fn all_finished(steps: Seq<TaskStep>) -> bool {
    forall|i: int| 0 <= i < steps.len() ==> #[trigger] steps[i].status@ == "done"@ || steps[i].status@ == "failed"@
}

/// A plan as it stands once a new plan starts: an active plan is abandoned.
pub open spec fn abandoned(p: TaskPlanView) -> TaskPlanView {
    if p.status == "active"@ {
        TaskPlanView { status: "abandoned"@, ..p }
    } else {
        p
    }
}

/// The position of the first plan with id `id`.
pub open spec fn first_plan(plans: Seq<TaskPlanView>, id: Seq<char>) -> Option<int>
    decreases plans.len(),
{
    if plans.len() == 0 {
        None
    } else if plans[0].id == id {
        Some(0)
    } else {
        match first_plan(plans.drop_first(), id) {
            Some(k) => Some(k + 1),
            None => None,
        }
    }
}

pub proof fn lemma_first_plan(plans: Seq<TaskPlanView>, id: Seq<char>)
    ensures
        match first_plan(plans, id) {
            Some(k) => 0 <= k < plans.len() && plans[k].id == id && forall|j: int|
                0 <= j < k ==> plans[j].id != id,
            None => forall|j: int| 0 <= j < plans.len() ==> plans[j].id != id,
        },
    decreases plans.len(),
{
    if plans.len() > 0 && plans[0].id != id {
        lemma_first_plan(plans.drop_first(), id);
        assert forall|j: int| 0 < j < plans.len() implies plans[j] == plans.drop_first()[j - 1] by {}
    }
}

/// The plans, oldest first.
pub struct TaskStore {
    tasks: Vec<TaskPlan>,
}

impl View for TaskStore {
    type V = Seq<TaskPlanView>;

    closed spec fn view(&self) -> Seq<TaskPlanView> {
        self.tasks@.map_values(|t: TaskPlan| t@)
    }
}

impl TaskStore {
    /// A store holding `tasks`, oldest first.
    pub fn from_tasks(tasks: Vec<TaskPlan>) -> (r: Self)
        ensures
            r@ == tasks@.map_values(|t: TaskPlan| t@),
    {
        TaskStore { tasks }
    }

    /// All plans, oldest first.
    pub fn tasks(&self) -> (r: &Vec<TaskPlan>)
        ensures
            r@.map_values(|t: TaskPlan| t@) == self@,
    {
        &self.tasks
    }

    /// Starts a new plan with the given step titles, all pending; any plan still
    /// active is abandoned. Returns the new plan.
    pub fn create(&mut self, title: &str, steps: Vec<String>) -> (r: TaskPlan)
        ensures
            r@.title == title@,
            r@.status == "active"@,
            r@.id.len() == 36,
            r@.steps.len() == steps@.len(),
            forall|i: int|
                0 <= i < steps@.len() ==> (#[trigger] r@.steps[i]).title@ == steps@[i]@
                    && r@.steps[i].status@ == "pending"@ && r@.steps[i].note@.len() == 0,
            final(self)@ == old(self)@.map_values(|p: TaskPlanView| abandoned(p)).push(r@),
            forall|j: int| 0 <= j < final(self)@.len() - 1 ==> #[trigger] final(self)@[j].status != "active"@,
    {
        proof {
            reveal_strlit("active");
            reveal_strlit("abandoned");
        }
        let mut st: Vec<TaskStep> = Vec::new();
        let mut i: usize = 0;
        while i < steps.len()
            invariant
                i <= steps.len(),
                st@.len() == i,
                forall|j: int|
                    0 <= j < i ==> (#[trigger] st@[j]).title@ == steps@[j]@ && st@[j].status@
                        == "pending"@ && st@[j].note@.len() == 0,
            decreases steps.len() - i,
        {
            st.push(
                TaskStep {
                    title: steps[i].clone(),
                    status: to_owned_string("pending"),
                    note: String::new(),
                },
            );
            i = i + 1;
        }
        let plan = TaskPlan {
            id: uuid_v4(),
            title: to_owned_string(title),
            created_ts: now_rfc3339(),
            status: to_owned_string("active"),
            steps: st,
        };
        let ghost old_view = self@;
        let mut rest: Vec<TaskPlan> = Vec::new();
        std::mem::swap(&mut rest, &mut self.tasks);
        let ghost all = rest@;
        assert(all.len() == rest.len());
        assert(old_view == all.map_values(|t: TaskPlan| t@));
        let mut kept: Vec<TaskPlan> = Vec::new();
        let mut taken: usize = 0;
        assert(all.skip(0) =~= all);
        while rest.len() > 0
            invariant
                taken + rest@.len() == all.len(),
                all.len() <= usize::MAX,
                rest@ == all.skip(taken as int),
                kept@.len() == taken,
                forall|j: int|
                    0 <= j < taken ==> (#[trigger] kept@[j])@ == abandoned(all[j]@),
            decreases rest.len(),
        {
            let mut t = rest.remove(0);
            let ghost tv = t@;
            assert(tv == all[taken as int]@);
            assert(rest@ =~= all.skip(taken + 1));
            if str_eq(t.status.as_str(), "active") {
                t.status = to_owned_string("abandoned");
            }
            assert(t@ == abandoned(tv));
            kept.push(t);
            taken = taken + 1;
        }
        let r = plan.duplicate();
        kept.push(plan);
        self.tasks = kept;
        assert(self@ =~= old_view.map_values(|p: TaskPlanView| abandoned(p)).push(r@));
        assert forall|j: int| 0 <= j < self@.len() - 1 implies #[trigger] self@[j].status != "active"@ by {
            assert(self@[j] == abandoned(old_view[j]));
            assert("abandoned"@.len() != "active"@.len());
        }
        r
    }

    /// Sets step `step_index` of the first plan with id `task_id` to `status`
    /// (and its note to `note` when that is not empty); the plan completes once
    /// all its steps are done or failed. Nothing changes, and the result is
    /// `None`, when there is no such plan or step or `status` is not a step status.
    pub fn update_step(&mut self, task_id: &str, step_index: usize, status: &str, note: &str) -> (r:
        Option<TaskPlan>)
        ensures
            ({
                let o = old(self)@;
                match first_plan(o, task_id@) {
                    Some(k) => if step_index < o[k].steps.len() && valid_step_status(status@) {
                        r matches Some(p) && {
                            let s = o[k].steps[step_index as int];
                            let ns = p@.steps[step_index as int];
                            &&& final(self)@ == o.update(k, p@)
                            &&& p@.id == o[k].id && p@.title == o[k].title && p@.created_ts
                                == o[k].created_ts
                            &&& p@.steps.len() == o[k].steps.len()
                            &&& forall|j: int|
                                0 <= j < p@.steps.len() && j != step_index ==> p@.steps[j]
                                    == o[k].steps[j]
                            &&& ns.title == s.title
                            &&& ns.status@ == status@
                            &&& ns.note@ == if note@.len() > 0 { note@ } else { s.note@ }
                            &&& p@.status == if all_finished(p@.steps) { "completed"@ } else { o[k].status }
                        }
                    } else {
                        r is None && final(self)@ == o
                    },
                    None => r is None && final(self)@ == o,
                }
            }),
            final(self)@.len() == old(self)@.len(),
            forall|j: int| 0 <= j < final(self)@.len() && #[trigger] final(self)@[j].status == "active"@
                ==> old(self)@[j].status == "active"@,
    {
        proof {
            reveal_strlit("active");
            reveal_strlit("completed");
        }
        let ghost o = self@;
        proof {
            lemma_first_plan(o, task_id@);
        }
        let mut k: usize = 0;
        while k < self.tasks.len()
            invariant
                self@ == o,
                k <= self.tasks.len(),
                forall|j: int| 0 <= j < k ==> o[j].id != task_id@,
            ensures
                self@ == o,
                k <= o.len(),
                forall|j: int| 0 <= j < k ==> o[j].id != task_id@,
                k < o.len() ==> o[k as int].id == task_id@,
            decreases self.tasks.len() - k,
        {
            assert(o[k as int] == self.tasks@[k as int]@);
            if str_eq(self.tasks[k].id.as_str(), task_id) {
                break;
            }
            k = k + 1;
        }
        if k == self.tasks.len() {
            return None;
        }
        assert(first_plan(o, task_id@) == Some(k as int));
        assert(o[k as int] == self.tasks@[k as int]@);
        if step_index >= self.tasks[k].steps.len() {
            return None;
        }
        if !(str_eq(status, "pending") || str_eq(status, "in_progress") || str_eq(status, "done")
            || str_eq(status, "failed")) {
            return None;
        }
        let mut plan = self.tasks.remove(k);
        let ghost before = plan@;
        let mut step = plan.steps.remove(step_index);
        step.status = to_owned_string(status);
        if !note.is_empty() {
            step.note = to_owned_string(note);
        }
        plan.steps.insert(step_index, step);
        assert(plan.steps@ =~= before.steps.update(step_index as int, step));
        let mut finished = true;
        let mut j: usize = 0;
        while j < plan.steps.len()
            invariant
                j <= plan.steps.len(),
                finished == forall|m: int| 0 <= m < j ==> #[trigger] plan.steps@[m].status@ == "done"@
                    || plan.steps@[m].status@ == "failed"@,
            decreases plan.steps.len() - j,
        {
            let st = plan.steps[j].status.as_str();
            if !(str_eq(st, "done") || str_eq(st, "failed")) {
                finished = false;
            }
            j = j + 1;
        }
        if finished {
            plan.status = to_owned_string("completed");
        }
        let r = plan.duplicate();
        self.tasks.insert(k, plan);
        assert(self@ =~= o.update(k as int, r@));
        Some(r)
    }

    /// The newest `limit` plans, newest first.
    pub fn list(&self, limit: usize) -> (r: Vec<TaskPlan>)
        ensures
            r@.len() == if limit < self@.len() { limit as int } else { self@.len() as int },
            forall|k: int| 0 <= k < r@.len() ==> #[trigger] r@[k]@ == self@[self@.len() - 1 - k],
    {
        let mut r: Vec<TaskPlan> = Vec::new();
        let n = self.tasks.len();
        let mut k: usize = 0;
        while k < n && k < limit
            invariant
                n == self@.len(),
                n == self.tasks@.len(),
                k <= n,
                k <= limit,
                r@.len() == k,
                forall|j: int| 0 <= j < k ==> #[trigger] r@[j]@ == self@[n - 1 - j],
            decreases n - k,
        {
            r.push(self.tasks[n - 1 - k].duplicate());
            k = k + 1;
        }
        r
    }
}


/// No two plans are active.
pub open spec fn at_most_one_active(plans: Seq<TaskPlanView>) -> bool {
    forall|i: int, j: int|
        0 <= i < j < plans.len() && #[trigger] plans[i].status == "active"@ ==> #[trigger] plans[j].status
            != "active"@
}

/// Law of plans: at most one plan is active at any time. Starting a plan (the
/// others abandoned, the new one appended) leaves only the new one active
/// whatever came before; updating a step (a plan replaced by one that is either
/// completed or keeps its status) keeps there being at most one.
pub proof fn law_single_active_plan(plans: Seq<TaskPlanView>, new_plan: TaskPlanView, k: int, updated: TaskPlanView)
    ensures
        at_most_one_active(plans.map_values(|p: TaskPlanView| abandoned(p)).push(new_plan)),
        at_most_one_active(plans) && 0 <= k < plans.len() && (updated.status == "completed"@
            || updated.status == plans[k].status) ==> at_most_one_active(plans.update(k, updated)),
{
    reveal_strlit("active");
    reveal_strlit("abandoned");
    reveal_strlit("completed");
    let started = plans.map_values(|p: TaskPlanView| abandoned(p)).push(new_plan);
    assert forall|i: int, j: int| 0 <= i < j < started.len() && #[trigger] started[i].status == "active"@ implies
        #[trigger] started[j].status != "active"@ by {
        assert(i < plans.len());
        assert(started[i] == plans.map_values(|p: TaskPlanView| abandoned(p))[i]);
        assert(started[i] == abandoned(plans[i]));
        assert("abandoned"@.len() != "active"@.len());
        assert(abandoned(plans[i]).status != "active"@);
    }
    if at_most_one_active(plans) && 0 <= k < plans.len() && (updated.status == "completed"@ || updated.status
        == plans[k].status) {
        let u = plans.update(k, updated);
        assert forall|i: int, j: int| 0 <= i < j < u.len() && #[trigger] u[i].status == "active"@ implies
            #[trigger] u[j].status != "active"@ by {
            assert(u[i].status == "active"@ ==> plans[i].status == "active"@);
            if u[j].status == "active"@ {
                assert(plans[j].status == "active"@);
                assert(plans[i].status == "active"@);
            }
        }
    }
}


/// Law of starting a plan: every earlier plan keeps its id, title, time and steps;
/// a plan that was active becomes abandoned, and any other keeps its status (a
/// completed plan stays completed); the new plan comes last, unchanged.
pub proof fn law_start_abandons_only_the_active_plan(plans: Seq<TaskPlanView>, new_plan: TaskPlanView)
    ensures
        ({
            let started = plans.map_values(|p: TaskPlanView| abandoned(p)).push(new_plan);
            &&& started.len() == plans.len() + 1
            &&& started[plans.len() as int] == new_plan
            &&& forall|j: int|
                0 <= j < plans.len() ==> {
                    let (o, n) = (plans[j], #[trigger] started[j]);
                    &&& n.id == o.id && n.title == o.title && n.created_ts == o.created_ts && n.steps
                        == o.steps
                    &&& o.status == "active"@ ==> n.status == "abandoned"@
                    &&& o.status != "active"@ ==> n.status == o.status
                }
        }),
{
    let started = plans.map_values(|p: TaskPlanView| abandoned(p)).push(new_plan);
    assert forall|j: int| 0 <= j < plans.len() implies {
        let (o, n) = (plans[j], #[trigger] started[j]);
        &&& n.id == o.id && n.title == o.title && n.created_ts == o.created_ts && n.steps == o.steps
        &&& o.status == "active"@ ==> n.status == "abandoned"@
        &&& o.status != "active"@ ==> n.status == o.status
    } by {
        assert(started[j] == abandoned(plans[j]));
    }
}

} // verus!
