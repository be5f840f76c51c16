//! The persistence facade: an in-memory relational store over the six
//! tables, with every operation verified against the transition and
//! query functions of the store's mathematical state. The surrounding
//! application keeps these rows in an SQLite file and feeds them in and
//! out through the row-level entry points.

use vstd::prelude::*;

use crate::codec::str_eq;
use crate::integrity::{lemma_delete_preserves_wf, lemma_insert_message_row_wf,
    lemma_insert_project_row_wf, lemma_insert_rule_row_wf, lemma_insert_step_row_wf,
    lemma_insert_task_row_wf, lemma_insert_thread_row_wf, lemma_save_message_preserves_wf,
    lemma_save_ok_iff_distinct, lemma_save_preserves_wf, lemma_save_thread_preserves_wf};
use crate::model::{AgentRule, ChatMessage, ChatMessageV, ChatThread, ChatThreadV, Project, Task,
    TaskStep};
use crate::rows::{ProjectRow, RuleRow, StepRow, TaskRow};
use crate::state::{assemble_project, bucket_of_task, delete_project_spec, first_by_path,
    has_message, has_project, has_rule, has_step, has_task, has_thread, list_messages_spec,
    list_threads_spec, load_project_by_path_spec, load_project_spec, load_projects_spec,
    bucket_rows, fits_order, message_at, message_of_thread, project_row_of, recent_project_rows,
    recent_projects_spec, rule_row_of, rule_rows_of, save_ok_spec, save_project_spec, step_row_of,
    task_row_of, task_rows_of, task_step_rows, tasks_step_rows, thread_has_message,
    load_or_create_spec, new_project_spec, upsert_project_row, visible_thread, visible_threads,
    message_not_owned, other_project, other_rule, other_task, other_thread, project_at,
    rule_of_project, rules_of, save_message_spec, save_thread_spec, step_in_bucket, step_not_owned,
    step_of_row, task_of_project, task_of_row, task_owned_by, tasks_of, thread_at,
    thread_owned_by, thread_row_updated, StoreV};
use crate::codec::{parse_step_bucket, parse_task_status, parse_task_step_type, step_bucket_as_str,
    task_status_as_str, task_step_type_as_str, StepBucket};
use vstd::string::StringExecFns;
use crate::sorting::{lemma_sort_contains, lemma_sort_len, sort_by_key, sort_rows};
use crate::ident::{current_timestamp_millis, derived_project_id};
use crate::pathname::project_name_from_path;
use vstd::pervasive::unreached;
use crate::filters::lemma_filter_push;
use crate::rows::{ProjectRowV, RuleRowV, StepRowV, TaskRowV};
use vstd::pervasive::VecAdditionalExecFns;

verus! {

/// A constraint failure: the write would break a row constraint, so the
/// store is left unchanged.
#[derive(Debug, Clone, Copy, PartialEq, Eq, Structural)]
pub enum StoreError {
    /// A row with the same id already exists where a fresh one is
    /// required.
    DuplicateId,
    /// The row's parent does not exist.
    MissingParent,
}

/// The store: the rows of the six tables, held in insertion order. Its
/// view is the mathematical [`StoreV`].
pub struct DataService {
    projects: Vec<ProjectRow>,
    rules: Vec<RuleRow>,
    tasks: Vec<TaskRow>,
    steps: Vec<StepRow>,
    threads: Vec<ChatThread>,
    messages: Vec<ChatMessage>,
}

impl View for DataService {
    type V = StoreV;

    closed spec fn view(&self) -> StoreV {
        StoreV {
            projects: self.projects.deep_view(),
            rules: self.rules.deep_view(),
            tasks: self.tasks.deep_view(),
            steps: self.steps.deep_view(),
            threads: self.threads.deep_view(),
            messages: self.messages.deep_view(),
        }
    }
}

impl DataService {
    /// Opens an empty store.
    pub fn new() -> (r: DataService)
        ensures
            r@ == StoreV::empty(),
            r@.wf(),
    {
        let r = DataService {
            projects: Vec::new(),
            rules: Vec::new(),
            tasks: Vec::new(),
            steps: Vec::new(),
            threads: Vec::new(),
            messages: Vec::new(),
        };
        proof {
            assert(r@.projects =~= Seq::<crate::rows::ProjectRowV>::empty());
            assert(r@.rules =~= Seq::<crate::rows::RuleRowV>::empty());
            assert(r@.tasks =~= Seq::<crate::rows::TaskRowV>::empty());
            assert(r@.steps =~= Seq::<crate::rows::StepRowV>::empty());
            assert(r@.threads =~= Seq::<crate::model::ChatThreadV>::empty());
            assert(r@.messages =~= Seq::<crate::model::ChatMessageV>::empty());
            assert(r@ =~= StoreV::empty());
        }
        r
    }

    /// The index of the project row with this id, if one exists.
    fn project_index(&self, id: &str) -> (r: Option<usize>)
        ensures
            match r {
                Some(i) => i < self.projects.len() && self@.projects[i as int].id == id@,
                None => !has_project(self@, id@),
            },
            r is Some <==> has_project(self@, id@),
    {
        let mut i: usize = 0;
        while i < self.projects.len()
            invariant
                i <= self.projects.len(),
                forall|k: int| 0 <= k < i ==> (#[trigger] self@.projects[k]).id != id@,
            decreases self.projects.len() - i,
        {
            if str_eq(self.projects[i].id.as_str(), id) {
                proof {
                    assert(self@.projects[i as int].id == id@);
                }
                return Some(i);
            }
            i += 1;
        }
        proof {
            if has_project(self@, id@) {
                let k = choose|k: int|
                    0 <= k < self@.projects.len() && (#[trigger] self@.projects[k]).id == id@;
                assert(false);
            }
        }
        None
    }

    /// The index of the thread row with this id, if one exists.
    fn thread_index(&self, id: &str) -> (r: Option<usize>)
        ensures
            match r {
                Some(i) => i < self.threads.len() && self@.threads[i as int].id == id@,
                None => !has_thread(self@, id@),
            },
            r is Some <==> has_thread(self@, id@),
    {
        let mut i: usize = 0;
        while i < self.threads.len()
            invariant
                i <= self.threads.len(),
                forall|k: int| 0 <= k < i ==> (#[trigger] self@.threads[k]).id != id@,
            decreases self.threads.len() - i,
        {
            if str_eq(self.threads[i].id.as_str(), id) {
                proof {
                    assert(self@.threads[i as int].id == id@);
                }
                return Some(i);
            }
            i += 1;
        }
        proof {
            if has_thread(self@, id@) {
                let k = choose|k: int|
                    0 <= k < self@.threads.len() && (#[trigger] self@.threads[k]).id == id@;
                assert(false);
            }
        }
        None
    }

    /// The index of the message row with this id, if one exists.
    fn message_index(&self, id: &str) -> (r: Option<usize>)
        ensures
            match r {
                Some(i) => i < self.messages.len() && self@.messages[i as int].id == id@,
                None => !has_message(self@, id@),
            },
            r is Some <==> has_message(self@, id@),
    {
        let mut i: usize = 0;
        while i < self.messages.len()
            invariant
                i <= self.messages.len(),
                forall|k: int| 0 <= k < i ==> (#[trigger] self@.messages[k]).id != id@,
            decreases self.messages.len() - i,
        {
            if str_eq(self.messages[i].id.as_str(), id) {
                proof {
                    assert(self@.messages[i as int].id == id@);
                }
                return Some(i);
            }
            i += 1;
        }
        proof {
            if has_message(self@, id@) {
                let k = choose|k: int|
                    0 <= k < self@.messages.len() && (#[trigger] self@.messages[k]).id == id@;
                assert(false);
            }
        }
        None
    }

    /// Whether the tasks table has a row with this id.
    fn task_exists(&self, id: &str) -> (r: bool)
        ensures
            r == has_task(self@, id@),
    {
        let mut i: usize = 0;
        while i < self.tasks.len()
            invariant
                i <= self.tasks.len(),
                forall|k: int| 0 <= k < i ==> (#[trigger] self@.tasks[k]).id != id@,
            decreases self.tasks.len() - i,
        {
            if str_eq(self.tasks[i].id.as_str(), id) {
                proof {
                    assert(self@.tasks[i as int].id == id@);
                }
                return true;
            }
            i += 1;
        }
        proof {
            if has_task(self@, id@) {
                let k = choose|k: int|
                    0 <= k < self@.tasks.len() && (#[trigger] self@.tasks[k]).id == id@;
                assert(false);
            }
        }
        false
    }

    /// Whether the agent_rules table has a row with this id.
    fn rule_exists(&self, id: &str) -> (r: bool)
        ensures
            r == has_rule(self@, id@),
    {
        let mut i: usize = 0;
        while i < self.rules.len()
            invariant
                i <= self.rules.len(),
                forall|k: int| 0 <= k < i ==> (#[trigger] self@.rules[k]).rule.id != id@,
            decreases self.rules.len() - i,
        {
            if str_eq(self.rules[i].rule.id.as_str(), id) {
                proof {
                    assert(self@.rules[i as int].rule.id == id@);
                }
                return true;
            }
            i += 1;
        }
        proof {
            if has_rule(self@, id@) {
                let k = choose|k: int|
                    0 <= k < self@.rules.len() && (#[trigger] self@.rules[k]).rule.id == id@;
                assert(false);
            }
        }
        false
    }

    /// Whether the task_steps table has a row with this id.
    fn step_exists(&self, id: &str) -> (r: bool)
        ensures
            r == has_step(self@, id@),
    {
        let mut i: usize = 0;
        while i < self.steps.len()
            invariant
                i <= self.steps.len(),
                forall|k: int| 0 <= k < i ==> (#[trigger] self@.steps[k]).id != id@,
            decreases self.steps.len() - i,
        {
            if str_eq(self.steps[i].id.as_str(), id) {
                proof {
                    assert(self@.steps[i as int].id == id@);
                }
                return true;
            }
            i += 1;
        }
        proof {
            if has_step(self@, id@) {
                let k = choose|k: int|
                    0 <= k < self@.steps.len() && (#[trigger] self@.steps[k]).id == id@;
                assert(false);
            }
        }
        false
    }

    /// Ingests one project row, as when reading the store's file table
    /// by table. The id must be fresh.
    pub fn insert_project_row(&mut self, row: ProjectRow) -> (r: Result<(), StoreError>)
        requires
            old(self)@.wf(),
        ensures
            final(self)@.wf(),
            r is Ok <==> !has_project(old(self)@, row.id@),
            r is Ok ==> final(self)@ == (StoreV {
                projects: old(self)@.projects.push(row.deep_view()),
                ..old(self)@
            }),
            r is Err ==> final(self)@ == old(self)@ && r == Err::<(), StoreError>(
                StoreError::DuplicateId,
            ),
    {
        if self.project_index(row.id.as_str()).is_some() {
            return Err(StoreError::DuplicateId);
        }
        let ghost v = self@;
        let ghost rowv = row.deep_view();
        self.projects.push(row);
        proof {
            assert(self@.projects =~= v.projects.push(rowv));
            assert(self@ =~= (StoreV { projects: v.projects.push(rowv), ..v }));
            lemma_insert_project_row_wf(v, rowv);
        }
        Ok(())
    }

    /// Ingests one rule row. The id must be fresh and the owning project
    /// present.
    pub fn insert_rule_row(&mut self, row: RuleRow) -> (r: Result<(), StoreError>)
        requires
            old(self)@.wf(),
        ensures
            final(self)@.wf(),
            r is Ok <==> (!has_rule(old(self)@, row.rule.id@) && has_project(
                old(self)@,
                row.project_id@,
            )),
            r is Ok ==> final(self)@ == (StoreV {
                rules: old(self)@.rules.push(row.deep_view()),
                ..old(self)@
            }),
            r is Err ==> final(self)@ == old(self)@,
            r == Err::<(), StoreError>(StoreError::DuplicateId) <==> has_rule(
                old(self)@,
                row.rule.id@,
            ),
            r == Err::<(), StoreError>(StoreError::MissingParent) <==> (!has_rule(
                old(self)@,
                row.rule.id@,
            ) && !has_project(old(self)@, row.project_id@)),
    {
        if self.rule_exists(row.rule.id.as_str()) {
            return Err(StoreError::DuplicateId);
        }
        if self.project_index(row.project_id.as_str()).is_none() {
            return Err(StoreError::MissingParent);
        }
        let ghost v = self@;
        let ghost rowv = row.deep_view();
        self.rules.push(row);
        proof {
            assert(self@.rules =~= v.rules.push(rowv));
            assert(self@ =~= (StoreV { rules: v.rules.push(rowv), ..v }));
            lemma_insert_rule_row_wf(v, rowv);
        }
        Ok(())
    }

    /// Ingests one task row. The id must be fresh and the owning project
    /// present.
    pub fn insert_task_row(&mut self, row: TaskRow) -> (r: Result<(), StoreError>)
        requires
            old(self)@.wf(),
        ensures
            final(self)@.wf(),
            r is Ok <==> (!has_task(old(self)@, row.id@) && has_project(
                old(self)@,
                row.project_id@,
            )),
            r is Ok ==> final(self)@ == (StoreV {
                tasks: old(self)@.tasks.push(row.deep_view()),
                ..old(self)@
            }),
            r is Err ==> final(self)@ == old(self)@,
            r == Err::<(), StoreError>(StoreError::DuplicateId) <==> has_task(
                old(self)@,
                row.id@,
            ),
            r == Err::<(), StoreError>(StoreError::MissingParent) <==> (!has_task(
                old(self)@,
                row.id@,
            ) && !has_project(old(self)@, row.project_id@)),
    {
        if self.task_exists(row.id.as_str()) {
            return Err(StoreError::DuplicateId);
        }
        if self.project_index(row.project_id.as_str()).is_none() {
            return Err(StoreError::MissingParent);
        }
        let ghost v = self@;
        let ghost rowv = row.deep_view();
        self.tasks.push(row);
        proof {
            assert(self@.tasks =~= v.tasks.push(rowv));
            assert(self@ =~= (StoreV { tasks: v.tasks.push(rowv), ..v }));
            lemma_insert_task_row_wf(v, rowv);
        }
        Ok(())
    }

    /// Ingests one step row. The id must be fresh and the owning task
    /// present.
    pub fn insert_step_row(&mut self, row: StepRow) -> (r: Result<(), StoreError>)
        requires
            old(self)@.wf(),
        ensures
            final(self)@.wf(),
            r is Ok <==> (!has_step(old(self)@, row.id@) && has_task(old(self)@, row.task_id@)),
            r is Ok ==> final(self)@ == (StoreV {
                steps: old(self)@.steps.push(row.deep_view()),
                ..old(self)@
            }),
            r is Err ==> final(self)@ == old(self)@,
            r == Err::<(), StoreError>(StoreError::DuplicateId) <==> has_step(
                old(self)@,
                row.id@,
            ),
            r == Err::<(), StoreError>(StoreError::MissingParent) <==> (!has_step(
                old(self)@,
                row.id@,
            ) && !has_task(old(self)@, row.task_id@)),
    {
        if self.step_exists(row.id.as_str()) {
            return Err(StoreError::DuplicateId);
        }
        if !self.task_exists(row.task_id.as_str()) {
            return Err(StoreError::MissingParent);
        }
        let ghost v = self@;
        let ghost rowv = row.deep_view();
        self.steps.push(row);
        proof {
            assert(self@.steps =~= v.steps.push(rowv));
            assert(self@ =~= (StoreV { steps: v.steps.push(rowv), ..v }));
            lemma_insert_step_row_wf(v, rowv);
        }
        Ok(())
    }

    /// Ingests one thread row. The id must be fresh and the owning
    /// project present.
    pub fn insert_thread_row(&mut self, row: ChatThread) -> (r: Result<(), StoreError>)
        requires
            old(self)@.wf(),
        ensures
            final(self)@.wf(),
            r is Ok <==> (!has_thread(old(self)@, row.id@) && has_project(
                old(self)@,
                row.project_id@,
            )),
            r is Ok ==> final(self)@ == (StoreV {
                threads: old(self)@.threads.push(row.deep_view()),
                ..old(self)@
            }),
            r is Err ==> final(self)@ == old(self)@,
            r == Err::<(), StoreError>(StoreError::DuplicateId) <==> has_thread(
                old(self)@,
                row.id@,
            ),
            r == Err::<(), StoreError>(StoreError::MissingParent) <==> (!has_thread(
                old(self)@,
                row.id@,
            ) && !has_project(old(self)@, row.project_id@)),
    {
        if self.thread_index(row.id.as_str()).is_some() {
            return Err(StoreError::DuplicateId);
        }
        if self.project_index(row.project_id.as_str()).is_none() {
            return Err(StoreError::MissingParent);
        }
        let ghost v = self@;
        let ghost rowv = row.deep_view();
        self.threads.push(row);
        proof {
            assert(self@.threads =~= v.threads.push(rowv));
            assert(self@ =~= (StoreV { threads: v.threads.push(rowv), ..v }));
            lemma_insert_thread_row_wf(v, rowv);
        }
        Ok(())
    }

    /// Ingests one message row. The id must be fresh and the owning
    /// thread present.
    pub fn insert_message_row(&mut self, row: ChatMessage) -> (r: Result<(), StoreError>)
        requires
            old(self)@.wf(),
        ensures
            final(self)@.wf(),
            r is Ok <==> (!has_message(old(self)@, row.id@) && has_thread(
                old(self)@,
                row.thread_id@,
            )),
            r is Ok ==> final(self)@ == (StoreV {
                messages: old(self)@.messages.push(row.deep_view()),
                ..old(self)@
            }),
            r is Err ==> final(self)@ == old(self)@,
            r == Err::<(), StoreError>(StoreError::DuplicateId) <==> has_message(
                old(self)@,
                row.id@,
            ),
            r == Err::<(), StoreError>(StoreError::MissingParent) <==> (!has_message(
                old(self)@,
                row.id@,
            ) && !has_thread(old(self)@, row.thread_id@)),
    {
        if self.message_index(row.id.as_str()).is_some() {
            return Err(StoreError::DuplicateId);
        }
        if self.thread_index(row.thread_id.as_str()).is_none() {
            return Err(StoreError::MissingParent);
        }
        let ghost v = self@;
        let ghost rowv = row.deep_view();
        self.messages.push(row);
        proof {
            assert(self@.messages =~= v.messages.push(rowv));
            assert(self@ =~= (StoreV { messages: v.messages.push(rowv), ..v }));
            lemma_insert_message_row_wf(v, rowv);
        }
        Ok(())
    }

    /// The steps of one of a task's three sequences, ordered by their
    /// stored position and, among equal positions, by their update time;
    /// statuses and kind tags decode leniently.
    fn collect_bucket(&self, task_id: &str, bucket: StepBucket) -> (r: Vec<TaskStep>)
        ensures
            r.deep_view() == bucket_of_task(self@, task_id@, bucket),
    {
        let ghost dv = self.steps.deep_view();
        let mut rows: Vec<StepRow> = Vec::new();
        proof {
            reveal(Seq::filter);
            assert(rows.deep_view() =~= dv.take(0).filter(step_in_bucket(task_id@, bucket)));
        }
        let mut i: usize = 0;
        while i < self.steps.len()
            invariant
                i <= self.steps.len(),
                dv == self.steps.deep_view(),
                rows.deep_view() == dv.take(i as int).filter(step_in_bucket(task_id@, bucket)),
            decreases self.steps.len() - i,
        {
            let keep = str_eq(self.steps[i].task_id.as_str(), task_id) && parse_step_bucket(
                self.steps[i].step_kind.as_str(),
            ) == bucket;
            proof {
                let prefix = dv.take(i as int);
                lemma_filter_push(prefix, step_in_bucket(task_id@, bucket), dv[i as int]);
                assert(dv.take(i as int + 1) =~= prefix.push(dv[i as int]));
                assert(step_in_bucket(task_id@, bucket)(dv[i as int]) == keep);
            }
            if keep {
                let ghost pre = rows.deep_view();
                rows.push(self.steps[i].clone());
                proof {
                    assert(rows.deep_view() =~= pre.push(dv[i as int]));
                }
            }
            i += 1;
        }
        proof {
            assert(dv.take(self.steps.len() as int) =~= dv);
        }
        let sorted = sort_rows(&rows);
        let ghost sv = sorted.deep_view();
        let mut out: Vec<TaskStep> = Vec::new();
        let mut j: usize = 0;
        proof {
            assert(out.deep_view() =~= sv.take(0).map_values(|s: StepRowV| step_of_row(s)));
        }
        while j < sorted.len()
            invariant
                j <= sorted.len(),
                sv == sorted.deep_view(),
                out.deep_view() == sv.take(j as int).map_values(|s: StepRowV| step_of_row(s)),
            decreases sorted.len() - j,
        {
            let step = TaskStep {
                id: sorted[j].id.clone(),
                title: sorted[j].title.clone(),
                content: sorted[j].content.clone(),
                status: parse_task_status(sorted[j].status.as_str()),
                created_at: sorted[j].created_at,
                updated_at: sorted[j].updated_at,
                step_type: parse_task_step_type(sorted[j].step_type.as_str()),
            };
            let ghost pre = out.deep_view();
            proof {
                assert(step.deep_view() == step_of_row(sv[j as int]));
            }
            out.push(step);
            proof {
                assert(out.deep_view() =~= pre.push(step_of_row(sv[j as int])));
                assert(sv.take(j as int + 1).map_values(|s: StepRowV| step_of_row(s)) =~= sv.take(
                    j as int,
                ).map_values(|s: StepRowV| step_of_row(s)).push(step_of_row(sv[j as int])));
            }
            j += 1;
        }
        proof {
            assert(sv.take(sorted.len() as int) =~= sv);
        }
        out
    }

    /// The rules of a project, in table order.
    fn load_rules(&self, project_id: &str) -> (r: Vec<AgentRule>)
        ensures
            r.deep_view() == rules_of(self@, project_id@),
    {
        let ghost dv = self.rules.deep_view();
        let mut out: Vec<AgentRule> = Vec::new();
        proof {
            reveal(Seq::filter);
            assert(out.deep_view() =~= dv.take(0).filter(rule_of_project(project_id@)).map_values(
                |r: RuleRowV| r.rule,
            ));
        }
        let mut i: usize = 0;
        while i < self.rules.len()
            invariant
                i <= self.rules.len(),
                dv == self.rules.deep_view(),
                out.deep_view() == dv.take(i as int).filter(rule_of_project(project_id@)).map_values(
                    |r: RuleRowV| r.rule,
                ),
            decreases self.rules.len() - i,
        {
            let keep = str_eq(self.rules[i].project_id.as_str(), project_id);
            proof {
                let prefix = dv.take(i as int);
                lemma_filter_push(prefix, rule_of_project(project_id@), dv[i as int]);
                assert(dv.take(i as int + 1) =~= prefix.push(dv[i as int]));
                assert(rule_of_project(project_id@)(dv[i as int]) == keep);
            }
            if keep {
                let ghost pre = out.deep_view();
                out.push(self.rules[i].rule.clone());
                proof {
                    assert(out.deep_view() =~= pre.push(dv[i as int].rule));
                    assert(dv.take(i as int + 1).filter(rule_of_project(project_id@)).map_values(
                        |r: RuleRowV| r.rule,
                    ) =~= pre.push(dv[i as int].rule));
                }
            } else {
                proof {
                    assert(dv.take(i as int + 1).filter(rule_of_project(project_id@)).map_values(
                        |r: RuleRowV| r.rule,
                    ) =~= out.deep_view());
                }
            }
            i += 1;
        }
        proof {
            assert(dv.take(self.rules.len() as int) =~= dv);
        }
        out
    }

    /// The tasks of a project, in table order, each with its three step
    /// sequences reassembled.
    fn load_tasks(&self, project_id: &str) -> (r: Vec<Task>)
        ensures
            r.deep_view() == tasks_of(self@, project_id@),
    {
        let ghost v = self@;
        let ghost dv = self.tasks.deep_view();
        let mut matched: Vec<TaskRow> = Vec::new();
        proof {
            reveal(Seq::filter);
            assert(matched.deep_view() =~= dv.take(0).filter(task_of_project(project_id@)));
        }
        let mut i: usize = 0;
        while i < self.tasks.len()
            invariant
                i <= self.tasks.len(),
                dv == self.tasks.deep_view(),
                matched.deep_view() == dv.take(i as int).filter(task_of_project(project_id@)),
            decreases self.tasks.len() - i,
        {
            let keep = str_eq(self.tasks[i].project_id.as_str(), project_id);
            proof {
                let prefix = dv.take(i as int);
                lemma_filter_push(prefix, task_of_project(project_id@), dv[i as int]);
                assert(dv.take(i as int + 1) =~= prefix.push(dv[i as int]));
                assert(task_of_project(project_id@)(dv[i as int]) == keep);
            }
            if keep {
                let ghost pre = matched.deep_view();
                matched.push(self.tasks[i].clone());
                proof {
                    assert(matched.deep_view() =~= pre.push(dv[i as int]));
                }
            }
            i += 1;
        }
        proof {
            assert(dv.take(self.tasks.len() as int) =~= dv);
        }
        let ghost mv = matched.deep_view();
        let mut out: Vec<Task> = Vec::new();
        let mut j: usize = 0;
        proof {
            assert(out.deep_view() =~= mv.take(0).map_values(|t: TaskRowV| task_of_row(v, t)));
        }
        while j < matched.len()
            invariant
                j <= matched.len(),
                v == self@,
                mv == matched.deep_view(),
                out.deep_view() == mv.take(j as int).map_values(|t: TaskRowV| task_of_row(v, t)),
            decreases matched.len() - j,
        {
            let task = Task {
                id: matched[j].id.clone(),
                project_id: matched[j].project_id.clone(),
                title: matched[j].title.clone(),
                description: matched[j].description.clone(),
                steps: self.collect_bucket(matched[j].id.as_str(), StepBucket::Main),
                presteps: self.collect_bucket(matched[j].id.as_str(), StepBucket::Pre),
                poststeps: self.collect_bucket(matched[j].id.as_str(), StepBucket::Post),
                status: parse_task_status(matched[j].status.as_str()),
                created_at: matched[j].created_at,
                updated_at: matched[j].updated_at,
            };
            let ghost pre = out.deep_view();
            proof {
                assert(task.deep_view() == task_of_row(v, mv[j as int]));
            }
            out.push(task);
            proof {
                assert(out.deep_view() =~= pre.push(task_of_row(v, mv[j as int])));
                assert(mv.take(j as int + 1).map_values(|t: TaskRowV| task_of_row(v, t)) =~= mv.take(
                    j as int,
                ).map_values(|t: TaskRowV| task_of_row(v, t)).push(task_of_row(v, mv[j as int])));
            }
            j += 1;
        }
        proof {
            assert(mv.take(matched.len() as int) =~= mv);
        }
        out
    }

    /// The point read: the full nested project (rules, tasks, each
    /// task's three step sequences in stored order), or nothing if the
    /// id is absent — never a partial value.
    pub fn load_project(&self, project_id: &str) -> (r: Option<Project>)
        requires
            self@.wf(),
        ensures
            r.deep_view() == load_project_spec(self@, project_id@),
            r is Some <==> has_project(self@, project_id@),
    {
        let ghost v = self@;
        let i = match self.project_index(project_id) {
            Some(i) => i,
            None => {
                return None;
            },
        };
        proof {
            let j = project_at(v, project_id@);
            assert(0 <= j < v.projects.len() && v.projects[j].id == project_id@);
            assert(i as int == j) by {
                assert(v.projects[i as int].id == project_id@);
            }
        }
        let rules = self.load_rules(project_id);
        let tasks = self.load_tasks(project_id);
        let project = Project {
            id: self.projects[i].id.clone(),
            name: self.projects[i].name.clone(),
            path: self.projects[i].path.clone(),
            rules,
            tasks,
            created_at: self.projects[i].created_at,
            updated_at: self.projects[i].updated_at,
        };
        proof {
            assert(rules_of(v, v.projects[i as int].id) =~= rules_of(v, project_id@));
            assert(tasks_of(v, v.projects[i as int].id) =~= tasks_of(v, project_id@));
            assert(project.deep_view() == assemble_project(v, v.projects[project_at(
                v,
                project_id@,
            )]));
        }
        Some(project)
    }

    /// At most `count` full projects, most recently updated first. A
    /// count of zero returns an empty listing outright.
    pub fn get_recent_projects(&self, count: usize) -> (r: Vec<Project>)
        requires
            self@.wf(),
        ensures
            r.deep_view() == recent_projects_spec(self@, count as int),
            r.deep_view().len() <= count,
            forall|a: int, b: int|
                0 <= a < b < r.deep_view().len() ==> (#[trigger] r.deep_view()[a]).updated_at >= (
                #[trigger] r.deep_view()[b]).updated_at,
    {
        proof {
            lemma_recent_projects_ordered(self@, count as int);
        }
        let ghost v = self@;
        if count == 0 {
            let r: Vec<Project> = Vec::new();
            proof {
                assert(r.deep_view() =~= recent_projects_spec(v, 0));
            }
            return r;
        }
        let sorted = sort_rows(&self.projects);
        let ghost sv = sorted.deep_view();
        let n = if count < sorted.len() {
            count
        } else {
            sorted.len()
        };
        let mut out: Vec<Project> = Vec::new();
        let mut j: usize = 0;
        proof {
            assert(out.deep_view() =~= sv.take(0).map_values(
                |row: ProjectRowV| assemble_project(v, row),
            ));
        }
        while j < n
            invariant
                j <= n,
                n <= sorted.len(),
                n == if count < sv.len() { count as int } else { sv.len() as int },
                v == self@,
                v.wf(),
                sv == sorted.deep_view(),
                sv == recent_project_rows(v),
                out.deep_view() == sv.take(j as int).map_values(
                    |row: ProjectRowV| assemble_project(v, row),
                ),
            decreases n - j,
        {
            proof {
                lemma_sort_contains::<ProjectRow>(v.projects, sv[j as int]);
                assert(sort_by_key::<ProjectRow>(v.projects).contains(sv[j as int])) by {
                    assert(recent_project_rows(v)[j as int] == sv[j as int]);
                }
                lemma_row_assembles(v, sv[j as int]);
            }
            let p = match self.load_project(sorted[j].id.as_str()) {
                Some(p) => p,
                None => unreached(),
            };
            let ghost pre = out.deep_view();
            proof {
                assert(p.deep_view() == assemble_project(v, sv[j as int]));
            }
            out.push(p);
            proof {
                assert(out.deep_view() =~= pre.push(assemble_project(v, sv[j as int])));
                assert(sv.take(j as int + 1).map_values(
                    |row: ProjectRowV| assemble_project(v, row),
                ) =~= sv.take(j as int).map_values(|row: ProjectRowV| assemble_project(v, row)).push(
                    assemble_project(v, sv[j as int]),
                ));
            }
            j += 1;
        }
        proof {
            assert(recent_projects_spec(v, count as int) =~= sv.take(n as int).map_values(
                |row: ProjectRowV| assemble_project(v, row),
            ));
        }
        out
    }

    /// Every project, fully assembled, most recently updated first.
    pub fn load_projects(&self) -> (r: Vec<Project>)
        requires
            self@.wf(),
        ensures
            r.deep_view() == load_projects_spec(self@),
    {
        let ghost v = self@;
        if self.projects.len() == 0 {
            let r: Vec<Project> = Vec::new();
            proof {
                lemma_sort_len::<ProjectRow>(v.projects);
                assert(r.deep_view() =~= load_projects_spec(v));
            }
            return r;
        }
        let r = self.get_recent_projects(self.projects.len());
        proof {
            lemma_sort_len::<ProjectRow>(v.projects);
            assert(recent_project_rows(v).take(v.projects.len() as int) =~= recent_project_rows(
                v,
            ));
            assert(recent_projects_spec(v, v.projects.len() as int) =~= load_projects_spec(v));
        }
        r
    }

    /// The most recently updated project whose path matches exactly,
    /// fully assembled, or nothing.
    pub fn load_project_by_path(&self, project_path: &str) -> (r: Option<Project>)
        requires
            self@.wf(),
        ensures
            r.deep_view() == load_project_by_path_spec(self@, project_path@),
    {
        let ghost v = self@;
        let sorted = sort_rows(&self.projects);
        let ghost sv = sorted.deep_view();
        let mut j: usize = 0;
        proof {
            assert(sv.skip(0) =~= sv);
        }
        while j < sorted.len()
            invariant
                j <= sorted.len(),
                v == self@,
                v.wf(),
                sv == sorted.deep_view(),
                sv == recent_project_rows(v),
                first_by_path(sv, project_path@) == first_by_path(sv.skip(j as int), project_path@),
            decreases sorted.len() - j,
        {
            let ghost tail = sv.skip(j as int);
            if str_eq(sorted[j].path.as_str(), project_path) {
                proof {
                    assert(tail[0] == sv[j as int]);
                    assert(first_by_path(sv, project_path@) == Some(sv[j as int]));
                    lemma_sort_contains::<ProjectRow>(v.projects, sv[j as int]);
                    assert(sort_by_key::<ProjectRow>(v.projects).contains(sv[j as int])) by {
                        assert(recent_project_rows(v)[j as int] == sv[j as int]);
                    }
                    lemma_row_assembles(v, sv[j as int]);
                }
                let p = match self.load_project(sorted[j].id.as_str()) {
                    Some(p) => p,
                    None => unreached(),
                };
                proof {
                    assert(p.deep_view() == assemble_project(v, sv[j as int]));
                }
                return Some(p);
            }
            proof {
                assert(tail[0] == sv[j as int]);
                assert(tail.skip(1) =~= sv.skip(j as int + 1));
            }
            j += 1;
        }
        proof {
            assert(sv.skip(sorted.len() as int) =~= Seq::<ProjectRowV>::empty());
        }
        None
    }

    /// At most `count` of a project's chat threads that have at least
    /// one message, most recently updated first. A thread with no saved
    /// message does not appear.
    pub fn load_chat_threads_by_project(&self, project_id: &str, count: usize) -> (r: Vec<
        ChatThread,
    >)
        requires
            self@.wf(),
        ensures
            r.deep_view() == list_threads_spec(self@, project_id@, count as int),
            r.deep_view().len() <= count,
            forall|a: int, b: int|
                0 <= a < b < r.deep_view().len() ==> (#[trigger] r.deep_view()[a]).updated_at >= (
                #[trigger] r.deep_view()[b]).updated_at,
    {
        proof {
            lemma_listed_threads_ordered(self@, project_id@, count as int);
        }
        let ghost v = self@;
        let ghost dv = self.threads.deep_view();
        let mut visible: Vec<ChatThread> = Vec::new();
        proof {
            reveal(Seq::filter);
            assert(visible.deep_view() =~= dv.take(0).filter(visible_thread(
                v.messages,
                project_id@,
            )));
        }
        let mut i: usize = 0;
        while i < self.threads.len()
            invariant
                i <= self.threads.len(),
                v == self@,
                dv == self.threads.deep_view(),
                visible.deep_view() == dv.take(i as int).filter(visible_thread(
                    v.messages,
                    project_id@,
                )),
            decreases self.threads.len() - i,
        {
            let keep = str_eq(self.threads[i].project_id.as_str(), project_id) && thread_has_msg(
                &self.messages,
                self.threads[i].id.as_str(),
            );
            proof {
                let prefix = dv.take(i as int);
                lemma_filter_push(prefix, visible_thread(v.messages, project_id@), dv[i as int]);
                assert(dv.take(i as int + 1) =~= prefix.push(dv[i as int]));
                assert(visible_thread(v.messages, project_id@)(dv[i as int]) == keep);
            }
            if keep {
                let ghost pre = visible.deep_view();
                visible.push(self.threads[i].clone());
                proof {
                    assert(visible.deep_view() =~= pre.push(dv[i as int]));
                }
            }
            i += 1;
        }
        proof {
            assert(dv.take(self.threads.len() as int) =~= dv);
        }
        let mut sorted = sort_rows(&visible);
        let ghost sv = sorted.deep_view();
        sorted.truncate(count);
        proof {
            let n = if (count as int) < sv.len() {
                count as int
            } else {
                sv.len() as int
            };
            assert(sorted.deep_view() =~= sv.take(n));
        }
        sorted
    }

    /// Every message of a thread, in chronological replay order,
    /// unbounded.
    pub fn load_chat_messages_by_thread(&self, thread_id: &str) -> (r: Vec<ChatMessage>)
        requires
            self@.wf(),
        ensures
            r.deep_view() == list_messages_spec(self@, thread_id@),
            forall|a: int, b: int|
                0 <= a < b < r.deep_view().len() ==> (#[trigger] r.deep_view()[a]).created_at <= (
                #[trigger] r.deep_view()[b]).created_at,
    {
        proof {
            lemma_listed_messages_ordered(self@, thread_id@);
        }
        let ghost v = self@;
        let ghost dv = self.messages.deep_view();
        let mut matched: Vec<ChatMessage> = Vec::new();
        proof {
            reveal(Seq::filter);
            assert(matched.deep_view() =~= dv.take(0).filter(message_of_thread(thread_id@)));
        }
        let mut i: usize = 0;
        while i < self.messages.len()
            invariant
                i <= self.messages.len(),
                dv == self.messages.deep_view(),
                matched.deep_view() == dv.take(i as int).filter(message_of_thread(thread_id@)),
            decreases self.messages.len() - i,
        {
            let keep = str_eq(self.messages[i].thread_id.as_str(), thread_id);
            proof {
                let prefix = dv.take(i as int);
                lemma_filter_push(prefix, message_of_thread(thread_id@), dv[i as int]);
                assert(dv.take(i as int + 1) =~= prefix.push(dv[i as int]));
                assert(message_of_thread(thread_id@)(dv[i as int]) == keep);
            }
            if keep {
                let ghost pre = matched.deep_view();
                matched.push(self.messages[i].clone());
                proof {
                    assert(matched.deep_view() =~= pre.push(dv[i as int]));
                }
            }
            i += 1;
        }
        proof {
            assert(dv.take(self.messages.len() as int) =~= dv);
        }
        sort_rows(&matched)
    }

    /// Saves a project by whole-subtree replacement, atomically: the
    /// project row is upserted by id; every rule and task row the
    /// project owned (and their steps) is deleted; the project's current
    /// rules, tasks and step sequences are inserted, positions counting
    /// up from zero per sequence. If any inserted child id collides, the
    /// save fails as a whole and the store is unchanged.
    pub fn upsert_project(&mut self, project: &Project) -> (r: Result<(), StoreError>)
        requires
            old(self)@.wf(),
            fits_order(project.deep_view()),
        ensures
            final(self)@.wf(),
            r is Ok <==> save_ok_spec(old(self)@, project.deep_view()),
            r is Ok ==> final(self)@ == save_project_spec(old(self)@, project.deep_view()),
            r is Err ==> final(self)@ == old(self)@ && r == Err::<(), StoreError>(
                StoreError::DuplicateId,
            ),
    {
        let ghost v = self@;
        let ghost pv = project.deep_view();
        let prow = ProjectRow {
            id: project.id.clone(),
            name: project.name.clone(),
            path: project.path.clone(),
            created_at: project.created_at,
            updated_at: project.updated_at,
        };
        proof {
            assert(prow.deep_view() == project_row_of(pv));
        }
        let new_projects = upsert_project_rows(&self.projects, prow);
        let mut cand_rules = filter_rules(&self.rules, project.id.as_str());
        let mut fresh_rules = build_rule_rows(project);
        cand_rules.append(&mut fresh_rules);
        let mut cand_tasks = filter_tasks(&self.tasks, project.id.as_str());
        let mut fresh_tasks = build_task_rows(project);
        cand_tasks.append(&mut fresh_tasks);
        let mut cand_steps = filter_steps(&self.steps, &self.tasks, project.id.as_str());
        let mut fresh_steps = build_step_rows(project);
        cand_steps.append(&mut fresh_steps);
        proof {
            assert(cand_rules.deep_view() =~= save_project_spec(v, pv).rules);
            assert(cand_tasks.deep_view() =~= save_project_spec(v, pv).tasks);
            assert(cand_steps.deep_view() =~= save_project_spec(v, pv).steps);
            lemma_save_ok_iff_distinct(v, pv);
        }
        if !rule_rows_distinct(&cand_rules) {
            return Err(StoreError::DuplicateId);
        }
        if !task_rows_distinct(&cand_tasks) {
            return Err(StoreError::DuplicateId);
        }
        if !step_rows_distinct(&cand_steps) {
            return Err(StoreError::DuplicateId);
        }
        proof {
            lemma_save_preserves_wf(v, pv);
        }
        self.projects = new_projects;
        self.rules = cand_rules;
        self.tasks = cand_tasks;
        self.steps = cand_steps;
        proof {
            assert(self@ =~= save_project_spec(v, pv));
        }
        Ok(())
    }

    /// The path-based get-or-create at a given creation timestamp: the
    /// most recently updated project whose path matches exactly, with
    /// the store unchanged; or, when none matches, a fresh project with
    /// empty rule and task collections, an id derived from `now` and a
    /// name taken from the path, persisted through the standard save
    /// path and returned.
    pub fn load_or_create_project_by_path_at(&mut self, project_path: &str, now: i64) -> (r:
        Project)
        requires
            old(self)@.wf(),
            0 <= now,
        ensures
            final(self)@.wf(),
            final(self)@ == load_or_create_spec(old(self)@, project_path@, now).0,
            r.deep_view() == load_or_create_spec(old(self)@, project_path@, now).1,
    {
        let ghost v = self@;
        if let Some(existing) = self.load_project_by_path(project_path) {
            return existing;
        }
        let project = Project {
            id: derived_project_id(now),
            name: project_name_from_path(project_path),
            path: String::from_str(project_path),
            rules: Vec::new(),
            tasks: Vec::new(),
            created_at: now,
            updated_at: now,
        };
        let ghost pv = project.deep_view();
        proof {
            assert(project.rules.deep_view() =~= Seq::<crate::model::AgentRuleV>::empty());
            assert(project.tasks.deep_view() =~= Seq::<crate::model::TaskV>::empty());
            assert(pv == new_project_spec(project_path@, now));
            assert(fits_order(pv));
            assert(tasks_step_rows(pv.tasks) =~= Seq::<StepRowV>::empty());
            assert(save_ok_spec(v, pv));
        }
        let saved = self.upsert_project(&project);
        proof {
            assert(saved is Ok);
        }
        project
    }

    /// The path-based get-or-create against the wall clock: as the
    /// timestamped form, for the non-negative instant the clock read.
    pub fn load_or_create_project_by_path(&mut self, project_path: &str) -> (r: Project)
        requires
            old(self)@.wf(),
        ensures
            final(self)@.wf(),
            exists|now: i64|
                0 <= now && final(self)@ == (#[trigger] load_or_create_spec(
                    old(self)@,
                    project_path@,
                    now,
                )).0 && r.deep_view() == load_or_create_spec(old(self)@, project_path@, now).1,
    {
        let now = current_timestamp_millis();
        let r = self.load_or_create_project_by_path_at(project_path, now);
        proof {
            assert(0 <= now && final(self)@ == load_or_create_spec(old(self)@, project_path@, now).0
                && r.deep_view() == load_or_create_spec(old(self)@, project_path@, now).1);
        }
        r
    }

    /// Deletes a project by id. Cascading removal takes every rule, task,
    /// step, thread and message the project transitively owned; deleting
    /// an absent id succeeds and changes nothing.
    pub fn delete_project(&mut self, project_id: &str)
        requires
            old(self)@.wf(),
        ensures
            final(self)@ == delete_project_spec(old(self)@, project_id@),
            final(self)@.wf(),
    {
        let ghost v = self@;
        let new_projects = filter_projects(&self.projects, project_id);
        let new_rules = filter_rules(&self.rules, project_id);
        let new_tasks = filter_tasks(&self.tasks, project_id);
        let new_steps = filter_steps(&self.steps, &self.tasks, project_id);
        let new_threads = filter_threads(&self.threads, project_id);
        let new_messages = filter_messages(&self.messages, &self.threads, project_id);
        self.projects = new_projects;
        self.rules = new_rules;
        self.tasks = new_tasks;
        self.steps = new_steps;
        self.threads = new_threads;
        self.messages = new_messages;
        proof {
            assert(self@ =~= delete_project_spec(v, project_id@));
            lemma_delete_preserves_wf(v, project_id@);
        }
    }

    /// Upserts a chat thread by id. On an existing row every column of
    /// the incoming thread is taken except `created_at`, which keeps its
    /// stored value. The owning project must exist.
    pub fn save_chat_thread(&mut self, thread: &ChatThread) -> (r: Result<(), StoreError>)
        requires
            old(self)@.wf(),
        ensures
            final(self)@.wf(),
            r is Ok <==> has_project(old(self)@, thread.project_id@),
            r is Ok ==> final(self)@ == save_thread_spec(old(self)@, thread.deep_view()),
            r is Err ==> final(self)@ == old(self)@ && r == Err::<(), StoreError>(
                StoreError::MissingParent,
            ),
    {
        if self.project_index(thread.project_id.as_str()).is_none() {
            return Err(StoreError::MissingParent);
        }
        let ghost v = self@;
        let ghost tv = thread.deep_view();
        match self.thread_index(thread.id.as_str()) {
            Some(i) => {
                let row = ChatThread {
                    id: thread.id.clone(),
                    project_id: thread.project_id.clone(),
                    title: thread.title.clone(),
                    created_at: self.threads[i].created_at,
                    updated_at: thread.updated_at,
                };
                proof {
                    let j = thread_at(v, tv.id);
                    assert(0 <= j < v.threads.len() && v.threads[j].id == tv.id);
                    assert(i as int == j) by {
                        assert(v.threads[i as int].id == tv.id);
                    }
                    assert(row.deep_view() == thread_row_updated(v.threads[j], tv));
                }
                self.threads.set(i, row);
                proof {
                    assert(self@.threads =~= v.threads.update(
                        thread_at(v, tv.id),
                        thread_row_updated(v.threads[thread_at(v, tv.id)], tv),
                    ));
                    assert(self@ =~= save_thread_spec(v, tv));
                    lemma_save_thread_preserves_wf(v, tv);
                }
            },
            None => {
                self.threads.push(thread.clone());
                proof {
                    assert(self@.threads =~= v.threads.push(tv));
                    assert(self@ =~= save_thread_spec(v, tv));
                    lemma_save_thread_preserves_wf(v, tv);
                }
            },
        }
        Ok(())
    }

    /// Upserts a chat message by id and advances the owning thread's
    /// `updated_at` to the message's timestamp if that is later; the
    /// thread's recency never regresses. The owning thread must exist.
    pub fn save_chat_message(&mut self, message: &ChatMessage) -> (r: Result<(), StoreError>)
        requires
            old(self)@.wf(),
        ensures
            final(self)@.wf(),
            r is Ok <==> has_thread(old(self)@, message.thread_id@),
            r is Ok ==> final(self)@ == save_message_spec(old(self)@, message.deep_view()),
            r is Err ==> final(self)@ == old(self)@ && r == Err::<(), StoreError>(
                StoreError::MissingParent,
            ),
    {
        let t_idx = match self.thread_index(message.thread_id.as_str()) {
            Some(i) => i,
            None => {
                return Err(StoreError::MissingParent);
            },
        };
        let ghost v = self@;
        let ghost mv = message.deep_view();
        match self.message_index(message.id.as_str()) {
            Some(i) => {
                proof {
                    let j = message_at(v, mv.id);
                    assert(0 <= j < v.messages.len() && v.messages[j].id == mv.id);
                    assert(i as int == j) by {
                        assert(v.messages[i as int].id == mv.id);
                    }
                }
                self.messages.set(i, message.clone());
                proof {
                    assert(self@.messages =~= v.messages.update(message_at(v, mv.id), mv));
                }
            },
            None => {
                self.messages.push(message.clone());
                proof {
                    assert(self@.messages =~= v.messages.push(mv));
                }
            },
        }
        let bumped = if self.threads[t_idx].updated_at > message.created_at {
            self.threads[t_idx].updated_at
        } else {
            message.created_at
        };
        let row = ChatThread {
            id: self.threads[t_idx].id.clone(),
            project_id: self.threads[t_idx].project_id.clone(),
            title: self.threads[t_idx].title.clone(),
            created_at: self.threads[t_idx].created_at,
            updated_at: bumped,
        };
        self.threads.set(t_idx, row);
        proof {
            let expect = save_message_spec(v, mv);
            assert forall|k: int| 0 <= k < v.threads.len() implies self@.threads[k]
                == expect.threads[k] by {
                if k == t_idx as int {
                    assert(v.threads[k].id == mv.thread_id);
                } else {
                    assert(v.threads[k].id != mv.thread_id) by {
                        assert(v.threads[t_idx as int].id == mv.thread_id);
                    }
                }
            }
            assert(self@.threads =~= expect.threads);
            assert(self@ =~= expect);
            lemma_save_message_preserves_wf(v, mv);
        }
        Ok(())
    }

    /// The forward migration's backfill: fills every thread row's zero
    /// timestamp sentinels, `created_at` from the migration instant and
    /// `updated_at` from the creation time. Nothing else changes, and
    /// running it twice is a no-op.
    pub fn backfill_thread_timestamps(&mut self, now: i64)
        requires
            old(self)@.wf(),
        ensures
            final(self)@.wf(),
            final(self)@ == crate::state::backfill_threads_spec(old(self)@, now),
    {
        let ghost v = self@;
        let mut i: usize = 0;
        while i < self.threads.len()
            invariant
                i <= self.threads.len(),
                self.threads.len() == v.threads.len(),
                self.projects == old(self).projects,
                self.rules == old(self).rules,
                self.tasks == old(self).tasks,
                self.steps == old(self).steps,
                self.messages == old(self).messages,
                v == old(self)@,
                forall|k: int|
                    0 <= k < i ==> #[trigger] self@.threads[k] == crate::state::thread_backfilled(
                        v.threads[k],
                        now,
                    ),
                forall|k: int| i <= k < v.threads.len() ==> #[trigger] self@.threads[k]
                    == v.threads[k],
            decreases self.threads.len() - i,
        {
            let created = if self.threads[i].created_at == 0 {
                now
            } else {
                self.threads[i].created_at
            };
            let updated = if self.threads[i].updated_at == 0 {
                created
            } else {
                self.threads[i].updated_at
            };
            let row = ChatThread {
                id: self.threads[i].id.clone(),
                project_id: self.threads[i].project_id.clone(),
                title: self.threads[i].title.clone(),
                created_at: created,
                updated_at: updated,
            };
            let ghost pre = self@.threads;
            let ghost rowv = row.deep_view();
            proof {
                assert(rowv == crate::state::thread_backfilled(self@.threads[i as int], now));
            }
            self.threads.set(i, row);
            proof {
                assert(self@.threads =~= pre.update(i as int, rowv));
            }
            i += 1;
        }
        proof {
            assert(self@.threads =~= crate::state::backfill_threads_spec(v, now).threads);
            assert(self@ =~= crate::state::backfill_threads_spec(v, now));
            crate::integrity::lemma_backfill_preserves_wf(v, now);
        }
    }

    /// The rows of the projects table, in insertion order.
    pub fn project_rows(&self) -> (r: &Vec<ProjectRow>)
        ensures
            r.deep_view() == self@.projects,
    {
        &self.projects
    }

    /// The rows of the agent_rules table, in insertion order.
    pub fn rule_rows(&self) -> (r: &Vec<RuleRow>)
        ensures
            r.deep_view() == self@.rules,
    {
        &self.rules
    }

    /// The rows of the tasks table, in insertion order.
    pub fn task_rows(&self) -> (r: &Vec<TaskRow>)
        ensures
            r.deep_view() == self@.tasks,
    {
        &self.tasks
    }

    /// The rows of the task_steps table, in insertion order.
    pub fn step_rows(&self) -> (r: &Vec<StepRow>)
        ensures
            r.deep_view() == self@.steps,
    {
        &self.steps
    }

    /// The rows of the chat_threads table, in insertion order.
    pub fn thread_rows(&self) -> (r: &Vec<ChatThread>)
        ensures
            r.deep_view() == self@.threads,
    {
        &self.threads
    }

    /// The rows of the chat_messages table, in insertion order.
    pub fn message_rows(&self) -> (r: &Vec<ChatMessage>)
        ensures
            r.deep_view() == self@.messages,
    {
        &self.messages
    }
}

/// Whether `messages` holds at least one row of this thread.
fn thread_has_msg(messages: &Vec<ChatMessage>, thread_id: &str) -> (r: bool)
    ensures
        r == thread_has_message(messages.deep_view(), thread_id@),
{
    let mut i: usize = 0;
    while i < messages.len()
        invariant
            i <= messages.len(),
            forall|k: int|
                0 <= k < i ==> (#[trigger] messages.deep_view()[k]).thread_id != thread_id@,
        decreases messages.len() - i,
    {
        if str_eq(messages[i].thread_id.as_str(), thread_id) {
            proof {
                assert(messages.deep_view()[i as int].thread_id == thread_id@);
            }
            return true;
        }
        i += 1;
    }
    proof {
        if thread_has_message(messages.deep_view(), thread_id@) {
            let k = choose|k: int|
                0 <= k < messages.deep_view().len() && (#[trigger] messages.deep_view()[k]).thread_id
                    == thread_id@;
            assert(false);
        }
    }
    false
}

/// Whether `tasks` holds a row with this id owned by this project.
fn task_owned(tasks: &Vec<TaskRow>, task_id: &str, pid: &str) -> (r: bool)
    ensures
        r == task_owned_by(tasks.deep_view(), task_id@, pid@),
{
    let mut i: usize = 0;
    while i < tasks.len()
        invariant
            i <= tasks.len(),
            forall|k: int|
                0 <= k < i ==> !((#[trigger] tasks.deep_view()[k]).id == task_id@
                    && tasks.deep_view()[k].project_id == pid@),
        decreases tasks.len() - i,
    {
        if str_eq(tasks[i].id.as_str(), task_id) && str_eq(tasks[i].project_id.as_str(), pid) {
            proof {
                assert(tasks.deep_view()[i as int].id == task_id@);
            }
            return true;
        }
        i += 1;
    }
    proof {
        if task_owned_by(tasks.deep_view(), task_id@, pid@) {
            let k = choose|k: int|
                0 <= k < tasks.deep_view().len() && (#[trigger] tasks.deep_view()[k]).id == task_id@
                    && tasks.deep_view()[k].project_id == pid@;
            assert(false);
        }
    }
    false
}

/// Whether `threads` holds a row with this id owned by this project.
fn thread_owned(threads: &Vec<ChatThread>, thread_id: &str, pid: &str) -> (r: bool)
    ensures
        r == thread_owned_by(threads.deep_view(), thread_id@, pid@),
{
    let mut i: usize = 0;
    while i < threads.len()
        invariant
            i <= threads.len(),
            forall|k: int|
                0 <= k < i ==> !((#[trigger] threads.deep_view()[k]).id == thread_id@
                    && threads.deep_view()[k].project_id == pid@),
        decreases threads.len() - i,
    {
        if str_eq(threads[i].id.as_str(), thread_id) && str_eq(threads[i].project_id.as_str(), pid) {
            proof {
                assert(threads.deep_view()[i as int].id == thread_id@);
            }
            return true;
        }
        i += 1;
    }
    proof {
        if thread_owned_by(threads.deep_view(), thread_id@, pid@) {
            let k = choose|k: int|
                0 <= k < threads.deep_view().len() && (#[trigger] threads.deep_view()[k]).id
                    == thread_id@ && threads.deep_view()[k].project_id == pid@;
            assert(false);
        }
    }
    false
}

/// The project rows that survive deleting project `pid`.
fn filter_projects(rows: &Vec<ProjectRow>, pid: &str) -> (r: Vec<ProjectRow>)
    ensures
        r.deep_view() == rows.deep_view().filter(other_project(pid@)),
{
    let ghost dv = rows.deep_view();
    let mut out: Vec<ProjectRow> = Vec::new();
    proof {
        reveal(Seq::filter);
        assert(out.deep_view() =~= dv.take(0).filter(other_project(pid@)));
    }
    let mut i: usize = 0;
    while i < rows.len()
        invariant
            i <= rows.len(),
            dv == rows.deep_view(),
            out.deep_view() == dv.take(i as int).filter(other_project(pid@)),
        decreases rows.len() - i,
    {
        let keep = !str_eq(rows[i].id.as_str(), pid);
        proof {
            let prefix = dv.take(i as int);
            lemma_filter_push(prefix, other_project(pid@), dv[i as int]);
            assert(dv.take(i as int + 1) =~= prefix.push(dv[i as int]));
            assert(other_project(pid@)(dv[i as int]) == keep);
        }
        if keep {
            let ghost pre = out.deep_view();
            out.push(rows[i].clone());
            proof {
                assert(out.deep_view() =~= pre.push(dv[i as int]));
            }
        }
        i += 1;
    }
    proof {
        assert(dv.take(rows.len() as int) =~= dv);
    }
    out
}

/// The rule rows that survive deleting project `pid`.
fn filter_rules(rows: &Vec<RuleRow>, pid: &str) -> (r: Vec<RuleRow>)
    ensures
        r.deep_view() == rows.deep_view().filter(other_rule(pid@)),
{
    let ghost dv = rows.deep_view();
    let mut out: Vec<RuleRow> = Vec::new();
    proof {
        reveal(Seq::filter);
        assert(out.deep_view() =~= dv.take(0).filter(other_rule(pid@)));
    }
    let mut i: usize = 0;
    while i < rows.len()
        invariant
            i <= rows.len(),
            dv == rows.deep_view(),
            out.deep_view() == dv.take(i as int).filter(other_rule(pid@)),
        decreases rows.len() - i,
    {
        let keep = !str_eq(rows[i].project_id.as_str(), pid);
        proof {
            let prefix = dv.take(i as int);
            lemma_filter_push(prefix, other_rule(pid@), dv[i as int]);
            assert(dv.take(i as int + 1) =~= prefix.push(dv[i as int]));
            assert(other_rule(pid@)(dv[i as int]) == keep);
        }
        if keep {
            let ghost pre = out.deep_view();
            out.push(rows[i].clone());
            proof {
                assert(out.deep_view() =~= pre.push(dv[i as int]));
            }
        }
        i += 1;
    }
    proof {
        assert(dv.take(rows.len() as int) =~= dv);
    }
    out
}

/// The task rows that survive deleting project `pid`.
fn filter_tasks(rows: &Vec<TaskRow>, pid: &str) -> (r: Vec<TaskRow>)
    ensures
        r.deep_view() == rows.deep_view().filter(other_task(pid@)),
{
    let ghost dv = rows.deep_view();
    let mut out: Vec<TaskRow> = Vec::new();
    proof {
        reveal(Seq::filter);
        assert(out.deep_view() =~= dv.take(0).filter(other_task(pid@)));
    }
    let mut i: usize = 0;
    while i < rows.len()
        invariant
            i <= rows.len(),
            dv == rows.deep_view(),
            out.deep_view() == dv.take(i as int).filter(other_task(pid@)),
        decreases rows.len() - i,
    {
        let keep = !str_eq(rows[i].project_id.as_str(), pid);
        proof {
            let prefix = dv.take(i as int);
            lemma_filter_push(prefix, other_task(pid@), dv[i as int]);
            assert(dv.take(i as int + 1) =~= prefix.push(dv[i as int]));
            assert(other_task(pid@)(dv[i as int]) == keep);
        }
        if keep {
            let ghost pre = out.deep_view();
            out.push(rows[i].clone());
            proof {
                assert(out.deep_view() =~= pre.push(dv[i as int]));
            }
        }
        i += 1;
    }
    proof {
        assert(dv.take(rows.len() as int) =~= dv);
    }
    out
}

/// The step rows whose task `tasks` does not assign to project `pid`.
fn filter_steps(rows: &Vec<StepRow>, tasks: &Vec<TaskRow>, pid: &str) -> (r: Vec<StepRow>)
    ensures
        r.deep_view() == rows.deep_view().filter(step_not_owned(tasks.deep_view(), pid@)),
{
    let ghost dv = rows.deep_view();
    let ghost tv = tasks.deep_view();
    let mut out: Vec<StepRow> = Vec::new();
    proof {
        reveal(Seq::filter);
        assert(out.deep_view() =~= dv.take(0).filter(step_not_owned(tv, pid@)));
    }
    let mut i: usize = 0;
    while i < rows.len()
        invariant
            i <= rows.len(),
            dv == rows.deep_view(),
            tv == tasks.deep_view(),
            out.deep_view() == dv.take(i as int).filter(step_not_owned(tv, pid@)),
        decreases rows.len() - i,
    {
        let keep = !task_owned(tasks, rows[i].task_id.as_str(), pid);
        proof {
            let prefix = dv.take(i as int);
            lemma_filter_push(prefix, step_not_owned(tv, pid@), dv[i as int]);
            assert(dv.take(i as int + 1) =~= prefix.push(dv[i as int]));
            assert(step_not_owned(tv, pid@)(dv[i as int]) == keep);
        }
        if keep {
            let ghost pre = out.deep_view();
            out.push(rows[i].clone());
            proof {
                assert(out.deep_view() =~= pre.push(dv[i as int]));
            }
        }
        i += 1;
    }
    proof {
        assert(dv.take(rows.len() as int) =~= dv);
    }
    out
}

/// The thread rows that survive deleting project `pid`.
fn filter_threads(rows: &Vec<ChatThread>, pid: &str) -> (r: Vec<ChatThread>)
    ensures
        r.deep_view() == rows.deep_view().filter(other_thread(pid@)),
{
    let ghost dv = rows.deep_view();
    let mut out: Vec<ChatThread> = Vec::new();
    proof {
        reveal(Seq::filter);
        assert(out.deep_view() =~= dv.take(0).filter(other_thread(pid@)));
    }
    let mut i: usize = 0;
    while i < rows.len()
        invariant
            i <= rows.len(),
            dv == rows.deep_view(),
            out.deep_view() == dv.take(i as int).filter(other_thread(pid@)),
        decreases rows.len() - i,
    {
        let keep = !str_eq(rows[i].project_id.as_str(), pid);
        proof {
            let prefix = dv.take(i as int);
            lemma_filter_push(prefix, other_thread(pid@), dv[i as int]);
            assert(dv.take(i as int + 1) =~= prefix.push(dv[i as int]));
            assert(other_thread(pid@)(dv[i as int]) == keep);
        }
        if keep {
            let ghost pre = out.deep_view();
            out.push(rows[i].clone());
            proof {
                assert(out.deep_view() =~= pre.push(dv[i as int]));
            }
        }
        i += 1;
    }
    proof {
        assert(dv.take(rows.len() as int) =~= dv);
    }
    out
}

/// The message rows whose thread `threads` does not assign to project
/// `pid`.
fn filter_messages(rows: &Vec<ChatMessage>, threads: &Vec<ChatThread>, pid: &str) -> (r: Vec<
    ChatMessage,
>)
    ensures
        r.deep_view() == rows.deep_view().filter(message_not_owned(threads.deep_view(), pid@)),
{
    let ghost dv = rows.deep_view();
    let ghost tv = threads.deep_view();
    let mut out: Vec<ChatMessage> = Vec::new();
    proof {
        reveal(Seq::filter);
        assert(out.deep_view() =~= dv.take(0).filter(message_not_owned(tv, pid@)));
    }
    let mut i: usize = 0;
    while i < rows.len()
        invariant
            i <= rows.len(),
            dv == rows.deep_view(),
            tv == threads.deep_view(),
            out.deep_view() == dv.take(i as int).filter(message_not_owned(tv, pid@)),
        decreases rows.len() - i,
    {
        let keep = !thread_owned(threads, rows[i].thread_id.as_str(), pid);
        proof {
            let prefix = dv.take(i as int);
            lemma_filter_push(prefix, message_not_owned(tv, pid@), dv[i as int]);
            assert(dv.take(i as int + 1) =~= prefix.push(dv[i as int]));
            assert(message_not_owned(tv, pid@)(dv[i as int]) == keep);
        }
        if keep {
            let ghost pre = out.deep_view();
            out.push(rows[i].clone());
            proof {
                assert(out.deep_view() =~= pre.push(dv[i as int]));
            }
        }
        i += 1;
    }
    proof {
        assert(dv.take(rows.len() as int) =~= dv);
    }
    out
}

/// The projects table after replacing the row with this id, or
/// appending one.
fn upsert_project_rows(rows: &Vec<ProjectRow>, row: ProjectRow) -> (r: Vec<ProjectRow>)
    requires
        crate::filters::distinct_keys(rows.deep_view(), |p: ProjectRowV| p.id),
    ensures
        r.deep_view() == upsert_project_row(rows.deep_view(), row.deep_view()),
{
    let ghost dv = rows.deep_view();
    let ghost rv = row.deep_view();
    let mut i: usize = 0;
    while i < rows.len()
        invariant
            i <= rows.len(),
            dv == rows.deep_view(),
            rv == row.deep_view(),
            crate::filters::distinct_keys(dv, |p: ProjectRowV| p.id),
            forall|k: int| 0 <= k < i ==> (#[trigger] dv[k]).id != rv.id,
        decreases rows.len() - i,
    {
        if str_eq(rows[i].id.as_str(), row.id.as_str()) {
            let mut out = rows.clone();
            proof {
                assert(out.deep_view() =~= dv);
                assert(dv[i as int].id == rv.id);
                let j = choose|j: int| 0 <= j < dv.len() && (#[trigger] dv[j]).id == rv.id;
                assert(j == i as int) by {
                    if j != i as int {
                        assert(dv[j].id != dv[i as int].id);
                    }
                }
            }
            out.set(i, row);
            proof {
                assert(out.deep_view() =~= dv.update(i as int, rv));
                assert(out.deep_view() =~= upsert_project_row(dv, rv));
            }
            return out;
        }
        i += 1;
    }
    let mut out = rows.clone();
    proof {
        assert(out.deep_view() =~= dv);
        if crate::state::rows_have_id(dv, rv.id) {
            let k = choose|k: int| 0 <= k < dv.len() && (#[trigger] dv[k]).id == rv.id;
            assert(false);
        }
    }
    out.push(row);
    proof {
        assert(out.deep_view() =~= dv.push(rv));
        assert(out.deep_view() =~= upsert_project_row(dv, rv));
    }
    out
}

/// The rule rows of a project, in the project's order.
fn build_rule_rows(project: &Project) -> (r: Vec<RuleRow>)
    ensures
        r.deep_view() == rule_rows_of(project.deep_view().id, project.deep_view().rules),
{
    let ghost pv = project.deep_view();
    let mut out: Vec<RuleRow> = Vec::new();
    let mut i: usize = 0;
    while i < project.rules.len()
        invariant
            i <= project.rules.len(),
            pv == project.deep_view(),
            out.deep_view().len() == i,
            forall|k: int|
                0 <= k < i ==> out.deep_view()[k] == rule_row_of(pv.id, #[trigger] pv.rules[k]),
        decreases project.rules.len() - i,
    {
        let row = RuleRow { project_id: project.id.clone(), rule: project.rules[i].clone() };
        proof {
            assert(row.deep_view() == rule_row_of(pv.id, pv.rules[i as int]));
        }
        out.push(row);
        i += 1;
    }
    proof {
        assert(out.deep_view() =~= rule_rows_of(pv.id, pv.rules));
    }
    out
}

/// The task rows of a project, in the project's order; statuses are
/// encoded to their stored strings.
fn build_task_rows(project: &Project) -> (r: Vec<TaskRow>)
    ensures
        r.deep_view() == task_rows_of(project.deep_view().id, project.deep_view().tasks),
{
    let ghost pv = project.deep_view();
    let mut out: Vec<TaskRow> = Vec::new();
    let mut i: usize = 0;
    while i < project.tasks.len()
        invariant
            i <= project.tasks.len(),
            pv == project.deep_view(),
            out.deep_view().len() == i,
            forall|k: int|
                0 <= k < i ==> out.deep_view()[k] == task_row_of(pv.id, #[trigger] pv.tasks[k]),
        decreases project.tasks.len() - i,
    {
        let row = TaskRow {
            id: project.tasks[i].id.clone(),
            project_id: project.id.clone(),
            title: project.tasks[i].title.clone(),
            description: project.tasks[i].description.clone(),
            status: String::from_str(task_status_as_str(&project.tasks[i].status)),
            created_at: project.tasks[i].created_at,
            updated_at: project.tasks[i].updated_at,
        };
        proof {
            assert(row.deep_view() == task_row_of(pv.id, pv.tasks[i as int]));
        }
        out.push(row);
        i += 1;
    }
    proof {
        assert(out.deep_view() =~= task_rows_of(pv.id, pv.tasks));
    }
    out
}

/// The rows of one step sequence of a task, positions counting up from
/// zero.
fn build_bucket_rows(task_id: &String, bucket: StepBucket, steps: &Vec<TaskStep>) -> (r: Vec<
    StepRow,
>)
    requires
        steps.deep_view().len() <= i64::MAX,
    ensures
        r.deep_view() == bucket_rows(task_id@, bucket, steps.deep_view()),
{
    let ghost sv = steps.deep_view();
    let mut out: Vec<StepRow> = Vec::new();
    let mut i: usize = 0;
    while i < steps.len()
        invariant
            i <= steps.len(),
            sv == steps.deep_view(),
            sv.len() <= i64::MAX,
            out.deep_view().len() == i,
            forall|k: int|
                0 <= k < i ==> out.deep_view()[k] == step_row_of(
                    task_id@,
                    bucket,
                    k,
                    #[trigger] sv[k],
                ),
        decreases steps.len() - i,
    {
        let row = StepRow {
            id: steps[i].id.clone(),
            task_id: task_id.clone(),
            title: steps[i].title.clone(),
            content: steps[i].content.clone(),
            status: String::from_str(task_status_as_str(&steps[i].status)),
            created_at: steps[i].created_at,
            updated_at: steps[i].updated_at,
            step_type: String::from_str(task_step_type_as_str(&steps[i].step_type)),
            step_kind: String::from_str(step_bucket_as_str(&bucket)),
            sort_order: i as i64,
        };
        proof {
            assert(row.deep_view() == step_row_of(task_id@, bucket, i as int, sv[i as int]));
        }
        out.push(row);
        i += 1;
    }
    proof {
        assert(out.deep_view() =~= bucket_rows(task_id@, bucket, sv));
    }
    out
}

/// Every step row of a project's tasks, task by task, each task's three
/// sequences in storage order.
fn build_step_rows(project: &Project) -> (r: Vec<StepRow>)
    requires
        fits_order(project.deep_view()),
    ensures
        r.deep_view() == tasks_step_rows(project.deep_view().tasks),
{
    let ghost pv = project.deep_view();
    let mut out: Vec<StepRow> = Vec::new();
    proof {
        assert(pv.tasks.take(0) =~= Seq::<crate::model::TaskV>::empty());
        assert(out.deep_view() =~= tasks_step_rows(pv.tasks.take(0)));
    }
    let mut i: usize = 0;
    while i < project.tasks.len()
        invariant
            i <= project.tasks.len(),
            pv == project.deep_view(),
            fits_order(pv),
            out.deep_view() == tasks_step_rows(pv.tasks.take(i as int)),
        decreases project.tasks.len() - i,
    {
        let ghost pre = out.deep_view();
        let ghost tv = pv.tasks[i as int];
        let task = &project.tasks[i];
        let mut pre_rows = build_bucket_rows(&task.id, StepBucket::Pre, &task.presteps);
        let mut main_rows = build_bucket_rows(&task.id, StepBucket::Main, &task.steps);
        let mut post_rows = build_bucket_rows(&task.id, StepBucket::Post, &task.poststeps);
        out.append(&mut pre_rows);
        out.append(&mut main_rows);
        out.append(&mut post_rows);
        proof {
            assert(out.deep_view() =~= pre + task_step_rows(tv));
            assert(pv.tasks.take(i as int + 1).drop_last() =~= pv.tasks.take(i as int));
            assert(pv.tasks.take(i as int + 1).last() == tv);
            assert(tasks_step_rows(pv.tasks.take(i as int + 1)) == tasks_step_rows(
                pv.tasks.take(i as int),
            ) + task_step_rows(tv));
        }
        i += 1;
    }
    proof {
        assert(pv.tasks.take(project.tasks.len() as int) =~= pv.tasks);
    }
    out
}

/// Whether the rule rows keep their ids pairwise distinct.
fn rule_rows_distinct(rows: &Vec<RuleRow>) -> (r: bool)
    ensures
        r == crate::filters::distinct_keys(rows.deep_view(), |x: RuleRowV| x.rule.id),
{
    let ghost dv = rows.deep_view();
    let mut i: usize = 0;
    while i < rows.len()
        invariant
            i <= rows.len(),
            dv == rows.deep_view(),
            forall|a: int, b: int|
                0 <= a < b < i ==> (#[trigger] dv[a]).rule.id != (#[trigger] dv[b]).rule.id,
        decreases rows.len() - i,
    {
        let mut j: usize = 0;
        while j < i
            invariant
                j <= i < rows.len(),
                dv == rows.deep_view(),
                forall|a: int| 0 <= a < j ==> (#[trigger] dv[a]).rule.id != dv[i as int].rule.id,
            decreases i - j,
        {
            if str_eq(rows[j].rule.id.as_str(), rows[i].rule.id.as_str()) {
                proof {
                    assert(dv[j as int].rule.id == dv[i as int].rule.id);
                }
                return false;
            }
            j += 1;
        }
        i += 1;
    }
    true
}

/// Whether the task rows keep their ids pairwise distinct.
fn task_rows_distinct(rows: &Vec<TaskRow>) -> (r: bool)
    ensures
        r == crate::filters::distinct_keys(rows.deep_view(), |x: TaskRowV| x.id),
{
    let ghost dv = rows.deep_view();
    let mut i: usize = 0;
    while i < rows.len()
        invariant
            i <= rows.len(),
            dv == rows.deep_view(),
            forall|a: int, b: int| 0 <= a < b < i ==> (#[trigger] dv[a]).id != (#[trigger] dv[b]).id,
        decreases rows.len() - i,
    {
        let mut j: usize = 0;
        while j < i
            invariant
                j <= i < rows.len(),
                dv == rows.deep_view(),
                forall|a: int| 0 <= a < j ==> (#[trigger] dv[a]).id != dv[i as int].id,
            decreases i - j,
        {
            if str_eq(rows[j].id.as_str(), rows[i].id.as_str()) {
                proof {
                    assert(dv[j as int].id == dv[i as int].id);
                }
                return false;
            }
            j += 1;
        }
        i += 1;
    }
    true
}

/// Whether the step rows keep their ids pairwise distinct.
fn step_rows_distinct(rows: &Vec<StepRow>) -> (r: bool)
    ensures
        r == crate::filters::distinct_keys(rows.deep_view(), |x: StepRowV| x.id),
{
    let ghost dv = rows.deep_view();
    let mut i: usize = 0;
    while i < rows.len()
        invariant
            i <= rows.len(),
            dv == rows.deep_view(),
            forall|a: int, b: int| 0 <= a < b < i ==> (#[trigger] dv[a]).id != (#[trigger] dv[b]).id,
        decreases rows.len() - i,
    {
        let mut j: usize = 0;
        while j < i
            invariant
                j <= i < rows.len(),
                dv == rows.deep_view(),
                forall|a: int| 0 <= a < j ==> (#[trigger] dv[a]).id != dv[i as int].id,
            decreases i - j,
        {
            if str_eq(rows[j].id.as_str(), rows[i].id.as_str()) {
                proof {
                    assert(dv[j as int].id == dv[i as int].id);
                }
                return false;
            }
            j += 1;
        }
        i += 1;
    }
    true
}

/// The recent-project listing is ordered most recently updated first.
proof fn lemma_recent_projects_ordered(v: StoreV, count: int)
    requires
        0 <= count,
    ensures
        recent_projects_spec(v, count).len() <= count,
        forall|a: int, b: int|
            0 <= a < b < recent_projects_spec(v, count).len() ==> (#[trigger] recent_projects_spec(
                v,
                count,
            )[a]).updated_at >= (#[trigger] recent_projects_spec(v, count)[b]).updated_at,
{
    let rows = recent_project_rows(v);
    crate::sorting::lemma_sort_sorted::<ProjectRow>(v.projects);
    let n = if count < rows.len() {
        count
    } else {
        rows.len() as int
    };
    assert(0 <= n <= rows.len());
    assert(recent_projects_spec(v, count).len() == n);
    assert forall|a: int, b: int|
        0 <= a < b < recent_projects_spec(v, count).len() implies (
    #[trigger] recent_projects_spec(v, count)[a]).updated_at >= (#[trigger] recent_projects_spec(
        v,
        count,
    )[b]).updated_at by {
        assert(recent_projects_spec(v, count)[a].updated_at == rows.take(n)[a].updated_at);
        assert(recent_projects_spec(v, count)[b].updated_at == rows.take(n)[b].updated_at);
        assert(rows.take(n)[a] == rows[a] && rows.take(n)[b] == rows[b]);
        assert(<ProjectRow as crate::sorting::SortKey>::key(rows[a])
            <= <ProjectRow as crate::sorting::SortKey>::key(rows[b]));
    }
}

/// The thread listing is ordered most recently updated first.
proof fn lemma_listed_threads_ordered(v: StoreV, pid: Seq<char>, count: int)
    requires
        0 <= count,
    ensures
        list_threads_spec(v, pid, count).len() <= count,
        forall|a: int, b: int|
            0 <= a < b < list_threads_spec(v, pid, count).len() ==> (#[trigger] list_threads_spec(
                v,
                pid,
                count,
            )[a]).updated_at >= (#[trigger] list_threads_spec(v, pid, count)[b]).updated_at,
{
    let rows = sort_by_key::<ChatThread>(visible_threads(v, pid));
    crate::sorting::lemma_sort_sorted::<ChatThread>(visible_threads(v, pid));
    let n = if count < rows.len() {
        count
    } else {
        rows.len() as int
    };
    assert(0 <= n <= rows.len());
    assert(list_threads_spec(v, pid, count).len() == n);
    assert forall|a: int, b: int|
        0 <= a < b < list_threads_spec(v, pid, count).len() implies (#[trigger] list_threads_spec(
        v,
        pid,
        count,
    )[a]).updated_at >= (#[trigger] list_threads_spec(v, pid, count)[b]).updated_at by {
        assert(list_threads_spec(v, pid, count)[a] == rows.take(n)[a]);
        assert(list_threads_spec(v, pid, count)[b] == rows.take(n)[b]);
        assert(rows.take(n)[a] == rows[a] && rows.take(n)[b] == rows[b]);
        assert(<ChatThread as crate::sorting::SortKey>::key(rows[a])
            <= <ChatThread as crate::sorting::SortKey>::key(rows[b]));
    }
}

/// The message listing is in chronological order.
proof fn lemma_listed_messages_ordered(v: StoreV, tid: Seq<char>)
    ensures
        forall|a: int, b: int|
            0 <= a < b < list_messages_spec(v, tid).len() ==> (#[trigger] list_messages_spec(
                v,
                tid,
            )[a]).created_at <= (#[trigger] list_messages_spec(v, tid)[b]).created_at,
{
    let filtered = v.messages.filter(message_of_thread(tid));
    crate::sorting::lemma_sort_sorted::<ChatMessage>(filtered);
    assert forall|a: int, b: int|
        0 <= a < b < list_messages_spec(v, tid).len() implies (#[trigger] list_messages_spec(
        v,
        tid,
    )[a]).created_at <= (#[trigger] list_messages_spec(v, tid)[b]).created_at by {
        let rows = sort_by_key::<ChatMessage>(filtered);
        assert(<ChatMessage as crate::sorting::SortKey>::key(rows[a])
            <= <ChatMessage as crate::sorting::SortKey>::key(rows[b]));
    }
}

/// A project row known to sit in a well-formed table is the row that the
/// point read of its id assembles from.
proof fn lemma_row_assembles(v: StoreV, row: ProjectRowV)
    requires
        v.wf(),
        v.projects.contains(row),
    ensures
        has_project(v, row.id),
        load_project_spec(v, row.id) == Some(assemble_project(v, row)),
{
    let a = choose|a: int| 0 <= a < v.projects.len() && v.projects[a] == row;
    assert(v.projects[a].id == row.id);
    assert(has_project(v, row.id));
    let j = crate::state::project_at(v, row.id);
    assert(0 <= j < v.projects.len() && v.projects[j].id == row.id);
    assert(j == a) by {
        if j != a {
            assert(v.projects[j].id != v.projects[a].id);
        }
    }
}

} // verus!
