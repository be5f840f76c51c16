//! The mathematical state of the store: six tables of row views, the
//! store's well-formedness invariant (unique ids per table, referential
//! integrity), and the transition and query functions that every public
//! operation's contract is stated against.

use vstd::prelude::*;

use crate::codec::{bucket_of, bucket_str, status_of, status_str, step_type_of, step_type_str,
    StepBucket};
use crate::model::{AgentRuleV, ChatMessageV, ChatThreadV, ProjectV, TaskStepV, TaskV};
use crate::rows::{ProjectRowV, RuleRowV, StepRowV, TaskRowV};
use crate::sorting::sort_by_key;
use crate::model::{ChatMessage, ChatThread};
use crate::rows::{ProjectRow, StepRow};

verus! {

/// The contents of the store: one sequence of rows per table, in
/// insertion order.
#[verifier::ext_equal]
pub ghost struct StoreV {
    pub projects: Seq<ProjectRowV>,
    pub rules: Seq<RuleRowV>,
    pub tasks: Seq<TaskRowV>,
    pub steps: Seq<StepRowV>,
    pub threads: Seq<ChatThreadV>,
    pub messages: Seq<ChatMessageV>,
}

/// Whether a sequence of project rows holds one with this id.
pub open spec fn rows_have_id(ps: Seq<ProjectRowV>, id: Seq<char>) -> bool {
    exists|i: int| 0 <= i < ps.len() && (#[trigger] ps[i]).id == id
}

/// Whether the projects table has a row with this id.
pub open spec fn has_project(v: StoreV, id: Seq<char>) -> bool {
    rows_have_id(v.projects, id)
}

/// The index of the project row with this id.
pub open spec fn project_at(v: StoreV, id: Seq<char>) -> int {
    choose|i: int| 0 <= i < v.projects.len() && (#[trigger] v.projects[i]).id == id
}

/// Whether the tasks table has a row with this id.
pub open spec fn has_task(v: StoreV, id: Seq<char>) -> bool {
    exists|i: int| 0 <= i < v.tasks.len() && (#[trigger] v.tasks[i]).id == id
}

/// Whether the agent_rules table has a row with this id.
pub open spec fn has_rule(v: StoreV, id: Seq<char>) -> bool {
    exists|i: int| 0 <= i < v.rules.len() && (#[trigger] v.rules[i]).rule.id == id
}

/// Whether the task_steps table has a row with this id.
pub open spec fn has_step(v: StoreV, id: Seq<char>) -> bool {
    exists|i: int| 0 <= i < v.steps.len() && (#[trigger] v.steps[i]).id == id
}

/// Whether the chat_threads table has a row with this id.
pub open spec fn has_thread(v: StoreV, id: Seq<char>) -> bool {
    exists|i: int| 0 <= i < v.threads.len() && (#[trigger] v.threads[i]).id == id
}

/// The index of the chat thread row with this id.
pub open spec fn thread_at(v: StoreV, id: Seq<char>) -> int {
    choose|i: int| 0 <= i < v.threads.len() && (#[trigger] v.threads[i]).id == id
}

/// Whether the chat_messages table has a row with this id.
pub open spec fn has_message(v: StoreV, id: Seq<char>) -> bool {
    exists|i: int| 0 <= i < v.messages.len() && (#[trigger] v.messages[i]).id == id
}

/// The index of the chat message row with this id.
pub open spec fn message_at(v: StoreV, id: Seq<char>) -> int {
    choose|i: int| 0 <= i < v.messages.len() && (#[trigger] v.messages[i]).id == id
}

/// Whether a task row with this id exists and is owned by this project.
pub open spec fn task_owned_by(tasks: Seq<TaskRowV>, task_id: Seq<char>, pid: Seq<char>) -> bool {
    exists|i: int|
        0 <= i < tasks.len() && (#[trigger] tasks[i]).id == task_id && tasks[i].project_id == pid
}

/// Whether a thread row with this id exists and is owned by this
/// project.
pub open spec fn thread_owned_by(
    threads: Seq<ChatThreadV>,
    thread_id: Seq<char>,
    pid: Seq<char>,
) -> bool {
    exists|i: int|
        0 <= i < threads.len() && (#[trigger] threads[i]).id == thread_id && threads[i].project_id
            == pid
}

/// Whether some message row points at this thread: the thread is then
/// visible to the thread listing.
pub open spec fn thread_has_message(messages: Seq<ChatMessageV>, thread_id: Seq<char>) -> bool {
    exists|i: int| 0 <= i < messages.len() && (#[trigger] messages[i]).thread_id == thread_id
}

impl StoreV {
    /// The store with nothing in it.
    pub open spec fn empty() -> StoreV {
        StoreV {
            projects: Seq::empty(),
            rules: Seq::empty(),
            tasks: Seq::empty(),
            steps: Seq::empty(),
            threads: Seq::empty(),
            messages: Seq::empty(),
        }
    }

    /// Well-formedness: each table keys its rows by a unique id, and
    /// every child row points at an existing parent row.
    pub open spec fn wf(self) -> bool {
        &&& crate::filters::distinct_keys(self.projects, |p: ProjectRowV| p.id)
        &&& crate::filters::distinct_keys(self.rules, |r: RuleRowV| r.rule.id)
        &&& crate::filters::distinct_keys(self.tasks, |t: TaskRowV| t.id)
        &&& crate::filters::distinct_keys(self.steps, |s: StepRowV| s.id)
        &&& crate::filters::distinct_keys(self.threads, |t: ChatThreadV| t.id)
        &&& crate::filters::distinct_keys(self.messages, |m: ChatMessageV| m.id)
        &&& forall|i: int|
            0 <= i < self.rules.len() ==> has_project(self, (#[trigger] self.rules[i]).project_id)
        &&& forall|i: int|
            0 <= i < self.tasks.len() ==> has_project(self, (#[trigger] self.tasks[i]).project_id)
        &&& forall|i: int|
            0 <= i < self.steps.len() ==> has_task(self, (#[trigger] self.steps[i]).task_id)
        &&& forall|i: int|
            0 <= i < self.threads.len() ==> has_project(
                self,
                (#[trigger] self.threads[i]).project_id,
            )
        &&& forall|i: int|
            0 <= i < self.messages.len() ==> has_thread(
                self,
                (#[trigger] self.messages[i]).thread_id,
            )
    }
}

// ---------------------------------------------------------------------
// Mapping entities to rows.
/// The projects-table row of a project value.
pub open spec fn project_row_of(p: ProjectV) -> ProjectRowV {
    ProjectRowV {
        id: p.id,
        name: p.name,
        path: p.path,
        created_at: p.created_at,
        updated_at: p.updated_at,
    }
}

/// The agent_rules-table row of a rule owned by `pid`.
pub open spec fn rule_row_of(pid: Seq<char>, r: AgentRuleV) -> RuleRowV {
    RuleRowV { project_id: pid, rule: r }
}

/// The rows of a project's rules, in the order they stand in the
/// project.
pub open spec fn rule_rows_of(pid: Seq<char>, rs: Seq<AgentRuleV>) -> Seq<RuleRowV> {
    Seq::new(rs.len(), |i: int| rule_row_of(pid, rs[i]))
}

/// The tasks-table row of a task owned by `pid`. The status is encoded
/// to its stored string; the task's own `project_id` field is not
/// consulted.
pub open spec fn task_row_of(pid: Seq<char>, t: TaskV) -> TaskRowV {
    TaskRowV {
        id: t.id,
        project_id: pid,
        title: t.title,
        description: t.description,
        status: status_str(t.status),
        created_at: t.created_at,
        updated_at: t.updated_at,
    }
}

/// The rows of a project's tasks, in the order they stand in the
/// project.
pub open spec fn task_rows_of(pid: Seq<char>, ts: Seq<TaskV>) -> Seq<TaskRowV> {
    Seq::new(ts.len(), |i: int| task_row_of(pid, ts[i]))
}

/// The task_steps-table row of the step at position `i` of the sequence
/// `b` of task `tid`.
pub open spec fn step_row_of(tid: Seq<char>, b: StepBucket, i: int, s: TaskStepV) -> StepRowV {
    StepRowV {
        id: s.id,
        task_id: tid,
        title: s.title,
        content: s.content,
        status: status_str(s.status),
        created_at: s.created_at,
        updated_at: s.updated_at,
        step_type: step_type_str(s.step_type),
        step_kind: bucket_str(b),
        sort_order: i as i64,
    }
}

/// The rows of one of a task's three step sequences, positions counting
/// up from zero.
pub open spec fn bucket_rows(tid: Seq<char>, b: StepBucket, steps: Seq<TaskStepV>) -> Seq<
    StepRowV,
> {
    Seq::new(steps.len(), |i: int| step_row_of(tid, b, i, steps[i]))
}

/// All step rows of one task: its three sequences in storage order.
pub open spec fn task_step_rows(t: TaskV) -> Seq<StepRowV> {
    bucket_rows(t.id, StepBucket::Pre, t.presteps) + bucket_rows(t.id, StepBucket::Main, t.steps)
        + bucket_rows(t.id, StepBucket::Post, t.poststeps)
}

/// All step rows of a sequence of tasks, task by task.
pub open spec fn tasks_step_rows(ts: Seq<TaskV>) -> Seq<StepRowV>
    decreases ts.len(),
{
    if ts.len() == 0 {
        Seq::empty()
    } else {
        tasks_step_rows(ts.drop_last()) + task_step_rows(ts.last())
    }
}

// ---------------------------------------------------------------------
// The row predicates that the transitions and queries filter by.
/// Keeps the project rows whose id is not `pid`.
pub open spec fn other_project(pid: Seq<char>) -> spec_fn(ProjectRowV) -> bool {
    |p: ProjectRowV| p.id != pid
}

/// Keeps the rule rows owned by some other project.
pub open spec fn other_rule(pid: Seq<char>) -> spec_fn(RuleRowV) -> bool {
    |r: RuleRowV| r.project_id != pid
}

/// Keeps the task rows owned by some other project.
pub open spec fn other_task(pid: Seq<char>) -> spec_fn(TaskRowV) -> bool {
    |t: TaskRowV| t.project_id != pid
}

/// Keeps the step rows whose task is not owned by `pid` in `tasks`.
pub open spec fn step_not_owned(tasks: Seq<TaskRowV>, pid: Seq<char>) -> spec_fn(StepRowV) -> bool {
    |s: StepRowV| !task_owned_by(tasks, s.task_id, pid)
}

/// Keeps the thread rows owned by some other project.
pub open spec fn other_thread(pid: Seq<char>) -> spec_fn(ChatThreadV) -> bool {
    |t: ChatThreadV| t.project_id != pid
}

/// Keeps the message rows whose thread is not owned by `pid` in
/// `threads`.
pub open spec fn message_not_owned(threads: Seq<ChatThreadV>, pid: Seq<char>) -> spec_fn(
    ChatMessageV,
) -> bool {
    |m: ChatMessageV| !thread_owned_by(threads, m.thread_id, pid)
}

/// Selects the rule rows owned by `pid`.
pub open spec fn rule_of_project(pid: Seq<char>) -> spec_fn(RuleRowV) -> bool {
    |r: RuleRowV| r.project_id == pid
}

/// Selects the task rows owned by `pid`.
pub open spec fn task_of_project(pid: Seq<char>) -> spec_fn(TaskRowV) -> bool {
    |t: TaskRowV| t.project_id == pid
}

/// Selects the step rows of task `tid` whose stored membership decodes
/// to the sequence `b`.
pub open spec fn step_in_bucket(tid: Seq<char>, b: StepBucket) -> spec_fn(StepRowV) -> bool {
    |s: StepRowV| s.task_id == tid && bucket_of(s.step_kind) == b
}

/// Selects the message rows of thread `tid`.
pub open spec fn message_of_thread(tid: Seq<char>) -> spec_fn(ChatMessageV) -> bool {
    |m: ChatMessageV| m.thread_id == tid
}

/// Selects the thread rows of project `pid` that have at least one
/// message in `messages`.
pub open spec fn visible_thread(messages: Seq<ChatMessageV>, pid: Seq<char>) -> spec_fn(
    ChatThreadV,
) -> bool {
    |t: ChatThreadV| t.project_id == pid && thread_has_message(messages, t.id)
}

// ---------------------------------------------------------------------
// Write transitions.
/// Replaces the project row with this id, or appends one.
pub open spec fn upsert_project_row(ps: Seq<ProjectRowV>, row: ProjectRowV) -> Seq<ProjectRowV> {
    if exists|i: int| 0 <= i < ps.len() && (#[trigger] ps[i]).id == row.id {
        ps.update(choose|i: int| 0 <= i < ps.len() && (#[trigger] ps[i]).id == row.id, row)
    } else {
        ps.push(row)
    }
}

/// The store after a project save: the project row is upserted, every
/// rule and task row owned by the project (and every step row of those
/// tasks) is dropped, and the project's current rules, tasks and steps
/// are appended. Chat tables are untouched.
pub open spec fn save_project_spec(v: StoreV, p: ProjectV) -> StoreV {
    StoreV {
        projects: upsert_project_row(v.projects, project_row_of(p)),
        rules: v.rules.filter(other_rule(p.id)) + rule_rows_of(p.id, p.rules),
        tasks: v.tasks.filter(other_task(p.id)) + task_rows_of(p.id, p.tasks),
        steps: v.steps.filter(step_not_owned(v.tasks, p.id)) + tasks_step_rows(p.tasks),
        threads: v.threads,
        messages: v.messages,
    }
}

/// Whether each of a project's step sequences is short enough for its
/// positions to be stored in the position column.
pub open spec fn fits_order(p: ProjectV) -> bool {
    forall|i: int|
        0 <= i < p.tasks.len() ==> (#[trigger] p.tasks[i]).presteps.len() <= i64::MAX
            && p.tasks[i].steps.len() <= i64::MAX && p.tasks[i].poststeps.len() <= i64::MAX
}

/// Whether a project save satisfies every row constraint: the ids of the
/// saved children are pairwise distinct, and none collides with a child
/// row of another project that the save leaves in place. A save that
/// violates one fails as a whole and changes nothing.
pub open spec fn save_ok_spec(v: StoreV, p: ProjectV) -> bool {
    &&& crate::filters::distinct_keys(p.rules, |r: AgentRuleV| r.id)
    &&& crate::filters::distinct_keys(p.tasks, |t: TaskV| t.id)
    &&& crate::filters::distinct_keys(tasks_step_rows(p.tasks), |s: StepRowV| s.id)
    &&& forall|i: int, j: int|
        0 <= i < p.rules.len() && 0 <= j < v.rules.len() && (#[trigger] v.rules[j]).project_id
            != p.id ==> (#[trigger] p.rules[i]).id != v.rules[j].rule.id
    &&& forall|i: int, j: int|
        0 <= i < p.tasks.len() && 0 <= j < v.tasks.len() && (#[trigger] v.tasks[j]).project_id
            != p.id ==> (#[trigger] p.tasks[i]).id != v.tasks[j].id
    &&& forall|i: int, j: int|
        0 <= i < tasks_step_rows(p.tasks).len() && 0 <= j < v.steps.len() && !task_owned_by(
            v.tasks,
            (#[trigger] v.steps[j]).task_id,
            p.id,
        ) ==> (#[trigger] tasks_step_rows(p.tasks)[i]).id != v.steps[j].id
}

/// The store after deleting a project: its row and, through the cascade,
/// every rule, task, step, thread and message it transitively owned are
/// gone. Deleting an absent id changes nothing.
pub open spec fn delete_project_spec(v: StoreV, pid: Seq<char>) -> StoreV {
    StoreV {
        projects: v.projects.filter(other_project(pid)),
        rules: v.rules.filter(other_rule(pid)),
        tasks: v.tasks.filter(other_task(pid)),
        steps: v.steps.filter(step_not_owned(v.tasks, pid)),
        threads: v.threads.filter(other_thread(pid)),
        messages: v.messages.filter(message_not_owned(v.threads, pid)),
    }
}

/// The thread row after an upsert over an existing row: every column of
/// the incoming thread is taken except `created_at`, which keeps its
/// stored value.
pub open spec fn thread_row_updated(stored: ChatThreadV, t: ChatThreadV) -> ChatThreadV {
    ChatThreadV {
        id: stored.id,
        project_id: t.project_id,
        title: t.title,
        created_at: stored.created_at,
        updated_at: t.updated_at,
    }
}

/// The store after a thread save: an upsert by id with no effect on any
/// other table.
pub open spec fn save_thread_spec(v: StoreV, t: ChatThreadV) -> StoreV {
    if has_thread(v, t.id) {
        let i = thread_at(v, t.id);
        StoreV { threads: v.threads.update(i, thread_row_updated(v.threads[i], t)), ..v }
    } else {
        StoreV { threads: v.threads.push(t), ..v }
    }
}

/// A thread row with its `updated_at` advanced to `ts` if `ts` is later;
/// it never moves back.
pub open spec fn thread_bumped(row: ChatThreadV, ts: i64) -> ChatThreadV {
    ChatThreadV {
        updated_at: if row.updated_at > ts {
            row.updated_at
        } else {
            ts
        },
        ..row
    }
}

/// The store after a message save: the message row is upserted by id,
/// and the owning thread's `updated_at` is advanced to the message's
/// timestamp if that is later.
pub open spec fn save_message_spec(v: StoreV, m: ChatMessageV) -> StoreV {
    StoreV {
        messages: if has_message(v, m.id) {
            v.messages.update(message_at(v, m.id), m)
        } else {
            v.messages.push(m)
        },
        threads: Seq::new(
            v.threads.len(),
            |i: int|
                if v.threads[i].id == m.thread_id {
                    thread_bumped(v.threads[i], m.created_at)
                } else {
                    v.threads[i]
                },
        ),
        ..v
    }
}

/// The step sequence of a task that the membership `b` names.
pub open spec fn bucket_source(t: TaskV, b: StepBucket) -> Seq<TaskStepV> {
    match b {
        StepBucket::Pre => t.presteps,
        StepBucket::Main => t.steps,
        StepBucket::Post => t.poststeps,
    }
}

/// A task as the store returns it: every field as saved, with the
/// owning project's id in place of whatever `project_id` the caller had
/// set.
pub open spec fn normalized_task(pid: Seq<char>, t: TaskV) -> TaskV {
    TaskV { project_id: pid, ..t }
}

/// A project as the store returns it after a save: equal to the saved
/// value except that each task carries the project's id.
pub open spec fn normalized_project(p: ProjectV) -> ProjectV {
    ProjectV { tasks: p.tasks.map_values(|t: TaskV| normalized_task(p.id, t)), ..p }
}

/// A thread row after the timestamp backfill: a zero `created_at`
/// sentinel is replaced by the migration instant, and a zero
/// `updated_at` by the (backfilled) creation time.
pub open spec fn thread_backfilled(t: ChatThreadV, now: i64) -> ChatThreadV {
    let created = if t.created_at == 0 {
        now
    } else {
        t.created_at
    };
    ChatThreadV {
        created_at: created,
        updated_at: if t.updated_at == 0 {
            created
        } else {
            t.updated_at
        },
        ..t
    }
}

/// The store after the forward migration's backfill step: every thread
/// row's zero timestamp sentinels are filled in; nothing else changes.
pub open spec fn backfill_threads_spec(v: StoreV, now: i64) -> StoreV {
    StoreV {
        threads: Seq::new(v.threads.len(), |i: int| thread_backfilled(v.threads[i], now)),
        ..v
    }
}

// ---------------------------------------------------------------------
// Reads.
/// A step entity read back from its row, statuses decoded leniently.
pub open spec fn step_of_row(s: StepRowV) -> TaskStepV {
    TaskStepV {
        id: s.id,
        title: s.title,
        content: s.content,
        status: status_of(s.status),
        created_at: s.created_at,
        updated_at: s.updated_at,
        step_type: step_type_of(s.step_type),
    }
}

/// One of a task's three step sequences as read back: the task's step
/// rows whose stored membership decodes to `b`, ordered by their stored
/// position and, among equal positions, by their update time (remaining
/// ties keep table order), decoded to entities.
pub open spec fn bucket_of_task(v: StoreV, tid: Seq<char>, b: StepBucket) -> Seq<TaskStepV> {
    sort_by_key::<StepRow>(
        v.steps.filter(step_in_bucket(tid, b)),
    ).map_values(|s: StepRowV| step_of_row(s))
}

/// A task entity read back from its row and the step table.
pub open spec fn task_of_row(v: StoreV, t: TaskRowV) -> TaskV {
    TaskV {
        id: t.id,
        project_id: t.project_id,
        title: t.title,
        description: t.description,
        steps: bucket_of_task(v, t.id, StepBucket::Main),
        presteps: bucket_of_task(v, t.id, StepBucket::Pre),
        poststeps: bucket_of_task(v, t.id, StepBucket::Post),
        status: status_of(t.status),
        created_at: t.created_at,
        updated_at: t.updated_at,
    }
}

/// The rules of a project as read back, in table order.
pub open spec fn rules_of(v: StoreV, pid: Seq<char>) -> Seq<AgentRuleV> {
    v.rules.filter(rule_of_project(pid)).map_values(|r: RuleRowV| r.rule)
}

/// The tasks of a project as read back, in table order.
pub open spec fn tasks_of(v: StoreV, pid: Seq<char>) -> Seq<TaskV> {
    v.tasks.filter(task_of_project(pid)).map_values(|t: TaskRowV| task_of_row(v, t))
}

/// The full nested project read back from a project row.
pub open spec fn assemble_project(v: StoreV, row: ProjectRowV) -> ProjectV {
    ProjectV {
        id: row.id,
        name: row.name,
        path: row.path,
        rules: rules_of(v, row.id),
        tasks: tasks_of(v, row.id),
        created_at: row.created_at,
        updated_at: row.updated_at,
    }
}

/// The point read: the full nested project, or nothing if the id is
/// absent; never a partial value.
pub open spec fn load_project_spec(v: StoreV, pid: Seq<char>) -> Option<ProjectV> {
    if has_project(v, pid) {
        Some(assemble_project(v, v.projects[project_at(v, pid)]))
    } else {
        None
    }
}

/// The project rows ordered most recently updated first; rows of equal
/// recency keep table order.
pub open spec fn recent_project_rows(v: StoreV) -> Seq<ProjectRowV> {
    sort_by_key::<ProjectRow>(v.projects)
}

/// Every project, fully assembled, most recently updated first.
pub open spec fn load_projects_spec(v: StoreV) -> Seq<ProjectV> {
    recent_project_rows(v).map_values(|row: ProjectRowV| assemble_project(v, row))
}

/// At most `count` full projects, most recently updated first.
pub open spec fn recent_projects_spec(v: StoreV, count: int) -> Seq<ProjectV> {
    let rows = recent_project_rows(v);
    let n = if count < rows.len() {
        count
    } else {
        rows.len() as int
    };
    rows.take(n).map_values(|row: ProjectRowV| assemble_project(v, row))
}

/// The first row of `s` whose path matches, if any.
pub open spec fn first_by_path(s: Seq<ProjectRowV>, path: Seq<char>) -> Option<ProjectRowV>
    decreases s.len(),
{
    if s.len() == 0 {
        None
    } else if s[0].path == path {
        Some(s[0])
    } else {
        first_by_path(s.skip(1), path)
    }
}

/// The most recently updated project whose path matches exactly, fully
/// assembled, or nothing.
pub open spec fn load_project_by_path_spec(v: StoreV, path: Seq<char>) -> Option<ProjectV> {
    match first_by_path(recent_project_rows(v), path) {
        Some(row) => Some(assemble_project(v, row)),
        None => None,
    }
}

/// The project that the path-based get-or-create operation synthesizes
/// when no project matches the path: empty rule and task collections,
/// an id derived from the creation timestamp, and a name taken from the
/// path's last non-empty segment.
pub open spec fn new_project_spec(path: Seq<char>, now: i64) -> ProjectV {
    ProjectV {
        id: crate::ident::project_id_chars(now as nat),
        name: crate::pathname::name_of_path(path),
        path: path,
        rules: Seq::empty(),
        tasks: Seq::empty(),
        created_at: now,
        updated_at: now,
    }
}

/// The store and the returned project after a path-based get-or-create:
/// the most recently updated project with this exact path, with the
/// store unchanged; or, when none matches, a synthesized project saved
/// through the standard save path.
pub open spec fn load_or_create_spec(v: StoreV, path: Seq<char>, now: i64) -> (StoreV, ProjectV) {
    match load_project_by_path_spec(v, path) {
        Some(p) => (v, p),
        None => (
            save_project_spec(v, new_project_spec(path, now)),
            new_project_spec(path, now),
        ),
    }
}

/// The thread rows of a project that have at least one message; a
/// thread with none is invisible to the listing.
pub open spec fn visible_threads(v: StoreV, pid: Seq<char>) -> Seq<ChatThreadV> {
    v.threads.filter(visible_thread(v.messages, pid))
}

/// At most `count` visible threads of a project, most recently updated
/// first.
pub open spec fn list_threads_spec(v: StoreV, pid: Seq<char>, count: int) -> Seq<ChatThreadV> {
    let rows = sort_by_key::<ChatThread>(visible_threads(v, pid));
    let n = if count < rows.len() {
        count
    } else {
        rows.len() as int
    };
    rows.take(n)
}

/// Every message of a thread in chronological replay order, unbounded.
pub open spec fn list_messages_spec(v: StoreV, tid: Seq<char>) -> Seq<ChatMessageV> {
    sort_by_key::<ChatMessage>(v.messages.filter(message_of_thread(tid)))
}

} // verus!
