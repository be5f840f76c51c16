//! Proofs that every write transition preserves the store's
//! well-formedness: unique row ids per table and referential integrity
//! survive a project save, a project deletion, and the chat upserts.

use vstd::prelude::*;

use crate::filters::{distinct_keys, lemma_concat_distinct, lemma_filter_distinct,
    lemma_filter_subset};
use crate::model::{AgentRuleV, ChatMessageV, ChatThreadV, ProjectV, TaskV};
use crate::rows::{ProjectRowV, RuleRowV, StepRowV, TaskRowV};
use crate::state::{delete_project_spec, has_project, has_task, has_thread, other_rule,
    other_task, project_row_of, step_not_owned,
    rule_rows_of, save_message_spec, save_project_spec, save_ok_spec, save_thread_spec,
    rows_have_id, task_owned_by, task_rows_of, task_step_rows, tasks_step_rows, thread_owned_by,
    upsert_project_row, StoreV};

verus! {

/// After a row upsert, the table holds exactly the old ids plus the
/// row's id, and distinctness of ids is preserved.
pub proof fn lemma_upsert_project_ids(ps: Seq<ProjectRowV>, row: ProjectRowV)
    requires
        distinct_keys(ps, |p: ProjectRowV| p.id),
    ensures
        distinct_keys(upsert_project_row(ps, row), |p: ProjectRowV| p.id),
        forall|x: Seq<char>| #[trigger]
            rows_have_id(upsert_project_row(ps, row), x) <==> (rows_have_id(ps, x) || x == row.id),
{
    let out = upsert_project_row(ps, row);
    if exists|i: int| 0 <= i < ps.len() && (#[trigger] ps[i]).id == row.id {
        let k = choose|i: int| 0 <= i < ps.len() && (#[trigger] ps[i]).id == row.id;
        assert(out == ps.update(k, row));
        assert(forall|i: int| 0 <= i < ps.len() ==> (#[trigger] out[i]).id == ps[i].id);
        assert forall|x: Seq<char>| #[trigger]
            rows_have_id(out, x) <==> (rows_have_id(ps, x) || x == row.id) by {
            if rows_have_id(out, x) {
                let i = choose|i: int| 0 <= i < out.len() && (#[trigger] out[i]).id == x;
                assert(ps[i].id == x);
            }
            if rows_have_id(ps, x) {
                let i = choose|i: int| 0 <= i < ps.len() && (#[trigger] ps[i]).id == x;
                assert(out[i].id == x);
            }
            if x == row.id {
                assert(out[k].id == x);
            }
        }
    } else {
        assert(out == ps.push(row));
        assert(forall|i: int| 0 <= i < ps.len() ==> (#[trigger] out[i]).id == ps[i].id);
        assert(out[ps.len() as int].id == row.id);
        assert forall|x: Seq<char>| #[trigger]
            rows_have_id(out, x) <==> (rows_have_id(ps, x) || x == row.id) by {
            if rows_have_id(out, x) {
                let i = choose|i: int| 0 <= i < out.len() && (#[trigger] out[i]).id == x;
                if i < ps.len() {
                    assert(ps[i].id == x);
                }
            }
            if rows_have_id(ps, x) {
                let i = choose|i: int| 0 <= i < ps.len() && (#[trigger] ps[i]).id == x;
                assert(out[i].id == x);
            }
        }
    }
}

/// Every step row generated for a task sequence points at the id of one
/// of those tasks.
pub proof fn lemma_tasks_step_rows_parents(ts: Seq<crate::model::TaskV>)
    ensures
        forall|i: int|
            0 <= i < tasks_step_rows(ts).len() ==> exists|k: int|
                0 <= k < ts.len() && (#[trigger] tasks_step_rows(ts)[i]).task_id == (
                #[trigger] ts[k]).id,
    decreases ts.len(),
{
    if ts.len() > 0 {
        lemma_tasks_step_rows_parents(ts.drop_last());
        let head = tasks_step_rows(ts.drop_last());
        let tail = task_step_rows(ts.last());
        assert forall|i: int| 0 <= i < tasks_step_rows(ts).len() implies exists|k: int|
            0 <= k < ts.len() && (#[trigger] tasks_step_rows(ts)[i]).task_id == (
            #[trigger] ts[k]).id by {
            if i < head.len() {
                assert(tasks_step_rows(ts)[i] == head[i]);
                let k = choose|k: int|
                    0 <= k < ts.drop_last().len() && head[i].task_id == (
                    #[trigger] ts.drop_last()[k]).id;
                assert(ts[k] == ts.drop_last()[k]);
                assert(tasks_step_rows(ts)[i].task_id == ts[k].id);
            } else {
                assert(tasks_step_rows(ts)[i] == tail[i - head.len()]);
                assert(tail[i - head.len()].task_id == ts.last().id);
                assert(ts[ts.len() - 1] == ts.last());
            }
        }
    }
}

/// Deleting a project keeps the store well-formed.
pub proof fn lemma_delete_preserves_wf(v: StoreV, pid: Seq<char>)
    requires
        v.wf(),
    ensures
        delete_project_spec(v, pid).wf(),
{
    let v2 = delete_project_spec(v, pid);
    lemma_filter_distinct(v.projects, |p: ProjectRowV| p.id != pid, |p: ProjectRowV| p.id);
    lemma_filter_distinct(v.rules, |r: RuleRowV| r.project_id != pid, |r: RuleRowV| r.rule.id);
    lemma_filter_distinct(v.tasks, |t: TaskRowV| t.project_id != pid, |t: TaskRowV| t.id);
    lemma_filter_distinct(
        v.steps,
        |s: StepRowV| !task_owned_by(v.tasks, s.task_id, pid),
        |s: StepRowV| s.id,
    );
    lemma_filter_distinct(v.threads, |t: ChatThreadV| t.project_id != pid, |t: ChatThreadV| t.id);
    lemma_filter_distinct(
        v.messages,
        |m: ChatMessageV| !thread_owned_by(v.threads, m.thread_id, pid),
        |m: ChatMessageV| m.id,
    );
    lemma_filter_subset(v.projects, |p: ProjectRowV| p.id != pid);
    lemma_filter_subset(v.rules, |r: RuleRowV| r.project_id != pid);
    lemma_filter_subset(v.tasks, |t: TaskRowV| t.project_id != pid);
    lemma_filter_subset(v.steps, |s: StepRowV| !task_owned_by(v.tasks, s.task_id, pid));
    lemma_filter_subset(v.threads, |t: ChatThreadV| t.project_id != pid);
    lemma_filter_subset(
        v.messages,
        |m: ChatMessageV| !thread_owned_by(v.threads, m.thread_id, pid),
    );
    assert forall|i: int| 0 <= i < v2.rules.len() implies has_project(
        v2,
        (#[trigger] v2.rules[i]).project_id,
    ) by {
        let r = v2.rules[i];
        assert(v2.rules.contains(r));
        assert(v.rules.contains(r) && r.project_id != pid);
        let j = choose|j: int| 0 <= j < v.rules.len() && v.rules[j] == r;
        assert(has_project(v, r.project_id));
        let k = choose|k: int|
            0 <= k < v.projects.len() && (#[trigger] v.projects[k]).id == r.project_id;
        v.projects.lemma_filter_contains(|p: ProjectRowV| p.id != pid, k);
        let m = choose|m: int| 0 <= m < v2.projects.len() && v2.projects[m] == v.projects[k];
        assert(v2.projects[m].id == r.project_id);
    }
    assert forall|i: int| 0 <= i < v2.tasks.len() implies has_project(
        v2,
        (#[trigger] v2.tasks[i]).project_id,
    ) by {
        let t = v2.tasks[i];
        assert(v2.tasks.contains(t));
        assert(v.tasks.contains(t) && t.project_id != pid);
        assert(has_project(v, t.project_id));
        let k = choose|k: int|
            0 <= k < v.projects.len() && (#[trigger] v.projects[k]).id == t.project_id;
        v.projects.lemma_filter_contains(|p: ProjectRowV| p.id != pid, k);
        let m = choose|m: int| 0 <= m < v2.projects.len() && v2.projects[m] == v.projects[k];
        assert(v2.projects[m].id == t.project_id);
    }
    assert forall|i: int| 0 <= i < v2.threads.len() implies has_project(
        v2,
        (#[trigger] v2.threads[i]).project_id,
    ) by {
        let t = v2.threads[i];
        assert(v2.threads.contains(t));
        assert(v.threads.contains(t) && t.project_id != pid);
        assert(has_project(v, t.project_id));
        let k = choose|k: int|
            0 <= k < v.projects.len() && (#[trigger] v.projects[k]).id == t.project_id;
        v.projects.lemma_filter_contains(|p: ProjectRowV| p.id != pid, k);
        let m = choose|m: int| 0 <= m < v2.projects.len() && v2.projects[m] == v.projects[k];
        assert(v2.projects[m].id == t.project_id);
    }
    assert forall|i: int| 0 <= i < v2.steps.len() implies has_task(
        v2,
        (#[trigger] v2.steps[i]).task_id,
    ) by {
        let s = v2.steps[i];
        assert(v2.steps.contains(s));
        assert(v.steps.contains(s) && !task_owned_by(v.tasks, s.task_id, pid));
        assert(has_task(v, s.task_id));
        let k = choose|k: int| 0 <= k < v.tasks.len() && (#[trigger] v.tasks[k]).id == s.task_id;
        assert(v.tasks[k].project_id != pid);
        v.tasks.lemma_filter_contains(|t: TaskRowV| t.project_id != pid, k);
        let m = choose|m: int| 0 <= m < v2.tasks.len() && v2.tasks[m] == v.tasks[k];
        assert(v2.tasks[m].id == s.task_id);
    }
    assert forall|i: int| 0 <= i < v2.messages.len() implies has_thread(
        v2,
        (#[trigger] v2.messages[i]).thread_id,
    ) by {
        let msg = v2.messages[i];
        assert(v2.messages.contains(msg));
        assert(v.messages.contains(msg) && !thread_owned_by(v.threads, msg.thread_id, pid));
        assert(has_thread(v, msg.thread_id));
        let k = choose|k: int|
            0 <= k < v.threads.len() && (#[trigger] v.threads[k]).id == msg.thread_id;
        assert(v.threads[k].project_id != pid);
        v.threads.lemma_filter_contains(|t: ChatThreadV| t.project_id != pid, k);
        let m = choose|m: int| 0 <= m < v2.threads.len() && v2.threads[m] == v.threads[k];
        assert(v2.threads[m].id == msg.thread_id);
    }
}

/// A constraint-respecting project save keeps the store well-formed.
pub proof fn lemma_save_preserves_wf(v: StoreV, p: ProjectV)
    requires
        v.wf(),
        save_ok_spec(v, p),
    ensures
        save_project_spec(v, p).wf(),
{
    let v2 = save_project_spec(v, p);
    let prow = project_row_of(p);
    lemma_upsert_project_ids(v.projects, prow);
    assert(v2.projects == upsert_project_row(v.projects, prow));

    let rule_pred = |r: RuleRowV| r.project_id != p.id;
    let rule_key = |r: RuleRowV| r.rule.id;
    let kept_rules = v.rules.filter(rule_pred);
    let new_rules = rule_rows_of(p.id, p.rules);
    lemma_filter_distinct(v.rules, rule_pred, rule_key);
    lemma_filter_subset(v.rules, rule_pred);
    assert(distinct_keys(new_rules, rule_key)) by {
        assert(forall|i: int|
            0 <= i < new_rules.len() ==> (#[trigger] new_rules[i]).rule == p.rules[i]);
    }
    assert forall|i: int, j: int|
        0 <= i < kept_rules.len() && 0 <= j < new_rules.len() implies rule_key(
        #[trigger] kept_rules[i],
    ) != rule_key(#[trigger] new_rules[j]) by {
        assert(kept_rules.contains(kept_rules[i]));
        let a = choose|a: int| 0 <= a < v.rules.len() && v.rules[a] == kept_rules[i];
        assert(v.rules[a].project_id != p.id);
        assert(new_rules[j].rule == p.rules[j]);
        assert(p.rules[j].id != v.rules[a].rule.id);
    }
    lemma_concat_distinct(kept_rules, new_rules, rule_key);
    assert(v2.rules == kept_rules + new_rules);

    let task_pred = |t: TaskRowV| t.project_id != p.id;
    let task_key = |t: TaskRowV| t.id;
    let kept_tasks = v.tasks.filter(task_pred);
    let new_tasks = task_rows_of(p.id, p.tasks);
    lemma_filter_distinct(v.tasks, task_pred, task_key);
    lemma_filter_subset(v.tasks, task_pred);
    assert(distinct_keys(new_tasks, task_key)) by {
        assert(forall|i: int|
            0 <= i < new_tasks.len() ==> (#[trigger] new_tasks[i]).id == p.tasks[i].id);
    }
    assert forall|i: int, j: int|
        0 <= i < kept_tasks.len() && 0 <= j < new_tasks.len() implies task_key(
        #[trigger] kept_tasks[i],
    ) != task_key(#[trigger] new_tasks[j]) by {
        assert(kept_tasks.contains(kept_tasks[i]));
        let a = choose|a: int| 0 <= a < v.tasks.len() && v.tasks[a] == kept_tasks[i];
        assert(v.tasks[a].project_id != p.id);
        assert(new_tasks[j].id == p.tasks[j].id);
        assert(p.tasks[j].id != v.tasks[a].id);
    }
    lemma_concat_distinct(kept_tasks, new_tasks, task_key);
    assert(v2.tasks == kept_tasks + new_tasks);

    let step_pred = |s: StepRowV| !task_owned_by(v.tasks, s.task_id, p.id);
    let step_key = |s: StepRowV| s.id;
    let kept_steps = v.steps.filter(step_pred);
    let new_steps = tasks_step_rows(p.tasks);
    lemma_filter_distinct(v.steps, step_pred, step_key);
    lemma_filter_subset(v.steps, step_pred);
    assert forall|i: int, j: int|
        0 <= i < kept_steps.len() && 0 <= j < new_steps.len() implies step_key(
        #[trigger] kept_steps[i],
    ) != step_key(#[trigger] new_steps[j]) by {
        assert(kept_steps.contains(kept_steps[i]));
        let a = choose|a: int| 0 <= a < v.steps.len() && v.steps[a] == kept_steps[i];
        assert(!task_owned_by(v.tasks, v.steps[a].task_id, p.id));
        assert(new_steps[j].id != v.steps[a].id);
    }
    lemma_concat_distinct(kept_steps, new_steps, step_key);
    assert(v2.steps == kept_steps + new_steps);

    // Referential integrity of the new store.
    assert forall|i: int| 0 <= i < v2.rules.len() implies has_project(
        v2,
        (#[trigger] v2.rules[i]).project_id,
    ) by {
        if i < kept_rules.len() {
            assert(v2.rules[i] == kept_rules[i]);
            assert(kept_rules.contains(kept_rules[i]));
            let a = choose|a: int| 0 <= a < v.rules.len() && v.rules[a] == kept_rules[i];
            assert(has_project(v, v.rules[a].project_id));
            assert(rows_have_id(v2.projects, v2.rules[i].project_id));
        } else {
            assert(v2.rules[i] == new_rules[i - kept_rules.len()]);
            assert(v2.rules[i].project_id == p.id);
            assert(rows_have_id(v2.projects, p.id));
        }
    }
    assert forall|i: int| 0 <= i < v2.tasks.len() implies has_project(
        v2,
        (#[trigger] v2.tasks[i]).project_id,
    ) by {
        if i < kept_tasks.len() {
            assert(v2.tasks[i] == kept_tasks[i]);
            assert(kept_tasks.contains(kept_tasks[i]));
            let a = choose|a: int| 0 <= a < v.tasks.len() && v.tasks[a] == kept_tasks[i];
            assert(has_project(v, v.tasks[a].project_id));
            assert(rows_have_id(v2.projects, v2.tasks[i].project_id));
        } else {
            assert(v2.tasks[i] == new_tasks[i - kept_tasks.len()]);
            assert(v2.tasks[i].project_id == p.id);
            assert(rows_have_id(v2.projects, p.id));
        }
    }
    lemma_tasks_step_rows_parents(p.tasks);
    assert forall|i: int| 0 <= i < v2.steps.len() implies has_task(
        v2,
        (#[trigger] v2.steps[i]).task_id,
    ) by {
        if i < kept_steps.len() {
            assert(v2.steps[i] == kept_steps[i]);
            assert(kept_steps.contains(kept_steps[i]));
            let a = choose|a: int| 0 <= a < v.steps.len() && v.steps[a] == kept_steps[i];
            let s = v.steps[a];
            assert(has_task(v, s.task_id));
            let k = choose|k: int| 0 <= k < v.tasks.len() && (#[trigger] v.tasks[k]).id
                == s.task_id;
            assert(v.tasks[k].project_id != p.id);
            v.tasks.lemma_filter_contains(task_pred, k);
            let m = choose|m: int| 0 <= m < kept_tasks.len() && kept_tasks[m] == v.tasks[k];
            assert(v2.tasks[m].id == s.task_id);
        } else {
            assert(v2.steps[i] == new_steps[i - kept_steps.len()]);
            let k = choose|k: int|
                0 <= k < p.tasks.len() && (#[trigger] new_steps[i - kept_steps.len()]).task_id == (
                #[trigger] p.tasks[k]).id;
            assert(new_tasks[k].id == p.tasks[k].id);
            assert(v2.tasks[kept_tasks.len() + k].id == v2.steps[i].task_id);
        }
    }
    assert forall|i: int| 0 <= i < v2.threads.len() implies has_project(
        v2,
        (#[trigger] v2.threads[i]).project_id,
    ) by {
        assert(v2.threads[i] == v.threads[i]);
        assert(has_project(v, v.threads[i].project_id));
        assert(rows_have_id(v2.projects, v2.threads[i].project_id));
    }
    assert forall|i: int| 0 <= i < v2.messages.len() implies has_thread(
        v2,
        (#[trigger] v2.messages[i]).thread_id,
    ) by {
        assert(v2.messages[i] == v.messages[i]);
        let tid = v.messages[i].thread_id;
        assert(has_thread(v, tid));
        let a = choose|a: int| 0 <= a < v.threads.len() && (#[trigger] v.threads[a]).id == tid;
        assert(v2.threads[a].id == tid);
    }
}

/// A thread upsert whose project exists keeps the store well-formed.
pub proof fn lemma_save_thread_preserves_wf(v: StoreV, t: ChatThreadV)
    requires
        v.wf(),
        has_project(v, t.project_id),
    ensures
        save_thread_spec(v, t).wf(),
{
    let v2 = save_thread_spec(v, t);
    if crate::state::has_thread(v, t.id) {
        let i = crate::state::thread_at(v, t.id);
        assert(0 <= i < v.threads.len() && v.threads[i].id == t.id);
        assert(forall|k: int| 0 <= k < v.threads.len() ==> (#[trigger] v2.threads[k]).id
            == v.threads[k].id);
        assert(forall|k: int|
            0 <= k < v.threads.len() && k != i ==> #[trigger] v2.threads[k] == v.threads[k]);
        assert(distinct_keys(v2.threads, |x: ChatThreadV| x.id));
        assert forall|k: int| 0 <= k < v2.threads.len() implies has_project(
            v2,
            (#[trigger] v2.threads[k]).project_id,
        ) by {
            if k == i {
                assert(v2.threads[k].project_id == t.project_id);
            } else {
                assert(v2.threads[k] == v.threads[k]);
                assert(has_project(v, v.threads[k].project_id));
            }
        }
        assert forall|k: int| 0 <= k < v2.messages.len() implies has_thread(
            v2,
            (#[trigger] v2.messages[k]).thread_id,
        ) by {
            assert(has_thread(v, v.messages[k].thread_id));
            let a = choose|a: int|
                0 <= a < v.threads.len() && (#[trigger] v.threads[a]).id == v.messages[k].thread_id;
            assert(v2.threads[a].id == v.messages[k].thread_id);
        }
    } else {
        assert(v2.threads == v.threads.push(t));
        assert(forall|k: int| 0 <= k < v.threads.len() ==> #[trigger] v2.threads[k]
            == v.threads[k]);
        assert(v2.threads[v.threads.len() as int] == t);
        assert(forall|k: int| 0 <= k < v.threads.len() ==> (#[trigger] v.threads[k]).id != t.id);
        assert(distinct_keys(v2.threads, |x: ChatThreadV| x.id));
        assert forall|k: int| 0 <= k < v2.threads.len() implies has_project(
            v2,
            (#[trigger] v2.threads[k]).project_id,
        ) by {
            if k == v.threads.len() {
                assert(v2.threads[k].project_id == t.project_id);
            } else {
                assert(v2.threads[k] == v.threads[k]);
                assert(has_project(v, v.threads[k].project_id));
            }
        }
        assert forall|k: int| 0 <= k < v2.messages.len() implies has_thread(
            v2,
            (#[trigger] v2.messages[k]).thread_id,
        ) by {
            assert(has_thread(v, v.messages[k].thread_id));
            let a = choose|a: int|
                0 <= a < v.threads.len() && (#[trigger] v.threads[a]).id == v.messages[k].thread_id;
            assert(v2.threads[a].id == v.messages[k].thread_id);
        }
    }
}

/// A message save whose thread exists keeps the store well-formed.
pub proof fn lemma_save_message_preserves_wf(v: StoreV, m: ChatMessageV)
    requires
        v.wf(),
        has_thread(v, m.thread_id),
    ensures
        save_message_spec(v, m).wf(),
{
    let v2 = save_message_spec(v, m);
    assert(v2.threads.len() == v.threads.len());
    assert(forall|k: int| 0 <= k < v.threads.len() ==> (#[trigger] v2.threads[k]).id
        == v.threads[k].id && v2.threads[k].project_id == v.threads[k].project_id);
    assert(distinct_keys(v2.threads, |x: ChatThreadV| x.id));
    assert forall|k: int| 0 <= k < v2.threads.len() implies has_project(
        v2,
        (#[trigger] v2.threads[k]).project_id,
    ) by {
        assert(v2.threads[k].project_id == v.threads[k].project_id);
        assert(has_project(v, v.threads[k].project_id));
    }
    if crate::state::has_message(v, m.id) {
        let i = crate::state::message_at(v, m.id);
        assert(0 <= i < v.messages.len() && v.messages[i].id == m.id);
        assert(v2.messages == v.messages.update(i, m));
        assert(forall|k: int| 0 <= k < v.messages.len() ==> (#[trigger] v2.messages[k]).id
            == v.messages[k].id);
        assert(distinct_keys(v2.messages, |x: ChatMessageV| x.id));
        assert forall|k: int| 0 <= k < v2.messages.len() implies has_thread(
            v2,
            (#[trigger] v2.messages[k]).thread_id,
        ) by {
            let tid = v2.messages[k].thread_id;
            if k == i {
                let a = choose|a: int|
                    0 <= a < v.threads.len() && (#[trigger] v.threads[a]).id == m.thread_id;
                assert(v2.threads[a].id == tid);
            } else {
                assert(v2.messages[k] == v.messages[k]);
                assert(has_thread(v, tid));
                let a = choose|a: int|
                    0 <= a < v.threads.len() && (#[trigger] v.threads[a]).id == tid;
                assert(v2.threads[a].id == tid);
            }
        }
    } else {
        assert(v2.messages == v.messages.push(m));
        assert(forall|k: int| 0 <= k < v.messages.len() ==> #[trigger] v2.messages[k]
            == v.messages[k]);
        assert(v2.messages[v.messages.len() as int] == m);
        assert(forall|k: int| 0 <= k < v.messages.len() ==> (#[trigger] v.messages[k]).id != m.id);
        assert(distinct_keys(v2.messages, |x: ChatMessageV| x.id));
        assert forall|k: int| 0 <= k < v2.messages.len() implies has_thread(
            v2,
            (#[trigger] v2.messages[k]).thread_id,
        ) by {
            let tid = v2.messages[k].thread_id;
            assert(has_thread(v, tid));
            let a = choose|a: int| 0 <= a < v.threads.len() && (#[trigger] v.threads[a]).id == tid;
            assert(v2.threads[a].id == tid);
        }
    }
}

/// Parent lookups survive moving to a store whose projects table keeps
/// every old row (it may have more).
pub proof fn lemma_has_project_mono(v: StoreV, v2: StoreV, x: Seq<char>)
    requires
        has_project(v, x),
        v2.projects.len() >= v.projects.len(),
        forall|k: int| 0 <= k < v.projects.len() ==> #[trigger] v2.projects[k] == v.projects[k],
    ensures
        has_project(v2, x),
{
    let a = choose|a: int| 0 <= a < v.projects.len() && (#[trigger] v.projects[a]).id == x;
    assert(v2.projects[a].id == x);
}

/// Task lookups survive moving to a store whose tasks table keeps every
/// old row.
pub proof fn lemma_has_task_mono(v: StoreV, v2: StoreV, x: Seq<char>)
    requires
        has_task(v, x),
        v2.tasks.len() >= v.tasks.len(),
        forall|k: int| 0 <= k < v.tasks.len() ==> #[trigger] v2.tasks[k] == v.tasks[k],
    ensures
        has_task(v2, x),
{
    let a = choose|a: int| 0 <= a < v.tasks.len() && (#[trigger] v.tasks[a]).id == x;
    assert(v2.tasks[a].id == x);
}

/// Thread lookups survive moving to a store whose threads table keeps
/// every old row.
pub proof fn lemma_has_thread_mono(v: StoreV, v2: StoreV, x: Seq<char>)
    requires
        has_thread(v, x),
        v2.threads.len() >= v.threads.len(),
        forall|k: int| 0 <= k < v.threads.len() ==> #[trigger] v2.threads[k] == v.threads[k],
    ensures
        has_thread(v2, x),
{
    let a = choose|a: int| 0 <= a < v.threads.len() && (#[trigger] v.threads[a]).id == x;
    assert(v2.threads[a].id == x);
}

/// The referential conjuncts of well-formedness carry from `v` to `v2`
/// when every child table of `v2` keeps the old rows (plus possibly new
/// ones that are separately justified) and every parent table keeps the
/// old rows.
proof fn lemma_fk_carries(v: StoreV, v2: StoreV)
    requires
        v.wf(),
        v2.projects.len() >= v.projects.len(),
        forall|k: int| 0 <= k < v.projects.len() ==> #[trigger] v2.projects[k] == v.projects[k],
        v2.tasks.len() >= v.tasks.len(),
        forall|k: int| 0 <= k < v.tasks.len() ==> #[trigger] v2.tasks[k] == v.tasks[k],
        v2.threads.len() >= v.threads.len(),
        forall|k: int| 0 <= k < v.threads.len() ==> #[trigger] v2.threads[k] == v.threads[k],
    ensures
        forall|i: int|
            0 <= i < v.rules.len() ==> has_project(v2, (#[trigger] v.rules[i]).project_id),
        forall|i: int|
            0 <= i < v.tasks.len() ==> has_project(v2, (#[trigger] v.tasks[i]).project_id),
        forall|i: int| 0 <= i < v.steps.len() ==> has_task(v2, (#[trigger] v.steps[i]).task_id),
        forall|i: int|
            0 <= i < v.threads.len() ==> has_project(v2, (#[trigger] v.threads[i]).project_id),
        forall|i: int|
            0 <= i < v.messages.len() ==> has_thread(v2, (#[trigger] v.messages[i]).thread_id),
{
    assert forall|i: int| 0 <= i < v.rules.len() implies has_project(
        v2,
        (#[trigger] v.rules[i]).project_id,
    ) by {
        lemma_has_project_mono(v, v2, v.rules[i].project_id);
    }
    assert forall|i: int| 0 <= i < v.tasks.len() implies has_project(
        v2,
        (#[trigger] v.tasks[i]).project_id,
    ) by {
        lemma_has_project_mono(v, v2, v.tasks[i].project_id);
    }
    assert forall|i: int| 0 <= i < v.steps.len() implies has_task(
        v2,
        (#[trigger] v.steps[i]).task_id,
    ) by {
        lemma_has_task_mono(v, v2, v.steps[i].task_id);
    }
    assert forall|i: int| 0 <= i < v.threads.len() implies has_project(
        v2,
        (#[trigger] v.threads[i]).project_id,
    ) by {
        lemma_has_project_mono(v, v2, v.threads[i].project_id);
    }
    assert forall|i: int| 0 <= i < v.messages.len() implies has_thread(
        v2,
        (#[trigger] v.messages[i]).thread_id,
    ) by {
        lemma_has_thread_mono(v, v2, v.messages[i].thread_id);
    }
}

/// Appending a project row with a fresh id keeps the store well-formed.
pub proof fn lemma_insert_project_row_wf(v: StoreV, row: ProjectRowV)
    requires
        v.wf(),
        !rows_have_id(v.projects, row.id),
    ensures
        (StoreV { projects: v.projects.push(row), ..v }).wf(),
{
    let v2 = StoreV { projects: v.projects.push(row), ..v };
    assert(forall|k: int| 0 <= k < v.projects.len() ==> #[trigger] v2.projects[k]
        == v.projects[k]);
    assert(forall|k: int| 0 <= k < v.projects.len() ==> (#[trigger] v.projects[k]).id != row.id);
    assert(distinct_keys(v2.projects, |p: ProjectRowV| p.id)) by {
        assert(v2.projects[v.projects.len() as int] == row);
    }
    lemma_fk_carries(v, v2);
    assert(forall|i: int| 0 <= i < v2.rules.len() ==> #[trigger] v2.rules[i] == v.rules[i]);
    assert(forall|i: int| 0 <= i < v2.tasks.len() ==> #[trigger] v2.tasks[i] == v.tasks[i]);
    assert(forall|i: int| 0 <= i < v2.steps.len() ==> #[trigger] v2.steps[i] == v.steps[i]);
    assert(forall|i: int| 0 <= i < v2.threads.len() ==> #[trigger] v2.threads[i] == v.threads[i]);
    assert(forall|i: int| 0 <= i < v2.messages.len() ==> #[trigger] v2.messages[i]
        == v.messages[i]);
}

/// Appending a rule row with a fresh id under an existing project keeps
/// the store well-formed.
pub proof fn lemma_insert_rule_row_wf(v: StoreV, row: RuleRowV)
    requires
        v.wf(),
        !crate::state::has_rule(v, row.rule.id),
        has_project(v, row.project_id),
    ensures
        (StoreV { rules: v.rules.push(row), ..v }).wf(),
{
    let v2 = StoreV { rules: v.rules.push(row), ..v };
    assert(forall|k: int| 0 <= k < v.rules.len() ==> #[trigger] v2.rules[k] == v.rules[k]);
    assert(forall|k: int| 0 <= k < v.rules.len() ==> (#[trigger] v.rules[k]).rule.id
        != row.rule.id);
    assert(distinct_keys(v2.rules, |r: RuleRowV| r.rule.id)) by {
        assert(v2.rules[v.rules.len() as int] == row);
    }
    lemma_fk_carries(v, v2);
    lemma_has_project_mono(v, v2, row.project_id);
    assert(forall|i: int| 0 <= i < v2.tasks.len() ==> #[trigger] v2.tasks[i] == v.tasks[i]);
    assert(forall|i: int| 0 <= i < v2.steps.len() ==> #[trigger] v2.steps[i] == v.steps[i]);
    assert(forall|i: int| 0 <= i < v2.threads.len() ==> #[trigger] v2.threads[i] == v.threads[i]);
    assert(forall|i: int| 0 <= i < v2.messages.len() ==> #[trigger] v2.messages[i]
        == v.messages[i]);
    assert forall|i: int| 0 <= i < v2.rules.len() implies has_project(
        v2,
        (#[trigger] v2.rules[i]).project_id,
    ) by {
        if i < v.rules.len() {
            assert(v2.rules[i] == v.rules[i]);
        } else {
            assert(v2.rules[i] == row);
        }
    }
}

/// Appending a task row with a fresh id under an existing project keeps
/// the store well-formed.
pub proof fn lemma_insert_task_row_wf(v: StoreV, row: TaskRowV)
    requires
        v.wf(),
        !has_task(v, row.id),
        has_project(v, row.project_id),
    ensures
        (StoreV { tasks: v.tasks.push(row), ..v }).wf(),
{
    let v2 = StoreV { tasks: v.tasks.push(row), ..v };
    assert(forall|k: int| 0 <= k < v.tasks.len() ==> #[trigger] v2.tasks[k] == v.tasks[k]);
    assert(forall|k: int| 0 <= k < v.tasks.len() ==> (#[trigger] v.tasks[k]).id != row.id);
    assert(distinct_keys(v2.tasks, |t: TaskRowV| t.id)) by {
        assert(v2.tasks[v.tasks.len() as int] == row);
    }
    lemma_fk_carries(v, v2);
    lemma_has_project_mono(v, v2, row.project_id);
    assert(forall|i: int| 0 <= i < v2.rules.len() ==> #[trigger] v2.rules[i] == v.rules[i]);
    assert(forall|i: int| 0 <= i < v2.steps.len() ==> #[trigger] v2.steps[i] == v.steps[i]);
    assert(forall|i: int| 0 <= i < v2.threads.len() ==> #[trigger] v2.threads[i] == v.threads[i]);
    assert(forall|i: int| 0 <= i < v2.messages.len() ==> #[trigger] v2.messages[i]
        == v.messages[i]);
    assert forall|i: int| 0 <= i < v2.tasks.len() implies has_project(
        v2,
        (#[trigger] v2.tasks[i]).project_id,
    ) by {
        if i < v.tasks.len() {
            assert(v2.tasks[i] == v.tasks[i]);
        } else {
            assert(v2.tasks[i] == row);
        }
    }
}

/// Appending a step row with a fresh id under an existing task keeps the
/// store well-formed.
pub proof fn lemma_insert_step_row_wf(v: StoreV, row: StepRowV)
    requires
        v.wf(),
        !crate::state::has_step(v, row.id),
        has_task(v, row.task_id),
    ensures
        (StoreV { steps: v.steps.push(row), ..v }).wf(),
{
    let v2 = StoreV { steps: v.steps.push(row), ..v };
    assert(forall|k: int| 0 <= k < v.steps.len() ==> #[trigger] v2.steps[k] == v.steps[k]);
    assert(forall|k: int| 0 <= k < v.steps.len() ==> (#[trigger] v.steps[k]).id != row.id);
    assert(distinct_keys(v2.steps, |x: StepRowV| x.id)) by {
        assert(v2.steps[v.steps.len() as int] == row);
    }
    lemma_fk_carries(v, v2);
    lemma_has_task_mono(v, v2, row.task_id);
    assert(forall|i: int| 0 <= i < v2.rules.len() ==> #[trigger] v2.rules[i] == v.rules[i]);
    assert(forall|i: int| 0 <= i < v2.tasks.len() ==> #[trigger] v2.tasks[i] == v.tasks[i]);
    assert(forall|i: int| 0 <= i < v2.threads.len() ==> #[trigger] v2.threads[i] == v.threads[i]);
    assert(forall|i: int| 0 <= i < v2.messages.len() ==> #[trigger] v2.messages[i]
        == v.messages[i]);
    assert forall|i: int| 0 <= i < v2.steps.len() implies has_task(
        v2,
        (#[trigger] v2.steps[i]).task_id,
    ) by {
        if i < v.steps.len() {
            assert(v2.steps[i] == v.steps[i]);
        } else {
            assert(v2.steps[i] == row);
        }
    }
}

/// Appending a thread row with a fresh id under an existing project
/// keeps the store well-formed.
pub proof fn lemma_insert_thread_row_wf(v: StoreV, row: ChatThreadV)
    requires
        v.wf(),
        !has_thread(v, row.id),
        has_project(v, row.project_id),
    ensures
        (StoreV { threads: v.threads.push(row), ..v }).wf(),
{
    let v2 = StoreV { threads: v.threads.push(row), ..v };
    assert(forall|k: int| 0 <= k < v.threads.len() ==> #[trigger] v2.threads[k] == v.threads[k]);
    assert(forall|k: int| 0 <= k < v.threads.len() ==> (#[trigger] v.threads[k]).id != row.id);
    assert(distinct_keys(v2.threads, |t: ChatThreadV| t.id)) by {
        assert(v2.threads[v.threads.len() as int] == row);
    }
    lemma_fk_carries(v, v2);
    lemma_has_project_mono(v, v2, row.project_id);
    assert(forall|i: int| 0 <= i < v2.rules.len() ==> #[trigger] v2.rules[i] == v.rules[i]);
    assert(forall|i: int| 0 <= i < v2.tasks.len() ==> #[trigger] v2.tasks[i] == v.tasks[i]);
    assert(forall|i: int| 0 <= i < v2.steps.len() ==> #[trigger] v2.steps[i] == v.steps[i]);
    assert(forall|i: int| 0 <= i < v2.messages.len() ==> #[trigger] v2.messages[i]
        == v.messages[i]);
    assert forall|i: int| 0 <= i < v2.threads.len() implies has_project(
        v2,
        (#[trigger] v2.threads[i]).project_id,
    ) by {
        if i < v.threads.len() {
            assert(v2.threads[i] == v.threads[i]);
        } else {
            assert(v2.threads[i] == row);
        }
    }
}

/// Appending a message row with a fresh id under an existing thread
/// keeps the store well-formed.
pub proof fn lemma_insert_message_row_wf(v: StoreV, row: ChatMessageV)
    requires
        v.wf(),
        !crate::state::has_message(v, row.id),
        has_thread(v, row.thread_id),
    ensures
        (StoreV { messages: v.messages.push(row), ..v }).wf(),
{
    let v2 = StoreV { messages: v.messages.push(row), ..v };
    assert(forall|k: int| 0 <= k < v.messages.len() ==> #[trigger] v2.messages[k]
        == v.messages[k]);
    assert(forall|k: int| 0 <= k < v.messages.len() ==> (#[trigger] v.messages[k]).id != row.id);
    assert(distinct_keys(v2.messages, |m: ChatMessageV| m.id)) by {
        assert(v2.messages[v.messages.len() as int] == row);
    }
    lemma_fk_carries(v, v2);
    lemma_has_thread_mono(v, v2, row.thread_id);
    assert(forall|i: int| 0 <= i < v2.rules.len() ==> #[trigger] v2.rules[i] == v.rules[i]);
    assert(forall|i: int| 0 <= i < v2.tasks.len() ==> #[trigger] v2.tasks[i] == v.tasks[i]);
    assert(forall|i: int| 0 <= i < v2.steps.len() ==> #[trigger] v2.steps[i] == v.steps[i]);
    assert(forall|i: int| 0 <= i < v2.threads.len() ==> #[trigger] v2.threads[i] == v.threads[i]);
    assert forall|i: int| 0 <= i < v2.messages.len() implies has_thread(
        v2,
        (#[trigger] v2.messages[i]).thread_id,
    ) by {
        if i < v.messages.len() {
            assert(v2.messages[i] == v.messages[i]);
        } else {
            assert(v2.messages[i] == row);
        }
    }
}

/// The row constraints of a project save hold exactly when the saved
/// store's rule, task and step tables keep their ids pairwise distinct;
/// the referential conjuncts hold by construction.
pub proof fn lemma_save_ok_iff_distinct(v: StoreV, p: ProjectV)
    requires
        v.wf(),
    ensures
        save_ok_spec(v, p) <==> (distinct_keys(
            save_project_spec(v, p).rules,
            |r: RuleRowV| r.rule.id,
        ) && distinct_keys(save_project_spec(v, p).tasks, |t: TaskRowV| t.id) && distinct_keys(
            save_project_spec(v, p).steps,
            |s: StepRowV| s.id,
        )),
{
    let v2 = save_project_spec(v, p);
    let rule_key = |r: RuleRowV| r.rule.id;
    let task_key = |t: TaskRowV| t.id;
    let step_key = |s: StepRowV| s.id;
    let kept_rules = v.rules.filter(other_rule(p.id));
    let new_rules = rule_rows_of(p.id, p.rules);
    let kept_tasks = v.tasks.filter(other_task(p.id));
    let new_tasks = task_rows_of(p.id, p.tasks);
    let kept_steps = v.steps.filter(step_not_owned(v.tasks, p.id));
    let new_steps = tasks_step_rows(p.tasks);
    assert(v2.rules == kept_rules + new_rules);
    assert(v2.tasks == kept_tasks + new_tasks);
    assert(v2.steps == kept_steps + new_steps);
    lemma_filter_distinct(v.rules, other_rule(p.id), rule_key);
    lemma_filter_subset(v.rules, other_rule(p.id));
    lemma_filter_distinct(v.tasks, other_task(p.id), task_key);
    lemma_filter_subset(v.tasks, other_task(p.id));
    lemma_filter_distinct(v.steps, step_not_owned(v.tasks, p.id), step_key);
    lemma_filter_subset(v.steps, step_not_owned(v.tasks, p.id));
    assert(forall|i: int| 0 <= i < new_rules.len() ==> (#[trigger] new_rules[i]).rule
        == p.rules[i]);
    assert(forall|i: int| 0 <= i < new_tasks.len() ==> (#[trigger] new_tasks[i]).id
        == p.tasks[i].id);

    if save_ok_spec(v, p) {
        assert(distinct_keys(new_rules, rule_key));
        assert forall|i: int, j: int|
            0 <= i < kept_rules.len() && 0 <= j < new_rules.len() implies rule_key(
            #[trigger] kept_rules[i],
        ) != rule_key(#[trigger] new_rules[j]) by {
            assert(kept_rules.contains(kept_rules[i]));
            let a = choose|a: int| 0 <= a < v.rules.len() && v.rules[a] == kept_rules[i];
            assert(v.rules[a].project_id != p.id);
            assert(p.rules[j].id != v.rules[a].rule.id);
        }
        lemma_concat_distinct(kept_rules, new_rules, rule_key);
        assert(distinct_keys(new_tasks, task_key));
        assert forall|i: int, j: int|
            0 <= i < kept_tasks.len() && 0 <= j < new_tasks.len() implies task_key(
            #[trigger] kept_tasks[i],
        ) != task_key(#[trigger] new_tasks[j]) by {
            assert(kept_tasks.contains(kept_tasks[i]));
            let a = choose|a: int| 0 <= a < v.tasks.len() && v.tasks[a] == kept_tasks[i];
            assert(v.tasks[a].project_id != p.id);
            assert(p.tasks[j].id != v.tasks[a].id);
        }
        lemma_concat_distinct(kept_tasks, new_tasks, task_key);
        assert forall|i: int, j: int|
            0 <= i < kept_steps.len() && 0 <= j < new_steps.len() implies step_key(
            #[trigger] kept_steps[i],
        ) != step_key(#[trigger] new_steps[j]) by {
            assert(kept_steps.contains(kept_steps[i]));
            let a = choose|a: int| 0 <= a < v.steps.len() && v.steps[a] == kept_steps[i];
            assert(!task_owned_by(v.tasks, v.steps[a].task_id, p.id));
            assert(new_steps[j].id != v.steps[a].id);
        }
        lemma_concat_distinct(kept_steps, new_steps, step_key);
    }

    if distinct_keys(v2.rules, rule_key) && distinct_keys(v2.tasks, task_key) && distinct_keys(
        v2.steps,
        step_key,
    ) {
        assert(distinct_keys(p.rules, |r: AgentRuleV| r.id)) by {
            assert forall|i: int, j: int| 0 <= i < j < p.rules.len() implies (
            #[trigger] p.rules[i]).id != (#[trigger] p.rules[j]).id by {
                assert(v2.rules[kept_rules.len() + i] == new_rules[i]);
                assert(v2.rules[kept_rules.len() + j] == new_rules[j]);
            }
        }
        assert(distinct_keys(p.tasks, |t: TaskV| t.id)) by {
            assert forall|i: int, j: int| 0 <= i < j < p.tasks.len() implies (
            #[trigger] p.tasks[i]).id != (#[trigger] p.tasks[j]).id by {
                assert(v2.tasks[kept_tasks.len() + i] == new_tasks[i]);
                assert(v2.tasks[kept_tasks.len() + j] == new_tasks[j]);
            }
        }
        assert(distinct_keys(tasks_step_rows(p.tasks), step_key)) by {
            assert forall|i: int, j: int| 0 <= i < j < new_steps.len() implies step_key(
                #[trigger] new_steps[i],
            ) != step_key(#[trigger] new_steps[j]) by {
                assert(v2.steps[kept_steps.len() + i] == new_steps[i]);
                assert(v2.steps[kept_steps.len() + j] == new_steps[j]);
            }
        }
        assert forall|i: int, j: int|
            0 <= i < p.rules.len() && 0 <= j < v.rules.len() && (#[trigger] v.rules[j]).project_id
                != p.id implies (#[trigger] p.rules[i]).id != v.rules[j].rule.id by {
            v.rules.lemma_filter_contains(other_rule(p.id), j);
            let m = choose|m: int| 0 <= m < kept_rules.len() && kept_rules[m] == v.rules[j];
            assert(v2.rules[m] == v.rules[j]);
            assert(v2.rules[kept_rules.len() + i] == new_rules[i]);
            assert(rule_key(v2.rules[m]) != rule_key(v2.rules[kept_rules.len() + i]));
        }
        assert forall|i: int, j: int|
            0 <= i < p.tasks.len() && 0 <= j < v.tasks.len() && (#[trigger] v.tasks[j]).project_id
                != p.id implies (#[trigger] p.tasks[i]).id != v.tasks[j].id by {
            v.tasks.lemma_filter_contains(other_task(p.id), j);
            let m = choose|m: int| 0 <= m < kept_tasks.len() && kept_tasks[m] == v.tasks[j];
            assert(v2.tasks[m] == v.tasks[j]);
            assert(v2.tasks[kept_tasks.len() + i] == new_tasks[i]);
            assert(task_key(v2.tasks[m]) != task_key(v2.tasks[kept_tasks.len() + i]));
        }
        assert forall|i: int, j: int|
            0 <= i < tasks_step_rows(p.tasks).len() && 0 <= j < v.steps.len() && !task_owned_by(
                v.tasks,
                (#[trigger] v.steps[j]).task_id,
                p.id,
            ) implies (#[trigger] tasks_step_rows(p.tasks)[i]).id != v.steps[j].id by {
            v.steps.lemma_filter_contains(step_not_owned(v.tasks, p.id), j);
            let m = choose|m: int| 0 <= m < kept_steps.len() && kept_steps[m] == v.steps[j];
            assert(v2.steps[m] == v.steps[j]);
            assert(v2.steps[kept_steps.len() + i] == new_steps[i]);
            assert(step_key(v2.steps[m]) != step_key(v2.steps[kept_steps.len() + i]));
        }
    }
}

/// The migration backfill keeps the store well-formed: it changes only
/// thread timestamps.
pub proof fn lemma_backfill_preserves_wf(v: StoreV, now: i64)
    requires
        v.wf(),
    ensures
        crate::state::backfill_threads_spec(v, now).wf(),
{
    let v2 = crate::state::backfill_threads_spec(v, now);
    assert(v2.threads.len() == v.threads.len());
    assert(forall|k: int| 0 <= k < v.threads.len() ==> (#[trigger] v2.threads[k]).id
        == v.threads[k].id && v2.threads[k].project_id == v.threads[k].project_id);
    assert(distinct_keys(v2.threads, |x: ChatThreadV| x.id));
    assert forall|k: int| 0 <= k < v2.threads.len() implies has_project(
        v2,
        (#[trigger] v2.threads[k]).project_id,
    ) by {
        assert(has_project(v, v.threads[k].project_id));
    }
    assert forall|k: int| 0 <= k < v2.messages.len() implies has_thread(
        v2,
        (#[trigger] v2.messages[k]).thread_id,
    ) by {
        let tid = v.messages[k].thread_id;
        assert(has_thread(v, tid));
        let a = choose|a: int| 0 <= a < v.threads.len() && (#[trigger] v.threads[a]).id == tid;
        assert(v2.threads[a].id == tid);
    }
}

} // verus!
