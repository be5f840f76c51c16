//! The store's laws: what holds of every state and every sequence of
//! operations, proved over the transition and query functions that the
//! operations' own contracts name.

use vstd::prelude::*;

use crate::codec::{bucket_str, lemma_bucket_round_trip, lemma_status_round_trip,
    lemma_step_type_round_trip, status_of, StepBucket};
use crate::model::{TaskStatus, TaskStepV, TaskV};
use crate::filters::{lemma_filter_all, lemma_filter_subset};
use crate::integrity::{lemma_delete_preserves_wf};
use crate::model::{ChatMessageV, ChatThreadV, ProjectV};
use crate::rows::{ProjectRowV, RuleRowV, StepRowV, TaskRowV};
use crate::state::{assemble_project, bucket_of_task, bucket_rows, bucket_source,
    delete_project_spec, fits_order, has_message, has_project, has_rule, has_step, has_task,
    has_thread, list_threads_spec, load_project_spec, message_not_owned, normalized_project,
    normalized_task, other_project, other_rule, other_task, other_thread, project_at,
    project_row_of, rule_of_project, rule_rows_of, rules_of, save_message_spec, save_ok_spec,
    save_project_spec, step_in_bucket, step_not_owned, step_of_row, step_row_of, task_of_project,
    task_of_row, task_owned_by, task_rows_of, task_step_rows, tasks_of, tasks_step_rows, thread_at,
    first_by_path, load_or_create_spec, load_project_by_path_spec, new_project_spec,
    recent_project_rows, rows_have_id, thread_has_message, thread_owned_by, upsert_project_row,
    visible_thread, StoreV};
use crate::sorting::{lemma_sort_contains, lemma_sort_len, lemma_sort_of_sorted, sort_by_key,
    sorted_by_key};
use crate::model::ChatThread;
use crate::filters::{distinct_keys, lemma_filter_none};
use crate::rows::StepRow;
use crate::integrity::{lemma_save_message_preserves_wf, lemma_save_preserves_wf,
    lemma_tasks_step_rows_parents, lemma_upsert_project_ids};

verus! {

/// Deleting a project id that the store does not hold changes nothing.
pub proof fn lemma_delete_absent_is_noop(v: StoreV, pid: Seq<char>)
    requires
        v.wf(),
        !has_project(v, pid),
    ensures
        delete_project_spec(v, pid) == v,
{
    let v2 = delete_project_spec(v, pid);
    assert(forall|i: int| 0 <= i < v.projects.len() ==> (#[trigger] v.projects[i]).id != pid);
    lemma_filter_all(v.projects, other_project(pid));
    assert forall|i: int| 0 <= i < v.rules.len() implies other_rule(pid)(
        #[trigger] v.rules[i],
    ) by {
        if v.rules[i].project_id == pid {
            assert(has_project(v, pid));
        }
    }
    lemma_filter_all(v.rules, other_rule(pid));
    assert forall|i: int| 0 <= i < v.tasks.len() implies other_task(pid)(
        #[trigger] v.tasks[i],
    ) by {
        if v.tasks[i].project_id == pid {
            assert(has_project(v, pid));
        }
    }
    lemma_filter_all(v.tasks, other_task(pid));
    assert forall|i: int| 0 <= i < v.steps.len() implies step_not_owned(v.tasks, pid)(
        #[trigger] v.steps[i],
    ) by {
        if task_owned_by(v.tasks, v.steps[i].task_id, pid) {
            let k = choose|k: int|
                0 <= k < v.tasks.len() && (#[trigger] v.tasks[k]).id == v.steps[i].task_id
                    && v.tasks[k].project_id == pid;
            assert(has_project(v, pid));
        }
    }
    lemma_filter_all(v.steps, step_not_owned(v.tasks, pid));
    assert forall|i: int| 0 <= i < v.threads.len() implies other_thread(pid)(
        #[trigger] v.threads[i],
    ) by {
        if v.threads[i].project_id == pid {
            assert(has_project(v, pid));
        }
    }
    lemma_filter_all(v.threads, other_thread(pid));
    assert forall|i: int| 0 <= i < v.messages.len() implies message_not_owned(v.threads, pid)(
        #[trigger] v.messages[i],
    ) by {
        if thread_owned_by(v.threads, v.messages[i].thread_id, pid) {
            let k = choose|k: int|
                0 <= k < v.threads.len() && (#[trigger] v.threads[k]).id
                    == v.messages[i].thread_id && v.threads[k].project_id == pid;
            assert(has_project(v, pid));
        }
    }
    lemma_filter_all(v.messages, message_not_owned(v.threads, pid));
    assert(v2 =~= v);
}

/// After a deletion the deleted id is gone, so deleting twice is the
/// same as deleting once.
pub proof fn lemma_delete_idempotent(v: StoreV, pid: Seq<char>)
    requires
        v.wf(),
    ensures
        delete_project_spec(delete_project_spec(v, pid), pid) == delete_project_spec(v, pid),
{
    let v2 = delete_project_spec(v, pid);
    lemma_delete_preserves_wf(v, pid);
    lemma_filter_subset(v.projects, other_project(pid));
    assert(!has_project(v2, pid)) by {
        if has_project(v2, pid) {
            let k = choose|k: int|
                0 <= k < v2.projects.len() && (#[trigger] v2.projects[k]).id == pid;
            assert(v2.projects.contains(v2.projects[k]));
        }
    }
    lemma_delete_absent_is_noop(v2, pid);
}

/// After a project is deleted, none of the rules, tasks, steps, threads
/// or messages it transitively owned can be retrieved by its former id.
pub proof fn lemma_delete_cascades(v: StoreV, pid: Seq<char>)
    requires
        v.wf(),
    ensures
        !has_project(delete_project_spec(v, pid), pid),
        forall|i: int|
            0 <= i < v.rules.len() && (#[trigger] v.rules[i]).project_id == pid ==> !has_rule(
                delete_project_spec(v, pid),
                v.rules[i].rule.id,
            ),
        forall|i: int|
            0 <= i < v.tasks.len() && (#[trigger] v.tasks[i]).project_id == pid ==> !has_task(
                delete_project_spec(v, pid),
                v.tasks[i].id,
            ),
        forall|i: int|
            0 <= i < v.steps.len() && task_owned_by(v.tasks, (#[trigger] v.steps[i]).task_id, pid)
                ==> !has_step(delete_project_spec(v, pid), v.steps[i].id),
        forall|i: int|
            0 <= i < v.threads.len() && (#[trigger] v.threads[i]).project_id == pid
                ==> !has_thread(delete_project_spec(v, pid), v.threads[i].id),
        forall|i: int|
            0 <= i < v.messages.len() && thread_owned_by(
                v.threads,
                (#[trigger] v.messages[i]).thread_id,
                pid,
            ) ==> !has_message(delete_project_spec(v, pid), v.messages[i].id),
{
    let v2 = delete_project_spec(v, pid);
    lemma_filter_subset(v.projects, other_project(pid));
    lemma_filter_subset(v.rules, other_rule(pid));
    lemma_filter_subset(v.tasks, other_task(pid));
    lemma_filter_subset(v.steps, step_not_owned(v.tasks, pid));
    lemma_filter_subset(v.threads, other_thread(pid));
    lemma_filter_subset(v.messages, message_not_owned(v.threads, pid));
    assert(!has_project(v2, pid)) by {
        if has_project(v2, pid) {
            let k = choose|k: int|
                0 <= k < v2.projects.len() && (#[trigger] v2.projects[k]).id == pid;
            assert(v2.projects.contains(v2.projects[k]));
        }
    }
    assert forall|i: int|
        0 <= i < v.rules.len() && (#[trigger] v.rules[i]).project_id == pid implies !has_rule(
        v2,
        v.rules[i].rule.id,
    ) by {
        if has_rule(v2, v.rules[i].rule.id) {
            let k = choose|k: int|
                0 <= k < v2.rules.len() && (#[trigger] v2.rules[k]).rule.id == v.rules[i].rule.id;
            assert(v2.rules.contains(v2.rules[k]));
            let a = choose|a: int| 0 <= a < v.rules.len() && v.rules[a] == v2.rules[k];
            assert(a == i) by {
                if a != i {
                    assert(v.rules[a].rule.id != v.rules[i].rule.id);
                }
            }
        }
    }
    assert forall|i: int|
        0 <= i < v.tasks.len() && (#[trigger] v.tasks[i]).project_id == pid implies !has_task(
        v2,
        v.tasks[i].id,
    ) by {
        if has_task(v2, v.tasks[i].id) {
            let k = choose|k: int|
                0 <= k < v2.tasks.len() && (#[trigger] v2.tasks[k]).id == v.tasks[i].id;
            assert(v2.tasks.contains(v2.tasks[k]));
            let a = choose|a: int| 0 <= a < v.tasks.len() && v.tasks[a] == v2.tasks[k];
            assert(a == i) by {
                if a != i {
                    assert(v.tasks[a].id != v.tasks[i].id);
                }
            }
        }
    }
    assert forall|i: int|
        0 <= i < v.steps.len() && task_owned_by(
            v.tasks,
            (#[trigger] v.steps[i]).task_id,
            pid,
        ) implies !has_step(v2, v.steps[i].id) by {
        if has_step(v2, v.steps[i].id) {
            let k = choose|k: int|
                0 <= k < v2.steps.len() && (#[trigger] v2.steps[k]).id == v.steps[i].id;
            assert(v2.steps.contains(v2.steps[k]));
            let a = choose|a: int| 0 <= a < v.steps.len() && v.steps[a] == v2.steps[k];
            assert(a == i) by {
                if a != i {
                    assert(v.steps[a].id != v.steps[i].id);
                }
            }
        }
    }
    assert forall|i: int|
        0 <= i < v.threads.len() && (#[trigger] v.threads[i]).project_id == pid implies !has_thread(
        v2,
        v.threads[i].id,
    ) by {
        if has_thread(v2, v.threads[i].id) {
            let k = choose|k: int|
                0 <= k < v2.threads.len() && (#[trigger] v2.threads[k]).id == v.threads[i].id;
            assert(v2.threads.contains(v2.threads[k]));
            let a = choose|a: int| 0 <= a < v.threads.len() && v.threads[a] == v2.threads[k];
            assert(a == i) by {
                if a != i {
                    assert(v.threads[a].id != v.threads[i].id);
                }
            }
        }
    }
    assert forall|i: int|
        0 <= i < v.messages.len() && thread_owned_by(
            v.threads,
            (#[trigger] v.messages[i]).thread_id,
            pid,
        ) implies !has_message(v2, v.messages[i].id) by {
        if has_message(v2, v.messages[i].id) {
            let k = choose|k: int|
                0 <= k < v2.messages.len() && (#[trigger] v2.messages[k]).id == v.messages[i].id;
            assert(v2.messages.contains(v2.messages[k]));
            let a = choose|a: int| 0 <= a < v.messages.len() && v.messages[a] == v2.messages[k];
            assert(a == i) by {
                if a != i {
                    assert(v.messages[a].id != v.messages[i].id);
                }
            }
        }
    }
}

/// A stored status string that is none of the three recognized
/// spellings decodes to the default status rather than failing the
/// read.
pub proof fn lemma_lenient_status_default(s: Seq<char>)
    requires
        s != "in_progress"@,
        s != "completed"@,
        s != "failed"@,
    ensures
        status_of(s) == TaskStatus::Pending,
{
}

/// A thread with no saved message never appears in the thread listing,
/// whatever the project and the count.
pub proof fn lemma_messageless_thread_invisible(
    v: StoreV,
    tid: Seq<char>,
    pid: Seq<char>,
    count: int,
)
    requires
        0 <= count,
        !thread_has_message(v.messages, tid),
    ensures
        forall|i: int|
            0 <= i < list_threads_spec(v, pid, count).len() ==> (#[trigger] list_threads_spec(
                v,
                pid,
                count,
            )[i]).id != tid,
{
    let filtered = visible_thread(v.messages, pid);
    let rows = sort_by_key::<ChatThread>(v.threads.filter(filtered));
    lemma_filter_subset(v.threads, filtered);
    let n = if count < rows.len() {
        count
    } else {
        rows.len() as int
    };
    assert(0 <= n <= rows.len());
    assert forall|i: int| 0 <= i < list_threads_spec(v, pid, count).len() implies (
    #[trigger] list_threads_spec(v, pid, count)[i]).id != tid by {
        let row = list_threads_spec(v, pid, count)[i];
        assert(row == rows.take(n)[i]);
        assert(rows.take(n)[i] == rows[i]);
        assert(rows.contains(row)) by {
            assert(rows[i] == row);
        }
        lemma_sort_contains::<ChatThread>(v.threads.filter(filtered), row);
        assert(v.threads.filter(filtered).contains(row));
        assert(thread_has_message(v.messages, row.id));
    }
}

/// After its first message is saved, a thread appears in its project's
/// listing whenever the count covers the thread table.
pub proof fn lemma_thread_listed_after_message(
    v: StoreV,
    m: ChatMessageV,
    pid: Seq<char>,
    count: int,
)
    requires
        v.wf(),
        thread_owned_by(v.threads, m.thread_id, pid),
        count >= v.threads.len(),
    ensures
        exists|i: int|
            0 <= i < list_threads_spec(save_message_spec(v, m), pid, count).len() && (
            #[trigger] list_threads_spec(save_message_spec(v, m), pid, count)[i]).id == m.thread_id,
{
    let v2 = save_message_spec(v, m);
    let k = choose|k: int|
        0 <= k < v.threads.len() && (#[trigger] v.threads[k]).id == m.thread_id
            && v.threads[k].project_id == pid;
    assert(v2.threads.len() == v.threads.len());
    assert(v2.threads[k].id == m.thread_id && v2.threads[k].project_id == pid);
    assert(thread_has_message(v2.messages, m.thread_id)) by {
        if crate::state::has_message(v, m.id) {
            let a = crate::state::message_at(v, m.id);
            assert(v2.messages[a].thread_id == m.thread_id);
        } else {
            assert(v2.messages[v.messages.len() as int].thread_id == m.thread_id);
        }
    }
    let pred = visible_thread(v2.messages, pid);
    assert(pred(v2.threads[k]));
    v2.threads.lemma_filter_contains(pred, k);
    let filtered = v2.threads.filter(pred);
    let rows = sort_by_key::<ChatThread>(filtered);
    let row = v2.threads[k];
    lemma_sort_contains::<ChatThread>(filtered, row);
    let j = choose|j: int| 0 <= j < rows.len() && rows[j] == row;
    lemma_sort_len::<ChatThread>(filtered);
    v2.threads.lemma_filter_len(pred);
    assert(rows.len() <= v2.threads.len());
    assert(list_threads_spec(v2, pid, count) == rows.take(rows.len() as int));
    assert(rows.take(rows.len() as int) =~= rows);
    assert(list_threads_spec(v2, pid, count)[j].id == m.thread_id);
}

/// The recency stamp of the thread with this id.
pub open spec fn thread_updated_at(v: StoreV, tid: Seq<char>) -> i64 {
    v.threads[thread_at(v, tid)].updated_at
}

/// Saving a message advances the owning thread's recency stamp to the
/// message's timestamp exactly when that is later, and never moves it
/// back.
pub proof fn lemma_thread_timestamp_monotonic(v: StoreV, m: ChatMessageV)
    requires
        v.wf(),
        has_thread(v, m.thread_id),
    ensures
        thread_updated_at(save_message_spec(v, m), m.thread_id) == (if thread_updated_at(
            v,
            m.thread_id,
        ) > m.created_at {
            thread_updated_at(v, m.thread_id)
        } else {
            m.created_at
        }),
        thread_updated_at(save_message_spec(v, m), m.thread_id) >= thread_updated_at(
            v,
            m.thread_id,
        ),
{
    let v2 = save_message_spec(v, m);
    let j = thread_at(v, m.thread_id);
    assert(0 <= j < v.threads.len() && v.threads[j].id == m.thread_id);
    assert(v2.threads.len() == v.threads.len());
    assert(forall|k: int| 0 <= k < v.threads.len() ==> (#[trigger] v2.threads[k]).id
        == v.threads[k].id);
    assert(v2.threads[j].id == m.thread_id);
    let j2 = thread_at(v2, m.thread_id);
    assert(0 <= j2 < v2.threads.len() && v2.threads[j2].id == m.thread_id);
    assert(j2 == j) by {
        if j2 != j {
            assert(v.threads[j2].id == m.thread_id);
            assert(v.threads[j2].id != v.threads[j].id);
        }
    }
}

/// A message backfilled with an older timestamp leaves the thread's
/// recency stamp where the newer message put it.
pub proof fn lemma_backfill_keeps_recency(v: StoreV, m1: ChatMessageV, m2: ChatMessageV)
    requires
        v.wf(),
        has_thread(v, m1.thread_id),
        m2.thread_id == m1.thread_id,
        m2.created_at <= m1.created_at,
    ensures
        thread_updated_at(save_message_spec(save_message_spec(v, m1), m2), m1.thread_id)
            == thread_updated_at(save_message_spec(v, m1), m1.thread_id),
{
    let v1 = save_message_spec(v, m1);
    lemma_save_message_preserves_wf(v, m1);
    let j = thread_at(v, m1.thread_id);
    assert(0 <= j < v.threads.len() && v.threads[j].id == m1.thread_id);
    assert(v1.threads[j].id == m1.thread_id);
    assert(has_thread(v1, m1.thread_id));
    lemma_thread_timestamp_monotonic(v, m1);
    lemma_thread_timestamp_monotonic(v1, m2);
    assert(thread_updated_at(v1, m1.thread_id) >= m1.created_at) by {
        let a = thread_at(v1, m1.thread_id);
    }
}

/// Filtering all step rows of a task sequence down to one task's one
/// sequence yields exactly the rows that sequence was stored as.
proof fn lemma_filter_steps_of_task(ts: Seq<TaskV>, i: int, b: StepBucket)
    requires
        0 <= i < ts.len(),
        distinct_keys(ts, |t: TaskV| t.id),
    ensures
        tasks_step_rows(ts).filter(step_in_bucket(ts[i].id, b)) == bucket_rows(
            ts[i].id,
            b,
            bucket_source(ts[i], b),
        ),
    decreases ts.len(),
{
    let tid = ts[i].id;
    let pred = step_in_bucket(tid, b);
    let head = tasks_step_rows(ts.drop_last());
    let t = ts.last();
    let tail = task_step_rows(t);
    assert(tasks_step_rows(ts) == head + tail);
    Seq::filter_distributes_over_add(head, tail, pred);
    if i == ts.len() - 1 {
        lemma_tasks_step_rows_parents(ts.drop_last());
        assert forall|k: int| 0 <= k < head.len() implies !pred(#[trigger] head[k]) by {
            let a = choose|a: int|
                0 <= a < ts.drop_last().len() && (#[trigger] head[k]).task_id == (
                #[trigger] ts.drop_last()[a]).id;
            assert(ts[a] == ts.drop_last()[a]);
            assert(ts[a].id != ts[i].id);
        }
        lemma_filter_none(head, pred);
        let bp = bucket_rows(t.id, StepBucket::Pre, t.presteps);
        let bm = bucket_rows(t.id, StepBucket::Main, t.steps);
        let bo = bucket_rows(t.id, StepBucket::Post, t.poststeps);
        assert(tail == bp + bm + bo);
        Seq::filter_distributes_over_add(bp + bm, bo, pred);
        Seq::filter_distributes_over_add(bp, bm, pred);
        lemma_bucket_round_trip(StepBucket::Pre);
        lemma_bucket_round_trip(StepBucket::Main);
        lemma_bucket_round_trip(StepBucket::Post);
        if b == StepBucket::Pre {
            assert(forall|k: int| 0 <= k < bp.len() ==> pred(#[trigger] bp[k]));
            crate::filters::lemma_filter_all(bp, pred);
            assert(forall|k: int| 0 <= k < bm.len() ==> !pred(#[trigger] bm[k]));
            lemma_filter_none(bm, pred);
            assert(forall|k: int| 0 <= k < bo.len() ==> !pred(#[trigger] bo[k]));
            lemma_filter_none(bo, pred);
            assert(tasks_step_rows(ts).filter(pred) =~= bucket_rows(tid, b, bucket_source(t, b)));
        } else if b == StepBucket::Main {
            assert(forall|k: int| 0 <= k < bm.len() ==> pred(#[trigger] bm[k]));
            crate::filters::lemma_filter_all(bm, pred);
            assert(forall|k: int| 0 <= k < bp.len() ==> !pred(#[trigger] bp[k]));
            lemma_filter_none(bp, pred);
            assert(forall|k: int| 0 <= k < bo.len() ==> !pred(#[trigger] bo[k]));
            lemma_filter_none(bo, pred);
            assert(tasks_step_rows(ts).filter(pred) =~= bucket_rows(tid, b, bucket_source(t, b)));
        } else {
            assert(forall|k: int| 0 <= k < bo.len() ==> pred(#[trigger] bo[k]));
            crate::filters::lemma_filter_all(bo, pred);
            assert(forall|k: int| 0 <= k < bp.len() ==> !pred(#[trigger] bp[k]));
            lemma_filter_none(bp, pred);
            assert(forall|k: int| 0 <= k < bm.len() ==> !pred(#[trigger] bm[k]));
            lemma_filter_none(bm, pred);
            assert(tasks_step_rows(ts).filter(pred) =~= bucket_rows(tid, b, bucket_source(t, b)));
        }
        assert(ts[i] == t);
    } else {
        assert(distinct_keys(ts.drop_last(), |x: TaskV| x.id)) by {
            assert(forall|k: int|
                0 <= k < ts.drop_last().len() ==> ts.drop_last()[k] == #[trigger] ts[k]);
        }
        assert(ts.drop_last()[i] == ts[i]);
        lemma_filter_steps_of_task(ts.drop_last(), i, b);
        assert forall|k: int| 0 <= k < tail.len() implies !pred(#[trigger] tail[k]) by {
            assert(tail[k].task_id == t.id);
            assert(ts[ts.len() - 1] == t);
            assert(t.id != ts[i].id);
        }
        lemma_filter_none(tail, pred);
        assert(tasks_step_rows(ts).filter(pred) =~= bucket_rows(tid, b, bucket_source(ts[i], b)));
    }
}

/// The rows one step sequence was stored as reload, after the position
/// sort and the lenient decode, to exactly that sequence.
proof fn lemma_bucket_rows_reload(tid: Seq<char>, b: StepBucket, steps: Seq<TaskStepV>)
    requires
        steps.len() <= i64::MAX,
    ensures
        sort_by_key::<StepRow>(bucket_rows(tid, b, steps)).map_values(
            |s: crate::rows::StepRowV| step_of_row(s),
        ) == steps,
{
    let rows = bucket_rows(tid, b, steps);
    assert(sorted_by_key::<StepRow>(rows)) by {
        assert forall|x: int, y: int|
            0 <= x < y < rows.len() implies <StepRow as crate::sorting::SortKey>::key(
            #[trigger] rows[x],
        ) <= <StepRow as crate::sorting::SortKey>::key(#[trigger] rows[y]) by {
            assert(rows[x].sort_order == x as i64);
            assert(rows[y].sort_order == y as i64);
            crate::sorting::lemma_step_key_orders_pairs(rows[x], rows[y]);
        }
    }
    lemma_sort_of_sorted::<StepRow>(rows);
    assert forall|k: int| 0 <= k < rows.len() implies step_of_row(#[trigger] rows[k])
        == steps[k] by {
        lemma_status_round_trip(steps[k].status);
        lemma_step_type_round_trip(steps[k].step_type);
        assert(step_of_row(rows[k]) =~= steps[k]);
    }
    assert(sort_by_key::<StepRow>(rows).map_values(|s: crate::rows::StepRowV| step_of_row(s))
        =~= steps);
}

/// Round trip: saving a project and loading it back by id returns the
/// saved value exactly, except that each task carries the owning
/// project's id; in particular each task's three step sequences come
/// back in exactly the order they were saved in.
pub proof fn lemma_save_then_load(v: StoreV, p: ProjectV)
    requires
        v.wf(),
        save_ok_spec(v, p),
        fits_order(p),
    ensures
        load_project_spec(save_project_spec(v, p), p.id) == Some(normalized_project(p)),
{
    let v2 = save_project_spec(v, p);
    lemma_save_preserves_wf(v, p);
    let prow = project_row_of(p);
    lemma_upsert_project_ids(v.projects, prow);
    assert(has_project(v2, p.id)) by {
        assert(crate::state::rows_have_id(v2.projects, p.id));
    }
    let j = project_at(v2, p.id);
    assert(0 <= j < v2.projects.len() && v2.projects[j].id == p.id);
    assert(v2.projects[j] == prow) by {
        if crate::state::rows_have_id(v.projects, prow.id) {
            let k = choose|k: int|
                0 <= k < v.projects.len() && (#[trigger] v.projects[k]).id == prow.id;
            assert(v2.projects == v.projects.update(k, prow));
            assert(v2.projects[k] == prow);
            if j != k {
                assert(v2.projects[j].id != v2.projects[k].id);
            }
        } else {
            assert(v2.projects == v.projects.push(prow));
            assert(v2.projects[v.projects.len() as int] == prow);
            if j != v.projects.len() {
                assert(v2.projects[j].id != v2.projects[v.projects.len() as int].id);
            }
        }
    }

    let kept_rules = v.rules.filter(other_rule(p.id));
    let new_rules = rule_rows_of(p.id, p.rules);
    assert(v2.rules == kept_rules + new_rules);
    Seq::filter_distributes_over_add(kept_rules, new_rules, rule_of_project(p.id));
    lemma_filter_subset(v.rules, other_rule(p.id));
    assert forall|k: int| 0 <= k < kept_rules.len() implies !rule_of_project(p.id)(
        #[trigger] kept_rules[k],
    ) by {
        assert(kept_rules.contains(kept_rules[k]));
    }
    lemma_filter_none(kept_rules, rule_of_project(p.id));
    assert(forall|k: int| 0 <= k < new_rules.len() ==> rule_of_project(p.id)(
        #[trigger] new_rules[k],
    ));
    crate::filters::lemma_filter_all(new_rules, rule_of_project(p.id));
    assert(rules_of(v2, p.id) =~= p.rules) by {
        assert(v2.rules.filter(rule_of_project(p.id)) =~= new_rules);
    }

    let kept_tasks = v.tasks.filter(other_task(p.id));
    let new_tasks = task_rows_of(p.id, p.tasks);
    assert(v2.tasks == kept_tasks + new_tasks);
    Seq::filter_distributes_over_add(kept_tasks, new_tasks, task_of_project(p.id));
    lemma_filter_subset(v.tasks, other_task(p.id));
    assert forall|k: int| 0 <= k < kept_tasks.len() implies !task_of_project(p.id)(
        #[trigger] kept_tasks[k],
    ) by {
        assert(kept_tasks.contains(kept_tasks[k]));
    }
    lemma_filter_none(kept_tasks, task_of_project(p.id));
    assert(forall|k: int| 0 <= k < new_tasks.len() ==> task_of_project(p.id)(
        #[trigger] new_tasks[k],
    ));
    crate::filters::lemma_filter_all(new_tasks, task_of_project(p.id));
    assert(v2.tasks.filter(task_of_project(p.id)) =~= new_tasks);

    let kept_steps = v.steps.filter(step_not_owned(v.tasks, p.id));
    let new_steps = tasks_step_rows(p.tasks);
    assert(v2.steps == kept_steps + new_steps);
    lemma_filter_subset(v.steps, step_not_owned(v.tasks, p.id));

    assert forall|i: int| 0 <= i < new_tasks.len() implies task_of_row(v2, #[trigger] new_tasks[i])
        == normalized_task(p.id, p.tasks[i]) by {
        let t = p.tasks[i];
        let trow = new_tasks[i];
        assert(trow == crate::state::task_row_of(p.id, t));
        lemma_status_round_trip(t.status);
        assert forall|b: StepBucket| true implies #[trigger] bucket_of_task(v2, t.id, b)
            == bucket_source(t, b) by {
            let pred = step_in_bucket(t.id, b);
            Seq::filter_distributes_over_add(kept_steps, new_steps, pred);
            assert forall|k: int| 0 <= k < kept_steps.len() implies !pred(
                #[trigger] kept_steps[k],
            ) by {
                assert(kept_steps.contains(kept_steps[k]));
                let a = choose|a: int| 0 <= a < v.steps.len() && v.steps[a] == kept_steps[k];
                assert(!task_owned_by(v.tasks, v.steps[a].task_id, p.id));
                assert(has_task(v, v.steps[a].task_id));
                let c = choose|c: int|
                    0 <= c < v.tasks.len() && (#[trigger] v.tasks[c]).id == v.steps[a].task_id;
                assert(v.tasks[c].project_id != p.id);
                assert(p.tasks[i].id != v.tasks[c].id);
            }
            lemma_filter_none(kept_steps, pred);
            lemma_filter_steps_of_task(p.tasks, i, b);
            assert(v2.steps.filter(pred) =~= bucket_rows(t.id, b, bucket_source(t, b)));
            assert(bucket_source(t, b).len() <= i64::MAX);
            lemma_bucket_rows_reload(t.id, b, bucket_source(t, b));
        }
        assert(bucket_of_task(v2, t.id, StepBucket::Pre) == t.presteps);
        assert(bucket_of_task(v2, t.id, StepBucket::Main) == t.steps);
        assert(bucket_of_task(v2, t.id, StepBucket::Post) == t.poststeps);
        assert(task_of_row(v2, trow) =~= normalized_task(p.id, t));
    }
    assert(tasks_of(v2, p.id) =~= p.tasks.map_values(|t: TaskV| normalized_task(p.id, t)));

    assert(assemble_project(v2, v2.projects[j]) =~= normalized_project(p));
    assert(load_project_spec(v2, p.id) == Some(normalized_project(p)));
}

/// Whole-subtree replacement: reloading a saved project returns exactly
/// as many tasks as the save carried, however many the project had
/// before.
pub proof fn lemma_subtree_replace_count(v: StoreV, p: ProjectV)
    requires
        v.wf(),
        save_ok_spec(v, p),
        fits_order(p),
    ensures
        load_project_spec(save_project_spec(v, p), p.id) is Some,
        load_project_spec(save_project_spec(v, p), p.id).unwrap().tasks.len() == p.tasks.len(),
{
    lemma_save_then_load(v, p);
}

/// Whole-subtree replacement: a task the save did not carry is gone
/// after the save, even though the project owned it before.
pub proof fn lemma_subtree_replace_drops(v: StoreV, p: ProjectV, tid: Seq<char>)
    requires
        v.wf(),
        save_ok_spec(v, p),
        task_owned_by(v.tasks, tid, p.id),
        forall|k: int| 0 <= k < p.tasks.len() ==> (#[trigger] p.tasks[k]).id != tid,
    ensures
        !has_task(save_project_spec(v, p), tid),
{
    let v2 = save_project_spec(v, p);
    let kept_tasks = v.tasks.filter(other_task(p.id));
    let new_tasks = task_rows_of(p.id, p.tasks);
    assert(v2.tasks == kept_tasks + new_tasks);
    lemma_filter_subset(v.tasks, other_task(p.id));
    let o = choose|o: int|
        0 <= o < v.tasks.len() && (#[trigger] v.tasks[o]).id == tid && v.tasks[o].project_id
            == p.id;
    if has_task(v2, tid) {
        let k = choose|k: int| 0 <= k < v2.tasks.len() && (#[trigger] v2.tasks[k]).id == tid;
        if k < kept_tasks.len() {
            assert(v2.tasks[k] == kept_tasks[k]);
            assert(kept_tasks.contains(kept_tasks[k]));
            let a = choose|a: int| 0 <= a < v.tasks.len() && v.tasks[a] == kept_tasks[k];
            assert(v.tasks[a].project_id != p.id);
            assert(a == o) by {
                if a != o {
                    assert(v.tasks[a].id != v.tasks[o].id);
                }
            }
        } else {
            assert(v2.tasks[k] == new_tasks[k - kept_tasks.len()]);
            assert(new_tasks[k - kept_tasks.len()].id == p.tasks[k - kept_tasks.len()].id);
        }
    }
}

/// The path scan returns nothing exactly when no row carries the path.
proof fn lemma_first_by_path_none(s: Seq<ProjectRowV>, path: Seq<char>)
    ensures
        (first_by_path(s, path) is None) <==> (forall|i: int|
            0 <= i < s.len() ==> (#[trigger] s[i]).path != path),
    decreases s.len(),
{
    if s.len() > 0 && s[0].path != path {
        lemma_first_by_path_none(s.skip(1), path);
        assert(forall|i: int| 0 <= i < s.skip(1).len() ==> s.skip(1)[i] == #[trigger] s[i + 1]);
        if first_by_path(s, path) is None {
            assert forall|i: int| 0 <= i < s.len() implies (#[trigger] s[i]).path != path by {
                if i > 0 {
                    assert(s.skip(1)[i - 1] == s[i]);
                }
            }
        }
    }
}

/// What the path scan returns is a row of the table whose path matches.
proof fn lemma_first_by_path_some(s: Seq<ProjectRowV>, path: Seq<char>)
    requires
        first_by_path(s, path) is Some,
    ensures
        s.contains(first_by_path(s, path).unwrap()),
        first_by_path(s, path).unwrap().path == path,
    decreases s.len(),
{
    if s.len() > 0 {
        if s[0].path == path {
            assert(s[0] == first_by_path(s, path).unwrap());
        } else {
            lemma_first_by_path_some(s.skip(1), path);
            let q = first_by_path(s, path).unwrap();
            let i = choose|i: int| 0 <= i < s.skip(1).len() && s.skip(1)[i] == q;
            assert(s[i + 1] == q);
        }
    }
}

/// Path-based get-or-create is stable: a second call with the same path
/// returns a project with the same id and leaves the store unchanged,
/// whatever instants the two calls read from the clock.
pub proof fn lemma_get_or_create_stable(v: StoreV, path: Seq<char>, now1: i64, now2: i64)
    requires
        v.wf(),
        0 <= now1,
        0 <= now2,
    ensures
        load_or_create_spec(load_or_create_spec(v, path, now1).0, path, now2).0
            == load_or_create_spec(v, path, now1).0,
        load_or_create_spec(load_or_create_spec(v, path, now1).0, path, now2).1.id
            == load_or_create_spec(v, path, now1).1.id,
{
    let v1 = load_or_create_spec(v, path, now1).0;
    let p1 = load_or_create_spec(v, path, now1).1;
    if load_project_by_path_spec(v, path) is Some {
    } else {
        assert(p1 == new_project_spec(path, now1) && v1 == save_project_spec(v, p1));
        assert(save_ok_spec(v, p1)) by {
            assert(tasks_step_rows(p1.tasks) =~= Seq::<crate::rows::StepRowV>::empty());
        }
        lemma_save_preserves_wf(v, p1);
        let prow = project_row_of(p1);
        assert(prow.path == path);

        // In the miss case no stored row carries the path.
        let sorted0 = recent_project_rows(v);
        assert(first_by_path(sorted0, path) is None);
        lemma_first_by_path_none(sorted0, path);
        assert forall|i: int| 0 <= i < v.projects.len() implies (
        #[trigger] v.projects[i]).path != path by {
            lemma_sort_contains::<crate::rows::ProjectRow>(v.projects, v.projects[i]);
            assert(v.projects.contains(v.projects[i]));
            let jj = choose|jj: int| 0 <= jj < sorted0.len() && sorted0[jj] == v.projects[i];
        }

        // The saved table holds the new row, and it alone carries the path.
        let up = v1.projects;
        assert(up == upsert_project_row(v.projects, prow));
        let sorted1 = recent_project_rows(v1);
        if rows_have_id(v.projects, prow.id) {
            let k = choose|k: int|
                0 <= k < v.projects.len() && (#[trigger] v.projects[k]).id == prow.id;
            assert(up == v.projects.update(k, prow));
            assert(up[k] == prow);
            assert(up.contains(prow));
            assert forall|m: int| 0 <= m < up.len() && (#[trigger] up[m]).path == path implies up[m]
                == prow by {
                if m != k {
                    assert(up[m] == v.projects[m]);
                }
            }
        } else {
            assert(up == v.projects.push(prow));
            assert(up[v.projects.len() as int] == prow);
            assert(up.contains(prow));
            assert forall|m: int| 0 <= m < up.len() && (#[trigger] up[m]).path == path implies up[m]
                == prow by {
                if m < v.projects.len() {
                    assert(up[m] == v.projects[m]);
                }
            }
        }
        lemma_sort_contains::<crate::rows::ProjectRow>(up, prow);
        assert(sorted1.contains(prow));
        lemma_first_by_path_none(sorted1, path);
        assert(!(first_by_path(sorted1, path) is None)) by {
            let w = choose|w: int| 0 <= w < sorted1.len() && sorted1[w] == prow;
            assert(sorted1[w].path == path);
        }
        lemma_first_by_path_some(sorted1, path);
        let q = first_by_path(sorted1, path).unwrap();
        lemma_sort_contains::<crate::rows::ProjectRow>(up, q);
        assert(up.contains(q));
        let m = choose|m: int| 0 <= m < up.len() && up[m] == q;
        assert(q == prow);
        assert(load_project_by_path_spec(v1, path) == Some(
            crate::state::assemble_project(v1, prow),
        ));
        assert(load_or_create_spec(v1, path, now2).0 == v1);
        assert(load_or_create_spec(v1, path, now2).1.id == p1.id);
    }
}

/// The migration backfill is idempotent: once run at a non-zero
/// instant, running it again, at any instant, changes nothing.
pub proof fn lemma_backfill_idempotent(v: StoreV, now1: i64, now2: i64)
    requires
        0 < now1,
    ensures
        crate::state::backfill_threads_spec(
            crate::state::backfill_threads_spec(v, now1),
            now2,
        ) == crate::state::backfill_threads_spec(v, now1),
{
    let v1 = crate::state::backfill_threads_spec(v, now1);
    let v2 = crate::state::backfill_threads_spec(v1, now2);
    assert forall|k: int| 0 <= k < v1.threads.len() implies #[trigger] v2.threads[k]
        == v1.threads[k] by {
        assert(v1.threads[k] == crate::state::thread_backfilled(v.threads[k], now1));
        assert(v1.threads[k].created_at != 0 && v1.threads[k].updated_at != 0);
    }
    assert(v2.threads =~= v1.threads);
    assert(v2 =~= v1);
}

} // verus!
