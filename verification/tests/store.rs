use vibeflow::model::{AgentRule, ChatMessage, ChatThread, Project, Task, TaskStatus, TaskStep,
    TaskStepType};
use vibeflow::rows::{ProjectRow, StepRow, TaskRow};
use vibeflow::store::{DataService, StoreError};

fn step(id: &str, title: &str, kind: TaskStepType) -> TaskStep {
    TaskStep {
        id: id.to_string(),
        title: title.to_string(),
        content: format!("content of {id}"),
        status: TaskStatus::Pending,
        created_at: 1,
        updated_at: 2,
        step_type: kind,
    }
}

fn rule(id: &str, name: &str) -> AgentRule {
    AgentRule {
        id: id.to_string(),
        name: name.to_string(),
        description: Some(format!("rule {name}")),
        created_at: 3,
        updated_at: 4,
    }
}

fn task(id: &str, pid: &str, presteps: Vec<TaskStep>, steps: Vec<TaskStep>, poststeps: Vec<TaskStep>) -> Task {
    Task {
        id: id.to_string(),
        project_id: pid.to_string(),
        title: format!("task {id}"),
        description: "does things".to_string(),
        steps,
        presteps,
        poststeps,
        status: TaskStatus::InProgress,
        created_at: 5,
        updated_at: 6,
    }
}

fn project(id: &str, path: &str, updated_at: i64, rules: Vec<AgentRule>, tasks: Vec<Task>) -> Project {
    Project {
        id: id.to_string(),
        name: format!("name {id}"),
        path: path.to_string(),
        rules,
        tasks,
        created_at: 7,
        updated_at,
    }
}

fn thread(id: &str, pid: &str, created_at: i64, updated_at: i64) -> ChatThread {
    ChatThread {
        id: id.to_string(),
        project_id: pid.to_string(),
        title: format!("thread {id}"),
        created_at,
        updated_at,
    }
}

fn message(id: &str, tid: &str, created_at: i64) -> ChatMessage {
    ChatMessage {
        id: id.to_string(),
        thread_id: tid.to_string(),
        role: "assistant".to_string(),
        content: format!("message {id}"),
        model: "m".to_string(),
        created_at,
    }
}

#[test]
fn save_then_load_round_trips_step_order() {
    let mut store = DataService::new();
    let t1 = task(
        "t1",
        "p1",
        vec![step("s1", "one", TaskStepType::Pre), step("s2", "two", TaskStepType::Pre)],
        vec![step("s3", "three", TaskStepType::Normal)],
        vec![],
    );
    let p = project("p1", "/tmp/p1", 10, vec![], vec![t1]);
    assert!(store.upsert_project(&p).is_ok());
    let loaded = store.load_project("p1").expect("project must reload");
    assert_eq!(loaded.tasks.len(), 1);
    let lt = &loaded.tasks[0];
    assert_eq!(lt.presteps.len(), 2);
    assert_eq!(lt.presteps[0].id, "s1");
    assert_eq!(lt.presteps[1].id, "s2");
    assert_eq!(lt.steps.len(), 1);
    assert_eq!(lt.steps[0].id, "s3");
    assert!(lt.poststeps.is_empty());
}

#[test]
fn save_then_load_round_trips_every_field() {
    let mut store = DataService::new();
    let t1 = task(
        "t1",
        "p1",
        vec![step("s1", "one", TaskStepType::Pre)],
        vec![step("s2", "two", TaskStepType::Normal), step("s3", "three", TaskStepType::Post)],
        vec![step("s4", "four", TaskStepType::Post)],
    );
    let t2 = task("t2", "p1", vec![], vec![], vec![]);
    let p = project("p1", "/tmp/p1", 10, vec![rule("r1", "a"), rule("r2", "b")], vec![t1, t2]);
    assert!(store.upsert_project(&p).is_ok());
    let loaded = store.load_project("p1").expect("project must reload");
    assert_eq!(loaded, p);
}

#[test]
fn kind_tag_and_sequence_membership_are_independent() {
    let mut store = DataService::new();
    // A step tagged Normal stored in the poststeps sequence keeps both.
    let t = task("t1", "p1", vec![], vec![], vec![step("s1", "odd", TaskStepType::Normal)]);
    let p = project("p1", "/tmp/p1", 10, vec![], vec![t]);
    assert!(store.upsert_project(&p).is_ok());
    let loaded = store.load_project("p1").unwrap();
    assert_eq!(loaded.tasks[0].poststeps.len(), 1);
    assert_eq!(loaded.tasks[0].poststeps[0].step_type, TaskStepType::Normal);
}

#[test]
fn delete_is_idempotent_and_absent_id_is_fine() {
    let mut store = DataService::new();
    store.delete_project("nope");
    let p = project("p1", "/tmp/p1", 10, vec![rule("r1", "a")], vec![]);
    assert!(store.upsert_project(&p).is_ok());
    store.delete_project("p1");
    assert!(store.load_project("p1").is_none());
    store.delete_project("p1");
    assert!(store.load_project("p1").is_none());
}

#[test]
fn delete_cascades_to_every_child() {
    let mut store = DataService::new();
    let t1 = task("t1", "p1", vec![step("s1", "one", TaskStepType::Pre)], vec![], vec![]);
    let p = project("p1", "/tmp/p1", 10, vec![rule("r1", "a")], vec![t1]);
    assert!(store.upsert_project(&p).is_ok());
    assert!(store.save_chat_thread(&thread("th1", "p1", 1, 1)).is_ok());
    assert!(store.save_chat_message(&message("m1", "th1", 5)).is_ok());
    store.delete_project("p1");
    assert!(store.load_project("p1").is_none());
    assert!(store.project_rows().is_empty());
    assert!(store.rule_rows().is_empty());
    assert!(store.task_rows().is_empty());
    assert!(store.step_rows().is_empty());
    assert!(store.thread_rows().is_empty());
    assert!(store.message_rows().is_empty());
    assert!(store.load_chat_messages_by_thread("th1").is_empty());
}

#[test]
fn resave_replaces_the_whole_subtree() {
    let mut store = DataService::new();
    let three = project(
        "p1",
        "/tmp/p1",
        10,
        vec![],
        vec![
            task("t1", "p1", vec![step("s1", "one", TaskStepType::Pre)], vec![], vec![]),
            task("t2", "p1", vec![], vec![step("s2", "two", TaskStepType::Normal)], vec![]),
            task("t3", "p1", vec![], vec![], vec![]),
        ],
    );
    assert!(store.upsert_project(&three).is_ok());
    let one = project(
        "p1",
        "/tmp/p1",
        11,
        vec![],
        vec![task("t9", "p1", vec![], vec![step("s9", "nine", TaskStepType::Normal)], vec![])],
    );
    assert!(store.upsert_project(&one).is_ok());
    let loaded = store.load_project("p1").unwrap();
    assert_eq!(loaded.tasks.len(), 1);
    assert_eq!(loaded.tasks[0].id, "t9");
    assert_eq!(store.task_rows().len(), 1);
    assert_eq!(store.step_rows().len(), 1);
}

#[test]
fn upsert_with_duplicate_child_ids_fails_and_changes_nothing() {
    let mut store = DataService::new();
    let good = project(
        "p1",
        "/tmp/p1",
        10,
        vec![],
        vec![task("t1", "p1", vec![], vec![step("s1", "one", TaskStepType::Normal)], vec![])],
    );
    assert!(store.upsert_project(&good).is_ok());
    let bad = project(
        "p1",
        "/tmp/p1",
        11,
        vec![],
        vec![
            task("dup", "p1", vec![], vec![], vec![]),
            task("dup", "p1", vec![], vec![], vec![]),
        ],
    );
    assert_eq!(store.upsert_project(&bad), Err(StoreError::DuplicateId));
    let loaded = store.load_project("p1").unwrap();
    assert_eq!(loaded.tasks.len(), 1);
    assert_eq!(loaded.tasks[0].id, "t1");
    assert_eq!(loaded.updated_at, 10);
}

#[test]
fn duplicate_step_ids_across_sequences_fail_the_save() {
    let mut store = DataService::new();
    let bad = project(
        "p1",
        "/tmp/p1",
        10,
        vec![],
        vec![task(
            "t1",
            "p1",
            vec![step("s1", "one", TaskStepType::Pre)],
            vec![step("s1", "again", TaskStepType::Normal)],
            vec![],
        )],
    );
    assert_eq!(store.upsert_project(&bad), Err(StoreError::DuplicateId));
    assert!(store.load_project("p1").is_none());
}

#[test]
fn messageless_thread_is_invisible_until_its_first_message() {
    let mut store = DataService::new();
    let p = project("p1", "/tmp/p1", 10, vec![], vec![]);
    assert!(store.upsert_project(&p).is_ok());
    assert!(store.save_chat_thread(&thread("th1", "p1", 1, 1)).is_ok());
    assert!(store.load_chat_threads_by_project("p1", 10).is_empty());
    assert!(store.save_chat_message(&message("m1", "th1", 5)).is_ok());
    let listed = store.load_chat_threads_by_project("p1", 10);
    assert_eq!(listed.len(), 1);
    assert_eq!(listed[0].id, "th1");
    assert_eq!(listed[0].updated_at, 5);
}

#[test]
fn threads_list_most_recent_first_and_respect_count() {
    let mut store = DataService::new();
    let p = project("p1", "/tmp/p1", 10, vec![], vec![]);
    assert!(store.upsert_project(&p).is_ok());
    for (tid, mid, at) in [("a", "m1", 10i64), ("b", "m2", 30), ("c", "m3", 20)] {
        assert!(store.save_chat_thread(&thread(tid, "p1", 1, 1)).is_ok());
        assert!(store.save_chat_message(&message(mid, tid, at)).is_ok());
    }
    let listed = store.load_chat_threads_by_project("p1", 10);
    let ids: Vec<&str> = listed.iter().map(|t| t.id.as_str()).collect();
    assert_eq!(ids, vec!["b", "c", "a"]);
    let two = store.load_chat_threads_by_project("p1", 2);
    assert_eq!(two.len(), 2);
    assert_eq!(two[0].id, "b");
    assert_eq!(two[1].id, "c");
    assert!(store.load_chat_threads_by_project("p1", 0).is_empty());
}

#[test]
fn thread_timestamp_never_regresses() {
    let mut store = DataService::new();
    let p = project("p1", "/tmp/p1", 10, vec![], vec![]);
    assert!(store.upsert_project(&p).is_ok());
    assert!(store.save_chat_thread(&thread("th1", "p1", 1, 1)).is_ok());
    assert!(store.save_chat_message(&message("m1", "th1", 100)).is_ok());
    assert_eq!(store.thread_rows()[0].updated_at, 100);
    assert!(store.save_chat_message(&message("m2", "th1", 50)).is_ok());
    assert_eq!(store.thread_rows()[0].updated_at, 100);
    assert!(store.save_chat_message(&message("m3", "th1", 150)).is_ok());
    assert_eq!(store.thread_rows()[0].updated_at, 150);
}

#[test]
fn thread_upsert_keeps_stored_created_at() {
    let mut store = DataService::new();
    let p = project("p1", "/tmp/p1", 10, vec![], vec![]);
    assert!(store.upsert_project(&p).is_ok());
    assert!(store.save_chat_thread(&thread("th1", "p1", 42, 42)).is_ok());
    let mut renamed = thread("th1", "p1", 999, 77);
    renamed.title = "renamed".to_string();
    assert!(store.save_chat_thread(&renamed).is_ok());
    assert_eq!(store.thread_rows()[0].created_at, 42);
    assert_eq!(store.thread_rows()[0].updated_at, 77);
    assert_eq!(store.thread_rows()[0].title, "renamed");
}

#[test]
fn messages_replay_in_chronological_order() {
    let mut store = DataService::new();
    let p = project("p1", "/tmp/p1", 10, vec![], vec![]);
    assert!(store.upsert_project(&p).is_ok());
    assert!(store.save_chat_thread(&thread("th1", "p1", 1, 1)).is_ok());
    for (mid, at) in [("m1", 30i64), ("m2", 10), ("m3", 20)] {
        assert!(store.save_chat_message(&message(mid, "th1", at)).is_ok());
    }
    let replay = store.load_chat_messages_by_thread("th1");
    let ids: Vec<&str> = replay.iter().map(|m| m.id.as_str()).collect();
    assert_eq!(ids, vec!["m2", "m3", "m1"]);
}

#[test]
fn chat_writes_without_a_parent_fail() {
    let mut store = DataService::new();
    assert_eq!(
        store.save_chat_thread(&thread("th1", "absent", 1, 1)),
        Err(StoreError::MissingParent)
    );
    assert_eq!(store.save_chat_message(&message("m1", "absent", 1)), Err(StoreError::MissingParent));
}

#[test]
fn unrecognized_stored_status_decodes_to_pending() {
    let mut store = DataService::new();
    store
        .insert_project_row(ProjectRow {
            id: "p1".to_string(),
            name: "n".to_string(),
            path: "/x".to_string(),
            created_at: 1,
            updated_at: 2,
        })
        .unwrap();
    store
        .insert_task_row(TaskRow {
            id: "t1".to_string(),
            project_id: "p1".to_string(),
            title: "t".to_string(),
            description: "d".to_string(),
            status: "paused_by_future_version".to_string(),
            created_at: 1,
            updated_at: 2,
        })
        .unwrap();
    store
        .insert_step_row(StepRow {
            id: "s1".to_string(),
            task_id: "t1".to_string(),
            title: "s".to_string(),
            content: "c".to_string(),
            status: "garbled".to_string(),
            created_at: 1,
            updated_at: 2,
            step_type: "mystery".to_string(),
            step_kind: "unknown_kind".to_string(),
            sort_order: 0,
        })
        .unwrap();
    let loaded = store.load_project("p1").unwrap();
    assert_eq!(loaded.tasks[0].status, TaskStatus::Pending);
    // An unrecognized sequence discriminator lands in the main sequence.
    assert_eq!(loaded.tasks[0].steps.len(), 1);
    assert_eq!(loaded.tasks[0].steps[0].status, TaskStatus::Pending);
    assert_eq!(loaded.tasks[0].steps[0].step_type, TaskStepType::Normal);
}

#[test]
fn row_ingestion_rejects_duplicates_and_orphans() {
    let mut store = DataService::new();
    let row = ProjectRow {
        id: "p1".to_string(),
        name: "n".to_string(),
        path: "/x".to_string(),
        created_at: 1,
        updated_at: 2,
    };
    store.insert_project_row(row.clone()).unwrap();
    assert_eq!(store.insert_project_row(row), Err(StoreError::DuplicateId));
    let orphan = TaskRow {
        id: "t1".to_string(),
        project_id: "ghost".to_string(),
        title: "t".to_string(),
        description: "d".to_string(),
        status: "pending".to_string(),
        created_at: 1,
        updated_at: 2,
    };
    assert_eq!(store.insert_task_row(orphan), Err(StoreError::MissingParent));
}

#[test]
fn recent_projects_order_by_recency_and_respect_count() {
    let mut store = DataService::new();
    for (pid, at) in [("p1", 10i64), ("p2", 30), ("p3", 20)] {
        assert!(store.upsert_project(&project(pid, "/x", at, vec![], vec![])).is_ok());
    }
    let all = store.get_recent_projects(10);
    let ids: Vec<&str> = all.iter().map(|p| p.id.as_str()).collect();
    assert_eq!(ids, vec!["p2", "p3", "p1"]);
    let two = store.get_recent_projects(2);
    assert_eq!(two.len(), 2);
    assert_eq!(two[0].id, "p2");
    assert!(store.get_recent_projects(0).is_empty());
    assert_eq!(store.load_projects().len(), 3);
}

#[test]
fn lookup_by_path_prefers_the_most_recently_updated_match() {
    let mut store = DataService::new();
    assert!(store.upsert_project(&project("old", "/same", 10, vec![], vec![])).is_ok());
    assert!(store.upsert_project(&project("new", "/same", 20, vec![], vec![])).is_ok());
    assert!(store.upsert_project(&project("other", "/elsewhere", 30, vec![], vec![])).is_ok());
    assert_eq!(store.load_project_by_path("/same").unwrap().id, "new");
    assert!(store.load_project_by_path("/missing").is_none());
}

#[test]
fn get_or_create_by_path_returns_the_same_project_twice() {
    let mut store = DataService::new();
    let first = store.load_or_create_project_by_path_at("/home/me/proj", 12345);
    assert_eq!(first.id, "project-12345");
    assert_eq!(first.name, "proj");
    assert_eq!(first.path, "/home/me/proj");
    assert!(first.rules.is_empty() && first.tasks.is_empty());
    assert_eq!(first.created_at, 12345);
    let second = store.load_or_create_project_by_path_at("/home/me/proj", 99999);
    assert_eq!(second.id, "project-12345");
    assert_eq!(store.project_rows().len(), 1);
}

#[test]
fn get_or_create_by_path_against_the_clock_is_stable() {
    let mut store = DataService::new();
    let first = store.load_or_create_project_by_path("/home/me/proj");
    assert!(first.id.starts_with("project-"));
    let second = store.load_or_create_project_by_path("/home/me/proj");
    assert_eq!(second.id, first.id);
    assert_eq!(store.project_rows().len(), 1);
}

#[test]
fn migration_backfill_fills_zero_sentinels_and_is_idempotent() {
    let mut store = DataService::new();
    let p = project("p1", "/tmp/p1", 10, vec![], vec![]);
    assert!(store.upsert_project(&p).is_ok());
    assert!(store.insert_thread_row(thread("fresh", "p1", 0, 0)).is_ok());
    assert!(store.insert_thread_row(thread("half", "p1", 5, 0)).is_ok());
    assert!(store.insert_thread_row(thread("full", "p1", 5, 9)).is_ok());
    store.backfill_thread_timestamps(777);
    assert_eq!(store.thread_rows()[0].created_at, 777);
    assert_eq!(store.thread_rows()[0].updated_at, 777);
    assert_eq!(store.thread_rows()[1].created_at, 5);
    assert_eq!(store.thread_rows()[1].updated_at, 5);
    assert_eq!(store.thread_rows()[2].created_at, 5);
    assert_eq!(store.thread_rows()[2].updated_at, 9);
    let before: Vec<ChatThread> = store.thread_rows().clone();
    store.backfill_thread_timestamps(999);
    assert_eq!(store.thread_rows(), &before);
}

#[test]
fn tied_step_positions_reload_in_update_time_order() {
    let mut store = DataService::new();
    store
        .insert_project_row(ProjectRow {
            id: "p1".to_string(),
            name: "n".to_string(),
            path: "/x".to_string(),
            created_at: 1,
            updated_at: 2,
        })
        .unwrap();
    store
        .insert_task_row(TaskRow {
            id: "t1".to_string(),
            project_id: "p1".to_string(),
            title: "t".to_string(),
            description: "d".to_string(),
            status: "pending".to_string(),
            created_at: 1,
            updated_at: 2,
        })
        .unwrap();
    // Two rows of one sequence share a stored position, as only a file
    // written by something else can produce; the later-updated row was
    // ingested first.
    for (id, updated_at, sort_order) in [("late", 5i64, 0i64), ("early", 3, 0), ("tail", 1, 1)] {
        store
            .insert_step_row(StepRow {
                id: id.to_string(),
                task_id: "t1".to_string(),
                title: "s".to_string(),
                content: "c".to_string(),
                status: "pending".to_string(),
                created_at: 1,
                updated_at,
                step_type: "pre".to_string(),
                step_kind: "pre".to_string(),
                sort_order,
            })
            .unwrap();
    }
    let loaded = store.load_project("p1").unwrap();
    let ids: Vec<&str> = loaded.tasks[0].presteps.iter().map(|s| s.id.as_str()).collect();
    assert_eq!(ids, vec!["early", "late", "tail"]);
}
