use vibeflow::codec::{parse_step_bucket, parse_task_status, parse_task_step_type,
    step_bucket_as_str, str_eq, task_status_as_str, task_step_type_as_str, StepBucket};
use vibeflow::model::{TaskStatus, TaskStepType};
use vibeflow::pathname::project_name_from_path;
use vibeflow::ident::derived_project_id;

#[test]
fn status_codec_is_exact_and_lenient() {
    assert_eq!(task_status_as_str(&TaskStatus::Pending), "pending");
    assert_eq!(task_status_as_str(&TaskStatus::InProgress), "in_progress");
    assert_eq!(task_status_as_str(&TaskStatus::Completed), "completed");
    assert_eq!(task_status_as_str(&TaskStatus::Failed), "failed");
    assert_eq!(parse_task_status("in_progress"), TaskStatus::InProgress);
    assert_eq!(parse_task_status("completed"), TaskStatus::Completed);
    assert_eq!(parse_task_status("failed"), TaskStatus::Failed);
    assert_eq!(parse_task_status("pending"), TaskStatus::Pending);
    assert_eq!(parse_task_status("paused"), TaskStatus::Pending);
    assert_eq!(parse_task_status(""), TaskStatus::Pending);
    assert_eq!(parse_task_status("IN_PROGRESS"), TaskStatus::Pending);
}

#[test]
fn step_type_codec_is_exact_and_lenient() {
    assert_eq!(task_step_type_as_str(&TaskStepType::Normal), "normal");
    assert_eq!(task_step_type_as_str(&TaskStepType::Pre), "pre");
    assert_eq!(task_step_type_as_str(&TaskStepType::Post), "post");
    assert_eq!(parse_task_step_type("pre"), TaskStepType::Pre);
    assert_eq!(parse_task_step_type("post"), TaskStepType::Post);
    assert_eq!(parse_task_step_type("normal"), TaskStepType::Normal);
    assert_eq!(parse_task_step_type("anything"), TaskStepType::Normal);
}

#[test]
fn bucket_codec_is_exact_and_lenient() {
    assert_eq!(step_bucket_as_str(&StepBucket::Pre), "pre");
    assert_eq!(step_bucket_as_str(&StepBucket::Main), "main");
    assert_eq!(step_bucket_as_str(&StepBucket::Post), "post");
    assert_eq!(parse_step_bucket("pre"), StepBucket::Pre);
    assert_eq!(parse_step_bucket("post"), StepBucket::Post);
    assert_eq!(parse_step_bucket("main"), StepBucket::Main);
    assert_eq!(parse_step_bucket("whatever"), StepBucket::Main);
}

#[test]
fn string_equality_is_character_exact() {
    assert!(str_eq("abc", "abc"));
    assert!(!str_eq("abc", "abd"));
    assert!(!str_eq("abc", "ab"));
    assert!(str_eq("", ""));
    assert!(str_eq("na\u{ef}ve", "na\u{ef}ve"));
}

#[test]
fn project_names_come_from_the_last_nonempty_segment() {
    assert_eq!(project_name_from_path("/home/me/proj"), "proj");
    assert_eq!(project_name_from_path("/home/me/proj/"), "proj");
    assert_eq!(project_name_from_path("relative/dir"), "dir");
    assert_eq!(project_name_from_path("C:\\work\\app"), "app");
    assert_eq!(project_name_from_path("mixed\\of/both\\styles"), "styles");
    assert_eq!(project_name_from_path("plain"), "plain");
    assert_eq!(project_name_from_path(""), "Project");
    // A path of separators only has no segment to extract either.
    assert_eq!(project_name_from_path("///"), "Project");
    assert_eq!(project_name_from_path("\\"), "Project");
}

#[test]
fn derived_ids_are_the_prefix_plus_decimal_timestamp() {
    assert_eq!(derived_project_id(0), "project-0");
    assert_eq!(derived_project_id(12345), "project-12345");
    assert_eq!(derived_project_id(1700000000123), "project-1700000000123");
}
