//! Codecs between the store's enum values and the plain strings kept in
//! rows. Encoding is exact; decoding is lenient: an unrecognized stored
//! string maps to a defined default variant instead of failing, so a row
//! written by a newer schema can still be read.

use vstd::prelude::*;
use vstd::string::StrSliceExecFns;

use crate::model::{TaskStatus, TaskStepType};

verus! {

/// Which of a task's three ordered sequences a stored step belongs to.
/// This membership is independent of the step's own kind tag.
#[derive(Debug, Clone, Copy, PartialEq, Eq, Structural)]
pub enum StepBucket {
    Pre,
    Main,
    Post,
}

/// The string under which a status is stored.
pub open spec fn status_str(status: TaskStatus) -> Seq<char> {
    match status {
        TaskStatus::Pending => "pending"@,
        TaskStatus::InProgress => "in_progress"@,
        TaskStatus::Completed => "completed"@,
        TaskStatus::Failed => "failed"@,
    }
}

/// The status a stored string decodes to: the three non-default spellings
/// map exactly, anything else falls back to `Pending`.
pub open spec fn status_of(s: Seq<char>) -> TaskStatus {
    if s == "in_progress"@ {
        TaskStatus::InProgress
    } else if s == "completed"@ {
        TaskStatus::Completed
    } else if s == "failed"@ {
        TaskStatus::Failed
    } else {
        TaskStatus::Pending
    }
}

/// The string under which a step's kind tag is stored.
pub open spec fn step_type_str(t: TaskStepType) -> Seq<char> {
    match t {
        TaskStepType::Normal => "normal"@,
        TaskStepType::Pre => "pre"@,
        TaskStepType::Post => "post"@,
    }
}

/// The kind tag a stored string decodes to; anything unrecognized is
/// `Normal`.
pub open spec fn step_type_of(s: Seq<char>) -> TaskStepType {
    if s == "pre"@ {
        TaskStepType::Pre
    } else if s == "post"@ {
        TaskStepType::Post
    } else {
        TaskStepType::Normal
    }
}

/// The discriminator string under which a step's sequence membership is
/// stored.
pub open spec fn bucket_str(b: StepBucket) -> Seq<char> {
    match b {
        StepBucket::Pre => "pre"@,
        StepBucket::Main => "main"@,
        StepBucket::Post => "post"@,
    }
}

/// The sequence membership a stored discriminator decodes to; anything
/// unrecognized is the main sequence.
pub open spec fn bucket_of(s: Seq<char>) -> StepBucket {
    if s == "pre"@ {
        StepBucket::Pre
    } else if s == "post"@ {
        StepBucket::Post
    } else {
        StepBucket::Main
    }
}

/// Character-exact string comparison.
pub fn str_eq(a: &str, b: &str) -> (r: bool)
    ensures
        r == (a@ == b@),
{
    let a_len = a.unicode_len();
    let b_len = b.unicode_len();
    if a_len != b_len {
        return false;
    }
    let mut i: usize = 0;
    while i < a_len
        invariant
            i <= a_len,
            a_len == a@.len(),
            a_len == b@.len(),
            forall|k: int| 0 <= k < i ==> a@[k] == b@[k],
        decreases a_len - i,
    {
        if a.get_char(i) != b.get_char(i) {
            return false;
        }
        i += 1;
    }
    proof {
        assert(a@ =~= b@);
    }
    true
}

/// Encodes a status for storage.
pub fn task_status_as_str(status: &TaskStatus) -> (r: &'static str)
    ensures
        r@ == status_str(*status),
{
    match status {
        TaskStatus::Pending => "pending",
        TaskStatus::InProgress => "in_progress",
        TaskStatus::Completed => "completed",
        TaskStatus::Failed => "failed",
    }
}

/// Decodes a stored status string, leniently.
pub fn parse_task_status(value: &str) -> (r: TaskStatus)
    ensures
        r == status_of(value@),
{
    if str_eq(value, "in_progress") {
        TaskStatus::InProgress
    } else if str_eq(value, "completed") {
        TaskStatus::Completed
    } else if str_eq(value, "failed") {
        TaskStatus::Failed
    } else {
        TaskStatus::Pending
    }
}

/// Encodes a step's kind tag for storage.
pub fn task_step_type_as_str(step_type: &TaskStepType) -> (r: &'static str)
    ensures
        r@ == step_type_str(*step_type),
{
    match step_type {
        TaskStepType::Normal => "normal",
        TaskStepType::Pre => "pre",
        TaskStepType::Post => "post",
    }
}

/// Decodes a stored kind-tag string, leniently.
pub fn parse_task_step_type(value: &str) -> (r: TaskStepType)
    ensures
        r == step_type_of(value@),
{
    if str_eq(value, "pre") {
        TaskStepType::Pre
    } else if str_eq(value, "post") {
        TaskStepType::Post
    } else {
        TaskStepType::Normal
    }
}

/// Encodes a step's sequence membership for storage.
pub fn step_bucket_as_str(bucket: &StepBucket) -> (r: &'static str)
    ensures
        r@ == bucket_str(*bucket),
{
    match bucket {
        StepBucket::Pre => "pre",
        StepBucket::Main => "main",
        StepBucket::Post => "post",
    }
}

/// Decodes a stored sequence-membership discriminator, leniently.
pub fn parse_step_bucket(value: &str) -> (r: StepBucket)
    ensures
        r == bucket_of(value@),
{
    if str_eq(value, "pre") {
        StepBucket::Pre
    } else if str_eq(value, "post") {
        StepBucket::Post
    } else {
        StepBucket::Main
    }
}

/// Decoding a stored status recovers the encoded one exactly: the lenient
/// fallback never rewrites a string that the encoder produced.
pub proof fn lemma_status_round_trip(status: TaskStatus)
    ensures
        status_of(status_str(status)) == status,
{
    reveal_strlit("pending");
    reveal_strlit("in_progress");
    reveal_strlit("completed");
    reveal_strlit("failed");
    assert("pending"@.len() == 7);
    assert("in_progress"@.len() == 11);
    assert("completed"@.len() == 9);
    assert("failed"@.len() == 6);
}

/// Decoding a stored kind tag recovers the encoded one exactly.
pub proof fn lemma_step_type_round_trip(t: TaskStepType)
    ensures
        step_type_of(step_type_str(t)) == t,
{
    reveal_strlit("normal");
    reveal_strlit("pre");
    reveal_strlit("post");
    assert("normal"@.len() == 6);
    assert("pre"@.len() == 3);
    assert("post"@.len() == 4);
}

/// Decoding a stored membership discriminator recovers the encoded one
/// exactly.
pub proof fn lemma_bucket_round_trip(b: StepBucket)
    ensures
        bucket_of(bucket_str(b)) == b,
{
    reveal_strlit("pre");
    reveal_strlit("main");
    reveal_strlit("post");
    assert("pre"@.len() == 3);
    assert("main"@.len() == 4);
    assert("post"@.len() == 4);
    assert("main"@[0] == 'm' && "post"@[0] == 'p');
}

} // verus!
