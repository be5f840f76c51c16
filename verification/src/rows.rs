//! The flat relational rows that the store keeps, one type per table
//! whose shape differs from its entity. Chat threads and chat messages
//! are stored exactly as their entities, so those two tables reuse the
//! entity types directly. Status and kind enums are stored as plain
//! strings, decoded leniently on the way out.

use vstd::prelude::*;

use crate::model::{AgentRule, AgentRuleV};

verus! {

/// A row of the projects table: the project's own columns, without its
/// children.
#[derive(Debug, PartialEq)]
pub struct ProjectRow {
    pub id: String,
    pub name: String,
    pub path: String,
    pub created_at: i64,
    pub updated_at: i64,
}

/// The view of a [`ProjectRow`].
#[verifier::ext_equal]
pub ghost struct ProjectRowV {
    pub id: Seq<char>,
    pub name: Seq<char>,
    pub path: Seq<char>,
    pub created_at: i64,
    pub updated_at: i64,
}

impl DeepView for ProjectRow {
    type V = ProjectRowV;

    open spec fn deep_view(&self) -> ProjectRowV {
        ProjectRowV {
            id: self.id@,
            name: self.name@,
            path: self.path@,
            created_at: self.created_at,
            updated_at: self.updated_at,
        }
    }
}

impl Clone for ProjectRow {
    fn clone(&self) -> (r: Self)
        ensures
            r == *self,
    {
        ProjectRow {
            id: self.id.clone(),
            name: self.name.clone(),
            path: self.path.clone(),
            created_at: self.created_at,
            updated_at: self.updated_at,
        }
    }
}

/// A row of the agent_rules table: the rule plus the id of the project
/// that owns it.
#[derive(Debug, PartialEq)]
pub struct RuleRow {
    pub project_id: String,
    pub rule: AgentRule,
}

/// The view of a [`RuleRow`].
#[verifier::ext_equal]
pub ghost struct RuleRowV {
    pub project_id: Seq<char>,
    pub rule: AgentRuleV,
}

impl DeepView for RuleRow {
    type V = RuleRowV;

    open spec fn deep_view(&self) -> RuleRowV {
        RuleRowV { project_id: self.project_id@, rule: self.rule.deep_view() }
    }
}

impl Clone for RuleRow {
    fn clone(&self) -> (r: Self)
        ensures
            r == *self,
    {
        RuleRow { project_id: self.project_id.clone(), rule: self.rule.clone() }
    }
}

/// A row of the tasks table; the status is kept as its stored string.
#[derive(Debug, PartialEq)]
pub struct TaskRow {
    pub id: String,
    pub project_id: String,
    pub title: String,
    pub description: String,
    pub status: String,
    pub created_at: i64,
    pub updated_at: i64,
}

/// The view of a [`TaskRow`].
#[verifier::ext_equal]
pub ghost struct TaskRowV {
    pub id: Seq<char>,
    pub project_id: Seq<char>,
    pub title: Seq<char>,
    pub description: Seq<char>,
    pub status: Seq<char>,
    pub created_at: i64,
    pub updated_at: i64,
}

impl DeepView for TaskRow {
    type V = TaskRowV;

    open spec fn deep_view(&self) -> TaskRowV {
        TaskRowV {
            id: self.id@,
            project_id: self.project_id@,
            title: self.title@,
            description: self.description@,
            status: self.status@,
            created_at: self.created_at,
            updated_at: self.updated_at,
        }
    }
}

impl Clone for TaskRow {
    fn clone(&self) -> (r: Self)
        ensures
            r == *self,
    {
        TaskRow {
            id: self.id.clone(),
            project_id: self.project_id.clone(),
            title: self.title.clone(),
            description: self.description.clone(),
            status: self.status.clone(),
            created_at: self.created_at,
            updated_at: self.updated_at,
        }
    }
}

/// A row of the task_steps table. `step_kind` records which of the three
/// ordered sequences the step belongs to; `step_type` is the step's own
/// kind tag; `sort_order` is the zero-based position within its sequence.
#[derive(Debug, PartialEq)]
pub struct StepRow {
    pub id: String,
    pub task_id: String,
    pub title: String,
    pub content: String,
    pub status: String,
    pub created_at: i64,
    pub updated_at: i64,
    pub step_type: String,
    pub step_kind: String,
    pub sort_order: i64,
}

/// The view of a [`StepRow`].
#[verifier::ext_equal]
pub ghost struct StepRowV {
    pub id: Seq<char>,
    pub task_id: Seq<char>,
    pub title: Seq<char>,
    pub content: Seq<char>,
    pub status: Seq<char>,
    pub created_at: i64,
    pub updated_at: i64,
    pub step_type: Seq<char>,
    pub step_kind: Seq<char>,
    pub sort_order: i64,
}

impl DeepView for StepRow {
    type V = StepRowV;

    open spec fn deep_view(&self) -> StepRowV {
        StepRowV {
            id: self.id@,
            task_id: self.task_id@,
            title: self.title@,
            content: self.content@,
            status: self.status@,
            created_at: self.created_at,
            updated_at: self.updated_at,
            step_type: self.step_type@,
            step_kind: self.step_kind@,
            sort_order: self.sort_order,
        }
    }
}

impl Clone for StepRow {
    fn clone(&self) -> (r: Self)
        ensures
            r == *self,
    {
        StepRow {
            id: self.id.clone(),
            task_id: self.task_id.clone(),
            title: self.title.clone(),
            content: self.content.clone(),
            status: self.status.clone(),
            created_at: self.created_at,
            updated_at: self.updated_at,
            step_type: self.step_type.clone(),
            step_kind: self.step_kind.clone(),
            sort_order: self.sort_order,
        }
    }
}

} // verus!
