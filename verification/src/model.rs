//! The in-memory entities that the store persists, together with their
//! mathematical views. Every entity field is caller-assigned; timestamps
//! are epoch milliseconds.

use vstd::prelude::*;

verus! {

/// Completion state shared by tasks and task steps.
#[derive(Debug, Clone, Copy, PartialEq, Eq, Structural)]
pub enum TaskStatus {
    Pending,
    InProgress,
    Completed,
    Failed,
}

/// Semantic role tag of a task step, independent of which of the three
/// ordered sequences the step is stored in.
#[derive(Debug, Clone, Copy, PartialEq, Eq, Structural)]
pub enum TaskStepType {
    Normal,
    Post,
    Pre,
}

/// One step of a task: free-form text plus a status and a kind tag.
#[derive(Debug, PartialEq)]
pub struct TaskStep {
    pub id: String,
    pub title: String,
    pub content: String,
    pub status: TaskStatus,
    pub created_at: i64,
    pub updated_at: i64,
    pub step_type: TaskStepType,
}

/// The view of a [`TaskStep`].
#[verifier::ext_equal]
pub ghost struct TaskStepV {
    pub id: Seq<char>,
    pub title: Seq<char>,
    pub content: Seq<char>,
    pub status: TaskStatus,
    pub created_at: i64,
    pub updated_at: i64,
    pub step_type: TaskStepType,
}

impl DeepView for TaskStep {
    type V = TaskStepV;

    open spec fn deep_view(&self) -> TaskStepV {
        TaskStepV {
            id: self.id@,
            title: self.title@,
            content: self.content@,
            status: self.status,
            created_at: self.created_at,
            updated_at: self.updated_at,
            step_type: self.step_type,
        }
    }
}

impl Clone for TaskStep {
    fn clone(&self) -> (r: Self)
        ensures
            r == *self,
    {
        TaskStep {
            id: self.id.clone(),
            title: self.title.clone(),
            content: self.content.clone(),
            status: self.status,
            created_at: self.created_at,
            updated_at: self.updated_at,
            step_type: self.step_type,
        }
    }
}

/// A task of a project, with three disjoint ordered step sequences.
#[derive(Debug, PartialEq)]
pub struct Task {
    pub id: String,
    pub project_id: String,
    pub title: String,
    pub description: String,
    pub steps: Vec<TaskStep>,
    pub presteps: Vec<TaskStep>,
    pub poststeps: Vec<TaskStep>,
    pub status: TaskStatus,
    pub created_at: i64,
    pub updated_at: i64,
}

/// The view of a [`Task`].
#[verifier::ext_equal]
pub ghost struct TaskV {
    pub id: Seq<char>,
    pub project_id: Seq<char>,
    pub title: Seq<char>,
    pub description: Seq<char>,
    pub steps: Seq<TaskStepV>,
    pub presteps: Seq<TaskStepV>,
    pub poststeps: Seq<TaskStepV>,
    pub status: TaskStatus,
    pub created_at: i64,
    pub updated_at: i64,
}

impl DeepView for Task {
    type V = TaskV;

    open spec fn deep_view(&self) -> TaskV {
        TaskV {
            id: self.id@,
            project_id: self.project_id@,
            title: self.title@,
            description: self.description@,
            steps: self.steps.deep_view(),
            presteps: self.presteps.deep_view(),
            poststeps: self.poststeps.deep_view(),
            status: self.status,
            created_at: self.created_at,
            updated_at: self.updated_at,
        }
    }
}

impl Clone for Task {
    fn clone(&self) -> (r: Self)
        ensures
            r.deep_view() == self.deep_view(),
    {
        let r = Task {
            id: self.id.clone(),
            project_id: self.project_id.clone(),
            title: self.title.clone(),
            description: self.description.clone(),
            steps: self.steps.clone(),
            presteps: self.presteps.clone(),
            poststeps: self.poststeps.clone(),
            status: self.status,
            created_at: self.created_at,
            updated_at: self.updated_at,
        };
        proof {
            assert(r.steps@ =~= self.steps@);
            assert(r.presteps@ =~= self.presteps@);
            assert(r.poststeps@ =~= self.poststeps@);
        }
        r
    }
}

/// A free-form rule attached to a project.
#[derive(Debug, PartialEq)]
pub struct AgentRule {
    pub id: String,
    pub name: String,
    pub description: Option<String>,
    pub created_at: i64,
    pub updated_at: i64,
}

/// The view of an [`AgentRule`].
#[verifier::ext_equal]
pub ghost struct AgentRuleV {
    pub id: Seq<char>,
    pub name: Seq<char>,
    pub description: Option<Seq<char>>,
    pub created_at: i64,
    pub updated_at: i64,
}

impl DeepView for AgentRule {
    type V = AgentRuleV;

    open spec fn deep_view(&self) -> AgentRuleV {
        AgentRuleV {
            id: self.id@,
            name: self.name@,
            description: self.description.deep_view(),
            created_at: self.created_at,
            updated_at: self.updated_at,
        }
    }
}

impl Clone for AgentRule {
    fn clone(&self) -> (r: Self)
        ensures
            r == *self,
    {
        let description = match &self.description {
            Some(d) => Some(d.clone()),
            None => None,
        };
        AgentRule {
            id: self.id.clone(),
            name: self.name.clone(),
            description,
            created_at: self.created_at,
            updated_at: self.updated_at,
        }
    }
}

/// A project with its nested rules and tasks.
#[derive(Debug, PartialEq)]
pub struct Project {
    pub id: String,
    pub name: String,
    pub path: String,
    pub rules: Vec<AgentRule>,
    pub tasks: Vec<Task>,
    pub created_at: i64,
    pub updated_at: i64,
}

/// The view of a [`Project`].
#[verifier::ext_equal]
pub ghost struct ProjectV {
    pub id: Seq<char>,
    pub name: Seq<char>,
    pub path: Seq<char>,
    pub rules: Seq<AgentRuleV>,
    pub tasks: Seq<TaskV>,
    pub created_at: i64,
    pub updated_at: i64,
}

impl DeepView for Project {
    type V = ProjectV;

    open spec fn deep_view(&self) -> ProjectV {
        ProjectV {
            id: self.id@,
            name: self.name@,
            path: self.path@,
            rules: self.rules.deep_view(),
            tasks: self.tasks.deep_view(),
            created_at: self.created_at,
            updated_at: self.updated_at,
        }
    }
}

impl Clone for Project {
    fn clone(&self) -> (r: Self)
        ensures
            r.deep_view() == self.deep_view(),
    {
        let r = Project {
            id: self.id.clone(),
            name: self.name.clone(),
            path: self.path.clone(),
            rules: self.rules.clone(),
            tasks: self.tasks.clone(),
            created_at: self.created_at,
            updated_at: self.updated_at,
        };
        proof {
            assert(r.rules@ =~= self.rules@);
            assert(r.tasks.deep_view() =~= self.tasks.deep_view());
        }
        r
    }
}

/// A chat thread owned by a project. `updated_at` is advanced to the
/// timestamp of the most recent message and never regresses.
#[derive(Debug, PartialEq)]
pub struct ChatThread {
    pub id: String,
    pub project_id: String,
    pub title: String,
    pub created_at: i64,
    pub updated_at: i64,
}

/// The view of a [`ChatThread`].
#[verifier::ext_equal]
pub ghost struct ChatThreadV {
    pub id: Seq<char>,
    pub project_id: Seq<char>,
    pub title: Seq<char>,
    pub created_at: i64,
    pub updated_at: i64,
}

impl DeepView for ChatThread {
    type V = ChatThreadV;

    open spec fn deep_view(&self) -> ChatThreadV {
        ChatThreadV {
            id: self.id@,
            project_id: self.project_id@,
            title: self.title@,
            created_at: self.created_at,
            updated_at: self.updated_at,
        }
    }
}

impl Clone for ChatThread {
    fn clone(&self) -> (r: Self)
        ensures
            r == *self,
    {
        ChatThread {
            id: self.id.clone(),
            project_id: self.project_id.clone(),
            title: self.title.clone(),
            created_at: self.created_at,
            updated_at: self.updated_at,
        }
    }
}

/// One message of a chat thread; append-only from the store's view.
#[derive(Debug, PartialEq)]
pub struct ChatMessage {
    pub id: String,
    pub thread_id: String,
    pub role: String,
    pub content: String,
    pub model: String,
    pub created_at: i64,
}

/// The view of a [`ChatMessage`].
#[verifier::ext_equal]
pub ghost struct ChatMessageV {
    pub id: Seq<char>,
    pub thread_id: Seq<char>,
    pub role: Seq<char>,
    pub content: Seq<char>,
    pub model: Seq<char>,
    pub created_at: i64,
}

impl DeepView for ChatMessage {
    type V = ChatMessageV;

    open spec fn deep_view(&self) -> ChatMessageV {
        ChatMessageV {
            id: self.id@,
            thread_id: self.thread_id@,
            role: self.role@,
            content: self.content@,
            model: self.model@,
            created_at: self.created_at,
        }
    }
}

impl Clone for ChatMessage {
    fn clone(&self) -> (r: Self)
        ensures
            r == *self,
    {
        ChatMessage {
            id: self.id.clone(),
            thread_id: self.thread_id.clone(),
            role: self.role.clone(),
            content: self.content.clone(),
            model: self.model.clone(),
            created_at: self.created_at,
        }
    }
}

} // verus!
