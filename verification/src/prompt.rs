//! The coding system prompt, and the project context it is built from.

use vstd::prelude::*;

use crate::harness::AgentHarness;
use crate::text::{owned, push_str};
use crate::tool::ToolRegistry;
use crate::tools::{register_coding_tools, READ_DESCRIPTION, READ_SCHEMA};

verus! {

/// The opening of the system prompt, up to the working directory.
pub open spec fn prompt_head() -> Seq<char> {
    "You are vava, a coding agent operating inside a software repository.\n\nWorking directory:\n"@
}

/// The rest of the system prompt's fixed part, after the working directory.
pub open spec fn prompt_tail() -> Seq<char> {
    "\n\nUse the provided tools to inspect and modify the repository.\n\nGuidelines:\n- Inspect relevant code before modifying it.\n- Do not invent file contents.\n- Prefer minimal, focused changes.\n- Follow existing project conventions.\n- Run relevant tests after making changes.\n- If a tool fails, inspect the error and adjust your approach.\n- Use tools whenever repository information is required."@
}

/// The system prompt for a repository at `root`, with the project's
/// instructions appended when there are any.
pub open spec fn prompt_text(root: Seq<char>, instructions: Option<Seq<char>>) -> Seq<char> {
    let base = prompt_head() + root + prompt_tail();
    match instructions {
        Some(text) => base + "\n\nProject instructions:\n"@ + text,
        None => base,
    }
}

/// The default coding system prompt, with project instructions appended.
/// The repository tree is not part of it: the model discovers the
/// repository through the tools.
pub fn system_prompt(root: &str, project_instructions: Option<&str>) -> (r: String)
    ensures
        r@ == prompt_text(root@, match project_instructions { Some(t) => Some(t@), None => None }),
{
    let mut prompt = owned("You are vava, a coding agent operating inside a software repository.\n\nWorking directory:\n");
    push_str(&mut prompt, root);
    push_str(&mut prompt, "\n\nUse the provided tools to inspect and modify the repository.\n\nGuidelines:\n- Inspect relevant code before modifying it.\n- Do not invent file contents.\n- Prefer minimal, focused changes.\n- Follow existing project conventions.\n- Run relevant tests after making changes.\n- If a tool fails, inspect the error and adjust your approach.\n- Use tools whenever repository information is required.");
    match project_instructions {
        Some(instructions) => {
            push_str(&mut prompt, "\n\nProject instructions:\n");
            push_str(&mut prompt, instructions);
        },
        None => {},
    }
    prompt
}

/// Everything the coding session knows about the repository.
#[derive(Debug, Clone, PartialEq, Eq)]
pub struct ProjectContext {
    /// The workspace boundary for all tools.
    pub root: String,
    /// The contents of `<root>/AGENTS.md`, if present.
    pub agents_md: Option<String>,
}

impl ProjectContext {
    /// The harness of a coding session for this project: the coding tools
    /// registered, the coding system prompt, and the root as the tools'
    /// boundary, with an empty transcript.
    pub fn harness(&self) -> (r: AgentHarness)
        ensures
            r.transcript().len() == 0,
            r.system() == prompt_text(self.root@, match self.agents_md { Some(t) => Some(t@), None => None }),
            r.workspace() == self.root@,
            r.registry().registered().len() == 1,
            r.registry().registered()[0].name@ == "read"@,
            r.registry().registered()[0].description@ == READ_DESCRIPTION@,
            r.registry().registered()[0].parameters@ == READ_SCHEMA@,
    {
        let mut registry = ToolRegistry::new();
        register_coding_tools(&mut registry);
        let system = self.system_prompt();
        AgentHarness::new(registry, system.as_str(), self.root.as_str())
    }

    /// The system prompt for this project.
    pub fn system_prompt(&self) -> (r: String)
        ensures
            r@ == prompt_text(self.root@, match self.agents_md { Some(t) => Some(t@), None => None }),
    {
        match &self.agents_md {
            Some(text) => system_prompt(self.root.as_str(), Some(text.as_str())),
            None => system_prompt(self.root.as_str(), None),
        }
    }
}

/// Errors from building the project context.
#[derive(Debug, Clone, PartialEq, Eq)]
pub enum ContextError {
    /// The starting directory does not exist or cannot be resolved.
    WorkingDir(String),
    /// `AGENTS.md` exists but could not be read (the reason).
    AgentsMd(String),
}

/// The display text of a [`ContextError`].
pub open spec fn context_error_text(e: ContextError) -> Seq<char> {
    match e {
        ContextError::WorkingDir(p) => "working directory `"@ + p@ + "` does not exist"@,
        ContextError::AgentsMd(m) => "could not read AGENTS.md: "@ + m@,
    }
}

impl ContextError {
    /// The human-readable message for this error.
    pub fn to_string(&self) -> (r: String)
        ensures
            r@ == context_error_text(*self),
    {
        match self {
            ContextError::WorkingDir(p) => {
                let mut s = owned("working directory `");
                push_str(&mut s, p.as_str());
                push_str(&mut s, "` does not exist");
                s
            },
            ContextError::AgentsMd(m) => {
                let mut s = owned("could not read AGENTS.md: ");
                push_str(&mut s, m.as_str());
                s
            },
        }
    }
}

} // verus!
