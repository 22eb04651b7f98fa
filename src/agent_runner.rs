//! What an agent run is told about its context.

use vstd::prelude::*;
use crate::text::owned;

verus! {

broadcast use vstd::string::group_string_axioms;

/// Where agent runs execute.
#[derive(Debug, Clone, Copy, PartialEq, Eq, Structural)]
pub enum AgentRunnerMode {
    Container,
    Api,
}

/// The mode that the setting names: `api` selects direct API calls, and
/// anything else, or no setting, selects containers.
pub fn agent_runner_mode(setting: Option<&str>) -> (r: AgentRunnerMode)
    ensures
        r == (if setting.is_some() && setting.unwrap()@ == "api"@ {
            AgentRunnerMode::Api
        } else {
            AgentRunnerMode::Container
        }),
{
    match setting {
        Some(s) => if crate::text::str_eq(s, "api") {
            AgentRunnerMode::Api
        } else {
            AgentRunnerMode::Container
        },
        None => AgentRunnerMode::Container,
    }
}

/// The input of one agent run.
#[derive(Debug, Clone)]
pub struct ContainerInput {
    pub prompt: String,
    pub session_id: Option<String>,
    pub group_folder: String,
    pub chat_jid: String,
    pub is_main: bool,
    pub is_scheduled_task: bool,
}

/// The system prompt of a run: who the assistant is, whether it runs in the
/// main or an isolated context, whether it is a scheduled task, and the
/// group folder.
pub open spec fn system_prompt(is_main: bool, is_scheduled_task: bool, group_folder: Seq<char>) -> Seq<char> {
    "You are an AI assistant.\n\n"@ + (if is_main {
        "You are running in the main context.\n"@
    } else {
        "You are running in an isolated context.\n"@
    }) + (if is_scheduled_task {
        "This is a scheduled task.\n"@
    } else {
        Seq::<char>::empty()
    }) + "Group folder: "@ + group_folder + "\n"@
}

pub fn build_system_prompt(input: &ContainerInput) -> (r: String)
    ensures
        r@ == system_prompt(input.is_main, input.is_scheduled_task, input.group_folder@),
{
    let mut prompt = owned("You are an AI assistant.\n\n");
    if input.is_main {
        prompt.append("You are running in the main context.\n");
    } else {
        prompt.append("You are running in an isolated context.\n");
    }
    let ghost before = prompt@;
    if input.is_scheduled_task {
        prompt.append("This is a scheduled task.\n");
    } else {
        assert(prompt@ =~= before + Seq::<char>::empty());
    }
    prompt.append("Group folder: ");
    prompt.append(input.group_folder.as_str());
    prompt.append("\n");
    prompt
}

} // verus!
