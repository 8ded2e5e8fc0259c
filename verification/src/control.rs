//! The daemon's command rules: which commands a running agent refuses, the
//! built-in model cycle, and the bookkeeping of runs.
use vstd::prelude::*;
use crate::protocol::{copy_model, ModelInfo, ModelView};
use crate::text::{chars_of, string_of};

verus! {

/// Commands that need the agent to be idle.
#[derive(Debug, Clone, Copy, PartialEq, Eq, Structural)]
pub enum IdleCommand {
    Prompt,
    SetModel,
    SetThinking,
    CycleModel,
    LoadSession,
    NewSession,
    ForkSession,
}

/// The refusal of a command while a run is active.
pub open spec fn busy_text(c: IdleCommand) -> Seq<char> {
    match c {
        IdleCommand::Prompt => "A run is already in progress. Abort first or wait for it to complete."@,
        IdleCommand::SetModel => "Cannot change model while a run is active. Abort first."@,
        IdleCommand::SetThinking => "Cannot change thinking level while a run is active. Abort first."@,
        IdleCommand::CycleModel => "Cannot cycle model while a run is active. Abort first."@,
        IdleCommand::LoadSession => "Cannot load session while a run is active. Abort first."@,
        IdleCommand::NewSession => "Cannot create new session while a run is active. Abort first."@,
        IdleCommand::ForkSession => "Cannot fork session while a run is active. Abort first."@,
    }
}

/// Whether a command may go ahead: refused, with its message, while a run
/// is active.
pub fn check_idle(running: bool, c: IdleCommand) -> (r: Result<(), String>)
    ensures
        running ==> (r matches Err(m) && m@ == busy_text(c)),
        !running ==> r is Ok,
{
    if !running {
        return Ok(());
    }
    let m = match c {
        IdleCommand::Prompt => "A run is already in progress. Abort first or wait for it to complete.",
        IdleCommand::SetModel => "Cannot change model while a run is active. Abort first.",
        IdleCommand::SetThinking => "Cannot change thinking level while a run is active. Abort first.",
        IdleCommand::CycleModel => "Cannot cycle model while a run is active. Abort first.",
        IdleCommand::LoadSession => "Cannot load session while a run is active. Abort first.",
        IdleCommand::NewSession => "Cannot create new session while a run is active. Abort first.",
        IdleCommand::ForkSession => "Cannot fork session while a run is active. Abort first.",
    };
    Err(m.to_string())
}

/// The models that `cycle_model` steps through, in order.
pub open spec fn cycle_list() -> Seq<ModelView> {
    seq![
        ("fake"@, "default"@, "Fake"@, 128_000u32, false, true),
        ("openai"@, "gpt-5.5"@, "GPT-5.5"@, 200_000u32, true, true),
        ("openai"@, "gpt-5-codex"@, "GPT-5 Codex"@, 200_000u32, true, true),
        ("deepseek"@, "deepseek-v4-flash"@, "DeepSeek V4 Flash"@, 128_000u32, true, true),
    ]
}

fn model(provider: &str, id: &str, display: &str, window: u32, reasoning: bool) -> (r: ModelInfo)
    ensures
        r@ == (provider@, id@, display@, window, reasoning, true),
{
    ModelInfo {
        provider: string_of(&chars_of(provider)),
        id: string_of(&chars_of(id)),
        display_name: string_of(&chars_of(display)),
        context_window: window,
        supports_reasoning: reasoning,
        supports_tools: true,
    }
}

/// The models that `cycle_model` steps through.
pub fn cycle_models() -> (r: Vec<ModelInfo>)
    ensures
        r@.map_values(|m: ModelInfo| m@) == cycle_list(),
{
    let mut v: Vec<ModelInfo> = Vec::new();
    v.push(model("fake", "default", "Fake", 128_000, false));
    v.push(model("openai", "gpt-5.5", "GPT-5.5", 200_000, true));
    v.push(model("openai", "gpt-5-codex", "GPT-5 Codex", 200_000, true));
    v.push(model("deepseek", "deepseek-v4-flash", "DeepSeek V4 Flash", 128_000, true));
    assert(v@.map_values(|m: ModelInfo| m@) =~= cycle_list());
    v
}

/// Where a model stands in the cycle: the first entry with its provider and
/// id, or the start.
pub open spec fn cycle_index(provider: Seq<char>, id: Seq<char>) -> int {
    if provider == cycle_list()[0].0 && id == cycle_list()[0].1 {
        0
    } else if provider == cycle_list()[1].0 && id == cycle_list()[1].1 {
        1
    } else if provider == cycle_list()[2].0 && id == cycle_list()[2].1 {
        2
    } else if provider == cycle_list()[3].0 && id == cycle_list()[3].1 {
        3
    } else {
        0
    }
}

/// The model after the given one in the cycle.
pub open spec fn next_in_cycle(provider: Seq<char>, id: Seq<char>) -> ModelView {
    cycle_list()[(cycle_index(provider, id) + 1) % 4]
}

/// The model that `cycle_model` switches to from the current one.
pub fn next_model(current: &ModelInfo) -> (r: ModelInfo)
    ensures
        r@ == next_in_cycle(current.provider@, current.id@),
{
    let models = cycle_models();
    let mut idx: usize = 0;
    let mut i: usize = 0;
    let mut found = false;
    assert(models@.map_values(|m: ModelInfo| m@) == cycle_list());
    while i < models.len() && !found
        invariant
            i <= models.len() == 4,
            models@.map_values(|m: ModelInfo| m@) == cycle_list(),
            idx < 4,
            found ==> idx == cycle_index(current.provider@, current.id@),
            !found ==> idx == 0,
            !found ==> forall|k: int| 0 <= k < i ==> !(cycle_list()[k].0 == current.provider@ && cycle_list()[k].1 == current.id@),
        decreases models.len() - i, (if found { 0int } else { 1int }),
    {
        assert(models@[i as int]@ == cycle_list()[i as int]);
        if crate::json::str_eq(models[i].provider.as_str(), current.provider.as_str())
            && crate::json::str_eq(models[i].id.as_str(), current.id.as_str()) {
            idx = i;
            found = true;
        } else {
            i += 1;
        }
    }
    let next = (idx + 1) % 4;
    assert(models@[next as int]@ == cycle_list()[next as int]);
    copy_model(&models[next])
}

/// Cycling through the models from one in the list comes back to it after
/// as many steps as the list has models.
pub proof fn law_cycle_returns(k: int)
    requires
        0 <= k < 4,
    ensures
        ({
            let m1 = next_in_cycle(cycle_list()[k].0, cycle_list()[k].1);
            let m2 = next_in_cycle(m1.0, m1.1);
            let m3 = next_in_cycle(m2.0, m2.1);
            let m4 = next_in_cycle(m3.0, m3.1);
            m4 == cycle_list()[k]
        }),
{
    reveal_strlit("fake");
    reveal_strlit("default");
    reveal_strlit("openai");
    reveal_strlit("gpt-5.5");
    reveal_strlit("gpt-5-codex");
    reveal_strlit("deepseek");
    reveal_strlit("deepseek-v4-flash");
    assert("fake"@.len() == 4 && "openai"@.len() == 6 && "deepseek"@.len() == 8);
    assert("default"@.len() == 7 && "gpt-5.5"@.len() == 7 && "gpt-5-codex"@.len() == 11);
    assert("default"@[0] != "gpt-5.5"@[0]);
    assert(cycle_index(cycle_list()[0].0, cycle_list()[0].1) == 0);
    assert(cycle_index(cycle_list()[1].0, cycle_list()[1].1) == 1);
    assert(cycle_index(cycle_list()[2].0, cycle_list()[2].1) == 2);
    assert(cycle_index(cycle_list()[3].0, cycle_list()[3].1) == 3);
}

/// The model that `set_model` selects: the given provider and id, with the
/// defaults of an unknown model.
pub fn selected_model(provider: String, model_id: String) -> (r: ModelInfo)
    ensures
        r@ == (provider@, model_id@, Seq::<char>::empty(), 128_000u32, false, true),
{
    ModelInfo {
        provider,
        id: model_id,
        display_name: string_of(&Vec::new()),
        context_window: 128_000,
        supports_reasoning: false,
        supports_tools: true,
    }
}

/// Whether the agent is running, and which run.
#[derive(Debug)]
pub enum RunStatus {
    Idle,
    Running { run_id: String },
}

impl RunStatus {
    pub fn is_running(&self) -> (r: bool)
        ensures
            r == (self is Running),
    {
        match self {
            RunStatus::Idle => false,
            RunStatus::Running { .. } => true,
        }
    }

    /// The active run.
    pub fn run_id(&self) -> (r: Option<&str>)
        ensures
            match self {
                RunStatus::Idle => r is None,
                RunStatus::Running { run_id } => r matches Some(x) && x@ == run_id@,
            },
    {
        match self {
            RunStatus::Idle => None,
            RunStatus::Running { run_id } => Some(run_id.as_str()),
        }
    }

    /// A finished run makes the agent idle only if it is still the active
    /// run: a newer run is not disturbed.
    pub fn finish(&mut self, run_id: &str)
        ensures
            match *old(self) {
                RunStatus::Running { run_id: active } => if active@ == run_id@ {
                    *final(self) is Idle
                } else {
                    *final(self) == *old(self)
                },
                RunStatus::Idle => *final(self) is Idle,
            },
    {
        let same = match self {
            RunStatus::Running { run_id: active } => crate::json::str_eq(active.as_str(), run_id),
            RunStatus::Idle => false,
        };
        if same {
            *self = RunStatus::Idle;
        }
    }
}

} // verus!
