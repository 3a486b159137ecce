use orchestrator_loop_for_ai::string_map::StringMap;
use orchestrator_loop_for_ai::workspace::{AgentConfig, Workspace};

#[test]
fn test_agent_config_default() {
    let mut agents = StringMap::new();
    agents.insert("default".to_string(), "gemini".to_string());
    let config = AgentConfig {
        command_template: "gemini -m {agent}".to_string(),
        agents,
        state_agents: StringMap::new(),
    };
    assert_eq!(config.get_command_for_state("any"), "gemini -m gemini");
}

#[test]
fn test_agent_config_override() {
    let mut agents = StringMap::new();
    agents.insert("default".to_string(), "gemini".to_string());
    let mut state_agents = StringMap::new();
    state_agents.insert("ai-design".to_string(), "designer".to_string());
    let config = AgentConfig {
        command_template: "kiro --agent {agent}".to_string(),
        agents,
        state_agents,
    };
    assert_eq!(config.get_command_for_state("ai-design"), "kiro --agent designer");
    assert_eq!(config.get_command_for_state("ai-requirements"), "kiro --agent gemini");
}

#[test]
fn agent_config_falls_back_to_gemini_and_replaces_every_placeholder() {
    let config = AgentConfig {
        command_template: "{agent} --name {agent}".to_string(),
        agents: StringMap::new(),
        state_agents: StringMap::new(),
    };
    assert_eq!(config.get_command_for_state("x"), "gemini --name gemini");
}

#[test]
fn default_agent_config_uses_agy() {
    let config = AgentConfig::default_config();
    assert_eq!(config.command_template, "agy --dangerously-skip-permissions --print {prompt}");
    assert_eq!(config.agents.get("default"), Some(&"agy".to_string()));
    assert_eq!(
        config.get_command_for_state("ai-review"),
        "agy --dangerously-skip-permissions --print {prompt}"
    );
}

#[test]
fn issue_dir_is_repo_dash_number_under_base() {
    let ws = Workspace { base_dir: "/home/u/ai-workspaces".to_string() };
    assert_eq!(ws.get_issue_dir("proj", 42), "/home/u/ai-workspaces/proj-42");
    let ws2 = Workspace { base_dir: "/base/".to_string() };
    assert_eq!(ws2.get_issue_dir("r", 0), "/base/r-0");
    assert_eq!(ws2.get_issue_dir("/abs", 7), "/abs-7");
}

#[test]
fn audit_and_config_paths() {
    let ws = Workspace { base_dir: "/w".to_string() };
    assert_eq!(ws.audit_dir_path("proj", 18446744073709551615), "/w/audit/proj/18446744073709551615");
    assert_eq!(ws.config_path(), "/w/config.yaml");
}

#[test]
fn issue_dirs_are_distinct_children_of_base() {
    let ws = Workspace { base_dir: "/h/ai-workspaces".to_string() };
    assert_eq!(ws.get_issue_dir("my-project", 42), "/h/ai-workspaces/my-project-42");
    assert_ne!(ws.get_issue_dir("a-1", 2), ws.get_issue_dir("a", 12));
    assert_ne!(ws.get_issue_dir("a-1", 2), ws.get_issue_dir("a-12", 2));
}
