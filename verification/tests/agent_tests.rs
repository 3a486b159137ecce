use orchestrator_loop_for_ai::agent::Agent;

#[test]
fn prompt_placeholder_becomes_one_argument() {
    let agent = Agent::new("agy --dangerously-skip-permissions --print {prompt}".to_string());
    let inv = agent.invocation("do the thing now");
    assert_eq!(inv.program, "agy");
    assert_eq!(
        inv.args,
        vec![
            "--dangerously-skip-permissions".to_string(),
            "--print".to_string(),
            "do the thing now".to_string()
        ]
    );
    assert!(!inv.prompt_via_stdin);
}

#[test]
fn without_placeholder_prompt_goes_to_stdin() {
    let agent = Agent::new("gemini".to_string());
    let inv = agent.invocation("hello world");
    assert_eq!(inv.program, "gemini");
    assert!(inv.args.is_empty());
    assert!(inv.prompt_via_stdin);

    let agent = Agent::new("gemini  -m   pro".to_string());
    let inv = agent.invocation("p");
    assert_eq!(inv.program, "gemini");
    assert_eq!(inv.args, vec!["-m".to_string(), "pro".to_string()]);
}

#[test]
fn placeholder_in_program_position_fills_the_resolved_command() {
    let agent = Agent::new("{prompt}".to_string());
    let inv = agent.invocation("ls -la");
    assert_eq!(inv.program, "ls");
    assert!(inv.args.is_empty());
    assert!(!inv.prompt_via_stdin);
}

#[test]
fn embedded_placeholder_is_not_a_separate_argument() {
    let agent = Agent::new("tool --p={prompt}".to_string());
    let inv = agent.invocation("x y");
    assert_eq!(inv.args, vec!["--p={prompt}".to_string()]);
}
