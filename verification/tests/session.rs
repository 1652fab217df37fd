use slopwrap::session::{
    agent_env_vars, choose_action, exit_code, overlay_layout, present_vars, session_next,
    tool_binds, tool_config_path, tool_state_file_path, tool_state_path, Action, Event,
    LayoutError, Stage, Step,
};

const HOME: &str = "/home/fake";
const TOOL: &str = "agent";

#[test]
fn claude_binds_includes_dot_claude_when_exists() {
    let binds = tool_binds(HOME, TOOL, false, false);
    assert!(binds.contains(&format!("{HOME}/.agent")));
}

#[test]
fn claude_binds_creates_and_includes_dot_claude_when_missing() {
    let binds = tool_binds(HOME, TOOL, false, false);
    assert!(binds.contains(&format!("{HOME}/.agent")));
}

#[test]
fn claude_binds_includes_config_claude_when_exists() {
    let binds = tool_binds(HOME, TOOL, true, false);
    assert!(binds.contains(&format!("{HOME}/.config/agent")));
}

#[test]
fn claude_binds_omits_config_claude_when_missing() {
    let binds = tool_binds(HOME, TOOL, false, false);
    assert!(!binds.contains(&format!("{HOME}/.config/agent")));
}

#[test]
fn claude_binds_includes_claude_json_when_exists() {
    let binds = tool_binds(HOME, TOOL, false, true);
    assert!(binds.contains(&format!("{HOME}/.agent.json")));
}

#[test]
fn claude_binds_omits_claude_json_when_missing() {
    let binds = tool_binds(HOME, TOOL, false, false);
    assert!(!binds.contains(&format!("{HOME}/.agent.json")));
}

#[test]
fn claude_binds_includes_all_when_all_exist() {
    let binds = tool_binds(HOME, TOOL, true, true);
    assert_eq!(binds.len(), 3);
    assert_eq!(
        binds,
        vec![
            format!("{HOME}/.config/agent"),
            format!("{HOME}/.agent"),
            format!("{HOME}/.agent.json"),
        ]
    );
}

#[test]
fn claude_binds_only_dot_claude_when_nothing_else_exists() {
    let binds = tool_binds(HOME, TOOL, false, false);
    assert_eq!(binds.len(), 1);
    assert!(binds.contains(&format!("{HOME}/.agent")));
}

#[test]
fn tool_paths_exact() {
    assert_eq!(tool_config_path("/h", "x"), "/h/.config/x");
    assert_eq!(tool_state_path("/h", "x"), "/h/.x");
    assert_eq!(tool_state_file_path("/h", "x"), "/h/.x.json");
}

#[test]
fn actions_from_answers() {
    assert_eq!(choose_action(false, Some("a\n")), Action::Apply);
    assert_eq!(choose_action(false, Some("  Apply \r\n")), Action::Apply);
    assert_eq!(choose_action(false, Some("APPLY")), Action::Apply);
    assert_eq!(choose_action(false, Some("d")), Action::Discard);
    assert_eq!(choose_action(false, Some("\tDisCard\u{3000}")), Action::Discard);
    assert_eq!(choose_action(false, Some("k")), Action::Keep);
    assert_eq!(choose_action(false, Some("")), Action::Keep);
    assert_eq!(choose_action(false, Some("applyx")), Action::Keep);
    assert_eq!(choose_action(false, None), Action::Keep);
    assert_eq!(choose_action(true, Some("a")), Action::Keep);
}

#[test]
fn layout_choices() {
    let d = overlay_layout("/base", None, None).unwrap();
    assert_eq!(d.upperdir, "/base/upper");
    assert_eq!(d.workdir, "/base/work");
    let d = overlay_layout("/base", Some("/o".to_string()), Some("/w".to_string())).unwrap();
    assert_eq!(d.upperdir, "/o");
    assert_eq!(d.workdir, "/w");
    assert!(matches!(
        overlay_layout("/base", Some("/o".to_string()), None),
        Err(LayoutError::OutputAndWorkDirApart)
    ));
    assert!(matches!(
        overlay_layout("/base", None, Some("/w".to_string())),
        Err(LayoutError::OutputAndWorkDirApart)
    ));
}

#[test]
fn agent_env_passthrough() {
    let names = agent_env_vars();
    assert_eq!(names.len(), 4);
    assert_eq!(names[0], "ANTHROPIC_API_KEY");
    let values = vec![None, Some("k".to_string()), None, Some("/cfg".to_string())];
    let vars = present_vars(&names, &values);
    assert_eq!(
        vars,
        vec![
            ("CLAUDE_CODE_API_KEY".to_string(), "k".to_string()),
            ("CLAUDE_CONFIG_DIR".to_string(), "/cfg".to_string()),
        ]
    );
}

#[test]
fn exit_codes() {
    assert_eq!(exit_code(Some(42)), 42);
    assert_eq!(exit_code(Some(0)), 0);
    assert_eq!(exit_code(None), 1);
}

#[test]
fn session_with_changes_carries_decision_and_keeps_code() {
    let (s, step) = session_next(Stage::Running, Event::Exited(Some(42)));
    assert_eq!(s, Stage::Inspecting { code: 42 });
    assert_eq!(step, Step::Inspect);
    let (s, step) = session_next(s, Event::Inspected { has_changes: true });
    assert_eq!(s, Stage::Deciding { code: 42 });
    assert_eq!(step, Step::ShowChanges);
    let (s, step) = session_next(s, Event::Decided(Action::Apply));
    assert_eq!(s, Stage::Done { code: 42 });
    assert_eq!(step, Step::Carry(Action::Apply));
}

#[test]
fn session_without_changes_reports_and_ends() {
    let (s, _) = session_next(Stage::Running, Event::Exited(None));
    assert_eq!(s, Stage::Inspecting { code: 1 });
    let (s, step) = session_next(s, Event::Inspected { has_changes: false });
    assert_eq!(s, Stage::Done { code: 1 });
    assert_eq!(step, Step::ReportNoChanges);
}

#[test]
fn session_ignores_events_out_of_turn() {
    let (s, step) = session_next(Stage::Running, Event::Decided(Action::Apply));
    assert_eq!(s, Stage::Running);
    assert_eq!(step, Step::Ignore);
    let done = Stage::Done { code: 0 };
    assert_eq!(session_next(done, Event::Exited(Some(3))), (done, Step::Ignore));
    let deciding = Stage::Deciding { code: 7 };
    assert_eq!(
        session_next(deciding, Event::Inspected { has_changes: true }),
        (deciding, Step::Ignore)
    );
}

#[test]
fn keep_flag_ignores_answer() {
    assert_eq!(choose_action(true, Some("apply")), Action::Keep);
    assert_eq!(choose_action(true, Some("d")), Action::Keep);
    assert_eq!(choose_action(true, None), Action::Keep);
}
