use vagga_core::completion::ChildCommand;
use vagga_core::completion::CompletionState;
use vagga_core::completion::MainCommand;
use vagga_core::completion::State;

fn sample_state() -> CompletionState {
    let commands = vec![
        (
            "run".to_string(),
            MainCommand::Command(Some("Run the app".to_string()), true),
        ),
        (
            "sup".to_string(),
            MainCommand::Supervise(
                None,
                vec![
                    (
                        "web".to_string(),
                        ChildCommand { description: Some("Web server".to_string()), tags: vec!["t1".to_string()] },
                    ),
                    (
                        "db".to_string(),
                        ChildCommand { description: None, tags: vec![] },
                    ),
                ],
            ),
        ),
    ];
    let containers = vec!["ubuntu".to_string(), "alpine".to_string()];
    CompletionState::new(commands, containers)
}

#[test]
fn a_user_command_moves_to_its_state() {
    let mut st = sample_state();
    st.trans("run");
    assert_eq!(st.state, State::UserCmd(0));
}

#[test]
fn a_supervise_command_and_its_options() {
    let mut st = sample_state();
    st.trans("sup");
    assert_eq!(st.state, State::SuperviseCmd(1));
    st.trans("--only");
    assert_eq!(st.state, State::SuperviseOption(1, 0));
    st.trans("web");
    assert_eq!(st.state, State::SuperviseOptionArg(1, 0));
    assert_eq!(st.supervise_chosen_children, vec!["web".to_string()]);
    // --only takes an argument, so a bare word offers only children.
    let groups = st.complete("");
    assert_eq!(groups.len(), 1);
    assert_eq!(groups[0].name, "supervise child");
    // web was chosen: only its tag and the other child remain.
    assert_eq!(groups[0].completions.len(), 2);
    // A word that looks like an option offers the options too.
    let with_opts = st.complete("-");
    assert_eq!(with_opts.len(), 2);
    assert_eq!(with_opts[1].name, "supervise option");
}

#[test]
fn a_builtin_command_offers_containers_and_options() {
    let mut st = sample_state();
    st.trans("_build");
    assert_eq!(st.state, State::BuiltinCmd(0));
    let groups = st.complete("-");
    assert_eq!(groups.len(), 2);
    assert_eq!(groups[0].name, "container");
    assert_eq!(groups[0].completions.len(), 2);
    assert_eq!(groups[1].name, "command option");
    assert_eq!(groups[1].completions.len(), 1);
}

#[test]
fn the_global_position_lists_commands_and_options() {
    let st = sample_state();
    let groups = st.complete("");
    assert_eq!(groups.len(), 2);
    assert_eq!(groups[0].name, "user command");
    assert_eq!(groups[0].completions.len(), 2);
    assert_eq!(groups[1].name, "global option");
    assert_eq!(groups[1].completions.len(), 7);
    let with_builtin = st.complete("_");
    assert_eq!(with_builtin.len(), 3);
    assert_eq!(with_builtin[1].name, "builtin command");
}

#[test]
fn a_single_global_option_is_not_offered_twice() {
    let mut st = sample_state();
    st.trans("-V");
    assert_eq!(st.state, State::GlobalOption(0));
    let groups = st.complete("");
    assert_eq!(groups[0].name, "user command");
    // -V was used up; 6 of the 7 global options remain.
    assert_eq!(groups[1].name, "global option");
    assert_eq!(groups[1].completions.len(), 6);
}

#[test]
fn an_option_argument_returns_to_command_position() {
    let mut st = sample_state();
    st.trans("-E");
    assert_eq!(st.state, State::GlobalOption(1));
    st.trans("X=1");
    assert_eq!(st.state, State::GlobalOptionArg(1));
    st.trans("run");
    assert_eq!(st.state, State::UserCmd(0));
}
