use ssh_picker::app::{
    handle_action, nonempty, AppError, AppState, ConfirmContext, FormData, LoopControl, Mode,
};
use ssh_picker::ssh_config::{SshConfigFile, SshHostEntry};
use ssh_picker::ui::UiAction;

fn entry(pattern: &str, hostname: Option<&str>, user: Option<&str>) -> SshHostEntry {
    SshHostEntry {
        pattern: pattern.to_string(),
        hostname: hostname.map(|s| s.to_string()),
        user: user.map(|s| s.to_string()),
        port: None,
        other: Vec::new(),
    }
}

fn session(text: &str) -> (AppState, SshConfigFile) {
    let cfg = SshConfigFile::new("p".to_string(), text.to_string());
    let state = AppState::new(cfg.list_hosts());
    (state, cfg)
}

#[test]
fn matches_is_case_insensitive_over_three_fields() {
    let e = entry("Alpha", Some("Root.Example.COM"), Some("Deploy"));
    assert!(e.matches("alpha"));
    assert!(e.matches("root.example"));
    assert!(e.matches("deploy"));
    assert!(!e.matches("beta"));
    assert!(e.matches(""));
}

#[test]
fn filter_selects_matching_entries_in_order() {
    let hosts = vec![
        entry("a", None, Some("root")),
        entry("b", Some("root.example.com"), None),
        entry("c", None, None),
    ];
    let mut state = AppState::new(hosts);
    state.filter_text = "root".to_string();
    state.apply_filter();
    assert_eq!(state.filtered_hosts, vec![0, 1]);
}

#[test]
fn filter_is_a_subsequence_and_clamps_selection() {
    let hosts = vec![
        entry("alpha", None, None),
        entry("beta", None, None),
        entry("gamma", None, None),
    ];
    let mut state = AppState::new(hosts);
    state.selected_index = 2;
    state.filter_text = "a".to_string();
    state.apply_filter();
    assert_eq!(state.filtered_hosts, vec![0, 1, 2]);
    state.filter_text = "be".to_string();
    state.apply_filter();
    assert_eq!(state.filtered_hosts, vec![1]);
    assert_eq!(state.selected_index, 0);
    state.filter_text = "zzz".to_string();
    state.apply_filter();
    assert!(state.filtered_hosts.is_empty());
    assert_eq!(state.selected_index, 0);
}

#[test]
fn movement_stays_within_the_filtered_list() {
    let (mut state, mut cfg) = session("Host a\nHost b\nHost c\n");
    assert!(matches!(
        handle_action(UiAction::MoveDown, &mut state, &mut cfg),
        Ok(LoopControl::Continue)
    ));
    assert_eq!(state.selected_index, 1);
    handle_action(UiAction::MoveDown, &mut state, &mut cfg).unwrap();
    handle_action(UiAction::MoveDown, &mut state, &mut cfg).unwrap();
    assert_eq!(state.selected_index, 2);
    handle_action(UiAction::PageDown, &mut state, &mut cfg).unwrap();
    assert_eq!(state.selected_index, 2);
    handle_action(UiAction::MoveUp, &mut state, &mut cfg).unwrap();
    assert_eq!(state.selected_index, 1);
    handle_action(UiAction::PageUp, &mut state, &mut cfg).unwrap();
    assert_eq!(state.selected_index, 0);
    handle_action(UiAction::MoveUp, &mut state, &mut cfg).unwrap();
    assert_eq!(state.selected_index, 0);
}

#[test]
fn typing_in_filter_mode_narrows_the_list() {
    let (mut state, mut cfg) = session("Host alpha\nHost beta\n");
    handle_action(UiAction::BeginFilter, &mut state, &mut cfg).unwrap();
    assert_eq!(state.mode, Mode::Filter);
    handle_action(UiAction::InputChar('b'), &mut state, &mut cfg).unwrap();
    assert_eq!(state.filter_text, "b");
    assert_eq!(state.filtered_hosts, vec![1]);
    handle_action(UiAction::BackspaceFilter, &mut state, &mut cfg).unwrap();
    assert_eq!(state.filter_text, "");
    assert_eq!(state.filtered_hosts, vec![0, 1]);
    handle_action(UiAction::ClearFilter, &mut state, &mut cfg).unwrap();
    assert_eq!(state.mode, Mode::Normal);
    assert_eq!(state.filter_text, "");
}

#[test]
fn delete_needs_confirmation_and_enter_is_inert() {
    let (mut state, mut cfg) = session("Host a\n    Port 1\nHost b\n    Port 2\n");
    handle_action(UiAction::DeleteSelected, &mut state, &mut cfg).unwrap();
    assert_eq!(
        state.mode,
        Mode::Confirm(ConfirmContext::Delete { pattern: "a".to_string() })
    );
    let r = handle_action(UiAction::LaunchSelected, &mut state, &mut cfg).unwrap();
    assert_eq!(r, LoopControl::Continue);
    assert!(matches!(state.mode, Mode::Confirm(_)));
    handle_action(UiAction::InputChar('x'), &mut state, &mut cfg).unwrap();
    assert!(matches!(state.mode, Mode::Confirm(_)));
    handle_action(UiAction::InputChar('y'), &mut state, &mut cfg).unwrap();
    assert_eq!(state.mode, Mode::Normal);
    assert_eq!(cfg.text, "Host b\n    Port 2\n");
    assert_eq!(state.hosts.len(), 1);
    assert_eq!(state.hosts[0].pattern, "b");
}

#[test]
fn declining_a_confirmation_changes_nothing() {
    let (mut state, mut cfg) = session("Host a\n    Port 1\n");
    handle_action(UiAction::DeleteSelected, &mut state, &mut cfg).unwrap();
    handle_action(UiAction::InputChar('n'), &mut state, &mut cfg).unwrap();
    assert_eq!(state.mode, Mode::Normal);
    assert_eq!(cfg.text, "Host a\n    Port 1\n");
    assert_eq!(state.hosts.len(), 1);
}

#[test]
fn launch_hands_off_the_selected_pattern() {
    let (mut state, mut cfg) = session("Host a\nHost b\n");
    handle_action(UiAction::MoveDown, &mut state, &mut cfg).unwrap();
    let r = handle_action(UiAction::LaunchSelected, &mut state, &mut cfg).unwrap();
    assert_eq!(r, LoopControl::Launch("b".to_string()));
}

#[test]
fn quit_exits_the_loop() {
    let (mut state, mut cfg) = session("");
    let r = handle_action(UiAction::Quit, &mut state, &mut cfg).unwrap();
    assert_eq!(r, LoopControl::Exit);
}

#[test]
fn edit_selected_seeds_the_draft_from_the_entry() {
    let (mut state, mut cfg) =
        session("Host a\n    HostName 1.2.3.4\n    User alice\n    Port 2222\n");
    handle_action(UiAction::EditSelected, &mut state, &mut cfg).unwrap();
    match &state.mode {
        Mode::EditForm(f) => {
            assert!(f.is_editing);
            assert_eq!(f.pattern, "a");
            assert_eq!(f.hostname, "1.2.3.4");
            assert_eq!(f.user, "alice");
            assert_eq!(f.port, "2222");
            assert_eq!(f.current_field, 0);
        }
        m => panic!("expected an edit form, got {:?}", m),
    }
}

#[test]
fn new_host_seeds_an_empty_draft() {
    let (mut state, mut cfg) = session("");
    handle_action(UiAction::NewHost, &mut state, &mut cfg).unwrap();
    match &state.mode {
        Mode::EditForm(f) => {
            assert!(!f.is_editing);
            assert_eq!(f.pattern, "");
            assert_eq!(f.current_field, 0);
        }
        m => panic!("expected an edit form, got {:?}", m),
    }
}

#[test]
fn field_cursor_cycles_modulo_four() {
    let (mut state, mut cfg) = session("");
    handle_action(UiAction::NewHost, &mut state, &mut cfg).unwrap();
    handle_action(UiAction::FormPrevField, &mut state, &mut cfg).unwrap();
    match &state.mode {
        Mode::EditForm(f) => assert_eq!(f.current_field, 3),
        m => panic!("expected an edit form, got {:?}", m),
    }
    handle_action(UiAction::FormNextField, &mut state, &mut cfg).unwrap();
    match &state.mode {
        Mode::EditForm(f) => assert_eq!(f.current_field, 0),
        m => panic!("expected an edit form, got {:?}", m),
    }
}

#[test]
fn typing_lands_in_the_field_under_the_cursor() {
    let (mut state, mut cfg) = session("");
    handle_action(UiAction::NewHost, &mut state, &mut cfg).unwrap();
    handle_action(UiAction::InputChar('x'), &mut state, &mut cfg).unwrap();
    handle_action(UiAction::FormNextField, &mut state, &mut cfg).unwrap();
    handle_action(UiAction::InputChar('h'), &mut state, &mut cfg).unwrap();
    handle_action(UiAction::InputChar('i'), &mut state, &mut cfg).unwrap();
    handle_action(UiAction::BackspaceFilter, &mut state, &mut cfg).unwrap();
    match &state.mode {
        Mode::EditForm(f) => {
            assert_eq!(f.pattern, "x");
            assert_eq!(f.hostname, "h");
        }
        m => panic!("expected an edit form, got {:?}", m),
    }
}

#[test]
fn submitting_port_zero_is_rejected_and_keeps_the_draft() {
    let (mut state, mut cfg) = session("");
    let draft = FormData {
        is_editing: false,
        pattern: "x".to_string(),
        hostname: String::new(),
        user: String::new(),
        port: "0".to_string(),
        current_field: 3,
    };
    state.mode = Mode::EditForm(draft.clone());
    let r = handle_action(UiAction::FormSubmit, &mut state, &mut cfg);
    assert_eq!(r, Err(AppError::InvalidPort));
    assert_eq!(state.mode, Mode::EditForm(draft));
    assert_eq!(cfg.text, "");
}

#[test]
fn submitting_a_bad_port_is_rejected() {
    let (mut state, mut cfg) = session("");
    state.mode = Mode::EditForm(FormData {
        is_editing: false,
        pattern: "x".to_string(),
        hostname: String::new(),
        user: String::new(),
        port: "many".to_string(),
        current_field: 0,
    });
    let r = handle_action(UiAction::FormSubmit, &mut state, &mut cfg);
    assert_eq!(r, Err(AppError::InvalidPort));
    assert!(matches!(state.mode, Mode::EditForm(_)));
}

#[test]
fn submitting_a_valid_form_upserts_and_returns_to_browse() {
    let (mut state, mut cfg) = session("");
    state.mode = Mode::EditForm(FormData {
        is_editing: false,
        pattern: "  x  ".to_string(),
        hostname: " 1.2.3.4 ".to_string(),
        user: "   ".to_string(),
        port: " 22 ".to_string(),
        current_field: 0,
    });
    let r = handle_action(UiAction::FormSubmit, &mut state, &mut cfg).unwrap();
    assert_eq!(r, LoopControl::Continue);
    assert_eq!(state.mode, Mode::Normal);
    assert_eq!(cfg.text, "Host x\n    HostName 1.2.3.4\n    Port 22\n\n");
    assert_eq!(state.hosts.len(), 1);
    assert_eq!(state.hosts[0].user, None);
}

#[test]
fn form_cancel_discards_the_draft() {
    let (mut state, mut cfg) = session("");
    handle_action(UiAction::NewHost, &mut state, &mut cfg).unwrap();
    handle_action(UiAction::FormCancel, &mut state, &mut cfg).unwrap();
    assert_eq!(state.mode, Mode::Normal);
    assert_eq!(cfg.text, "");
}

#[test]
fn selection_stays_clamped_after_deletion() {
    let (mut state, mut cfg) = session("Host a\nHost b\n");
    handle_action(UiAction::MoveDown, &mut state, &mut cfg).unwrap();
    assert_eq!(state.selected_index, 1);
    handle_action(UiAction::DeleteSelected, &mut state, &mut cfg).unwrap();
    handle_action(UiAction::InputChar('y'), &mut state, &mut cfg).unwrap();
    assert_eq!(state.hosts.len(), 1);
    assert_eq!(state.filtered_hosts, vec![0]);
    assert_eq!(state.selected_index, 0);
}

#[test]
fn nonempty_drops_blank_strings_and_keeps_others_untrimmed() {
    assert_eq!(nonempty("   ".to_string()), None);
    assert_eq!(nonempty("".to_string()), None);
    assert_eq!(nonempty(" a ".to_string()), Some(" a ".to_string()));
}

#[test]
fn selected_host_is_none_on_an_empty_list() {
    let state = AppState::new(Vec::new());
    assert!(state.selected_host().is_none());
}

#[test]
fn empty_filter_shows_every_host_in_order() {
    let hosts = vec![entry("b", None, None), entry("a", None, None)];
    let mut state = AppState::new(hosts);
    state.apply_filter();
    assert_eq!(state.filtered_hosts, vec![0, 1]);
}

#[test]
fn actions_that_need_a_selection_do_nothing_on_an_empty_list() {
    let (mut state, mut cfg) = session("");
    handle_action(UiAction::EditSelected, &mut state, &mut cfg).unwrap();
    assert_eq!(state.mode, Mode::Normal);
    handle_action(UiAction::DeleteSelected, &mut state, &mut cfg).unwrap();
    assert_eq!(state.mode, Mode::Normal);
    let r = handle_action(UiAction::LaunchSelected, &mut state, &mut cfg).unwrap();
    assert_eq!(r, LoopControl::Continue);
}

#[test]
fn events_carry_actions_or_ticks() {
    let e = ssh_picker::ui::Event::Action(UiAction::Quit);
    assert!(matches!(e, ssh_picker::ui::Event::Action(UiAction::Quit)));
    let t = ssh_picker::ui::Event::Tick;
    assert!(matches!(t, ssh_picker::ui::Event::Tick));
}
