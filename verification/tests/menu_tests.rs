use java_manager::env_variable::EnvVariable;
use java_manager::menu_command::{
    main_menu_lines, main_menu_step, menu_commands, move_selection, version_menu_lines, MenuAction,
    MenuCommand, MenuDecision, MenuKey,
};

#[test]
fn standard_menu_entries() {
    let commands = menu_commands();
    let names: Vec<&str> = commands.iter().map(|c| c.get_command_name()).collect();
    assert_eq!(
        names,
        vec!["Print saved versions", "Print current version", "Add java version", "Remove java version", "Set java version"]
    );
    assert_eq!(commands[0].call_func(), MenuAction::PrintSavedVersions);
    assert_eq!(commands[4].call_func(), MenuAction::SetJavaVersion);
    let c = MenuCommand::create_instance("X", MenuAction::RemoveJavaVersion);
    assert_eq!(c.get_command_name(), "X");
    assert_eq!(c.call_func(), MenuAction::RemoveJavaVersion);
}

#[test]
fn main_menu_moves_within_bounds() {
    assert_eq!(main_menu_step(0, 5, MenuKey::Up, false), (0, MenuDecision::Nothing));
    assert_eq!(main_menu_step(0, 5, MenuKey::Down, false), (1, MenuDecision::Nothing));
    assert_eq!(main_menu_step(4, 5, MenuKey::Down, false), (4, MenuDecision::Nothing));
    assert_eq!(main_menu_step(3, 5, MenuKey::Up, false), (2, MenuDecision::Nothing));
    assert_eq!(main_menu_step(2, 5, MenuKey::Enter, false), (2, MenuDecision::RunSelected));
    assert_eq!(main_menu_step(2, 5, MenuKey::Esc, false), (2, MenuDecision::Exit));
    assert_eq!(main_menu_step(2, 5, MenuKey::Other, false), (2, MenuDecision::Nothing));
    assert_eq!(main_menu_step(2, 5, MenuKey::Enter, true), (2, MenuDecision::Nothing));
    assert_eq!(move_selection(1, 3, MenuKey::Down), 2);
}

#[test]
fn selection_stays_in_range_over_a_key_sequence() {
    let keys = [MenuKey::Up, MenuKey::Down, MenuKey::Down, MenuKey::Down, MenuKey::Down, MenuKey::Down, MenuKey::Down, MenuKey::Up];
    let mut selected = 0;
    for k in keys.iter() {
        selected = main_menu_step(selected, 5, *k, false).0;
        assert!(0 <= selected && selected < 5);
    }
    assert_eq!(selected, 3);
}

#[test]
fn main_menu_lines_mark_selected() {
    let commands = menu_commands();
    let lines = main_menu_lines(&commands, 1);
    assert_eq!(lines.len(), 5);
    assert_eq!(lines[1].head, "-> ");
    assert_eq!(lines[1].tail, "Print current version");
    assert!(lines[1].highlighted);
    assert_eq!(lines[0].head, "");
    assert!(!lines[0].highlighted);
}

#[test]
fn version_lines_show_name_and_path() {
    let versions = vec![EnvVariable::create_instance("JDK8", "/a"), EnvVariable::create_instance("JDK17", "/b")];
    let lines = version_menu_lines(&versions, Some(1));
    assert_eq!(lines[0].head, "JDK8");
    assert_eq!(lines[0].tail, ": /a");
    assert_eq!(lines[1].head, "-> JDK17");
    assert!(lines[1].highlighted);
    let plain = version_menu_lines(&versions, None);
    assert!(plain.iter().all(|l| !l.highlighted));
    assert_eq!(plain[1].head, "JDK17");
}
