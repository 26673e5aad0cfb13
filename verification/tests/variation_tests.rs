use java_manager::file_utils::{extract_variables_from_content, set_java_home};
use java_manager::env_variable::EnvVariable;
use java_manager::menu_command::MenuKey;
use java_manager::variation::{CurrentVersion, LinuxVariation, SelectionDecision, WinVariation};

fn versions() -> Vec<EnvVariable> {
    vec![EnvVariable::create_instance("JDK11", "/usr/lib/jvm/java-11"), EnvVariable::create_instance("JDK17", "C:\\java17")]
}

#[test]
fn linux_current_version() {
    let globals = vec![
        EnvVariable::create_instance("PATH", "$PATH"),
        EnvVariable::create_instance("JAVA_HOME", "/usr/lib/jvm/java-11/bin"),
    ];
    match LinuxVariation().current_version(&globals, &versions()) {
        CurrentVersion::Current(v) => assert_eq!(v.get_variable_name(), "JDK11"),
        _ => panic!("expected the saved version"),
    }
    let unknown = vec![EnvVariable::create_instance("JAVA_HOME", "/elsewhere/bin")];
    assert!(matches!(LinuxVariation().current_version(&unknown, &versions()), CurrentVersion::Unlisted));
    assert!(matches!(LinuxVariation().current_version(&Vec::new(), &versions()), CurrentVersion::NotSet));
}

#[test]
fn windows_current_version() {
    match WinVariation().current_version(Some("C:\\java17\\bin"), &versions()) {
        CurrentVersion::Current(v) => assert_eq!(v.get_variable_name(), "JDK17"),
        _ => panic!("expected the saved version"),
    }
    assert!(matches!(WinVariation().current_version(Some("D:\\x"), &versions()), CurrentVersion::Unlisted));
    assert!(matches!(WinVariation().current_version(None, &versions()), CurrentVersion::NotSet));
}

#[test]
fn pickers() {
    assert_eq!(LinuxVariation().version_selection_step(0, 2, MenuKey::Down), (1, SelectionDecision::Nothing));
    assert_eq!(LinuxVariation().version_selection_step(1, 2, MenuKey::Down), (1, SelectionDecision::Nothing));
    assert_eq!(LinuxVariation().version_selection_step(1, 2, MenuKey::Enter), (1, SelectionDecision::Choose));
    assert_eq!(LinuxVariation().version_selection_step(1, 2, MenuKey::Esc), (1, SelectionDecision::Nothing));
    assert_eq!(WinVariation().version_selection_step(1, 2, MenuKey::Up, false), (0, SelectionDecision::Nothing));
    assert_eq!(WinVariation().version_selection_step(1, 2, MenuKey::Enter, true), (1, SelectionDecision::Nothing));
}

#[test]
fn windows_path_update() {
    let w = WinVariation();
    assert_eq!(
        w.updated_path_value("C:\\Windows;C:\\java8\\bin;C:\\tools", Some("C:\\java8"), "C:\\java17"),
        "C:\\Windows;C:\\tools;C:\\java17\\bin"
    );
    assert_eq!(
        w.updated_path_value("C:\\java8\\bin;C:\\java17\\bin;", Some("C:\\java8"), "C:\\java17"),
        "C:\\java17\\bin"
    );
    assert_eq!(w.updated_path_value("C:\\x", None, "C:\\java17"), "C:\\x");
    let after = w.updated_path_value("", Some("C:\\old"), "C:\\new");
    assert!(after.contains("C:\\new\\bin"));
}

#[test]
fn selected_version_becomes_current() {
    let bashrc = "export JAVA_HOME=/usr/lib/jvm/java-11/bin\nexport PATH=$PATH:$JAVA_HOME\n";
    let mut globals = Vec::new();
    let rest = extract_variables_from_content(bashrc, &mut globals);
    let saved = versions();
    let _ = set_java_home(&rest, &mut globals, &EnvVariable::create_instance("JDK17", "C:\\java17"));
    match LinuxVariation().current_version(&globals, &saved) {
        CurrentVersion::Current(v) => assert_eq!(v.get_variable_name(), "JDK17"),
        _ => panic!("expected the selected version"),
    }
    let names: Vec<&str> = globals.iter().map(|g| g.get_variable_name()).collect();
    assert_eq!(names, vec!["PATH", "JAVA_HOME"]);
}
