use java_manager::env_variable::EnvVariable;
use java_manager::file_utils::{
    add_and_remove_from_content, add_env_variable, extract_variables_from_content, get_var_from_content,
    set_java_home,
};

fn pairs(list: &Vec<EnvVariable>) -> Vec<(String, String)> {
    list.iter()
        .map(|e| (e.get_variable_name().to_string(), e.get_path().to_string()))
        .collect()
}

const BASHRC: &str = "# ~/.bashrc\nalias ll='ls -l'\nexport JAVA_HOME=/usr/lib/jvm/java-11/bin\nexport PATH=$PATH:/opt/tools:$JAVA_HOME\n\n";

#[test]
fn var_from_content_reads_first_export() {
    let jh = get_var_from_content(BASHRC, "JAVA_HOME").unwrap();
    assert_eq!(jh.get_variable_name(), "JAVA_HOME");
    assert_eq!(jh.get_path(), "/usr/lib/jvm/java-11/bin");
    let p = get_var_from_content(BASHRC, "PATH").unwrap();
    assert_eq!(p.get_path(), "$PATH:/opt/tools:$JAVA_HOME");
    assert!(get_var_from_content(BASHRC, "MAVEN_HOME").is_none());
}

#[test]
fn var_from_content_skips_lines_without_value() {
    let content = "export JAVA_HOME\nexport JAVA_HOME=/second=x\n";
    let jh = get_var_from_content(content, "JAVA_HOME").unwrap();
    assert_eq!(jh.get_path(), "/second");
}

#[test]
fn add_and_remove_skips_empty_variable() {
    let mut content = String::from("export A=1\n");
    let mut globals = Vec::new();
    add_and_remove_from_content(&mut content, &mut globals, &EnvVariable::create_instance("", ""));
    assert_eq!(content, "export A=1\n");
    assert!(globals.is_empty());
    add_and_remove_from_content(&mut content, &mut globals, &EnvVariable::create_instance("A", "1"));
    assert_eq!(content, "\n");
    assert_eq!(pairs(&globals), vec![("A".to_string(), "1".to_string())]);
    add_env_variable(&mut globals, &EnvVariable::create_instance("B", "2"));
    assert_eq!(globals.len(), 2);
}

#[test]
fn extract_takes_out_both_exports() {
    let mut globals = Vec::new();
    let rest = extract_variables_from_content(BASHRC, &mut globals);
    assert_eq!(rest, "# ~/.bashrc\nalias ll='ls -l'");
    assert_eq!(
        pairs(&globals),
        vec![
            ("JAVA_HOME".to_string(), "/usr/lib/jvm/java-11/bin".to_string()),
            ("PATH".to_string(), "$PATH:/opt/tools:$JAVA_HOME".to_string()),
        ]
    );
}

#[test]
fn extract_without_exports_keeps_text() {
    let mut globals = Vec::new();
    let rest = extract_variables_from_content("alias ll='ls -l'\n\n", &mut globals);
    assert_eq!(rest, "alias ll='ls -l'");
    assert!(globals.is_empty());
}

#[test]
fn set_java_home_writes_both_exports() {
    let mut globals = Vec::new();
    let rest = extract_variables_from_content(BASHRC, &mut globals);
    let chosen = EnvVariable::create_instance("JDK17", "/usr/lib/jvm/java-17/");
    let written = set_java_home(&rest, &mut globals, &chosen);
    assert_eq!(
        written,
        "# ~/.bashrc\nalias ll='ls -l'\nexport JAVA_HOME=/usr/lib/jvm/java-17/bin\nexport PATH=$PATH:/opt/tools:$JAVA_HOME"
    );
    assert_eq!(
        pairs(&globals),
        vec![
            ("PATH".to_string(), "$PATH:/opt/tools:$JAVA_HOME".to_string()),
            ("JAVA_HOME".to_string(), "/usr/lib/jvm/java-17/bin".to_string()),
        ]
    );
}

#[test]
fn set_java_home_without_old_java_home_keeps_globals() {
    let mut globals = vec![EnvVariable::create_instance("PATH", "/bin")];
    let written = set_java_home("", &mut globals, &EnvVariable::create_instance("J", "/j"));
    assert_eq!(written, "\nexport JAVA_HOME=/j/bin\nexport PATH=/bin:$JAVA_HOME");
    assert_eq!(pairs(&globals), vec![("PATH".to_string(), "/bin".to_string())]);
}

#[test]
fn what_is_set_is_read_back() {
    let mut globals = Vec::new();
    let rest = extract_variables_from_content(BASHRC, &mut globals);
    let written = set_java_home(&rest, &mut globals, &EnvVariable::create_instance("JDK21", "/opt/jdk-21"));
    let mut reread = Vec::new();
    let rest_again = extract_variables_from_content(&written, &mut reread);
    assert_eq!(rest_again, rest);
    assert_eq!(get_var_from_content(&written, "JAVA_HOME").unwrap().get_path(), "/opt/jdk-21/bin");
    assert_eq!(get_var_from_content(&written, "PATH").unwrap().get_path(), "$PATH:/opt/tools:$JAVA_HOME");
}

#[test]
fn selecting_twice_is_selecting_once() {
    let mut globals = Vec::new();
    let rest = extract_variables_from_content(BASHRC, &mut globals);
    let chosen = EnvVariable::create_instance("JDK17", "/usr/lib/jvm/java-17");
    let first = set_java_home(&rest, &mut globals, &chosen);
    let after_first = pairs(&globals);
    let second = set_java_home(&rest, &mut globals, &chosen);
    assert_eq!(first, second);
    assert_eq!(pairs(&globals), after_first);
}

#[test]
fn names_with_lower_case_e_are_read_back() {
    let content = "export kube_editor=/usr/bin/vim\n";
    let v = get_var_from_content(content, "kube_editor").unwrap();
    assert_eq!(v.get_path(), "/usr/bin/vim");
}
