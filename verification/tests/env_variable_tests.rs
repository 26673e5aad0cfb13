use java_manager::env_variable::{
    get_java_version_by_path, get_java_version_index_by_name, remove_java_version_by_name,
    save_java_version, EnvVariable,
};

fn var(name: &str, path: &str) -> EnvVariable {
    EnvVariable::create_instance(name, path)
}

fn pairs(list: &Vec<EnvVariable>) -> Vec<(String, String)> {
    list.iter()
        .map(|e| (e.get_variable_name().to_string(), e.get_path().to_string()))
        .collect()
}

#[test]
fn export_string_and_accessors() {
    let mut v = var("JAVA_HOME", "/usr/lib/jvm/java-17");
    assert_eq!(v.get_export_string(), "export JAVA_HOME=/usr/lib/jvm/java-17");
    assert_eq!(v.get_variable_name(), "JAVA_HOME");
    assert_eq!(v.get_path(), "/usr/lib/jvm/java-17");
    v.set_path("/opt/java-21");
    assert_eq!(v.get_variable_name(), "JAVA_HOME");
    assert_eq!(v.get_path(), "/opt/java-21");
    let d = v.duplicate();
    assert_eq!(d.get_path(), "/opt/java-21");
}

#[test]
fn index_by_name_finds_first_or_minus_one() {
    let list = vec![var("JDK8", "/a"), var("JDK17", "/b"), var("JDK8", "/c")];
    assert_eq!(get_java_version_index_by_name("JDK8", &list), 0);
    assert_eq!(get_java_version_index_by_name("JDK17", &list), 1);
    assert_eq!(get_java_version_index_by_name("JDK21", &list), -1);
    assert_eq!(get_java_version_index_by_name("JDK8", &Vec::new()), -1);
}

#[test]
fn by_path_returns_first_match() {
    let list = vec![var("A", "/x"), var("B", "/y"), var("C", "/y")];
    let found = get_java_version_by_path("/y", &list).unwrap();
    assert_eq!(found.get_variable_name(), "B");
    assert_eq!(found.get_path(), "/y");
    assert!(get_java_version_by_path("/z", &list).is_none());
}

#[test]
fn save_appends_new_and_updates_existing() {
    let mut list = vec![var("JDK8", "/a")];
    save_java_version(&mut list, var("JDK17", "/b"));
    assert_eq!(pairs(&list), vec![("JDK8".to_string(), "/a".to_string()), ("JDK17".to_string(), "/b".to_string())]);
    save_java_version(&mut list, var("JDK8", "/new"));
    assert_eq!(pairs(&list), vec![("JDK8".to_string(), "/new".to_string()), ("JDK17".to_string(), "/b".to_string())]);
}

#[test]
fn saved_version_is_found_again() {
    let mut list = vec![var("JDK8", "/a"), var("JDK11", "/c")];
    save_java_version(&mut list, var("JDK11", "/d"));
    let i = get_java_version_index_by_name("JDK11", &list);
    assert!(i >= 0);
    assert_eq!(list[i as usize].get_path(), "/d");
    assert_eq!(get_java_version_index_by_name("JDK8", &list), 0);
    assert_eq!(list[0].get_path(), "/a");
}

#[test]
fn saving_twice_is_saving_once() {
    let mut once = vec![var("JDK8", "/a")];
    save_java_version(&mut once, var("JDK17", "/b"));
    let mut twice = vec![var("JDK8", "/a")];
    save_java_version(&mut twice, var("JDK17", "/b"));
    save_java_version(&mut twice, var("JDK17", "/b"));
    assert_eq!(pairs(&once), pairs(&twice));
}

#[test]
fn remove_swaps_last_into_place() {
    let mut list = vec![var("A", "/a"), var("B", "/b"), var("C", "/c")];
    let removed = remove_java_version_by_name(&mut list, "A").unwrap();
    assert_eq!(removed.get_variable_name(), "A");
    assert_eq!(pairs(&list), vec![("C".to_string(), "/c".to_string()), ("B".to_string(), "/b".to_string())]);
    assert_eq!(get_java_version_index_by_name("A", &list), -1);
}

#[test]
fn remove_missing_or_from_empty_changes_nothing() {
    let mut list = vec![var("A", "/a")];
    assert!(remove_java_version_by_name(&mut list, "Z").is_none());
    assert_eq!(pairs(&list), vec![("A".to_string(), "/a".to_string())]);
    let mut empty: Vec<EnvVariable> = Vec::new();
    assert!(remove_java_version_by_name(&mut empty, "A").is_none());
    assert!(empty.is_empty());
}

#[test]
fn save_new_then_remove_restores() {
    let mut list = vec![var("A", "/a"), var("B", "/b")];
    let before = pairs(&list);
    save_java_version(&mut list, var("N", "/n"));
    remove_java_version_by_name(&mut list, "N");
    assert_eq!(pairs(&list), before);
}

#[test]
fn equality_compares_name_and_path() {
    assert_eq!(var("A", "/a"), var("A", "/a"));
    assert_ne!(var("A", "/a"), var("A", "/b"));
    assert_ne!(var("A", "/a"), var("B", "/a"));
    let v = var("A", "/a");
    assert_eq!(v.clone(), v.duplicate());
}
