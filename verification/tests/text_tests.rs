use java_manager::text::{contains, lines, replace, second_field, str_eq, to_chars, trim_end_matches};

#[test]
fn replace_matches_std_on_samples() {
    let samples = [
        ("a:$JAVA_HOME:b:$JAVA_HOME", ":$JAVA_HOME", ""),
        ("aaa", "aa", "b"),
        ("", "x", "y"),
        ("xyz", "xyz", "Q"),
        ("export export PATH=x", "export ", ""),
        ("C:\\Windows;C:\\java8\\bin;C:\\tools", ";C:\\java8\\bin", ""),
        ("héllo wörld", "ö", "oe"),
    ];
    for (s, p, r) in samples.iter() {
        assert_eq!(replace(s, p, r), s.replace(p, r));
    }
}

#[test]
fn replace_exact_values() {
    assert_eq!(replace("a:$JAVA_HOME:b:$JAVA_HOME", ":$JAVA_HOME", ""), "a:b");
    assert_eq!(replace("aaa", "aa", "b"), "ba");
}

#[test]
fn trim_end_matches_matches_std() {
    let samples = [("x/bin/bin", "/bin"), ("aaa", "aa"), ("/usr/java///", "/"), ("abc", "z"), ("", "/"), ("\n\n", "\n")];
    for (s, p) in samples.iter() {
        assert_eq!(trim_end_matches(s, p), s.trim_end_matches(p));
    }
    assert_eq!(trim_end_matches("x/bin/bin", "/bin"), "x");
    assert_eq!(trim_end_matches("aaa", "aa"), "a");
}

#[test]
fn lines_matches_std() {
    let samples = ["", "\n", "a", "a\n", "a\r\nb\n", "a\rb", "a\n\nb", "x\r", "\r\n\r\n", "one\ntwo\r\nthree"];
    for s in samples.iter() {
        let expected: Vec<String> = s.lines().map(|l| l.to_string()).collect();
        assert_eq!(lines(s), expected);
    }
}

#[test]
fn second_field_matches_split() {
    let samples = ["A=b=c", "A", "A=", "=b", "PATH=$PATH:/opt/bin", ""];
    for s in samples.iter() {
        let expected = s.split('=').nth(1).map(|x| x.to_string());
        assert_eq!(second_field(s, '='), expected);
    }
    assert_eq!(second_field("A=b=c", '='), Some("b".to_string()));
    assert_eq!(second_field("A", '='), None);
}

#[test]
fn contains_and_equality() {
    assert!(contains("export JAVA_HOME=/x", "export JAVA_HOME"));
    assert!(!contains("export PATH=/x", "export JAVA_HOME"));
    assert!(contains("abc", ""));
    assert!(!contains("", "a"));
    assert!(str_eq("JAVA_HOME", "JAVA_HOME"));
    assert!(!str_eq("JAVA_HOME", "JAVA_HOM"));
    assert_eq!(to_chars("héj"), vec!['h', 'é', 'j']);
}
