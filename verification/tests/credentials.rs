use infratk::credentials::{has_word, legacy_credentials, login_credentials};

fn shown(stdout: &str) -> Option<Vec<(String, String)>> {
    legacy_credentials(stdout)
        .map(|vars| vars.iter().map(|(n, v)| (n.clone(), v.expose().to_string())).collect())
}

fn pair(name: &str, value: &str) -> (String, String) {
    (name.to_string(), value.to_string())
}

#[test]
fn exported_variables_are_read_in_order_of_their_names() {
    let out = "Logging in...\nexport AWS_SECRET_ACCESS_KEY=abc/def\nexport AWS_ACCESS_KEY_ID=AKIA\n\
               export AWS_SESSION_TOKEN=t0k3n==\n";
    assert_eq!(
        shown(out),
        Some(vec![
            pair("AWS_ACCESS_KEY_ID", "AKIA"),
            pair("AWS_SECRET_ACCESS_KEY", "abc/def"),
            pair("AWS_SESSION_TOKEN", ""),
        ])
    );
}

#[test]
fn a_later_export_takes_the_place_of_an_earlier_one() {
    assert_eq!(
        shown("export A=1\nexport B=2\nexport A=3\n"),
        Some(vec![pair("A", "3"), pair("B", "2")])
    );
}

#[test]
fn value_is_what_follows_the_last_equals_sign() {
    assert_eq!(shown("export A=b=c"), Some(vec![pair("A", "c")]));
    assert_eq!(shown("export PLAIN"), Some(vec![pair("PLAIN", "PLAIN")]));
    assert_eq!(shown("  # exported: X=1 Y=2"), Some(vec![pair("exported:", "exported:")]));
}

#[test]
fn export_line_without_a_setting_cannot_be_read() {
    assert_eq!(shown("export"), None);
    assert_eq!(shown("export A=1\nexport\nexport B=2"), None);
    assert_eq!(shown(""), Some(vec![]));
    assert_eq!(shown("nothing to see\n"), Some(vec![]));
}

#[test]
fn secrets_stay_out_of_debug_output() {
    let vars = legacy_credentials("export KEY=hunter2").unwrap();
    assert!(!format!("{:?}", vars).contains("hunter2"));
    assert_eq!(vars[0].1.expose(), "hunter2");
}

#[test]
fn word_is_found_wherever_it_stands() {
    let chars = |s: &str| s.chars().collect::<Vec<char>>();
    for (text, word) in [("export A", "export"), (" unexported", "export"), ("expor t", "export"), ("", "export"), ("abc", ""), ("", ""), ("ex", "export")] {
        assert_eq!(has_word(&chars(text), &chars(word)), text.contains(word), "{:?} {:?}", text, word);
    }
}

#[test]
fn only_the_legacy_login_leaves_variables() {
    let legacy = login_credentials("legacy", "export A=1").unwrap();
    assert_eq!(legacy.len(), 1);
    assert_eq!(legacy[0].0, "A");
    assert!(login_credentials("prod", "export A=1").unwrap().is_empty());
    assert!(login_credentials("prod", "export").unwrap().is_empty());
    assert!(login_credentials("legacy", "export").is_none());
}
