use nscmd::args::TranslationRule;
use nscmd::error::NsCmdError;
use nscmd::setup::effective_target;
use nscmd::setup::plan_link;
use nscmd::setup::setup_plan;

fn rule(called: &str, actual: &str) -> TranslationRule {
    TranslationRule { called_name: called.to_string(), actual_path: actual.to_string() }
}

#[test]
fn plan_link_builds_link_path_and_progress_line() {
    let r = rule("ls", "/bin/echo");
    let action = plan_link("/work", &r, true).unwrap();
    assert_eq!(action.link_path, "/work/ls");
    assert_eq!(action.target, "/bin/echo");
    assert_eq!(action.progress_line, "/bin/echo -> /work/ls");
}

#[test]
fn plan_link_missing_source_names_the_path() {
    let r = rule("foo", "/no/such/file");
    let err = plan_link("/work", &r, false).unwrap_err();
    assert_eq!(err, NsCmdError::Translation { path: "/no/such/file".to_string() });
    assert_eq!(err.message(), "/no/such/file does not exist");
}

#[test]
fn setup_plan_installs_every_valid_rule_in_order() {
    let rules = vec![rule("a", "/bin/a"), rule("b", "/bin/b"), rule("c", "/bin/c")];
    let flags = vec![true, true, true];
    let actions = setup_plan("/w", &rules, &flags).unwrap();
    assert_eq!(actions.len(), 3);
    assert_eq!(actions[0].link_path, "/w/a");
    assert_eq!(actions[0].target, "/bin/a");
    assert_eq!(actions[1].link_path, "/w/b");
    assert_eq!(actions[1].target, "/bin/b");
    assert_eq!(actions[2].link_path, "/w/c");
    assert_eq!(actions[2].target, "/bin/c");
}

#[test]
fn setup_plan_fails_on_first_missing_source() {
    let rules = vec![rule("a", "/bin/a"), rule("b", "/gone"), rule("c", "/also/gone")];
    let flags = vec![true, false, false];
    let err = setup_plan("/w", &rules, &flags).unwrap_err();
    assert_eq!(err, NsCmdError::Translation { path: "/gone".to_string() });
}

#[test]
fn setup_plan_hands_back_nothing_on_failure() {
    let rules = vec![rule("ok", "/bin/ok"), rule("bad", "/missing")];
    let flags = vec![true, false];
    assert!(setup_plan("/w", &rules, &flags).is_err());
}

#[test]
fn setup_plan_without_rules_is_empty() {
    let rules: Vec<TranslationRule> = Vec::new();
    let flags: Vec<bool> = Vec::new();
    let actions = setup_plan("/w", &rules, &flags).unwrap();
    assert!(actions.is_empty());
}

#[test]
fn effective_target_distinct_names() {
    let rules = vec![rule("a", "/bin/a"), rule("b", "/bin/b")];
    assert_eq!(effective_target(&rules, &"a".to_string()), Some("/bin/a".to_string()));
    assert_eq!(effective_target(&rules, &"b".to_string()), Some("/bin/b".to_string()));
    assert_eq!(effective_target(&rules, &"c".to_string()), None);
}

#[test]
fn effective_target_last_rule_wins() {
    let rules = vec![rule("ls", "/bin/first"), rule("other", "/bin/x"), rule("ls", "/bin/last")];
    assert_eq!(effective_target(&rules, &"ls".to_string()), Some("/bin/last".to_string()));
    assert_eq!(effective_target(&rules, &"other".to_string()), Some("/bin/x".to_string()));
}
