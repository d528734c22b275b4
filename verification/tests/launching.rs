use nscmd::error::NsCmdError;
use nscmd::launch::compose_path;
use nscmd::launch::interpret_exit;
use nscmd::launch::invocation_of;

#[test]
fn compose_prepends_workspace_to_parent_path() {
    let parent = Some("/usr/bin:/bin".to_string());
    let composed = compose_path("/work", &parent);
    assert_eq!(composed, "/work:/usr/bin:/bin");
    assert!(composed.starts_with("/work"));
}

#[test]
fn compose_without_parent_path_is_workspace_alone() {
    let composed = compose_path("/work", &None);
    assert_eq!(composed, "/work");
}

#[test]
fn compose_with_empty_parent_path_keeps_separator() {
    let composed = compose_path("/work", &Some(String::new()));
    assert_eq!(composed, "/work:");
}

#[test]
fn invocation_splits_program_from_arguments() {
    let command = vec!["ls".to_string(), "hello".to_string(), "world".to_string()];
    let inv = invocation_of(&command).unwrap();
    assert_eq!(inv.program, "ls");
    assert_eq!(inv.args, vec!["hello".to_string(), "world".to_string()]);
}

#[test]
fn invocation_of_single_word_has_no_arguments() {
    let command = vec!["true".to_string()];
    let inv = invocation_of(&command).unwrap();
    assert_eq!(inv.program, "true");
    assert!(inv.args.is_empty());
}

#[test]
fn empty_command_is_a_usage_error() {
    let command: Vec<String> = Vec::new();
    let err = invocation_of(&command).unwrap_err();
    assert_eq!(err, NsCmdError::Usage);
}

#[test]
fn exit_code_is_propagated_verbatim() {
    assert_eq!(interpret_exit(Some(0)), Ok(0));
    assert_eq!(interpret_exit(Some(7)), Ok(7));
    assert_eq!(interpret_exit(Some(-1)), Ok(-1));
}

#[test]
fn signal_termination_is_a_distinct_error() {
    assert_eq!(interpret_exit(None), Err(NsCmdError::Signal));
}
