//! The whole decision pipeline run on concrete invocations, exactly as the
//! unverified shell drives it: parse, plan each link, pick the invocation,
//! compose the search path, interpret the child's exit.

use nscmd::args::process_args;
use nscmd::error::NsCmdError;
use nscmd::launch::compose_path;
use nscmd::launch::interpret_exit;
use nscmd::launch::invocation_of;
use nscmd::setup::plan_link;

fn strings(v: &[&str]) -> Vec<String> {
    v.iter().map(|s| s.to_string()).collect()
}

#[test]
fn translated_command_with_argument() {
    let argv = strings(&["ls=/bin/echo", "ls", "hello"]);
    let parsed = process_args(&argv);
    assert_eq!(parsed.rules.len(), 1);

    // /bin/echo exists as a regular file in the scenario.
    let action = plan_link("/work", &parsed.rules[0], true).unwrap();
    assert_eq!(action.link_path, "/work/ls");
    assert_eq!(action.target, "/bin/echo");
    assert_eq!(action.progress_line, "/bin/echo -> /work/ls");

    let inv = invocation_of(&parsed.command).unwrap();
    assert_eq!(inv.program, "ls");
    assert_eq!(inv.args, strings(&["hello"]));

    let composed = compose_path("/work", &Some("/usr/bin:/bin".to_string()));
    assert_eq!(composed, "/work:/usr/bin:/bin");

    // The child prints "hello" and exits 0; that code is handed on.
    assert_eq!(interpret_exit(Some(0)), Ok(0));
}

#[test]
fn missing_translation_source_stops_before_any_spawn() {
    let argv = strings(&["foo=/no/such/file", "foo"]);
    let parsed = process_args(&argv);
    assert_eq!(parsed.rules.len(), 1);

    // /no/such/file is not a regular file in the scenario.
    let err = plan_link("/work", &parsed.rules[0], false).unwrap_err();
    assert_eq!(err, NsCmdError::Translation { path: "/no/such/file".to_string() });
    assert_eq!(err.message(), "/no/such/file does not exist");
}

#[test]
fn no_rules_runs_the_command_untranslated() {
    let argv = strings(&["true"]);
    let parsed = process_args(&argv);
    assert!(parsed.rules.is_empty());

    let inv = invocation_of(&parsed.command).unwrap();
    assert_eq!(inv.program, "true");
    assert!(inv.args.is_empty());

    assert_eq!(interpret_exit(Some(0)), Ok(0));
}

#[test]
fn empty_invocation_is_a_usage_error() {
    let argv: Vec<String> = Vec::new();
    let parsed = process_args(&argv);
    assert!(parsed.rules.is_empty());
    assert!(parsed.command.is_empty());

    let err = invocation_of(&parsed.command).unwrap_err();
    assert_eq!(err, NsCmdError::Usage);
    assert_eq!(err.message(), "No command given");
}

#[test]
fn error_messages_name_their_cause() {
    assert_eq!(NsCmdError::Usage.message(), "No command given");
    assert_eq!(
        NsCmdError::Translation { path: "/gone".to_string() }.message(),
        "/gone does not exist"
    );
    assert_eq!(
        NsCmdError::Setup { detail: "permission denied".to_string() }.message(),
        "Setup failed: permission denied"
    );
    assert_eq!(
        NsCmdError::Spawn { detail: "not found".to_string() }.message(),
        "Cannot run command: not found"
    );
    assert_eq!(NsCmdError::Signal.message(), "Process terminated by signal");
}
