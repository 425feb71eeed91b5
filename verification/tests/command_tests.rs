use ec2pick::command::{build_command_line, plan_action, Action};

#[test]
fn placeholder_is_replaced_by_the_identifier() {
    assert_eq!(build_command_line("ssh {}", "i-0123"), "ssh i-0123");
}

#[test]
fn without_placeholder_the_identifier_is_appended() {
    assert_eq!(build_command_line("ssh", "i-0123"), "ssh i-0123");
}

#[test]
fn every_placeholder_is_replaced() {
    assert_eq!(build_command_line("echo {} && ssh {}", "i-1"), "echo i-1 && ssh i-1");
}

#[test]
fn an_unsafe_identifier_is_quoted_before_substitution() {
    assert_eq!(build_command_line("echo {}", "a b"), "echo 'a b'");
    assert_eq!(build_command_line("echo", "it's"), "echo 'it'\\''s'");
}

#[test]
fn an_empty_identifier_is_quoted_to_an_empty_word() {
    assert_eq!(build_command_line("echo {}", ""), "echo ''");
}

#[test]
fn braces_apart_are_not_a_placeholder() {
    assert_eq!(build_command_line("a { } b", "i-1"), "a { } b i-1");
}

#[test]
fn no_template_means_print_the_identifier() {
    match plan_action(&None, "i-0123") {
        Action::Print(s) => assert_eq!(s, "i-0123"),
        Action::Run(_) => panic!("expected a print action"),
    }
}

#[test]
fn a_template_means_run_the_built_line() {
    match plan_action(&Some("ssh {}".to_string()), "i-0123") {
        Action::Run(line) => assert_eq!(line, "ssh i-0123"),
        Action::Print(_) => panic!("expected a run action"),
    }
}
