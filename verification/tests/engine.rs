use hoard::command::HoardCmd;
use hoard::parameters::Parameterized;

#[test]
fn escape_then_cleanup_restores_payload() {
    let escaped = HoardCmd::escape_input("a#b\\c!d", "#", "!");
    assert_eq!("a\\#b\\\\c\\!d", escaped);
    let cleaned = HoardCmd::default().with_command(&escaped).cleanup_escapes("#", "!");
    assert_eq!("a#b\\c!d", cleaned.command);
}

#[test]
fn escape_of_plain_text_is_identity() {
    assert_eq!("plain text", HoardCmd::escape_input("plain text", "#", "!"));
}

#[test]
fn cleanup_is_idempotent_on_wellformed_text() {
    let command = HoardCmd::default().with_command("say \\# \\\\ done");
    let once = command.cleanup_escapes("#", "!");
    let twice = once.cleanup_escapes("#", "!");
    assert_eq!("say # \\ done", once.command);
    assert_eq!(once, twice);
}

#[test]
fn cleanup_keeps_lone_trailing_backslash() {
    let command = HoardCmd::default().with_command("tail\\");
    assert_eq!("tail\\", command.cleanup_escapes("#", "!").command);
}

#[test]
fn count_skips_escaped_occurrences() {
    let command = HoardCmd::default().with_command("\\# #");
    assert_eq!(1, command.get_parameter_count("#"));
}

#[test]
fn count_handles_multibyte_token() {
    let command = HoardCmd::default().with_command("ééé");
    assert_eq!(3, command.get_parameter_count("é"));
}

#[test]
fn count_of_escaped_template_is_zero() {
    let command = HoardCmd::default().with_command("wewantto\\#escape");
    assert_eq!(0, command.get_parameter_count("#"));
}

#[test]
fn split_preserves_empty_pieces() {
    let command = HoardCmd::default().with_command("a,,b,");
    let expected = vec!["a", "", "b", ""];
    assert_eq!(expected, command.split(","));
}

#[test]
fn is_parameterized_sees_literal_token() {
    let command = HoardCmd::default().with_command("run \\#x");
    assert!(command.is_parameterized("#"));
    assert!(!command.is_parameterized("$"));
}

#[test]
fn replace_without_closing_token_consumes_start_only() {
    let command = HoardCmd::default().with_command("go #abc");
    let expected = HoardCmd::default().with_command("go Vabc");
    assert_eq!(expected, command.replace_parameter("#", "$", "V"));
}

#[test]
fn replace_stops_at_next_start_token() {
    let command = HoardCmd::default().with_command("a #x #y$");
    let expected = HoardCmd::default().with_command("a Vx #y$");
    assert_eq!(expected, command.replace_parameter("#", "$", "V"));
}

#[test]
fn replace_handles_multibyte_text() {
    let command = HoardCmd::default().with_command("héllo #nom$ là");
    let expected = HoardCmd::default().with_command("héllo müller là");
    assert_eq!(expected, command.replace_parameter("#", "$", "müller"));
}
