use hoard::command::HoardCmd;
use hoard::parameters::Parameterized;

#[test]
fn test_get_parameter_count() {
    let command = HoardCmd::default().with_command("test test test");
    assert_eq!(3, command.get_parameter_count("test"));
}

#[test]
fn test_split() {
    let command = HoardCmd::default().with_command("test1 test2 test3");
    let expected = vec!["test1", "test2", "test3"];
    assert_eq!(expected, command.split(" "));
}

#[test]
fn test_split_inclusive_token() {
    let command = HoardCmd::default().with_command("test1 test2 test3");
    let expected = vec!["test1", " ", "test2", " ", "test3"];
    assert_eq!(expected, command.split_inclusive_token(" "));
}

#[test]
fn test_split_inclusive_token_multiple_spaces() {
    let command = HoardCmd::default().with_command("test1   test2   test3");
    let expected = vec!["test1", "   ", "test2", "   ", "test3"];
    assert_eq!(expected, command.split_inclusive_token("   "));
}

#[test]
fn test_split_inclusive_token_no_spaces() {
    let command = HoardCmd::default().with_command("test1test2test3");
    let expected = vec!["test1test2test3"];
    assert_eq!(expected, command.split_inclusive_token(" "));
}

#[test]
fn test_split_inclusive_token_special_characters() {
    let command = HoardCmd::default().with_command("test1@test2@test3");
    let expected = vec!["test1", "@", "test2", "@", "test3"];
    assert_eq!(expected, command.split_inclusive_token("@"));
}

#[test]
fn test_split_inclusive_token_start() {
    let command = HoardCmd::default().with_command(" test1 test2 test3");
    let expected = vec![" ", "test1", " ", "test2", " ", "test3"];
    assert_eq!(expected, command.split_inclusive_token(" "));
}

#[test]
fn test_split_inclusive_token_end() {
    let command = HoardCmd::default().with_command("test1 test2 test3 ");
    let expected = vec!["test1", " ", "test2", " ", "test3", " "];
    assert_eq!(expected, command.split_inclusive_token(" "));
}

#[test]
fn test_replace_parameter() {
    let command = HoardCmd::default().with_command("test1 # test3");
    let expected = HoardCmd::default().with_command("test1 replacement test3");
    assert_eq!(expected, command.replace_parameter("#", "", "replacement"));
}

#[test]
fn test_replace_parameter_with_endtoken() {
    let command = HoardCmd::default().with_command("test1 #thisisacommand! test3");
    let expected = HoardCmd::default().with_command("test1 replacement test3");
    assert_eq!(expected, command.replace_parameter("#", "!", "replacement"));
}

#[test]
fn test_replace_parameter_with_endtoken_no_spaces() {
    let command = HoardCmd::default().with_command("test1#thisisacommand!test3");
    let expected = HoardCmd::default().with_command("test1replacementtest3");
    assert_eq!(expected, command.replace_parameter("#", "!", "replacement"));
}

#[test]
fn test_escape_double_backslash_before_token() {
    let command = HoardCmd::default().with_command("wewantto\\\\#escape");
    let expected = HoardCmd::default().with_command("wewantto\\\\replacementescape");
    assert_eq!(expected, command.replace_parameter("#", "!", "replacement"));
}

#[test]
fn test_escape_single_backslash_before_token() {
    let command = HoardCmd::default().with_command("wewantto\\#escape");
    let expected = HoardCmd::default().with_command("wewantto\\#escape");
    assert_eq!(expected, command.replace_parameter("#", "!", "replacement"));
}

#[test]
fn test_escape_no_backslash_before_token() {
    let command = HoardCmd::default().with_command("wewantto#!escape");
    let expected = HoardCmd::default().with_command("wewanttoreplacementescape");
    assert_eq!(expected, command.replace_parameter("#", "!", "replacement"));
}

#[test]
fn test_escape_backslash_before_token_with_end() {
    let command = HoardCmd::default().with_command("wewantto\\##!escape");
    let expected = HoardCmd::default().with_command("wewantto\\#replacementescape");
    assert_eq!(expected, command.replace_parameter("#", "!", "replacement"));
}

#[test]
fn test_escape_backslash_before_multiple_token_with_end() {
    let command = HoardCmd::default().with_command("wewantto\\##!escape##");
    let expected = HoardCmd::default().with_command("wewantto\\#replacementescape##");
    assert_eq!(expected, command.replace_parameter("#", "!", "replacement"));
}
