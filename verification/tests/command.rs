use ezekiel::command::{parse_command, Command};
use ezekiel::error::BuildError;

fn args(words: &[&str]) -> Vec<String> {
    words.iter().map(|word| word.to_string()).collect()
}

#[test]
fn build_and_clean_are_the_commands() {
    assert!(matches!(parse_command(&args(&["ezekiel", "build"])), Ok(Command::Build)));
    assert!(matches!(parse_command(&args(&["ezekiel", "clean"])), Ok(Command::Clean)));
    assert!(matches!(parse_command(&args(&["", "clean"])), Ok(Command::Clean)));
}

#[test]
fn any_other_word_is_a_usage_error() {
    for word in ["", "Build", "build ", "rebuild", "help"] {
        assert!(matches!(parse_command(&args(&["ezekiel", word])), Err(BuildError::Usage)));
    }
}

#[test]
fn any_other_number_of_arguments_is_a_usage_error() {
    assert!(matches!(parse_command(&args(&[])), Err(BuildError::Usage)));
    assert!(matches!(parse_command(&args(&["ezekiel"])), Err(BuildError::Usage)));
    assert!(matches!(parse_command(&args(&["build"])), Err(BuildError::Usage)));
    assert!(matches!(parse_command(&args(&["ezekiel", "build", "clean"])), Err(BuildError::Usage)));
    assert!(matches!(parse_command(&args(&["ezekiel", "build", "build"])), Err(BuildError::Usage)));
}
