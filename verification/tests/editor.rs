use marten::editor::{
    command_for, command_from_words, decimal_string, line_arg_style, pick_editor, split_command, EditorError, LineArg,
};

#[test]
fn split_simple_command() {
    let command = split_command("nvim").unwrap();
    assert_eq!(command, vec!["nvim"]);
}

#[test]
fn split_complex_command() {
    let command = split_command("code --wait {file}:{line}").unwrap();
    assert_eq!(command, vec!["code", "--wait", "{file}:{line}"]);
}

#[test]
fn split_command_with_space() {
    let command = split_command("'/Applications/My Editor/ed' {file}:{line}").unwrap();
    assert_eq!(command, vec!["/Applications/My Editor/ed", "{file}:{line}"]);
}

#[test]
fn invalid_editor_command() {
    assert!(matches!(
        split_command("'fake_editor"),
        Err(EditorError::InvalidEditorCommand { .. })
    ));
}

#[test]
fn empty_editor_command() {
    assert!(matches!(
        split_command(" "),
        Err(EditorError::EmptyEditorCommand)
    ));
}

#[test]
fn command_for_code() {
    let cmd = command_for("code --wait --goto {file}:{line}", "src/app.rs", 42).unwrap();

    assert_eq!(cmd.program, "code");
    assert_eq!(cmd.args, vec!["--wait", "--goto", "src/app.rs:42"]);
}

#[test]
fn command_for_nvim() {
    let cmd = command_for("nvim +{line} {file}", "src/app.rs", 42).unwrap();

    assert_eq!(cmd.program, "nvim");
    assert_eq!(cmd.args, vec!["+42", "src/app.rs"]);
}

#[test]
fn command_for_nvim_without_placeholders() {
    let cmd = command_for("nvim", "src/app.rs", 42).unwrap();

    assert_eq!(cmd.program, "nvim");
    assert_eq!(cmd.args, vec!["+42", "src/app.rs"]);
}

#[test]
fn command_for_hx() {
    let cmd = command_for("hx", "src/app.rs", 42).unwrap();

    assert_eq!(cmd.program, "hx");
    assert_eq!(cmd.args, vec!["src/app.rs:42"]);
}

#[test]
fn command_for_code_with_wait() {
    let cmd = command_for("code --wait", "src/app.rs", 42).unwrap();

    assert_eq!(cmd.program, "code");
    assert_eq!(cmd.args, vec!["--wait", "+42", "src/app.rs"]);
}

#[test]
fn command_for_nvim_with_space() {
    let cmd = command_for("nvim {file}", "docs/my notes.md", 1).unwrap();

    assert_eq!(cmd.program, "nvim");
    assert_eq!(cmd.args, vec!["docs/my notes.md"]);
}

#[test]
fn command_for_nvim_with_file() {
    let cmd = command_for("nvim {file}", "{line}.md", 42).unwrap();

    assert_eq!(cmd.program, "nvim");
    assert_eq!(cmd.args, vec!["{line}.md"]);
}

#[test]
fn configured_editor_wins_over_environment() {
    let editor = pick_editor(Some("hx"), Some("nvim".into()), Some("vim".into()));
    assert_eq!(editor, "hx");
}

#[test]
fn visual_wins_over_editor() {
    let editor = pick_editor(None, Some("nvim".into()), Some("vim".into()));
    assert_eq!(editor, "nvim");
}

#[test]
fn editor_is_used_when_visual_is_unset() {
    let editor = pick_editor(None, None, Some("vim".into()));
    assert_eq!(editor, "vim");
}

#[test]
fn falls_back_to_vi() {
    let editor = pick_editor(None, None, None);
    assert_eq!(editor, "vi");
}

#[test]
fn blank_values_are_skipped() {
    let editor = pick_editor(Some(""), Some("  ".into()), Some("vim".into()));
    assert_eq!(editor, "vim");
}

#[test]
fn helix_is_known_by_its_file_name() {
    assert_eq!(line_arg_style("hx"), LineArg::Colon);
    assert_eq!(line_arg_style("/usr/local/bin/hx"), LineArg::Colon);
    assert_eq!(line_arg_style("hx.exe"), LineArg::Colon);
    assert_eq!(line_arg_style("nvim"), LineArg::Plus);
    assert_eq!(line_arg_style("hxx"), LineArg::Plus);
}

#[test]
fn hx_with_placeholder_free_template_in_a_path() {
    let cmd = command_for("/opt/bin/hx", "a.rs", 7).unwrap();
    assert_eq!(cmd.program, "/opt/bin/hx");
    assert_eq!(cmd.args, vec!["a.rs:7"]);
}

#[test]
fn decimal_digits_of_numbers() {
    assert_eq!(decimal_string(0).iter().collect::<String>(), "0");
    assert_eq!(decimal_string(42).iter().collect::<String>(), "42");
    assert_eq!(
        decimal_string(u64::MAX).iter().collect::<String>(),
        "18446744073709551615"
    );
}

#[test]
fn template_errors_pass_through_command_for() {
    assert!(matches!(
        command_for("'unterminated", "a.rs", 1),
        Err(EditorError::InvalidEditorCommand { .. })
    ));
    assert_eq!(command_for("   ", "a.rs", 1), Err(EditorError::EmptyEditorCommand));
}

#[test]
fn command_from_split_words() {
    let words = vec!["code".to_string(), "--wait".to_string()];
    let cmd = command_from_words(&words, "src/app.rs", 7).unwrap();
    assert_eq!(cmd.program, "code");
    assert_eq!(cmd.args, vec!["--wait", "+7", "src/app.rs"]);

    let filled = vec!["hx".to_string(), "{file}:{line}".to_string()];
    let cmd = command_from_words(&filled, "a.rs", 3).unwrap();
    assert_eq!(cmd.args, vec!["a.rs:3"]);

    assert!(matches!(
        command_from_words(&Vec::new(), "a.rs", 1),
        Err(EditorError::EmptyEditorCommand)
    ));
}
