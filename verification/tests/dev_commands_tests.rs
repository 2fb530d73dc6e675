use engine::dev_commands::{parse_dev_command, white_space, DevCommand};

#[test]
fn single_word_commands_are_recognised() {
    assert_eq!(parse_dev_command("help"), DevCommand::Help);
    assert_eq!(parse_dev_command("reboot"), DevCommand::Reboot);
    assert_eq!(parse_dev_command("  pause  "), DevCommand::Pause);
    assert_eq!(parse_dev_command("resume\n"), DevCommand::Resume);
}

#[test]
fn reset_needs_a_known_target() {
    assert_eq!(parse_dev_command("reset visitors"), DevCommand::ResetVisitors);
    assert_eq!(parse_dev_command("reset\tmap"), DevCommand::ResetMap);
    assert_eq!(parse_dev_command("reset"), DevCommand::ResetUsage);
    assert_eq!(parse_dev_command("reset everything"), DevCommand::ResetUsage);
}

#[test]
fn funds_shows_or_adds_an_amount() {
    assert_eq!(parse_dev_command("funds"), DevCommand::ShowFunds);
    assert_eq!(parse_dev_command("funds 250.5"), DevCommand::AddFunds("250.5".to_string()));
    assert_eq!(parse_dev_command("funds  abc extra"), DevCommand::AddFunds("abc".to_string()));
}

#[test]
fn other_words_are_unknown_and_blank_lines_ask_nothing() {
    assert_eq!(parse_dev_command("jump now"), DevCommand::Unknown("jump".to_string()));
    assert_eq!(parse_dev_command("Pause"), DevCommand::Unknown("Pause".to_string()));
    assert_eq!(parse_dev_command(""), DevCommand::Nothing);
    assert_eq!(parse_dev_command(" \t \u{3000}"), DevCommand::Nothing);
}

#[test]
fn white_space_agrees_with_the_standard_library() {
    for c in ['\t', '\n', '\u{b}', '\u{c}', '\r', ' ', '\u{85}', '\u{a0}', '\u{1680}', '\u{2000}',
        '\u{200a}', '\u{2028}', '\u{2029}', '\u{202f}', '\u{205f}', '\u{3000}', 'a', '0', '\u{200b}',
        '\u{180e}', 'é', '_']
    {
        assert_eq!(white_space(c), c.is_whitespace(), "{c:?}");
    }
}
