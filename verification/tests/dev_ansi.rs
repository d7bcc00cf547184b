use aster::dev::ansi::strip_ansi_sequences;

#[test]
fn strips_terminal_control_sequences_from_service_logs() {
    assert_eq!(
        strip_ansi_sequences(
            "\u{1b}[31mred\u{1b}[0m plain \u{1b}]0;title\u{7}text \u{1b}[2Kdone"
        ),
        "red plain text done"
    );
    assert_eq!(strip_ansi_sequences("unicode 🦀 stays"), "unicode 🦀 stays");
    assert_eq!(strip_ansi_sequences("\u{1b}é"), "é");
}
