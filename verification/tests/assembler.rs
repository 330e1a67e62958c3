use multigrep::assembler::{Assembler, ConfigError, flush, join_lines};
use multigrep::event::Command;
use multigrep::pattern::{Matcher, PatternError};

fn line(s: &str) -> Command {
    Command::Line { content: s.to_owned() }
}

fn new_assembler(start: &str, pattern: &str, timeout: i32) -> Assembler {
    Assembler::new(start, pattern, timeout).expect("patterns should compile")
}

#[test]
pub fn test_slf4j() {
    assert_eq!(1, 1);
}

#[test]
fn error_record_is_emitted_info_record_is_not() {
    let mut a = new_assembler("\\d{4}-\\d{2}-\\d{2}", "ERROR", 1000);
    let mut outputs: Vec<String> = Vec::new();
    let input = ["2024-01-01 ERROR failed", "  at foo", "  at bar", "2024-01-02 INFO ok"];
    for l in input {
        if let Some(out) = a.handle(line(l)) {
            outputs.push(out);
        }
    }
    if let Some(out) = a.handle(Command::Eof) {
        outputs.push(out);
    }
    assert_eq!(outputs, vec!["2024-01-01 ERROR failed\n  at foo\n  at bar".to_owned()]);
    assert!(a.is_done());
}

#[test]
fn timeout_flushes_partial_record_without_further_input() {
    // timeout 1000 over a 100-unit tick period: the 11th consecutive tick
    // passes the threshold and forces the flush.
    let mut a = new_assembler("\\d{4}-\\d{2}-\\d{2}", "ERROR", 1000);
    assert_eq!(a.handle(line("2024-01-01 ERROR lost")), None);
    for _ in 0..10 {
        assert_eq!(a.handle(Command::Ping), None);
    }
    assert_eq!(a.handle(Command::Ping), Some("2024-01-01 ERROR lost".to_owned()));
    // The buffer was drained: end of input flushes nothing more.
    assert_eq!(a.handle(Command::Eof), None);
}

#[test]
fn any_line_resets_the_idle_count() {
    let mut a = new_assembler("\\d{4}-\\d{2}-\\d{2}", "ERROR", 1000);
    assert_eq!(a.handle(line("2024-01-01 ERROR slow")), None);
    for _ in 0..10 {
        assert_eq!(a.handle(Command::Ping), None);
    }
    // One more tick would flush, but a continuation line arrives first.
    assert_eq!(a.handle(line("  at baz")), None);
    for _ in 0..10 {
        assert_eq!(a.handle(Command::Ping), None);
    }
    assert_eq!(a.handle(Command::Ping), Some("2024-01-01 ERROR slow\n  at baz".to_owned()));
}

#[test]
fn run_commands_collects_emitted_records_in_order() {
    let mut a = new_assembler("\\d{4}-\\d{2}-\\d{2}", "ERROR", 1000);
    let cmds = vec![
        line("2024-01-01 ERROR failed"),
        line("  at foo"),
        Command::Ping,
        line("2024-01-02 INFO ok"),
        line("2024-01-03 ERROR again"),
        Command::Eof,
    ];
    assert_eq!(
        a.run_commands(cmds),
        vec!["2024-01-01 ERROR failed\n  at foo".to_owned(), "2024-01-03 ERROR again".to_owned()],
    );
    assert!(a.is_done());
}

#[test]
fn empty_input_produces_no_output() {
    let mut a = new_assembler("\\d{4}-\\d{2}-\\d{2}", "ERROR", 1000);
    assert_eq!(a.handle(Command::Eof), None);
    assert!(a.is_done());
}

#[test]
fn events_after_eof_are_ignored() {
    let mut a = new_assembler("\\d{4}-\\d{2}-\\d{2}", "ERROR", 1000);
    assert_eq!(a.handle(line("2024-01-01 ERROR gone")), None);
    assert_eq!(a.handle(Command::Eof), Some("2024-01-01 ERROR gone".to_owned()));
    assert_eq!(a.handle(line("2024-01-02 ERROR late")), None);
    assert_eq!(a.handle(Command::Ping), None);
    assert_eq!(a.handle(Command::Eof), None);
}

#[test]
fn premarker_lines_are_flushed_at_eof_when_first_matches() {
    let mut a = new_assembler("\\d{4}-\\d{2}-\\d{2}", "boot", 1000);
    assert_eq!(a.handle(line("boot sequence started")), None);
    assert_eq!(a.handle(line("still no marker")), None);
    assert_eq!(a.handle(Command::Eof), Some("boot sequence started\nstill no marker".to_owned()));
}

#[test]
fn premarker_lines_are_discarded_at_eof_when_first_does_not_match() {
    let mut a = new_assembler("\\d{4}-\\d{2}-\\d{2}", "ERROR", 1000);
    assert_eq!(a.handle(line("boot sequence started")), None);
    assert_eq!(a.handle(line("still no marker")), None);
    assert_eq!(a.handle(Command::Eof), None);
}

#[test]
fn record_is_filtered_on_its_first_line_only() {
    let mut a = new_assembler("\\d{4}-\\d{2}-\\d{2}", "ERROR", 1000);
    assert_eq!(a.handle(line("2024-01-01 INFO fine")), None);
    // The body mentions ERROR, but only the header line is tested.
    assert_eq!(a.handle(line("  caused by ERROR")), None);
    assert_eq!(a.handle(Command::Eof), None);
}

#[test]
fn start_marker_is_anchored_to_line_start() {
    let mut a = new_assembler("\\d{4}-\\d{2}-\\d{2}", "ERROR", 1000);
    assert_eq!(a.handle(line("2024-01-01 ERROR first")), None);
    // A date in the middle of a line is not a record boundary.
    assert_eq!(a.handle(line("  seen at 2024-01-02 by probe")), None);
    assert_eq!(
        a.handle(Command::Eof),
        Some("2024-01-01 ERROR first\n  seen at 2024-01-02 by probe".to_owned()),
    );
}

#[test]
fn flush_empty_buffer_is_a_no_op() {
    let pat = Matcher::new("ERROR").unwrap();
    let mut buf: Vec<String> = Vec::new();
    assert_eq!(flush(&mut buf, &pat), None);
    assert!(buf.is_empty());
}

#[test]
fn flush_emits_matching_buffer_and_clears_it() {
    let pat = Matcher::new("ERROR").unwrap();
    let mut buf = vec!["x ERROR y".to_owned(), "tail".to_owned()];
    assert_eq!(flush(&mut buf, &pat), Some("x ERROR y\ntail".to_owned()));
    assert!(buf.is_empty());
}

#[test]
fn flush_discards_non_matching_buffer() {
    let pat = Matcher::new("ERROR").unwrap();
    let mut buf = vec!["all quiet".to_owned(), "ERROR below the header".to_owned()];
    assert_eq!(flush(&mut buf, &pat), None);
    assert!(buf.is_empty());
}

#[test]
fn join_lines_separates_with_single_newlines() {
    assert_eq!(join_lines(&vec![]), String::new());
    assert_eq!(join_lines(&vec!["a".to_owned()]), "a".to_owned());
    assert_eq!(join_lines(&vec!["a".to_owned(), "b".to_owned(), "c".to_owned()]), "a\nb\nc");
}

#[test]
fn invalid_start_pattern_is_a_config_error() {
    assert_eq!(Assembler::new("(", "ERROR", 1000).err(), Some(ConfigError::StartPattern));
}

#[test]
fn invalid_content_pattern_is_a_config_error() {
    assert_eq!(Assembler::new("\\d{4}", "(", 1000).err(), Some(ConfigError::ContentPattern));
}

#[test]
fn matcher_rejects_invalid_pattern() {
    assert_eq!(Matcher::new("(unclosed").err(), Some(PatternError::Invalid));
    assert_eq!(Matcher::new_anchored("(unclosed").err(), Some(PatternError::Invalid));
}

#[test]
fn matcher_matches_anywhere_but_anchored_matcher_only_at_start() {
    let plain = Matcher::new("b+c").unwrap();
    assert!(plain.is_match("aabbcc"));
    assert!(!plain.is_match("ccbbaa"));
    let anchored = Matcher::new_anchored("b+c").unwrap();
    assert!(anchored.is_match("bcd"));
    assert!(!anchored.is_match("abc"));
}

#[test]
fn anchoring_covers_a_top_level_alternation() {
    let anchored = Matcher::new_anchored("b|c").unwrap();
    assert!(anchored.is_match("bcd"));
    assert!(anchored.is_match("cup"));
    // Neither branch may match away from the start of the line.
    assert!(!anchored.is_match("abc"));
    assert!(!anchored.is_match("arc"));
}

#[test]
fn alternating_start_marker_stays_anchored_in_the_assembler() {
    let mut a = new_assembler("ERROR|WARN", "ERROR", 1000);
    assert_eq!(a.handle(line("ERROR boom")), None);
    // A WARN in the middle of a line is not a record boundary.
    assert_eq!(a.handle(line("  tail mentions WARN")), None);
    assert_eq!(a.handle(Command::Eof), Some("ERROR boom\n  tail mentions WARN".to_owned()));
}
