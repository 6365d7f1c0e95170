use dispatcher::filesystem::{Block, File, FileSystem};
use dispatcher::instruction::{chars_to_string, parse_number, split_at_char, strip_whitespace};
use dispatcher::processo::{ExecStep, Processo, State};

fn process(pid: u16, priority: usize, time: u32, instructions: &[&str]) -> Processo {
    Processo {
        pid,
        offset: 0,
        init_time: 0,
        priority,
        time,
        blocks: 4,
        printer: 0,
        scanner: false,
        modem: false,
        drive: 0,
        instructions: instructions.iter().map(|s| s.to_string()).collect(),
        state: State::Ready,
    }
}

fn file(free: bool, name: &str, owner: i32, index: i32, size: i32) -> File {
    File { free, file_name: name.to_string(), file_owner: owner, index, size }
}

fn layout(d: &FileSystem) -> Vec<(bool, String, i32, i32, i32)> {
    d.fs.iter().map(|f| (f.free, f.file_name.clone(), f.file_owner, f.index, f.size)).collect()
}

fn t(free: bool, name: &str, owner: i32, index: i32, size: i32) -> (bool, String, i32, i32, i32) {
    (free, name.to_string(), owner, index, size)
}

fn chars(s: &str) -> Vec<char> {
    s.chars().collect()
}

#[test]
fn instruction_list_operations() {
    let mut p = process(1, 1, 3, &["a", "b", "c"]);
    assert_eq!(p.get_instruction(), "a");
    p.remove_instruction();
    assert_eq!(p.instructions, vec!["b".to_string(), "c".to_string()]);
    p.pop_instruction();
    assert_eq!(p.instructions, vec!["b".to_string()]);
    p.pop_instruction();
    p.pop_instruction();
    assert!(p.instructions.is_empty());
}

#[test]
fn strip_whitespace_drops_all_white_space() {
    assert_eq!(strip_whitespace(&" a\tb\n c ,\u{A0}d".to_string()), chars("abc,d"));
    assert_eq!(strip_whitespace(&"".to_string()), chars(""));
}

#[test]
fn split_at_char_keeps_empty_fields() {
    let f = split_at_char(&chars("a,,bc,"), ',');
    assert_eq!(f, vec![chars("a"), chars(""), chars("bc"), chars("")]);
    assert_eq!(split_at_char(&chars(""), ','), vec![chars("")]);
    assert_eq!(split_at_char(&chars("xyz"), ','), vec![chars("xyz")]);
}

#[test]
fn parse_number_reads_i32() {
    assert_eq!(parse_number(&chars("12")), Some(12));
    assert_eq!(parse_number(&chars("+12")), Some(12));
    assert_eq!(parse_number(&chars("-7")), Some(-7));
    assert_eq!(parse_number(&chars("007")), Some(7));
    assert_eq!(parse_number(&chars("2147483647")), Some(i32::MAX));
    assert_eq!(parse_number(&chars("-2147483648")), Some(i32::MIN));
    assert_eq!(parse_number(&chars("2147483648")), None);
    assert_eq!(parse_number(&chars("99999999999999999999")), None);
    assert_eq!(parse_number(&chars("")), None);
    assert_eq!(parse_number(&chars("-")), None);
    assert_eq!(parse_number(&chars("+")), None);
    assert_eq!(parse_number(&chars("1a")), None);
    assert_eq!(parse_number(&chars("--1")), None);
}

#[test]
fn chars_to_string_builds_the_text() {
    assert_eq!(chars_to_string(&chars("héllo")), "héllo".to_string());
    assert_eq!(chars_to_string(&chars("")), String::new());
}

#[test]
fn do_instruction_creates_file_in_first_free_span() {
    let mut d = FileSystem {
        fs: vec![file(false, "A", 9, 0, 2), file(true, "Disk Free", 1001, 2, 8)],
        blocks: vec![Block::Free],
    };
    let p = process(3, 1, 5, &[]);
    p.do_instruction(&mut d, &"3, 0, X, 5".to_string());
    assert_eq!(
        layout(&d),
        vec![t(false, "A", 9, 0, 2), t(true, "X", 3, 2, 5), t(true, "Disk Free", 1001, 7, 3)]
    );
}

#[test]
fn do_instruction_without_room_changes_nothing() {
    let mut d = FileSystem { fs: vec![file(true, "Disk Free", 1001, 0, 4)], blocks: vec![] };
    let p = process(3, 1, 5, &[]);
    p.do_instruction(&mut d, &"3, 0, X, 5".to_string());
    assert_eq!(layout(&d), vec![t(true, "Disk Free", 1001, 0, 4)]);
}

#[test]
fn do_instruction_deletes_own_file() {
    let mut d = FileSystem {
        fs: vec![file(false, "A", 9, 0, 2), file(false, "B", 3, 2, 3), file(false, "C", 9, 5, 1)],
        blocks: vec![],
    };
    let p = process(3, 1, 5, &[]);
    p.do_instruction(&mut d, &"3, 1, B".to_string());
    assert_eq!(
        layout(&d),
        vec![t(false, "A", 9, 0, 2), t(true, "B", 3, 2, 3), t(false, "C", 9, 5, 1)]
    );
    let q = process(4, 2, 5, &[]);
    q.do_instruction(&mut d, &"4, 1, A".to_string());
    assert_eq!(layout(&d)[0], t(false, "A", 9, 0, 2));
}

#[test]
fn try_do_instruction_rejects_malformed() {
    let mut d = FileSystem { fs: vec![file(true, "Disk Free", 1001, 0, 4)], blocks: vec![] };
    let p = process(3, 1, 5, &[]);
    assert!(!p.try_do_instruction(&mut d, &"3".to_string()));
    assert!(!p.try_do_instruction(&mut d, &"3, 0, X".to_string()));
    assert!(!p.try_do_instruction(&mut d, &"3, 0, X, five".to_string()));
    assert!(!p.try_do_instruction(&mut d, &"3, 1".to_string()));
    assert_eq!(layout(&d), vec![t(true, "Disk Free", 1001, 0, 4)]);
    assert!(p.try_do_instruction(&mut d, &"3, 0, X, 1".to_string()));
    assert_eq!(layout(&d), vec![t(true, "X", 3, 0, 1), t(true, "Disk Free", 1001, 1, 3)]);
    assert!(p.try_do_instruction(&mut d, &"3, 7, X".to_string()));
    assert_eq!(layout(&d), vec![t(true, "X", 3, 0, 4)]);
}

#[test]
fn execute_step_follows_the_quantum() {
    let mut d = FileSystem { fs: vec![file(true, "Disk Free", 1001, 0, 10)], blocks: vec![] };
    let mut p = process(2, 1, 2, &["2, 0, F, 4", "2, 1, F"]);
    assert!(matches!(p.execute_step(&mut d, 0, false), ExecStep::Ran));
    assert_eq!(p.instructions.len(), 1);
    assert_eq!(layout(&d), vec![t(true, "F", 2, 0, 4), t(true, "Disk Free", 1001, 4, 6)]);
    assert!(matches!(p.execute_step(&mut d, 1, true), ExecStep::Preempted));
    assert_eq!(p.state, State::Waiting);
    assert!(matches!(p.execute_step(&mut d, 2, false), ExecStep::Preempted));
    assert!(matches!(p.execute_step(&mut d, 1, false), ExecStep::Ran));
    assert_eq!(layout(&d), vec![t(true, "F", 2, 0, 10)]);
    assert!(matches!(p.execute_step(&mut d, 0, false), ExecStep::Finished));
    assert_eq!(p.state, State::Terminated);
}

#[test]
fn execute_step_reports_malformed_instruction() {
    let mut d = FileSystem { fs: vec![file(true, "Disk Free", 1001, 0, 10)], blocks: vec![] };
    let mut p = process(2, 1, 5, &["2"]);
    assert!(matches!(p.execute_step(&mut d, 0, false), ExecStep::Malformed));
    assert_eq!(p.instructions.len(), 1);
    assert_eq!(p.state, State::Ready);
}

#[test]
fn strip_whitespace_uses_unicode_white_space() {
    let text = "a\u{85}b\u{2028}c\u{3000}d\u{1680}e\u{200A}f\u{202F}g\u{205F}h\u{0B}i\u{200B}j".to_string();
    assert_eq!(strip_whitespace(&text), chars("abcdefghi\u{200B}j"));
}

#[test]
fn begin_execution_marks_running() {
    let mut p = process(1, 1, 3, &["a"]);
    p.begin_execution();
    assert_eq!(p.state, State::Running);
    assert_eq!(p.instructions.len(), 1);
}
