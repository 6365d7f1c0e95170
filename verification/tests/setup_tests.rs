use dispatcher::filesystem::{Block, File, FileSystem};
use dispatcher::instruction::{parse_unsigned_number, split_at_comma_space};
use dispatcher::mem_ram::{RAMBlock, RAM};
use dispatcher::processo::{Processo, State};
use dispatcher::setup::{
    admit_line, admit_process, assign_instruction, can_populate, create_disk, parse_count,
    parse_disk_file_line, parse_process_line, place_file_line, populate_disk, process_offset,
    AdmitOutcome, PlaceOutcome,
};

fn chars(s: &str) -> Vec<char> {
    s.chars().collect()
}

fn process(pid: u16, priority: usize, blocks: u32, offset: u32) -> Processo {
    Processo {
        pid,
        offset,
        init_time: 0,
        priority,
        time: 2,
        blocks,
        printer: 0,
        scanner: false,
        modem: false,
        drive: 0,
        instructions: Vec::new(),
        state: State::Ready,
    }
}

#[test]
fn create_disk_makes_one_free_span() {
    let mut d = FileSystem { fs: Vec::new(), blocks: Vec::new() };
    create_disk(&mut d, 4);
    assert_eq!(d.fs.len(), 1);
    assert!(d.fs[0].free);
    assert_eq!(d.fs[0].file_name, "Disk Free");
    assert_eq!((d.fs[0].file_owner, d.fs[0].index, d.fs[0].size), (1001, 0, 4));
    assert_eq!(d.blocks, vec![Block::Free, Block::Free, Block::Free, Block::Free]);
}

#[test]
fn populate_disk_places_file_on_free_blocks() {
    let mut d = FileSystem { fs: Vec::new(), blocks: Vec::new() };
    create_disk(&mut d, 6);
    assert!(can_populate(&d, 1, 3));
    assert!(populate_disk(&mut d, "X".to_string(), 1, 3));
    assert_eq!(
        d.blocks,
        vec![Block::Free, Block::Occupied, Block::Occupied, Block::Occupied, Block::Free, Block::Free]
    );
    assert_eq!(d.fs[0].size, 3);
    let f: &File = &d.fs[1];
    assert_eq!((f.free, f.file_name.as_str(), f.file_owner, f.index, f.size), (false, "X", 1001, 1, 3));
}

#[test]
fn populate_disk_refuses_taken_blocks() {
    let mut d = FileSystem { fs: Vec::new(), blocks: Vec::new() };
    create_disk(&mut d, 6);
    assert!(populate_disk(&mut d, "X".to_string(), 1, 3));
    assert!(can_populate(&d, 3, 10));
    assert!(!populate_disk(&mut d, "Y".to_string(), 3, 10));
    assert_eq!(d.fs.len(), 2);
    assert_eq!(d.fs[0].size, 3);
}

#[test]
fn can_populate_detects_out_of_range() {
    let mut d = FileSystem { fs: Vec::new(), blocks: Vec::new() };
    create_disk(&mut d, 4);
    assert!(!can_populate(&d, 2, 5));
    assert!(!can_populate(&d, usize::MAX, 1));
    assert!(can_populate(&d, 10, 0));
    let empty = FileSystem { fs: Vec::new(), blocks: vec![Block::Free] };
    assert!(!can_populate(&empty, 0, 1));
}

#[test]
fn parse_process_line_reads_eight_fields() {
    let p = parse_process_line(&"2, 0, 3, 64, 1, 0, 1, 0".to_string(), 7).unwrap();
    assert_eq!(
        (p.pid, p.offset, p.init_time, p.priority, p.time, p.blocks, p.printer, p.scanner, p.modem, p.drive),
        (7, 0, 2, 0, 3, 64, 1, false, true, 0)
    );
    assert!(p.instructions.is_empty());
    assert_eq!(p.state, State::Ready);
    assert!(parse_process_line(&"2, 0, 3, 64, 1, 0, 1".to_string(), 7).is_none());
    assert!(parse_process_line(&"2, 0, 3, 64, 1, 256, 1, 0".to_string(), 7).is_none());
    assert!(parse_process_line(&"2,0,3,64,1,0,1,0".to_string(), 7).is_none());
    assert!(parse_process_line(&"2, -1, 3, 64, 1, 0, 1, 0".to_string(), 7).is_none());
}

#[test]
fn process_offset_follows_last_in_queue() {
    let queues = vec![vec![process(0, 0, 64, 0)], vec![], vec![process(1, 2, 10, 5)], vec![]];
    assert_eq!(process_offset(&queues, 0, 0), Some(0));
    assert_eq!(process_offset(&queues, 0, 3), Some(65));
    assert_eq!(process_offset(&queues, 1, 3), Some(0));
    assert_eq!(process_offset(&queues, 2, 3), Some(16));
    let full = vec![vec![process(0, 0, u32::MAX, 0)]];
    assert_eq!(process_offset(&full, 0, 1), None);
}

#[test]
fn parse_disk_file_line_and_count() {
    let (name, index, size) = parse_disk_file_line(&"X, 0, 2".to_string()).unwrap();
    assert_eq!((name.as_str(), index, size), ("X", 0, 2));
    assert!(parse_disk_file_line(&"X, 0".to_string()).is_none());
    assert!(parse_disk_file_line(&"X, a, 2".to_string()).is_none());
    assert_eq!(parse_count(&"10".to_string()), Some(10));
    assert_eq!(parse_count(&"+10".to_string()), Some(10));
    assert_eq!(parse_count(&"10 ".to_string()), None);
    assert_eq!(parse_count(&"".to_string()), None);
}

#[test]
fn split_at_comma_space_and_unsigned_parse() {
    assert_eq!(split_at_comma_space(&chars("a, b,c, ")), vec![chars("a"), chars("b,c"), chars("")]);
    assert_eq!(split_at_comma_space(&chars(",, ")), vec![chars(","), chars("")]);
    assert_eq!(split_at_comma_space(&chars("")), vec![chars("")]);
    assert_eq!(parse_unsigned_number(&chars("255"), 255), Some(255));
    assert_eq!(parse_unsigned_number(&chars("256"), 255), None);
    assert_eq!(parse_unsigned_number(&chars("+0"), 255), Some(0));
    assert_eq!(parse_unsigned_number(&chars("-0"), 255), None);
    assert_eq!(parse_unsigned_number(&chars("18446744073709551615"), u64::MAX), Some(u64::MAX));
    assert_eq!(parse_unsigned_number(&chars("18446744073709551616"), u64::MAX), None);
}

#[test]
fn assign_instruction_goes_to_matching_pids() {
    let mut queues = vec![vec![process(1, 0, 1, 0), process(2, 0, 1, 0)], vec![process(1, 1, 1, 0)]];
    assert!(assign_instruction(&mut queues, &"1, 0, A, 3".to_string()));
    assert_eq!(queues[0][0].instructions, vec!["1, 0, A, 3".to_string()]);
    assert!(queues[0][1].instructions.is_empty());
    assert_eq!(queues[1][0].instructions, vec!["1, 0, A, 3".to_string()]);
    assert!(!assign_instruction(&mut queues, &"x, 0, A, 3".to_string()));
    assert!(!assign_instruction(&mut queues, &"70000, 0, A, 3".to_string()));
    assert_eq!(queues[0][0].instructions.len(), 1);
}

#[test]
fn admit_process_refuses_when_a_span_would_hold_it() {
    let mut ram = RAM {
        realtime_mem: vec![RAMBlock { status: 'L', pid: 0, mem_index: 0, extension: 64 }],
        user_mem: vec![RAMBlock { status: 'P', pid: 9, mem_index: 0, extension: 10 }, RAMBlock { status: 'L', pid: 0, mem_index: 10, extension: 20 }],
    };
    let mut queues: Vec<Vec<Processo>> = vec![vec![], vec![], vec![], vec![]];
    assert!(!admit_process(&mut ram, &mut queues, process(0, 0, 8, 0)));
    assert!(queues[0].is_empty());
    assert_eq!(ram.realtime_mem.len(), 1);
    assert!(admit_process(&mut ram, &mut queues, process(1, 2, 30, 0)));
    assert_eq!(queues[2].len(), 1);
    let user: Vec<(char, i32, i32, i32)> = ram.user_mem.iter().map(|b| (b.status, b.pid, b.mem_index, b.extension)).collect();
    assert_eq!(user, vec![('P', 1, 0, 30), ('P', 9, 30, -20), ('L', 0, 10, 20)]);
}

#[test]
fn assign_instruction_with_no_process_accepts_any_id() {
    let mut queues: Vec<Vec<Processo>> = vec![vec![], vec![]];
    assert!(assign_instruction(&mut queues, &"x, 0, A, 3".to_string()));
    assert!(queues[0].is_empty() && queues[1].is_empty());
}

#[test]
fn split_lines_drops_one_final_break() {
    let lines = dispatcher::setup::split_lines(&"a\nb, c\n".to_string()).unwrap();
    assert_eq!(lines, vec!["a".to_string(), "b, c".to_string()]);
    let lines = dispatcher::setup::split_lines(&"a\n\n".to_string()).unwrap();
    assert_eq!(lines, vec!["a".to_string(), "".to_string()]);
    let lines = dispatcher::setup::split_lines(&"\n".to_string()).unwrap();
    assert_eq!(lines, vec!["".to_string()]);
    assert!(dispatcher::setup::split_lines(&"".to_string()).is_none());
}

#[test]
fn admit_line_outcomes() {
    let mut ram = RAM {
        realtime_mem: vec![RAMBlock { status: 'P', pid: 9, mem_index: 0, extension: 64 }],
        user_mem: vec![RAMBlock { status: 'L', pid: 0, mem_index: 0, extension: 16 }],
    };
    let mut queues: Vec<Vec<Processo>> = vec![vec![], vec![], vec![], vec![]];
    assert!(matches!(admit_line(&mut ram, &mut queues, &"0, 0, 3".to_string(), 0), AdmitOutcome::Malformed));
    assert!(matches!(admit_line(&mut ram, &mut queues, &"0, 5, 3, 8, 0, 0, 0, 0".to_string(), 1), AdmitOutcome::NoQueue));
    assert!(matches!(admit_line(&mut ram, &mut queues, &"0, 1, 3, 8, 0, 0, 0, 0".to_string(), 1), AdmitOutcome::Refused(1)));
    assert!(matches!(admit_line(&mut ram, &mut queues, &"0, 0, 3, 8, 0, 0, 0, 0".to_string(), 2), AdmitOutcome::Admitted));
    assert_eq!(queues[0].len(), 1);
    assert_eq!((queues[0][0].pid, queues[0][0].blocks, queues[0][0].offset), (2, 8, 0));
    let rt: Vec<(char, i32, i32, i32)> = ram.realtime_mem.iter().map(|b| (b.status, b.pid, b.mem_index, b.extension)).collect();
    assert_eq!(rt, vec![('P', 2, 0, 8), ('P', 9, 8, 56)]);
    assert!(matches!(admit_line(&mut ram, &mut queues, &"0, 0, 3, 4, 0, 0, 0, 0".to_string(), 3), AdmitOutcome::Admitted));
    assert_eq!(queues[0][1].offset, 9);
    assert_eq!(queues[0].len(), 2);
    let mut small = RAM { realtime_mem: vec![RAMBlock { status: 'P', pid: 9, mem_index: 0, extension: 64 }], user_mem: vec![] };
    let mut one = vec![vec![process(0, 0, 1, 0)]];
    assert!(matches!(admit_line(&mut small, &mut one, &"0, 0, 3, 4, 0, 0, 0, 0".to_string(), 4), AdmitOutcome::NoSpan));
    assert_eq!(one[0].len(), 1);
    let mut full = vec![vec![process(0, 0, u32::MAX, 0)], vec![]];
    let mut big = RAM { realtime_mem: vec![], user_mem: vec![] };
    assert!(matches!(admit_line(&mut big, &mut full, &"0, 0, 3, 4, 0, 0, 0, 0".to_string(), 1), AdmitOutcome::OffsetOverflow));
}

#[test]
fn place_file_line_outcomes() {
    let mut d = FileSystem { fs: Vec::new(), blocks: Vec::new() };
    create_disk(&mut d, 5);
    assert!(matches!(place_file_line(&mut d, &"A, 1".to_string()), PlaceOutcome::Malformed));
    assert!(matches!(place_file_line(&mut d, &"A, 4, 2".to_string()), PlaceOutcome::OutOfRange));
    assert!(matches!(place_file_line(&mut d, &"A, 1, 2".to_string()), PlaceOutcome::Placed));
    assert_eq!(d.fs[1].file_name, "A");
    match place_file_line(&mut d, &"B, 2, 2".to_string()) {
        PlaceOutcome::Taken(name) => assert_eq!(name, "B"),
        _ => panic!("expected Taken"),
    }
    assert_eq!(d.fs.len(), 2);
    assert_eq!(d.fs[0].size, 3);
}
