use dispatcher::mem_ram::{RAMBlock, RAM};

fn b(status: char, pid: i32, mem_index: i32, extension: i32) -> RAMBlock {
    RAMBlock { status, pid, mem_index, extension }
}

fn view(v: &Vec<RAMBlock>) -> Vec<(char, i32, i32, i32)> {
    v.iter().map(|x| (x.status, x.pid, x.mem_index, x.extension)).collect()
}

fn ram(rt: Vec<RAMBlock>, user: Vec<RAMBlock>) -> RAM {
    RAM { realtime_mem: rt, user_mem: user }
}

#[test]
fn get_mem_picks_area_by_priority() {
    let r = ram(vec![b('L', 0, 0, 64)], vec![b('L', 0, 0, 960)]);
    assert_eq!(r.get_mem(0)[0].extension, 64);
    assert_eq!(r.get_mem(-3)[0].extension, 64);
    assert_eq!(r.get_mem(2)[0].extension, 960);
}

#[test]
fn index_searches_find_first_span_of_pid() {
    let mut r = ram(
        vec![b('P', 3, 0, 4), b('P', 5, 4, 4), b('P', 5, 8, 4)],
        vec![b('P', 7, 0, 4)],
    );
    assert_eq!(r.get_rt_mem_index(5), (true, 1));
    assert_eq!(r.get_rt_mem_index(7), (false, 0));
    assert_eq!(r.get_user_mem_index(7), (true, 0));
    assert_eq!(r.get_mem_index(5, 0), (true, 1));
    assert_eq!(r.get_mem_index(5, 1), (false, 0));
    assert_eq!(r.get_mem_index(7, 3), (true, 0));
}

#[test]
fn availability_searches_first_free_span_big_enough() {
    let mut r = ram(
        vec![b('P', 1, 0, 10), b('L', 0, 10, 3), b('L', 0, 13, 8)],
        vec![b('P', 1, 0, 10)],
    );
    assert_eq!(r.rt_mem_available(3), (true, 1));
    assert_eq!(r.rt_mem_available(4), (true, 2));
    assert_eq!(r.rt_mem_available(9), (false, 0));
    assert_eq!(r.user_mem_available(1), (false, 0));
    assert_eq!(r.mem_available(0, 8), (true, 2));
    assert_eq!(r.mem_available(1, 8), (false, 0));
}

#[test]
fn alloc_exact_fit_takes_span() {
    let mut r = ram(vec![b('L', 0, 0, 5), b('P', 2, 5, 5)], vec![]);
    r.alloc_mem(0, 9, 5, 0);
    assert_eq!(view(&r.realtime_mem), vec![('P', 9, 0, 5), ('P', 2, 5, 5)]);
}

#[test]
fn alloc_splits_span() {
    let mut r = ram(vec![], vec![b('L', 0, 0, 100)]);
    r.alloc_mem(2, 4, 30, 0);
    assert_eq!(view(&r.user_mem), vec![('P', 4, 0, 30), ('L', 0, 30, 70)]);
    assert!(r.realtime_mem.is_empty());
    r.alloc_user_mem(6, 10, 1);
    assert_eq!(view(&r.user_mem), vec![('P', 4, 0, 30), ('P', 6, 30, 10), ('L', 0, 40, 60)]);
    let mut r = ram(vec![b('L', 0, 0, 8)], vec![]);
    r.alloc_rt_mem(1, 2, 0);
    assert_eq!(view(&r.realtime_mem), vec![('P', 1, 0, 2), ('L', 0, 2, 6)]);
}

#[test]
fn can_alloc_checks_position_and_overflow() {
    let r = ram(vec![b('L', 0, i32::MAX - 1, 5)], vec![]);
    assert!(!r.can_alloc(0, 3, 0));
    assert!(r.can_alloc(0, 5, 0));
    assert!(!r.can_alloc(0, 1, 1));
    assert!(!r.can_alloc(1, 1, 0));
}

#[test]
fn dealloc_single_span() {
    let mut r = ram(vec![b('P', 3, 0, 64)], vec![]);
    r.dealloc_mem(3, 0);
    assert_eq!(view(&r.realtime_mem), vec![('L', 3, 0, 64)]);
}

#[test]
fn dealloc_unknown_pid_changes_nothing() {
    let mut r = ram(vec![b('P', 3, 0, 64)], vec![]);
    r.dealloc_rt_mem(4);
    assert_eq!(view(&r.realtime_mem), vec![('P', 3, 0, 64)]);
}

#[test]
fn dealloc_first_merges_with_free_next() {
    let mut r = ram(vec![], vec![b('P', 3, 0, 10), b('L', 0, 10, 20)]);
    r.dealloc_user_mem(3);
    assert_eq!(view(&r.user_mem), vec![('L', 3, 0, 30)]);
}

#[test]
fn dealloc_first_with_taken_next_is_left() {
    let mut r = ram(vec![], vec![b('P', 3, 0, 10), b('P', 4, 10, 20)]);
    r.dealloc_mem(3, 1);
    assert_eq!(view(&r.user_mem), vec![('P', 3, 0, 10), ('P', 4, 10, 20)]);
}

#[test]
fn dealloc_last_merges_into_free_previous() {
    let mut r = ram(vec![b('L', 0, 0, 10), b('P', 4, 10, 20)], vec![]);
    r.dealloc_mem(4, 0);
    assert_eq!(view(&r.realtime_mem), vec![('L', 0, 0, 30)]);
}

#[test]
fn dealloc_last_with_taken_previous_is_left() {
    let mut r = ram(vec![b('P', 1, 0, 10), b('P', 4, 10, 20)], vec![]);
    r.dealloc_mem(4, 0);
    assert_eq!(view(&r.realtime_mem), vec![('P', 1, 0, 10), ('P', 4, 10, 20)]);
}

#[test]
fn dealloc_middle_cases() {
    let mut r = ram(
        vec![b('L', 0, 0, 1), b('P', 2, 1, 2), b('L', 0, 3, 3), b('P', 9, 6, 1)],
        vec![],
    );
    r.dealloc_mem(2, 0);
    assert_eq!(view(&r.realtime_mem), vec![('L', 0, 0, 6), ('P', 9, 6, 1)]);

    let mut r = ram(vec![b('L', 0, 0, 1), b('P', 2, 1, 2), b('P', 3, 3, 3)], vec![]);
    r.dealloc_mem(2, 0);
    assert_eq!(view(&r.realtime_mem), vec![('L', 0, 0, 3), ('P', 3, 3, 3)]);

    let mut r = ram(vec![b('P', 1, 0, 1), b('P', 2, 1, 2), b('L', 0, 3, 3)], vec![]);
    r.dealloc_mem(2, 0);
    assert_eq!(view(&r.realtime_mem), vec![('P', 1, 0, 1), ('L', 2, 1, 5)]);

    let mut r = ram(vec![b('P', 1, 0, 1), b('P', 2, 1, 2), b('P', 3, 3, 3)], vec![]);
    r.dealloc_mem(2, 0);
    assert_eq!(view(&r.realtime_mem), vec![('P', 1, 0, 1), ('L', 2, 1, 2), ('P', 3, 3, 3)]);
}

#[test]
fn merges_by_priority_and_by_area() {
    let mut r = ram(
        vec![b('P', 1, 0, 1), b('P', 2, 1, 2)],
        vec![b('P', 1, 0, 1), b('P', 2, 1, 2), b('P', 3, 3, 3)],
    );
    r.merge_free_block(0, 1, 0);
    assert_eq!(view(&r.realtime_mem), vec![('L', 1, 0, 3)]);
    r.merge_two_free_blocks(0, 2, 1, 1);
    assert_eq!(view(&r.user_mem), vec![('P', 1, 0, 6)]);

    let mut r = ram(vec![b('P', 1, 0, 1), b('P', 2, 1, 2), b('P', 3, 3, 3)], vec![b('P', 1, 0, 4), b('P', 2, 4, 4)]);
    r.merge_two_free_rt_blocks(0, 2, 1);
    assert_eq!(view(&r.realtime_mem), vec![('P', 1, 0, 6)]);
    r.merge_free_user_block(1, 0);
    assert_eq!(view(&r.user_mem), vec![('L', 2, 4, 8)]);
    r.merge_free_rt_block(0, 0);
    assert!(r.realtime_mem.is_empty());
    let mut r = ram(vec![], vec![b('P', 1, 0, 1), b('P', 2, 1, 2), b('P', 3, 3, 3)]);
    r.merge_two_free_user_blocks(1, 2, 0);
    assert_eq!(view(&r.user_mem), vec![('P', 2, 1, 6)]);
}

#[test]
fn alloc_then_dealloc_restores_free_space() {
    let mut r = ram(vec![b('P', 1, 0, 10), b('L', 0, 10, 50), b('P', 2, 60, 4)], vec![]);
    let (found, at) = r.mem_available(0, 20);
    assert!(found);
    r.alloc_mem(0, 8, 20, at);
    assert_eq!(view(&r.realtime_mem), vec![('P', 1, 0, 10), ('P', 8, 10, 20), ('L', 0, 30, 30), ('P', 2, 60, 4)]);
    r.dealloc_mem(8, 0);
    let spans: Vec<(char, i32, i32)> = r.realtime_mem.iter().map(|x| (x.status, x.mem_index, x.extension)).collect();
    assert_eq!(spans, vec![('P', 0, 10), ('L', 10, 50), ('P', 60, 4)]);
}

#[test]
fn exact_fit_at_the_edge_is_not_released() {
    let mut r = ram(vec![b('L', 0, 0, 5), b('P', 2, 5, 5)], vec![]);
    r.alloc_mem(0, 8, 5, 0);
    r.dealloc_mem(8, 0);
    assert_eq!(view(&r.realtime_mem), vec![('P', 8, 0, 5), ('P', 2, 5, 5)]);
}

#[test]
fn alloc_then_find_gives_the_new_span() {
    let mut r = ram(vec![b('P', 1, 0, 10), b('L', 0, 10, 50)], vec![]);
    r.alloc_mem(0, 8, 20, 1);
    assert_eq!(r.get_mem_index(8, 0), (true, 1));
    assert_eq!(r.realtime_mem[1].status, 'P');
    assert_eq!((r.realtime_mem[1].mem_index, r.realtime_mem[1].extension), (10, 20));
}

#[test]
fn alloc_and_dealloc_keep_total_tiling_and_free_apart() {
    let mut r = ram(vec![], vec![b('L', 0, 0, 100)]);
    let total = |v: &Vec<RAMBlock>| v.iter().map(|x| x.extension).sum::<i32>();
    let free = |v: &Vec<RAMBlock>| v.iter().filter(|x| x.status == 'L').map(|x| x.extension).sum::<i32>();
    let tiled = |v: &Vec<RAMBlock>| v.windows(2).all(|w| w[0].mem_index + w[0].extension == w[1].mem_index);
    let apart = |v: &Vec<RAMBlock>| v.windows(2).all(|w| !(w[0].status == 'L' && w[1].status == 'L'));
    r.alloc_mem(1, 1, 30, 0);
    r.alloc_mem(1, 2, 20, 1);
    r.alloc_mem(1, 3, 10, 2);
    assert_eq!((total(&r.user_mem), free(&r.user_mem)), (100, 40));
    r.dealloc_mem(2, 1);
    assert_eq!((total(&r.user_mem), free(&r.user_mem)), (100, 60));
    assert!(tiled(&r.user_mem) && apart(&r.user_mem));
    r.dealloc_mem(3, 1);
    assert_eq!((total(&r.user_mem), free(&r.user_mem)), (100, 70));
    assert!(tiled(&r.user_mem) && apart(&r.user_mem));
    assert_eq!(view(&r.user_mem), vec![('P', 1, 0, 30), ('L', 2, 30, 70)]);
}

#[test]
fn can_dealloc_detects_overflow() {
    let r = ram(vec![b('P', 3, 0, i32::MAX), b('L', 0, 0, 1)], vec![b('P', 3, 0, 5), b('L', 0, 5, 1)]);
    assert!(!r.can_dealloc(3, 0));
    assert!(r.can_dealloc(3, 1));
    assert!(r.can_dealloc(4, 0));
}
