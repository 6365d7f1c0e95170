use vstd::prelude::*;

use crate::search::{first_match, lemma_first_match, lemma_first_match_at, lemma_first_match_none, search_pair};
use crate::segments::{
    Release, Seg, free_flags, lemma_release_plan_shape, release_plan, seg_release, seg_split,
};

verus! {

/// A span of main memory: `status` is 'L' when it is free and 'P' when process
/// `pid` holds it; it starts at `mem_index` and is `extension` blocks long.
#[derive(Debug, Clone, Copy)]
pub struct RAMBlock {
    pub status: char,
    pub pid: i32,
    pub mem_index: i32,
    pub extension: i32,
}

/// Main memory: one area for real-time processes (priority 0) and one for user
/// processes (any other priority), each a list of spans in order.
pub struct RAM {
    pub realtime_mem: Vec<RAMBlock>,
    pub user_mem: Vec<RAMBlock>,
}

impl View for RAM {
    type V = (Seq<RAMBlock>, Seq<RAMBlock>);

    open spec fn view(&self) -> (Seq<RAMBlock>, Seq<RAMBlock>) {
        (self.realtime_mem@, self.user_mem@)
    }
}

/// The status of a free span.
pub open spec fn free_status() -> char {
    'L'
}

/// The status of a span that a process holds.
pub open spec fn taken_status() -> char {
    'P'
}

/// The area that a process of `process_priority` uses, out of `(realtime, user)`.
pub open spec fn region(m: (Seq<RAMBlock>, Seq<RAMBlock>), process_priority: i32) -> Seq<RAMBlock> {
    if process_priority > 0 {
        m.1
    } else {
        m.0
    }
}

/// `(realtime, user)` with the area of `process_priority` replaced by `s`.
pub open spec fn set_region(
    m: (Seq<RAMBlock>, Seq<RAMBlock>),
    process_priority: i32,
    s: Seq<RAMBlock>,
) -> (Seq<RAMBlock>, Seq<RAMBlock>) {
    if process_priority > 0 {
        (m.0, s)
    } else {
        (s, m.1)
    }
}

/// A span that process `pid` is recorded on.
pub open spec fn owned_by(pid: i32) -> spec_fn(RAMBlock) -> bool {
    |b: RAMBlock| b.pid == pid
}

/// A free span that can hold `size` blocks.
pub open spec fn room_for(size: i32) -> spec_fn(RAMBlock) -> bool {
    |b: RAMBlock| b.status == free_status() && b.extension >= size
}

/// A span seen as (free, start, length).
pub open spec fn block_seg(b: RAMBlock) -> Seg {
    (b.status == free_status(), b.mem_index as int, b.extension as int)
}

/// The spans of an area seen as (free, start, length).
pub open spec fn block_segs(s: Seq<RAMBlock>) -> Seq<Seg> {
    s.map_values(|b: RAMBlock| block_seg(b))
}

/// A sum of two lengths that a span can hold.
pub open spec fn fits_i32(n: int) -> bool {
    i32::MIN <= n <= i32::MAX
}

/// `b` marked free.
pub open spec fn freed_block(b: RAMBlock) -> RAMBlock {
    RAMBlock { status: free_status(), ..b }
}

/// `b` with length `extension`.
pub open spec fn resized_block(b: RAMBlock, extension: int) -> RAMBlock {
    RAMBlock { extension: extension as i32, ..b }
}

/// Span `stay` takes the length of span `remove` and becomes free; `remove` goes.
pub open spec fn merge_blocks(s: Seq<RAMBlock>, stay: int, remove: int) -> Seq<RAMBlock> {
    s.update(stay, freed_block(resized_block(s[stay], s[stay].extension + s[remove].extension))).remove(
        remove,
    )
}

/// Span `stay` takes the lengths of `first`, then of `second`; `first` goes,
/// then, from what is left, `second`.
pub open spec fn merge_two_blocks(s: Seq<RAMBlock>, stay: int, first: int, second: int) -> Seq<
    RAMBlock,
> {
    let s1 = s.update(stay, resized_block(s[stay], s[stay].extension + s[first].extension));
    let s2 = s1.update(stay, resized_block(s1[stay], s1[stay].extension + s1[second].extension));
    s2.remove(first).remove(second)
}

/// The sums of `merge_two_blocks` stay in range.
pub open spec fn merge_two_blocks_fit(s: Seq<RAMBlock>, stay: int, first: int, second: int) -> bool {
    let s1 = s.update(stay, resized_block(s[stay], s[stay].extension + s[first].extension));
    fits_i32(s[stay].extension + s[first].extension) && fits_i32(
        s1[stay].extension + s1[second].extension,
    )
}

/// A release applied to the spans of an area.
pub open spec fn release_blocks(s: Seq<RAMBlock>, plan: Release) -> Seq<RAMBlock> {
    match plan {
        Release::Nothing => s,
        Release::MarkFree(i) => s.update(i, freed_block(s[i])),
        Release::Merge(a, b) => merge_blocks(s, a, b),
        Release::MergeTwo(a, b, c) => merge_two_blocks(s, a, b, c),
    }
}

/// The sums of a release stay in range.
pub open spec fn release_blocks_fit(s: Seq<RAMBlock>, plan: Release) -> bool {
    match plan {
        Release::Merge(a, b) => fits_i32(s[a].extension + s[b].extension),
        Release::MergeTwo(a, b, c) => merge_two_blocks_fit(s, a, b, c),
        _ => true,
    }
}

/// The spans of an area after the first span recorded on `pid` is released.
pub open spec fn dealloc_result(s: Seq<RAMBlock>, pid: i32) -> Seq<RAMBlock> {
    match first_match(s, owned_by(pid)) {
        None => s,
        Some(i) => release_blocks(s, release_plan(free_flags(block_segs(s)), i)),
    }
}

/// The sums of a release of the span of `pid` stay in range.
pub open spec fn dealloc_fits(s: Seq<RAMBlock>, pid: i32) -> bool {
    match first_match(s, owned_by(pid)) {
        None => true,
        Some(i) => release_blocks_fit(s, release_plan(free_flags(block_segs(s)), i)),
    }
}

/// The spans of an area after `process_b_size` blocks at the start of span
/// `pos` are given to `pid`: the whole span when the sizes are equal, else a new
/// span before what is left of it.
pub open spec fn alloc_result(s: Seq<RAMBlock>, pid: i32, process_b_size: i32, pos: int) -> Seq<
    RAMBlock,
> {
    if s[pos].extension == process_b_size {
        s.update(pos, RAMBlock { status: taken_status(), pid: pid, ..s[pos] })
    } else {
        s.update(
            pos,
            RAMBlock {
                mem_index: (s[pos].mem_index + process_b_size) as i32,
                extension: (s[pos].extension - process_b_size) as i32,
                ..s[pos]
            },
        ).insert(
            pos,
            RAMBlock {
                status: taken_status(),
                pid: pid,
                mem_index: s[pos].mem_index,
                extension: process_b_size,
            },
        )
    }
}

/// `alloc_result` names a span and its sums stay in range.
pub open spec fn alloc_fits(s: Seq<RAMBlock>, process_b_size: i32, pos: int) -> bool {
    &&& 0 <= pos < s.len()
    &&& s[pos].extension != process_b_size ==> fits_i32(s[pos].mem_index + process_b_size)
        && fits_i32(s[pos].extension - process_b_size)
}

/// The spans seen as segments follow a release of the spans.
pub proof fn lemma_release_blocks_segs(s: Seq<RAMBlock>, i: int)
    requires
        0 <= i < s.len(),
        release_blocks_fit(s, release_plan(free_flags(block_segs(s)), i)),
    ensures
        block_segs(release_blocks(s, release_plan(free_flags(block_segs(s)), i))) == seg_release(
            block_segs(s),
            release_plan(free_flags(block_segs(s)), i),
        ),
{
    let plan = release_plan(free_flags(block_segs(s)), i);
    lemma_release_plan_shape(free_flags(block_segs(s)), i);
    let l = block_segs(release_blocks(s, plan));
    let r = seg_release(block_segs(s), plan);
    assert(l.len() == r.len());
    assert forall|j: int| 0 <= j < l.len() implies l[j] == r[j] by {}
    assert(l =~= r);
}

/// The spans seen as segments follow an allocation.
pub proof fn lemma_alloc_segs(s: Seq<RAMBlock>, pid: i32, process_b_size: i32, pos: int)
    requires
        alloc_fits(s, process_b_size, pos),
    ensures
        block_segs(alloc_result(s, pid, process_b_size, pos)) == seg_split(
            block_segs(s),
            pos,
            process_b_size as int,
            false,
        ),
{
    let l = block_segs(alloc_result(s, pid, process_b_size, pos));
    let r = seg_split(block_segs(s), pos, process_b_size as int, false);
    assert(l.len() == r.len());
    assert forall|j: int| 0 <= j < l.len() implies l[j] == r[j] by {}
    assert(l =~= r);
}

/// The first span of `blocks` recorded on `pid`.
fn find_owner(blocks: &Vec<RAMBlock>, pid: i32) -> (r: (bool, usize))
    ensures
        r == search_pair(first_match(blocks@, owned_by(pid))),
{
    let ghost p = owned_by(pid);
    for i in 0..blocks.len()
        invariant
            p == owned_by(pid),
            forall|j: int| 0 <= j < i ==> !p(#[trigger] blocks@[j]),
    {
        if blocks[i].pid == pid {
            proof {
                lemma_first_match_at(blocks@, p, i as int);
            }
            return (true, i);
        }
    }
    proof {
        lemma_first_match_none(blocks@, p);
    }
    (false, 0)
}

/// The first free span of `blocks` that can hold `process_b_size` blocks.
fn find_room(blocks: &Vec<RAMBlock>, process_b_size: i32) -> (r: (bool, usize))
    ensures
        r == search_pair(first_match(blocks@, room_for(process_b_size))),
{
    let ghost p = room_for(process_b_size);
    for i in 0..blocks.len()
        invariant
            p == room_for(process_b_size),
            forall|j: int| 0 <= j < i ==> !p(#[trigger] blocks@[j]),
    {
        if blocks[i].status == 'L' && blocks[i].extension >= process_b_size {
            proof {
                lemma_first_match_at(blocks@, p, i as int);
            }
            return (true, i);
        }
    }
    proof {
        lemma_first_match_none(blocks@, p);
    }
    (false, 0)
}

/// Gives `process_b_size` blocks at the start of span `pos` to `pid`.
fn alloc_in(blocks: &mut Vec<RAMBlock>, pid: i32, process_b_size: i32, available_mem_pos: usize)
    requires
        alloc_fits(old(blocks)@, process_b_size, available_mem_pos as int),
    ensures
        final(blocks)@ == alloc_result(old(blocks)@, pid, process_b_size, available_mem_pos as int),
{
    if blocks[available_mem_pos].extension == process_b_size {
        blocks[available_mem_pos].status = 'P';
        blocks[available_mem_pos].pid = pid;
    } else {
        let new_block = RAMBlock {
            status: 'P',
            pid: pid,
            mem_index: blocks[available_mem_pos].mem_index,
            extension: process_b_size,
        };

        blocks[available_mem_pos].mem_index = blocks[available_mem_pos].mem_index + process_b_size;
        blocks[available_mem_pos].extension = blocks[available_mem_pos].extension - process_b_size;

        blocks.insert(available_mem_pos, new_block);
    }
    proof {
        assert(blocks@ =~= alloc_result(
            old(blocks)@,
            pid,
            process_b_size,
            available_mem_pos as int,
        ));
    }
}

/// Span `stay_block` takes the length of `remove_block` and becomes free;
/// `remove_block` is removed.
fn merge_in(blocks: &mut Vec<RAMBlock>, stay_block: usize, remove_block: usize)
    requires
        stay_block < old(blocks)@.len(),
        remove_block < old(blocks)@.len(),
        fits_i32(
            old(blocks)@[stay_block as int].extension + old(blocks)@[remove_block as int].extension,
        ),
    ensures
        final(blocks)@ == merge_blocks(old(blocks)@, stay_block as int, remove_block as int),
{
    blocks[stay_block].status = 'L';
    let extra = blocks[remove_block].extension;
    blocks[stay_block].extension = blocks[stay_block].extension + extra;
    blocks.remove(remove_block);
    proof {
        assert(blocks@ =~= merge_blocks(old(blocks)@, stay_block as int, remove_block as int));
    }
}

/// Span `stay_block` takes the lengths of the two others, which are removed,
/// the first before the second.
fn merge_two_in(
    blocks: &mut Vec<RAMBlock>,
    stay_block: usize,
    first_remove_block: usize,
    second_remove_block: usize,
)
    requires
        stay_block < old(blocks)@.len(),
        first_remove_block < old(blocks)@.len(),
        second_remove_block < old(blocks)@.len() - 1,
        merge_two_blocks_fit(
            old(blocks)@,
            stay_block as int,
            first_remove_block as int,
            second_remove_block as int,
        ),
    ensures
        final(blocks)@ == merge_two_blocks(
            old(blocks)@,
            stay_block as int,
            first_remove_block as int,
            second_remove_block as int,
        ),
{
    let first = blocks[first_remove_block].extension;
    blocks[stay_block].extension = blocks[stay_block].extension + first;
    let second = blocks[second_remove_block].extension;
    blocks[stay_block].extension = blocks[stay_block].extension + second;
    blocks.remove(first_remove_block);
    blocks.remove(second_remove_block);
    proof {
        assert(blocks@ =~= merge_two_blocks(
            old(blocks)@,
            stay_block as int,
            first_remove_block as int,
            second_remove_block as int,
        ));
    }
}

/// Releases the first span of `blocks` recorded on `pid` (see `release_plan`).
fn dealloc_in(blocks: &mut Vec<RAMBlock>, pid: i32)
    requires
        dealloc_fits(old(blocks)@, pid),
    ensures
        final(blocks)@ == dealloc_result(old(blocks)@, pid),
{
    let ghost plan_free = free_flags(block_segs(blocks@));
    let (found, index) = find_owner(blocks, pid);
    proof {
        lemma_first_match(blocks@, owned_by(pid));
    }
    if !found {
        proof {
            assert(first_match(old(blocks)@, owned_by(pid)) is None);
        }
        return;
    }
    let ghost i = index as int;
    proof {
        let k = first_match(old(blocks)@, owned_by(pid))->0;
        assert(0 <= k < blocks.len());
        assert(first_match(old(blocks)@, owned_by(pid)) == Some(i));
        lemma_release_plan_shape(plan_free, i);
        assert forall|j: int| 0 <= j < blocks@.len() implies plan_free[j] == (blocks@[j].status
            == free_status()) by {}
    }
    // a single span
    if blocks.len() == 1 {
        blocks[index].status = 'L';
        proof {
            assert(blocks@ =~= release_blocks(old(blocks)@, release_plan(plan_free, i)));
        }
        return;
    } else {
        // the first of several spans
        if index == 0 {
            if blocks[index + 1].status == 'L' {
                merge_in(blocks, index, index + 1);
            }
        // the last of several spans
        } else if index == blocks.len() - 1 {
            if blocks[index - 1].status == 'L' {
                merge_in(blocks, index - 1, index);
            }
        // any other span
        } else {
            if blocks[index - 1].status == 'L' && blocks[index + 1].status == 'L' {
                merge_two_in(blocks, index - 1, index + 1, index);
            } else if blocks[index - 1].status == 'L' {
                merge_in(blocks, index - 1, index);
            } else if blocks[index + 1].status == 'L' {
                merge_in(blocks, index, index + 1);
            } else {
                blocks[index].status = 'L';
                proof {
                    assert(blocks@ =~= release_blocks(old(blocks)@, release_plan(plan_free, i)));
                }
            }
        }
        return;
    }
}

/// Whether releasing the first span of `blocks` recorded on `pid` keeps its
/// sums in range (see `dealloc_fits`).
fn dealloc_fits_in(blocks: &Vec<RAMBlock>, pid: i32) -> (r: bool)
    ensures
        r == dealloc_fits(blocks@, pid),
{
    let (found, i) = find_owner(blocks, pid);
    proof {
        lemma_first_match(blocks@, owned_by(pid));
    }
    if !found {
        return true;
    }
    proof {
        let k = first_match(blocks@, owned_by(pid))->0;
        assert(0 <= k < blocks.len());
        let plan_free = free_flags(block_segs(blocks@));
        lemma_release_plan_shape(plan_free, i as int);
        assert forall|j: int| 0 <= j < blocks@.len() implies plan_free[j] == (blocks@[j].status
            == free_status()) by {}
    }
    let len = blocks.len();
    if len == 1 {
        true
    } else if i == 0 {
        if blocks[1].status == 'L' {
            let sum = blocks[0].extension as i64 + blocks[1].extension as i64;
            i32::MIN as i64 <= sum && sum <= i32::MAX as i64
        } else {
            true
        }
    } else if i == len - 1 {
        if blocks[i - 1].status == 'L' {
            let sum = blocks[i - 1].extension as i64 + blocks[i].extension as i64;
            i32::MIN as i64 <= sum && sum <= i32::MAX as i64
        } else {
            true
        }
    } else if blocks[i - 1].status == 'L' && blocks[i + 1].status == 'L' {
        let first = blocks[i - 1].extension as i64 + blocks[i + 1].extension as i64;
        if !(i32::MIN as i64 <= first && first <= i32::MAX as i64) {
            return false;
        }
        let second = first + blocks[i].extension as i64;
        i32::MIN as i64 <= second && second <= i32::MAX as i64
    } else if blocks[i - 1].status == 'L' {
        let sum = blocks[i - 1].extension as i64 + blocks[i].extension as i64;
        i32::MIN as i64 <= sum && sum <= i32::MAX as i64
    } else if blocks[i + 1].status == 'L' {
        let sum = blocks[i].extension as i64 + blocks[i + 1].extension as i64;
        i32::MIN as i64 <= sum && sum <= i32::MAX as i64
    } else {
        true
    }
}

impl RAM {
    /// Whether `dealloc_mem` can release the span of `pid` in the area of
    /// `process_priority`: the sums of its merges stay in range.
    pub fn can_dealloc(&self, pid: i32, process_priority: i32) -> (r: bool)
        ensures
            r == dealloc_fits(region(self@, process_priority), pid),
    {
        dealloc_fits_in(self.get_mem(process_priority), pid)
    }

    /// The area that a process of `process_priority` uses.
    pub fn get_mem(&self, process_priority: i32) -> (r: &Vec<RAMBlock>)
        ensures
            r@ == region(self@, process_priority),
    {
        if process_priority > 0 {
            &self.user_mem
        } else {
            &self.realtime_mem
        }
    }

    /// The first real-time span recorded on `pid`.
    pub fn get_rt_mem_index(&mut self, pid: i32) -> (r: (bool, usize))
        ensures
            r == search_pair(first_match(old(self).realtime_mem@, owned_by(pid))),
            final(self)@ == old(self)@,
    {
        find_owner(&self.realtime_mem, pid)
    }

    /// The first user span recorded on `pid`.
    pub fn get_user_mem_index(&mut self, pid: i32) -> (r: (bool, usize))
        ensures
            r == search_pair(first_match(old(self).user_mem@, owned_by(pid))),
            final(self)@ == old(self)@,
    {
        find_owner(&self.user_mem, pid)
    }

    /// The first span recorded on `pid` in the area of `process_priority`.
    pub fn get_mem_index(&self, pid: i32, process_priority: i32) -> (r: (bool, usize))
        ensures
            r == search_pair(first_match(region(self@, process_priority), owned_by(pid))),
    {
        let memory_blocks = self.get_mem(process_priority);
        find_owner(memory_blocks, pid)
    }

    /// The first free real-time span that can hold `process_b_size` blocks.
    pub fn rt_mem_available(&mut self, process_b_size: i32) -> (r: (bool, usize))
        ensures
            r == search_pair(first_match(old(self).realtime_mem@, room_for(process_b_size))),
            final(self)@ == old(self)@,
    {
        find_room(&self.realtime_mem, process_b_size)
    }

    /// The first free user span that can hold `process_b_size` blocks.
    pub fn user_mem_available(&mut self, process_b_size: i32) -> (r: (bool, usize))
        ensures
            r == search_pair(first_match(old(self).user_mem@, room_for(process_b_size))),
            final(self)@ == old(self)@,
    {
        find_room(&self.user_mem, process_b_size)
    }

    /// The first free span in the area of `process_priority` that can hold
    /// `process_b_size` blocks.
    pub fn mem_available(&self, process_priority: i32, process_b_size: i32) -> (r: (bool, usize))
        ensures
            r == search_pair(first_match(region(self@, process_priority), room_for(process_b_size))),
    {
        let memory_blocks = self.get_mem(process_priority);
        find_room(memory_blocks, process_b_size)
    }

    /// Whether `alloc_mem` can give `process_b_size` blocks at span
    /// `available_mem_pos` of the area of `process_priority`: the span exists
    /// and the start and length of what is left of it stay in range.
    pub fn can_alloc(&self, process_priority: i32, process_b_size: i32, available_mem_pos: usize) -> (r:
        bool)
        ensures
            r == alloc_fits(region(self@, process_priority), process_b_size, available_mem_pos as int),
    {
        let memory_blocks = self.get_mem(process_priority);
        if available_mem_pos >= memory_blocks.len() {
            return false;
        }
        let block = memory_blocks[available_mem_pos];
        if block.extension == process_b_size {
            true
        } else {
            let start = block.mem_index as i64 + process_b_size as i64;
            let rest = block.extension as i64 - process_b_size as i64;
            i32::MIN as i64 <= start && start <= i32::MAX as i64 && i32::MIN as i64 <= rest && rest
                <= i32::MAX as i64
        }
    }

    /// Gives `process_b_size` blocks at the start of span `available_mem_pos` of
    /// the area of `process_priority` to `pid` (see `alloc_result`).
    pub fn alloc_mem(
        &mut self,
        process_priority: i32,
        pid: i32,
        process_b_size: i32,
        available_mem_pos: usize,
    )
        requires
            alloc_fits(region(old(self)@, process_priority), process_b_size, available_mem_pos as int),
        ensures
            final(self)@ == set_region(
                old(self)@,
                process_priority,
                alloc_result(
                    region(old(self)@, process_priority),
                    pid,
                    process_b_size,
                    available_mem_pos as int,
                ),
            ),
    {
        if process_priority > 0 {
            self.alloc_user_mem(pid, process_b_size, available_mem_pos);
        } else {
            self.alloc_rt_mem(pid, process_b_size, available_mem_pos);
        }
    }

    /// `alloc_mem` in the real-time area.
    pub fn alloc_rt_mem(&mut self, pid: i32, process_b_size: i32, available_mem_pos: usize)
        requires
            alloc_fits(old(self).realtime_mem@, process_b_size, available_mem_pos as int),
        ensures
            final(self).realtime_mem@ == alloc_result(
                old(self).realtime_mem@,
                pid,
                process_b_size,
                available_mem_pos as int,
            ),
            final(self).user_mem@ == old(self).user_mem@,
    {
        alloc_in(&mut self.realtime_mem, pid, process_b_size, available_mem_pos);
    }

    /// `alloc_mem` in the user area.
    pub fn alloc_user_mem(&mut self, pid: i32, process_b_size: i32, available_mem_pos: usize)
        requires
            alloc_fits(old(self).user_mem@, process_b_size, available_mem_pos as int),
        ensures
            final(self).user_mem@ == alloc_result(
                old(self).user_mem@,
                pid,
                process_b_size,
                available_mem_pos as int,
            ),
            final(self).realtime_mem@ == old(self).realtime_mem@,
    {
        alloc_in(&mut self.user_mem, pid, process_b_size, available_mem_pos);
    }

    /// `dealloc_mem` in the real-time area.
    pub fn dealloc_rt_mem(&mut self, pid: i32)
        requires
            dealloc_fits(old(self).realtime_mem@, pid),
        ensures
            final(self).realtime_mem@ == dealloc_result(old(self).realtime_mem@, pid),
            final(self).user_mem@ == old(self).user_mem@,
    {
        dealloc_in(&mut self.realtime_mem, pid);
    }

    /// `dealloc_mem` in the user area.
    pub fn dealloc_user_mem(&mut self, pid: i32)
        requires
            dealloc_fits(old(self).user_mem@, pid),
        ensures
            final(self).user_mem@ == dealloc_result(old(self).user_mem@, pid),
            final(self).realtime_mem@ == old(self).realtime_mem@,
    {
        dealloc_in(&mut self.user_mem, pid);
    }

    /// Releases the first span recorded on `pid` in the area of
    /// `process_priority`: it is marked free or merged with its free neighbours
    /// (see `release_plan`).
    pub fn dealloc_mem(&mut self, pid: i32, process_priority: i32)
        requires
            dealloc_fits(region(old(self)@, process_priority), pid),
        ensures
            final(self)@ == set_region(
                old(self)@,
                process_priority,
                dealloc_result(region(old(self)@, process_priority), pid),
            ),
    {
        if process_priority > 0 {
            self.dealloc_user_mem(pid);
        } else {
            self.dealloc_rt_mem(pid);
        }
    }

    /// Span `stay_block` of the area of `process_priority` takes the length of
    /// `remove_block` and becomes free; `remove_block` is removed.
    pub fn merge_free_block(&mut self, stay_block: usize, remove_block: usize, process_priority: i32)
        requires
            stay_block < region(old(self)@, process_priority).len(),
            remove_block < region(old(self)@, process_priority).len(),
            fits_i32(
                region(old(self)@, process_priority)[stay_block as int].extension + region(
                    old(self)@,
                    process_priority,
                )[remove_block as int].extension,
            ),
        ensures
            final(self)@ == set_region(
                old(self)@,
                process_priority,
                merge_blocks(
                    region(old(self)@, process_priority),
                    stay_block as int,
                    remove_block as int,
                ),
            ),
    {
        if process_priority > 0 {
            self.merge_free_user_block(stay_block, remove_block);
        } else {
            self.merge_free_rt_block(stay_block, remove_block);
        }
    }

    /// Span `stay_block` of the area of `process_priority` takes the lengths of
    /// the two others, which are removed, the first before the second.
    pub fn merge_two_free_blocks(
        &mut self,
        stay_block: usize,
        first_remove_block: usize,
        second_remove_block: usize,
        process_priority: i32,
    )
        requires
            stay_block < region(old(self)@, process_priority).len(),
            first_remove_block < region(old(self)@, process_priority).len(),
            second_remove_block < region(old(self)@, process_priority).len() - 1,
            merge_two_blocks_fit(
                region(old(self)@, process_priority),
                stay_block as int,
                first_remove_block as int,
                second_remove_block as int,
            ),
        ensures
            final(self)@ == set_region(
                old(self)@,
                process_priority,
                merge_two_blocks(
                    region(old(self)@, process_priority),
                    stay_block as int,
                    first_remove_block as int,
                    second_remove_block as int,
                ),
            ),
    {
        if process_priority > 0 {
            self.merge_two_free_user_blocks(stay_block, first_remove_block, second_remove_block);
        } else {
            self.merge_two_free_rt_blocks(stay_block, first_remove_block, second_remove_block);
        }
    }

    /// `merge_free_block` in the real-time area.
    pub fn merge_free_rt_block(&mut self, stay_block: usize, remove_block: usize)
        requires
            stay_block < old(self).realtime_mem@.len(),
            remove_block < old(self).realtime_mem@.len(),
            fits_i32(
                old(self).realtime_mem@[stay_block as int].extension
                    + old(self).realtime_mem@[remove_block as int].extension,
            ),
        ensures
            final(self).realtime_mem@ == merge_blocks(
                old(self).realtime_mem@,
                stay_block as int,
                remove_block as int,
            ),
            final(self).user_mem@ == old(self).user_mem@,
    {
        merge_in(&mut self.realtime_mem, stay_block, remove_block);
    }

    /// `merge_free_block` in the user area.
    pub fn merge_free_user_block(&mut self, stay_block: usize, remove_block: usize)
        requires
            stay_block < old(self).user_mem@.len(),
            remove_block < old(self).user_mem@.len(),
            fits_i32(
                old(self).user_mem@[stay_block as int].extension
                    + old(self).user_mem@[remove_block as int].extension,
            ),
        ensures
            final(self).user_mem@ == merge_blocks(
                old(self).user_mem@,
                stay_block as int,
                remove_block as int,
            ),
            final(self).realtime_mem@ == old(self).realtime_mem@,
    {
        merge_in(&mut self.user_mem, stay_block, remove_block);
    }

    /// `merge_two_free_blocks` in the real-time area.
    pub fn merge_two_free_rt_blocks(
        &mut self,
        stay_block: usize,
        first_remove_block: usize,
        second_remove_block: usize,
    )
        requires
            stay_block < old(self).realtime_mem@.len(),
            first_remove_block < old(self).realtime_mem@.len(),
            second_remove_block < old(self).realtime_mem@.len() - 1,
            merge_two_blocks_fit(
                old(self).realtime_mem@,
                stay_block as int,
                first_remove_block as int,
                second_remove_block as int,
            ),
        ensures
            final(self).realtime_mem@ == merge_two_blocks(
                old(self).realtime_mem@,
                stay_block as int,
                first_remove_block as int,
                second_remove_block as int,
            ),
            final(self).user_mem@ == old(self).user_mem@,
    {
        merge_two_in(&mut self.realtime_mem, stay_block, first_remove_block, second_remove_block);
    }

    /// `merge_two_free_blocks` in the user area.
    pub fn merge_two_free_user_blocks(
        &mut self,
        stay_block: usize,
        first_remove_block: usize,
        second_remove_block: usize,
    )
        requires
            stay_block < old(self).user_mem@.len(),
            first_remove_block < old(self).user_mem@.len(),
            second_remove_block < old(self).user_mem@.len() - 1,
            merge_two_blocks_fit(
                old(self).user_mem@,
                stay_block as int,
                first_remove_block as int,
                second_remove_block as int,
            ),
        ensures
            final(self).user_mem@ == merge_two_blocks(
                old(self).user_mem@,
                stay_block as int,
                first_remove_block as int,
                second_remove_block as int,
            ),
            final(self).realtime_mem@ == old(self).realtime_mem@,
    {
        merge_two_in(&mut self.user_mem, stay_block, first_remove_block, second_remove_block);
    }
}

} // verus!
