use vstd::prelude::*;
use vstd::string::StringExecFns;

use crate::filesystem::{Block, File, FileSystem, fits_i32};
use crate::instruction::{
    chars_to_string, lemma_split_list_nonempty, parse_unsigned, parse_unsigned_number,
    split_at_char, split_at_comma_space, split_list, split_on, string_chars,
};
use crate::mem_ram::{RAM, alloc_fits, alloc_result, region, room_for, set_region};
use crate::processo::{Processo, State};
use crate::search::first_match;

verus! {

/// The owner recorded on the spans that the disk starts with.
pub open spec fn system_owner() -> i32 {
    1001
}

/// A new disk of `disk_size` blocks: one free span over all of it, and
/// `disk_size` free blocks.
pub fn create_disk(disk: &mut FileSystem, disk_size: usize)
    ensures
        final(disk).fs@.len() == old(disk).fs@.len() + 1,
        final(disk).fs@.drop_last() == old(disk).fs@,
        final(disk).fs@.last().free,
        final(disk).fs@.last().file_name@ == "Disk Free"@,
        final(disk).fs@.last().file_owner == system_owner(),
        final(disk).fs@.last().index == 0,
        final(disk).fs@.last().size == disk_size as i32,
        final(disk).blocks@ == old(disk).blocks@ + Seq::new(disk_size as nat, |i: int| Block::Free),
{
    disk.fs.push(
        File {
            free: true,
            file_name: String::from_str("Disk Free"),
            file_owner: 1001,
            index: 0,
            size: #[verifier::truncate] (disk_size as i32),
        },
    );
    let ghost start = disk.blocks@;
    let ghost spans = disk.fs@;
    for i in 0..disk_size
        invariant
            disk.fs@ == spans,
            disk.blocks@ == start + Seq::new(i as nat, |k: int| Block::Free),
    {
        disk.blocks.push(Block::Free);
        proof {
            assert(start + Seq::new((i + 1) as nat, |k: int| Block::Free) =~= (start + Seq::new(
                i as nat,
                |k: int| Block::Free,
            )).push(Block::Free));
        }
    }
}

/// Every block from `index` on, `size` of them, is free.
pub open spec fn blocks_free(blocks: Seq<Block>, index: int, size: int) -> bool {
    forall|k: int| index <= k < index + size ==> blocks[k] == Block::Free
}

/// `populate_disk` looks only at blocks of the disk: the range is empty or ends
/// within it, or a taken block within it stops the search first.
pub open spec fn populate_in_bounds(blocks: Seq<Block>, index: int, size: int) -> bool {
    ||| size == 0
    ||| index + size <= blocks.len()
    ||| exists|k: int| index <= k < index + size && k < blocks.len() && blocks[k] == Block::Occupied
}

/// The blocks with those from `index` on, `size` of them, taken.
pub open spec fn populated_blocks(blocks: Seq<Block>, index: int, size: int) -> Seq<Block> {
    Seq::new(
        blocks.len(),
        |k: int|
            if index <= k < index + size {
                Block::Occupied
            } else {
                blocks[k]
            },
    )
}

/// The spans with the first one shortened by `size` and a span for file
/// `file_name`, of `size` blocks from `index`, added at the end.
pub open spec fn populated_files(fs: Seq<File>, file_name: String, index: usize, size: usize) -> Seq<
    File,
> {
    fs.update(0, File { size: (fs[0].size - (size as i32)) as i32, ..fs[0] }).push(
        File {
            free: false,
            file_name: file_name,
            file_owner: system_owner(),
            index: index as i32,
            size: size as i32,
        },
    )
}

/// Places file `file_name` on blocks `index` to `index + size`, when all of
/// them are free: they become taken, the first span (the free space of a new
/// disk) shrinks by `size`, and a span for the file is added at the end.
/// Returns whether the file was placed; otherwise nothing changes.
pub fn populate_disk(disk: &mut FileSystem, file_name: String, index: usize, size: usize) -> (placed:
    bool)
    requires
        index + size <= usize::MAX,
        populate_in_bounds(old(disk).blocks@, index as int, size as int),
        blocks_free(old(disk).blocks@, index as int, size as int) ==> old(disk).fs@.len() >= 1
            && fits_i32(old(disk).fs@[0].size - (size as i32)),
    ensures
        placed == blocks_free(old(disk).blocks@, index as int, size as int),
        placed ==> final(disk).blocks@ == populated_blocks(old(disk).blocks@, index as int, size as int)
            && final(disk).fs@ == populated_files(old(disk).fs@, file_name, index, size),
        !placed ==> final(disk).blocks@ == old(disk).blocks@ && final(disk).fs@ == old(disk).fs@,
{
    let end = index + size;
    for i in index..end
        invariant
            end == index + size,
            disk.blocks@ == old(disk).blocks@,
            disk.fs@ == old(disk).fs@,
            populate_in_bounds(old(disk).blocks@, index as int, size as int),
            forall|k: int| index <= k < i ==> old(disk).blocks@[k] == Block::Free,
    {
        proof {
            if i >= disk.blocks.len() {
                let k = choose|k: int|
                    index <= k < index + size && k < old(disk).blocks@.len() && old(
                        disk,
                    ).blocks@[k] == Block::Occupied;
                assert(k < i);
                assert(old(disk).blocks@[k] == Block::Free);
            }
        }
        if disk.blocks[i] == Block::Occupied {
            return false;
        }
    }
    proof {
        assert(size == 0 || index + size <= old(disk).blocks@.len()) by {
            if size != 0 && index + size > old(disk).blocks@.len() {
                let k = choose|k: int|
                    index <= k < index + size && k < old(disk).blocks@.len() && old(
                        disk,
                    ).blocks@[k] == Block::Occupied;
                assert(old(disk).blocks@[k] == Block::Free);
            }
        }
    }
    for j in index..end
        invariant
            end == index + size,
            size == 0 || end <= disk.blocks@.len(),
            disk.fs@ == old(disk).fs@,
            disk.blocks@.len() == old(disk).blocks@.len(),
            forall|k: int|
                0 <= k < disk.blocks@.len() ==> #[trigger] disk.blocks@[k] == if index <= k < j {
                    Block::Occupied
                } else {
                    old(disk).blocks@[k]
                },
    {
        disk.blocks.set(j, Block::Occupied);
    }
    disk.fs[0].size = disk.fs[0].size - #[verifier::truncate] (size as i32);
    disk.fs.push(
        File {
            free: false,
            file_name: file_name,
            file_owner: 1001,
            index: #[verifier::truncate] (index as i32),
            size: #[verifier::truncate] (size as i32),
        },
    );
    proof {
        assert(disk.blocks@ =~= populated_blocks(old(disk).blocks@, index as int, size as int));
    }
    true
}

/// The unsigned value that field `text` writes, no greater than `max`.
pub open spec fn field_value(text: Seq<char>, max: int) -> int {
    parse_unsigned(text, max)->0
}

/// A line of the process list, split at `", "`, has the eight fields of a
/// process, each a number of its type: start time, priority, quantum and memory
/// blocks, printer, scanner and modem flags, drive.
pub open spec fn process_fields_ok(f: Seq<Seq<char>>) -> bool {
    &&& f.len() >= 8
    &&& parse_unsigned(f[0], u32::MAX as int) is Some
    &&& parse_unsigned(f[1], usize::MAX as int) is Some
    &&& parse_unsigned(f[2], u32::MAX as int) is Some
    &&& parse_unsigned(f[3], u32::MAX as int) is Some
    &&& parse_unsigned(f[4], usize::MAX as int) is Some
    &&& parse_unsigned(f[5], u8::MAX as int) is Some
    &&& parse_unsigned(f[6], u8::MAX as int) is Some
    &&& parse_unsigned(f[7], usize::MAX as int) is Some
}

/// `p` is the process with id `pid` and memory offset `offset` that a line of
/// the process list describes (see `process_fields_ok`): ready, with no
/// instruction.
pub open spec fn described_by(p: Processo, line: Seq<char>, pid: u16, offset: u32) -> bool {
    let f = split_list(line);
    &&& p.pid == pid
    &&& p.offset == offset
    &&& p.init_time == field_value(f[0], u32::MAX as int)
    &&& p.priority == field_value(f[1], usize::MAX as int)
    &&& p.time == field_value(f[2], u32::MAX as int)
    &&& p.blocks == field_value(f[3], u32::MAX as int)
    &&& p.printer == field_value(f[4], usize::MAX as int)
    &&& p.scanner == (field_value(f[5], u8::MAX as int) != 0)
    &&& p.modem == (field_value(f[6], u8::MAX as int) != 0)
    &&& p.drive == field_value(f[7], usize::MAX as int)
    &&& p.instructions@.len() == 0
    &&& p.state == State::Ready
}

/// The process with id `pid` that a line of the process list describes (see
/// `process_fields_ok`), ready, with no instruction and offset 0; `None` when
/// the line does not describe one.
pub fn parse_process_line(line: &String, pid: u16) -> (r: Option<Processo>)
    ensures
        r is Some <==> process_fields_ok(split_list(line@)),
        r matches Some(p) ==> described_by(p, line@, pid, 0),
{
    proof {
        assert((usize::MAX as u64) as int == usize::MAX as int);
    }
    let chars = string_chars(line);
    let values = split_at_comma_space(&chars);
    if values.len() < 8 {
        return None;
    }
    let priority = match parse_unsigned_number(&values[1], usize::MAX as u64) {
        Some(v) => v as usize,
        None => {
            return None;
        },
    };
    let init_time = match parse_unsigned_number(&values[0], u32::MAX as u64) {
        Some(v) => v as u32,
        None => {
            return None;
        },
    };
    let time = match parse_unsigned_number(&values[2], u32::MAX as u64) {
        Some(v) => v as u32,
        None => {
            return None;
        },
    };
    let blocks = match parse_unsigned_number(&values[3], u32::MAX as u64) {
        Some(v) => v as u32,
        None => {
            return None;
        },
    };
    let printer = match parse_unsigned_number(&values[4], usize::MAX as u64) {
        Some(v) => v as usize,
        None => {
            return None;
        },
    };
    let scanner = match parse_unsigned_number(&values[5], u8::MAX as u64) {
        Some(v) => v != 0,
        None => {
            return None;
        },
    };
    let modem = match parse_unsigned_number(&values[6], u8::MAX as u64) {
        Some(v) => v != 0,
        None => {
            return None;
        },
    };
    let drive = match parse_unsigned_number(&values[7], usize::MAX as u64) {
        Some(v) => v as usize,
        None => {
            return None;
        },
    };
    Some(
        Processo {
            pid: pid,
            offset: 0,
            init_time: init_time,
            priority: priority,
            time: time,
            blocks: blocks,
            printer: printer,
            scanner: scanner,
            modem: modem,
            drive: drive,
            instructions: Vec::new(),
            state: State::Ready,
        },
    )
}

/// Where the memory of the process on line `line_index` of the list starts,
/// going by the last process already in its queue: just after that process's
/// blocks, or 0 for the first line and for an empty queue.
pub open spec fn offset_after(queues: Seq<Seq<Processo>>, priority: int, line_index: int) -> int {
    if line_index != 0 && queues[priority].len() > 0 {
        queues[priority].last().blocks + queues[priority].last().offset + 1
    } else {
        0
    }
}

/// `offset_after` for a process of `priority`, or `None` when it does not fit
/// in a `u32`.
pub fn process_offset(queues: &Vec<Vec<Processo>>, priority: usize, line_index: usize) -> (r: Option<
    u32,
>)
    requires
        line_index != 0 ==> priority < queues@.len(),
    ensures
        r == (if offset_after(queues_view(queues@), priority as int, line_index as int) <= u32::MAX {
            Some(offset_after(queues_view(queues@), priority as int, line_index as int) as u32)
        } else {
            None::<u32>
        }),
{
    if line_index != 0 {
        if queues[priority].len() > 0 {
            let last = &queues[priority][queues[priority].len() - 1];
            match last.blocks.checked_add(last.offset) {
                Some(sum) => sum.checked_add(1),
                None => None,
            }
        } else {
            Some(0)
        }
    } else {
        Some(0)
    }
}

/// Takes process `p` into its queue and gives it memory at the span whose
/// position is the length of that queue, unless the memory area of its priority
/// has a free span that can hold it, in which case it is refused and nothing
/// changes. Returns whether it was taken.
pub fn admit_process(ram: &mut RAM, queues: &mut Vec<Vec<Processo>>, p: Processo) -> (admitted:
    bool)
    requires
        p.priority < old(queues)@.len(),
        first_match(region(old(ram)@, p.priority as i32), room_for(p.blocks as i32)) is None
            ==> alloc_fits(
            region(old(ram)@, p.priority as i32),
            p.blocks as i32,
            old(queues)@[p.priority as int]@.len() as int,
        ),
    ensures
        admitted == first_match(region(old(ram)@, p.priority as i32), room_for(p.blocks as i32)) is None,
        admitted ==> {
            &&& final(ram)@ == set_region(
                old(ram)@,
                p.priority as i32,
                alloc_result(
                    region(old(ram)@, p.priority as i32),
                    p.pid as i32,
                    p.blocks as i32,
                    old(queues)@[p.priority as int]@.len() as int,
                ),
            )
            &&& final(queues)@ == old(queues)@.update(
                p.priority as int,
                final(queues)@[p.priority as int],
            )
            &&& final(queues)@[p.priority as int]@ == old(queues)@[p.priority as int]@.push(p)
        },
        !admitted ==> final(ram)@ == old(ram)@ && final(queues)@ == old(queues)@,
{
    let priority = #[verifier::truncate] (p.priority as i32);
    let blocks = #[verifier::truncate] (p.blocks as i32);
    let (available, _) = ram.mem_available(priority, blocks);
    if available {
        return false;
    }
    let pos = queues[p.priority].len();
    ram.alloc_mem(priority, p.pid as i32, blocks, pos);
    let priority = p.priority;
    queues[priority].push(p);
    true
}

/// Whether `populate_disk` can be asked to place `size` blocks from `index` on:
/// the end of the range fits in a `usize`, the search stays within the disk
/// (see `populate_in_bounds`), and, when the blocks are free, the disk has a
/// first span whose length can shrink by `size`.
pub fn can_populate(disk: &FileSystem, index: usize, size: usize) -> (r: bool)
    ensures
        r == (index + size <= usize::MAX && populate_in_bounds(
            disk.blocks@,
            index as int,
            size as int,
        ) && (blocks_free(disk.blocks@, index as int, size as int) ==> disk.fs@.len() >= 1
            && fits_i32(disk.fs@[0].size - (#[verifier::truncate] (size as i32))))),
{
    let end = match index.checked_add(size) {
        Some(e) => e,
        None => {
            return false;
        },
    };
    let n = disk.blocks.len();
    let mut i = index;
    while i < end
        invariant
            index <= i <= end,
            end == index + size,
            n == disk.blocks@.len(),
            forall|k: int| index <= k < i ==> k < n && disk.blocks@[k] == Block::Free,
            i > index ==> i <= n,
        decreases end - i,
    {
        if i >= n {
            proof {
                assert(!populate_in_bounds(disk.blocks@, index as int, size as int)) by {
                    if exists|k: int|
                        index <= k < index + size && k < disk.blocks@.len() && disk.blocks@[k]
                            == Block::Occupied {
                        let k = choose|k: int|
                            index <= k < index + size && k < disk.blocks@.len() && disk.blocks@[k]
                                == Block::Occupied;
                        assert(disk.blocks@[k] == Block::Free);
                    }
                }
            }
            return false;
        }
        if disk.blocks[i] == Block::Occupied {
            proof {
                assert(!blocks_free(disk.blocks@, index as int, size as int));
            }
            return true;
        }
        i = i + 1;
    }
    proof {
        if size > 0 {
            assert(index <= end - 1 < end);
            assert(end - 1 < n);
        }
        assert(populate_in_bounds(disk.blocks@, index as int, size as int));
        assert(blocks_free(disk.blocks@, index as int, size as int));
    }
    if disk.fs.len() < 1 {
        return false;
    }
    let rest = disk.fs[0].size as i64 - #[verifier::truncate] (size as i32) as i64;
    i32::MIN as i64 <= rest && rest <= i32::MAX as i64
}

/// The name, first block and length of a file that a line of the disk
/// description places, its fields split at `", "`; `None` when the line does
/// not describe one.
pub fn parse_disk_file_line(line: &String) -> (r: Option<(String, usize, usize)>)
    ensures
        r is Some <==> ({
            let f = split_list(line@);
            &&& f.len() >= 3
            &&& parse_unsigned(f[1], usize::MAX as int) is Some
            &&& parse_unsigned(f[2], usize::MAX as int) is Some
        }),
        r matches Some(t) ==> {
            let f = split_list(line@);
            &&& t.0@ == f[0]
            &&& t.1 == field_value(f[1], usize::MAX as int)
            &&& t.2 == field_value(f[2], usize::MAX as int)
        },
{
    proof {
        assert((usize::MAX as u64) as int == usize::MAX as int);
    }
    let chars = string_chars(line);
    let args = split_at_comma_space(&chars);
    if args.len() < 3 {
        return None;
    }
    let index = match parse_unsigned_number(&args[1], usize::MAX as u64) {
        Some(v) => v as usize,
        None => {
            return None;
        },
    };
    let size = match parse_unsigned_number(&args[2], usize::MAX as u64) {
        Some(v) => v as usize,
        None => {
            return None;
        },
    };
    Some((chars_to_string(&args[0]), index, size))
}

/// The count that a whole line writes, or `None` when it is not a `usize`.
pub fn parse_count(line: &String) -> (r: Option<usize>)
    ensures
        r == (match parse_unsigned(line@, usize::MAX as int) {
            Some(v) => Some(v as usize),
            None => None::<usize>,
        }),
{
    proof {
        assert((usize::MAX as u64) as int == usize::MAX as int);
    }
    let chars = string_chars(line);
    match parse_unsigned_number(&chars, usize::MAX as u64) {
        Some(v) => Some(v as usize),
        None => None,
    }
}

/// `after` is `before` with `line` added to its instructions when its id is
/// `pid`, and otherwise the same.
pub open spec fn given_instruction(before: Processo, after: Processo, line: String, pid: int) -> bool {
    &&& after.pid == before.pid
    &&& after.offset == before.offset
    &&& after.init_time == before.init_time
    &&& after.priority == before.priority
    &&& after.time == before.time
    &&& after.blocks == before.blocks
    &&& after.printer == before.printer
    &&& after.scanner == before.scanner
    &&& after.modem == before.modem
    &&& after.drive == before.drive
    &&& after.state == before.state
    &&& after.instructions@ == if before.pid == pid {
        before.instructions@.push(line)
    } else {
        before.instructions@
    }
}

/// The queues seen as sequences.
pub open spec fn queues_view(queues: Seq<Vec<Processo>>) -> Seq<Seq<Processo>> {
    queues.map_values(|q: Vec<Processo>| q@)
}

/// Gives the instruction `line` to every process whose id is its first field
/// (fields split at `", "`). Returns `false`, with nothing changed, when that
/// field is not a `u16` and there is a process to compare it with.
pub fn assign_instruction(queues: &mut Vec<Vec<Processo>>, line: &String) -> (found: bool)
    ensures
        found == (parse_unsigned(split_list(line@)[0], u16::MAX as int) is Some || forall|i: int|
            0 <= i < old(queues)@.len() ==> #[trigger] old(queues)@[i]@.len() == 0),
        final(queues)@.len() == old(queues)@.len(),
        forall|i: int|
            0 <= i < old(queues)@.len() ==> #[trigger] final(queues)@[i]@.len() == old(
                queues,
            )@[i]@.len(),
        forall|i: int, j: int|
            0 <= i < old(queues)@.len() && 0 <= j < old(queues)@[i]@.len() ==> if found {
                given_instruction(
                    old(queues)@[i]@[j],
                    #[trigger] final(queues)@[i]@[j],
                    *line,
                    field_value(split_list(line@)[0], u16::MAX as int),
                )
            } else {
                final(queues)@[i]@[j] == old(queues)@[i]@[j]
            },
{
    let chars = string_chars(line);
    let fields = split_at_comma_space(&chars);
    proof {
        lemma_split_list_nonempty(chars@);
    }
    let id = match parse_unsigned_number(&fields[0], u16::MAX as u64) {
        Some(v) => v as u16,
        None => {
            proof {
                assert(fields@[0]@ == split_list(line@)[0]);
            }
            let n = queues.len();
            for i in 0..n
                invariant
                    n == queues@.len(),
                    queues@ == old(queues)@,
                    parse_unsigned(split_list(line@)[0], u16::MAX as int) is None,
                    forall|a: int| 0 <= a < i ==> #[trigger] queues@[a]@.len() == 0,
            {
                if queues[i].len() > 0 {
                    proof {
                        assert(old(queues)@[i as int]@.len() > 0);
                    }
                    return false;
                }
            }
            return true;
        },
    };
    let ghost pid = field_value(split_list(line@)[0], u16::MAX as int);
    let ghost start = queues@;
    let len = queues.len();
    for i in 0..len
        invariant
            len == start.len(),
            pid == id,
            queues@.len() == start.len(),
            forall|a: int| 0 <= a < start.len() ==> #[trigger] queues@[a]@.len() == start[a]@.len(),
            forall|a: int, b: int|
                0 <= a < i && 0 <= b < start[a]@.len() ==> given_instruction(
                    start[a]@[b],
                    #[trigger] queues@[a]@[b],
                    *line,
                    pid,
                ),
            forall|a: int| i <= a < start.len() ==> #[trigger] queues@[a] == start[a],
    {
        let n = queues[i].len();
        let ghost row = queues@;
        for j in 0..n
            invariant
                pid == id,
                n == start[i as int]@.len(),
                i < start.len(),
                queues@.len() == start.len(),
                forall|a: int| 0 <= a < start.len() ==> #[trigger] queues@[a]@.len() == start[a]@.len(),
                forall|a: int| 0 <= a < start.len() && a != i ==> #[trigger] queues@[a] == row[a],
                forall|b: int|
                    0 <= b < j ==> given_instruction(
                        start[i as int]@[b],
                        #[trigger] queues@[i as int]@[b],
                        *line,
                        pid,
                    ),
                forall|b: int| j <= b < n ==> #[trigger] queues@[i as int]@[b] == start[i as int]@[b],
                row[i as int] == start[i as int],
        {
            if queues[i][j].pid == id {
                let copy = line.clone();
                queues[i][j].instructions.push(copy);
            }
        }
    }
    true
}

/// What `admit_line` made of a line of the process list.
pub enum AdmitOutcome {
    /// The process was taken into its queue and given memory.
    Admitted,
    /// The process with this id was refused, and nothing changed.
    Refused(u16),
    /// The line does not describe a process.
    Malformed,
    /// The process's priority names no queue.
    NoQueue,
    /// The memory offset of the process does not fit in a `u32`.
    OffsetOverflow,
    /// The span at which the process would get memory does not exist, or its
    /// rest would overflow.
    NoSpan,
}

/// The field values of a line of the process list, once it describes a
/// process: priority and memory blocks.
pub open spec fn line_priority(line: Seq<char>) -> int {
    field_value(split_list(line)[1], usize::MAX as int)
}

/// The memory blocks that a line of the process list asks for.
pub open spec fn line_blocks(line: Seq<char>) -> int {
    field_value(split_list(line)[3], u32::MAX as int)
}

/// Line `line_index` of the process list, `line`, taken in turn: the process it
/// describes gets id `line_index` and the offset `offset_after` gives; it is
/// refused when the memory area of its priority has a free span that can hold
/// it, and is otherwise taken into its queue with memory at the span whose
/// position is the queue's length (see `admit_process`). The other outcomes
/// name the first way in which the line cannot be taken.
pub fn admit_line(ram: &mut RAM, queues: &mut Vec<Vec<Processo>>, line: &String, line_index: usize) -> (r:
    AdmitOutcome)
    ensures
        ({
            let prio = line_priority(line@);
            let blocks = line_blocks(line@);
            let qs = queues_view(old(queues)@);
            let area = region(old(ram)@, prio as usize as i32);
            if !process_fields_ok(split_list(line@)) {
                r is Malformed
            } else if prio >= old(queues)@.len() {
                r is NoQueue
            } else if offset_after(qs, prio, line_index as int) > u32::MAX {
                r is OffsetOverflow
            } else if first_match(area, room_for(blocks as u32 as i32)) is Some {
                r == AdmitOutcome::Refused(line_index as u16)
            } else if !alloc_fits(area, blocks as u32 as i32, qs[prio].len() as int) {
                r is NoSpan
            } else {
                r is Admitted
            }
        }),
        r is Admitted ==> {
            let prio = line_priority(line@);
            let blocks = line_blocks(line@);
            let area = region(old(ram)@, prio as usize as i32);
            &&& final(ram)@ == set_region(
                old(ram)@,
                prio as usize as i32,
                alloc_result(
                    area,
                    line_index as u16 as i32,
                    blocks as u32 as i32,
                    old(queues)@[prio]@.len() as int,
                ),
            )
            &&& final(queues)@.len() == old(queues)@.len()
            &&& forall|q: int|
                0 <= q < old(queues)@.len() && q != prio ==> #[trigger] final(queues)@[q] == old(
                    queues,
                )@[q]
            &&& final(queues)@[prio]@.len() == old(queues)@[prio]@.len() + 1
            &&& final(queues)@[prio]@.drop_last() == old(queues)@[prio]@
            &&& described_by(
                final(queues)@[prio]@.last(),
                line@,
                line_index as u16,
                offset_after(queues_view(old(queues)@), prio, line_index as int) as u32,
            )
        },
        !(r is Admitted) ==> final(ram)@ == old(ram)@ && final(queues)@ == old(queues)@,
{
    let mut p = match parse_process_line(line, #[verifier::truncate] (line_index as u16)) {
        Some(p) => p,
        None => {
            return AdmitOutcome::Malformed;
        },
    };
    if p.priority >= queues.len() {
        return AdmitOutcome::NoQueue;
    }
    p.offset = match process_offset(queues, p.priority, line_index) {
        Some(offset) => offset,
        None => {
            return AdmitOutcome::OffsetOverflow;
        },
    };
    let priority = #[verifier::truncate] (p.priority as i32);
    let blocks = #[verifier::truncate] (p.blocks as i32);
    let (available, _) = ram.mem_available(priority, blocks);
    if !available && !ram.can_alloc(priority, blocks, queues[p.priority].len()) {
        return AdmitOutcome::NoSpan;
    }
    let pid = p.pid;
    let ghost admitted = p;
    if admit_process(ram, queues, p) {
        proof {
            assert(final(queues)@[admitted.priority as int]@ =~= old(queues)@[admitted.priority as int]@.push(admitted));
            assert(final(queues)@[admitted.priority as int]@.drop_last() =~= old(queues)@[admitted.priority as int]@);
        }
        AdmitOutcome::Admitted
    } else {
        AdmitOutcome::Refused(pid)
    }
}

/// The lines of a text file: one final line break dropped, then the text split
/// at each `\n`.
pub open spec fn file_lines(text: Seq<char>) -> Seq<Seq<char>> {
    let body = if text.len() > 0 && text.last() == '\n' {
        text.drop_last()
    } else {
        text
    };
    split_on(body, '\n')
}

/// The lines of `text` (see `file_lines`), or `None` when it is empty.
pub fn split_lines(text: &String) -> (r: Option<Vec<String>>)
    ensures
        r is None <==> text@.len() == 0,
        r matches Some(v) ==> v@.len() == file_lines(text@).len() && forall|j: int|
            0 <= j < v@.len() ==> #[trigger] v@[j]@ == file_lines(text@)[j],
{
    let mut chars = string_chars(text);
    if chars.len() == 0 {
        return None;
    }
    if chars[chars.len() - 1] == '\n' {
        chars.pop();
    }
    let fields = split_at_char(&chars, '\n');
    let mut lines: Vec<String> = Vec::new();
    for i in 0..fields.len()
        invariant
            lines@.len() == i,
            forall|j: int| 0 <= j < i ==> #[trigger] lines@[j]@ == fields@[j]@,
    {
        lines.push(chars_to_string(&fields[i]));
    }
    Some(lines)
}

/// What `place_file_line` made of a line of the disk description.
pub enum PlaceOutcome {
    /// The file was placed.
    Placed,
    /// Some of the file's blocks were taken: the file, of this name, was not
    /// placed, and nothing changed.
    Taken(String),
    /// The line does not describe a file.
    Malformed,
    /// The file's blocks lie beyond the disk, or its size cannot be taken off
    /// the first span.
    OutOfRange,
}

/// A line of the disk description, taken in turn: the file it describes (see
/// `parse_disk_file_line`) is placed when its blocks are free (see
/// `populate_disk`).
pub fn place_file_line(disk: &mut FileSystem, line: &String) -> (r: PlaceOutcome)
    ensures
        ({
            let f = split_list(line@);
            let index = field_value(f[1], usize::MAX as int);
            let size = field_value(f[2], usize::MAX as int);
            if !(f.len() >= 3 && parse_unsigned(f[1], usize::MAX as int) is Some && parse_unsigned(
                f[2],
                usize::MAX as int,
            ) is Some) {
                r is Malformed
            } else if !(index + size <= usize::MAX && populate_in_bounds(
                old(disk).blocks@,
                index,
                size,
            ) && (blocks_free(old(disk).blocks@, index, size) ==> old(disk).fs@.len() >= 1
                && fits_i32(old(disk).fs@[0].size - (size as usize as i32)))) {
                r is OutOfRange
            } else if blocks_free(old(disk).blocks@, index, size) {
                &&& r is Placed
                &&& final(disk).blocks@ == populated_blocks(old(disk).blocks@, index, size)
                &&& exists|name: String|
                    name@ == f[0] && final(disk).fs@ == #[trigger] populated_files(
                        old(disk).fs@,
                        name,
                        index as usize,
                        size as usize,
                    )
            } else {
                r matches PlaceOutcome::Taken(name) && name@ == f[0]
            }
        }),
        !(r is Placed) ==> final(disk).blocks@ == old(disk).blocks@ && final(disk).fs@ == old(
            disk,
        ).fs@,
{
    let (file_name, index, size) = match parse_disk_file_line(line) {
        Some(t) => t,
        None => {
            return PlaceOutcome::Malformed;
        },
    };
    if !can_populate(disk, index, size) {
        return PlaceOutcome::OutOfRange;
    }
    let shown = file_name.clone();
    let ghost name = file_name;
    if populate_disk(disk, file_name, index, size) {
        proof {
            assert(name@ == split_list(line@)[0]);
            let f = split_list(line@);
            assert(disk.fs@ == populated_files(
                old(disk).fs@,
                name,
                field_value(f[1], usize::MAX as int) as usize,
                field_value(f[2], usize::MAX as int) as usize,
            ));
        }
        PlaceOutcome::Placed
    } else {
        PlaceOutcome::Taken(shown)
    }
}

} // verus!
