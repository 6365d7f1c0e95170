use vstd::prelude::*;

use crate::filesystem::{
    File, create_fits, create_result, delete_fits, delete_result, file_segs, holds,
    lemma_create_segs, lemma_release_files_segs, may_delete, named, release_files_fit,
};
use crate::mem_ram::{
    RAMBlock, alloc_fits, alloc_result, block_segs, dealloc_fits, dealloc_result, free_status,
    lemma_alloc_segs, lemma_release_blocks_segs, owned_by, region, release_blocks_fit, room_for,
    set_region, taken_status,
};
use crate::instruction::{parse_i32, split_on, strip_white_space};
use crate::processo::{ExecStep, Processo, State, instruction_done, instruction_valid, step_outcome};
use crate::queues::{Dispatcher, availability};
use crate::resources::{Devices, devices_available, requests_any, set_devices, valid_request};
use crate::search::{first_match, lemma_first_match, lemma_first_match_at, lemma_first_match_none};
use crate::segments::{
    contiguous, free_flags, in_range, keeps_first_start, lemma_release_bounds,
    lemma_release_contiguous, lemma_release_free_total, lemma_release_no_adjacent_free,
    lemma_release_plan_shape, lemma_release_total, lemma_split, lemma_split_bounds,
    lemma_split_no_adjacent_free, lemma_split_then_release, no_adjacent_free, positive,
    release_plan, release_stuck, total,
};

verus! {

/// Placing a file keeps the disk covered: the spans keep their total length and
/// the start of the first span, spans that tiled the disk still tile it, and,
/// for a size between 0 and the span's length, spans stay within
/// `0 ..= i32::MAX` and lengths stay positive when the size is.
pub proof fn law_create_file_keeps_layout(
    fs: Seq<File>,
    pid: i32,
    filename: String,
    filesize: i32,
    vec_index: int,
)
    requires
        create_fits(fs, filesize, vec_index),
    ensures
        total(file_segs(create_result(fs, pid, filename, filesize, vec_index)), false) == total(
            file_segs(fs),
            false,
        ),
        contiguous(file_segs(fs)) ==> contiguous(
            file_segs(create_result(fs, pid, filename, filesize, vec_index)),
        ),
        0 <= filesize <= fs[vec_index].size ==> keeps_first_start(
            file_segs(fs),
            file_segs(create_result(fs, pid, filename, filesize, vec_index)),
        ),
        0 <= filesize <= fs[vec_index].size && in_range(file_segs(fs)) ==> in_range(
            file_segs(create_result(fs, pid, filename, filesize, vec_index)),
        ),
        0 < filesize <= fs[vec_index].size && positive(file_segs(fs)) ==> positive(
            file_segs(create_result(fs, pid, filename, filesize, vec_index)),
        ),
{
    lemma_create_segs(fs, pid, filename, filesize, vec_index);
    lemma_split(file_segs(fs), vec_index, filesize as int, true);
    if 0 <= filesize <= fs[vec_index].size {
        lemma_split_bounds(file_segs(fs), vec_index, filesize as int, true);
    }
}

/// The span that `storage_available` finds for a size of at least 0 can take
/// the file without overflow, when the spans lie within `0 ..= i32::MAX`.
pub proof fn law_found_storage_fits(fs: Seq<File>, filesize: i32)
    requires
        filesize >= 0,
        in_range(file_segs(fs)),
        first_match(fs, holds(filesize)) is Some,
    ensures
        create_fits(fs, filesize, first_match(fs, holds(filesize))->0),
        fs[first_match(fs, holds(filesize))->0].free,
        fs[first_match(fs, holds(filesize))->0].size >= filesize,
{
    lemma_first_match(fs, holds(filesize));
    let v = first_match(fs, holds(filesize))->0;
    assert(0 <= file_segs(fs)[v].1 && 0 <= file_segs(fs)[v].2 && file_segs(fs)[v].1 + file_segs(
        fs,
    )[v].2 <= i32::MAX);
}

/// On a disk whose spans tile `0 ..= i32::MAX` without overlap, a deletion
/// never overflows.
pub proof fn law_delete_fits_when_tiled(
    fs: Seq<File>,
    pid: i32,
    process_priority: i32,
    name: Seq<char>,
)
    requires
        contiguous(file_segs(fs)),
        in_range(file_segs(fs)),
    ensures
        delete_fits(fs, pid, process_priority, name),
{
    lemma_first_match(fs, named(name));
    if let Some(i) = first_match(fs, named(name)) {
        lemma_release_bounds(file_segs(fs), i);
        lemma_release_plan_shape(free_flags(file_segs(fs)), i);
    }
}

/// Deleting a file keeps the disk covered: the total length and the start of
/// the first span, the tiling, positive lengths, spans within
/// `0 ..= i32::MAX`, and free spans kept apart all stay; when the deleted span
/// was taken and the deletion was carried out, the free space grows by its
/// length, and otherwise it stays as it was.
pub proof fn law_delete_file_keeps_layout(
    fs: Seq<File>,
    pid: i32,
    process_priority: i32,
    name: Seq<char>,
)
    requires
        delete_fits(fs, pid, process_priority, name),
    ensures
        total(file_segs(delete_result(fs, pid, process_priority, name)), false) == total(
            file_segs(fs),
            false,
        ),
        contiguous(file_segs(fs)) ==> contiguous(
            file_segs(delete_result(fs, pid, process_priority, name)),
        ),
        no_adjacent_free(file_segs(fs)) ==> no_adjacent_free(
            file_segs(delete_result(fs, pid, process_priority, name)),
        ),
        positive(file_segs(fs)) ==> positive(
            file_segs(delete_result(fs, pid, process_priority, name)),
        ),
        keeps_first_start(file_segs(fs), file_segs(delete_result(fs, pid, process_priority, name))),
        contiguous(file_segs(fs)) && in_range(file_segs(fs)) ==> in_range(
            file_segs(delete_result(fs, pid, process_priority, name)),
        ),
        no_adjacent_free(file_segs(fs)) ==> total(
            file_segs(delete_result(fs, pid, process_priority, name)),
            true,
        ) == total(file_segs(fs), true) + match first_match(fs, named(name)) {
            Some(i) => if may_delete(fs[i], pid, process_priority) && !(release_plan(
                free_flags(file_segs(fs)),
                i,
            ) is Nothing) && !fs[i].free {
                fs[i].size as int
            } else {
                0
            },
            None => 0,
        },
{
    lemma_first_match(fs, named(name));
    if let Some(i) = first_match(fs, named(name)) {
        if may_delete(fs[i], pid, process_priority) {
            lemma_release_files_segs(fs, i);
            lemma_release_total(file_segs(fs), i);
            lemma_release_bounds(file_segs(fs), i);
            if contiguous(file_segs(fs)) {
                lemma_release_contiguous(file_segs(fs), i);
            }
            if no_adjacent_free(file_segs(fs)) {
                lemma_release_no_adjacent_free(file_segs(fs), i);
                lemma_release_free_total(file_segs(fs), i);
            }
        }
    }
}

/// A file placed in a free span by its owner and then deleted by it leaves the
/// spans of the disk as they were (free flags, starts and lengths), when free
/// spans were apart and no span had the file's name. (`create_file` marks the
/// new span free, so the deletion merges it back with what is left of the
/// span, or leaves it free.)
pub proof fn law_create_then_delete_file(
    fs: Seq<File>,
    pid: i32,
    process_priority: i32,
    filename: String,
    filesize: i32,
    vec_index: int,
)
    requires
        create_fits(fs, filesize, vec_index),
        fs[vec_index].free,
        no_adjacent_free(file_segs(fs)),
        forall|j: int| 0 <= j < fs.len() ==> #[trigger] fs[j].file_name@ != filename@,
    ensures
        delete_fits(
            create_result(fs, pid, filename, filesize, vec_index),
            pid,
            process_priority,
            filename@,
        ),
        file_segs(
            delete_result(
                create_result(fs, pid, filename, filesize, vec_index),
                pid,
                process_priority,
                filename@,
            ),
        ) == file_segs(fs),
{
    let t = create_result(fs, pid, filename, filesize, vec_index);
    let p = named(filename@);
    assert forall|j: int| 0 <= j < vec_index implies !p(#[trigger] t[j]) by {
        assert(t[j] == fs[j]);
    }
    lemma_first_match_at(t, p, vec_index);
    let plan = release_plan(free_flags(file_segs(t)), vec_index);
    lemma_create_segs(fs, pid, filename, filesize, vec_index);
    lemma_release_plan_shape(free_flags(file_segs(t)), vec_index);
    let s = file_segs(fs);
    if vec_index > 0 {
        assert(!(s[vec_index - 1].0 && s[vec_index].0));
    }
    if vec_index < fs.len() - 1 {
        assert(!(s[vec_index].0 && s[vec_index + 1].0));
    }
    assert(release_files_fit(t, plan));
    lemma_release_files_segs(t, vec_index);
    lemma_split_then_release(s, vec_index, filesize as int, true);
}

/// Giving memory to a process keeps the area covered and free spans apart, and
/// leaves every other span as it was; the span given holds the process and the
/// size asked for, from the start of the span it came from; taking it from a
/// free span takes exactly that size off the free space. For a size between 0
/// and the span's length, spans stay within `0 ..= i32::MAX` and the first
/// start stays, and lengths stay positive when the size is.
pub proof fn law_alloc_keeps_layout(s: Seq<RAMBlock>, pid: i32, process_b_size: i32, pos: int)
    requires
        alloc_fits(s, process_b_size, pos),
    ensures
        total(block_segs(alloc_result(s, pid, process_b_size, pos)), false) == total(
            block_segs(s),
            false,
        ),
        contiguous(block_segs(s)) ==> contiguous(
            block_segs(alloc_result(s, pid, process_b_size, pos)),
        ),
        no_adjacent_free(block_segs(s)) ==> no_adjacent_free(
            block_segs(alloc_result(s, pid, process_b_size, pos)),
        ),
        s[pos].status == free_status() ==> total(
            block_segs(alloc_result(s, pid, process_b_size, pos)),
            true,
        ) == total(block_segs(s), true) - process_b_size,
        0 <= process_b_size <= s[pos].extension ==> keeps_first_start(
            block_segs(s),
            block_segs(alloc_result(s, pid, process_b_size, pos)),
        ),
        0 <= process_b_size <= s[pos].extension && in_range(block_segs(s)) ==> in_range(
            block_segs(alloc_result(s, pid, process_b_size, pos)),
        ),
        0 < process_b_size <= s[pos].extension && positive(block_segs(s)) ==> positive(
            block_segs(alloc_result(s, pid, process_b_size, pos)),
        ),
        alloc_result(s, pid, process_b_size, pos)[pos] == (RAMBlock {
            status: taken_status(),
            pid: pid,
            mem_index: s[pos].mem_index,
            extension: process_b_size,
        }),
        forall|j: int|
            0 <= j < pos ==> #[trigger] alloc_result(s, pid, process_b_size, pos)[j] == s[j],
        s[pos].extension == process_b_size ==> forall|j: int|
            pos < j < s.len() ==> alloc_result(s, pid, process_b_size, pos)[j] == #[trigger] s[j],
        s[pos].extension != process_b_size ==> forall|j: int|
            pos < j < s.len() ==> alloc_result(s, pid, process_b_size, pos)[j + 1] == #[trigger] s[j],
        s[pos].extension != process_b_size ==> alloc_result(s, pid, process_b_size, pos)[pos + 1]
            == (RAMBlock {
            mem_index: (s[pos].mem_index + process_b_size) as i32,
            extension: (s[pos].extension - process_b_size) as i32,
            ..s[pos]
        }),
{
    if 0 <= process_b_size <= s[pos].extension {
        lemma_split_bounds(block_segs(s), pos, process_b_size as int, false);
    }
    lemma_alloc_segs(s, pid, process_b_size, pos);
    lemma_split(block_segs(s), pos, process_b_size as int, false);
    if no_adjacent_free(block_segs(s)) {
        lemma_split_no_adjacent_free(block_segs(s), pos, process_b_size as int);
    }
}

/// Taking memory back from a process keeps the area covered: the total length
/// and the start of the first span, the tiling, positive lengths, spans within
/// `0 ..= i32::MAX`, and free spans kept apart all stay; when its span was
/// taken and the release was carried out, the free space grows by the span's
/// length, and otherwise it stays as it was; with no span recorded on the
/// process nothing changes.
pub proof fn law_dealloc_keeps_layout(s: Seq<RAMBlock>, pid: i32)
    requires
        dealloc_fits(s, pid),
    ensures
        total(block_segs(dealloc_result(s, pid)), false) == total(block_segs(s), false),
        contiguous(block_segs(s)) ==> contiguous(block_segs(dealloc_result(s, pid))),
        no_adjacent_free(block_segs(s)) ==> no_adjacent_free(block_segs(dealloc_result(s, pid))),
        positive(block_segs(s)) ==> positive(block_segs(dealloc_result(s, pid))),
        keeps_first_start(block_segs(s), block_segs(dealloc_result(s, pid))),
        contiguous(block_segs(s)) && in_range(block_segs(s)) ==> in_range(
            block_segs(dealloc_result(s, pid)),
        ),
        first_match(s, owned_by(pid)) is None ==> dealloc_result(s, pid) == s,
        no_adjacent_free(block_segs(s)) ==> total(block_segs(dealloc_result(s, pid)), true)
            == total(block_segs(s), true) + match first_match(s, owned_by(pid)) {
            Some(i) => if !(release_plan(free_flags(block_segs(s)), i) is Nothing) && s[i].status
                != free_status() {
                s[i].extension as int
            } else {
                0
            },
            None => 0,
        },
{
    lemma_first_match(s, owned_by(pid));
    if let Some(i) = first_match(s, owned_by(pid)) {
        lemma_release_blocks_segs(s, i);
        lemma_release_total(block_segs(s), i);
        lemma_release_bounds(block_segs(s), i);
        if contiguous(block_segs(s)) {
            lemma_release_contiguous(block_segs(s), i);
        }
        if no_adjacent_free(block_segs(s)) {
            lemma_release_no_adjacent_free(block_segs(s), i);
            lemma_release_free_total(block_segs(s), i);
        }
    }
}

/// Memory given to a process from a free span and then taken back from it leaves
/// the spans of the area as they were (free flags, starts and lengths), when
/// free spans were apart and no span was recorded on the process; the one
/// exception is an exact fit in the first or last of several spans whose inner
/// neighbour is taken, which the release leaves taken.
pub proof fn law_alloc_then_dealloc(s: Seq<RAMBlock>, pid: i32, process_b_size: i32, pos: int)
    requires
        alloc_fits(s, process_b_size, pos),
        s[pos].status == free_status(),
        no_adjacent_free(block_segs(s)),
        forall|j: int| 0 <= j < s.len() ==> #[trigger] s[j].pid != pid,
        !release_stuck(block_segs(s), pos, process_b_size as int),
    ensures
        dealloc_fits(alloc_result(s, pid, process_b_size, pos), pid),
        block_segs(dealloc_result(alloc_result(s, pid, process_b_size, pos), pid)) == block_segs(
            s,
        ),
{
    let t = alloc_result(s, pid, process_b_size, pos);
    let p = owned_by(pid);
    assert forall|j: int| 0 <= j < pos implies !p(#[trigger] t[j]) by {
        assert(t[j] == s[j]);
    }
    lemma_first_match_at(t, p, pos);
    let plan = release_plan(free_flags(block_segs(t)), pos);
    lemma_alloc_segs(s, pid, process_b_size, pos);
    lemma_release_plan_shape(free_flags(block_segs(t)), pos);
    let g = block_segs(s);
    if pos > 0 {
        assert(!(g[pos - 1].0 && g[pos].0));
    }
    if pos < s.len() - 1 {
        assert(!(g[pos].0 && g[pos + 1].0));
    }
    assert(release_blocks_fit(t, plan));
    lemma_release_blocks_segs(t, pos);
    lemma_split_then_release(g, pos, process_b_size as int, false);
}

/// Taking the devices of a process that were all free and giving them back
/// leaves the devices as they were.
pub proof fn law_resources_round_trip(d: Devices, process: Processo)
    requires
        valid_request(process),
        d.1.len() == 2,
        d.3.len() == 2,
        devices_available(d, process),
    ensures
        set_devices(set_devices(d, process, false), process, true) == d,
{
    let back = set_devices(set_devices(d, process, false), process, true);
    assert(back.1 =~= d.1);
    assert(back.3 =~= d.3);
}

/// Once a process has taken its devices, they are no longer available to it,
/// unless it asks for none; once it has given them back, they are.
pub proof fn law_resources_taken_and_given_back(d: Devices, process: Processo)
    requires
        valid_request(process),
        d.1.len() == 2,
        d.3.len() == 2,
    ensures
        devices_available(set_devices(d, process, false), process) == !requests_any(process),
        devices_available(set_devices(d, process, true), process),
{
}

/// A process that the dispatcher plans to start is given a span of memory that
/// is free and can hold its blocks, in the area of its priority, and the
/// devices that it asks for are free.
pub proof fn law_start_gets_room(d: Dispatcher, process: Processo)
    requires
        valid_request(process),
        availability(d, process).0,
        process.state != State::Terminated,
        process.state != State::Waiting,
    ensures
        ({
            let pos = availability(d, process).1 as int;
            let area = region(d.ram@, process.priority as i32);
            &&& 0 <= pos < area.len()
            &&& area[pos].status == free_status()
            &&& area[pos].extension >= process.blocks as i32
            &&& devices_available(d.resources.spec_state(), process)
        }),
{
    lemma_first_match(region(d.ram@, process.priority as i32), room_for(process.blocks as i32));
    assert(d.ram.realtime_mem.len() == d.ram.realtime_mem@.len());
    assert(d.ram.user_mem.len() == d.ram.user_mem@.len());
}

/// A file just placed is the one that a search by its name finds, when no span
/// before it had that name: it holds the size asked for, its owner and its
/// name, and starts where the span it was placed in started.
pub proof fn law_create_then_find(
    fs: Seq<File>,
    pid: i32,
    filename: String,
    filesize: i32,
    vec_index: int,
)
    requires
        create_fits(fs, filesize, vec_index),
        forall|j: int| 0 <= j < vec_index ==> #[trigger] fs[j].file_name@ != filename@,
    ensures
        first_match(create_result(fs, pid, filename, filesize, vec_index), named(filename@)) == Some(
            vec_index,
        ),
        create_result(fs, pid, filename, filesize, vec_index)[vec_index].file_owner == pid,
        create_result(fs, pid, filename, filesize, vec_index)[vec_index].size == filesize,
        create_result(fs, pid, filename, filesize, vec_index)[vec_index].index == fs[vec_index].index,
{
    let t = create_result(fs, pid, filename, filesize, vec_index);
    assert forall|j: int| 0 <= j < vec_index implies !named(filename@)(#[trigger] t[j]) by {
        assert(t[j] == fs[j]);
    }
    lemma_first_match_at(t, named(filename@), vec_index);
}

/// A user process cannot delete a file that another process owns: the disk
/// stays as it was.
pub proof fn law_delete_refused(fs: Seq<File>, pid: i32, process_priority: i32, name: Seq<char>)
    requires
        process_priority > 0,
        first_match(fs, named(name)) matches Some(i) && fs[i].file_owner != pid,
    ensures
        delete_result(fs, pid, process_priority, name) == fs,
{
}

/// Memory just given to a process is the span that a search by its id finds,
/// when no span before it was recorded on that id: it is taken, holds the size
/// asked for, and starts where the span it was taken from started.
pub proof fn law_alloc_then_find(s: Seq<RAMBlock>, pid: i32, process_b_size: i32, pos: int)
    requires
        alloc_fits(s, process_b_size, pos),
        forall|j: int| 0 <= j < pos ==> #[trigger] s[j].pid != pid,
    ensures
        first_match(alloc_result(s, pid, process_b_size, pos), owned_by(pid)) == Some(pos),
        alloc_result(s, pid, process_b_size, pos)[pos].status == taken_status(),
        alloc_result(s, pid, process_b_size, pos)[pos].extension == process_b_size,
        alloc_result(s, pid, process_b_size, pos)[pos].mem_index == s[pos].mem_index,
{
    let t = alloc_result(s, pid, process_b_size, pos);
    assert forall|j: int| 0 <= j < pos implies !owned_by(pid)(#[trigger] t[j]) by {
        assert(t[j] == s[j]);
    }
    lemma_first_match_at(t, owned_by(pid), pos);
}

/// The span that `mem_available` finds for a size of at least 0 can take the
/// process without overflow, when the spans lie within `0 ..= i32::MAX`.
pub proof fn law_found_memory_fits(s: Seq<RAMBlock>, process_b_size: i32)
    requires
        process_b_size >= 0,
        in_range(block_segs(s)),
        first_match(s, room_for(process_b_size)) is Some,
    ensures
        alloc_fits(s, process_b_size, first_match(s, room_for(process_b_size))->0),
        s[first_match(s, room_for(process_b_size))->0].status == free_status(),
        s[first_match(s, room_for(process_b_size))->0].extension >= process_b_size,
{
    lemma_first_match(s, room_for(process_b_size));
    let v = first_match(s, room_for(process_b_size))->0;
    assert(0 <= block_segs(s)[v].1 && 0 <= block_segs(s)[v].2 && block_segs(s)[v].1 + block_segs(
        s,
    )[v].2 <= i32::MAX);
}

/// In an area whose spans tile `0 ..= i32::MAX` without overlap, a release
/// never overflows.
pub proof fn law_dealloc_fits_when_tiled(s: Seq<RAMBlock>, pid: i32)
    requires
        contiguous(block_segs(s)),
        in_range(block_segs(s)),
    ensures
        dealloc_fits(s, pid),
{
    lemma_first_match(s, owned_by(pid));
    if let Some(i) = first_match(s, owned_by(pid)) {
        lemma_release_bounds(block_segs(s), i);
        lemma_release_plan_shape(free_flags(block_segs(s)), i);
    }
}

/// A process of priority above 0 uses the user area and one of any other
/// priority the real-time area: an operation on its area leaves the other
/// area as it was.
pub proof fn law_priority_selects_area(
    m: (Seq<RAMBlock>, Seq<RAMBlock>),
    process_priority: i32,
    s: Seq<RAMBlock>,
)
    ensures
        process_priority > 0 ==> region(m, process_priority) == m.1 && set_region(
            m,
            process_priority,
            s,
        ) == (m.0, s),
        process_priority <= 0 ==> region(m, process_priority) == m.0 && set_region(
            m,
            process_priority,
            s,
        ) == (s, m.1),
{
}

/// A creation (second field `0`, fourth field an `i32` size) for which no free
/// span of the disk is large enough is a well-formed instruction that does
/// nothing: it is valid, and the disk after it is the disk before it.
pub proof fn law_creation_without_room(p: Processo, fs: Seq<File>, text: Seq<char>, size: i32)
    requires
        split_on(text, ',').len() >= 4,
        split_on(text, ',')[1] == seq!['0'],
        parse_i32(split_on(text, ',')[3]) == Some(size),
        forall|j: int| 0 <= j < fs.len() ==> !(#[trigger] fs[j].free && fs[j].size >= size),
    ensures
        instruction_valid(p, fs, text),
        instruction_done(p, fs, text, fs),
        forall|after: Seq<File>| instruction_done(p, fs, text, after) ==> after == fs,
{
    assert forall|j: int| 0 <= j < fs.len() implies !holds(size)(#[trigger] fs[j]) by {
        assert(!(fs[j].free && fs[j].size >= size));
    }
    lemma_first_match_none(fs, holds(size));
}

/// A turn in which a process, not preempted and within its quantum, comes to a
/// creation for which no free span is large enough runs it: the turn is `Ran`
/// (so the instruction is dropped), and by `law_creation_without_room` the disk
/// is left as it was.
pub proof fn law_turn_with_creation_without_room(p: Processo, fs: Seq<File>, p_counter: u32)
    requires
        p_counter < p.time,
        p.instructions@.len() > 0,
        split_on(strip_white_space(p.instructions@[0]@), ',').len() >= 4,
        split_on(strip_white_space(p.instructions@[0]@), ',')[1] == seq!['0'],
        parse_i32(split_on(strip_white_space(p.instructions@[0]@), ',')[3]) is Some,
        forall|j: int|
            0 <= j < fs.len() ==> !(#[trigger] fs[j].free && fs[j].size >= parse_i32(
                split_on(strip_white_space(p.instructions@[0]@), ',')[3],
            )->0),
    ensures
        step_outcome(p, fs, p_counter, false) == ExecStep::Ran,
        instruction_done(p, fs, strip_white_space(p.instructions@[0]@), fs),
{
    let text = strip_white_space(p.instructions@[0]@);
    law_creation_without_room(p, fs, text, parse_i32(split_on(text, ',')[3])->0);
}

/// A deletion (second field other than `0`) of a name that no span of the disk
/// has is a well-formed instruction that does nothing.
pub proof fn law_deletion_of_missing_file(p: Processo, fs: Seq<File>, text: Seq<char>)
    requires
        split_on(text, ',').len() >= 3,
        split_on(text, ',')[1] != seq!['0'],
        forall|j: int| 0 <= j < fs.len() ==> #[trigger] fs[j].file_name@ != split_on(text, ',')[2],
    ensures
        instruction_valid(p, fs, text),
        instruction_done(p, fs, text, fs),
        forall|after: Seq<File>| instruction_done(p, fs, text, after) ==> after == fs,
{
    let name = split_on(text, ',')[2];
    assert forall|j: int| 0 <= j < fs.len() implies !named(name)(#[trigger] fs[j]) by {
        assert(fs[j].file_name@ != name);
    }
    lemma_first_match_none(fs, named(name));
}

/// A deletion by a user process (priority above 0) of a file that another
/// process owns is a well-formed instruction that does nothing.
pub proof fn law_deletion_refused(p: Processo, fs: Seq<File>, text: Seq<char>, i: int)
    requires
        split_on(text, ',').len() >= 3,
        split_on(text, ',')[1] != seq!['0'],
        p.priority as i32 > 0,
        0 <= i < fs.len(),
        fs[i].file_name@ == split_on(text, ',')[2],
        forall|j: int| 0 <= j < i ==> #[trigger] fs[j].file_name@ != split_on(text, ',')[2],
        fs[i].file_owner != p.pid as i32,
    ensures
        instruction_valid(p, fs, text),
        instruction_done(p, fs, text, fs),
        forall|after: Seq<File>| instruction_done(p, fs, text, after) ==> after == fs,
{
    let name = split_on(text, ',')[2];
    assert forall|j: int| 0 <= j < i implies !named(name)(#[trigger] fs[j]) by {
        assert(fs[j].file_name@ != name);
    }
    lemma_first_match_at(fs, named(name), i);
}

/// On a disk whose spans lie within `0 ..= i32::MAX` and tile it, every
/// well-formed instruction is valid: a creation of a size of at least 0, and
/// any deletion.
pub proof fn law_well_formed_instruction_valid_on_tiled_disk(p: Processo, fs: Seq<File>, text: Seq<
    char,
>)
    requires
        contiguous(file_segs(fs)),
        in_range(file_segs(fs)),
        split_on(text, ',').len() >= 2,
        split_on(text, ',')[1] == seq!['0'] ==> (split_on(text, ',').len() >= 4 && parse_i32(
            split_on(text, ',')[3],
        ) is Some && parse_i32(split_on(text, ',')[3])->0 >= 0),
        split_on(text, ',')[1] != seq!['0'] ==> split_on(text, ',').len() >= 3,
    ensures
        instruction_valid(p, fs, text),
{
    let f = split_on(text, ',');
    if f[1] == seq!['0'] {
        let n = parse_i32(f[3])->0;
        lemma_first_match(fs, holds(n));
        if first_match(fs, holds(n)) is Some {
            law_found_storage_fits(fs, n);
        }
    } else {
        law_delete_fits_when_tiled(fs, p.pid as i32, p.priority as i32, f[2]);
    }
}

/// An instruction that is not well formed is not valid: fewer than two fields,
/// a creation without a fourth field that writes an `i32`, or a deletion
/// without a third field.
pub proof fn law_malformed_instruction_invalid(p: Processo, fs: Seq<File>, text: Seq<char>)
    requires
        split_on(text, ',').len() < 2 || (split_on(text, ',')[1] == seq!['0'] && (split_on(
            text,
            ',',
        ).len() < 4 || parse_i32(split_on(text, ',')[3]) is None)) || (split_on(text, ',')[1]
            != seq!['0'] && split_on(text, ',').len() < 3),
    ensures
        !instruction_valid(p, fs, text),
{
}

/// A turn is `Preempted` when the process was preempted or has used its
/// quantum, whatever it has left to run; otherwise a process with no
/// instruction left has `Finished`.
pub proof fn law_turn_ends(p: Processo, fs: Seq<File>, p_counter: u32, preempted: bool)
    ensures
        preempted || p_counter >= p.time ==> step_outcome(p, fs, p_counter, preempted)
            == ExecStep::Preempted,
        !preempted && p_counter < p.time && p.instructions@.len() == 0 ==> step_outcome(
            p,
            fs,
            p_counter,
            preempted,
        ) == ExecStep::Finished,
{
}

/// A creation (second field `0`, fourth field an `i32` size) on a disk that has
/// a free span large enough puts the file, with the name of the third field,
/// the process as owner and the size asked for, at the start of the first such
/// span, leaving the spans before it as they were; when the instruction is
/// valid the disk keeps its total length.
pub proof fn law_creation_with_room(
    p: Processo,
    fs: Seq<File>,
    text: Seq<char>,
    size: i32,
    after: Seq<File>,
)
    requires
        split_on(text, ',').len() >= 4,
        split_on(text, ',')[1] == seq!['0'],
        parse_i32(split_on(text, ',')[3]) == Some(size),
        exists|j: int| 0 <= j < fs.len() && #[trigger] fs[j].free && fs[j].size >= size,
        instruction_done(p, fs, text, after),
    ensures
        exists|v: int|
            {
                &&& 0 <= v < fs.len()
                &&& #[trigger] fs[v].free && fs[v].size >= size
                &&& forall|j: int| 0 <= j < v ==> !(#[trigger] fs[j].free && fs[j].size >= size)
                &&& v < after.len()
                &&& after[v].file_name@ == split_on(text, ',')[2]
                &&& after[v].file_owner == p.pid as i32
                &&& after[v].size == size
                &&& after[v].index == fs[v].index
                &&& forall|j: int| 0 <= j < v ==> #[trigger] after[j] == fs[j]
            },
        instruction_valid(p, fs, text) ==> total(file_segs(after), false) == total(
            file_segs(fs),
            false,
        ),
{
    lemma_first_match(fs, holds(size));
    let j0 = choose|j: int| 0 <= j < fs.len() && #[trigger] fs[j].free && fs[j].size >= size;
    if first_match(fs, holds(size)) is None {
        assert(!holds(size)(fs[j0]));
    }
    let v = first_match(fs, holds(size))->0;
    let name = choose|name: String|
        name@ == split_on(text, ',')[2] && after == #[trigger] create_result(
            fs,
            p.pid as i32,
            name,
            size,
            v,
        );
    assert forall|j: int| 0 <= j < v implies !(#[trigger] fs[j].free && fs[j].size >= size) by {
        assert(!holds(size)(fs[j]));
    }
    assert(holds(size)(fs[v]));
    if instruction_valid(p, fs, text) {
        law_create_file_keeps_layout(fs, p.pid as i32, name, size, v);
    }
    assert(after[v].file_name@ == split_on(text, ',')[2]);
}

/// Releasing memory of a process that no span is recorded on never overflows
/// and changes nothing.
pub proof fn law_dealloc_of_missing_pid(s: Seq<RAMBlock>, pid: i32)
    requires
        forall|j: int| 0 <= j < s.len() ==> #[trigger] s[j].pid != pid,
    ensures
        dealloc_fits(s, pid),
        dealloc_result(s, pid) == s,
{
    assert forall|j: int| 0 <= j < s.len() implies !owned_by(pid)(#[trigger] s[j]) by {
        assert(s[j].pid != pid);
    }
    lemma_first_match_none(s, owned_by(pid));
}

/// Giving a process a whole span (its size equals the span's length) never
/// overflows, and neither does placing a file that fills a whole span.
pub proof fn law_exact_fit_always_fits(
    s: Seq<RAMBlock>,
    pos: int,
    fs: Seq<File>,
    vec_index: int,
)
    ensures
        0 <= pos < s.len() ==> alloc_fits(s, s[pos].extension, pos),
        0 <= vec_index < fs.len() ==> create_fits(fs, fs[vec_index].size, vec_index),
{
}

/// A process that has not terminated, whose area of memory has a free span that
/// holds its blocks and whose devices are free, is found available, at the
/// first such span.
pub proof fn law_room_and_devices_make_available(d: Dispatcher, process: Processo, pos: int)
    requires
        0 <= pos < region(d.ram@, process.priority as i32).len(),
        region(d.ram@, process.priority as i32)[pos].status == free_status(),
        region(d.ram@, process.priority as i32)[pos].extension >= process.blocks as i32,
        forall|j: int|
            0 <= j < pos ==> !(#[trigger] region(d.ram@, process.priority as i32)[j].status
                == free_status() && region(d.ram@, process.priority as i32)[j].extension
                >= process.blocks as i32),
        devices_available(d.resources.spec_state(), process),
    ensures
        availability(d, process) == (true, pos as usize),
{
    let area = region(d.ram@, process.priority as i32);
    let p = room_for(process.blocks as i32);
    assert forall|j: int| 0 <= j < pos implies !p(#[trigger] area[j]) by {
        assert(!(area[j].status == free_status() && area[j].extension >= process.blocks as i32));
    }
    lemma_first_match_at(area, p, pos);
}

} // verus!
