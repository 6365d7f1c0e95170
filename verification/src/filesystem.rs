use vstd::prelude::*;

use crate::search::{first_match, lemma_first_match, lemma_first_match_at, lemma_first_match_none, search_pair};
use crate::segments::{
    Release, Seg, free_flags, lemma_release_plan_shape, release_plan, seg_release, seg_split,
};

verus! {

/// The state of one block of the disk.
#[derive(Debug, PartialEq, Eq, Structural)]
pub enum Block {
    Free,
    Occupied,
}

/// A span of the disk: a file, or free space when `free` is set.
#[derive(Debug)]
pub struct File {
    pub free: bool,
    pub file_name: String,
    pub file_owner: i32,
    pub index: i32,
    pub size: i32,
}

/// The disk: its spans, in order, and the state of each of its blocks.
#[derive(Debug)]
pub struct FileSystem {
    pub fs: Vec<File>,
    pub blocks: Vec<Block>,
}

/// A span whose name is `name`.
pub open spec fn named(name: Seq<char>) -> spec_fn(File) -> bool {
    |f: File| f.file_name@ == name
}

/// A free span that can hold `size` blocks.
pub open spec fn holds(size: i32) -> spec_fn(File) -> bool {
    |f: File| f.free && f.size >= size
}

/// A span seen as (free, start, length).
pub open spec fn file_seg(f: File) -> Seg {
    (f.free, f.index as int, f.size as int)
}

/// The spans of the disk seen as (free, start, length).
pub open spec fn file_segs(fs: Seq<File>) -> Seq<Seg> {
    fs.map_values(|f: File| file_seg(f))
}

/// `f` marked free.
pub open spec fn freed_file(f: File) -> File {
    File { free: true, ..f }
}

/// `f` with length `size`.
pub open spec fn resized_file(f: File, size: int) -> File {
    File { size: size as i32, ..f }
}

/// A sum of two lengths that a span can hold.
pub open spec fn fits_i32(n: int) -> bool {
    i32::MIN <= n <= i32::MAX
}

/// Span `stay` takes the length of span `remove` and becomes free; `remove` goes.
pub open spec fn merge_files(fs: Seq<File>, stay: int, remove: int) -> Seq<File> {
    fs.update(stay, freed_file(resized_file(fs[stay], fs[stay].size + fs[remove].size))).remove(
        remove,
    )
}

/// Span `stay` takes the lengths of `first`, then of `second`; `first` goes, then,
/// from what is left, `second`.
pub open spec fn merge_two_files(fs: Seq<File>, stay: int, first: int, second: int) -> Seq<
    File,
> {
    let s1 = fs.update(stay, resized_file(fs[stay], fs[stay].size + fs[first].size));
    let s2 = s1.update(stay, resized_file(s1[stay], s1[stay].size + s1[second].size));
    s2.remove(first).remove(second)
}

/// The sums of `merge_two_files` stay in range.
pub open spec fn merge_two_files_fit(fs: Seq<File>, stay: int, first: int, second: int) -> bool {
    let s1 = fs.update(stay, resized_file(fs[stay], fs[stay].size + fs[first].size));
    fits_i32(fs[stay].size + fs[first].size) && fits_i32(s1[stay].size + s1[second].size)
}

/// A release applied to the spans of the disk.
pub open spec fn release_files(fs: Seq<File>, plan: Release) -> Seq<File> {
    match plan {
        Release::Nothing => fs,
        Release::MarkFree(i) => fs.update(i, freed_file(fs[i])),
        Release::Merge(a, b) => merge_files(fs, a, b),
        Release::MergeTwo(a, b, c) => merge_two_files(fs, a, b, c),
    }
}

/// The sums of a release stay in range.
pub open spec fn release_files_fit(fs: Seq<File>, plan: Release) -> bool {
    match plan {
        Release::Merge(a, b) => fits_i32(fs[a].size + fs[b].size),
        Release::MergeTwo(a, b, c) => merge_two_files_fit(fs, a, b, c),
        _ => true,
    }
}

/// Who may delete a span: a process of priority 0, or its owner.
pub open spec fn may_delete(f: File, pid: i32, process_priority: i32) -> bool {
    !(process_priority > 0 && f.file_owner != pid)
}

/// The spans after the first span named `name` is deleted by process `pid`.
pub open spec fn delete_result(fs: Seq<File>, pid: i32, process_priority: i32, name: Seq<char>) -> Seq<
    File,
> {
    match first_match(fs, named(name)) {
        None => fs,
        Some(i) => if may_delete(fs[i], pid, process_priority) {
            release_files(fs, release_plan(free_flags(file_segs(fs)), i))
        } else {
            fs
        },
    }
}

/// The sums of a deletion stay in range.
pub open spec fn delete_fits(fs: Seq<File>, pid: i32, process_priority: i32, name: Seq<char>) -> bool {
    match first_match(fs, named(name)) {
        None => true,
        Some(i) => may_delete(fs[i], pid, process_priority) ==> release_files_fit(
            fs,
            release_plan(free_flags(file_segs(fs)), i),
        ),
    }
}

/// The new span that `create_file` places at `vec_index`.
pub open spec fn new_file(fs: Seq<File>, pid: i32, filename: String, filesize: i32, vec_index: int) -> File {
    File {
        free: true,
        file_name: filename,
        file_owner: pid,
        index: fs[vec_index].index,
        size: filesize,
    }
}

/// The spans after a file of `filesize` blocks is placed at the start of span
/// `vec_index`: it takes the span's place when the sizes are equal, and goes
/// before what is left of the span otherwise.
pub open spec fn create_result(
    fs: Seq<File>,
    pid: i32,
    filename: String,
    filesize: i32,
    vec_index: int,
) -> Seq<File> {
    let file = new_file(fs, pid, filename, filesize, vec_index);
    if fs[vec_index].size == filesize {
        fs.update(vec_index, file)
    } else {
        fs.update(
            vec_index,
            File {
                index: (fs[vec_index].index + filesize) as i32,
                size: (fs[vec_index].size - filesize) as i32,
                ..fs[vec_index]
            },
        ).insert(vec_index, file)
    }
}

/// The sums of `create_file` stay in range.
pub open spec fn create_fits(fs: Seq<File>, filesize: i32, vec_index: int) -> bool {
    &&& 0 <= vec_index < fs.len()
    &&& fs[vec_index].size != filesize ==> fits_i32(fs[vec_index].index + filesize) && fits_i32(
        fs[vec_index].size - filesize,
    )
}

/// The spans seen as segments follow a release of the spans.
pub proof fn lemma_release_files_segs(fs: Seq<File>, i: int)
    requires
        0 <= i < fs.len(),
        release_files_fit(fs, release_plan(free_flags(file_segs(fs)), i)),
    ensures
        file_segs(release_files(fs, release_plan(free_flags(file_segs(fs)), i))) == seg_release(
            file_segs(fs),
            release_plan(free_flags(file_segs(fs)), i),
        ),
{
    let plan = release_plan(free_flags(file_segs(fs)), i);
    lemma_release_plan_shape(free_flags(file_segs(fs)), i);
    let l = file_segs(release_files(fs, plan));
    let r = seg_release(file_segs(fs), plan);
    assert(l.len() == r.len());
    assert forall|j: int| 0 <= j < l.len() implies l[j] == r[j] by {}
    assert(l =~= r);
}

/// The spans seen as segments follow `create_file`.
pub proof fn lemma_create_segs(fs: Seq<File>, pid: i32, filename: String, filesize: i32, vec_index: int)
    requires
        create_fits(fs, filesize, vec_index),
    ensures
        file_segs(create_result(fs, pid, filename, filesize, vec_index)) == seg_split(
            file_segs(fs),
            vec_index,
            filesize as int,
            true,
        ),
{
    let l = file_segs(create_result(fs, pid, filename, filesize, vec_index));
    let r = seg_split(file_segs(fs), vec_index, filesize as int, true);
    assert(l.len() == r.len());
    assert forall|j: int| 0 <= j < l.len() implies l[j] == r[j] by {}
    assert(l =~= r);
}

impl FileSystem {
    /// The position of the first span named `filename`, if there is one.
    pub fn get_file_index(&self, filename: String) -> (r: (bool, usize))
        ensures
            r == search_pair(first_match(self.fs@, named(filename@))),
    {
        let ghost p = named(filename@);
        for i in 0..self.fs.len()
            invariant
                p == named(filename@),
                forall|j: int| 0 <= j < i ==> !p(#[trigger] self.fs@[j]),
        {
            if self.fs[i].file_name == filename {
                proof {
                    lemma_first_match_at(self.fs@, p, i as int);
                }
                return (true, i);
            }
        }
        proof {
            lemma_first_match_none(self.fs@, p);
        }
        (false, 0)
    }

    /// The position of the first free span that can hold `file_size` blocks, if
    /// there is one.
    pub fn storage_available(&self, file_size: i32) -> (r: (bool, usize))
        ensures
            r == search_pair(first_match(self.fs@, holds(file_size))),
    {
        let ghost p = holds(file_size);
        for i in 0..self.fs.len()
            invariant
                p == holds(file_size),
                forall|j: int| 0 <= j < i ==> !p(#[trigger] self.fs@[j]),
        {
            if self.fs[i].free && self.fs[i].size >= file_size {
                proof {
                    lemma_first_match_at(self.fs@, p, i as int);
                }
                return (true, i);
            }
        }
        proof {
            lemma_first_match_none(self.fs@, p);
        }
        (false, 0)
    }

    /// Places a file of `filesize` blocks, owned by `pid`, at the start of span
    /// `vec_index` (see `create_result`).
    pub fn create_file(&mut self, pid: i32, filename: String, filesize: i32, vec_index: usize)
        requires
            create_fits(old(self).fs@, filesize, vec_index as int),
        ensures
            final(self).fs@ == create_result(old(self).fs@, pid, filename, filesize, vec_index as int),
            final(self).blocks@ == old(self).blocks@,
    {
        let ghost name = filename;
        let file = File {
            free: true,
            file_name: filename,
            file_owner: pid,
            index: self.fs[vec_index].index,
            size: filesize,
        };

        if self.fs[vec_index].size == file.size {
            self.fs[vec_index] = file;
        } else {
            self.fs[vec_index].index = self.fs[vec_index].index + filesize;
            self.fs[vec_index].size = self.fs[vec_index].size - filesize;

            self.fs.insert(vec_index, file);
        }
        proof {
            assert(self.fs@ =~= create_result(old(self).fs@, pid, name, filesize, vec_index as int));
        }
    }

    /// Deletes the first span named `filename`, if process `pid` may: the span is
    /// marked free or merged with its free neighbours (see `release_plan`).
    pub fn delete_file(&mut self, pid: i32, process_priority: i32, filename: String)
        requires
            delete_fits(old(self).fs@, pid, process_priority, filename@),
        ensures
            final(self).fs@ == delete_result(old(self).fs@, pid, process_priority, filename@),
            final(self).blocks@ == old(self).blocks@,
    {
        let ghost name = filename@;
        let ghost plan_free = free_flags(file_segs(self.fs@));
        let (found, vec_index) = self.get_file_index(filename);
        proof {
            lemma_first_match(self.fs@, named(name));
        }

        if !found {
            proof {
                assert(first_match(old(self).fs@, named(name)) is None);
            }
            return;
        }
        let ghost i = vec_index as int;
        proof {
            let k = first_match(old(self).fs@, named(name))->0;
            assert(0 <= k < self.fs.len());
            assert(first_match(old(self).fs@, named(name)) == Some(i));
        }
        if process_priority > 0 && self.fs[vec_index].file_owner != pid {
            return;
        }
        proof {
            lemma_release_plan_shape(plan_free, i);
            assert forall|j: int| 0 <= j < self.fs@.len() implies plan_free[j] == self.fs@[j].free by {}
        }
        // a single span
        if self.fs.len() == 1 {
            self.fs[vec_index].free = true;
            proof {
                assert(self.fs@ =~= release_files(old(self).fs@, release_plan(plan_free, i)));
            }
            return;
        } else {
            // the first of several spans
            if vec_index == 0 {
                if self.fs[vec_index + 1].free {
                    self.merge_free_block(vec_index, vec_index + 1);
                }
            // the last of several spans
            } else if vec_index == self.fs.len() - 1 {
                if self.fs[vec_index - 1].free {
                    self.merge_free_block(vec_index - 1, vec_index);
                }
            // any other span
            } else {
                if self.fs[vec_index - 1].free && self.fs[vec_index + 1].free {
                    self.merge_two_free_blocks(vec_index - 1, vec_index + 1, vec_index);
                } else if self.fs[vec_index - 1].free {
                    self.merge_free_block(vec_index - 1, vec_index);
                } else if self.fs[vec_index + 1].free {
                    self.merge_free_block(vec_index, vec_index + 1);
                } else {
                    self.fs[vec_index].free = true;
                    proof {
                        assert(self.fs@ =~= release_files(
                            old(self).fs@,
                            release_plan(plan_free, i),
                        ));
                    }
                }
            }
            return;
        }
    }

    /// Span `stay_block` takes the length of span `remove_block` and becomes
    /// free; `remove_block` is removed.
    pub fn merge_free_block(&mut self, stay_block: usize, remove_block: usize)
        requires
            stay_block < old(self).fs@.len(),
            remove_block < old(self).fs@.len(),
            fits_i32(old(self).fs@[stay_block as int].size + old(self).fs@[remove_block as int].size),
        ensures
            final(self).fs@ == merge_files(old(self).fs@, stay_block as int, remove_block as int),
            final(self).blocks@ == old(self).blocks@,
    {
        self.fs[stay_block].free = true;
        let extra = self.fs[remove_block].size;
        self.fs[stay_block].size = self.fs[stay_block].size + extra;
        self.fs.remove(remove_block);
        proof {
            assert(self.fs@ =~= merge_files(old(self).fs@, stay_block as int, remove_block as int));
        }
    }

    /// Span `stay_block` takes the lengths of `first_remove_block` and
    /// `second_remove_block`; those are removed, the first before the second.
    pub fn merge_two_free_blocks(
        &mut self,
        stay_block: usize,
        first_remove_block: usize,
        second_remove_block: usize,
    )
        requires
            stay_block < old(self).fs@.len(),
            first_remove_block < old(self).fs@.len(),
            second_remove_block < old(self).fs@.len() - 1,
            merge_two_files_fit(
                old(self).fs@,
                stay_block as int,
                first_remove_block as int,
                second_remove_block as int,
            ),
        ensures
            final(self).fs@ == merge_two_files(
                old(self).fs@,
                stay_block as int,
                first_remove_block as int,
                second_remove_block as int,
            ),
            final(self).blocks@ == old(self).blocks@,
    {
        let first = self.fs[first_remove_block].size;
        self.fs[stay_block].size = self.fs[stay_block].size + first;
        let second = self.fs[second_remove_block].size;
        self.fs[stay_block].size = self.fs[stay_block].size + second;
        self.fs.remove(first_remove_block);
        self.fs.remove(second_remove_block);
        proof {
            assert(self.fs@ =~= merge_two_files(
                old(self).fs@,
                stay_block as int,
                first_remove_block as int,
                second_remove_block as int,
            ));
        }
    }

    /// Whether deleting the first span named `filename` by process `pid` keeps
    /// its sums in range (see `delete_fits`).
    pub fn deletion_fits(&self, pid: i32, process_priority: i32, filename: &String) -> (r: bool)
        ensures
            r == delete_fits(self.fs@, pid, process_priority, filename@),
    {
        let (found, i) = self.get_file_index(filename.clone());
        proof {
            lemma_first_match(self.fs@, named(filename@));
        }
        if !found {
            return true;
        }
        proof {
            let k = first_match(self.fs@, named(filename@))->0;
            assert(0 <= k < self.fs.len());
            let plan_free = free_flags(file_segs(self.fs@));
            lemma_release_plan_shape(plan_free, i as int);
            assert forall|j: int| 0 <= j < self.fs@.len() implies plan_free[j] == self.fs@[j].free by {}
        }
        if process_priority > 0 && self.fs[i].file_owner != pid {
            return true;
        }
        let len = self.fs.len();
        if len == 1 {
            true
        } else if i == 0 {
            if self.fs[1].free {
                let sum = self.fs[0].size as i64 + self.fs[1].size as i64;
                i32::MIN as i64 <= sum && sum <= i32::MAX as i64
            } else {
                true
            }
        } else if i == len - 1 {
            if self.fs[i - 1].free {
                let sum = self.fs[i - 1].size as i64 + self.fs[i].size as i64;
                i32::MIN as i64 <= sum && sum <= i32::MAX as i64
            } else {
                true
            }
        } else if self.fs[i - 1].free && self.fs[i + 1].free {
            let first = self.fs[i - 1].size as i64 + self.fs[i + 1].size as i64;
            if !(i32::MIN as i64 <= first && first <= i32::MAX as i64) {
                return false;
            }
            let second = first + self.fs[i].size as i64;
            i32::MIN as i64 <= second && second <= i32::MAX as i64
        } else if self.fs[i - 1].free {
            let sum = self.fs[i - 1].size as i64 + self.fs[i].size as i64;
            i32::MIN as i64 <= sum && sum <= i32::MAX as i64
        } else if self.fs[i + 1].free {
            let sum = self.fs[i].size as i64 + self.fs[i + 1].size as i64;
            i32::MIN as i64 <= sum && sum <= i32::MAX as i64
        } else {
            true
        }
    }
}

} // verus!
