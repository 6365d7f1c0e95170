use vstd::prelude::*;

verus! {

/// What releasing the block at index `i` does to a list of blocks, given which
/// blocks are free: the block is marked free or merged with its free neighbours.
/// The first and the last block of a longer list are released only by merging
/// with their inner neighbour, and are left as they are when it is taken.
pub enum Release {
    Nothing,
    MarkFree(int),
    /// Merge the second block into the first, which becomes free.
    Merge(int, int),
    /// Add the second and the third block to the first, then remove the second
    /// and, from what is left, the third.
    MergeTwo(int, int, int),
}

/// The release of block `i` among blocks whose free flags are `free`.
pub open spec fn release_plan(free: Seq<bool>, i: int) -> Release {
    let len = free.len() as int;
    if len == 1 {
        Release::MarkFree(i)
    } else if i == 0 {
        if free[1] {
            Release::Merge(0, 1)
        } else {
            Release::Nothing
        }
    } else if i == len - 1 {
        if free[i - 1] {
            Release::Merge(i - 1, i)
        } else {
            Release::Nothing
        }
    } else if free[i - 1] && free[i + 1] {
        Release::MergeTwo(i - 1, i + 1, i)
    } else if free[i - 1] {
        Release::Merge(i - 1, i)
    } else if free[i + 1] {
        Release::Merge(i, i + 1)
    } else {
        Release::MarkFree(i)
    }
}

/// A block seen as a span of a storage area: (free, start, length).
pub type Seg = (bool, int, int);

/// The length of a block, or 0 when `only_free` is set and the block is taken.
pub open spec fn weight(s: Seg, only_free: bool) -> int {
    if !only_free || s.0 {
        s.2
    } else {
        0
    }
}

/// The sum of the lengths of the blocks (of the free blocks only, when `only_free`).
pub open spec fn total(s: Seq<Seg>, only_free: bool) -> int
    decreases s.len(),
{
    if s.len() == 0 {
        0
    } else {
        total(s.drop_last(), only_free) + weight(s.last(), only_free)
    }
}

/// Each block starts where the block before it ends.
pub open spec fn contiguous(s: Seq<Seg>) -> bool {
    forall|i: int| 0 <= i < s.len() - 1 ==> #[trigger] s[i].1 + s[i].2 == s[i + 1].1
}

/// No two neighbouring blocks are both free.
pub open spec fn no_adjacent_free(s: Seq<Seg>) -> bool {
    forall|i: int| 0 <= i < s.len() - 1 ==> !(#[trigger] s[i].0 && s[i + 1].0)
}

/// The free flags of the blocks.
pub open spec fn free_flags(s: Seq<Seg>) -> Seq<bool> {
    s.map_values(|x: Seg| x.0)
}

/// Block `a` takes the length of block `b` and becomes free; `b` is removed.
pub open spec fn seg_merge(s: Seq<Seg>, a: int, b: int) -> Seq<Seg> {
    s.update(a, (true, s[a].1, s[a].2 + s[b].2)).remove(b)
}

/// Block `a` takes the lengths of blocks `b` and `c`; `b`, then `c`, are removed.
pub open spec fn seg_merge_two(s: Seq<Seg>, a: int, b: int, c: int) -> Seq<Seg> {
    s.update(a, (s[a].0, s[a].1, s[a].2 + s[b].2 + s[c].2)).remove(b).remove(c)
}

/// A release applied to blocks.
pub open spec fn seg_release(s: Seq<Seg>, plan: Release) -> Seq<Seg> {
    match plan {
        Release::Nothing => s,
        Release::MarkFree(i) => s.update(i, (true, s[i].1, s[i].2)),
        Release::Merge(a, b) => seg_merge(s, a, b),
        Release::MergeTwo(a, b, c) => seg_merge_two(s, a, b, c),
    }
}

/// Block `i` split in two at `size`: a new block of that length, with the given
/// free flag, then the rest of block `i`.
pub open spec fn seg_split(s: Seq<Seg>, i: int, size: int, free: bool) -> Seq<Seg> {
    if s[i].2 == size {
        s.update(i, (free, s[i].1, size))
    } else {
        s.update(i, (s[i].0, s[i].1 + size, s[i].2 - size)).insert(i, (free, s[i].1, size))
    }
}

pub proof fn lemma_total_concat(a: Seq<Seg>, b: Seq<Seg>, only_free: bool)
    ensures
        total(a + b, only_free) == total(a, only_free) + total(b, only_free),
    decreases b.len(),
{
    if b.len() > 0 {
        lemma_total_concat(a, b.drop_last(), only_free);
        assert((a + b).drop_last() =~= a + b.drop_last());
    } else {
        assert(a + b =~= a);
    }
}

pub proof fn lemma_total_single(x: Seg, only_free: bool)
    ensures
        total(seq![x], only_free) == weight(x, only_free),
{
    assert(seq![x].drop_last() =~= Seq::<Seg>::empty());
    assert(seq![x].last() == x);
    assert(total(Seq::<Seg>::empty(), only_free) == 0);
}

/// The total of a list of blocks, cut around index `k`.
pub proof fn lemma_total_split(s: Seq<Seg>, k: int, only_free: bool)
    requires
        0 <= k < s.len(),
    ensures
        total(s, only_free) == total(s.take(k), only_free) + weight(s[k], only_free) + total(
            s.skip(k + 1),
            only_free,
        ),
{
    assert(s =~= s.take(k) + seq![s[k]] + s.skip(k + 1));
    lemma_total_concat(s.take(k) + seq![s[k]], s.skip(k + 1), only_free);
    lemma_total_concat(s.take(k), seq![s[k]], only_free);
    lemma_total_single(s[k], only_free);
}

pub proof fn lemma_total_update(s: Seq<Seg>, k: int, x: Seg, only_free: bool)
    requires
        0 <= k < s.len(),
    ensures
        total(s.update(k, x), only_free) == total(s, only_free) - weight(s[k], only_free)
            + weight(x, only_free),
{
    let t = s.update(k, x);
    lemma_total_split(s, k, only_free);
    lemma_total_split(t, k, only_free);
    assert(t.take(k) =~= s.take(k));
    assert(t.skip(k + 1) =~= s.skip(k + 1));
}

pub proof fn lemma_total_remove(s: Seq<Seg>, k: int, only_free: bool)
    requires
        0 <= k < s.len(),
    ensures
        total(s.remove(k), only_free) == total(s, only_free) - weight(s[k], only_free),
{
    lemma_total_split(s, k, only_free);
    assert(s.remove(k) =~= s.take(k) + s.skip(k + 1));
    lemma_total_concat(s.take(k), s.skip(k + 1), only_free);
}

pub proof fn lemma_total_insert(s: Seq<Seg>, k: int, x: Seg, only_free: bool)
    requires
        0 <= k <= s.len(),
    ensures
        total(s.insert(k, x), only_free) == total(s, only_free) + weight(x, only_free),
{
    let t = s.insert(k, x);
    lemma_total_split(t, k, only_free);
    assert(t.take(k) =~= s.take(k));
    assert(t.skip(k + 1) =~= s.skip(k));
    assert(s =~= s.take(k) + s.skip(k));
    lemma_total_concat(s.take(k), s.skip(k), only_free);
}

/// The plan only names blocks that exist, and merges only neighbours.
pub proof fn lemma_release_plan_shape(free: Seq<bool>, i: int)
    requires
        0 <= i < free.len(),
    ensures
        match release_plan(free, i) {
            Release::Nothing => true,
            Release::MarkFree(k) => k == i,
            Release::Merge(a, b) => 0 <= a && b == a + 1 && b < free.len() && (a == i || b == i)
                && free[if a == i {
                b
            } else {
                a
            }],
            Release::MergeTwo(a, b, c) => a == i - 1 && b == i + 1 && c == i && 0 < i && i + 1
                < free.len() && free[a] && free[b],
        },
{
}

/// Releasing a block keeps the total length of the blocks.
pub proof fn lemma_release_total(s: Seq<Seg>, i: int)
    requires
        0 <= i < s.len(),
    ensures
        total(seg_release(s, release_plan(free_flags(s), i)), false) == total(s, false),
{
    let plan = release_plan(free_flags(s), i);
    lemma_release_plan_shape(free_flags(s), i);
    match plan {
        Release::Nothing => {},
        Release::MarkFree(k) => {
            lemma_total_update(s, k, (true, s[k].1, s[k].2), false);
        },
        Release::Merge(a, b) => {
            let t = s.update(a, (true, s[a].1, s[a].2 + s[b].2));
            lemma_total_update(s, a, (true, s[a].1, s[a].2 + s[b].2), false);
            lemma_total_remove(t, b, false);
        },
        Release::MergeTwo(a, b, c) => {
            let t = s.update(a, (s[a].0, s[a].1, s[a].2 + s[b].2 + s[c].2));
            lemma_total_update(s, a, (s[a].0, s[a].1, s[a].2 + s[b].2 + s[c].2), false);
            lemma_total_remove(t, b, false);
            lemma_total_remove(t.remove(b), c, false);
        },
    }
}

/// Releasing a block keeps the blocks contiguous.
pub proof fn lemma_release_contiguous(s: Seq<Seg>, i: int)
    requires
        0 <= i < s.len(),
        contiguous(s),
    ensures
        contiguous(seg_release(s, release_plan(free_flags(s), i))),
{
    let plan = release_plan(free_flags(s), i);
    lemma_release_plan_shape(free_flags(s), i);
    let r = seg_release(s, plan);
    match plan {
        Release::Nothing => {},
        Release::MarkFree(k) => {
            assert forall|j: int| 0 <= j < r.len() - 1 implies #[trigger] r[j].1 + r[j].2 == r[j
                + 1].1 by {
                assert(s[j].1 + s[j].2 == s[j + 1].1);
            }
        },
        Release::Merge(a, b) => {
            assert forall|j: int| 0 <= j < r.len() - 1 implies #[trigger] r[j].1 + r[j].2 == r[j
                + 1].1 by {
                if j < a {
                    assert(s[j].1 + s[j].2 == s[j + 1].1);
                } else if j == a {
                    assert(s[a].1 + s[a].2 == s[a + 1].1);
                    assert(s[a + 1].1 + s[a + 1].2 == s[a + 2].1);
                } else {
                    assert(s[j + 1].1 + s[j + 1].2 == s[j + 2].1);
                }
            }
        },
        Release::MergeTwo(a, b, c) => {
            assert forall|j: int| 0 <= j < r.len() - 1 implies #[trigger] r[j].1 + r[j].2 == r[j
                + 1].1 by {
                if j < a {
                    assert(s[j].1 + s[j].2 == s[j + 1].1);
                } else if j == a {
                    assert(s[a].1 + s[a].2 == s[a + 1].1);
                    assert(s[a + 1].1 + s[a + 1].2 == s[a + 2].1);
                    assert(s[a + 2].1 + s[a + 2].2 == s[a + 3].1);
                } else {
                    assert(s[j + 2].1 + s[j + 2].2 == s[j + 3].1);
                }
            }
        },
    }
}

/// Releasing a block keeps free blocks apart.
pub proof fn lemma_release_no_adjacent_free(s: Seq<Seg>, i: int)
    requires
        0 <= i < s.len(),
        no_adjacent_free(s),
    ensures
        no_adjacent_free(seg_release(s, release_plan(free_flags(s), i))),
{
    let plan = release_plan(free_flags(s), i);
    lemma_release_plan_shape(free_flags(s), i);
    let r = seg_release(s, plan);
    match plan {
        Release::Nothing => {},
        Release::MarkFree(k) => {
            assert forall|j: int| 0 <= j < r.len() - 1 implies !(#[trigger] r[j].0 && r[j
                + 1].0) by {
                assert(!(s[j].0 && s[j + 1].0));
                if j + 1 == k {
                    assert(!free_flags(s)[j]);
                } else if j == k {
                    assert(!free_flags(s)[j + 1]);
                }
            }
        },
        Release::Merge(a, b) => {
            assert forall|j: int| 0 <= j < r.len() - 1 implies !(#[trigger] r[j].0 && r[j
                + 1].0) by {
                if j < a - 1 {
                    assert(!(s[j].0 && s[j + 1].0));
                } else if j == a - 1 {
                    if a == i {
                        assert(!free_flags(s)[a - 1]);
                    } else {
                        assert(!(s[a - 1].0 && s[a].0));
                    }
                } else if j == a {
                    if a == i {
                        assert(!(s[b].0 && s[b + 1].0));
                    } else {
                        assert(b == i);
                        assert(!free_flags(s)[b + 1]);
                    }
                } else {
                    assert(!(s[j + 1].0 && s[j + 2].0));
                }
            }
        },
        Release::MergeTwo(a, b, c) => {
            assert forall|j: int| 0 <= j < r.len() - 1 implies !(#[trigger] r[j].0 && r[j
                + 1].0) by {
                if j < a - 1 {
                    assert(!(s[j].0 && s[j + 1].0));
                } else if j == a - 1 {
                    assert(!(s[a - 1].0 && s[a].0));
                } else if j == a {
                    assert(!(s[b].0 && s[b + 1].0));
                } else {
                    assert(!(s[j + 2].0 && s[j + 3].0));
                }
            }
        },
    }
}

/// Releasing a taken block frees its length, unless the plan leaves it as it is;
/// releasing a block that is already free changes nothing in the free total.
pub proof fn lemma_release_free_total(s: Seq<Seg>, i: int)
    requires
        0 <= i < s.len(),
        no_adjacent_free(s),
    ensures
        total(seg_release(s, release_plan(free_flags(s), i)), true) == total(s, true) + (if !(
        release_plan(free_flags(s), i) is Nothing) && !s[i].0 {
            s[i].2
        } else {
            0
        }),
{
    let plan = release_plan(free_flags(s), i);
    lemma_release_plan_shape(free_flags(s), i);
    match plan {
        Release::Nothing => {},
        Release::MarkFree(k) => {
            lemma_total_update(s, k, (true, s[k].1, s[k].2), true);
        },
        Release::Merge(a, b) => {
            let x = (true, s[a].1, s[a].2 + s[b].2);
            let t = s.update(a, x);
            lemma_total_update(s, a, x, true);
            lemma_total_remove(t, b, true);
            assert(!(s[a].0 && s[b].0));
        },
        Release::MergeTwo(a, b, c) => {
            let x = (s[a].0, s[a].1, s[a].2 + s[b].2 + s[c].2);
            let t = s.update(a, x);
            lemma_total_update(s, a, x, true);
            lemma_total_remove(t, b, true);
            lemma_total_remove(t.remove(b), c, true);
            assert(!(s[a].0 && s[c].0));
        },
    }
}

/// Splitting a block keeps the total length and the contiguity of the blocks,
/// and takes `size` off the free total when the split block was free and the
/// new block is not.
pub proof fn lemma_split(s: Seq<Seg>, i: int, size: int, free: bool)
    requires
        0 <= i < s.len(),
    ensures
        total(seg_split(s, i, size, free), false) == total(s, false),
        contiguous(s) ==> contiguous(seg_split(s, i, size, free)),
        s[i].0 && !free ==> total(seg_split(s, i, size, free), true) == total(s, true) - size,
{
    let r = seg_split(s, i, size, free);
    if s[i].2 == size {
        lemma_total_update(s, i, (free, s[i].1, size), false);
        lemma_total_update(s, i, (free, s[i].1, size), true);
        if contiguous(s) {
            assert forall|j: int| 0 <= j < r.len() - 1 implies #[trigger] r[j].1 + r[j].2 == r[j
                + 1].1 by {
                assert(s[j].1 + s[j].2 == s[j + 1].1);
            }
        }
    } else {
        let y = (s[i].0, s[i].1 + size, s[i].2 - size);
        let t = s.update(i, y);
        lemma_total_update(s, i, y, false);
        lemma_total_update(s, i, y, true);
        lemma_total_insert(t, i, (free, s[i].1, size), false);
        lemma_total_insert(t, i, (free, s[i].1, size), true);
        if contiguous(s) {
            assert forall|j: int| 0 <= j < r.len() - 1 implies #[trigger] r[j].1 + r[j].2 == r[j
                + 1].1 by {
                if j < i {
                    assert(s[j].1 + s[j].2 == s[j + 1].1);
                } else if j == i + 1 {
                    assert(s[i].1 + s[i].2 == s[i + 1].1);
                } else if j > i + 1 {
                    assert(s[j - 1].1 + s[j - 1].2 == s[j].1);
                }
            }
        }
    }
}

/// Splitting a block into a taken block and the rest keeps free blocks apart.
pub proof fn lemma_split_no_adjacent_free(s: Seq<Seg>, i: int, size: int)
    requires
        0 <= i < s.len(),
        no_adjacent_free(s),
    ensures
        no_adjacent_free(seg_split(s, i, size, false)),
{
    let r = seg_split(s, i, size, false);
    assert forall|j: int| 0 <= j < r.len() - 1 implies !(#[trigger] r[j].0 && r[j + 1].0) by {
        if s[i].2 == size {
            assert(!(s[j].0 && s[j + 1].0));
        } else {
            if j < i {
                assert(!(s[j].0 && s[j + 1].0));
            } else if j == i + 1 {
                assert(!(s[i].0 && s[i + 1].0));
            } else if j > i + 1 {
                assert(!(s[j - 1].0 && s[j].0));
            }
        }
    }
}

/// An exact split of block `i` into a taken block whose release leaves it as it
/// is: `i` is the first or the last of several blocks and its inner neighbour is
/// taken.
pub open spec fn release_stuck(s: Seq<Seg>, i: int, size: int) -> bool {
    &&& s[i].2 == size
    &&& s.len() > 1
    &&& ((i == 0 && !s[1].0) || (i == s.len() - 1 && !s[i - 1].0))
}

/// Splitting a free block and then releasing the new block gives back the blocks
/// as they were, unless the new block is taken and its release is stuck.
pub proof fn lemma_split_then_release(s: Seq<Seg>, i: int, size: int, free: bool)
    requires
        0 <= i < s.len(),
        s[i].0,
        no_adjacent_free(s),
        !free ==> !release_stuck(s, i, size),
    ensures
        seg_release(
            seg_split(s, i, size, free),
            release_plan(free_flags(seg_split(s, i, size, free)), i),
        ) =~= s,
{
    let t = seg_split(s, i, size, free);
    let plan = release_plan(free_flags(t), i);
    lemma_release_plan_shape(free_flags(t), i);
    if i > 0 {
        assert(!(s[i - 1].0 && s[i].0));
    }
    if i < s.len() - 1 {
        assert(!(s[i].0 && s[i + 1].0));
    }
    assert(free_flags(t)[i] == t[i].0);
    if i > 0 {
        assert(free_flags(t)[i - 1] == t[i - 1].0);
    }
    if i < t.len() - 1 {
        assert(free_flags(t)[i + 1] == t[i + 1].0);
    }
    let r = seg_release(t, plan);
    assert(r.len() == s.len());
    assert forall|j: int| 0 <= j < s.len() implies r[j] == s[j] by {}
}

/// Every block has a positive length.
pub open spec fn positive(s: Seq<Seg>) -> bool {
    forall|i: int| 0 <= i < s.len() ==> #[trigger] s[i].2 > 0
}

/// Every block lies within `0 ..= i32::MAX`.
pub open spec fn in_range(s: Seq<Seg>) -> bool {
    forall|i: int|
        0 <= i < s.len() ==> 0 <= #[trigger] s[i].1 && 0 <= s[i].2 && s[i].1 + s[i].2 <= i32::MAX
}

/// `t` still has a first block, and it starts where the first block of `s` did.
pub open spec fn keeps_first_start(s: Seq<Seg>, t: Seq<Seg>) -> bool {
    s.len() > 0 ==> t.len() > 0 && t[0].1 == s[0].1
}

/// The sums of lengths that a release computes lie within `0 ..= i32::MAX`.
pub open spec fn release_sums_in_range(s: Seq<Seg>, plan: Release) -> bool {
    match plan {
        Release::Merge(a, b) => 0 <= s[a].2 + s[b].2 <= i32::MAX,
        Release::MergeTwo(a, b, c) => 0 <= s[a].2 + s[b].2 <= i32::MAX && 0 <= s[a].2 + s[b].2
            + s[c].2 <= i32::MAX,
        _ => true,
    }
}

/// Releasing a block keeps lengths positive and the first start, keeps blocks
/// within `0 ..= i32::MAX` when they tile, and then computes only sums within
/// that range.
pub proof fn lemma_release_bounds(s: Seq<Seg>, i: int)
    requires
        0 <= i < s.len(),
    ensures
        positive(s) ==> positive(seg_release(s, release_plan(free_flags(s), i))),
        keeps_first_start(s, seg_release(s, release_plan(free_flags(s), i))),
        contiguous(s) && in_range(s) ==> in_range(seg_release(s, release_plan(free_flags(s), i))),
        contiguous(s) && in_range(s) ==> release_sums_in_range(s, release_plan(free_flags(s), i)),
{
    let plan = release_plan(free_flags(s), i);
    lemma_release_plan_shape(free_flags(s), i);
    let r = seg_release(s, plan);
    match plan {
        Release::Nothing => {},
        Release::MarkFree(k) => {
            if positive(s) {
                assert forall|j: int| 0 <= j < r.len() implies #[trigger] r[j].2 > 0 by {
                    assert(s[j].2 > 0);
                }
            }
            if in_range(s) {
                assert forall|j: int| 0 <= j < r.len() implies 0 <= #[trigger] r[j].1 && 0 <= r[j].2
                    && r[j].1 + r[j].2 <= i32::MAX by {
                    assert(0 <= s[j].1 && 0 <= s[j].2 && s[j].1 + s[j].2 <= i32::MAX);
                }
            }
        },
        Release::Merge(a, b) => {
            if positive(s) {
                assert forall|j: int| 0 <= j < r.len() implies #[trigger] r[j].2 > 0 by {
                    if j < b {
                        assert(s[j].2 > 0);
                        assert(s[b].2 > 0);
                    } else {
                        assert(s[j + 1].2 > 0);
                    }
                }
            }
            if contiguous(s) && in_range(s) {
                assert(s[a].1 + s[a].2 == s[b].1);
                assert(0 <= s[a].1 && 0 <= s[a].2 && s[a].1 + s[a].2 <= i32::MAX);
                assert(0 <= s[b].1 && 0 <= s[b].2 && s[b].1 + s[b].2 <= i32::MAX);
                assert forall|j: int| 0 <= j < r.len() implies 0 <= #[trigger] r[j].1 && 0 <= r[j].2
                    && r[j].1 + r[j].2 <= i32::MAX by {
                    if j < a {
                        assert(0 <= s[j].1 && 0 <= s[j].2 && s[j].1 + s[j].2 <= i32::MAX);
                    } else if j > a {
                        assert(0 <= s[j + 1].1 && 0 <= s[j + 1].2 && s[j + 1].1 + s[j + 1].2
                            <= i32::MAX);
                    }
                }
            }
        },
        Release::MergeTwo(a, b, c) => {
            if positive(s) {
                assert forall|j: int| 0 <= j < r.len() implies #[trigger] r[j].2 > 0 by {
                    if j < c {
                        assert(s[j].2 > 0);
                        assert(s[b].2 > 0);
                        assert(s[c].2 > 0);
                    } else {
                        assert(s[j + 2].2 > 0);
                    }
                }
            }
            if contiguous(s) && in_range(s) {
                assert(s[a].1 + s[a].2 == s[c].1);
                assert(s[c].1 + s[c].2 == s[b].1);
                assert(0 <= s[a].1 && 0 <= s[a].2 && s[a].1 + s[a].2 <= i32::MAX);
                assert(0 <= s[c].1 && 0 <= s[c].2 && s[c].1 + s[c].2 <= i32::MAX);
                assert(0 <= s[b].1 && 0 <= s[b].2 && s[b].1 + s[b].2 <= i32::MAX);
                assert forall|j: int| 0 <= j < r.len() implies 0 <= #[trigger] r[j].1 && 0 <= r[j].2
                    && r[j].1 + r[j].2 <= i32::MAX by {
                    if j < a {
                        assert(0 <= s[j].1 && 0 <= s[j].2 && s[j].1 + s[j].2 <= i32::MAX);
                    } else if j > a {
                        assert(0 <= s[j + 2].1 && 0 <= s[j + 2].2 && s[j + 2].1 + s[j + 2].2
                            <= i32::MAX);
                    }
                }
            }
        },
    }
}

/// Splitting a block at a size no greater than its length keeps blocks within
/// `0 ..= i32::MAX` and the first start, and keeps lengths positive when the
/// size is positive.
pub proof fn lemma_split_bounds(s: Seq<Seg>, i: int, size: int, free: bool)
    requires
        0 <= i < s.len(),
        0 <= size <= s[i].2,
    ensures
        in_range(s) ==> in_range(seg_split(s, i, size, free)),
        positive(s) && size > 0 ==> positive(seg_split(s, i, size, free)),
        keeps_first_start(s, seg_split(s, i, size, free)),
{
    let r = seg_split(s, i, size, free);
    if in_range(s) {
        assert(0 <= s[i].1 && 0 <= s[i].2 && s[i].1 + s[i].2 <= i32::MAX);
        assert forall|j: int| 0 <= j < r.len() implies 0 <= #[trigger] r[j].1 && 0 <= r[j].2
            && r[j].1 + r[j].2 <= i32::MAX by {
            if s[i].2 == size || j < i {
                assert(0 <= s[j].1 && 0 <= s[j].2 && s[j].1 + s[j].2 <= i32::MAX);
            } else if j > i + 1 {
                assert(0 <= s[j - 1].1 && 0 <= s[j - 1].2 && s[j - 1].1 + s[j - 1].2 <= i32::MAX);
            }
        }
    }
    if positive(s) && size > 0 {
        assert forall|j: int| 0 <= j < r.len() implies #[trigger] r[j].2 > 0 by {
            if s[i].2 == size || j < i {
                assert(s[j].2 > 0);
            } else if j > i + 1 {
                assert(s[j - 1].2 > 0);
            }
        }
    }
}

} // verus!
