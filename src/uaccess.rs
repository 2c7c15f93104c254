//! Scatter-copy of kernel values into user memory.
//!
//! A user virtual range is backed by an ordered list of physical segments,
//! each contiguous in physical memory but not necessarily adjacent to the
//! next one. Physical memory is modelled as one byte vector; a segment is a
//! range of indices into it. Logical byte `i` of the range lives in the
//! segment whose running prefix of lengths contains `i`.
use vstd::prelude::*;

verus! {

/// A contiguous, writable range of physical memory backing part of a user
/// virtual range.
#[derive(Clone, Copy, Debug, PartialEq, Eq, Structural)]
pub struct Segment {
    /// Index of the first byte in physical memory.
    pub start: usize,
    /// Number of bytes.
    pub len: usize,
}

/// Total length of the first `k` segments.
pub open spec fn seg_prefix(segs: Seq<Segment>, k: int) -> int
    decreases k,
{
    if k <= 0 || segs.len() == 0 {
        0
    } else {
        seg_prefix(segs, k - 1) + segs[k - 1].len
    }
}

/// Logical byte `i` of the range lies in segment `k`.
pub open spec fn holds_byte(segs: Seq<Segment>, k: int, i: int) -> bool {
    &&& 0 <= k < segs.len()
    &&& seg_prefix(segs, k) <= i < seg_prefix(segs, k) + segs[k].len
}

/// Physical index of logical byte `i`, which lies in segment `k`.
pub open spec fn phys_of(segs: Seq<Segment>, k: int, i: int) -> int {
    segs[k].start + (i - seg_prefix(segs, k))
}

/// Physical index `j` receives one of the first `size` logical bytes.
pub open spec fn receives(segs: Seq<Segment>, size: int, j: int) -> bool {
    exists|k: int, i: int| 0 <= i < size && holds_byte(segs, k, i) && phys_of(segs, k, i) == j
}

/// Every segment lies inside a physical memory of `mem_len` bytes.
pub open spec fn segments_in_bounds(segs: Seq<Segment>, mem_len: int) -> bool {
    forall|k: int| 0 <= k < segs.len() ==> segs[k].start + segs[k].len <= mem_len
}

/// No two non-empty segments share a physical byte.
pub open spec fn segments_disjoint(segs: Seq<Segment>) -> bool {
    forall|a: int, b: int|
        0 <= a < segs.len() && 0 <= b < segs.len() && a != b ==> {
            ||| segs[a].len == 0
            ||| segs[b].len == 0
            ||| segs[a].start + segs[a].len <= segs[b].start
            ||| segs[b].start + segs[b].len <= segs[a].start
        }
}

/// The segments can receive `size` bytes: they lie in memory, do not
/// overlap, and their lengths add up to at least `size`.
pub open spec fn segments_writable(segs: Seq<Segment>, mem_len: int, size: int) -> bool {
    &&& segments_in_bounds(segs, mem_len)
    &&& segments_disjoint(segs)
    &&& seg_prefix(segs, segs.len() as int) >= size
}

/// The bytes read back from `mem` through `segs`, for the first `size`
/// logical positions.
pub open spec fn gather(mem: Seq<u8>, segs: Seq<Segment>, size: nat) -> Seq<u8> {
    Seq::new(size, |i: int| mem[phys_of(segs, choose|k: int| holds_byte(segs, k, i), i)])
}

/// Physical memory `mem` after the bytes of `data` are written through
/// `segs`: each position that receives a logical byte holds that byte, every
/// other position keeps its value.
pub open spec fn scatter(mem: Seq<u8>, segs: Seq<Segment>, data: Seq<u8>) -> Seq<u8> {
    Seq::new(
        mem.len(),
        |j: int|
            if receives(segs, data.len() as int, j) {
                data[(choose|k: int, i: int|
                    0 <= i < data.len() && holds_byte(segs, k, i) && phys_of(segs, k, i)
                        == j).1]
            } else {
                mem[j]
            },
    )
}

/// Writing a value through a list of segments that can receive it, then
/// reading the same number of bytes back through the same list, returns the
/// value byte for byte, however many segments the range is split into.
pub proof fn lemma_scatter_gather(mem: Seq<u8>, segs: Seq<Segment>, data: Seq<u8>)
    requires
        segments_writable(segs, mem.len() as int, data.len() as int),
    ensures
        gather(scatter(mem, segs, data), segs, data.len()) == data,
{
    let n = data.len() as int;
    let out = scatter(mem, segs, data);
    assert forall|i: int| 0 <= i < n implies #[trigger] gather(out, segs, data.len())[i]
        == data[i] by {
        lemma_holds_exists(segs, n, i);
        let k = choose|k: int| holds_byte(segs, k, i);
        let j = phys_of(segs, k, i);
        assert(receives(segs, n, j));
        let (k2, i2) = choose|k2: int, i2: int|
            0 <= i2 < n && holds_byte(segs, k2, i2) && phys_of(segs, k2, i2) == j;
        if k2 != k {
            assert(segs[k].len != 0 && segs[k2].len != 0);
        }
        assert(i2 == i);
    }
    assert(gather(out, segs, data.len()) =~= data);
}

proof fn lemma_prefix_monotone(segs: Seq<Segment>, a: int, b: int)
    requires
        0 <= a <= b <= segs.len(),
    ensures
        seg_prefix(segs, a) <= seg_prefix(segs, b),
    decreases b - a,
{
    if a < b {
        lemma_prefix_monotone(segs, a, b - 1);
    }
}

/// A logical byte lies in at most one segment.
proof fn lemma_holds_unique(segs: Seq<Segment>, k1: int, k2: int, i: int)
    requires
        holds_byte(segs, k1, i),
        holds_byte(segs, k2, i),
    ensures
        k1 == k2,
{
    if k1 < k2 {
        lemma_prefix_monotone(segs, k1 + 1, k2);
    } else if k2 < k1 {
        lemma_prefix_monotone(segs, k2 + 1, k1);
    }
}

/// Under full coverage, every logical byte below `size` lies in some segment.
proof fn lemma_holds_exists(segs: Seq<Segment>, size: int, i: int) -> (k: int)
    requires
        0 <= i < size <= seg_prefix(segs, segs.len() as int),
    ensures
        holds_byte(segs, k, i),
    decreases segs.len(),
{
    let n = segs.len() as int;
    if i >= seg_prefix(segs, n - 1) {
        n - 1
    } else {
        let shorter = segs.subrange(0, n - 1);
        assert forall|m: int| 0 <= m <= n - 1 implies seg_prefix(shorter, m) == seg_prefix(
            segs,
            m,
        ) by {
            lemma_prefix_agree(segs, shorter, m);
        }
        let k = lemma_holds_exists(shorter, seg_prefix(shorter, n - 1), i);
        k
    }
}

proof fn lemma_prefix_agree(segs: Seq<Segment>, shorter: Seq<Segment>, m: int)
    requires
        0 <= m <= shorter.len() < segs.len(),
        shorter == segs.subrange(0, shorter.len() as int),
    ensures
        seg_prefix(shorter, m) == seg_prefix(segs, m),
    decreases m,
{
    if m > 0 {
        lemma_prefix_agree(segs, shorter, m - 1);
    }
}

/// Checks at run time that `segs` can receive `size` bytes of `mem_len`
/// bytes of physical memory.
fn check_segments(segs: &Vec<Segment>, mem_len: usize, size: usize) -> (ok: bool)
    ensures
        ok == segments_writable(segs@, mem_len as int, size as int),
{
    let mut covered: usize = 0;
    let mut k: usize = 0;
    while k < segs.len()
        invariant
            k <= segs.len(),
            forall|m: int| 0 <= m < k ==> segs@[m].start + segs@[m].len <= mem_len,
            covered as int == if seg_prefix(segs@, k as int) < size as int {
                seg_prefix(segs@, k as int)
            } else {
                size as int
            },
        decreases segs.len() - k,
    {
        let s = segs[k];
        if s.start > mem_len || s.len > mem_len - s.start {
            return false;
        }
        if s.len >= size - covered {
            covered = size;
        } else {
            covered = covered + s.len;
        }
        k = k + 1;
    }
    if covered < size {
        return false;
    }
    let mut a: usize = 0;
    while a < segs.len()
        invariant
            a <= segs.len(),
            segments_in_bounds(segs@, mem_len as int),
            forall|x: int, y: int|
                0 <= x < a && 0 <= y < segs.len() && x != y ==> {
                    ||| segs@[x].len == 0
                    ||| segs@[y].len == 0
                    ||| segs@[x].start + segs@[x].len <= segs@[y].start
                    ||| segs@[y].start + segs@[y].len <= segs@[x].start
                },
        decreases segs.len() - a,
    {
        let mut b: usize = 0;
        while b < segs.len()
            invariant
                a < segs.len(),
                b <= segs.len(),
                segments_in_bounds(segs@, mem_len as int),
                forall|x: int, y: int|
                    0 <= x < a && 0 <= y < segs.len() && x != y ==> {
                        ||| segs@[x].len == 0
                        ||| segs@[y].len == 0
                        ||| segs@[x].start + segs@[x].len <= segs@[y].start
                        ||| segs@[y].start + segs@[y].len <= segs@[x].start
                    },
                forall|y: int|
                    0 <= y < b && y != a ==> {
                        ||| segs@[a as int].len == 0
                        ||| segs@[y].len == 0
                        ||| segs@[a as int].start + segs@[a as int].len <= segs@[y].start
                        ||| segs@[y].start + segs@[y].len <= segs@[a as int].start
                    },
            decreases segs.len() - b,
        {
            let x = segs[a];
            let y = segs[b];
            if a != b && x.len != 0 && y.len != 0 && x.start + x.len > y.start && y.start + y.len
                > x.start {
                return false;
            }
            b = b + 1;
        }
        a = a + 1;
    }
    true
}

/// Writes the bytes of `data` through `segs` into physical memory `mem`, in
/// order: logical byte `i` goes to the segment that holds it, at offset `i`
/// minus the lengths of the segments before. Before any byte is written the
/// segments are checked to lie in memory, not to overlap and to cover all of
/// `data`; if they do not, nothing is written and `false` is returned.
pub fn copy_kernel_result_to_user_space(mem: &mut Vec<u8>, segs: &Vec<Segment>, data: &Vec<u8>) -> (ok: bool)
    ensures
        ok == segments_writable(segs@, old(mem).len() as int, data.len() as int),
        ok ==> final(mem)@ == scatter(old(mem)@, segs@, data@),
        !ok ==> final(mem)@ == old(mem)@,
        final(mem).len() == old(mem).len(),
        forall|k: int, i: int|
            ok && 0 <= i < data.len() && #[trigger] holds_byte(segs@, k, i)
                ==> final(mem)@[phys_of(segs@, k, i)] == data@[i],
        forall|j: int|
            ok && 0 <= j < old(mem).len() && !#[trigger] receives(segs@, data.len() as int, j)
                ==> final(mem)@[j] == old(mem)@[j],
{
    let size = data.len();
    if !check_segments(segs, mem.len(), size) {
        return false;
    }
    let ghost s = segs@;
    let mut k: usize = 0;
    let mut consumed: usize = 0;
    let mut i: usize = 0;
    while i < size
        invariant
            size == data.len(),
            s == segs@,
            mem.len() == old(mem).len(),
            segments_writable(s, mem.len() as int, size as int),
            i <= size,
            k <= s.len(),
            consumed as int == seg_prefix(s, k as int),
            consumed <= i,
            forall|k2: int, i2: int|
                0 <= i2 < i && #[trigger] holds_byte(s, k2, i2)
                    ==> mem@[phys_of(s, k2, i2)] == data@[i2],
            forall|j: int|
                0 <= j < mem.len() && !#[trigger] receives(s, i as int, j)
                    ==> mem@[j] == old(mem)@[j],
        decreases size - i,
    {
        // Move past every segment that has no room left for byte `i`.
        loop
            invariant
                s == segs@,
                segments_writable(s, mem.len() as int, size as int),
                i < size,
                k <= s.len(),
                consumed as int == seg_prefix(s, k as int),
                consumed <= i,
            ensures
                k < s.len(),
                consumed as int == seg_prefix(s, k as int),
                consumed <= i,
                i - consumed < s[k as int].len,
            decreases s.len() - k,
        {
            if k == segs.len() {
                proof {
                    lemma_prefix_monotone(s, k as int, s.len() as int);
                }
                assert(false);
            }
            if i - consumed < segs[k].len {
                break;
            }
            consumed = consumed + segs[k].len;
            k = k + 1;
        }
        assert(holds_byte(s, k as int, i as int));
        let p = segs[k].start + (i - consumed);
        let ghost before = mem@;
        mem.set(p, data[i]);
        proof {
            assert forall|k2: int, i2: int|
                0 <= i2 < i + 1 && #[trigger] holds_byte(s, k2, i2)
                    implies mem@[phys_of(s, k2, i2)] == data@[i2] by {
                if i2 == i {
                    lemma_holds_unique(s, k2, k as int, i2);
                } else {
                    assert(before[phys_of(s, k2, i2)] == data@[i2]);
                    if k2 != k as int {
                        assert(s[k2].len != 0 && s[k as int].len != 0);
                    }
                    assert(phys_of(s, k2, i2) != p);
                }
            }
            assert forall|j: int|
                0 <= j < mem.len() && !#[trigger] receives(s, i + 1, j)
                    implies mem@[j] == old(mem)@[j] by {
                if j == p {
                    assert(0 <= i < i + 1 && holds_byte(s, k as int, i as int)
                        && phys_of(s, k as int, i as int) == j);
                    assert(receives(s, i + 1, j));
                }
                if receives(s, i as int, j) {
                    let (k3, i3) = choose|k3: int, i3: int|
                        0 <= i3 < i && holds_byte(s, k3, i3) && phys_of(s, k3, i3) == j;
                    assert(0 <= i3 < i + 1 && holds_byte(s, k3, i3) && phys_of(s, k3, i3) == j);
                }
            }
        }
        i = i + 1;
    }
    proof {
        let target = scatter(old(mem)@, s, data@);
        assert forall|j: int| 0 <= j < mem.len() implies mem@[j] == #[trigger] target[j] by {
            if receives(s, size as int, j) {
                let (k2, i2) = choose|k2: int, i2: int|
                    0 <= i2 < size && holds_byte(s, k2, i2) && phys_of(s, k2, i2) == j;
                assert(mem@[phys_of(s, k2, i2)] == data@[i2]);
            }
        }
        assert(mem@ =~= target);
    }
    true
}

} // verus!
