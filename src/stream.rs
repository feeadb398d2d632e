use vstd::prelude::*;

use crate::error::Error;
use crate::region::{write_at, write_regions, Region};

verus! {

/// One step of re-emitting an image with some of its regions replaced. The
/// source is read front to back and never rewound; the destination is only
/// appended to.
#[derive(Debug, Clone, Copy, PartialEq, Eq)]
pub enum StreamStep {
    /// Copy this many bytes from the source to the destination.
    Copy(u64),
    /// Write the contents of the region with this index to the destination.
    Emit(usize),
    /// Advance the source by this many bytes without copying them.
    Skip(u64),
}

/// The regions that replace parts of an image, and the steps that re-emit
/// the image with them; `StreamStep::Emit` indexes `regions`.
#[derive(Debug)]
pub struct StreamPlan {
    pub regions: Vec<Region>,
    pub steps: Vec<StreamStep>,
}

impl StreamPlan {
    /// Plans the re-emission of an image with `regions` written over it (see
    /// `plan_stream`).
    pub fn new(regions: Vec<Region>) -> (r: Result<StreamPlan, Error>)
        ensures
            r is Ok <==> all_valid(regions@) && ends_fit(regions@) && all_disjoint(regions@),
            r matches Err(e) ==> (e is RegionLength <==> !all_valid(regions@)),
            r matches Err(e) ==> (e is RegionEnd <==> all_valid(regions@) && !ends_fit(regions@)),
            r matches Err(e) ==> (e is RegionLength || e is RegionEnd || e is RegionOrder),
            r matches Ok(p) ==> p.regions@ == regions@ && forall|src: Seq<u8>|
                all_inside(regions@, src.len() as int) ==> #[trigger] stream_output(
                    p.steps@,
                    regions@,
                    src,
                ) == write_regions(src, regions@),
    {
        match plan_stream(&regions) {
            Ok(steps) => Ok(StreamPlan { regions, steps }),
            Err(e) => Err(e),
        }
    }
}

/// Bytes emitted and source position after running `steps` over `src`.
pub open spec fn run_steps(steps: Seq<StreamStep>, rs: Seq<Region>, src: Seq<u8>) -> (Seq<u8>, int)
    decreases steps.len(),
{
    if steps.len() == 0 {
        (Seq::empty(), 0)
    } else {
        let prev = run_steps(steps.drop_last(), rs, src);
        match steps.last() {
            StreamStep::Copy(n) => (prev.0 + src.subrange(prev.1, prev.1 + n), prev.1 + n),
            StreamStep::Emit(i) => (prev.0 + rs[i as int].contents@, prev.1),
            StreamStep::Skip(n) => (prev.0, prev.1 + n),
        }
    }
}

/// Everything written to the destination: the steps, then the rest of the
/// source copied verbatim.
pub open spec fn stream_output(steps: Seq<StreamStep>, rs: Seq<Region>, src: Seq<u8>) -> Seq<u8> {
    let r = run_steps(steps, rs, src);
    r.0 + src.subrange(r.1, src.len() as int)
}

pub open spec fn all_valid(rs: Seq<Region>) -> bool {
    forall|i: int| 0 <= i < rs.len() ==> #[trigger] rs[i].valid()
}

pub open spec fn ends_fit(rs: Seq<Region>) -> bool {
    forall|i: int| 0 <= i < rs.len() ==> #[trigger] rs[i].end() <= u64::MAX
}

/// Two regions share no byte.
pub open spec fn disjoint(a: Region, b: Region) -> bool {
    a.end() <= b.offset || b.end() <= a.offset
}

pub open spec fn all_disjoint(rs: Seq<Region>) -> bool {
    forall|i: int, j: int| 0 <= i < j < rs.len() ==> disjoint(#[trigger] rs[i], #[trigger] rs[j])
}

/// Every region ends inside an image of `len` bytes.
pub open spec fn all_inside(rs: Seq<Region>, len: int) -> bool {
    forall|i: int| 0 <= i < rs.len() ==> #[trigger] rs[i].end() <= len
}

/// The order in which regions are emitted: by offset, then by length.
pub open spec fn key_le(a: Region, b: Region) -> bool {
    a.offset < b.offset || (a.offset == b.offset && a.length <= b.length)
}

/// `ord` lists each index below `n` exactly once.
pub open spec fn is_permutation(ord: Seq<usize>, n: int) -> bool {
    &&& ord.len() == n
    &&& forall|j: int| 0 <= j < n ==> #[trigger] ord[j] < n
    &&& forall|j1: int, j2: int| 0 <= j1 < j2 < n ==> #[trigger] ord[j1] != #[trigger] ord[j2]
    &&& forall|m: usize| m < n ==> #[trigger] ord.contains(m)
}

pub open spec fn sorted_by_key(rs: Seq<Region>, ord: Seq<usize>) -> bool {
    forall|j1: int, j2: int|
        0 <= j1 < j2 < ord.len() ==> key_le(rs[#[trigger] ord[j1] as int], rs[#[trigger] ord[j2] as int])
}

/// The regions in the order `ord`, first `k` of them.
pub open spec fn reorder(rs: Seq<Region>, ord: Seq<usize>, k: int) -> Seq<Region> {
    Seq::new(k as nat, |j: int| rs[ord[j] as int])
}

/// End of the `k`-th region emitted, or 0 before the first.
pub open spec fn prev_end(rs: Seq<Region>, ord: Seq<usize>, k: int) -> int {
    if k <= 0 {
        0
    } else {
        rs[ord[k - 1] as int].end()
    }
}

/// The steps that emit the first `k` regions of the order `ord`.
pub open spec fn steps_for(rs: Seq<Region>, ord: Seq<usize>, k: int) -> Seq<StreamStep>
    decreases k,
{
    if k <= 0 {
        Seq::empty()
    } else {
        let r = rs[ord[k - 1] as int];
        steps_for(rs, ord, k - 1) + seq![
            StreamStep::Copy((r.offset - prev_end(rs, ord, k - 1)) as u64),
            StreamStep::Emit(ord[k - 1]),
            StreamStep::Skip(r.length as u64),
        ]
    }
}

/// Each region of the order starts at or after the end of the one before.
pub open spec fn chained(rs: Seq<Region>, ord: Seq<usize>, k: int) -> bool {
    forall|j: int| 0 < j < k ==> rs[#[trigger] ord[j] as int].offset >= rs[ord[j - 1] as int].end()
}

proof fn lemma_chain_disjoint(rs: Seq<Region>, ord: Seq<usize>, k: int, j1: int, j2: int)
    requires
        0 <= j1 < j2 < k <= ord.len(),
        forall|j: int| 0 <= j < k ==> #[trigger] ord[j] < rs.len(),
        all_valid(rs),
        chained(rs, ord, k),
    ensures
        rs[ord[j1] as int].end() <= rs[ord[j2] as int].offset,
    decreases j2 - j1,
{
    assert(rs[ord[j2] as int].offset >= rs[ord[j2 - 1] as int].end());
    if j1 < j2 - 1 {
        lemma_chain_disjoint(rs, ord, k, j1, j2 - 1);
        assert(rs[ord[j2 - 1] as int].valid());
    }
}

/// Running the steps of the first `k` regions leaves the source at the end of
/// the `k`-th region, having emitted the image with those regions written, up
/// to that point; past it the image is still the source.
proof fn lemma_run_steps(rs: Seq<Region>, ord: Seq<usize>, k: int, src: Seq<u8>)
    requires
        0 <= k <= ord.len(),
        forall|j: int| 0 <= j < ord.len() ==> #[trigger] ord[j] < rs.len(),
        all_valid(rs),
        all_inside(rs, src.len() as int),
        chained(rs, ord, ord.len() as int),
    ensures
        run_steps(steps_for(rs, ord, k), rs, src).1 == prev_end(rs, ord, k),
        run_steps(steps_for(rs, ord, k), rs, src).0
            == write_regions(src, reorder(rs, ord, k)).subrange(0, prev_end(rs, ord, k)),
        write_regions(src, reorder(rs, ord, k)).len() == src.len(),
        write_regions(src, reorder(rs, ord, k)).subrange(prev_end(rs, ord, k), src.len() as int)
            == src.subrange(prev_end(rs, ord, k), src.len() as int),
    decreases k,
{
    if k == 0 {
        assert(reorder(rs, ord, 0) =~= Seq::<Region>::empty());
        assert(src.subrange(0, src.len() as int) =~= src);
        assert(src.subrange(0, 0) =~= Seq::<u8>::empty());
    } else {
        lemma_run_steps(rs, ord, k - 1, src);
        let r = rs[ord[k - 1] as int];
        assert(r.valid());
        assert(r.end() <= src.len());
        let e = prev_end(rs, ord, k - 1);
        if k >= 2 {
            assert(rs[ord[k - 1] as int].offset >= rs[ord[k - 2] as int].end());
        }
        assert(r.offset >= e);
        let n = src.len() as int;
        let off = r.offset as int;
        let end = r.end();
        let s0 = steps_for(rs, ord, k - 1);
        let s = steps_for(rs, ord, k);
        let copy = StreamStep::Copy((r.offset - e) as u64);
        let emit = StreamStep::Emit(ord[k - 1]);
        let skip = StreamStep::Skip(r.length as u64);
        assert(s.drop_last() =~= s0 + seq![copy, emit]);
        assert((s0 + seq![copy, emit]).drop_last() =~= s0 + seq![copy]);
        assert((s0 + seq![copy]).drop_last() =~= s0);
        let r0 = run_steps(s0, rs, src);
        let r1 = run_steps(s0 + seq![copy], rs, src);
        assert((s0 + seq![copy]).last() == copy);
        assert(r1 == (r0.0 + src.subrange(e, off), off));
        let r2 = run_steps(s0 + seq![copy, emit], rs, src);
        assert((s0 + seq![copy, emit]).last() == emit);
        assert(r2 == (r1.0 + r.contents@, off));
        assert(s.last() == skip);
        assert(run_steps(s, rs, src) == (r2.0, end));
        let w0 = write_regions(src, reorder(rs, ord, k - 1));
        assert(reorder(rs, ord, k).drop_last() =~= reorder(rs, ord, k - 1));
        let w = write_regions(src, reorder(rs, ord, k));
        assert(w == write_at(w0, r.offset as int, r.contents@));
        // the bytes between the previous end and this region come from the source
        assert(w0.subrange(e, off) =~= src.subrange(e, off)) by {
            assert forall|x: int| 0 <= x < off - e implies w0.subrange(e, off)[x] == src.subrange(e, off)[x] by {
                assert(w0.subrange(e, n)[x] == src.subrange(e, n)[x]);
            }
        }
        assert(w.subrange(0, end) =~= w0.subrange(0, e) + src.subrange(e, off) + r.contents@);
        assert(w.subrange(end, n) =~= src.subrange(end, n)) by {
            assert forall|x: int| 0 <= x < n - end implies w.subrange(end, n)[x] == src.subrange(end, n)[x] by {
                assert(w0.subrange(e, n)[x + end - e] == src.subrange(e, n)[x + end - e]);
            }
        }
    }
}

/// What an image holds at `p` after the regions are written in turn: the
/// contents of the region that covers `p`, or the source byte.
proof fn lemma_write_regions_at(img: Seq<u8>, rs: Seq<Region>, p: int)
    requires
        0 <= p < img.len(),
        all_valid(rs),
        all_inside(rs, img.len() as int),
        all_disjoint(rs),
    ensures
        write_regions(img, rs).len() == img.len(),
        forall|i: int| 0 <= i < rs.len() && rs[i].offset <= p < rs[i].end()
            ==> write_regions(img, rs)[p] == #[trigger] rs[i].contents@[p - rs[i].offset],
        (forall|i: int| 0 <= i < rs.len() ==> !(rs[i].offset <= p < #[trigger] rs[i].end()))
            ==> write_regions(img, rs)[p] == img[p],
    decreases rs.len(),
{
    if rs.len() > 0 {
        let rest = rs.drop_last();
        assert forall|i: int, j: int| 0 <= i < j < rest.len() implies disjoint(#[trigger] rest[i], #[trigger] rest[j]) by {
            assert(rest[i] == rs[i] && rest[j] == rs[j]);
        }
        assert forall|i: int| 0 <= i < rest.len() implies #[trigger] rest[i].valid() && rest[i].end() <= img.len() by {
            assert(rest[i] == rs[i]);
        }
        lemma_write_regions_at(img, rest, p);
        let last = rs.last();
        assert(last == rs[rs.len() - 1]);
        assert(last.valid() && last.end() <= img.len());
        assert forall|i: int| 0 <= i < rs.len() && rs[i].offset <= p < rs[i].end()
            implies write_regions(img, rs)[p] == #[trigger] rs[i].contents@[p - rs[i].offset] by {
            if i < rs.len() - 1 {
                assert(disjoint(rs[i], rs[rs.len() - 1]));
                assert(rest[i] == rs[i]);
            }
        }
        assert((forall|i: int| 0 <= i < rs.len() ==> !(rs[i].offset <= p < #[trigger] rs[i].end()))
            ==> write_regions(img, rs)[p] == img[p]) by {
            if forall|i: int| 0 <= i < rs.len() ==> !(rs[i].offset <= p < #[trigger] rs[i].end()) {
                assert(!(rs[rs.len() - 1].offset <= p < rs[rs.len() - 1].end()));
                assert forall|i: int| 0 <= i < rest.len() implies !(rest[i].offset <= p < #[trigger] rest[i].end()) by {
                    assert(rest[i] == rs[i]);
                }
            }
        }
    }
}

proof fn lemma_write_regions_len(img: Seq<u8>, rs: Seq<Region>)
    requires
        all_valid(rs),
        all_inside(rs, img.len() as int),
    ensures
        write_regions(img, rs).len() == img.len(),
    decreases rs.len(),
{
    if rs.len() > 0 {
        let rest = rs.drop_last();
        assert forall|i: int| 0 <= i < rest.len() implies #[trigger] rest[i].valid()
            && rest[i].end() <= img.len() by {
            assert(rest[i] == rs[i]);
        }
        lemma_write_regions_len(img, rest);
        assert(rs[rs.len() - 1].valid() && rs[rs.len() - 1].end() <= img.len());
    }
}

proof fn lemma_reorder_at(rs: Seq<Region>, ord: Seq<usize>, src: Seq<u8>, p: int)
    requires
        0 <= p < src.len(),
        rs.len() <= usize::MAX,
        is_permutation(ord, rs.len() as int),
        all_valid(rs),
        all_inside(rs, src.len() as int),
        all_disjoint(rs),
        all_valid(reorder(rs, ord, rs.len() as int)),
        all_inside(reorder(rs, ord, rs.len() as int), src.len() as int),
        all_disjoint(reorder(rs, ord, rs.len() as int)),
    ensures
        write_regions(src, reorder(rs, ord, rs.len() as int))[p] == write_regions(src, rs)[p],
{
    let n = rs.len() as int;
    let sr = reorder(rs, ord, n);
    let a = write_regions(src, sr);
    lemma_write_regions_at(src, sr, p);
    lemma_write_regions_at(src, rs, p);
    if exists|i: int| 0 <= i < n && rs[i].offset <= p < #[trigger] rs[i].end() {
        let i = choose|i: int| 0 <= i < n && rs[i].offset <= p < #[trigger] rs[i].end();
        assert(ord.contains(i as usize));
        let j = choose|j: int| 0 <= j < n && ord[j] == i as usize;
        assert(sr[j] == rs[i]);
        assert(a[p] == sr[j].contents@[p - sr[j].offset]);
    } else {
        assert forall|j: int| 0 <= j < n implies !(sr[j].offset <= p < #[trigger] sr[j].end()) by {
            assert(sr[j] == rs[ord[j] as int]);
        }
    }
}

/// Writing the regions in the order `ord` gives the same image as writing them
/// in the order given.
proof fn lemma_reorder_same(rs: Seq<Region>, ord: Seq<usize>, src: Seq<u8>)
    requires
        rs.len() <= usize::MAX,
        is_permutation(ord, rs.len() as int),
        all_valid(rs),
        all_inside(rs, src.len() as int),
        all_disjoint(rs),
        chained(rs, ord, rs.len() as int),
    ensures
        write_regions(src, reorder(rs, ord, rs.len() as int)) == write_regions(src, rs),
{
    let n = rs.len() as int;
    let sr = reorder(rs, ord, n);
    assert forall|i: int, j: int| 0 <= i < j < sr.len() implies disjoint(#[trigger] sr[i], #[trigger] sr[j]) by {
        lemma_chain_disjoint(rs, ord, n, i, j);
    }
    assert forall|j: int| 0 <= j < sr.len() implies #[trigger] sr[j].valid() && sr[j].end() <= src.len() by {
        assert(sr[j] == rs[ord[j] as int]);
    }
    let a = write_regions(src, sr);
    let b = write_regions(src, rs);
    assert forall|p: int| 0 <= p < src.len() implies a[p] == b[p] by {
        lemma_reorder_at(rs, ord, src, p);
    }
    lemma_write_regions_len(src, sr);
    lemma_write_regions_len(src, rs);
    assert(a =~= b);
}

fn key_le_exec(a: &Region, b: &Region) -> (r: bool)
    ensures
        r == key_le(*a, *b),
{
    a.offset < b.offset || (a.offset == b.offset && a.length <= b.length)
}

/// Indices of `regions` in the order in which they are emitted: by offset,
/// then by length.
fn emit_order(regions: &Vec<Region>) -> (ord: Vec<usize>)
    ensures
        is_permutation(ord@, regions@.len() as int),
        sorted_by_key(regions@, ord@),
{
    let ghost rs = regions@;
    let mut ord: Vec<usize> = Vec::new();
    let mut i: usize = 0;
    while i < regions.len()
        invariant
            rs == regions@,
            i <= rs.len(),
            is_permutation(ord@, i as int),
            sorted_by_key(rs, ord@),
        decreases rs.len() - i,
    {
        let mut pos: usize = 0;
        while pos < ord.len() && key_le_exec(&regions[ord[pos]], &regions[i])
            invariant
                rs == regions@,
                i < rs.len(),
                pos <= ord@.len(),
                is_permutation(ord@, i as int),
                forall|j: int| 0 <= j < pos ==> key_le(rs[#[trigger] ord@[j] as int], rs[i as int]),
            decreases ord@.len() - pos,
        {
            pos += 1;
        }
        let ghost old_ord = ord@;
        proof {
            if pos < old_ord.len() {
                assert forall|j: int| pos <= j < old_ord.len() implies key_le(rs[i as int], rs[#[trigger] old_ord[j] as int]) by {
                    if j > pos {
                        assert(key_le(rs[old_ord[pos as int] as int], rs[old_ord[j] as int]));
                    }
                }
            }
        }
        ord.insert(pos, i);
        proof {
            let n = ord@;
            assert(n =~= old_ord.insert(pos as int, i));
            assert forall|j: int| 0 <= j < i + 1 implies #[trigger] n[j] < i + 1 by {
                if j > pos {
                    assert(n[j] == old_ord[j - 1]);
                }
            }
            assert forall|j1: int, j2: int| 0 <= j1 < j2 < i + 1 implies #[trigger] n[j1] != #[trigger] n[j2] by {
                if j1 < pos && j2 > pos {
                    assert(n[j2] == old_ord[j2 - 1]);
                } else if j1 > pos {
                    assert(n[j1] == old_ord[j1 - 1] && n[j2] == old_ord[j2 - 1]);
                } else if j1 == pos {
                    assert(n[j2] == old_ord[j2 - 1]);
                    assert(old_ord[j2 - 1] < i);
                } else if j2 == pos {
                    assert(old_ord[j1] < i);
                }
            }
            assert forall|m: usize| m < i + 1 implies #[trigger] n.contains(m) by {
                if m == i {
                    assert(n[pos as int] == m);
                } else {
                    assert(old_ord.contains(m));
                    let j = choose|j: int| 0 <= j < old_ord.len() && old_ord[j] == m;
                    if j < pos {
                        assert(n[j] == m);
                    } else {
                        assert(n[j + 1] == m);
                    }
                }
            }
            assert forall|j1: int, j2: int| 0 <= j1 < j2 < n.len() implies key_le(rs[#[trigger] n[j1] as int], rs[#[trigger] n[j2] as int]) by {
                if j2 < pos {
                } else if j2 == pos {
                } else if j1 < pos {
                    assert(n[j2] == old_ord[j2 - 1]);
                    assert(key_le(rs[old_ord[j1] as int], rs[i as int]));
                } else if j1 == pos {
                    assert(n[j2] == old_ord[j2 - 1]);
                } else {
                    assert(n[j1] == old_ord[j1 - 1] && n[j2] == old_ord[j2 - 1]);
                }
            }
        }
        i += 1;
    }
    ord
}

/// Plans the re-emission of an image with each region's byte range replaced
/// by the region's contents. Regions may come in any order; they are emitted
/// by offset. The plan is refused, before anything is emitted, when a region's
/// contents do not match its length, when its end does not fit in 64 bits, or
/// when two regions overlap. Run over any source that holds every region, the
/// plan emits exactly the source with the regions written over it.
pub fn plan_stream(regions: &Vec<Region>) -> (r: Result<Vec<StreamStep>, Error>)
    ensures
        r is Ok <==> all_valid(regions@) && ends_fit(regions@) && all_disjoint(regions@),
        r matches Err(e) ==> (e is RegionLength <==> !all_valid(regions@)),
        r matches Err(e) ==> (e is RegionEnd <==> all_valid(regions@) && !ends_fit(regions@)),
        r matches Err(e) ==> (e is RegionLength || e is RegionEnd || e is RegionOrder),
        r matches Ok(steps) ==> forall|src: Seq<u8>| all_inside(regions@, src.len() as int)
            ==> #[trigger] stream_output(steps@, regions@, src) == write_regions(src, regions@),
{
    let ghost rs = regions@;
    let mut i: usize = 0;
    while i < regions.len()
        invariant
            rs == regions@,
            i <= rs.len(),
            forall|j: int| 0 <= j < i ==> #[trigger] rs[j].valid(),
        decreases rs.len() - i,
    {
        match regions[i].validate() {
            Ok(()) => {},
            Err(e) => {
                return Err(e);
            },
        }
        i += 1;
    }
    let mut i: usize = 0;
    while i < regions.len()
        invariant
            rs == regions@,
            i <= rs.len(),
            all_valid(rs),
            forall|j: int| 0 <= j < i ==> #[trigger] rs[j].end() <= u64::MAX,
        decreases rs.len() - i,
    {
        if regions[i].length as u64 > u64::MAX - regions[i].offset {
            assert(rs[i as int].end() > u64::MAX);
            return Err(Error::RegionEnd { offset: regions[i].offset, length: regions[i].length as u64 });
        }
        i += 1;
    }
    let ord = emit_order(regions);
    let mut steps: Vec<StreamStep> = Vec::new();
    let mut cursor: u64 = 0;
    let mut k: usize = 0;
    while k < ord.len()
        invariant
            rs == regions@,
            all_valid(rs),
            ends_fit(rs),
            is_permutation(ord@, rs.len() as int),
            sorted_by_key(rs, ord@),
            k <= ord@.len(),
            steps@ == steps_for(rs, ord@, k as int),
            cursor == prev_end(rs, ord@, k as int),
            chained(rs, ord@, k as int),
        decreases ord@.len() - k,
    {
        let idx = ord[k];
        let r = &regions[idx];
        assert(rs[idx as int].end() <= u64::MAX);
        if r.offset < cursor {
            proof {
                let p = ord@[k - 1] as int;
                let c = idx as int;
                assert(key_le(rs[p], rs[c]));
                assert(rs[p].valid() && rs[c].valid());
                assert(!disjoint(rs[p], rs[c]));
                if p > c {
                    assert(!disjoint(rs[c], rs[p]));
                }
            }
            return Err(Error::RegionOrder { offset: r.offset, cursor });
        }
        steps.push(StreamStep::Copy(r.offset - cursor));
        steps.push(StreamStep::Emit(idx));
        steps.push(StreamStep::Skip(r.length as u64));
        cursor = r.offset + r.length as u64;
        k += 1;
        proof {
            assert(steps@ =~= steps_for(rs, ord@, k as int));
        }
    }
    proof {
        let n = rs.len() as int;
        assert forall|i: int, j: int| 0 <= i < j < n implies disjoint(#[trigger] rs[i], #[trigger] rs[j]) by {
            assert(ord@.contains(i as usize));
            assert(ord@.contains(j as usize));
            let ji = choose|x: int| 0 <= x < n && ord@[x] == i as usize;
            let jj = choose|x: int| 0 <= x < n && ord@[x] == j as usize;
            if ji < jj {
                lemma_chain_disjoint(rs, ord@, n, ji, jj);
            } else {
                lemma_chain_disjoint(rs, ord@, n, jj, ji);
            }
        }
        assert forall|src: Seq<u8>| all_inside(rs, src.len() as int) implies
            #[trigger] stream_output(steps@, rs, src) == write_regions(src, rs) by {
            lemma_run_steps(rs, ord@, n, src);
            lemma_reorder_same(rs, ord@, src);
            let e = prev_end(rs, ord@, n);
            let w = write_regions(src, reorder(rs, ord@, n));
            if n > 0 {
                assert(rs[ord@[n - 1] as int].end() <= src.len());
            }
            assert(w =~= w.subrange(0, e) + w.subrange(e, src.len() as int));
        }
    }
    Ok(steps)
}

} // verus!
