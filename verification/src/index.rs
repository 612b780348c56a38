//! The binning index: maps a reference interval to a minimal ordered list
//! of virtual-position ranges to scan.
//!
//! A fixed hierarchy of six power-of-two levels covers each reference
//! sequence; an interval belongs to the one bin of the smallest level that
//! contains it whole, and a query interval touches a bounded set of bins
//! across all levels. Chunks gathered from candidate bins are merged into
//! non-overlapping ascending ranges, so the number of seeks equals the
//! merged chunk count.

use vstd::prelude::*;

use vstd::arithmetic::div_mod::lemma_div_is_ordered;

use crate::vpos::VirtualPosition;

verus! {

/// One more than the largest zero-based position the binning scheme
/// covers.
pub const MAX_POSITION: u32 = 0x2000_0000;

/// A contiguous virtual-position range known to hold every record of one
/// bin.
#[derive(Clone, Copy, Debug, PartialEq, Eq, Structural)]
pub struct Chunk {
    /// Where the range begins.
    pub start: VirtualPosition,
    /// Where the range ends (exclusive).
    pub end: VirtualPosition,
}

/// One bin: its id and the chunks recorded for it.
pub struct Bin {
    /// The bin id.
    pub id: u32,
    /// The chunks recorded for this bin.
    pub chunks: Vec<Chunk>,
}

/// Per-reference metadata: record counts and the virtual-position range
/// of the reference's records, kept in a reserved pseudo-bin.
#[derive(Clone, Copy, Debug)]
pub struct Metadata {
    /// Records placed on the reference.
    pub mapped_count: u64,
    /// Unplaced records associated with the reference.
    pub unmapped_count: u64,
    /// Where the reference's records begin.
    pub start: VirtualPosition,
    /// Where the reference's records end.
    pub end: VirtualPosition,
}

/// The index of one reference sequence: its bins and optional metadata.
pub struct ReferenceIndex {
    /// The bins holding recorded chunks.
    pub bins: Vec<Bin>,
    /// Optional per-reference metadata.
    pub metadata: Option<Metadata>,
}

/// A whole binning index: one entry per reference sequence, plus the
/// count of records placed on no reference at all.
pub struct BinningIndex {
    /// Per-reference indices, in reference order.
    pub references: Vec<ReferenceIndex>,
    /// Records placed on no reference.
    pub unplaced_unmapped_count: Option<u64>,
}

/// A chunk is well-formed when it is non-empty.
pub open spec fn chunk_wf(c: Chunk) -> bool {
    c.start.spec_value() < c.end.spec_value()
}

/// Whether `c` covers the virtual position value `v`.
pub open spec fn covers(c: Chunk, v: u64) -> bool {
    c.start.spec_value() <= v < c.end.spec_value()
}

/// Whether some chunk of `cs` covers `v`.
pub open spec fn covered(cs: Seq<Chunk>, v: u64) -> bool {
    exists|c: Chunk| #[trigger] cs.contains(c) && covers(c, v)
}

/// The chunks are ascending and pairwise neither overlapping nor
/// adjacent.
pub open spec fn chunks_disjoint_sorted(cs: Seq<Chunk>) -> bool {
    forall|i: int, j: int|
        0 <= i < j < cs.len() ==> #[trigger] cs[i].end.spec_value()
            < #[trigger] cs[j].start.spec_value()
}

/// Every chunk of `cs` is well-formed.
pub open spec fn chunks_wf(cs: Seq<Chunk>) -> bool {
    forall|i: int| 0 <= i < cs.len() ==> chunk_wf(#[trigger] cs[i])
}

/// The bin of the smallest level that contains `[beg, end)` whole.
pub open spec fn spec_reg2bin(beg: u32, end: u32) -> u32
    recommends
        beg < end <= MAX_POSITION,
{
    let last = (end - 1) as int;
    if beg as int / 0x4000 == last / 0x4000 {
        (4681 + beg as int / 0x4000) as u32
    } else if beg as int / 0x2_0000 == last / 0x2_0000 {
        (585 + beg as int / 0x2_0000) as u32
    } else if beg as int / 0x10_0000 == last / 0x10_0000 {
        (73 + beg as int / 0x10_0000) as u32
    } else if beg as int / 0x80_0000 == last / 0x80_0000 {
        (9 + beg as int / 0x80_0000) as u32
    } else if beg as int / 0x400_0000 == last / 0x400_0000 {
        (1 + beg as int / 0x400_0000) as u32
    } else {
        0
    }
}

/// Whether `bin` is among the bins an interval overlapping `[beg, end)`
/// can belong to: one run of bins per level.
pub open spec fn is_candidate_bin(bin: u32, beg: u32, end: u32) -> bool {
    let last = (end - 1) as int;
    ||| bin == 0
    ||| 1 + beg as int / 0x400_0000 <= bin <= 1 + last / 0x400_0000
    ||| 9 + beg as int / 0x80_0000 <= bin <= 9 + last / 0x80_0000
    ||| 73 + beg as int / 0x10_0000 <= bin <= 73 + last / 0x10_0000
    ||| 585 + beg as int / 0x2_0000 <= bin <= 585 + last / 0x2_0000
    ||| 4681 + beg as int / 0x4000 <= bin <= 4681 + last / 0x4000
}

/// If two intervals overlap, the bin of the one is a candidate bin of
/// the other: bin ranges are computed per level from monotone divisions,
/// so overlap traps the record's bin inside the query's run at the
/// record's level.
pub proof fn lemma_overlap_candidate(b1: u32, e1: u32, b2: u32, e2: u32)
    requires
        b1 < e1 <= MAX_POSITION,
        b2 < e2 <= MAX_POSITION,
        b1 < e2,
        b2 < e1,
    ensures
        is_candidate_bin(spec_reg2bin(b1, e1), b2, e2),
{
    let l1 = (e1 - 1) as int;
    let l2 = (e2 - 1) as int;
    lemma_div_is_ordered(b2 as int, l1, 0x4000);
    lemma_div_is_ordered(b1 as int, l2, 0x4000);
    lemma_div_is_ordered(b2 as int, l1, 0x2_0000);
    lemma_div_is_ordered(b1 as int, l2, 0x2_0000);
    lemma_div_is_ordered(b2 as int, l1, 0x10_0000);
    lemma_div_is_ordered(b1 as int, l2, 0x10_0000);
    lemma_div_is_ordered(b2 as int, l1, 0x80_0000);
    lemma_div_is_ordered(b1 as int, l2, 0x80_0000);
    lemma_div_is_ordered(b2 as int, l1, 0x400_0000);
    lemma_div_is_ordered(b1 as int, l2, 0x400_0000);
}

/// Computes the bin of the smallest level containing `[beg, end)`.
pub fn reg2bin(beg: u32, end: u32) -> (r: u32)
    requires
        beg < end <= MAX_POSITION,
    ensures
        r == spec_reg2bin(beg, end),
{
    let last = end - 1;
    if beg / 0x4000 == last / 0x4000 {
        4681 + beg / 0x4000
    } else if beg / 0x2_0000 == last / 0x2_0000 {
        585 + beg / 0x2_0000
    } else if beg / 0x10_0000 == last / 0x10_0000 {
        73 + beg / 0x10_0000
    } else if beg / 0x80_0000 == last / 0x80_0000 {
        9 + beg / 0x80_0000
    } else if beg / 0x400_0000 == last / 0x400_0000 {
        1 + beg / 0x400_0000
    } else {
        0
    }
}

/// After a push, a sequence contains exactly what it did plus the new
/// element.
proof fn lemma_contains_push<T>(s: Seq<T>, x: T)
    ensures
        forall|c: T| #[trigger] s.push(x).contains(c) <==> s.contains(c) || c == x,
{
    assert forall|c: T| #[trigger] s.push(x).contains(c) implies s.contains(c) || c == x by {
        let i = choose|i: int| 0 <= i < s.push(x).len() && #[trigger] s.push(x)[i] == c;
        if i < s.len() {
            assert(s[i] == c);
        }
    }
    assert forall|c: T| s.contains(c) implies s.push(x).contains(c) by {
        let i = choose|i: int| 0 <= i < s.len() && #[trigger] s[i] == c;
        assert(s.push(x)[i] == c);
    }
    assert(s.push(x)[s.len() as int] == x);
}

/// Pushing a chunk extends what a chunk list covers by what the chunk
/// covers.
proof fn lemma_covered_push(s: Seq<Chunk>, x: Chunk, v: u64)
    ensures
        covered(s.push(x), v) <==> covered(s, v) || covers(x, v),
{
    lemma_contains_push(s, x);
    if covered(s.push(x), v) {
        let c = choose|c: Chunk| #[trigger] s.push(x).contains(c) && covers(c, v);
        if c == x {
        } else {
            assert(s.contains(c));
        }
    }
    if covered(s, v) {
        let c = choose|c: Chunk| #[trigger] s.contains(c) && covers(c, v);
        assert(s.push(x).contains(c));
    }
    if covers(x, v) {
        assert(s.push(x).contains(x));
    }
}

/// Collects every bin id a query of `[beg, end)` can touch.
pub fn reg2bins(beg: u32, end: u32) -> (r: Vec<u32>)
    requires
        beg < end <= MAX_POSITION,
    ensures
        forall|b: u32| r@.contains(b) <==> is_candidate_bin(b, beg, end),
{
    let last = end - 1;
    let mut out: Vec<u32> = Vec::new();
    proof {
        lemma_contains_push(out@, 0u32);
    }
    out.push(0);
    push_bin_run(&mut out, 1, beg / 0x400_0000, last / 0x400_0000);
    push_bin_run(&mut out, 9, beg / 0x80_0000, last / 0x80_0000);
    push_bin_run(&mut out, 73, beg / 0x10_0000, last / 0x10_0000);
    push_bin_run(&mut out, 585, beg / 0x2_0000, last / 0x2_0000);
    push_bin_run(&mut out, 4681, beg / 0x4000, last / 0x4000);
    out
}

/// Appends the run of bin ids `off + lo ..= off + hi`.
fn push_bin_run(out: &mut Vec<u32>, off: u32, lo: u32, hi: u32)
    requires
        lo <= hi,
        hi < 0x8000_0000,
        off + hi < 0x1_0000_0000,
    ensures
        forall|b: u32| final(out)@.contains(b) <==> old(out)@.contains(b) || (off + lo <= b
            <= off + hi),
{
    let mut i: u32 = lo;
    while i <= hi
        invariant
            lo <= i <= hi + 1,
            hi < 0x8000_0000,
            off + hi < 0x1_0000_0000,
            forall|b: u32| out@.contains(b) <==> old(out)@.contains(b) || (off + lo <= b < off
                + i),
        decreases hi + 1 - i,
    {
        proof {
            lemma_contains_push(out@, (off + i) as u32);
        }
        out.push(off + i);
        i = i + 1;
    }
}

/// Tests whether `bin` is a candidate for a query of `[beg, end)`.
pub fn bin_is_candidate(bin: u32, beg: u32, end: u32) -> (r: bool)
    requires
        beg < end <= MAX_POSITION,
    ensures
        r == is_candidate_bin(bin, beg, end),
{
    let last = end - 1;
    bin == 0 || (1 + beg / 0x400_0000 <= bin && bin <= 1 + last / 0x400_0000) || (9 + beg
        / 0x80_0000 <= bin && bin <= 9 + last / 0x80_0000) || (73 + beg / 0x10_0000 <= bin && bin
        <= 73 + last / 0x10_0000) || (585 + beg / 0x2_0000 <= bin && bin <= 585 + last / 0x2_0000)
        || (4681 + beg / 0x4000 <= bin && bin <= 4681 + last / 0x4000)
}

/// Tests whether some chunk of `chunks` covers `v`.
pub fn covered_exec(chunks: &Vec<Chunk>, v: u64) -> (r: bool)
    ensures
        r == covered(chunks@, v),
{
    let mut i: usize = 0;
    while i < chunks.len()
        invariant
            0 <= i <= chunks@.len(),
            forall|j: int| 0 <= j < i ==> !covers(chunks@[j], v),
        decreases chunks@.len() - i,
    {
        let c = chunks[i];
        if c.start.value() <= v && v < c.end.value() {
            assert(chunks@.contains(chunks@[i as int]));
            return true;
        }
        i += 1;
    }
    proof {
        if covered(chunks@, v) {
            let c = choose|c: Chunk| chunks@.contains(c) && covers(c, v);
            let j = choose|j: int| 0 <= j < chunks@.len() && #[trigger] chunks@[j] == c;
            assert(!covers(chunks@[j], v));
        }
    }
    false
}

/// Sorts chunks by ascending start position. The result holds exactly
/// the chunks of the input.
fn sort_chunks(input: &Vec<Chunk>) -> (r: Vec<Chunk>)
    ensures
        r@.len() == input@.len(),
        forall|c: Chunk| r@.contains(c) <==> input@.contains(c),
        forall|i: int, j: int|
            0 <= i < j < r@.len() ==> #[trigger] r@[i].start.spec_value()
                <= #[trigger] r@[j].start.spec_value(),
        chunks_wf(input@) ==> chunks_wf(r@),
{
    let mut out: Vec<Chunk> = Vec::new();
    let mut i: usize = 0;
    while i < input.len()
        invariant
            0 <= i <= input@.len(),
            out@.len() == i,
            forall|c: Chunk| out@.contains(c) <==> input@.take(i as int).contains(c),
            forall|a: int, b: int|
                0 <= a < b < out@.len() ==> #[trigger] out@[a].start.spec_value()
                    <= #[trigger] out@[b].start.spec_value(),
            forall|a: int| 0 <= a < out@.len() ==> input@.contains(#[trigger] out@[a]),
        decreases input@.len() - i,
    {
        let x = input[i];
        let mut k: usize = 0;
        while k < out.len() && out[k].start.value() <= x.start.value()
            invariant
                0 <= k <= out@.len(),
                forall|a: int| 0 <= a < k ==> #[trigger] out@[a].start.spec_value()
                    <= x.start.spec_value(),
            decreases out@.len() - k,
        {
            k += 1;
        }
        let ghost out0 = out@;
        out.insert(k, x);
        i += 1;
        proof {
            assert(out@ =~= out0.take(k as int) + seq![x] + out0.skip(k as int));
            assert forall|c: Chunk| out@.contains(c) implies input@.take(i as int).contains(
                c,
            ) by {
                let j = choose|j: int| 0 <= j < out@.len() && #[trigger] out@[j] == c;
                if j == k {
                    assert(input@.take(i as int)[i - 1] == x);
                } else {
                    let j0: int = if j < k {
                        j
                    } else {
                        j - 1
                    };
                    assert(out0[j0] == c);
                    assert(out0.contains(c));
                    assert(input@.take(i - 1).contains(c));
                    let m = choose|m: int| 0 <= m < i - 1 && #[trigger] input@.take(i - 1)[m] == c;
                    assert(input@.take(i as int)[m] == c);
                }
            }
            assert forall|c: Chunk| input@.take(i as int).contains(c) implies out@.contains(
                c,
            ) by {
                let m = choose|m: int| 0 <= m < i && #[trigger] input@.take(i as int)[m] == c;
                if m == i - 1 {
                    assert(out@[k as int] == c);
                } else {
                    assert(input@.take(i - 1)[m] == c);
                    assert(input@.take(i - 1).contains(c));
                    assert(out0.contains(c));
                    let j = choose|j: int| 0 <= j < out0.len() && #[trigger] out0[j] == c;
                    if j < k {
                        assert(out@[j] == c);
                    } else {
                        assert(out@[j + 1] == c);
                    }
                }
            }
            assert forall|a: int| 0 <= a < out@.len() implies input@.contains(
                #[trigger] out@[a],
            ) by {
                if a == k {
                    assert(input@[i - 1] == x);
                } else {
                    let a0: int = if a < k {
                        a
                    } else {
                        a - 1
                    };
                    assert(out0[a0] == out@[a]);
                    let m = choose|m: int| 0 <= m < out0.len() && #[trigger] out0[m] == out@[a];
                }
            }
        }
    }
    proof {
        assert(input@.take(input@.len() as int) =~= input@);
        assert forall|c: Chunk| input@.contains(c) implies out@.contains(c) by {}
        if chunks_wf(input@) {
            assert forall|a: int| 0 <= a < out@.len() implies chunk_wf(#[trigger] out@[a]) by {
                let m = choose|m: int| 0 <= m < input@.len() && #[trigger] input@[m] == out@[a];
            }
        }
    }
    out
}

/// Merges sorted chunks: ranges that overlap or touch are coalesced, so
/// the result is ascending, pairwise disjoint and non-adjacent, and
/// covers exactly the virtual positions the input covered.
pub fn merge_chunks(input: &Vec<Chunk>) -> (r: Vec<Chunk>)
    requires
        chunks_wf(input@),
    ensures
        chunks_wf(r@),
        chunks_disjoint_sorted(r@),
        forall|v: u64| covered(r@, v) <==> covered(input@, v),
{
    let sorted = sort_chunks(input);
    let mut out: Vec<Chunk> = Vec::new();
    let mut k: usize = 0;
    while k < sorted.len()
        invariant
            0 <= k <= sorted@.len(),
            chunks_wf(sorted@),
            forall|c: Chunk| sorted@.contains(c) <==> input@.contains(c),
            forall|i: int, j: int|
                0 <= i < j < sorted@.len() ==> #[trigger] sorted@[i].start.spec_value()
                    <= #[trigger] sorted@[j].start.spec_value(),
            chunks_wf(out@),
            chunks_disjoint_sorted(out@),
            forall|v: u64| covered(out@, v) <==> covered(sorted@.take(k as int), v),
            out@.len() == 0 ==> k == 0,
            out@.len() > 0 ==> k > 0 && out@.last().start.spec_value()
                <= sorted@[k - 1].start.spec_value(),
        decreases sorted@.len() - k,
    {
        let c = sorted[k];
        let ghost outp = out@;
        if out.len() == 0 {
            out.push(c);
            proof {
                assert(sorted@.take(k + 1) =~= sorted@.take(k as int).push(sorted@[k as int]));
                assert(out@ == outp.push(c));
                assert forall|v: u64| covered(out@, v) <==> covered(
                    sorted@.take(k + 1),
                    v,
                ) by {
                    lemma_covered_push(outp, c, v);
                    lemma_covered_push(sorted@.take(k as int), c, v);
                }
            }
        } else {
            let last = out[out.len() - 1];
            if c.start.value() <= last.end.value() {
                let newend = if c.end.value() > last.end.value() {
                    c.end
                } else {
                    last.end
                };
                let merged = Chunk { start: last.start, end: newend };
                let li = out.len() - 1;
                out.set(li, merged);
                proof {
                    let t = outp.take(li as int);
                    assert(outp =~= t.push(last));
                    assert(out@ =~= t.push(merged));
                    assert(sorted@.take(k + 1) =~= sorted@.take(k as int).push(
                        sorted@[k as int],
                    ));
                    assert(chunk_wf(last) && chunk_wf(c)) by {
                        assert(outp[li as int] == last);
                        assert(sorted@[k as int] == c);
                    }
                    assert(last.start.spec_value() <= c.start.spec_value());
                    assert forall|v: u64| covered(out@, v) <==> covered(
                        sorted@.take(k + 1),
                        v,
                    ) by {
                        lemma_covered_push(t, last, v);
                        lemma_covered_push(t, merged, v);
                        lemma_covered_push(sorted@.take(k as int), c, v);
                        assert(covers(merged, v) <==> covers(last, v) || covers(c, v));
                        assert(covered(out@, v) == (covered(t, v) || covers(merged, v)));
                        assert(covered(outp, v) == (covered(t, v) || covers(last, v)));
                    }
                    assert(out@.last().start.spec_value() <= sorted@[k as int].start.spec_value());
                }
            } else {
                proof {
                    assert(sorted@.take(k + 1) =~= sorted@.take(k as int).push(
                        sorted@[k as int],
                    ));
                    assert forall|v: u64| covered(outp.push(c), v) <==> covered(
                        sorted@.take(k + 1),
                        v,
                    ) by {
                        lemma_covered_push(outp, c, v);
                        lemma_covered_push(sorted@.take(k as int), c, v);
                    }
                    assert forall|i: int, j: int|
                        0 <= i < j < outp.push(c).len() implies #[trigger] outp.push(
                        c,
                    )[i].end.spec_value() < #[trigger] outp.push(c)[j].start.spec_value() by {
                        if j == outp.len() as int {
                            assert(outp.push(c)[j] == c);
                            if i < outp.len() - 1 {
                                assert(outp[i].end.spec_value()
                                    < outp[outp.len() - 1].start.spec_value());
                                assert(chunk_wf(outp[outp.len() - 1]));
                            }
                        }
                    }
                }
                out.push(c);
            }
        }
        k += 1;
    }
    proof {
        assert(sorted@.take(sorted@.len() as int) =~= sorted@);
        assert forall|v: u64| covered(out@, v) <==> covered(input@, v) by {
            if covered(sorted@, v) {
                let c = choose|c: Chunk| sorted@.contains(c) && covers(c, v);
                assert(input@.contains(c));
            }
            if covered(input@, v) {
                let c = choose|c: Chunk| input@.contains(c) && covers(c, v);
                assert(sorted@.contains(c));
            }
        }
    }
    out
}

/// Whether the chunk list of some candidate bin of `[beg, end)` covers
/// the virtual position value `v`.
pub open spec fn region_covered(ri: &ReferenceIndex, beg: u32, end: u32, v: u64) -> bool {
    exists|bi: int, ci: int| #![trigger ri.bins@[bi].chunks@[ci]]
        0 <= bi < ri.bins@.len() && is_candidate_bin(ri.bins@[bi].id, beg, end) && 0 <= ci
            < ri.bins@[bi].chunks@.len() && covers(ri.bins@[bi].chunks@[ci], v)
}

/// Every chunk recorded anywhere in the reference index is well-formed.
pub open spec fn reference_index_wf(ri: &ReferenceIndex) -> bool {
    forall|bi: int, ci: int| #![trigger ri.bins@[bi].chunks@[ci]]
        0 <= bi < ri.bins@.len() && 0 <= ci < ri.bins@[bi].chunks@.len() ==> chunk_wf(
            ri.bins@[bi].chunks@[ci],
        )
}

/// Resolves a region to the minimal ordered chunk list to scan: gathers
/// the chunks of every candidate bin and merges them.
pub fn resolve_region(ri: &ReferenceIndex, beg: u32, end: u32) -> (r: Vec<Chunk>)
    requires
        reference_index_wf(ri),
        beg < end <= MAX_POSITION,
    ensures
        chunks_wf(r@),
        chunks_disjoint_sorted(r@),
        forall|v: u64| covered(r@, v) <==> region_covered(ri, beg, end, v),
{
    let mut gathered: Vec<Chunk> = Vec::new();
    let mut bi: usize = 0;
    while bi < ri.bins.len()
        invariant
            0 <= bi <= ri.bins@.len(),
            reference_index_wf(ri),
            beg < end <= MAX_POSITION,
            chunks_wf(gathered@),
            forall|v: u64|
                covered(gathered@, v) <==> exists|b: int, ci: int|
                    #![trigger ri.bins@[b].chunks@[ci]]
                    0 <= b < bi && is_candidate_bin(ri.bins@[b].id, beg, end) && 0 <= ci
                        < ri.bins@[b].chunks@.len() && covers(ri.bins@[b].chunks@[ci], v),
        decreases ri.bins@.len() - bi,
    {
        let b = &ri.bins[bi];
        if bin_is_candidate(b.id, beg, end) {
            let mut ci: usize = 0;
            while ci < b.chunks.len()
                invariant
                    0 <= ci <= b.chunks@.len(),
                    reference_index_wf(ri),
                    beg < end <= MAX_POSITION,
                    bi < ri.bins@.len(),
                    b == &ri.bins@[bi as int],
                    is_candidate_bin(ri.bins@[bi as int].id, beg, end),
                    chunks_wf(gathered@),
                    forall|v: u64|
                        covered(gathered@, v) <==> (exists|b2: int, c2: int|
                            #![trigger ri.bins@[b2].chunks@[c2]]
                            0 <= b2 < bi && is_candidate_bin(ri.bins@[b2].id, beg, end) && 0 <= c2
                                < ri.bins@[b2].chunks@.len() && covers(
                                ri.bins@[b2].chunks@[c2],
                                v,
                            )) || (exists|c2: int|
                            0 <= c2 < ci && covers(
                                #[trigger] ri.bins@[bi as int].chunks@[c2],
                                v,
                            )),
                decreases b.chunks@.len() - ci,
            {
                let c = b.chunks[ci];
                let ghost gp = gathered@;
                gathered.push(c);
                proof {
                    assert forall|v: u64| covered(gathered@, v) <==> (exists|b2: int, c2: int|
                        #![trigger ri.bins@[b2].chunks@[c2]]
                        0 <= b2 < bi && is_candidate_bin(ri.bins@[b2].id, beg, end) && 0 <= c2
                            < ri.bins@[b2].chunks@.len() && covers(ri.bins@[b2].chunks@[c2], v))
                        || (exists|c2: int|
                        0 <= c2 < ci + 1 && covers(
                            #[trigger] ri.bins@[bi as int].chunks@[c2],
                            v,
                        )) by {
                        lemma_covered_push(gp, c, v);
                        if covers(c, v) {
                            assert(covers(ri.bins@[bi as int].chunks@[ci as int], v));
                        }
                        if exists|c2: int|
                            0 <= c2 < ci + 1 && covers(
                                #[trigger] ri.bins@[bi as int].chunks@[c2],
                                v,
                            ) {
                            let c2 = choose|c2: int|
                                0 <= c2 < ci + 1 && covers(
                                    #[trigger] ri.bins@[bi as int].chunks@[c2],
                                    v,
                                );
                            if c2 == ci {
                                assert(covers(c, v));
                            }
                        }
                    }
                }
                ci += 1;
            }
            proof {
                assert forall|v: u64| covered(gathered@, v) <==> (exists|b2: int, c2: int|
                    #![trigger ri.bins@[b2].chunks@[c2]]
                    0 <= b2 < bi + 1 && is_candidate_bin(ri.bins@[b2].id, beg, end) && 0 <= c2
                        < ri.bins@[b2].chunks@.len() && covers(ri.bins@[b2].chunks@[c2], v)) by {
                    if covered(gathered@, v) {
                        if exists|c2: int|
                            0 <= c2 < ri.bins@[bi as int].chunks@.len() && covers(
                                #[trigger] ri.bins@[bi as int].chunks@[c2],
                                v,
                            ) {
                            let c2 = choose|c2: int|
                                0 <= c2 < ri.bins@[bi as int].chunks@.len() && covers(
                                    #[trigger] ri.bins@[bi as int].chunks@[c2],
                                    v,
                                );
                            assert(covers(ri.bins@[bi as int].chunks@[c2], v));
                        }
                    }
                    if exists|b2: int, c2: int|
                        #![trigger ri.bins@[b2].chunks@[c2]]
                        0 <= b2 < bi + 1 && is_candidate_bin(ri.bins@[b2].id, beg, end) && 0 <= c2
                            < ri.bins@[b2].chunks@.len() && covers(ri.bins@[b2].chunks@[c2], v) {
                        let (b2, c2) = choose|b2: int, c2: int|
                            #![trigger ri.bins@[b2].chunks@[c2]]
                            0 <= b2 < bi + 1 && is_candidate_bin(ri.bins@[b2].id, beg, end) && 0
                                <= c2 < ri.bins@[b2].chunks@.len() && covers(
                                ri.bins@[b2].chunks@[c2],
                                v,
                            );
                        if b2 == bi {
                            assert(covers(ri.bins@[bi as int].chunks@[c2], v));
                        }
                    }
                }
            }
        } else {
            proof {
                assert forall|v: u64| covered(gathered@, v) <==> (exists|b2: int, c2: int|
                    #![trigger ri.bins@[b2].chunks@[c2]]
                    0 <= b2 < bi + 1 && is_candidate_bin(ri.bins@[b2].id, beg, end) && 0 <= c2
                        < ri.bins@[b2].chunks@.len() && covers(ri.bins@[b2].chunks@[c2], v)) by {
                    if exists|b2: int, c2: int|
                        #![trigger ri.bins@[b2].chunks@[c2]]
                        0 <= b2 < bi + 1 && is_candidate_bin(ri.bins@[b2].id, beg, end) && 0 <= c2
                            < ri.bins@[b2].chunks@.len() && covers(ri.bins@[b2].chunks@[c2], v) {
                        let (b2, c2) = choose|b2: int, c2: int|
                            #![trigger ri.bins@[b2].chunks@[c2]]
                            0 <= b2 < bi + 1 && is_candidate_bin(ri.bins@[b2].id, beg, end) && 0
                                <= c2 < ri.bins@[b2].chunks@.len() && covers(
                                ri.bins@[b2].chunks@[c2],
                                v,
                            );
                        assert(b2 < bi);
                    }
                }
            }
        }
        bi += 1;
    }
    merge_chunks(&gathered)
}

/// A record's placement: its zero-based reference interval and the
/// virtual-position range its bytes occupy in the stream.
#[derive(Clone, Copy, Debug, PartialEq, Eq, Structural)]
pub struct RecordMeta {
    /// Interval start on the reference (inclusive).
    pub start: u32,
    /// Interval end on the reference (exclusive).
    pub end: u32,
    /// Packed virtual position of the record's first byte.
    pub vstart: u64,
    /// Packed virtual position just past the record's last byte.
    pub vend: u64,
}

/// A record's interval and stream range are non-empty and in range.
pub open spec fn record_wf(rec: RecordMeta) -> bool {
    rec.start < rec.end <= MAX_POSITION && rec.vstart < rec.vend
}

/// Every record is well-formed.
pub open spec fn records_wf(recs: Seq<RecordMeta>) -> bool {
    forall|i: int| 0 <= i < recs.len() ==> record_wf(#[trigger] recs[i])
}

/// Whether a record's interval overlaps the query interval.
pub open spec fn overlaps(rec: RecordMeta, beg: u32, end: u32) -> bool {
    rec.start < end && beg < rec.end
}

/// The index holds, in the record's own bin, a chunk that covers the
/// record's starting virtual position.
pub open spec fn record_indexed(ri: &ReferenceIndex, rec: RecordMeta) -> bool {
    exists|bi: int, ci: int|
        #![trigger ri.bins@[bi].chunks@[ci]]
        0 <= bi < ri.bins@.len() && ri.bins@[bi].id == spec_reg2bin(rec.start, rec.end) && 0 <= ci
            < ri.bins@[bi].chunks@.len() && covers(ri.bins@[bi].chunks@[ci], rec.vstart)
}

/// Appends a chunk to the bin at `bi`, leaving every other bin as it
/// was.
fn push_chunk_at(bins: &mut Vec<Bin>, bi: usize, c: Chunk)
    requires
        bi < old(bins)@.len(),
    ensures
        final(bins)@.len() == old(bins)@.len(),
        forall|j: int| 0 <= j < old(bins)@.len() && j != bi ==> final(bins)@[j] == old(
            bins,
        )@[j],
        final(bins)@[bi as int].id == old(bins)@[bi as int].id,
        final(bins)@[bi as int].chunks@ == old(bins)@[bi as int].chunks@.push(c),
{
    let b = &mut bins[bi];
    b.chunks.push(c);
}

/// Builds a reference index over records with known intervals: each
/// record's stream range is recorded as a chunk in the record's bin.
pub fn build_index(records: &Vec<RecordMeta>) -> (r: ReferenceIndex)
    requires
        records_wf(records@),
    ensures
        reference_index_wf(&r),
        forall|i: int| 0 <= i < records@.len() ==> record_indexed(&r, #[trigger] records@[i]),
{
    let mut bins: Vec<Bin> = Vec::new();
    let mut i: usize = 0;
    while i < records.len()
        invariant
            0 <= i <= records@.len(),
            records_wf(records@),
            forall|bi: int, ci: int|
                #![trigger bins@[bi].chunks@[ci]]
                0 <= bi < bins@.len() && 0 <= ci < bins@[bi].chunks@.len() ==> chunk_wf(
                    bins@[bi].chunks@[ci],
                ),
            forall|j: int| #![trigger records@[j]]
                0 <= j < i ==> exists|bi: int, ci: int|
                    #![trigger bins@[bi].chunks@[ci]]
                    0 <= bi < bins@.len() && bins@[bi].id == spec_reg2bin(
                        records@[j].start,
                        records@[j].end,
                    ) && 0 <= ci < bins@[bi].chunks@.len() && covers(
                        bins@[bi].chunks@[ci],
                        records@[j].vstart,
                    ),
        decreases records@.len() - i,
    {
        let rec = records[i];
        let bin_id = reg2bin(rec.start, rec.end);
        let mut bi: usize = 0;
        let mut found = false;
        while bi < bins.len() && !found
            invariant
                0 <= bi <= bins@.len(),
                !found ==> forall|j: int| 0 <= j < bi ==> #[trigger] bins@[j].id != bin_id,
                found ==> bi < bins@.len() && bins@[bi as int].id == bin_id,
            decreases bins@.len() - bi + (if found { 0int } else { 1int }),
        {
            if bins[bi].id == bin_id {
                found = true;
            } else {
                bi += 1;
            }
        }
        let ghost bins0 = bins@;
        if !found {
            bins.push(Bin { id: bin_id, chunks: Vec::new() });
            bi = bins.len() - 1;
            proof {
                assert forall|j: int| #![trigger records@[j]]
                    0 <= j < i implies exists|b2: int, c2: int|
                        #![trigger bins@[b2].chunks@[c2]]
                        0 <= b2 < bins@.len() && bins@[b2].id == spec_reg2bin(
                            records@[j].start,
                            records@[j].end,
                        ) && 0 <= c2 < bins@[b2].chunks@.len() && covers(
                            bins@[b2].chunks@[c2],
                            records@[j].vstart,
                        ) by {
                    let (b2, c2) = choose|b2: int, c2: int|
                        #![trigger bins0[b2].chunks@[c2]]
                        0 <= b2 < bins0.len() && bins0[b2].id == spec_reg2bin(
                            records@[j].start,
                            records@[j].end,
                        ) && 0 <= c2 < bins0[b2].chunks@.len() && covers(
                            bins0[b2].chunks@[c2],
                            records@[j].vstart,
                        );
                    assert(bins@[b2] == bins0[b2]);
                    assert(covers(bins@[b2].chunks@[c2], records@[j].vstart));
                }
            }
        }
        let ghost bins1 = bins@;
        let c = Chunk {
            start: VirtualPosition::from_value(rec.vstart),
            end: VirtualPosition::from_value(rec.vend),
        };
        push_chunk_at(&mut bins, bi, c);
        i += 1;
        proof {
            let gbi = bi as int;
            assert(bins@[gbi].chunks@.last() == c);
            assert(covers(c, rec.vstart));
            assert(bins@[gbi].id == spec_reg2bin(rec.start, rec.end));
            assert forall|j: int| #![trigger records@[j]]
                0 <= j < i implies exists|b2: int, c2: int|
                    #![trigger bins@[b2].chunks@[c2]]
                    0 <= b2 < bins@.len() && bins@[b2].id == spec_reg2bin(
                        records@[j].start,
                        records@[j].end,
                    ) && 0 <= c2 < bins@[b2].chunks@.len() && covers(
                        bins@[b2].chunks@[c2],
                        records@[j].vstart,
                    ) by {
                if j == i - 1 {
                    assert(covers(bins@[gbi].chunks@[bins@[gbi].chunks@.len() - 1],
                        records@[j].vstart));
                } else {
                    let (b2, c2) = choose|b2: int, c2: int|
                        #![trigger bins1[b2].chunks@[c2]]
                        0 <= b2 < bins1.len() && bins1[b2].id == spec_reg2bin(
                            records@[j].start,
                            records@[j].end,
                        ) && 0 <= c2 < bins1[b2].chunks@.len() && covers(
                            bins1[b2].chunks@[c2],
                            records@[j].vstart,
                        );
                    if b2 == gbi {
                        assert(bins@[b2].chunks@[c2] == bins1[b2].chunks@[c2]);
                        assert(covers(bins@[b2].chunks@[c2], records@[j].vstart));
                    } else {
                        assert(bins@[b2] == bins1[b2]);
                        assert(covers(bins@[b2].chunks@[c2], records@[j].vstart));
                    }
                }
            }
            assert forall|b2: int, c2: int|
                #![trigger bins@[b2].chunks@[c2]]
                0 <= b2 < bins@.len() && 0 <= c2 < bins@[b2].chunks@.len() implies chunk_wf(
                    bins@[b2].chunks@[c2],
                ) by {
                if b2 == gbi && c2 == bins@[gbi].chunks@.len() - 1 {
                    assert(chunk_wf(c));
                } else if b2 == gbi {
                    assert(bins@[b2].chunks@[c2] == bins1[b2].chunks@[c2]);
                } else {
                    assert(bins@[b2] == bins1[b2]);
                }
            }
        }
    }
    ReferenceIndex { bins, metadata: None }
}

/// Runs a region query against an index built over the given records:
/// resolves the region to merged chunks, scans the records whose stream
/// position the chunks cover, and keeps exactly those whose interval
/// overlaps the region.
///
/// The result lists the selected record numbers in ascending order, and
/// holds a record if and only if its interval overlaps the query
/// interval.
pub fn query_records(ri: &ReferenceIndex, records: &Vec<RecordMeta>, beg: u32, end: u32) -> (r:
    Vec<usize>)
    requires
        reference_index_wf(ri),
        beg < end <= MAX_POSITION,
        records_wf(records@),
        forall|i: int| 0 <= i < records@.len() ==> record_indexed(ri, #[trigger] records@[i]),
    ensures
        forall|a: int, b: int| 0 <= a < b < r@.len() ==> r@[a] < r@[b],
        forall|i: usize|
            #[trigger] r@.contains(i) <==> (i < records@.len() && overlaps(
                records@[i as int],
                beg,
                end,
            )),
{
    let chunks = resolve_region(ri, beg, end);
    let mut out: Vec<usize> = Vec::new();
    let mut i: usize = 0;
    while i < records.len()
        invariant
            0 <= i <= records@.len(),
            reference_index_wf(ri),
            beg < end <= MAX_POSITION,
            records_wf(records@),
            forall|j: int| 0 <= j < records@.len() ==> record_indexed(
                ri,
                #[trigger] records@[j],
            ),
            forall|v: u64| covered(chunks@, v) <==> region_covered(ri, beg, end, v),
            forall|a: int, b: int| 0 <= a < b < out@.len() ==> out@[a] < out@[b],
            forall|a: int| 0 <= a < out@.len() ==> out@[a] < i,
            forall|j: usize|
                #[trigger] out@.contains(j) <==> (j < i && overlaps(
                    records@[j as int],
                    beg,
                    end,
                )),
        decreases records@.len() - i,
    {
        let rec = records[i];
        let ghost outp = out@;
        if covered_exec(&chunks, rec.vstart) {
            if rec.start < end && beg < rec.end {
                proof {
                    lemma_contains_push(outp, i);
                }
                out.push(i);
            }
        }
        proof {
            if overlaps(records@[i as int], beg, end) {
                lemma_overlap_candidate(rec.start, rec.end, beg, end);
                let (bi, ci) = choose|bi: int, ci: int|
                    #![trigger ri.bins@[bi].chunks@[ci]]
                    0 <= bi < ri.bins@.len() && ri.bins@[bi].id == spec_reg2bin(
                        rec.start,
                        rec.end,
                    ) && 0 <= ci < ri.bins@[bi].chunks@.len() && covers(
                        ri.bins@[bi].chunks@[ci],
                        rec.vstart,
                    );
                assert(is_candidate_bin(ri.bins@[bi].id, beg, end));
                assert(region_covered(ri, beg, end, rec.vstart));
                assert(covered(chunks@, rec.vstart));
                assert(out@.contains(i));
            }
            assert forall|j: usize|
                #[trigger] out@.contains(j) <==> (j < i + 1 && overlaps(
                    records@[j as int],
                    beg,
                    end,
                )) by {
                if out@ == outp {
                    if out@.contains(j) {
                    }
                } else {
                    lemma_contains_push(outp, i);
                }
            }
        }
        i += 1;
    }
    out
}

} // verus!
