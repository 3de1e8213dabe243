//! An ordered composition of segments into one continuous path.
//!
//! A `CompoundPath` owns a sequence of segments. Each appended segment
//! is placed where the previous one ended: its entry pose is the
//! accumulated composition of all earlier exit poses. The whole path
//! is parameterized by one fractional position over its total arc
//! length; a query locates the owning segment by binary search over
//! the accumulated start lengths, maps the position into the segment's
//! own fraction, and transforms the local pose into the path frame.

use vstd::prelude::*;
use crate::geometry::{Vector, Rotation, lemma_rotate_bound};
use crate::path::{
    PathSegment,
    Segment,
    PathError,
    GPose,
    origin_pose,
    compose_pose,
    lemma_compose_identity_base,
    lemma_segment_at_start,
    lemma_segment_length_range,
    lemma_segment_at_span,
};
use crate::units::{SCALE, MAX_SEGMENT_LENGTH, MAX_ARC, MAX_SEGMENTS};

verus! {

/// The arc length of the first `i` segments.
pub open spec fn prefix_length(segs: Seq<Segment>, i: int) -> int
    decreases i,
{
    if i <= 0 {
        0
    } else {
        prefix_length(segs, i - 1) + segs[i - 1].spec_length()
    }
}

/// The pose reached after traversing the first `i` segments: each
/// segment's exit pose, composed in order from the origin.
pub open spec fn chained_pose(segs: Seq<Segment>, i: int) -> GPose
    decreases i,
{
    if i <= 0 {
        origin_pose()
    } else {
        compose_pose(chained_pose(segs, i - 1), segs[i - 1].spec_at(SCALE as int))
    }
}

/// The index of the segment owning an absolute key `position * total`:
/// the greatest index whose scaled start length is at most the key,
/// and the first segment when the key precedes every start.
pub open spec fn seg_index(segs: Seq<Segment>, key: int) -> int
    decreases segs.len(),
{
    if segs.len() <= 1 {
        0
    } else if prefix_length(segs, segs.len() - 1) * (SCALE as int) <= key {
        segs.len() - 1
    } else {
        seg_index(segs.drop_last(), key)
    }
}

/// Linear-arithmetic facts about the per-entry machine bounds, for
/// one accumulation step.
proof fn lemma_step_bounds(i: int)
    by (nonlinear_arith)
    requires
        0 <= i < 1024,
    ensures
        (i + 1) * MAX_SEGMENT_LENGTH == i * MAX_SEGMENT_LENGTH + MAX_SEGMENT_LENGTH,
        (i + 1) * (2 * MAX_SEGMENT_LENGTH) == i * (2 * MAX_SEGMENT_LENGTH) + 2
            * MAX_SEGMENT_LENGTH,
        (i + 1) * MAX_ARC == i * MAX_ARC + MAX_ARC,
        i * (2 * MAX_SEGMENT_LENGTH) <= 1024 * (2 * MAX_SEGMENT_LENGTH),
        i * MAX_SEGMENT_LENGTH <= 1024 * MAX_SEGMENT_LENGTH,
        i * MAX_ARC <= 1024 * MAX_ARC,
        0 <= i * MAX_SEGMENT_LENGTH,
        0 <= i * (2 * MAX_SEGMENT_LENGTH),
        0 <= i * MAX_ARC,
{
}

/// One segment with its placement inside the path: the absolute pose
/// at its start and the arc length of everything before it.
#[derive(Clone, Copy, Debug)]
struct CompoundEntry {
    segment: Segment,
    pos: Vector,
    rot: Rotation,
    start: i64,
}

/// A segment sequence with accumulated placement metadata.
#[derive(Debug)]
pub struct CompoundPath {
    entries: Vec<CompoundEntry>,
    total: i64,
}

/// The placement metadata of the entry at index `j` agrees with the
/// accumulated composition of the segments before it, within the
/// machine bounds that one entry may occupy.
spec fn entry_ok(segs: Seq<Segment>, e: CompoundEntry, j: int) -> bool {
    &&& e.segment == segs[j]
    &&& e.segment.wf()
    &&& e.start == prefix_length(segs, j)
    &&& e.pos.x == chained_pose(segs, j).x
    &&& e.pos.y == chained_pose(segs, j).y
    &&& e.rot.angle == chained_pose(segs, j).heading
    &&& 0 <= e.start <= j * MAX_SEGMENT_LENGTH
    &&& -(j * (2 * MAX_SEGMENT_LENGTH)) <= e.pos.x <= j * (2 * MAX_SEGMENT_LENGTH)
    &&& -(j * (2 * MAX_SEGMENT_LENGTH)) <= e.pos.y <= j * (2 * MAX_SEGMENT_LENGTH)
    &&& -(j * MAX_ARC) <= e.rot.angle <= j * MAX_ARC
}

impl CompoundPath {
    /// The segments of the path, in traversal order.
    pub closed spec fn segments(&self) -> Seq<Segment> {
        self.entries@.map_values(|e: CompoundEntry| e.segment)
    }

    /// An empty path of zero length.
    pub fn new() -> (r: CompoundPath)
        ensures
            r.wf(),
            r.segments() == Seq::<Segment>::empty(),
            r.spec_length() == 0,
    {
        let r = CompoundPath { entries: Vec::new(), total: 0 };
        proof {
            assert(r.segments() =~= Seq::<Segment>::empty());
        }
        r
    }

    /// Appends a segment at the end of the path and replays the whole
    /// accumulation pass: every entry's start length and entry pose are
    /// recomputed left to right.
    #[verifier::rlimit(60)]
    pub fn push(&mut self, segment: Segment)
        requires
            old(self).wf(),
            segment.wf(),
            old(self).segments().len() < MAX_SEGMENTS,
        ensures
            final(self).wf(),
            final(self).segments() == old(self).segments().push(segment),
            final(self).spec_length() == old(self).spec_length() + segment.spec_length(),
    {
        self.entries.push(
            CompoundEntry {
                segment,
                pos: Vector::new(0, 0),
                rot: Rotation::new(0),
                start: 0,
            },
        );
        let ghost segs = old(self).segments().push(segment);
        proof {
            assert(self.segments() =~= segs);
            assert forall|j: int| 0 <= j < segs.len() implies (#[trigger] segs[j]).wf() by {
                if j < segs.len() - 1 {
                    assert(entry_ok(old(self).segments(), old(self).entries@[j], j));
                }
            }
        }
        let n: usize = self.entries.len();
        let mut new_entries: Vec<CompoundEntry> = Vec::new();
        let mut pos = Vector::new(0, 0);
        let mut rot = Rotation::new(0);
        let mut start: i64 = 0;
        let mut i: usize = 0;
        while i < n
            invariant
                n == self.entries@.len(),
                self.segments() == segs,
                segs.len() == n,
                n <= MAX_SEGMENTS,
                forall|j: int| 0 <= j < n ==> (#[trigger] segs[j]).wf(),
                i <= n,
                new_entries@.len() == i,
                forall|j: int| 0 <= j < i ==> entry_ok(segs, #[trigger] new_entries@[j], j),
                start == prefix_length(segs, i as int),
                pos.x == chained_pose(segs, i as int).x,
                pos.y == chained_pose(segs, i as int).y,
                rot.angle == chained_pose(segs, i as int).heading,
                0 <= start <= (i as int) * MAX_SEGMENT_LENGTH,
                -((i as int) * (2 * MAX_SEGMENT_LENGTH)) <= pos.x <= (i as int) * (2
                    * MAX_SEGMENT_LENGTH),
                -((i as int) * (2 * MAX_SEGMENT_LENGTH)) <= pos.y <= (i as int) * (2
                    * MAX_SEGMENT_LENGTH),
                -((i as int) * MAX_ARC) <= rot.angle <= (i as int) * MAX_ARC,
            decreases n - i,
        {
            let e = self.entries[i];
            proof {
                assert(e.segment == segs[i as int]);
                lemma_segment_length_range(e.segment);
                lemma_segment_at_span(e.segment, SCALE as int);
            }
            new_entries.push(CompoundEntry { segment: e.segment, pos, rot, start });
            let exit = e.segment.at(SCALE);
            let exit_pose = exit.unwrap();
            let exit_v = exit_pose.0;
            let exit_r = exit_pose.1;
            proof {
                lemma_rotate_bound(
                    rot.angle as int,
                    exit_v.x as int,
                    exit_v.y as int,
                    MAX_SEGMENT_LENGTH as int,
                );
                assert(chained_pose(segs, i + 1) == compose_pose(
                    chained_pose(segs, i as int),
                    segs[i as int].spec_at(SCALE as int),
                ));
                assert(prefix_length(segs, i + 1) == prefix_length(segs, i as int)
                    + segs[i as int].spec_length());
            }
            let moved = rot.transform_vector(&exit_v);
            let seg_len = e.segment.length();
            proof {
                lemma_step_bounds(i as int);
            }
            pos = Vector::new(pos.x + moved.x, pos.y + moved.y);
            rot = Rotation::new(rot.angle + exit_r.angle);
            start = start + seg_len;
            i = i + 1;
        }
        self.entries = new_entries;
        self.total = start;
        proof {
            assert(self.segments() =~= segs);
            assert(old(self).segments() =~= segs.drop_last());
            lemma_prefix_length_agrees(segs, old(self).segments(), n - 1);
            assert(prefix_length(segs, n as int) == prefix_length(segs, n - 1) + segs[n
                - 1].spec_length());
        }
    }

    /// The relative start of the segment at `index`, in parts per
    /// million of the total length.
    pub fn relative_start(&self, index: usize) -> (r: Option<i64>)
        requires
            self.wf(),
        ensures
            r is Some <==> index < self.segments().len(),
            r matches Some(v) ==> v == prefix_length(self.segments(), index as int) * (
            SCALE as int) / self.spec_length(),
    {
        if index >= self.entries.len() {
            return None;
        }
        proof {
            assert(entry_ok(self.segments(), self.entries@[index as int], index as int));
            self.lemma_all_wf();
            lemma_prefix_length_ge(self.segments(), self.segments().len() as int);
            lemma_prefix_length_monotone(self.segments(), index as int, self.segments().len() as int);
            lemma_prefix_length_ge(self.segments(), index as int);
            assert(0 <= prefix_length(self.segments(), index as int) * (SCALE as int) <= (
            self.total as int) * (SCALE as int)) by (nonlinear_arith)
                requires
                    0 <= prefix_length(self.segments(), index as int) <= self.total as int,
            ;
            vstd::arithmetic::div_mod::lemma_div_pos_is_pos(
                prefix_length(self.segments(), index as int) * (SCALE as int),
                self.total as int,
            );
            vstd::arithmetic::div_mod::lemma_div_is_ordered(
                prefix_length(self.segments(), index as int) * (SCALE as int),
                (self.total as int) * (SCALE as int),
                self.total as int,
            );
            assert((self.total as int) * (SCALE as int) == (SCALE as int) * (self.total as int));
            vstd::arithmetic::div_mod::lemma_div_by_multiple(SCALE as int, self.total as int);
        }
        let start = self.entries[index].start;
        Some((((start as i128) * 1_000_000) / (self.total as i128)) as i64)
    }

    /// The relative span of the segment at `index`, in parts per
    /// million of the total length.
    pub fn relative_length(&self, index: usize) -> (r: Option<i64>)
        requires
            self.wf(),
        ensures
            r is Some <==> index < self.segments().len(),
            r matches Some(v) ==> v == self.segments()[index as int].spec_length() * (
            SCALE as int) / self.spec_length(),
    {
        if index >= self.entries.len() {
            return None;
        }
        proof {
            assert(entry_ok(self.segments(), self.entries@[index as int], index as int));
            self.lemma_all_wf();
            lemma_segment_length_range(self.segments()[index as int]);
            lemma_prefix_length_ge(self.segments(), self.segments().len() as int);
            lemma_prefix_length_monotone(self.segments(), index as int, self.segments().len() as int);
            lemma_prefix_length_monotone(self.segments(), index + 1, self.segments().len() as int);
            assert(prefix_length(self.segments(), index + 1) == prefix_length(
                self.segments(),
                index as int,
            ) + self.segments()[index as int].spec_length());
            assert(0 <= self.segments()[index as int].spec_length() * (SCALE as int) <= (
            self.total as int) * (SCALE as int)) by (nonlinear_arith)
                requires
                    0 <= self.segments()[index as int].spec_length() <= self.total as int,
            ;
            vstd::arithmetic::div_mod::lemma_div_pos_is_pos(
                self.segments()[index as int].spec_length() * (SCALE as int),
                self.total as int,
            );
            vstd::arithmetic::div_mod::lemma_div_is_ordered(
                self.segments()[index as int].spec_length() * (SCALE as int),
                (self.total as int) * (SCALE as int),
                self.total as int,
            );
            assert((self.total as int) * (SCALE as int) == (SCALE as int) * (self.total as int));
            vstd::arithmetic::div_mod::lemma_div_by_multiple(SCALE as int, self.total as int);
        }
        let seg_len = self.entries[index].segment.length();
        Some((((seg_len as i128) * 1_000_000) / (self.total as i128)) as i64)
    }

    /// All segments of a well-formed path are well-formed.
    proof fn lemma_all_wf(&self)
        requires
            self.wf(),
        ensures
            forall|j: int|
                0 <= j < self.segments().len() ==> (#[trigger] self.segments()[j]).wf(),
            self.segments().len() >= 1 ==> self.spec_length() >= 1,
            self.spec_length() >= 0,
    {
        assert forall|j: int|
            0 <= j < self.segments().len() implies (#[trigger] self.segments()[j]).wf() by {
            assert(entry_ok(self.segments(), self.entries@[j], j));
        }
        lemma_prefix_length_ge(self.segments(), self.segments().len() as int);
    }
}

impl PathSegment for CompoundPath {
    closed spec fn wf(&self) -> bool {
        &&& self.entries@.len() <= MAX_SEGMENTS
        &&& forall|j: int|
            0 <= j < self.entries@.len() ==> entry_ok(
                self.segments(),
                #[trigger] self.entries@[j],
                j,
            )
        &&& self.total == prefix_length(self.segments(), self.entries@.len() as int)
    }

    closed spec fn spec_length(&self) -> int {
        prefix_length(self.segments(), self.segments().len() as int)
    }

    closed spec fn queryable(&self) -> bool {
        self.segments().len() > 0
    }

    /// The pose at the fractional position: the owning segment's local
    /// pose, taken at the position remapped into that segment's span
    /// and composed onto the segment's entry pose.
    closed spec fn spec_at(&self, position: int) -> GPose {
        let segs = self.segments();
        let total = prefix_length(segs, segs.len() as int);
        let key = position * total;
        let i = seg_index(segs, key);
        let local = (key - prefix_length(segs, i) * (SCALE as int)) / segs[i].spec_length();
        compose_pose(chained_pose(segs, i), segs[i].spec_at(local))
    }

    proof fn at_start(&self) {
        let segs = self.segments();
        let n = segs.len() as int;
        self.lemma_all_wf();
        let total = prefix_length(segs, n);
        assert(0 as int * total == 0);
        lemma_seg_index_props(segs, 0);
        let i = seg_index(segs, 0);
        if i > 0 {
            lemma_prefix_length_ge(segs, i);
            assert(prefix_length(segs, i) * (SCALE as int) >= 1 * (SCALE as int))
                by (nonlinear_arith)
                requires
                    prefix_length(segs, i) >= 1,
            ;
        }
        assert(i == 0);
        lemma_segment_length_range(segs[0]);
        vstd::arithmetic::div_mod::lemma_div_of0(segs[0].spec_length());
        lemma_segment_at_start(segs[0]);
        lemma_compose_identity_base(origin_pose());
    }

    /// The sum of all segment lengths.
    fn length(&self) -> (r: i64) {
        proof {
            self.lemma_all_wf();
        }
        self.total
    }

    fn at(&self, position: i64) -> (r: Result<(Vector, Rotation), PathError>) {
        let n = self.entries.len();
        if n == 0 || position < 0 || position > SCALE {
            return Err(PathError::OutOfRange);
        }
        let ghost segs = self.segments();
        proof {
            self.lemma_all_wf();
            lemma_prefix_length_ge(segs, n as int);
            lemma_seg_index_props(segs, (position as int) * (self.total as int));
            assert(0 <= (position as i128) * (self.total as i128) <= 1_000_000 * (
            self.total as i128)) by (nonlinear_arith)
                requires
                    0 <= position <= 1_000_000,
                    0 <= self.total,
            ;
        }
        let key: i128 = (position as i128) * (self.total as i128);
        let ghost target = seg_index(segs, key as int);
        let mut lo: usize = 0;
        let mut hi: usize = n;
        proof {
            assert(entry_ok(segs, self.entries@[0], 0));
        }
        while hi - lo > 1
            invariant
                self.wf(),
                segs == self.segments(),
                n == self.entries@.len(),
                0 < n <= MAX_SEGMENTS,
                key == (position as int) * (self.total as int),
                0 <= lo < hi <= n,
                prefix_length(segs, lo as int) * (SCALE as int) <= key as int,
                hi < n ==> (key as int) < prefix_length(segs, hi as int) * (SCALE as int),
            decreases hi - lo,
        {
            let mid: usize = lo + (hi - lo) / 2;
            proof {
                assert(entry_ok(segs, self.entries@[mid as int], mid as int));
            }
            if (self.entries[mid].start as i128) * 1_000_000 <= key {
                lo = mid;
            } else {
                hi = mid;
            }
        }
        proof {
            self.lemma_all_wf();
            // the search interval has narrowed onto the owning segment
            if lo < target {
                lemma_prefix_length_monotone(segs, lo + 1, target);
                assert(prefix_length(segs, lo + 1) * (SCALE as int) <= prefix_length(
                    segs,
                    target,
                ) * (SCALE as int)) by (nonlinear_arith)
                    requires
                        prefix_length(segs, lo + 1) <= prefix_length(segs, target),
                ;
            }
            if target < lo {
                lemma_prefix_length_monotone(segs, target + 1, lo as int);
                assert(prefix_length(segs, target + 1) * (SCALE as int) <= prefix_length(
                    segs,
                    lo as int,
                ) * (SCALE as int)) by (nonlinear_arith)
                    requires
                        prefix_length(segs, target + 1) <= prefix_length(segs, lo as int),
                ;
            }
            assert(lo == target);
            assert(entry_ok(segs, self.entries@[lo as int], lo as int));
            lemma_segment_length_range(segs[lo as int]);
            // the remapped position lands in the owning segment's span
            assert(prefix_length(segs, lo + 1) == prefix_length(segs, lo as int) + segs[lo
                as int].spec_length());
            if lo + 1 < n {
                assert((key as int) < prefix_length(segs, lo + 1) * (SCALE as int));
            } else {
                lemma_prefix_length_monotone(segs, lo + 1, n as int);
                assert((key as int) <= (self.total as int) * (SCALE as int))
                    by (nonlinear_arith)
                    requires
                        key as int == (position as int) * (self.total as int),
                        0 <= position <= 1_000_000,
                        0 <= self.total,
                ;
                assert(prefix_length(segs, lo + 1) * (SCALE as int) <= (self.total as int) * (
                SCALE as int)) by (nonlinear_arith)
                    requires
                        prefix_length(segs, lo + 1) <= self.total as int,
                ;
            }
        }
        let entry = self.entries[lo];
        let seg_len: i64 = entry.segment.length();
        let num: i128 = key - (entry.start as i128) * 1_000_000;
        proof {
            assert((prefix_length(segs, lo as int) + segs[lo as int].spec_length()) * (
            SCALE as int) == prefix_length(segs, lo as int) * (SCALE as int) + segs[lo
                as int].spec_length() * (SCALE as int)) by (nonlinear_arith);
            assert(0 <= num as int <= (seg_len as int) * 1_000_000);
            vstd::arithmetic::div_mod::lemma_div_pos_is_pos(num as int, seg_len as int);
            vstd::arithmetic::div_mod::lemma_div_is_ordered(
                num as int,
                (seg_len as int) * 1_000_000,
                seg_len as int,
            );
            assert((seg_len as int) * 1_000_000 == 1_000_000 * (seg_len as int));
            vstd::arithmetic::div_mod::lemma_div_by_multiple(1_000_000, seg_len as int);
        }
        let local: i64 = ((num) / (seg_len as i128)) as i64;
        let local_pose = entry.segment.at(local);
        let lp = local_pose.unwrap();
        proof {
            lemma_segment_at_span(segs[lo as int], local as int);
            lemma_rotate_bound(
                entry.rot.angle as int,
                lp.0.x as int,
                lp.0.y as int,
                MAX_SEGMENT_LENGTH as int,
            );
        }
        let moved = entry.rot.transform_vector(&lp.0);
        let base = Vector::new(entry.pos.x + moved.x, entry.pos.y + moved.y);
        let heading = Rotation::new(entry.rot.angle + lp.1.angle);
        Ok((base, heading))
    }
}

/// Two sequences that agree on their first `i` segments have the same
/// prefix lengths there.
pub proof fn lemma_prefix_length_agrees(s1: Seq<Segment>, s2: Seq<Segment>, i: int)
    requires
        0 <= i <= s1.len(),
        i <= s2.len(),
        forall|j: int| 0 <= j < i ==> s1[j] == s2[j],
    ensures
        prefix_length(s1, i) == prefix_length(s2, i),
    decreases i,
{
    if i > 0 {
        lemma_prefix_length_agrees(s1, s2, i - 1);
    }
}

/// With well-formed segments, `i` segments measure at least `i` and at
/// most `i * MAX_SEGMENT_LENGTH` micro-units.
pub proof fn lemma_prefix_length_ge(segs: Seq<Segment>, i: int)
    requires
        0 <= i <= segs.len(),
        forall|j: int| 0 <= j < segs.len() ==> (#[trigger] segs[j]).wf(),
    ensures
        i <= prefix_length(segs, i),
        prefix_length(segs, i) <= i * MAX_SEGMENT_LENGTH,
    decreases i,
{
    if i > 0 {
        lemma_prefix_length_ge(segs, i - 1);
        lemma_segment_length_range(segs[i - 1]);
    }
}

/// With well-formed segments, prefix lengths grow by at least one
/// micro-unit per segment.
pub proof fn lemma_prefix_length_monotone(segs: Seq<Segment>, i: int, j: int)
    requires
        0 <= i <= j <= segs.len(),
        forall|k: int| 0 <= k < segs.len() ==> (#[trigger] segs[k]).wf(),
    ensures
        prefix_length(segs, i) + (j - i) <= prefix_length(segs, j),
    decreases j - i,
{
    if i < j {
        lemma_prefix_length_monotone(segs, i, j - 1);
        lemma_segment_length_range(segs[j - 1]);
    }
}

/// The owning segment's index is in range, starts at or before the
/// key, and the next segment starts strictly after it.
pub proof fn lemma_seg_index_props(segs: Seq<Segment>, key: int)
    requires
        segs.len() >= 1,
        key >= 0,
    ensures
        0 <= seg_index(segs, key) < segs.len(),
        prefix_length(segs, seg_index(segs, key)) * (SCALE as int) <= key,
        seg_index(segs, key) + 1 < segs.len() ==> key < prefix_length(
            segs,
            seg_index(segs, key) + 1,
        ) * (SCALE as int),
    decreases segs.len(),
{
    let n = segs.len() as int;
    if n == 1 {
        assert(prefix_length(segs, 0) == 0);
        assert(0 * (SCALE as int) == 0);
    } else if prefix_length(segs, n - 1) * (SCALE as int) <= key {
    } else {
        let sub = segs.drop_last();
        lemma_seg_index_props(sub, key);
        let i = seg_index(sub, key);
        lemma_prefix_length_agrees(sub, segs, i);
        if i + 1 < n {
            lemma_prefix_length_agrees(sub, segs, i + 1);
        }
    }
}

/// Composition: the end of a compound path is exactly the composition
/// of all its segments' exit poses, in order from the origin.
pub proof fn lemma_compound_end_pose(path: &CompoundPath)
    requires
        path.wf(),
        path.segments().len() > 0,
    ensures
        path.spec_at(SCALE as int) == chained_pose(path.segments(), path.segments().len() as int),
{
    let segs = path.segments();
    let n = segs.len() as int;
    path.lemma_all_wf();
    let total = prefix_length(segs, n);
    let key = (SCALE as int) * total;
    lemma_prefix_length_ge(segs, n);
    lemma_prefix_length_monotone(segs, n - 1, n);
    lemma_segment_length_range(segs[n - 1]);
    assert(prefix_length(segs, n) == prefix_length(segs, n - 1) + segs[n - 1].spec_length());
    assert(prefix_length(segs, n - 1) * (SCALE as int) <= key) by (nonlinear_arith)
        requires
            prefix_length(segs, n - 1) <= total,
            key == (SCALE as int) * total,
    ;
    assert(seg_index(segs, key) == n - 1);
    let len_last = segs[n - 1].spec_length();
    assert(key - prefix_length(segs, n - 1) * (SCALE as int) == len_last * (SCALE as int))
        by (nonlinear_arith)
        requires
            key == (SCALE as int) * total,
            total == prefix_length(segs, n - 1) + len_last,
    ;
    assert(len_last * (SCALE as int) / len_last == SCALE as int) by {
        assert(len_last * (SCALE as int) == (SCALE as int) * len_last);
        vstd::arithmetic::div_mod::lemma_div_by_multiple(SCALE as int, len_last);
    };
}

} // verus!
