//! Keeps a detection's identity from frame to frame.

use crate::arithmetic::{
    computes, difference, fused, fused_of, minus, over, plus, product, quotient, sum, times,
    Operation,
};
use crate::camera::grid::stands_for;
use crate::clock::{elapsed, elapsed_spec};
use crate::order::{order_exists, orders, precedes, sorted_order, stable_order};
use crate::scalar::{order_is_numeric, Scalar, ONE, ZERO};
use crate::vision::detection::{
    detection_diagonal, detection_iou, detection_separation, diagonal, iou, separation, Detection,
    DetectionKind,
};
use crate::whole::patterns_denote_whole_numbers;
use vstd::arithmetic::power2::lemma2_to64;
use vstd::prelude::*;

verus! {

/// How long an identity outlives its last sighting, in nanoseconds.
pub const IDENTITY_RETENTION: u128 = 3_000_000_000;

/// Bit pattern of 0.05, the overlap that joins two boxes however far apart.
pub const IDENTITY_MIN_IOU: u32 = 0x3D4C_CCCD;

/// Bit pattern of 100, the least reach of a person.
pub const PERSON_REACH: u32 = 0x42C8_0000;

/// Bit pattern of 60, the least reach of a face.
pub const FACE_REACH: u32 = 0x4270_0000;

/// Bit pattern of 1.25, the reach in diagonals.
pub const REACH_FACTOR: u32 = 0x3FA0_0000;

/// Bit pattern of 0.35, the weight of a missing overlap.
pub const OVERLAP_WEIGHT: u32 = 0x3EB3_3333;

/// An identity and where it was last seen.
#[derive(Copy, Clone, Debug, Eq, PartialEq, Structural)]
pub struct IdentityTrack {
    pub id: u64,
    pub detection: Detection,
    pub last_seen: u128,
}

/// A track and a detection that may be the same, and how unlike they are.
#[derive(Copy, Clone, Debug)]
pub struct Candidate {
    pub cost: Scalar,
    pub track: usize,
    pub detection: usize,
}

/// Hands out identities.
#[derive(Debug)]
pub struct IdentityTracker {
    next_id: u64,
    tracks: Vec<IdentityTrack>,
}

/// What a tracker knows.
#[verifier::ext_equal]
pub struct TrackerModel {
    pub next_id: int,
    pub tracks: Seq<IdentityTrack>,
}

/// What a tracker knows after a frame, and the frame's detections with their
/// identities.
#[verifier::ext_equal]
pub struct Assignment {
    pub next_id: int,
    pub tracks: Seq<IdentityTrack>,
    pub detections: Seq<Detection>,
}

/// Matches made so far.
#[verifier::ext_equal]
pub struct Matching {
    pub tracks: Seq<IdentityTrack>,
    pub detections: Seq<Detection>,
    pub track_used: Seq<bool>,
    pub detection_used: Seq<bool>,
}

impl TrackerModel {
    /// Identities differ, and the next one is larger than all of them.
    pub open spec fn wf(self) -> bool {
        &&& 1 <= self.next_id
        &&& forall|i: int|
            0 <= i < self.tracks.len() ==> 1 <= (#[trigger] self.tracks[i]).id < self.next_id
        &&& forall|i: int, j: int|
            0 <= i < j < self.tracks.len() ==> (#[trigger] self.tracks[i]).id != (
            #[trigger] self.tracks[j]).id
    }
}

/// The identity has not outlived its last sighting.
pub open spec fn alive(track: IdentityTrack, now: u128) -> bool {
    elapsed_spec(now, track.last_seen) <= IDENTITY_RETENTION
}

/// Those of the first `n` tracks that are alive.
pub open spec fn kept(tracks: Seq<IdentityTrack>, now: u128, n: int) -> Seq<IdentityTrack>
    decreases n,
{
    if n <= 0 {
        Seq::empty()
    } else if alive(tracks[n - 1], now) {
        kept(tracks, now, n - 1).push(tracks[n - 1])
    } else {
        kept(tracks, now, n - 1)
    }
}

/// How far a target may move between two frames.
pub open spec fn reach<F: Fn(Operation) -> Scalar>(unit: F, track: Detection, detection: Detection) -> Scalar {
    let least = match detection.kind {
        DetectionKind::Person => PERSON_REACH,
        DetectionKind::Face => FACE_REACH,
    };
    fused_of(
        unit,
        diagonal(unit, track).larger(diagonal(unit, detection)),
        Scalar { bits: REACH_FACTOR },
        Scalar { bits: ZERO },
    ).larger(Scalar { bits: least })
}

/// How unlike a track and a detection are; nothing where they cannot be the
/// same.
pub open spec fn match_cost<F: Fn(Operation) -> Scalar>(
    unit: F,
    track: Detection,
    detection: Detection,
) -> Option<Scalar> {
    let distance = separation(unit, track, detection);
    let limit = reach(unit, track, detection);
    let overlap = iou(unit, track, detection);
    if track.kind != detection.kind {
        None
    } else if limit.less(distance) && overlap.less(Scalar { bits: IDENTITY_MIN_IOU }) {
        None
    } else {
        Some(
            plus(
                unit,
                over(unit, distance, limit.larger(Scalar { bits: ONE })),
                times(
                    unit,
                    minus(unit, Scalar { bits: ONE }, overlap),
                    Scalar { bits: OVERLAP_WEIGHT },
                ),
            ),
        )
    }
}

/// Candidates of one track among the first `n` detections.
pub open spec fn track_candidates<F: Fn(Operation) -> Scalar>(
    unit: F,
    tracks: Seq<IdentityTrack>,
    track: int,
    detections: Seq<Detection>,
    n: int,
) -> Seq<Candidate>
    decreases n,
{
    if n <= 0 {
        Seq::empty()
    } else {
        let earlier = track_candidates(unit, tracks, track, detections, n - 1);
        match match_cost(unit, tracks[track].detection, detections[n - 1]) {
            Some(cost) => earlier.push(
                Candidate { cost, track: track as usize, detection: (n - 1) as usize },
            ),
            None => earlier,
        }
    }
}

/// Candidates of the first `n` tracks.
pub open spec fn all_candidates<F: Fn(Operation) -> Scalar>(
    unit: F,
    tracks: Seq<IdentityTrack>,
    detections: Seq<Detection>,
    n: int,
) -> Seq<Candidate>
    decreases n,
{
    if n <= 0 {
        Seq::empty()
    } else {
        all_candidates(unit, tracks, detections, n - 1) + track_candidates(
            unit,
            tracks,
            n - 1,
            detections,
            detections.len() as int,
        )
    }
}

/// Sorting keys of the candidates.
pub open spec fn cost_keys(candidates: Seq<Candidate>) -> Seq<i64> {
    Seq::new(candidates.len(), |i: int| candidates[i].cost.total_rank() as i64)
}

/// Candidates from the most alike to the least.
pub open spec fn by_cost(candidates: Seq<Candidate>) -> Seq<Candidate> {
    let order = sorted_order(cost_keys(candidates));
    Seq::new(order.len(), |i: int| candidates[order[i] as int])
}

/// Tracks, detections and candidates can each be listed in memory.
pub open spec fn listable<F: Fn(Operation) -> Scalar>(
    unit: F,
    model: TrackerModel,
    detections: Seq<Detection>,
    now: u128,
) -> bool {
    let tracks = survivors(model, now);
    &&& model.tracks.len() <= usize::MAX
    &&& detections.len() <= usize::MAX
    &&& all_candidates(unit, tracks, detections, tracks.len() as int).len() <= usize::MAX
}

/// Nothing matched yet.
pub open spec fn unmatched(tracks: Seq<IdentityTrack>, detections: Seq<Detection>) -> Matching {
    Matching {
        tracks,
        detections,
        track_used: Seq::new(tracks.len(), |i: int| false),
        detection_used: Seq::new(detections.len(), |i: int| false),
    }
}

/// The detection takes the track's identity, and the track its place.
pub open spec fn joined(matching: Matching, track: int, detection: int, now: u128) -> Matching {
    let id = matching.tracks[track].id;
    let renamed = Detection { id, ..matching.detections[detection] };
    Matching {
        tracks: matching.tracks.update(
            track,
            (IdentityTrack { id, detection: renamed, last_seen: now }),
        ),
        detections: matching.detections.update(detection, renamed),
        track_used: matching.track_used.update(track, true),
        detection_used: matching.detection_used.update(detection, true),
    }
}

/// Matches made of the first `n` candidates: each one joins what is still free.
pub open spec fn matched(start: Matching, candidates: Seq<Candidate>, now: u128, n: int) -> Matching
    decreases n,
{
    if n <= 0 {
        start
    } else {
        let earlier = matched(start, candidates, now, n - 1);
        let track = candidates[n - 1].track as int;
        let detection = candidates[n - 1].detection as int;
        if earlier.track_used[track] || earlier.detection_used[detection] {
            earlier
        } else {
            joined(earlier, track, detection, now)
        }
    }
}

/// Gives those of the first `n` detections that matched nothing a new identity.
pub open spec fn introduced(matching: Matching, next_id: int, now: u128, n: int) -> Assignment
    decreases n,
{
    if n <= 0 {
        Assignment { next_id, tracks: matching.tracks, detections: matching.detections }
    } else {
        let earlier = introduced(matching, next_id, now, n - 1);
        if matching.detection_used[n - 1] {
            earlier
        } else {
            let renamed = Detection {
                id: earlier.next_id as u64,
                ..earlier.detections[n - 1]
            };
            Assignment {
                next_id: earlier.next_id + 1,
                tracks: earlier.tracks.push(
                    (IdentityTrack {
                        id: earlier.next_id as u64,
                        detection: renamed,
                        last_seen: now,
                    }),
                ),
                detections: earlier.detections.update(n - 1, renamed),
            }
        }
    }
}

/// Tracks that are alive at `now`.
pub open spec fn survivors(model: TrackerModel, now: u128) -> Seq<IdentityTrack> {
    kept(model.tracks, now, model.tracks.len() as int)
}

/// All matches of a frame.
pub open spec fn frame_matching<F: Fn(Operation) -> Scalar>(
    unit: F,
    model: TrackerModel,
    detections: Seq<Detection>,
    now: u128,
) -> Matching {
    let tracks = survivors(model, now);
    let candidates = by_cost(all_candidates(unit, tracks, detections, tracks.len() as int));
    matched(unmatched(tracks, detections), candidates, now, candidates.len() as int)
}

/// What a frame's detections become.
pub open spec fn assignment<F: Fn(Operation) -> Scalar>(
    unit: F,
    model: TrackerModel,
    detections: Seq<Detection>,
    now: u128,
) -> Assignment {
    introduced(
        frame_matching(unit, model, detections, now),
        model.next_id,
        now,
        detections.len() as int,
    )
}

fn find_cost<F: Fn(Operation) -> Scalar>(track: &Detection, detection: &Detection, unit: &F) -> (r: Option<
    Scalar,
>)
    requires
        computes(*unit),
    ensures
        r == match_cost(*unit, *track, *detection),
{
    if track.kind != detection.kind {
        return None;
    }
    let distance = detection_separation(track, detection, unit);
    let least: u32 = match detection.kind {
        DetectionKind::Person => PERSON_REACH,
        DetectionKind::Face => FACE_REACH,
    };
    let limit = fused(
        unit,
        detection_diagonal(track, unit).max(detection_diagonal(detection, unit)),
        Scalar::from_bits(REACH_FACTOR),
        Scalar::from_bits(ZERO),
    ).max(Scalar::from_bits(least));
    let overlap = detection_iou(track, detection, unit);
    if limit.below(distance) && overlap.below(Scalar::from_bits(IDENTITY_MIN_IOU)) {
        return None;
    }
    let one = Scalar::from_bits(ONE);
    let normalized = quotient(unit, distance, limit.max(one));
    let penalty = product(
        unit,
        difference(unit, one, overlap),
        Scalar::from_bits(OVERLAP_WEIGHT),
    );
    Some(sum(unit, normalized, penalty))
}

/// Every candidate names a track and a detection.
pub open spec fn in_bounds(candidates: Seq<Candidate>, tracks: int, detections: int) -> bool {
    forall|i: int|
        0 <= i < candidates.len() ==> (#[trigger] candidates[i]).track < tracks
            && candidates[i].detection < detections
}

fn find_candidates<F: Fn(Operation) -> Scalar>(
    tracks: &Vec<IdentityTrack>,
    detections: &Vec<Detection>,
    unit: &F,
) -> (r: Vec<Candidate>)
    requires
        computes(*unit),
    ensures
        r@ == all_candidates(*unit, tracks@, detections@, tracks@.len() as int),
        in_bounds(r@, tracks@.len() as int, detections@.len() as int),
{
    let mut r: Vec<Candidate> = Vec::new();
    let mut t: usize = 0;
    let track_count: usize = tracks.len();
    let detection_count: usize = detections.len();
    while t < track_count
        invariant
            computes(*unit),
            t <= track_count == tracks@.len(),
            detection_count == detections@.len(),
            r@ == all_candidates(*unit, tracks@, detections@, t as int),
            in_bounds(r@, tracks@.len() as int, detections@.len() as int),
        decreases track_count - t,
    {
        let ghost earlier = r@;
        let mut d: usize = 0;
        assert(r@ =~= earlier + track_candidates(*unit, tracks@, t as int, detections@, 0));
        while d < detection_count
            invariant
                computes(*unit),
                t < track_count == tracks@.len(),
                d <= detection_count == detections@.len(),
                r@ == earlier + track_candidates(*unit, tracks@, t as int, detections@, d as int),
                in_bounds(r@, tracks@.len() as int, detections@.len() as int),
            decreases detection_count - d,
        {
            let ghost before = r@;
            match find_cost(&tracks[t].detection, &detections[d], unit) {
                Some(cost) => {
                    r.push(Candidate { cost, track: t, detection: d });
                },
                None => {},
            }
            d += 1;
            assert(r@ =~= earlier + track_candidates(
                *unit,
                tracks@,
                t as int,
                detections@,
                d as int,
            ));
        }
        t += 1;
    }
    r
}

fn sort_candidates(candidates: &Vec<Candidate>) -> (r: Vec<Candidate>)
    ensures
        r@ == by_cost(candidates@),
        forall|a: int, b: int|
            in_bounds(candidates@, a, b) ==> #[trigger] in_bounds(r@, a, b),
{
    let count: usize = candidates.len();
    let mut keys: Vec<i64> = Vec::new();
    let mut i: usize = 0;
    while i < count
        invariant
            i <= count == candidates@.len(),
            keys@.len() == i,
            forall|k: int| 0 <= k < i ==> keys@[k] == candidates@[k].cost.total_rank(),
        decreases count - i,
    {
        keys.push(candidates[i].cost.total_key());
        i += 1;
    }
    assert(keys@ =~= cost_keys(candidates@));
    let order = stable_order(&keys);
    let mut r: Vec<Candidate> = Vec::new();
    let mut j: usize = 0;
    while j < order.len()
        invariant
            j <= order@.len(),
            orders(keys@, 0, keys@.len() as int, order@),
            keys@.len() == candidates@.len(),
            r@.len() == j,
            forall|k: int| 0 <= k < j ==> r@[k] == candidates@[order@[k] as int],
        decreases order@.len() - j,
    {
        let index: usize = order[j];
        r.push(candidates[index]);
        j += 1;
    }
    assert(r@ =~= by_cost(candidates@));
    r
}

impl IdentityTracker {
    pub closed spec fn view(&self) -> TrackerModel {
        TrackerModel { next_id: self.next_id as int, tracks: self.tracks@ }
    }

    /// A tracker that has seen nothing.
    pub fn new() -> (r: IdentityTracker)
        ensures
            r@ == (TrackerModel { next_id: 1, tracks: Seq::empty() }),
            r@.wf(),
    {
        IdentityTracker { next_id: 1, tracks: Vec::new() }
    }

    /// Whether so many new identities can still be given.
    pub fn has_room_for(&self, count: u128) -> (r: bool)
        ensures
            r == (self@.next_id + count <= u64::MAX),
    {
        count <= (u64::MAX - self.next_id) as u128
    }

    fn keep_alive(&mut self, now: u128)
        ensures
            final(self)@.next_id == old(self)@.next_id,
            final(self)@.tracks == survivors(old(self)@, now),
    {
        let ghost tracks = self.tracks@;
        let count: usize = self.tracks.len();
        let mut living: Vec<IdentityTrack> = Vec::new();
        let mut i: usize = 0;
        while i < count
            invariant
                i <= count == self.tracks@.len(),
                self.tracks@ == tracks,
                living@ == kept(tracks, now, i as int),
            decreases count - i,
        {
            let track = self.tracks[i];
            if elapsed(now, track.last_seen) <= IDENTITY_RETENTION {
                living.push(track);
            }
            i += 1;
        }
        self.tracks = living;
    }

    /// Gives each of a frame's detections the identity of the living track that
    /// it resembles most, one detection per track, or a new one.
    pub fn assign_at<F: Fn(Operation) -> Scalar>(
        &mut self,
        detections: &mut Vec<Detection>,
        now: u128,
        unit: &F,
    )
        requires
            computes(*unit),
            old(self)@.next_id + old(detections)@.len() <= u64::MAX,
        ensures
            final(self)@ == (TrackerModel {
                next_id: assignment(*unit, old(self)@, old(detections)@, now).next_id,
                tracks: assignment(*unit, old(self)@, old(detections)@, now).tracks,
            }),
            final(detections)@ == assignment(*unit, old(self)@, old(detections)@, now).detections,
            listable(*unit, old(self)@, old(detections)@, now),
            alike(old(detections)@, final(detections)@),
            old(self)@.wf() ==> final(self)@.wf() && told_apart(
                final(self)@,
                final(detections)@,
                now,
            ),
    {
        let ghost model = self@;
        let ghost given = detections@;
        assert(self.tracks.len() <= usize::MAX);
        self.keep_alive(now);
        let found = find_candidates(&self.tracks, detections, unit);
        assert(found.len() <= usize::MAX);
        let candidates = sort_candidates(&found);
        let ghost start = unmatched(self.tracks@, given);
        let mut track_used: Vec<bool> = Vec::new();
        let mut detection_used: Vec<bool> = Vec::new();
        let track_count: usize = self.tracks.len();
        let detection_count: usize = detections.len();
        let mut i: usize = 0;
        while i < track_count
            invariant
                i <= track_count,
                track_used@.len() == i,
                forall|k: int| 0 <= k < i ==> track_used@[k] == false,
            decreases track_count - i,
        {
            track_used.push(false);
            i += 1;
        }
        i = 0;
        while i < detection_count
            invariant
                i <= detection_count,
                detection_used@.len() == i,
                forall|k: int| 0 <= k < i ==> detection_used@[k] == false,
            decreases detection_count - i,
        {
            detection_used.push(false);
            i += 1;
        }
        assert(track_used@ =~= start.track_used);
        assert(detection_used@ =~= start.detection_used);
        i = 0;
        while i < candidates.len()
            invariant
                i <= candidates@.len(),
                in_bounds(candidates@, track_count as int, detection_count as int),
                self.next_id == model.next_id,
                self.tracks@.len() == track_count,
                detections@.len() == detection_count,
                track_used@.len() == track_count,
                detection_used@.len() == detection_count,
                (Matching {
                    tracks: self.tracks@,
                    detections: detections@,
                    track_used: track_used@,
                    detection_used: detection_used@,
                }) == matched(start, candidates@, now, i as int),
            decreases candidates@.len() - i,
        {
            let track: usize = candidates[i].track;
            let detection: usize = candidates[i].detection;
            if !(track_used[track] || detection_used[detection]) {
                let id: u64 = self.tracks[track].id;
                let renamed = Detection { id, ..detections[detection] };
                detections.set(detection, renamed);
                self.tracks.set(track, IdentityTrack { id, detection: renamed, last_seen: now });
                track_used.set(track, true);
                detection_used.set(detection, true);
            }
            i += 1;
        }
        let ghost matching = frame_matching(*unit, model, given, now);
        i = 0;
        while i < detection_count
            invariant
                i <= detection_count,
                detections@.len() == detection_count,
                detection_used@.len() == detection_count,
                detection_used@ == matching.detection_used,
                self.next_id <= model.next_id + i,
                model.next_id + detection_count <= u64::MAX,
                (Assignment {
                    next_id: self.next_id as int,
                    tracks: self.tracks@,
                    detections: detections@,
                }) == introduced(matching, model.next_id, now, i as int),
            decreases detection_count - i,
        {
            if !detection_used[i] {
                let id: u64 = self.next_id;
                self.next_id = id + 1;
                let renamed = Detection { id, ..detections[i] };
                detections.set(i, renamed);
                self.tracks.push(IdentityTrack { id, detection: renamed, last_seen: now });
            }
            i += 1;
        }
        proof {
            only_identities_change(*unit, model, given, now);
            if model.wf() {
                identities_stay_apart(*unit, model, given, now);
            }
        }
    }
}

/// Track `t` holds what detection `d` shows.
pub open spec fn holds(
    tracks: Seq<IdentityTrack>,
    detections: Seq<Detection>,
    now: u128,
    t: int,
    d: int,
) -> bool {
    &&& 0 <= t < tracks.len()
    &&& tracks[t].id == detections[d].id
    &&& tracks[t].detection == detections[d]
    &&& tracks[t].last_seen == now
}

/// Some track holds what detection `d` shows.
pub open spec fn is_held(
    tracks: Seq<IdentityTrack>,
    detections: Seq<Detection>,
    now: u128,
    d: int,
) -> bool {
    exists|t: int| #[trigger] holds(tracks, detections, now, t, d)
}

/// Each of the detections has an identity of its own that was given already, and
/// some track holds what it shows.
pub open spec fn told_apart(model: TrackerModel, detections: Seq<Detection>, now: u128) -> bool {
    &&& forall|c: int, d: int|
        0 <= c < d < detections.len() ==> (#[trigger] detections[c]).id != (
        #[trigger] detections[d]).id
    &&& forall|d: int|
        0 <= d < detections.len() ==> 1 <= (#[trigger] detections[d]).id < model.next_id
    &&& forall|d: int|
        0 <= d < detections.len() ==> #[trigger] is_held(model.tracks, detections, now, d)
}

/// The two show the same, whatever identity they have.
pub open spec fn same_but_for_identity(left: Detection, right: Detection) -> bool {
    right == (Detection { id: right.id, ..left })
}

/// The same detections in the same order, whatever identities they have.
pub open spec fn alike(left: Seq<Detection>, right: Seq<Detection>) -> bool {
    &&& left.len() == right.len()
    &&& forall|d: int|
        0 <= d < left.len() ==> same_but_for_identity(left[d], #[trigger] right[d])
}

/// What holds of the matches made so far.
spec fn sound(start: Matching, matching: Matching, now: u128) -> bool {
    &&& matching.tracks.len() == start.tracks.len() == matching.track_used.len()
    &&& matching.detections.len() == start.detections.len() == matching.detection_used.len()
    &&& forall|t: int|
        0 <= t < start.tracks.len() ==> (#[trigger] matching.tracks[t]).id == start.tracks[t].id
    &&& forall|d: int|
        0 <= d < start.detections.len() ==> (#[trigger] matching.detections[d]) == (Detection {
            id: matching.detections[d].id,
            ..start.detections[d]
        })
    &&& forall|d: int|
        0 <= d < start.detections.len() && #[trigger] matching.detection_used[d]
            ==> exists|t: int|
            {
                &&& #[trigger] holds(matching.tracks, matching.detections, now, t, d)
                &&& matching.track_used[t]
                &&& start.tracks[t].detection.kind == start.detections[d].kind
            }
    &&& forall|t: int|
        0 <= t < start.tracks.len() && #[trigger] matching.track_used[t] ==> exists|d: int|
            0 <= d < start.detections.len() && matching.detection_used[d] && (
            #[trigger] matching.detections[d]).id == start.tracks[t].id
    &&& forall|c: int, d: int|
        0 <= c < d < start.detections.len() && #[trigger] matching.detection_used[c]
            && #[trigger] matching.detection_used[d] ==> matching.detections[c].id
            != matching.detections[d].id
}

/// Every candidate joins a track and a detection of one kind.
spec fn same_kind(candidates: Seq<Candidate>, start: Matching) -> bool {
    &&& in_bounds(candidates, start.tracks.len() as int, start.detections.len() as int)
    &&& forall|i: int|
        0 <= i < candidates.len() ==> start.tracks[(
        #[trigger] candidates[i]).track as int].detection.kind
            == start.detections[candidates[i].detection as int].kind
}

#[verifier::rlimit(60)]
proof fn lemma_matched_is_sound(start: Matching, candidates: Seq<Candidate>, now: u128, n: int)
    requires
        0 <= n <= candidates.len(),
        start == unmatched(start.tracks, start.detections),
        same_kind(candidates, start),
        forall|i: int, j: int|
            0 <= i < j < start.tracks.len() ==> (#[trigger] start.tracks[i]).id != (
            #[trigger] start.tracks[j]).id,
    ensures
        sound(start, matched(start, candidates, now, n), now),
        forall|i: int|
            0 <= i < n ==> matched(start, candidates, now, n).track_used[(
            #[trigger] candidates[i]).track as int] || matched(
                start,
                candidates,
                now,
                n,
            ).detection_used[candidates[i].detection as int],
    decreases n,
{
    if n > 0 {
        lemma_matched_is_sound(start, candidates, now, n - 1);
        let earlier = matched(start, candidates, now, n - 1);
        let later = matched(start, candidates, now, n);
        let track = candidates[n - 1].track as int;
        let detection = candidates[n - 1].detection as int;
        if !(earlier.track_used[track] || earlier.detection_used[detection]) {
            assert(holds(later.tracks, later.detections, now, track, detection));
            assert forall|d: int|
                0 <= d < start.detections.len()
                    && #[trigger] later.detection_used[d] implies exists|t: int|
                {
                    &&& #[trigger] holds(later.tracks, later.detections, now, t, d)
                    &&& later.track_used[t]
                    &&& start.tracks[t].detection.kind == start.detections[d].kind
                } by {
                if d != detection {
                    assert(earlier.detection_used[d]);
                    let t = choose|t: int|
                        {
                            &&& #[trigger] holds(earlier.tracks, earlier.detections, now, t, d)
                            &&& earlier.track_used[t]
                            &&& start.tracks[t].detection.kind == start.detections[d].kind
                        };
                    assert(holds(later.tracks, later.detections, now, t, d));
                }
            }
            assert forall|t: int|
                0 <= t < start.tracks.len()
                    && #[trigger] later.track_used[t] implies exists|d: int|
                0 <= d < start.detections.len() && later.detection_used[d] && (
                #[trigger] later.detections[d]).id == start.tracks[t].id by {
                if t == track {
                    assert(later.detections[detection].id == start.tracks[t].id);
                } else {
                    assert(earlier.track_used[t]);
                    let d = choose|d: int|
                        0 <= d < start.detections.len() && earlier.detection_used[d] && (
                        #[trigger] earlier.detections[d]).id == start.tracks[t].id;
                    assert(later.detections[d].id == start.tracks[t].id);
                }
            }
            assert forall|c: int, d: int|
                0 <= c < d < start.detections.len() && #[trigger] later.detection_used[c]
                    && #[trigger] later.detection_used[d] implies later.detections[c].id
                != later.detections[d].id by {
                let other = if c == detection {
                    d
                } else {
                    c
                };
                assert(earlier.detection_used[other]);
                if c == detection || d == detection {
                    let t = choose|t: int|
                        {
                            &&& #[trigger] holds(earlier.tracks, earlier.detections, now, t, other)
                            &&& earlier.track_used[t]
                            &&& start.tracks[t].detection.kind == start.detections[other].kind
                        };
                    assert(t != track);
                    assert(start.tracks[t].id != start.tracks[track].id);
                } else {
                    assert(earlier.detection_used[d]);
                }
            }
        }
    }
}

/// Candidate `i` is track `t` with detection `d`.
spec fn pairs(candidates: Seq<Candidate>, t: int, d: int, i: int) -> bool {
    0 <= i < candidates.len() && candidates[i].track == t && candidates[i].detection == d
}

proof fn lemma_track_candidates<F: Fn(Operation) -> Scalar>(
    unit: F,
    tracks: Seq<IdentityTrack>,
    track: int,
    detections: Seq<Detection>,
    n: int,
)
    requires
        0 <= track < tracks.len() <= usize::MAX,
        0 <= n <= detections.len() <= usize::MAX,
    ensures
        track_candidates(unit, tracks, track, detections, n).len() <= n,
        forall|i: int|
            0 <= i < track_candidates(unit, tracks, track, detections, n).len() ==> {
                let candidate = #[trigger] track_candidates(unit, tracks, track, detections, n)[i];
                &&& candidate.track == track
                &&& candidate.detection < n
                &&& match_cost(
                    unit,
                    tracks[track].detection,
                    detections[candidate.detection as int],
                ) is Some
            },
        forall|d: int|
            0 <= d < n && (#[trigger] match_cost(unit, tracks[track].detection, detections[d])) is Some
                ==> exists|i: int|
                pairs(track_candidates(unit, tracks, track, detections, n), track, d, i),
    decreases n,
{
    if n > 0 {
        lemma_track_candidates(unit, tracks, track, detections, n - 1);
        let earlier = track_candidates(unit, tracks, track, detections, n - 1);
        let later = track_candidates(unit, tracks, track, detections, n);
        assert forall|d: int|
            0 <= d < n && (#[trigger] match_cost(
                unit,
                tracks[track].detection,
                detections[d],
            )) is Some implies exists|i: int| pairs(later, track, d, i) by {
            if d == n - 1 {
                assert(pairs(later, track, d, earlier.len() as int));
            } else {
                let i = choose|i: int| pairs(earlier, track, d, i);
                assert(pairs(later, track, d, i));
            }
        }
    }
}

proof fn lemma_all_candidates<F: Fn(Operation) -> Scalar>(
    unit: F,
    tracks: Seq<IdentityTrack>,
    detections: Seq<Detection>,
    n: int,
)
    requires
        0 <= n <= tracks.len() <= usize::MAX,
        detections.len() <= usize::MAX,
    ensures
        all_candidates(unit, tracks, detections, n).len() <= n * detections.len(),
        forall|i: int|
            0 <= i < all_candidates(unit, tracks, detections, n).len() ==> {
                let candidate = #[trigger] all_candidates(unit, tracks, detections, n)[i];
                &&& candidate.track < n
                &&& candidate.detection < detections.len()
                &&& match_cost(
                    unit,
                    tracks[candidate.track as int].detection,
                    detections[candidate.detection as int],
                ) is Some
            },
        forall|t: int, d: int|
            0 <= t < n && 0 <= d < detections.len() && (#[trigger] match_cost(
                unit,
                tracks[t].detection,
                detections[d],
            )) is Some ==> exists|i: int|
                pairs(all_candidates(unit, tracks, detections, n), t, d, i),
    decreases n,
{
    if n > 0 {
        lemma_all_candidates(unit, tracks, detections, n - 1);
        lemma_track_candidates(unit, tracks, n - 1, detections, detections.len() as int);
        let earlier = all_candidates(unit, tracks, detections, n - 1);
        let added = track_candidates(unit, tracks, n - 1, detections, detections.len() as int);
        let later = all_candidates(unit, tracks, detections, n);
        assert((n - 1) * detections.len() + detections.len() == n * detections.len())
            by (nonlinear_arith);
        assert forall|t: int, d: int|
            0 <= t < n && 0 <= d < detections.len() && (#[trigger] match_cost(
                unit,
                tracks[t].detection,
                detections[d],
            )) is Some implies exists|i: int| pairs(later, t, d, i) by {
            if t == n - 1 {
                let i = choose|i: int| pairs(added, t, d, i);
                assert(pairs(later, t, d, earlier.len() + i));
            } else {
                let i = choose|i: int| pairs(earlier, t, d, i);
                assert(pairs(later, t, d, i));
            }
        }
    }
}

proof fn lemma_by_cost(candidates: Seq<Candidate>)
    requires
        candidates.len() <= usize::MAX,
    ensures
        forall|i: int|
            0 <= i < by_cost(candidates).len() ==> candidates.contains(
                #[trigger] by_cost(candidates)[i],
            ),
        forall|t: int, d: int, k: int|
            #[trigger] pairs(candidates, t, d, k) ==> exists|i: int|
                pairs(by_cost(candidates), t, d, i),
{
    let keys = cost_keys(candidates);
    order_exists(keys);
    let order = sorted_order(keys);
    assert forall|i: int| 0 <= i < by_cost(candidates).len() implies candidates.contains(
        #[trigger] by_cost(candidates)[i],
    ) by {
        assert(by_cost(candidates)[i] == candidates[order[i] as int]);
    }
    assert forall|t: int, d: int, k: int| #[trigger] pairs(candidates, t, d, k) implies exists|
        i: int,
    |
        pairs(by_cost(candidates), t, d, i) by {
        assert(order.contains(k as usize));
        let i = choose|i: int| 0 <= i < order.len() && order[i] == k as usize;
        assert(pairs(by_cost(candidates), t, d, i));
    }
}

proof fn lemma_kept(tracks: Seq<IdentityTrack>, now: u128, n: int)
    requires
        0 <= n <= tracks.len(),
        forall|i: int, j: int|
            0 <= i < j < tracks.len() ==> (#[trigger] tracks[i]).id != (#[trigger] tracks[j]).id,
    ensures
        kept(tracks, now, n).len() <= n,
        forall|i: int|
            0 <= i < kept(tracks, now, n).len() ==> alive(#[trigger] kept(tracks, now, n)[i], now)
                && tracks.take(n).contains(kept(tracks, now, n)[i]),
        forall|k: int|
            0 <= k < n && alive(#[trigger] tracks[k], now) ==> kept(tracks, now, n).contains(tracks[k]),
        forall|i: int, j: int|
            0 <= i < j < kept(tracks, now, n).len() ==> (#[trigger] kept(tracks, now, n)[i]).id != (
            #[trigger] kept(tracks, now, n)[j]).id,
    decreases n,
{
    if n > 0 {
        lemma_kept(tracks, now, n - 1);
        let earlier = kept(tracks, now, n - 1);
        let later = kept(tracks, now, n);
        assert forall|k: int| 0 <= k < n && alive(#[trigger] tracks[k], now) implies later.contains(
            tracks[k],
        ) by {
            if k == n - 1 {
                assert(later[earlier.len() as int] == tracks[k]);
            } else {
                assert(earlier.contains(tracks[k]));
                let i = choose|i: int| 0 <= i < earlier.len() && earlier[i] == tracks[k];
                assert(later[i] == tracks[k]);
            }
        }
        assert forall|i: int| 0 <= i < later.len() implies alive(#[trigger] later[i], now)
            && tracks.take(n).contains(later[i]) by {
            if i < earlier.len() {
                assert(later[i] == earlier[i]);
                let first = tracks.take(n - 1);
                let k = choose|k: int| 0 <= k < first.len() && first[k] == earlier[i];
                assert(tracks.take(n)[k] == later[i]);
            } else {
                assert(tracks.take(n)[n - 1] == later[i]);
            }
        }
        assert forall|i: int, j: int| 0 <= i < j < later.len() implies (#[trigger] later[i]).id != (
        #[trigger] later[j]).id by {
            assert(later[i] == earlier[i]);
            if j < earlier.len() {
                assert(later[j] == earlier[j]);
            } else {
                assert(later[j] == tracks[n - 1]);
                let first = tracks.take(n - 1);
                let k = choose|k: int| 0 <= k < first.len() && first[k] == earlier[i];
                assert(tracks[k].id != tracks[n - 1].id);
            }
        }
    }
}

/// What holds of a frame's matches.
#[verifier::rlimit(60)]
proof fn lemma_frame_matching<F: Fn(Operation) -> Scalar>(
    unit: F,
    model: TrackerModel,
    detections: Seq<Detection>,
    now: u128,
)
    requires
        model.wf(),
        listable(unit, model, detections, now),
    ensures
        sound(
            unmatched(survivors(model, now), detections),
            frame_matching(unit, model, detections, now),
            now,
        ),
        forall|t: int, d: int|
            0 <= t < survivors(model, now).len() && 0 <= d < detections.len() && (
            #[trigger] match_cost(unit, survivors(model, now)[t].detection, detections[d])) is Some
                ==> frame_matching(unit, model, detections, now).track_used[t] || frame_matching(
                unit,
                model,
                detections,
                now,
            ).detection_used[d],
{
    let tracks = survivors(model, now);
    let start = unmatched(tracks, detections);
    lemma_kept(model.tracks, now, model.tracks.len() as int);
    let unsorted = all_candidates(unit, tracks, detections, tracks.len() as int);
    lemma_all_candidates(unit, tracks, detections, tracks.len() as int);
    lemma_by_cost(unsorted);
    let candidates = by_cost(unsorted);
    assert forall|i: int| 0 <= i < candidates.len() implies (#[trigger] candidates[i]).track
        < tracks.len() && candidates[i].detection < detections.len()
        && start.tracks[candidates[i].track as int].detection.kind
        == start.detections[candidates[i].detection as int].kind by {
        let k = choose|k: int| 0 <= k < unsorted.len() && unsorted[k] == candidates[i];
        assert(unsorted[k].track < tracks.len());
    }
    assert(same_kind(candidates, start));
    lemma_matched_is_sound(start, candidates, now, candidates.len() as int);
    assert forall|t: int, d: int|
        0 <= t < tracks.len() && 0 <= d < detections.len() && (#[trigger] match_cost(
            unit,
            tracks[t].detection,
            detections[d],
        )) is Some implies frame_matching(unit, model, detections, now).track_used[t]
        || frame_matching(unit, model, detections, now).detection_used[d] by {
        let k = choose|k: int| pairs(unsorted, t, d, k);
        let i = choose|i: int| pairs(candidates, t, d, i);
        assert(candidates[i].track == t);
    }
}

/// What holds once the first `n` detections have their identities.
spec fn settled(
    matching: Matching,
    next_id: int,
    now: u128,
    n: int,
    result: Assignment,
) -> bool {
    &&& next_id <= result.next_id <= next_id + n
    &&& result.detections.len() == matching.detections.len()
    &&& matching.tracks.len() <= result.tracks.len()
    &&& forall|t: int|
        0 <= t < matching.tracks.len() ==> #[trigger] result.tracks[t] == matching.tracks[t]
    &&& forall|t: int|
        matching.tracks.len() <= t < result.tracks.len() ==> next_id <= (
        #[trigger] result.tracks[t]).id < result.next_id
    &&& forall|s: int, t: int|
        matching.tracks.len() <= s < t < result.tracks.len() ==> (#[trigger] result.tracks[s]).id
            < (#[trigger] result.tracks[t]).id
    &&& forall|d: int|
        0 <= d < matching.detections.len() ==> (#[trigger] result.detections[d]) == (Detection {
            id: result.detections[d].id,
            ..matching.detections[d]
        })
    &&& forall|d: int|
        0 <= d < matching.detections.len() && (n <= d || matching.detection_used[d])
            ==> #[trigger] result.detections[d] == matching.detections[d]
    &&& forall|d: int|
        0 <= d < n && !#[trigger] matching.detection_used[d] ==> next_id
            <= result.detections[d].id < result.next_id && is_held(
            result.tracks,
            result.detections,
            now,
            d,
        )
    &&& forall|c: int, d: int|
        0 <= c < d < n && !#[trigger] matching.detection_used[c]
            && !#[trigger] matching.detection_used[d] ==> result.detections[c].id
            < result.detections[d].id
}

#[verifier::rlimit(60)]
proof fn lemma_introduced(matching: Matching, next_id: int, now: u128, n: int)
    requires
        0 <= n <= matching.detections.len(),
        0 <= next_id,
        next_id + matching.detections.len() <= u64::MAX,
    ensures
        settled(matching, next_id, now, n, introduced(matching, next_id, now, n)),
    decreases n,
{
    if n > 0 {
        lemma_introduced(matching, next_id, now, n - 1);
        let earlier = introduced(matching, next_id, now, n - 1);
        let later = introduced(matching, next_id, now, n);
        if !matching.detection_used[n - 1] {
            assert(holds(
                later.tracks,
                later.detections,
                now,
                earlier.tracks.len() as int,
                n - 1,
            ));
            assert forall|d: int| 0 <= d < n && !#[trigger] matching.detection_used[d] implies next_id
                <= later.detections[d].id < later.next_id && is_held(
                later.tracks,
                later.detections,
                now,
                d,
            ) by {
                if d < n - 1 {
                    let t = choose|t: int|
                        #[trigger] holds(earlier.tracks, earlier.detections, now, t, d);
                    assert(later.detections[d] == earlier.detections[d]);
                    assert(holds(later.tracks, later.detections, now, t, d));
                }
            }
        }
    }
}

proof fn lemma_candidates_in_bounds<F: Fn(Operation) -> Scalar>(
    unit: F,
    model: TrackerModel,
    detections: Seq<Detection>,
    now: u128,
)
    requires
        listable(unit, model, detections, now),
    ensures
        ({
            let tracks = survivors(model, now);
            in_bounds(
                by_cost(all_candidates(unit, tracks, detections, tracks.len() as int)),
                tracks.len() as int,
                detections.len() as int,
            )
        }),
{
    let tracks = survivors(model, now);
    lemma_kept_is_shorter(model.tracks, now, model.tracks.len() as int);
    let unsorted = all_candidates(unit, tracks, detections, tracks.len() as int);
    lemma_all_candidates(unit, tracks, detections, tracks.len() as int);
    lemma_by_cost(unsorted);
    let candidates = by_cost(unsorted);
    assert forall|i: int| 0 <= i < candidates.len() implies (#[trigger] candidates[i]).track
        < tracks.len() && candidates[i].detection < detections.len() by {
        let k = choose|k: int| 0 <= k < unsorted.len() && unsorted[k] == candidates[i];
        assert(unsorted[k].track < tracks.len());
    }
}

proof fn lemma_kept_is_shorter(tracks: Seq<IdentityTrack>, now: u128, n: int)
    requires
        0 <= n <= tracks.len(),
    ensures
        kept(tracks, now, n).len() <= n,
    decreases n,
{
    if n > 0 {
        lemma_kept_is_shorter(tracks, now, n - 1);
    }
}

/// Two matchings of frames that are alike: they differ at most in the identities
/// of detections that matched nothing yet.
spec fn level(left: Matching, right: Matching, tracks: int, detections: int) -> bool {
    &&& left.tracks == right.tracks
    &&& left.track_used == right.track_used
    &&& left.detection_used == right.detection_used
    &&& left.tracks.len() == left.track_used.len() == tracks
    &&& left.detections.len() == left.detection_used.len() == detections
    &&& alike(left.detections, right.detections)
    &&& forall|d: int|
        0 <= d < detections && #[trigger] left.detection_used[d] ==> left.detections[d]
            == right.detections[d]
}

#[verifier::rlimit(60)]
proof fn lemma_level(left: Matching, right: Matching, candidates: Seq<Candidate>, now: u128, n: int)
    requires
        0 <= n <= candidates.len(),
        level(left, right, left.tracks.len() as int, left.detections.len() as int),
        in_bounds(candidates, left.tracks.len() as int, left.detections.len() as int),
    ensures
        level(
            matched(left, candidates, now, n),
            matched(right, candidates, now, n),
            left.tracks.len() as int,
            left.detections.len() as int,
        ),
        alike(left.detections, matched(left, candidates, now, n).detections),
    decreases n,
{
    if n > 0 {
        lemma_level(left, right, candidates, now, n - 1);
        assert(candidates[n - 1].track < left.tracks.len());
        let before = matched(left, candidates, now, n - 1);
        let other = matched(right, candidates, now, n - 1);
        let track = candidates[n - 1].track as int;
        let detection = candidates[n - 1].detection as int;
        assert(same_but_for_identity(before.detections[detection], other.detections[detection]));
        assert(same_but_for_identity(left.detections[detection], before.detections[detection]));
        if !(before.track_used[track] || before.detection_used[detection]) {
            let later = joined(before, track, detection, now);
            let other_later = joined(other, track, detection, now);
            assert(later.detections[detection] == other_later.detections[detection]);
            assert(later.tracks =~= other_later.tracks);
            assert forall|d: int| 0 <= d < left.detections.len() implies same_but_for_identity(
                left.detections[d],
                #[trigger] later.detections[d],
            ) by {
                if d != detection {
                    assert(later.detections[d] == before.detections[d]);
                }
            }
            assert forall|d: int| 0 <= d < later.detections.len() implies same_but_for_identity(
                later.detections[d],
                #[trigger] other_later.detections[d],
            ) by {
                if d != detection {
                    assert(other_later.detections[d] == other.detections[d]);
                    assert(later.detections[d] == before.detections[d]);
                }
            }
            assert forall|d: int|
                0 <= d < left.detections.len()
                    && #[trigger] later.detection_used[d] implies later.detections[d]
                == other_later.detections[d] by {
                if d != detection {
                    assert(before.detection_used[d]);
                }
            }
        }
    }
}

#[verifier::rlimit(60)]
proof fn lemma_introduced_level(left: Matching, right: Matching, next_id: int, now: u128, n: int)
    requires
        0 <= n <= left.detections.len(),
        level(left, right, left.tracks.len() as int, left.detections.len() as int),
    ensures
        ({
            let before = introduced(left, next_id, now, n);
            let other = introduced(right, next_id, now, n);
            &&& before.next_id == other.next_id
            &&& before.tracks == other.tracks
            &&& alike(before.detections, other.detections)
            &&& alike(left.detections, before.detections)
            &&& forall|d: int|
                0 <= d < left.detections.len() && (d < n || left.detection_used[d])
                    ==> #[trigger] before.detections[d] == other.detections[d]
        }),
    decreases n,
{
    if n > 0 {
        lemma_introduced_level(left, right, next_id, now, n - 1);
        let before = introduced(left, next_id, now, n - 1);
        let other = introduced(right, next_id, now, n - 1);
        let later = introduced(left, next_id, now, n);
        let other_later = introduced(right, next_id, now, n);
        assert(same_but_for_identity(before.detections[n - 1], other.detections[n - 1]));
        assert(same_but_for_identity(left.detections[n - 1], before.detections[n - 1]));
        if !left.detection_used[n - 1] {
            assert(later.detections[n - 1] == other_later.detections[n - 1]);
            assert(later.tracks =~= other_later.tracks);
            assert forall|d: int| 0 <= d < left.detections.len() implies same_but_for_identity(
                left.detections[d],
                #[trigger] later.detections[d],
            ) && same_but_for_identity(later.detections[d], other_later.detections[d]) by {
                if d != n - 1 {
                    assert(later.detections[d] == before.detections[d]);
                    assert(other_later.detections[d] == other.detections[d]);
                }
            }
        }
    }
}

/// Assigning keeps the detections and their order, and changes nothing of them but
/// their identities.
pub proof fn only_identities_change<F: Fn(Operation) -> Scalar>(
    unit: F,
    model: TrackerModel,
    detections: Seq<Detection>,
    now: u128,
)
    requires
        listable(unit, model, detections, now),
    ensures
        alike(detections, assignment(unit, model, detections, now).detections),
{
    incoming_identities_do_not_matter(unit, model, detections, detections, now);
}

proof fn lemma_same_candidates<F: Fn(Operation) -> Scalar>(
    unit: F,
    tracks: Seq<IdentityTrack>,
    left: Seq<Detection>,
    right: Seq<Detection>,
    t: int,
    n: int,
)
    requires
        alike(left, right),
        0 <= n <= left.len(),
    ensures
        track_candidates(unit, tracks, t, left, n) == track_candidates(unit, tracks, t, right, n),
    decreases n,
{
    if n > 0 {
        lemma_same_candidates(unit, tracks, left, right, t, n - 1);
        assert(same_but_for_identity(left[n - 1], right[n - 1]));
    }
}

proof fn lemma_same_lists<F: Fn(Operation) -> Scalar>(
    unit: F,
    tracks: Seq<IdentityTrack>,
    left: Seq<Detection>,
    right: Seq<Detection>,
    n: int,
)
    requires
        alike(left, right),
    ensures
        all_candidates(unit, tracks, left, n) == all_candidates(unit, tracks, right, n),
    decreases n,
{
    if n > 0 {
        lemma_same_lists(unit, tracks, left, right, n - 1);
        lemma_same_candidates(unit, tracks, left, right, n - 1, left.len() as int);
    }
}

/// What a frame's detections become does not depend on the identities that they
/// come with.
pub proof fn incoming_identities_do_not_matter<F: Fn(Operation) -> Scalar>(
    unit: F,
    model: TrackerModel,
    left: Seq<Detection>,
    right: Seq<Detection>,
    now: u128,
)
    requires
        listable(unit, model, left, now),
        alike(left, right),
    ensures
        assignment(unit, model, left, now) == assignment(unit, model, right, now),
        alike(left, assignment(unit, model, left, now).detections),
{
    let tracks = survivors(model, now);
    let candidates = by_cost(all_candidates(unit, tracks, left, tracks.len() as int));
    lemma_same_lists(unit, tracks, left, right, tracks.len() as int);
    lemma_candidates_in_bounds(unit, model, left, now);
    let start = unmatched(tracks, left);
    let other_start = unmatched(tracks, right);
    assert(start.detection_used =~= other_start.detection_used);
    lemma_level(start, other_start, candidates, now, candidates.len() as int);
    let matching = frame_matching(unit, model, left, now);
    let other = frame_matching(unit, model, right, now);
    lemma_introduced_level(matching, other, model.next_id, now, left.len() as int);
    let result = assignment(unit, model, left, now);
    let other_result = assignment(unit, model, right, now);
    assert forall|d: int| 0 <= d < left.len() implies same_but_for_identity(
        left[d],
        #[trigger] result.detections[d],
    ) by {
        assert(same_but_for_identity(start.detections[d], matching.detections[d]));
        assert(same_but_for_identity(matching.detections[d], result.detections[d]));
    }
    assert(result.detections =~= other_result.detections);
}

/// Detection `d` takes over the identity of a living track.
pub open spec fn inherits<F: Fn(Operation) -> Scalar>(
    unit: F,
    model: TrackerModel,
    detections: Seq<Detection>,
    now: u128,
    d: int,
) -> bool {
    frame_matching(unit, model, detections, now).detection_used[d]
}

/// How many of the first `n` detections take over no identity.
pub open spec fn newcomers<F: Fn(Operation) -> Scalar>(
    unit: F,
    model: TrackerModel,
    detections: Seq<Detection>,
    now: u128,
    n: int,
) -> int
    decreases n,
{
    if n <= 0 {
        0
    } else {
        newcomers(unit, model, detections, now, n - 1) + (if inherits(
            unit,
            model,
            detections,
            now,
            n - 1,
        ) {
            0int
        } else {
            1
        })
    }
}

proof fn lemma_newcomers<F: Fn(Operation) -> Scalar>(
    unit: F,
    model: TrackerModel,
    detections: Seq<Detection>,
    now: u128,
    n: int,
)
    requires
        model.wf(),
        model.next_id + detections.len() <= u64::MAX,
        listable(unit, model, detections, now),
        0 <= n <= detections.len(),
    ensures
        ({
            let matching = frame_matching(unit, model, detections, now);
            let result = introduced(matching, model.next_id, now, n);
            &&& result.next_id == model.next_id + newcomers(unit, model, detections, now, n)
            &&& 0 <= newcomers(unit, model, detections, now, n) <= n
            &&& result.detections.len() == detections.len()
            &&& forall|d: int|
                0 <= d < n && !inherits(unit, model, detections, now, d) ==> (
                #[trigger] result.detections[d]).id == model.next_id + newcomers(
                    unit,
                    model,
                    detections,
                    now,
                    d,
                )
        }),
    decreases n,
{
    lemma_frame_matching(unit, model, detections, now);
    if n > 0 {
        lemma_newcomers(unit, model, detections, now, n - 1);
    }
}

/// Detections that take over no identity get the next ones, counting up in the
/// order of the frame; the others keep one that was given before, to a living
/// track of their kind.
pub proof fn newcomers_are_numbered_in_order<F: Fn(Operation) -> Scalar>(
    unit: F,
    model: TrackerModel,
    detections: Seq<Detection>,
    now: u128,
)
    requires
        model.wf(),
        model.next_id + detections.len() <= u64::MAX,
        listable(unit, model, detections, now),
    ensures
        ({
            let result = assignment(unit, model, detections, now);
            &&& result.next_id == model.next_id + newcomers(
                unit,
                model,
                detections,
                now,
                detections.len() as int,
            )
            &&& forall|d: int|
                0 <= d < detections.len() ==> if inherits(unit, model, detections, now, d) {
                    known(
                        survivors(model, now),
                        (#[trigger] result.detections[d]).id,
                        detections[d].kind,
                    ) && result.detections[d].id < model.next_id
                } else {
                    result.detections[d].id == model.next_id + newcomers(
                        unit,
                        model,
                        detections,
                        now,
                        d,
                    )
                }
        }),
{
    let tracks = survivors(model, now);
    let matching = frame_matching(unit, model, detections, now);
    let result = assignment(unit, model, detections, now);
    lemma_newcomers(unit, model, detections, now, detections.len() as int);
    lemma_frame_matching(unit, model, detections, now);
    lemma_introduced(matching, model.next_id, now, detections.len() as int);
    lemma_survivors_are_older(model, now);
    assert forall|d: int|
        0 <= d < detections.len() && inherits(unit, model, detections, now, d) implies known(
        tracks,
        (#[trigger] result.detections[d]).id,
        detections[d].kind,
    ) && result.detections[d].id < model.next_id by {
        lemma_partner(tracks, detections, matching, now, d);
    }
}

/// The identity was given, and no track has it any more.
pub open spec fn gone(model: TrackerModel, id: u64) -> bool {
    &&& 1 <= id < model.next_id
    &&& forall|t: int| 0 <= t < model.tracks.len() ==> (#[trigger] model.tracks[t]).id != id
}

/// An identity whose track is gone is given to no detection of the next frame, and
/// stays gone: whatever frames follow, it never comes back.
pub proof fn gone_identities_stay_gone<F: Fn(Operation) -> Scalar>(
    unit: F,
    model: TrackerModel,
    detections: Seq<Detection>,
    now: u128,
    id: u64,
)
    requires
        model.wf(),
        model.next_id + detections.len() <= u64::MAX,
        listable(unit, model, detections, now),
        gone(model, id),
    ensures
        ({
            let result = assignment(unit, model, detections, now);
            &&& gone(TrackerModel { next_id: result.next_id, tracks: result.tracks }, id)
            &&& forall|d: int|
                0 <= d < detections.len() ==> (#[trigger] result.detections[d]).id != id
        }),
{
    let tracks = survivors(model, now);
    let matching = frame_matching(unit, model, detections, now);
    let result = assignment(unit, model, detections, now);
    lemma_kept(model.tracks, now, model.tracks.len() as int);
    lemma_frame_matching(unit, model, detections, now);
    lemma_introduced(matching, model.next_id, now, detections.len() as int);
    identities_stay_apart(unit, model, detections, now);
    assert forall|t: int| 0 <= t < result.tracks.len() implies (#[trigger] result.tracks[t]).id
        != id by {
        if t < tracks.len() {
            assert(matching.tracks[t].id == tracks[t].id);
            let all = model.tracks.take(model.tracks.len() as int);
            let k = choose|k: int| 0 <= k < all.len() && all[k] == tracks[t];
            assert(model.tracks[k].id != id);
        }
    }
    assert forall|d: int| 0 <= d < detections.len() implies (#[trigger] result.detections[d]).id
        != id by {
        assert(is_held(result.tracks, result.detections, now, d));
        let t = choose|t: int| #[trigger] holds(result.tracks, result.detections, now, t, d);
        assert(result.tracks[t].id != id);
    }
}

/// Assigning changes only identities, and gives each detection of a frame one
/// of its own. Every identity given is held by a track that shows the
/// detection as it is now. Tracked identities stay apart, and the next one
/// stays larger than all of them.
#[verifier::rlimit(60)]
pub proof fn identities_stay_apart<F: Fn(Operation) -> Scalar>(
    unit: F,
    model: TrackerModel,
    detections: Seq<Detection>,
    now: u128,
)
    requires
        model.wf(),
        model.next_id + detections.len() <= u64::MAX,
        listable(unit, model, detections, now),
    ensures
        ({
            let result = assignment(unit, model, detections, now);
            let after = TrackerModel { next_id: result.next_id, tracks: result.tracks };
            &&& after.wf()
            &&& model.next_id <= after.next_id
            &&& alike(detections, result.detections)
            &&& told_apart(after, result.detections, now)
        }),
{
    let tracks = survivors(model, now);
    let matching = frame_matching(unit, model, detections, now);
    let result = assignment(unit, model, detections, now);
    lemma_kept(model.tracks, now, model.tracks.len() as int);
    lemma_frame_matching(unit, model, detections, now);
    lemma_introduced(matching, model.next_id, now, detections.len() as int);
    lemma_survivors_are_older(model, now);
    assert forall|d: int| 0 <= d < detections.len() implies #[trigger] is_held(
        result.tracks,
        result.detections,
        now,
        d,
    ) by {
        if matching.detection_used[d] {
            lemma_partner(tracks, detections, matching, now, d);
            let t = choose|t: int|
                0 <= t < tracks.len() && #[trigger] holds(
                    matching.tracks,
                    matching.detections,
                    now,
                    t,
                    d,
                );
            assert(holds(result.tracks, result.detections, now, t, d));
        }
    }
    assert forall|c: int, d: int| 0 <= c < d < detections.len() implies (
    #[trigger] result.detections[c]).id != (#[trigger] result.detections[d]).id by {
        if matching.detection_used[c] {
            lemma_partner(tracks, detections, matching, now, c);
        }
        if matching.detection_used[d] {
            lemma_partner(tracks, detections, matching, now, d);
        }
    }
    assert forall|i: int| 0 <= i < result.tracks.len() implies 1 <= (#[trigger] result.tracks[i]).id
        < result.next_id by {
        if i < tracks.len() {
            assert(matching.tracks[i].id == tracks[i].id);
        }
    }
    assert forall|d: int| 0 <= d < detections.len() implies 1 <= (#[trigger] result.detections[d]).id
        < result.next_id by {
        assert(is_held(result.tracks, result.detections, now, d));
        let t = choose|t: int| #[trigger] holds(result.tracks, result.detections, now, t, d);
        assert(1 <= result.tracks[t].id < result.next_id);
    }
    only_identities_change(unit, model, detections, now);
    assert forall|i: int, j: int| 0 <= i < j < result.tracks.len() implies (
    #[trigger] result.tracks[i]).id != (#[trigger] result.tracks[j]).id by {
        if i < tracks.len() {
            assert(matching.tracks[i].id == tracks[i].id);
        }
        if j < tracks.len() {
            assert(matching.tracks[j].id == tracks[j].id);
        }
    }
}

proof fn lemma_survivors_are_older(model: TrackerModel, now: u128)
    requires
        model.wf(),
    ensures
        forall|t: int|
            0 <= t < survivors(model, now).len() ==> 1 <= (#[trigger] survivors(model, now)[t]).id
                < model.next_id,
{
    lemma_kept(model.tracks, now, model.tracks.len() as int);
    assert forall|t: int| 0 <= t < survivors(model, now).len() implies 1 <= (
    #[trigger] survivors(model, now)[t]).id < model.next_id by {
        let all = model.tracks.take(model.tracks.len() as int);
        let k = choose|k: int| 0 <= k < all.len() && all[k] == survivors(model, now)[t];
        assert(model.tracks[k].id < model.next_id);
    }
}

/// A matched detection has the identity of a track of its kind.
proof fn lemma_partner(
    tracks: Seq<IdentityTrack>,
    detections: Seq<Detection>,
    matching: Matching,
    now: u128,
    d: int,
)
    requires
        sound(unmatched(tracks, detections), matching, now),
        0 <= d < detections.len(),
        matching.detection_used[d],
    ensures
        exists|t: int|
            {
                &&& 0 <= t < tracks.len()
                &&& #[trigger] holds(matching.tracks, matching.detections, now, t, d)
                &&& tracks[t].id == matching.detections[d].id
                &&& tracks[t].detection.kind == detections[d].kind
            },
{
    let start = unmatched(tracks, detections);
    let t = choose|t: int|
        {
            &&& #[trigger] holds(matching.tracks, matching.detections, now, t, d)
            &&& matching.track_used[t]
            &&& start.tracks[t].detection.kind == start.detections[d].kind
        };
    assert(holds(matching.tracks, matching.detections, now, t, d));
    assert(matching.tracks[t].id == start.tracks[t].id);
}

/// The identity belongs to one of the tracks, and that track is of this kind.
pub open spec fn known(tracks: Seq<IdentityTrack>, id: u64, kind: DetectionKind) -> bool {
    exists|t: int|
        0 <= t < tracks.len() && (#[trigger] tracks[t]).id == id && tracks[t].detection.kind == kind
}

/// A detection keeps an identity only of its own kind and only of a living
/// track; any other identity it is given was never given before. An identity
/// that was lost is therefore never given again.
pub proof fn lost_identities_stay_lost<F: Fn(Operation) -> Scalar>(
    unit: F,
    model: TrackerModel,
    detections: Seq<Detection>,
    now: u128,
)
    requires
        model.wf(),
        model.next_id + detections.len() <= u64::MAX,
        listable(unit, model, detections, now),
    ensures
        ({
            let result = assignment(unit, model, detections, now);
            &&& forall|d: int|
                0 <= d < detections.len() ==> known(
                    survivors(model, now),
                    (#[trigger] result.detections[d]).id,
                    detections[d].kind,
                ) || model.next_id <= result.detections[d].id
            &&& forall|t: int, d: int|
                0 <= t < model.tracks.len() && !alive(#[trigger] model.tracks[t], now) && 0 <= d
                    < detections.len() ==> (#[trigger] result.detections[d]).id
                    != model.tracks[t].id
        }),
{
    let tracks = survivors(model, now);
    let matching = frame_matching(unit, model, detections, now);
    let result = assignment(unit, model, detections, now);
    lemma_kept(model.tracks, now, model.tracks.len() as int);
    lemma_frame_matching(unit, model, detections, now);
    lemma_introduced(matching, model.next_id, now, detections.len() as int);
    assert forall|d: int| 0 <= d < detections.len() implies known(
        tracks,
        (#[trigger] result.detections[d]).id,
        detections[d].kind,
    ) || model.next_id <= result.detections[d].id by {
        if matching.detection_used[d] {
            lemma_partner(tracks, detections, matching, now, d);
        }
    }
    assert forall|t: int, d: int|
        0 <= t < model.tracks.len() && !alive(#[trigger] model.tracks[t], now) && 0 <= d
            < detections.len() implies (#[trigger] result.detections[d]).id
        != model.tracks[t].id by {
        let id = result.detections[d].id;
        if known(tracks, id, detections[d].kind) {
            let s = choose|s: int|
                0 <= s < tracks.len() && (#[trigger] tracks[s]).id == id && tracks[s].detection.kind
                    == detections[d].kind;
            let all = model.tracks.take(model.tracks.len() as int);
            let k = choose|k: int| 0 <= k < all.len() && all[k] == tracks[s];
            assert(model.tracks[k] == tracks[s]);
            assert(k != t);
            if k < t {
                assert(model.tracks[k].id != model.tracks[t].id);
            } else {
                assert(model.tracks[t].id != model.tracks[k].id);
            }
        }
    }
}

/// Where a living track and a detection may be the same, the track's identity
/// goes on to some detection, or the detection gets the identity of some living
/// track of its kind.
pub proof fn likely_matches_are_made<F: Fn(Operation) -> Scalar>(
    unit: F,
    model: TrackerModel,
    detections: Seq<Detection>,
    now: u128,
    t: int,
    d: int,
)
    requires
        model.wf(),
        model.next_id + detections.len() <= u64::MAX,
        listable(unit, model, detections, now),
        0 <= t < survivors(model, now).len(),
        0 <= d < detections.len(),
        match_cost(unit, survivors(model, now)[t].detection, detections[d]) is Some,
    ensures
        known(
            survivors(model, now),
            assignment(unit, model, detections, now).detections[d].id,
            detections[d].kind,
        ) || exists|e: int|
            0 <= e < detections.len() && (#[trigger] assignment(
                unit,
                model,
                detections,
                now,
            ).detections[e]).id == survivors(model, now)[t].id,
{
    let tracks = survivors(model, now);
    let matching = frame_matching(unit, model, detections, now);
    let result = assignment(unit, model, detections, now);
    lemma_frame_matching(unit, model, detections, now);
    lemma_introduced(matching, model.next_id, now, detections.len() as int);
    if matching.detection_used[d] {
        lemma_partner(tracks, detections, matching, now, d);
        assert(result.detections[d] == matching.detections[d]);
    } else {
        assert(matching.track_used[t]);
        let e = choose|e: int|
            0 <= e < detections.len() && matching.detection_used[e] && (
            #[trigger] matching.detections[e]).id == tracks[t].id;
        assert(result.detections[e].id == tracks[t].id);
    }
}

/// A lone target that reappears in time, within reach, keeps its identity.
pub proof fn identity_survives_occlusion<F: Fn(Operation) -> Scalar>(
    unit: F,
    model: TrackerModel,
    detection: Detection,
    now: u128,
)
    requires
        model.wf(),
        model.next_id < u64::MAX,
        model.tracks.len() == 1,
        alive(model.tracks[0], now),
        match_cost(unit, model.tracks[0].detection, detection) is Some,
    ensures
        assignment(unit, model, seq![detection], now).detections == seq![
            (Detection { id: model.tracks[0].id, ..detection }),
        ],
        assignment(unit, model, seq![detection], now).next_id == model.next_id,
{
    let detections = seq![detection];
    let tracks = survivors(model, now);
    reveal_with_fuel(kept, 2);
    assert(tracks =~= model.tracks);
    lemma_all_candidates(unit, tracks, detections, 1);
    let matching = frame_matching(unit, model, detections, now);
    let result = assignment(unit, model, detections, now);
    lemma_frame_matching(unit, model, detections, now);
    lemma_introduced(matching, model.next_id, now, 1);
    identities_stay_apart(unit, model, detections, now);
    assert(matching.track_used[0] || matching.detection_used[0]);
    if !matching.detection_used[0] {
        let e = choose|e: int|
            0 <= e < detections.len() && matching.detection_used[e] && (
            #[trigger] matching.detections[e]).id == tracks[0].id;
        assert(false);
    }
    lemma_partner(tracks, detections, matching, now, 0);
    assert(result.detections[0] == matching.detections[0]);
    reveal_with_fuel(introduced, 2);
    assert(result.detections =~= seq![(Detection { id: model.tracks[0].id, ..detection })]);
}

/// A track and a detection may be the same exactly when they are of one kind and
/// not both farther apart than the target may move and hardly overlapping. How
/// unlike they are is their distance in reaches, of at least a pixel, and 0.35 of
/// the overlap that they lack.
pub proof fn candidates_are_near_or_overlap<F: Fn(Operation) -> Scalar>(
    unit: F,
    track: Detection,
    detection: Detection,
)
    ensures
        match_cost(unit, track, detection) is Some <==> {
            &&& track.kind == detection.kind
            &&& !reach(unit, track, detection).less(separation(unit, track, detection)) || !iou(
                unit,
                track,
                detection,
            ).less(Scalar { bits: 0x3D4C_CCCD })
        },
        match_cost(unit, track, detection) matches Some(cost) ==> exists|far: Scalar, lacking: Scalar|
            {
                &&& cost == #[trigger] plus(unit, far, lacking)
                &&& far == over(
                    unit,
                    separation(unit, track, detection),
                    reach(unit, track, detection).larger(Scalar { bits: 0x3F80_0000 }),
                )
                &&& lacking == times(
                    unit,
                    minus(unit, Scalar { bits: 0x3F80_0000 }, iou(unit, track, detection)),
                    Scalar { bits: 0x3EB3_3333 },
                )
            },
{
}

/// A target may move by one and a quarter of the longer diagonal, a person by at
/// least 100 pixels and a face by at least 60.
pub proof fn targets_reach_beyond_their_boxes<F: Fn(Operation) -> Scalar>(
    unit: F,
    track: Detection,
    detection: Detection,
    least: Scalar,
)
    requires
        stands_for(
            least,
            match detection.kind {
                DetectionKind::Person => 100int,
                DetectionKind::Face => 60,
            },
        ),
    ensures
        ({
            let far = reach(unit, track, detection);
            let longer = diagonal(unit, track).larger(diagonal(unit, detection));
            let grown = fused_of(
                unit,
                longer,
                Scalar { bits: 0x3FA0_0000 },
                Scalar { bits: 0 },
            );
            &&& !far.nan()
            &&& least.less_equal(far)
            &&& !far.less(grown)
            &&& far.same_number(least) || far == grown
        }),
{
    lemma2_to64();
    patterns_denote_whole_numbers(PERSON_REACH, 100, 17);
    patterns_denote_whole_numbers(FACE_REACH, 60, 18);
    let number: int = match detection.kind {
        DetectionKind::Person => 100,
        DetectionKind::Face => 60,
    };
    let pattern = Scalar {
        bits: match detection.kind {
            DetectionKind::Person => PERSON_REACH,
            DetectionKind::Face => FACE_REACH,
        },
    };
    order_is_numeric(least, pattern);
}

/// The tracks that are looked at are those that were seen in the last three
/// seconds.
pub proof fn survivors_were_seen_lately(model: TrackerModel, now: u128, track: IdentityTrack)
    requires
        model.wf(),
    ensures
        survivors(model, now).contains(track) <==> model.tracks.contains(track) && now
            - track.last_seen <= 3_000_000_000,
{
    let tracks = survivors(model, now);
    lemma_kept(model.tracks, now, model.tracks.len() as int);
    let all = model.tracks.take(model.tracks.len() as int);
    assert(all =~= model.tracks);
    if tracks.contains(track) {
        let i = choose|i: int| 0 <= i < tracks.len() && tracks[i] == track;
        assert(alive(tracks[i], now));
    }
    if model.tracks.contains(track) && now - track.last_seen <= 3_000_000_000 {
        let k = choose|k: int| 0 <= k < model.tracks.len() && model.tracks[k] == track;
        assert(alive(model.tracks[k], now));
    }
}

/// A lone target that was seen in the last three seconds keeps its identity when
/// something of its kind, whatever that is, appears no farther away than it may
/// have moved.
pub proof fn lone_target_keeps_its_identity<F: Fn(Operation) -> Scalar>(
    unit: F,
    model: TrackerModel,
    detection: Detection,
    now: u128,
)
    requires
        model.wf(),
        model.next_id < u64::MAX,
        model.tracks.len() == 1,
        now - model.tracks[0].last_seen <= 3_000_000_000,
        detection.kind == model.tracks[0].detection.kind,
        separation(unit, model.tracks[0].detection, detection).less_equal(
            reach(unit, model.tracks[0].detection, detection),
        ),
    ensures
        assignment(unit, model, seq![detection], now).detections == seq![
            (Detection { id: model.tracks[0].id, ..detection }),
        ],
        assignment(unit, model, seq![detection], now).tracks == seq![
            (IdentityTrack {
                id: model.tracks[0].id,
                detection: Detection { id: model.tracks[0].id, ..detection },
                last_seen: now,
            }),
        ],
        assignment(unit, model, seq![detection], now).next_id == model.next_id,
{
    let detections = seq![detection];
    identity_survives_occlusion(unit, model, detection, now);
    let result = assignment(unit, model, detections, now);
    reveal_with_fuel(kept, 2);
    assert(survivors(model, now) =~= model.tracks);
    lemma_all_candidates(unit, model.tracks, detections, 1);
    let matching = frame_matching(unit, model, detections, now);
    lemma_frame_matching(unit, model, detections, now);
    lemma_introduced(matching, model.next_id, now, 1);
    identities_stay_apart(unit, model, detections, now);
    assert(is_held(result.tracks, result.detections, now, 0));
    let t = choose|t: int| #[trigger] holds(result.tracks, result.detections, now, t, 0);
    reveal_with_fuel(introduced, 2);
    assert(matching.tracks.len() == 1);
    assert(result.tracks.len() == 1);
    assert(result.tracks =~= seq![result.tracks[0]]);
}

proof fn lemma_candidate_costs<F: Fn(Operation) -> Scalar>(
    unit: F,
    tracks: Seq<IdentityTrack>,
    track: int,
    detections: Seq<Detection>,
    n: int,
)
    requires
        0 <= track < tracks.len() <= usize::MAX,
        0 <= n <= detections.len() <= usize::MAX,
    ensures
        forall|i: int|
            0 <= i < track_candidates(unit, tracks, track, detections, n).len() ==> {
                let candidate = #[trigger] track_candidates(unit, tracks, track, detections, n)[i];
                &&& candidate.track == track
                &&& candidate.detection < n
                &&& match_cost(
                    unit,
                    tracks[track].detection,
                    detections[candidate.detection as int],
                ) == Some(candidate.cost)
            },
    decreases n,
{
    if n > 0 {
        lemma_candidate_costs(unit, tracks, track, detections, n - 1);
    }
}

proof fn lemma_all_costs<F: Fn(Operation) -> Scalar>(
    unit: F,
    tracks: Seq<IdentityTrack>,
    detections: Seq<Detection>,
    n: int,
)
    requires
        0 <= n <= tracks.len() <= usize::MAX,
        detections.len() <= usize::MAX,
    ensures
        forall|i: int|
            0 <= i < all_candidates(unit, tracks, detections, n).len() ==> {
                let candidate = #[trigger] all_candidates(unit, tracks, detections, n)[i];
                &&& candidate.track < n
                &&& candidate.detection < detections.len()
                &&& match_cost(
                    unit,
                    tracks[candidate.track as int].detection,
                    detections[candidate.detection as int],
                ) == Some(candidate.cost)
            },
    decreases n,
{
    if n > 0 {
        lemma_all_costs(unit, tracks, detections, n - 1);
        lemma_candidate_costs(unit, tracks, n - 1, detections, detections.len() as int);
    }
}

/// Candidate `i` and those behind it: the costs do not fall.
spec fn sorted_by_cost(candidates: Seq<Candidate>) -> bool {
    forall|i: int, j: int|
        0 <= i < j < candidates.len() ==> (#[trigger] candidates[i]).cost.total_rank() <= (
        #[trigger] candidates[j]).cost.total_rank()
}

/// No candidate that shares the track or the detection is as likely.
spec fn unrivalled(candidates: Seq<Candidate>, t: int, d: int, rank: int) -> bool {
    &&& forall|i: int|
        0 <= i < candidates.len() && ((#[trigger] candidates[i]).track == t
            || candidates[i].detection == d) && !pairs(candidates, t, d, i) ==> rank
            < candidates[i].cost.total_rank()
    &&& forall|i: int|
        #[trigger] pairs(candidates, t, d, i) ==> candidates[i].cost.total_rank() == rank
}

#[verifier::rlimit(60)]
proof fn lemma_likeliest(
    start: Matching,
    candidates: Seq<Candidate>,
    now: u128,
    t: int,
    d: int,
    rank: int,
    at: int,
    n: int,
)
    requires
        0 <= n <= candidates.len(),
        start == unmatched(start.tracks, start.detections),
        in_bounds(candidates, start.tracks.len() as int, start.detections.len() as int),
        sorted_by_cost(candidates),
        unrivalled(candidates, t, d, rank),
        pairs(candidates, t, d, at),
        0 <= t < start.tracks.len(),
        0 <= d < start.detections.len(),
    ensures
        ({
            let matching = matched(start, candidates, now, n);
            &&& matching.tracks.len() == matching.track_used.len() == start.tracks.len()
            &&& matching.detections.len() == matching.detection_used.len()
                == start.detections.len()
            &&& if at < n {
                matching.track_used[t] && matching.detection_used[d] && matching.detections[d].id
                    == start.tracks[t].id
            } else {
                (matching.track_used[t] && matching.detection_used[d] && matching.detections[d].id
                    == start.tracks[t].id) || (!matching.track_used[t]
                    && !matching.detection_used[d] && matching.tracks[t].id == start.tracks[t].id)
            }
        }),
    decreases n,
{
    if n > 0 {
        lemma_likeliest(start, candidates, now, t, d, rank, at, n - 1);
        let earlier = matched(start, candidates, now, n - 1);
        let candidate = candidates[n - 1];
        assert(candidate.track < start.tracks.len());
        if !pairs(candidates, t, d, n - 1) && at >= n && (candidate.track == t
            || candidate.detection == d) {
            assert(candidates[n - 1].cost.total_rank() <= candidates[at].cost.total_rank());
        }
    }
}

/// Where a living track and a detection are likelier to be the same than either is
/// to be the same as anything else, the detection gets the track's identity.
#[verifier::rlimit(60)]
pub proof fn likeliest_pair_is_joined<F: Fn(Operation) -> Scalar>(
    unit: F,
    model: TrackerModel,
    detections: Seq<Detection>,
    now: u128,
    t: int,
    d: int,
    cost: Scalar,
)
    requires
        model.wf(),
        model.next_id + detections.len() <= u64::MAX,
        listable(unit, model, detections, now),
        0 <= t < survivors(model, now).len(),
        0 <= d < detections.len(),
        match_cost(unit, survivors(model, now)[t].detection, detections[d]) == Some(cost),
        forall|s: int, e: int|
            0 <= s < survivors(model, now).len() && 0 <= e < detections.len() && (s == t) != (e
                == d) ==> (#[trigger] match_cost(
                unit,
                survivors(model, now)[s].detection,
                detections[e],
            ) matches Some(other) ==> cost.total_rank() < other.total_rank()),
    ensures
        assignment(unit, model, detections, now).detections[d].id == survivors(model, now)[t].id,
{
    let tracks = survivors(model, now);
    lemma_kept_is_shorter(model.tracks, now, model.tracks.len() as int);
    let unsorted = all_candidates(unit, tracks, detections, tracks.len() as int);
    lemma_all_candidates(unit, tracks, detections, tracks.len() as int);
    lemma_all_costs(unit, tracks, detections, tracks.len() as int);
    lemma_by_cost(unsorted);
    lemma_candidates_in_bounds(unit, model, detections, now);
    let candidates = by_cost(unsorted);
    let keys = cost_keys(unsorted);
    order_exists(keys);
    let order = sorted_order(keys);
    assert forall|i: int, j: int| 0 <= i < j < candidates.len() implies (
    #[trigger] candidates[i]).cost.total_rank() <= (
    #[trigger] candidates[j]).cost.total_rank() by {
        assert(precedes(keys, order[i] as int, order[j] as int));
    }
    assert forall|i: int| 0 <= i < candidates.len() implies match_cost(
        unit,
        tracks[(#[trigger] candidates[i]).track as int].detection,
        detections[candidates[i].detection as int],
    ) == Some(candidates[i].cost) && candidates[i].track < tracks.len() && candidates[i].detection
        < detections.len() by {
        let k = choose|k: int| 0 <= k < unsorted.len() && unsorted[k] == candidates[i];
        assert(unsorted[k].track < tracks.len());
    }
    let k = choose|k: int| pairs(unsorted, t, d, k);
    let at = choose|i: int| pairs(candidates, t, d, i);
    assert(unrivalled(candidates, t, d, cost.total_rank())) by {
        assert forall|i: int|
            0 <= i < candidates.len() && ((#[trigger] candidates[i]).track == t
                || candidates[i].detection == d) && !pairs(
                candidates,
                t,
                d,
                i,
            ) implies cost.total_rank() < candidates[i].cost.total_rank() by {
            let s = candidates[i].track as int;
            let e = candidates[i].detection as int;
            assert((s == t) != (e == d));
            assert(match_cost(unit, tracks[s].detection, detections[e]) is Some);
        }
        assert forall|i: int| #[trigger] pairs(
            candidates,
            t,
            d,
            i,
        ) implies candidates[i].cost.total_rank() == cost.total_rank() by {
            assert(match_cost(
                unit,
                tracks[candidates[i].track as int].detection,
                detections[candidates[i].detection as int],
            ) == Some(candidates[i].cost));
        }
    }
    lemma_likeliest(
        unmatched(tracks, detections),
        candidates,
        now,
        t,
        d,
        cost.total_rank(),
        at,
        candidates.len() as int,
    );
    lemma_frame_matching(unit, model, detections, now);
    lemma_introduced(
        frame_matching(unit, model, detections, now),
        model.next_id,
        now,
        detections.len() as int,
    );
}

/// Candidate `k` was taken: its detection has the identity of its track.
spec fn taken(start: Matching, matching: Matching, candidates: Seq<Candidate>, k: int) -> bool {
    let t = candidates[k].track as int;
    let d = candidates[k].detection as int;
    &&& matching.track_used[t]
    &&& matching.detection_used[d]
    &&& matching.detections[d].id == start.tracks[t].id
}

/// Candidate `k` has the track or the detection of candidate `i`.
spec fn rivals(candidates: Seq<Candidate>, k: int, i: int) -> bool {
    candidates[k].track == candidates[i].track || candidates[k].detection == candidates[i].detection
}

/// Candidate `i`, or one before it that has its track or its detection, was taken.
spec fn answered(start: Matching, matching: Matching, candidates: Seq<Candidate>, i: int) -> bool {
    exists|k: int|
        0 <= k <= i && #[trigger] rivals(candidates, k, i) && taken(start, matching, candidates, k)
}

#[verifier::rlimit(60)]
proof fn lemma_first_come(start: Matching, candidates: Seq<Candidate>, now: u128, n: int)
    requires
        0 <= n <= candidates.len(),
        start == unmatched(start.tracks, start.detections),
        in_bounds(candidates, start.tracks.len() as int, start.detections.len() as int),
    ensures
        ({
            let matching = matched(start, candidates, now, n);
            &&& matching.tracks.len() == matching.track_used.len() == start.tracks.len()
            &&& matching.detections.len() == matching.detection_used.len()
                == start.detections.len()
            &&& forall|t: int|
                0 <= t < start.tracks.len() ==> (#[trigger] matching.tracks[t]).id
                    == start.tracks[t].id && (!matching.track_used[t] ==> matching.tracks[t]
                    == start.tracks[t])
            &&& forall|d: int|
                0 <= d < start.detections.len() && #[trigger] matching.detection_used[d]
                    ==> exists|k: int|
                    0 <= k < n && (#[trigger] candidates[k]).detection == d && taken(
                        start,
                        matching,
                        candidates,
                        k,
                    )
            &&& forall|t: int|
                0 <= t < start.tracks.len() && #[trigger] matching.track_used[t]
                    ==> exists|k: int|
                    0 <= k < n && (#[trigger] candidates[k]).track == t && taken(
                        start,
                        matching,
                        candidates,
                        k,
                    )
            &&& forall|i: int|
                0 <= i < n ==> #[trigger] answered(start, matching, candidates, i)
        }),
    decreases n,
{
    if n > 0 {
        lemma_first_come(start, candidates, now, n - 1);
        let earlier = matched(start, candidates, now, n - 1);
        let later = matched(start, candidates, now, n);
        let t = candidates[n - 1].track as int;
        let d = candidates[n - 1].detection as int;
        assert(t < start.tracks.len() && d < start.detections.len());
        if earlier.track_used[t] {
            let k = choose|k: int|
                0 <= k < n - 1 && (#[trigger] candidates[k]).track == t && taken(
                    start,
                    earlier,
                    candidates,
                    k,
                );
            assert(rivals(candidates, k, n - 1));
            assert(answered(start, later, candidates, n - 1));
        } else if earlier.detection_used[d] {
            let k = choose|k: int|
                0 <= k < n - 1 && (#[trigger] candidates[k]).detection == d && taken(
                    start,
                    earlier,
                    candidates,
                    k,
                );
            assert(rivals(candidates, k, n - 1));
            assert(answered(start, later, candidates, n - 1));
        } else {
            lemma_one_taken(start, earlier, candidates, now, n);
        }
    }
}

/// What is taken stays so when a candidate is taken whose track and detection are free.
#[verifier::rlimit(60)]
proof fn lemma_one_taken(
    start: Matching,
    earlier: Matching,
    candidates: Seq<Candidate>,
    now: u128,
    n: int,
)
    requires
        0 < n <= candidates.len(),
        in_bounds(candidates, start.tracks.len() as int, start.detections.len() as int),
        earlier.tracks.len() == earlier.track_used.len() == start.tracks.len(),
        earlier.detections.len() == earlier.detection_used.len() == start.detections.len(),
        candidates[n - 1].track < start.tracks.len(),
        candidates[n - 1].detection < start.detections.len(),
        !earlier.track_used[candidates[n - 1].track as int],
        !earlier.detection_used[candidates[n - 1].detection as int],
        earlier.tracks[candidates[n - 1].track as int].id
            == start.tracks[candidates[n - 1].track as int].id,
    ensures
        ({
            let t = candidates[n - 1].track as int;
            let d = candidates[n - 1].detection as int;
            let later = joined(earlier, t, d, now);
            &&& forall|e: int|
                0 <= e < start.detections.len() && #[trigger] later.detection_used[e] && (e == d
                    || exists|k: int|
                    0 <= k < n - 1 && (#[trigger] candidates[k]).detection == e && taken(
                        start,
                        earlier,
                        candidates,
                        k,
                    )) ==> exists|k: int|
                    0 <= k < n && (#[trigger] candidates[k]).detection == e && taken(
                        start,
                        later,
                        candidates,
                        k,
                    )
            &&& forall|s: int|
                0 <= s < start.tracks.len() && #[trigger] later.track_used[s] && (s == t
                    || exists|k: int|
                    0 <= k < n - 1 && (#[trigger] candidates[k]).track == s && taken(
                        start,
                        earlier,
                        candidates,
                        k,
                    )) ==> exists|k: int|
                    0 <= k < n && (#[trigger] candidates[k]).track == s && taken(
                        start,
                        later,
                        candidates,
                        k,
                    )
            &&& forall|i: int|
                0 <= i < n && (i == n - 1 || answered(start, earlier, candidates, i))
                    ==> #[trigger] answered(start, later, candidates, i)
        }),
{
    let t = candidates[n - 1].track as int;
    let d = candidates[n - 1].detection as int;
    let later = joined(earlier, t, d, now);
    assert forall|k: int|
        0 <= k < n - 1 && taken(start, earlier, candidates, k) implies #[trigger] taken(
        start,
        later,
        candidates,
        k,
    ) by {
        assert(candidates[k].track < start.tracks.len());
    }
    assert(taken(start, later, candidates, n - 1));
    assert(rivals(candidates, n - 1, n - 1));
    assert forall|i: int|
        0 <= i < n && (i == n - 1 || answered(start, earlier, candidates, i)) implies #[trigger] answered(
        start,
        later,
        candidates,
        i,
    ) by {
        if i < n - 1 {
            let k = choose|k: int|
                0 <= k <= i && #[trigger] rivals(candidates, k, i) && taken(
                    start,
                    earlier,
                    candidates,
                    k,
                );
            assert(taken(start, later, candidates, k));
        }
    }
}

/// The pair comes before the other in the order of the tracks, and in that of the
/// detections where the track is one.
pub open spec fn comes_before(t: int, d: int, other_t: int, other_d: int) -> bool {
    t < other_t || (t == other_t && d < other_d)
}

spec fn in_turn(candidates: Seq<Candidate>) -> bool {
    forall|i: int, j: int|
        0 <= i < j < candidates.len() ==> comes_before(
            (#[trigger] candidates[i]).track as int,
            candidates[i].detection as int,
            (#[trigger] candidates[j]).track as int,
            candidates[j].detection as int,
        )
}

proof fn lemma_track_in_turn<F: Fn(Operation) -> Scalar>(
    unit: F,
    tracks: Seq<IdentityTrack>,
    track: int,
    detections: Seq<Detection>,
    n: int,
)
    requires
        0 <= track < tracks.len() <= usize::MAX,
        0 <= n <= detections.len() <= usize::MAX,
    ensures
        in_turn(track_candidates(unit, tracks, track, detections, n)),
    decreases n,
{
    if n > 0 {
        lemma_track_in_turn(unit, tracks, track, detections, n - 1);
        lemma_track_candidates(unit, tracks, track, detections, n - 1);
    }
}

proof fn lemma_all_in_turn<F: Fn(Operation) -> Scalar>(
    unit: F,
    tracks: Seq<IdentityTrack>,
    detections: Seq<Detection>,
    n: int,
)
    requires
        0 <= n <= tracks.len() <= usize::MAX,
        detections.len() <= usize::MAX,
    ensures
        in_turn(all_candidates(unit, tracks, detections, n)),
    decreases n,
{
    if n > 0 {
        lemma_all_in_turn(unit, tracks, detections, n - 1);
        lemma_all_candidates(unit, tracks, detections, n - 1);
        lemma_track_in_turn(unit, tracks, n - 1, detections, detections.len() as int);
        lemma_track_candidates(unit, tracks, n - 1, detections, detections.len() as int);
        let earlier = all_candidates(unit, tracks, detections, n - 1);
        let added = track_candidates(unit, tracks, n - 1, detections, detections.len() as int);
        let later = all_candidates(unit, tracks, detections, n);
        assert forall|i: int, j: int| 0 <= i < j < later.len() implies comes_before(
            (#[trigger] later[i]).track as int,
            later[i].detection as int,
            (#[trigger] later[j]).track as int,
            later[j].detection as int,
        ) by {
            if i >= earlier.len() {
                assert(later[i] == added[i - earlier.len()]);
                assert(later[j] == added[j - earlier.len()]);
            } else if j >= earlier.len() {
                assert(later[i] == earlier[i]);
                assert(later[j] == added[j - earlier.len()]);
            } else {
                assert(later[i] == earlier[i]);
                assert(later[j] == earlier[j]);
            }
        }
    }
}

/// Candidate `i` and those behind it: likelier ones come first, and of those that are
/// as likely the one whose turn is first.
spec fn sorted_by_turn(candidates: Seq<Candidate>) -> bool {
    forall|i: int, j: int|
        0 <= i < j < candidates.len() ==> likelier(#[trigger] candidates[i], #[trigger] candidates[j])
}

spec fn likelier(left: Candidate, right: Candidate) -> bool {
    ||| left.cost.total_rank() < right.cost.total_rank()
    ||| {
        &&& left.cost.total_rank() == right.cost.total_rank()
        &&& comes_before(
            left.track as int,
            left.detection as int,
            right.track as int,
            right.detection as int,
        )
    }
}

/// What holds of the candidates of a frame: each is a match of that cost, every match
/// is one, and the likeliest come first.
spec fn lists_matches<F: Fn(Operation) -> Scalar>(
    unit: F,
    tracks: Seq<IdentityTrack>,
    detections: Seq<Detection>,
    candidates: Seq<Candidate>,
) -> bool {
    &&& in_bounds(candidates, tracks.len() as int, detections.len() as int)
    &&& sorted_by_turn(candidates)
    &&& forall|i: int|
        0 <= i < candidates.len() ==> match_cost(
            unit,
            tracks[(#[trigger] candidates[i]).track as int].detection,
            detections[candidates[i].detection as int],
        ) == Some(candidates[i].cost)
    &&& forall|t: int, d: int|
        0 <= t < tracks.len() && 0 <= d < detections.len() && (#[trigger] match_cost(
            unit,
            tracks[t].detection,
            detections[d],
        )) is Some ==> exists|i: int| #[trigger] pairs(candidates, t, d, i)
}

#[verifier::rlimit(60)]
proof fn lemma_lists_matches<F: Fn(Operation) -> Scalar>(
    unit: F,
    model: TrackerModel,
    detections: Seq<Detection>,
    now: u128,
)
    requires
        model.wf(),
        listable(unit, model, detections, now),
    ensures
        ({
            let tracks = survivors(model, now);
            lists_matches(
                unit,
                tracks,
                detections,
                by_cost(all_candidates(unit, tracks, detections, tracks.len() as int)),
            )
        }),
{
    let tracks = survivors(model, now);
    lemma_kept_is_shorter(model.tracks, now, model.tracks.len() as int);
    let unsorted = all_candidates(unit, tracks, detections, tracks.len() as int);
    lemma_all_candidates(unit, tracks, detections, tracks.len() as int);
    lemma_all_costs(unit, tracks, detections, tracks.len() as int);
    lemma_by_cost(unsorted);
    lemma_candidates_in_bounds(unit, model, detections, now);
    let candidates = by_cost(unsorted);
    let keys = cost_keys(unsorted);
    order_exists(keys);
    let order = sorted_order(keys);
    lemma_all_in_turn(unit, tracks, detections, tracks.len() as int);
    assert forall|i: int, j: int| 0 <= i < j < candidates.len() implies likelier(
        #[trigger] candidates[i],
        #[trigger] candidates[j],
    ) by {
        assert(precedes(keys, order[i] as int, order[j] as int));
        assert(candidates[i] == unsorted[order[i] as int]);
        assert(candidates[j] == unsorted[order[j] as int]);
    }
    assert forall|i: int| 0 <= i < candidates.len() implies match_cost(
        unit,
        tracks[(#[trigger] candidates[i]).track as int].detection,
        detections[candidates[i].detection as int],
    ) == Some(candidates[i].cost) by {
        let k = choose|k: int| 0 <= k < unsorted.len() && unsorted[k] == candidates[i];
        assert(unsorted[k].track < tracks.len());
    }
    assert forall|t: int, d: int|
        0 <= t < tracks.len() && 0 <= d < detections.len() && (#[trigger] match_cost(
            unit,
            tracks[t].detection,
            detections[d],
        )) is Some implies exists|i: int| #[trigger] pairs(candidates, t, d, i) by {
        let k = choose|k: int| pairs(unsorted, t, d, k);
    }
}

/// Detection `d` goes on with the identity of track `t`.
pub open spec fn goes_on(
    tracks: Seq<IdentityTrack>,
    detections: Seq<Detection>,
    t: int,
    d: int,
) -> bool {
    &&& 0 <= t < tracks.len()
    &&& 0 <= d < detections.len()
    &&& detections[d].id == tracks[t].id
}

/// An identity goes on only to a detection that may be the same. A living track that
/// no detection goes on with stays as it was, with the time at which it was seen.
/// Where a track and a detection may be the same but do not go on together, one of
/// them goes on with something likelier, or as likely and first in turn.
#[verifier::rlimit(60)]
pub proof fn identities_follow_the_likeliest<F: Fn(Operation) -> Scalar>(
    unit: F,
    model: TrackerModel,
    detections: Seq<Detection>,
    now: u128,
)
    requires
        model.wf(),
        model.next_id + detections.len() <= u64::MAX,
        listable(unit, model, detections, now),
    ensures
        ({
            let result = assignment(unit, model, detections, now);
            let tracks = survivors(model, now);
            &&& forall|t: int, d: int| #[trigger]
                goes_on(tracks, result.detections, t, d) ==> match_cost(
                    unit,
                    tracks[t].detection,
                    detections[d],
                ) is Some
            &&& tracks.len() <= result.tracks.len()
            &&& forall|t: int|
                0 <= t < tracks.len() && (forall|d: int|
                    !#[trigger] goes_on(tracks, result.detections, t, d))
                    ==> #[trigger] result.tracks[t] == tracks[t]
            &&& forall|t: int, d: int|
                0 <= t < tracks.len() && 0 <= d < detections.len() ==> ((#[trigger] match_cost(
                    unit,
                    tracks[t].detection,
                    detections[d],
                )) matches Some(cost) ==> exists|s: int, e: int|
                    {
                        &&& #[trigger] goes_on(tracks, result.detections, s, e)
                        &&& s == t || e == d
                        &&& match_cost(
                            unit,
                            tracks[s].detection,
                            detections[e],
                        ) matches Some(better)
                        &&& better.total_rank() < cost.total_rank() || (better.total_rank()
                            == cost.total_rank() && !comes_before(t, d, s, e))
                    })
        }),
{
    let tracks = survivors(model, now);
    let start = unmatched(tracks, detections);
    let candidates = by_cost(all_candidates(unit, tracks, detections, tracks.len() as int));
    let matching = frame_matching(unit, model, detections, now);
    let result = assignment(unit, model, detections, now);
    lemma_lists_matches(unit, model, detections, now);
    lemma_first_come(start, candidates, now, candidates.len() as int);
    lemma_kept(model.tracks, now, model.tracks.len() as int);
    lemma_survivors_are_older(model, now);
    lemma_introduced(matching, model.next_id, now, detections.len() as int);
    assert forall|k: int|
        0 <= k < candidates.len() && #[trigger] taken(start, matching, candidates, k) implies goes_on(
        tracks,
        result.detections,
        candidates[k].track as int,
        candidates[k].detection as int,
    ) by {
        assert(candidates[k].track < tracks.len());
        assert(matching.detection_used[candidates[k].detection as int]);
    }
    assert forall|t: int, d: int| #[trigger]
        goes_on(tracks, result.detections, t, d) implies match_cost(
        unit,
        tracks[t].detection,
        detections[d],
    ) is Some by {
        assert(tracks[t].id < model.next_id);
        if matching.detection_used[d] {
            let k = choose|k: int|
                0 <= k < candidates.len() && (#[trigger] candidates[k]).detection == d && taken(
                    start,
                    matching,
                    candidates,
                    k,
                );
            assert(result.detections[d] == matching.detections[d]);
            assert(tracks[candidates[k].track as int].id == tracks[t].id);
            assert(candidates[k].track == t);
        }
    }
    assert forall|t: int|
        0 <= t < tracks.len() && (forall|d: int|
            !#[trigger] goes_on(tracks, result.detections, t, d)) implies #[trigger] result.tracks[t]
        == tracks[t] by {
        if matching.track_used[t] {
            let k = choose|k: int|
                0 <= k < candidates.len() && (#[trigger] candidates[k]).track == t && taken(
                    start,
                    matching,
                    candidates,
                    k,
                );
            assert(goes_on(tracks, result.detections, t, candidates[k].detection as int));
        }
        assert(matching.tracks[t] == tracks[t]);
    }
    assert forall|t: int, d: int|
        0 <= t < tracks.len() && 0 <= d < detections.len() && (#[trigger] match_cost(
            unit,
            tracks[t].detection,
            detections[d],
        )) is Some implies exists|s: int, e: int|
        {
            &&& #[trigger] goes_on(tracks, result.detections, s, e)
            &&& s == t || e == d
            &&& match_cost(unit, tracks[s].detection, detections[e]) matches Some(better)
            &&& ({
                let rank = match_cost(
                    unit,
                    tracks[t].detection,
                    detections[d],
                )->Some_0.total_rank();
                better.total_rank() < rank || (better.total_rank() == rank && !comes_before(
                    t,
                    d,
                    s,
                    e,
                ))
            })
        } by {
        let i = choose|i: int| pairs(candidates, t, d, i);
        assert(answered(start, matching, candidates, i));
        let k = choose|k: int|
            0 <= k <= i && #[trigger] rivals(candidates, k, i) && taken(
                start,
                matching,
                candidates,
                k,
            );
        if k < i {
            assert(likelier(candidates[k], candidates[i]));
        }
        assert(goes_on(
            tracks,
            result.detections,
            candidates[k].track as int,
            candidates[k].detection as int,
        ));
    }
}

/// The tracks that are looked at are the living ones, in their order.
pub proof fn survivors_keep_their_order(model: TrackerModel, now: u128)
    ensures
        survivors(model, now) == model.tracks.filter(
            |track: IdentityTrack| now - track.last_seen <= 3_000_000_000,
        ),
{
    lemma_kept_is_filtered(model.tracks, now, model.tracks.len() as int);
    assert(model.tracks.take(model.tracks.len() as int) == model.tracks);
}

proof fn lemma_kept_is_filtered(tracks: Seq<IdentityTrack>, now: u128, n: int)
    requires
        0 <= n <= tracks.len(),
    ensures
        kept(tracks, now, n) == tracks.take(n).filter(
            |track: IdentityTrack| now - track.last_seen <= 3_000_000_000,
        ),
    decreases n,
{
    reveal(Seq::filter);
    if n > 0 {
        lemma_kept_is_filtered(tracks, now, n - 1);
        assert(tracks.take(n).drop_last() == tracks.take(n - 1));
        assert(tracks.take(n).last() == tracks[n - 1]);
    }
}

} // verus!
