//! The target that the operator selected, through sightings and losses.

use crate::arithmetic::{computes, fused, fused_of, Operation};
use crate::camera::grid::stands_for;
use crate::clock::{elapsed, elapsed_spec};
use crate::scalar::{order_is_numeric, Scalar, ZERO};
use crate::vision::detection::{
    detection_diagonal, detection_separation, diagonal, separation, Detection, DetectionKind,
};
use crate::whole::patterns_denote_whole_numbers;
use vstd::arithmetic::power2::lemma2_to64;
use vstd::prelude::*;

verus! {

/// Time without a sighting after which a target counts as lost, in nanoseconds.
pub const TARGET_LOST_TIMEOUT: u128 = 750_000_000;

/// How long a reacquired target is shown as such, in nanoseconds.
pub const REACQUIRED_DISPLAY_TIME: u128 = 750_000_000;

/// Bit pattern of 0.45, the reach of a face in diagonals.
pub const FACE_REACH_FACTOR: u32 = 0x3EE6_6666;

/// Bit pattern of 0.75, the reach of a person in diagonals.
pub const PERSON_REACH_FACTOR: u32 = 0x3F40_0000;

/// Bit pattern of 60, the least reach of a face.
pub const FACE_REACH: u32 = 0x4270_0000;

/// Bit pattern of 80, the least reach of a person.
pub const PERSON_REACH: u32 = 0x42A0_0000;

#[derive(Copy, Clone, Debug, Eq, PartialEq, Structural)]
pub enum TrackingState {
    Locked,
    Following,
    Searching,
    Lost,
    Reacquired,
}

impl TrackingState {
    pub fn label(self) -> (r: &'static str)
        ensures
            r@ == (match self {
                TrackingState::Locked => "LOCKED"@,
                TrackingState::Following => "FOLLOWING"@,
                TrackingState::Searching => "SEARCHING"@,
                TrackingState::Lost => "LOST"@,
                TrackingState::Reacquired => "REACQUIRED"@,
            }),
    {
        match self {
            TrackingState::Locked => "LOCKED",
            TrackingState::Following => "FOLLOWING",
            TrackingState::Searching => "SEARCHING",
            TrackingState::Lost => "LOST",
            TrackingState::Reacquired => "REACQUIRED",
        }
    }
}

/// A selected target and what became of it.
#[derive(Copy, Clone, Debug)]
pub struct SelectedTarget {
    pub detection: Detection,
    pub visible: bool,
    pub state: TrackingState,
    pub missing_since: Option<u128>,
    pub reacquired_at: Option<u128>,
}

/// The detection has the target's kind and identity.
pub open spec fn identified(target: Detection, detection: Detection) -> bool {
    detection.kind == target.kind && detection.id == target.id
}

/// First of the `n` first detections with the target's kind and identity.
pub open spec fn first_identified(target: Detection, detections: Seq<Detection>, n: int) -> Option<int>
    decreases n,
{
    if n <= 0 {
        None
    } else {
        match first_identified(target, detections, n - 1) {
            Some(i) => Some(i),
            None => if identified(target, detections[n - 1]) {
                Some(n - 1)
            } else {
                None
            },
        }
    }
}

/// Nearest of the `n` first detections of the target's kind, and its distance;
/// the earliest where several are as near.
pub open spec fn nearest<F: Fn(Operation) -> Scalar>(
    unit: F,
    target: Detection,
    detections: Seq<Detection>,
    n: int,
) -> Option<(int, Scalar)>
    decreases n,
{
    if n <= 0 {
        None
    } else {
        let earlier = nearest(unit, target, detections, n - 1);
        let distance = separation(unit, target, detections[n - 1]);
        if detections[n - 1].kind != target.kind {
            earlier
        } else {
            match earlier {
                Some(best) => if distance.less(best.1) {
                    Some((n - 1, distance))
                } else {
                    earlier
                },
                None => Some((n - 1, distance)),
            }
        }
    }
}

/// How far the target may have moved.
pub open spec fn target_reach<F: Fn(Operation) -> Scalar>(unit: F, target: Detection) -> Scalar {
    let (factor, least) = match target.kind {
        DetectionKind::Face => (FACE_REACH_FACTOR, FACE_REACH),
        DetectionKind::Person => (PERSON_REACH_FACTOR, PERSON_REACH),
    };
    fused_of(
        unit,
        diagonal(unit, target),
        Scalar { bits: factor },
        Scalar { bits: ZERO },
    ).larger(Scalar { bits: least })
}

/// The detection that shows the target: the one with its identity, else the
/// nearest of its kind within reach.
pub open spec fn sighting<F: Fn(Operation) -> Scalar>(
    unit: F,
    target: Detection,
    detections: Seq<Detection>,
) -> Option<Detection> {
    match first_identified(target, detections, detections.len() as int) {
        Some(i) => Some(detections[i]),
        None => match nearest(unit, target, detections, detections.len() as int) {
            Some(best) => if best.1.less_equal(target_reach(unit, target)) {
                Some(detections[best.0])
            } else {
                None
            },
            None => None,
        },
    }
}

impl SelectedTarget {
    /// The state agrees with what the target remembers.
    pub open spec fn wf(self) -> bool {
        &&& self.visible <==> self.missing_since is None
        &&& self.visible <==> (self.state is Locked || self.state is Following
            || self.state is Reacquired)
        &&& self.state is Reacquired <==> self.reacquired_at is Some
    }

    /// What a sighting makes of the target.
    pub open spec fn seen(self, detection: Detection, tracking_enabled: bool, now: u128) -> SelectedTarget {
        let shown = SelectedTarget {
            detection,
            visible: true,
            missing_since: None,
            ..self
        };
        let steady = if tracking_enabled {
            TrackingState::Following
        } else {
            TrackingState::Locked
        };
        if !self.visible {
            SelectedTarget { state: TrackingState::Reacquired, reacquired_at: Some(now), ..shown }
        } else if self.state is Reacquired {
            match self.reacquired_at {
                Some(since) if elapsed_spec(now, since) < REACQUIRED_DISPLAY_TIME => shown,
                _ => SelectedTarget { state: steady, reacquired_at: None, ..shown },
            }
        } else {
            SelectedTarget { state: steady, ..shown }
        }
    }

    /// What its absence makes of the target.
    pub open spec fn missed(self, now: u128) -> SelectedTarget {
        let since = match self.missing_since {
            Some(since) if !self.visible => since,
            _ => now,
        };
        SelectedTarget {
            visible: false,
            missing_since: Some(since),
            reacquired_at: None,
            state: if elapsed_spec(now, since) >= TARGET_LOST_TIMEOUT {
                TrackingState::Lost
            } else {
                TrackingState::Searching
            },
            ..self
        }
    }

    /// What a frame makes of the target.
    pub open spec fn refreshed<F: Fn(Operation) -> Scalar>(
        self,
        unit: F,
        detections: Seq<Detection>,
        tracking_enabled: bool,
        now: u128,
    ) -> SelectedTarget {
        match sighting(unit, self.detection, detections) {
            Some(detection) => self.seen(detection, tracking_enabled, now),
            None => self.missed(now),
        }
    }

    /// Selects a detection.
    pub fn new(detection: Detection) -> (r: SelectedTarget)
        ensures
            r == (SelectedTarget {
                detection,
                visible: true,
                state: TrackingState::Locked,
                missing_since: None,
                reacquired_at: None,
            }),
            r.wf(),
    {
        SelectedTarget {
            detection,
            visible: true,
            state: TrackingState::Locked,
            missing_since: None,
            reacquired_at: None,
        }
    }

    pub fn state(&self) -> (r: TrackingState)
        ensures
            r == self.state,
    {
        self.state
    }

    /// Looks for the target in a frame that is shown at `now`.
    pub fn refresh<F: Fn(Operation) -> Scalar>(
        &mut self,
        detections: &Vec<Detection>,
        tracking_enabled: bool,
        now: u128,
        unit: &F,
    )
        requires
            computes(*unit),
        ensures
            *final(self) == old(self).refreshed(*unit, detections@, tracking_enabled, now),
            old(self).wf() ==> final(self).wf(),
    {
        self.refresh_at(detections, tracking_enabled, now, unit);
    }

    /// Looks for the target among the detections of one moment.
    pub fn refresh_at<F: Fn(Operation) -> Scalar>(
        &mut self,
        detections: &Vec<Detection>,
        tracking_enabled: bool,
        now: u128,
        unit: &F,
    )
        requires
            computes(*unit),
        ensures
            *final(self) == old(self).refreshed(*unit, detections@, tracking_enabled, now),
            old(self).wf() ==> final(self).wf(),
    {
        match self.matching_detection(detections, unit) {
            Some(detection) => {
                let was_visible = self.visible;
                self.detection = detection;
                self.visible = true;
                self.missing_since = None;
                if !was_visible {
                    self.state = TrackingState::Reacquired;
                    self.reacquired_at = Some(now);
                    return;
                }
                if self.state == TrackingState::Reacquired {
                    if let Some(since) = self.reacquired_at {
                        if elapsed(now, since) < REACQUIRED_DISPLAY_TIME {
                            return;
                        }
                    }
                    self.reacquired_at = None;
                }
                self.state = if tracking_enabled {
                    TrackingState::Following
                } else {
                    TrackingState::Locked
                };
            },
            None => {
                if self.visible {
                    self.missing_since = Some(now);
                }
                self.visible = false;
                self.reacquired_at = None;
                let since: u128 = match self.missing_since {
                    Some(since) => since,
                    None => now,
                };
                self.missing_since = Some(since);
                self.state = if elapsed(now, since) >= TARGET_LOST_TIMEOUT {
                    TrackingState::Lost
                } else {
                    TrackingState::Searching
                };
            },
        }
    }

    fn matching_detection<F: Fn(Operation) -> Scalar>(
        &self,
        detections: &Vec<Detection>,
        unit: &F,
    ) -> (r: Option<Detection>)
        requires
            computes(*unit),
        ensures
            r == sighting(*unit, self.detection, detections@),
    {
        let target = self.detection;
        let count: usize = detections.len();
        let mut i: usize = 0;
        while i < count
            invariant
                i <= count == detections@.len(),
                target == self.detection,
                first_identified(target, detections@, i as int) is None,
            decreases count - i,
        {
            if detections[i].kind == target.kind && detections[i].id == target.id {
                proof {
                    lemma_first_found(target, detections@, i as int, count as int);
                }
                return Some(detections[i]);
            }
            i += 1;
        }
        let (factor, least): (u32, u32) = match target.kind {
            DetectionKind::Face => (FACE_REACH_FACTOR, FACE_REACH),
            DetectionKind::Person => (PERSON_REACH_FACTOR, PERSON_REACH),
        };
        let limit = fused(
            unit,
            detection_diagonal(&target, unit),
            Scalar::from_bits(factor),
            Scalar::from_bits(ZERO),
        ).max(Scalar::from_bits(least));
        let mut best: Option<(usize, Scalar)> = None;
        i = 0;
        while i < count
            invariant
                computes(*unit),
                i <= count == detections@.len(),
                best matches Some(found) ==> found.0 < i,
                (match best {
                    Some(found) => nearest(*unit, target, detections@, i as int) == Some(
                        (found.0 as int, found.1),
                    ),
                    None => nearest(*unit, target, detections@, i as int) is None,
                }),
            decreases count - i,
        {
            if detections[i].kind == target.kind {
                let distance = detection_separation(&target, &detections[i], unit);
                let closer = match best {
                    Some(found) => distance.below(found.1),
                    None => true,
                };
                if closer {
                    best = Some((i, distance));
                }
            }
            i += 1;
        }
        match best {
            Some(found) => if found.1.at_most(limit) {
                Some(detections[found.0])
            } else {
                None
            },
            None => None,
        }
    }
}

proof fn lemma_first_found(target: Detection, detections: Seq<Detection>, i: int, n: int)
    requires
        0 <= i < n,
        first_identified(target, detections, i) is None,
        identified(target, detections[i]),
    ensures
        first_identified(target, detections, n) == Some(i),
    decreases n,
{
    if n > i + 1 {
        lemma_first_found(target, detections, i, n - 1);
    }
}

proof fn lemma_first_identified(target: Detection, detections: Seq<Detection>, n: int)
    requires
        0 <= n <= detections.len(),
    ensures
        first_identified(target, detections, n) matches Some(i) ==> 0 <= i < n && identified(
            target,
            detections[i],
        ),
        first_identified(target, detections, n) is None ==> forall|i: int|
            0 <= i < n ==> !identified(target, #[trigger] detections[i]),
    decreases n,
{
    if n > 0 {
        lemma_first_identified(target, detections, n - 1);
    }
}

proof fn lemma_nearest<F: Fn(Operation) -> Scalar>(
    unit: F,
    target: Detection,
    detections: Seq<Detection>,
    n: int,
)
    requires
        0 <= n <= detections.len(),
    ensures
        nearest(unit, target, detections, n) matches Some(best) ==> {
            &&& 0 <= best.0 < n
            &&& detections[best.0].kind == target.kind
            &&& best.1 == separation(unit, target, detections[best.0])
        },
        nearest(unit, target, detections, n) is None ==> forall|i: int|
            0 <= i < n ==> (#[trigger] detections[i]).kind != target.kind,
    decreases n,
{
    if n > 0 {
        lemma_nearest(unit, target, detections, n - 1);
    }
}

/// What is taken for the target is one of the detections and of its kind. A
/// detection with its identity is never passed over, and without one only what
/// lies within reach is taken.
pub proof fn target_keeps_its_kind<F: Fn(Operation) -> Scalar>(
    unit: F,
    target: Detection,
    detections: Seq<Detection>,
)
    ensures
        sighting(unit, target, detections) matches Some(found) ==> {
            &&& detections.contains(found)
            &&& found.kind == target.kind
            &&& found.id == target.id || separation(unit, target, found).less_equal(
                target_reach(unit, target),
            )
        },
        (exists|i: int| 0 <= i < detections.len() && identified(target, #[trigger] detections[i]))
            ==> (sighting(unit, target, detections) matches Some(found) && found.id == target.id),
        (forall|i: int| 0 <= i < detections.len() ==> (#[trigger] detections[i]).kind != target.kind)
            ==> sighting(unit, target, detections) is None,
{
    lemma_first_identified(target, detections, detections.len() as int);
    lemma_nearest(unit, target, detections, detections.len() as int);
}

/// A target that is missed at `first` and at `second`, and was visible before,
/// is lost once the timeout has passed between the two, and searched for until
/// then.
pub proof fn missing_target_is_lost_in_time(target: SelectedTarget, first: u128, second: u128)
    requires
        target.visible,
    ensures
        target.missed(first).state is Searching,
        target.missed(first).missed(second).state is Lost <==> elapsed_spec(second, first)
            >= TARGET_LOST_TIMEOUT,
        target.missed(first).missed(second).state is Searching <==> elapsed_spec(second, first)
            < TARGET_LOST_TIMEOUT,
        !target.missed(first).missed(second).visible,
        target.missed(first).missed(second).detection == target.detection,
{
}

/// A target that was missing and is seen at `first` is shown as reacquired. Seen
/// again at `second`, it is still shown so while the display time lasts, and
/// goes back to being followed or locked after that.
pub proof fn reacquired_target_settles(
    target: SelectedTarget,
    detection: Detection,
    again: Detection,
    tracking_enabled: bool,
    first: u128,
    second: u128,
)
    requires
        !target.visible,
    ensures
        target.seen(detection, tracking_enabled, first).state is Reacquired,
        target.seen(detection, tracking_enabled, first).visible,
        target.seen(detection, tracking_enabled, first).seen(again, tracking_enabled, second).state
            == (if elapsed_spec(second, first) < REACQUIRED_DISPLAY_TIME {
            TrackingState::Reacquired
        } else if tracking_enabled {
            TrackingState::Following
        } else {
            TrackingState::Locked
        }),
{
}

proof fn lemma_none_nearer<F: Fn(Operation) -> Scalar>(
    unit: F,
    target: Detection,
    detections: Seq<Detection>,
    n: int,
)
    requires
        0 <= n <= detections.len(),
    ensures
        nearest(unit, target, detections, n) matches Some(best) ==> forall|i: int|
            0 <= i < n && (#[trigger] detections[i]).kind == target.kind ==> !separation(
                unit,
                target,
                detections[i],
            ).less(best.1) && (i < best.0 ==> !separation(unit, target, detections[i]).same_number(
                best.1,
            )),
    decreases n,
{
    if n > 0 {
        lemma_none_nearer(unit, target, detections, n - 1);
        lemma_nearest(unit, target, detections, n - 1);
    }
}

/// Of the detections of the target's kind none is nearer than the one that is found
/// nearest, and none before it is as near.
pub proof fn nothing_is_nearer<F: Fn(Operation) -> Scalar>(
    unit: F,
    target: Detection,
    detections: Seq<Detection>,
)
    ensures
        match nearest(unit, target, detections, detections.len() as int) {
            Some(best) => {
                &&& 0 <= best.0 < detections.len()
                &&& detections[best.0].kind == target.kind
                &&& best.1 == separation(unit, target, detections[best.0])
                &&& forall|i: int|
                    0 <= i < detections.len() && (#[trigger] detections[i]).kind == target.kind ==> {
                        let distance = separation(unit, target, detections[i]);
                        !distance.less(best.1) && (i < best.0 ==> !distance.same_number(best.1))
                    }
            },
            None => forall|i: int|
                0 <= i < detections.len() ==> (#[trigger] detections[i]).kind != target.kind,
        },
{
    lemma_nearest(unit, target, detections, detections.len() as int);
    lemma_none_nearer(unit, target, detections, detections.len() as int);
}

/// Where no detection has the target's identity but one of its kind lies within
/// reach, the target is seen: in a detection of its kind, within reach, that none of
/// its kind is nearer than.
pub proof fn target_within_reach_is_seen<F: Fn(Operation) -> Scalar>(
    unit: F,
    target: Detection,
    detections: Seq<Detection>,
    near: int,
)
    requires
        forall|i: int|
            0 <= i < detections.len() && (#[trigger] detections[i]).kind == target.kind
                ==> detections[i].id != target.id && !separation(
                unit,
                target,
                detections[i],
            ).nan(),
        0 <= near < detections.len(),
        detections[near].kind == target.kind,
        separation(unit, target, detections[near]).less_equal(target_reach(unit, target)),
    ensures
        ({
            &&& sighting(unit, target, detections) matches Some(found)
            &&& detections.contains(found)
            &&& found.kind == target.kind
            &&& separation(unit, target, found).less_equal(target_reach(unit, target))
            &&& forall|i: int|
                0 <= i < detections.len() && (#[trigger] detections[i]).kind == target.kind
                    ==> separation(unit, target, found).less_equal(
                    separation(unit, target, detections[i]),
                )
        }),
{
    nothing_is_nearer(unit, target, detections);
    lemma_first_identified(target, detections, detections.len() as int);
    assert(first_identified(target, detections, detections.len() as int) is None) by {
        if let Some(i) = first_identified(target, detections, detections.len() as int) {
            assert(detections[i].id != target.id);
        }
    }
    let best = nearest(unit, target, detections, detections.len() as int)->Some_0;
    assert(!separation(unit, target, detections[near]).less(best.1));
    assert(!separation(unit, target, detections[best.0]).nan());
}

/// Where detections have the target's kind and identity, the first of them is it.
pub proof fn first_of_its_identity_is_seen<F: Fn(Operation) -> Scalar>(
    unit: F,
    target: Detection,
    detections: Seq<Detection>,
    i: int,
)
    requires
        0 <= i < detections.len(),
        detections[i].kind == target.kind,
        detections[i].id == target.id,
        forall|j: int|
            0 <= j < i ==> (#[trigger] detections[j]).kind != target.kind || detections[j].id
                != target.id,
    ensures
        sighting(unit, target, detections) == Some(detections[i]),
{
    lemma_first_identified(target, detections, i);
    if let Some(j) = first_identified(target, detections, i) {
        assert(identified(target, detections[j]));
    }
    lemma_first_found(target, detections, i, detections.len() as int);
}

/// A face may have moved by 0.45 of its diagonal and at least 60 pixels, a person by
/// 0.75 of it and at least 80.
pub proof fn reach_depends_on_the_kind<F: Fn(Operation) -> Scalar>(
    unit: F,
    target: Detection,
    least: Scalar,
)
    requires
        stands_for(
            least,
            match target.kind {
                DetectionKind::Person => 80int,
                DetectionKind::Face => 60,
            },
        ),
    ensures
        ({
            let far = target_reach(unit, target);
            let factor = match target.kind {
                DetectionKind::Person => Scalar { bits: 0x3F40_0000 },
                DetectionKind::Face => Scalar { bits: 0x3EE6_6666 },
            };
            let grown = fused_of(unit, diagonal(unit, target), factor, Scalar { bits: 0 });
            &&& !far.nan()
            &&& least.less_equal(far)
            &&& !far.less(grown)
            &&& far.same_number(least) || far == grown
        }),
{
    lemma2_to64();
    patterns_denote_whole_numbers(PERSON_REACH, 80, 17);
    patterns_denote_whole_numbers(FACE_REACH, 60, 18);
    let pattern = Scalar {
        bits: match target.kind {
            DetectionKind::Person => PERSON_REACH,
            DetectionKind::Face => FACE_REACH,
        },
    };
    order_is_numeric(least, pattern);
}

/// A frame shows the target or it does not. One that does is where the target now
/// is, and one that does not leaves it where it was. A target that comes back is
/// reacquired, and stays so for three quarters of a second; one that was there is
/// followed where tracking is on and locked where it is off. A missing target is
/// searched for, and lost three quarters of a second after it was first missed.
pub proof fn frames_decide_what_becomes_of_the_target<F: Fn(Operation) -> Scalar>(
    unit: F,
    target: SelectedTarget,
    detections: Seq<Detection>,
    tracking_enabled: bool,
    now: u128,
)
    requires
        target.wf(),
    ensures
        ({
            let next = target.refreshed(unit, detections, tracking_enabled, now);
            let steady = if tracking_enabled {
                TrackingState::Following
            } else {
                TrackingState::Locked
            };
            match sighting(unit, target.detection, detections) {
                Some(found) => {
                    &&& next.visible
                    &&& next.detection == found
                    &&& next.missing_since is None
                    &&& !target.visible ==> next.state is Reacquired && next.reacquired_at == Some(
                        now,
                    )
                    &&& target.visible && target.reacquired_at is None ==> next.state == steady
                    &&& (target.reacquired_at matches Some(since) ==> if now - since < 750_000_000 {
                        next.state is Reacquired && next.reacquired_at == Some(since)
                    } else {
                        next.state == steady && next.reacquired_at is None
                    })
                },
                None => {
                    &&& !next.visible
                    &&& next.detection == target.detection
                    &&& next.reacquired_at is None
                    &&& target.visible ==> next.state is Searching && next.missing_since == Some(
                        now,
                    )
                    &&& (target.missing_since matches Some(since) ==> {
                        &&& next.missing_since == Some(since)
                        &&& next.state == (if now - since >= 750_000_000 {
                            TrackingState::Lost
                        } else {
                            TrackingState::Searching
                        })
                    })
                },
            }
        }),
{
}

} // verus!
