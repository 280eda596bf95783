//! The console for trying out a camera's pan, tilt and zoom.

use crate::arithmetic::{computes, Operation};
use crate::camera::controls::{
    is_near, near, range_for_axis, snap_to_step, snapped, tolerance, tolerance_spec, Axis,
    ControlCapabilities, ControlRange, Controls,
};
use crate::camera::grid::{
    exact_on_whole_numbers, small, stands_for, whole_numbers_are_ordered,
};
use crate::camera::limits::nearness_is_a_distance;
use crate::camera::worker::MOVE_TIMEOUT;
use crate::clock::{elapsed, elapsed_spec};
use crate::scalar::{order_is_numeric, Scalar};
use crate::text::{split_words, views, words};
use vstd::arithmetic::power2::{lemma_pow2_pos, pow2};
use vstd::prelude::*;

verus! {

/// What a line asks for.
#[derive(Clone, Debug, PartialEq, Eq)]
pub enum ConsoleCommand {
    Nothing,
    Help,
    State,
    /// Set an axis to the number that the text spells.
    Aim(Axis, String),
    Center,
    Wide,
    Quit,
    Unknown,
}

/// The word that sets an axis.
pub open spec fn axis_word(word: Seq<char>) -> Option<Axis> {
    if word == "pan"@ {
        Some(Axis::Pan)
    } else if word == "tilt"@ {
        Some(Axis::Tilt)
    } else if word == "zoom"@ {
        Some(Axis::Zoom)
    } else {
        None
    }
}

/// `command` is what the words of a line ask for.
pub open spec fn means(words: Seq<Seq<char>>, command: ConsoleCommand) -> bool {
    if words.len() == 0 {
        command is Nothing
    } else if words.len() == 1 {
        if words[0] == "help"@ {
            command is Help
        } else if words[0] == "state"@ {
            command is State
        } else if words[0] == "center"@ {
            command is Center
        } else if words[0] == "wide"@ {
            command is Wide
        } else if words[0] == "quit"@ || words[0] == "exit"@ {
            command is Quit
        } else {
            command is Unknown
        }
    } else if words.len() == 2 {
        match axis_word(words[0]) {
            Some(axis) => command matches ConsoleCommand::Aim(set, text) && set == axis && text@
                == words[1],
            None => command is Unknown,
        }
    } else {
        command is Unknown
    }
}

fn is_word(word: &String, literal: &str) -> (r: bool)
    ensures
        r == (word@ == literal@),
{
    let literal = literal.to_owned();
    *word == literal
}

/// Understands the words of a line.
pub fn parse_words(words: &Vec<String>) -> (r: ConsoleCommand)
    ensures
        means(views(words@), r),
{
    proof {
        assert(views(words@).len() == words@.len());
        assert(forall|i: int| 0 <= i < words@.len() ==> views(words@)[i] == words@[i]@);
    }
    if words.len() == 0 {
        return ConsoleCommand::Nothing;
    }
    if words.len() == 1 {
        let word = &words[0];
        return if is_word(word, "help") {
            ConsoleCommand::Help
        } else if is_word(word, "state") {
            ConsoleCommand::State
        } else if is_word(word, "center") {
            ConsoleCommand::Center
        } else if is_word(word, "wide") {
            ConsoleCommand::Wide
        } else if is_word(word, "quit") || is_word(word, "exit") {
            ConsoleCommand::Quit
        } else {
            ConsoleCommand::Unknown
        };
    }
    if words.len() == 2 {
        let word = &words[0];
        let text = words[1].clone();
        if is_word(word, "pan") {
            return ConsoleCommand::Aim(Axis::Pan, text);
        }
        if is_word(word, "tilt") {
            return ConsoleCommand::Aim(Axis::Tilt, text);
        }
        if is_word(word, "zoom") {
            return ConsoleCommand::Aim(Axis::Zoom, text);
        }
    }
    ConsoleCommand::Unknown
}

/// Understands a line.
pub fn parse_line(line: &str) -> (r: ConsoleCommand)
    ensures
        means(words(line@), r),
{
    parse_words(&split_words(line))
}

/// What becomes of a value for an axis.
#[derive(Copy, Clone, Debug, PartialEq, Eq)]
pub enum Request {
    /// The camera has no such axis.
    Unsupported,
    /// The value lies outside the range.
    OutOfRange(ControlRange),
    /// Send the move, then wait for the target within the tolerance.
    Move { controls: Controls, target: Scalar, tolerance: Scalar },
}

/// The value lies below or above the range.
pub open spec fn outside(range: ControlRange, target: Scalar) -> bool {
    target.less(range.min) || range.max.less(target)
}

/// Decides on a value for an axis. A value outside the range is refused, not
/// moved into it.
pub fn set_axis<F: Fn(Operation) -> Scalar>(
    capabilities: &ControlCapabilities,
    axis: Axis,
    target: Scalar,
    unit: &F,
) -> (r: Request)
    requires
        computes(*unit),
        capabilities.range(axis) matches Some(range) ==> outside(range, target) || range.ordered(),
    ensures
        match capabilities.range(axis) {
            None => r is Unsupported,
            Some(range) => if outside(range, target) {
                r == Request::OutOfRange(range)
            } else {
                r == (Request::Move {
                    controls: Controls::single(axis, snapped(*unit, target, range)),
                    target: snapped(*unit, target, range),
                    tolerance: tolerance_spec(range),
                })
            },
        },
{
    match range_for_axis(capabilities, axis) {
        None => Request::Unsupported,
        Some(range) => {
            if target.below(range.min) || range.max.below(target) {
                return Request::OutOfRange(range);
            }
            let target = snap_to_step(target, range, unit);
            Request::Move {
                controls: Controls::on_axis(axis, target),
                target,
                tolerance: tolerance(range),
            }
        },
    }
}

/// Decides on returning zoom to its default.
pub fn set_zoom_default<F: Fn(Operation) -> Scalar>(
    capabilities: &ControlCapabilities,
    unit: &F,
) -> (r: Request)
    requires
        computes(*unit),
        capabilities.zoom matches Some(range) ==> outside(range, range.default) || range.ordered(),
    ensures
        match capabilities.zoom {
            None => r is Unsupported,
            Some(range) => if outside(range, range.default) {
                r == Request::OutOfRange(range)
            } else {
                r == (Request::Move {
                    controls: Controls::single(Axis::Zoom, snapped(*unit, range.default, range)),
                    target: snapped(*unit, range.default, range),
                    tolerance: tolerance_spec(range),
                })
            },
        },
{
    match capabilities.zoom {
        None => Request::Unsupported,
        Some(range) => {
            assert(capabilities.range(Axis::Zoom) == Some(range));
            set_axis(capabilities, Axis::Zoom, range.default, unit)
        },
    }
}

/// Waiting for one axis to arrive.
#[derive(Copy, Clone, Debug, PartialEq, Eq)]
pub struct AxisWait {
    pub axis: Axis,
    pub target: Scalar,
    pub tolerance: Scalar,
    pub started: u128,
    /// The position reported last.
    pub last_position: Option<Scalar>,
}

/// How the wait stands.
#[derive(Copy, Clone, Debug, PartialEq, Eq)]
pub enum Progress {
    /// The position can no longer be read.
    Unreadable,
    Reached(Scalar),
    TimedOut(Scalar),
    /// Look again after a pause.
    Moving,
}

impl AxisWait {
    pub fn new(axis: Axis, target: Scalar, tolerance: Scalar, now: u128) -> (r: AxisWait)
        ensures
            r == (AxisWait { axis, target, tolerance, started: now, last_position: None }),
    {
        AxisWait { axis, target, tolerance, started: now, last_position: None }
    }

    /// How the wait stands at a position.
    pub open spec fn progress<F: Fn(Operation) -> Scalar>(
        self,
        position: Option<Scalar>,
        now: u128,
        unit: F,
    ) -> Progress {
        match position {
            None => Progress::Unreadable,
            Some(at) => if near(unit, at, self.target, self.tolerance) {
                Progress::Reached(at)
            } else if elapsed_spec(now, self.started) >= MOVE_TIMEOUT {
                Progress::TimedOut(at)
            } else {
                Progress::Moving
            },
        }
    }

    /// The position differs from the one reported last.
    pub open spec fn news(self, position: Option<Scalar>) -> Option<Scalar> {
        match position {
            None => None,
            Some(at) => match self.last_position {
                Some(last) => if last.same_number(at) {
                    None
                } else {
                    Some(at)
                },
                None => Some(at),
            },
        }
    }

    /// Looks at the position that was read: gives the position to report, where
    /// it is news, and how the wait stands.
    pub fn poll<F: Fn(Operation) -> Scalar>(
        &mut self,
        controls: &Controls,
        now: u128,
        unit: &F,
    ) -> (r: (Option<Scalar>, Progress))
        requires
            computes(*unit),
        ensures
            r.0 == old(self).news(controls.get(old(self).axis)),
            r.1 == old(self).progress(controls.get(old(self).axis), now, *unit),
            *final(self) == (AxisWait {
                last_position: match r.0 {
                    Some(at) => Some(at),
                    None => old(self).last_position,
                },
                ..*old(self)
            }),
    {
        match controls.position(self.axis) {
            None => (None, Progress::Unreadable),
            Some(at) => {
                let known = match self.last_position {
                    Some(last) => last.equals(at),
                    None => false,
                };
                let news = if known {
                    None
                } else {
                    self.last_position = Some(at);
                    Some(at)
                };
                if is_near(at, self.target, self.tolerance, unit) {
                    (news, Progress::Reached(at))
                } else if elapsed(now, self.started) >= MOVE_TIMEOUT {
                    (news, Progress::TimedOut(at))
                } else {
                    (news, Progress::Moving)
                }
            },
        }
    }
}

/// What to wait for once pan and tilt were sent to their defaults: axis, target
/// and tolerance of every axis that the camera has, pan first.
pub open spec fn centering(capabilities: ControlCapabilities) -> Seq<(Axis, Scalar, Scalar)> {
    let pan = match capabilities.pan {
        Some(range) => seq![(Axis::Pan, range.default, tolerance_spec(range))],
        None => seq![],
    };
    let tilt = match capabilities.tilt {
        Some(range) => seq![(Axis::Tilt, range.default, tolerance_spec(range))],
        None => seq![],
    };
    pan + tilt
}

/// What to wait for once pan and tilt were sent to their defaults.
pub fn center_waits(capabilities: &ControlCapabilities) -> (r: Vec<(Axis, Scalar, Scalar)>)
    ensures
        r@ == centering(*capabilities),
{
    let mut r: Vec<(Axis, Scalar, Scalar)> = Vec::new();
    if let Some(range) = capabilities.pan {
        r.push((Axis::Pan, range.default, tolerance(range)));
    }
    if let Some(range) = capabilities.tilt {
        r.push((Axis::Tilt, range.default, tolerance(range)));
    }
    r
}

/// One word asks for what it says, an axis with a number aims that axis, and every
/// other line means nothing known.
pub proof fn lines_say_what_to_do(word: Seq<char>, number: Seq<char>, command: ConsoleCommand)
    ensures
        means(Seq::empty(), command) <==> command is Nothing,
        means(seq!["help"@], command) <==> command is Help,
        means(seq!["state"@], command) <==> command is State,
        means(seq!["center"@], command) <==> command is Center,
        means(seq!["wide"@], command) <==> command is Wide,
        means(seq!["quit"@], command) <==> command is Quit,
        means(seq!["exit"@], command) <==> command is Quit,
        word != "help"@ && word != "state"@ && word != "center"@ && word != "wide"@ && word
            != "quit"@ && word != "exit"@ ==> (means(seq![word], command) <==> command is Unknown),
        means(seq!["pan"@, number], command) <==> (command matches ConsoleCommand::Aim(axis, text)
            && axis is Pan && text@ == number),
        means(seq!["tilt"@, number], command) <==> (command matches ConsoleCommand::Aim(axis, text)
            && axis is Tilt && text@ == number),
        means(seq!["zoom"@, number], command) <==> (command matches ConsoleCommand::Aim(axis, text)
            && axis is Zoom && text@ == number),
        word != "pan"@ && word != "tilt"@ && word != "zoom"@ ==> (means(
            seq![word, number],
            command,
        ) <==> command is Unknown),
        forall|many: Seq<Seq<char>>|
            many.len() > 2 ==> (#[trigger] means(many, command) <==> command is Unknown),
{
    reveal_strlit("help");
    reveal_strlit("state");
    reveal_strlit("center");
    reveal_strlit("wide");
    reveal_strlit("quit");
    reveal_strlit("exit");
    reveal_strlit("pan");
    reveal_strlit("tilt");
    reveal_strlit("zoom");
    assert("help"@[0] == 'h');
    assert("state"@[0] == 's');
    assert("center"@[0] == 'c');
    assert("wide"@[0] == 'w');
    assert("quit"@[0] == 'q');
    assert("exit"@[0] == 'e');
    assert("pan"@[0] == 'p');
    assert("tilt"@[0] == 't');
    assert("zoom"@[0] == 'z');
}

/// A value lies outside a range when it is below its lower end or above its upper one.
pub proof fn values_outside_are_refused(
    range: ControlRange,
    target: Scalar,
    value: int,
    low: int,
    high: int,
)
    requires
        stands_for(range.min, low),
        stands_for(range.max, high),
        stands_for(target, value),
    ensures
        outside(range, target) <==> value < low || value > high,
{
    whole_numbers_are_ordered(target, range.min, value, low);
    whole_numbers_are_ordered(range.max, target, high, value);
}

/// A move is over when the axis is within the tolerance of its target; after five
/// seconds it is given up, and without a position there is nothing to wait for.
pub proof fn moves_arrive_or_are_given_up<F: Fn(Operation) -> Scalar>(
    unit: F,
    wait: AxisWait,
    at: Scalar,
    now: u128,
    value: int,
    goal: int,
    within: int,
)
    requires
        exact_on_whole_numbers(unit),
        stands_for(at, value),
        stands_for(wait.target, goal),
        stands_for(wait.tolerance, within),
        small(value),
        small(goal),
    ensures
        wait.progress(None, now, unit) is Unreadable,
        wait.progress(Some(at), now, unit) == if -within <= value - goal <= within {
            Progress::Reached(at)
        } else if now - wait.started >= 5_000_000_000 {
            Progress::TimedOut(at)
        } else {
            Progress::Moving
        },
{
    nearness_is_a_distance(unit, at, wait.target, wait.tolerance, value, goal, within);
}

/// A position is news when there was none before or it is another number.
pub proof fn news_are_other_positions(wait: AxisWait, at: Scalar, value: int, last: int)
    requires
        stands_for(at, value),
        wait.last_position matches Some(previous) ==> stands_for(previous, last),
    ensures
        wait.news(None) is None,
        wait.news(Some(at)) == if wait.last_position is Some && value == last {
            None
        } else {
            Some(at)
        },
{
    if let Some(previous) = wait.last_position {
        order_is_numeric(previous, at);
        lemma_pow2_pos(149);
        let quantum = pow2(149) as int;
        assert((value * quantum == last * quantum) == (value == last)) by (nonlinear_arith)
            requires
                0 < quantum,
        ;
    }
}

/// Centering waits for pan and then for tilt, each at its own default and within its
/// own tolerance; axes without a range are passed over.
pub proof fn centering_waits_for_pan_and_tilt(capabilities: ControlCapabilities)
    ensures
        ({
            let waits = centering(capabilities);
            &&& waits.len() == (if capabilities.pan is Some {
                1int
            } else {
                0
            }) + (if capabilities.tilt is Some {
                1int
            } else {
                0
            })
            &&& (capabilities.pan matches Some(range) ==> waits[0] == (
                Axis::Pan,
                range.default,
                tolerance_spec(range),
            ))
            &&& (capabilities.tilt matches Some(range) ==> waits.last() == (
                Axis::Tilt,
                range.default,
                tolerance_spec(range),
            ))
        }),
{
}

} // verus!
