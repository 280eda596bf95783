//! What the program does when it starts.

use crate::camera::probe::{eagleeye_name, find_eagleeye, first_candidate, Device};
use vstd::prelude::*;

verus! {

/// What the program goes on with.
#[derive(Copy, Clone, Debug, PartialEq, Eq, Structural)]
pub enum Startup {
    NoDevices,
    NoCandidate,
    /// Report what the camera can do.
    Probe(usize),
    /// Report what the camera can do, then run the console.
    Console(usize),
    /// Show the picture.
    Preview { index: usize, debug: bool },
}

/// The flag is among the arguments.
pub open spec fn given(arguments: Seq<String>, flag: Seq<char>) -> bool {
    exists|i: int| 0 <= i < arguments.len() && (#[trigger] arguments[i])@ == flag
}

fn is_given(arguments: &Vec<String>, flag: &str) -> (r: bool)
    ensures
        r == given(arguments@, flag@),
{
    let wanted = flag.to_owned();
    let mut i: usize = 0;
    while i < arguments.len()
        invariant
            i <= arguments@.len(),
            wanted@ == flag@,
            forall|k: int| 0 <= k < i ==> (#[trigger] arguments@[k])@ != flag@,
        decreases arguments.len() - i,
    {
        if arguments[i] == wanted {
            return true;
        }
        i += 1;
    }
    false
}

/// Chooses by the devices first: without the camera no flag matters. A probe
/// comes before the console, and both before the preview.
pub fn choose_startup(arguments: &Vec<String>, devices: &Vec<Device>) -> (r: Startup)
    ensures
        r is NoDevices <==> devices@.len() == 0,
        r is NoCandidate <==> devices@.len() > 0 && forall|i: int|
            0 <= i < devices@.len() ==> !eagleeye_name((#[trigger] devices@[i]).name@),
        match r {
            Startup::Probe(index) => first_candidate(devices@, index as int) && given(
                arguments@,
                "--probe"@,
            ),
            Startup::Console(index) => first_candidate(devices@, index as int) && !given(
                arguments@,
                "--probe"@,
            ) && given(arguments@, "--ptz-test"@),
            Startup::Preview { index, debug } => first_candidate(devices@, index as int) && !given(
                arguments@,
                "--probe"@,
            ) && !given(arguments@, "--ptz-test"@) && debug == given(arguments@, "--debug"@),
            _ => true,
        },
{
    if devices.len() == 0 {
        return Startup::NoDevices;
    }
    match find_eagleeye(devices) {
        None => Startup::NoCandidate,
        Some(index) => if is_given(arguments, "--probe") {
            Startup::Probe(index)
        } else if is_given(arguments, "--ptz-test") {
            Startup::Console(index)
        } else {
            Startup::Preview { index, debug: is_given(arguments, "--debug") }
        },
    }
}

} // verus!
