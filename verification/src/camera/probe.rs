//! Finding the camera among the capture devices.

use crate::text::{contains, lowered, lowered_characters, occurring_is_being_part, occurs};
use vstd::prelude::*;

verus! {

/// A capture device as the system lists it.
#[derive(Clone, Debug, PartialEq, Eq)]
pub struct Device {
    pub id: String,
    pub name: String,
}

/// The name, whatever its case, holds one of the names the camera goes by.
pub open spec fn eagleeye_name(name: Seq<char>) -> bool {
    let name = lowered(name);
    occurs(name, "eagleeye"@) || occurs(name, "eagle eye"@) || occurs(name, "polycom"@) || occurs(
        name,
        "poly "@,
    )
}

pub fn is_eagleeye_candidate(device: &Device) -> (r: bool)
    ensures
        r == eagleeye_name(device.name@),
{
    let name = lowered_characters(device.name.as_str());
    contains(&name, "eagleeye") || contains(&name, "eagle eye") || contains(&name, "polycom")
        || contains(&name, "poly ")
}

/// `index` is the first device whose name is one of the camera's.
pub open spec fn first_candidate(devices: Seq<Device>, index: int) -> bool {
    &&& 0 <= index < devices.len()
    &&& eagleeye_name(devices[index].name@)
    &&& forall|i: int| 0 <= i < index ==> !eagleeye_name((#[trigger] devices[i]).name@)
}

/// The first device whose name is one of the camera's.
pub fn find_eagleeye(devices: &Vec<Device>) -> (r: Option<usize>)
    ensures
        match r {
            Some(index) => first_candidate(devices@, index as int),
            None => forall|i: int|
                0 <= i < devices@.len() ==> !eagleeye_name((#[trigger] devices@[i]).name@),
        },
{
    let mut i: usize = 0;
    while i < devices.len()
        invariant
            i <= devices@.len(),
            forall|k: int| 0 <= k < i ==> !eagleeye_name((#[trigger] devices@[k]).name@),
        decreases devices.len() - i,
    {
        if is_eagleeye_candidate(&devices[i]) {
            return Some(i);
        }
        i += 1;
    }
    None
}

/// A camera is known by what its name holds, wherever that stands and whatever its
/// capitals.
pub proof fn cameras_are_known_by_name(
    before: Seq<char>,
    name: Seq<char>,
    behind: Seq<char>,
)
    requires
        lowered(name) == "eagleeye"@ || lowered(name) == "eagle eye"@ || lowered(name)
            == "polycom"@ || lowered(name) == "poly "@,
    ensures
        eagleeye_name(before + name + behind),
{
    let whole = before + name + behind;
    let text = lowered(before) + lowered(name) + lowered(behind);
    assert(lowered(whole) =~= text);
    occurring_is_being_part(text, lowered(before), lowered(name), lowered(behind));
}

/// A name that holds none of these is not taken for one.
pub proof fn other_names_are_not_known(name: Seq<char>)
    requires
        eagleeye_name(name),
    ensures
        exists|i: int, length: int|
            0 <= i && 0 <= length && i + length <= name.len() && {
                let part = lowered(#[trigger] name.subrange(i, i + length));
                part == "eagleeye"@ || part == "eagle eye"@ || part == "polycom"@ || part == "poly "@
            },
{
    let text = lowered(name);
    let pattern = if occurs(text, "eagleeye"@) {
        "eagleeye"@
    } else if occurs(text, "eagle eye"@) {
        "eagle eye"@
    } else if occurs(text, "polycom"@) {
        "polycom"@
    } else {
        "poly "@
    };
    let i = choose|i: int|
        0 <= i <= text.len() - pattern.len() && #[trigger] text.subrange(i, i + pattern.len())
            == pattern;
    let length = pattern.len() as int;
    assert(lowered(name.subrange(i, i + length)) =~= text.subrange(i, i + length));
}

/// There is at most one first candidate, and there is one where any camera is known.
pub proof fn first_known_camera_is_taken(devices: Seq<Device>, index: int, other: int)
    requires
        first_candidate(devices, index),
        0 <= other < devices.len(),
        eagleeye_name(devices[other].name@),
    ensures
        index <= other,
        first_candidate(devices, other) ==> index == other,
{
}

} // verus!
