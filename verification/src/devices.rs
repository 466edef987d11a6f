//! Device Catalog decisions: which audio backend to prefer and how a
//! requested device name resolves against the enumerated devices. The
//! unverified shell enumerates hosts and devices and acts on the choice
//! made here.

use crate::text::is_blank;
use crate::text::str_is_blank;
use vstd::prelude::*;
use vstd::string::*;

verus! {

/// Case-insensitive match of one character against a lower-case letter.
pub open spec fn eq_ci(c: char, lower: char, upper: char) -> bool {
    c == lower || c == upper
}

/// Whether the name contains "pulse", ignoring case, starting at `i`.
pub open spec fn pulse_at(s: Seq<char>, i: int) -> bool {
    &&& 0 <= i
    &&& i + 5 <= s.len()
    &&& eq_ci(s[i], 'p', 'P')
    &&& eq_ci(s[i + 1], 'u', 'U')
    &&& eq_ci(s[i + 2], 'l', 'L')
    &&& eq_ci(s[i + 3], 's', 'S')
    &&& eq_ci(s[i + 4], 'e', 'E')
}

/// Whether a backend name names a Pulse-style sound server.
pub open spec fn names_pulse(s: Seq<char>) -> bool {
    exists|i: int| pulse_at(s, i)
}

/// Whether `s` contains "pulse", ignoring ASCII case.
pub fn contains_pulse(s: &str) -> (r: bool)
    ensures
        r == names_pulse(s@),
{
    let n = s.unicode_len();
    if n < 5 {
        proof {
            assert(forall|i: int| !pulse_at(s@, i));
        }
        return false;
    }
    let mut i: usize = 0;
    while i <= n - 5
        invariant
            n >= 5,
            i <= n - 4,
            n == s@.len(),
            forall|j: int| 0 <= j < i ==> !pulse_at(s@, j),
        decreases n - i,
    {
        let c0 = s.get_char(i);
        let c1 = s.get_char(i + 1);
        let c2 = s.get_char(i + 2);
        let c3 = s.get_char(i + 3);
        let c4 = s.get_char(i + 4);
        if (c0 == 'p' || c0 == 'P') && (c1 == 'u' || c1 == 'U') && (c2 == 'l' || c2 == 'L') && (c3
            == 's' || c3 == 'S') && (c4 == 'e' || c4 == 'E') {
            proof {
                assert(pulse_at(s@, i as int));
            }
            return true;
        }
        i += 1;
    }
    proof {
        assert(forall|j: int| i <= j ==> !pulse_at(s@, j));
    }
    false
}

/// Pick the preferred backend: the first whose name contains "pulse"
/// (a sound server that avoids device-locking and timestamp defects), or
/// none, in which case the platform default backend is used.
pub fn preferred_backend(names: &Vec<String>) -> (r: Option<usize>)
    ensures
        match r {
            Some(i) => {
                &&& i < names@.len()
                &&& names_pulse(names@[i as int]@)
                &&& forall|j: int| 0 <= j < i ==> !names_pulse(#[trigger] names@[j]@)
            },
            None => forall|j: int| 0 <= j < names@.len() ==> !names_pulse(#[trigger] names@[j]@),
        },
{
    let mut i: usize = 0;
    while i < names.len()
        invariant
            i <= names@.len(),
            forall|j: int| 0 <= j < i ==> !names_pulse(#[trigger] names@[j]@),
        decreases names@.len() - i,
    {
        if contains_pulse(names[i].as_str()) {
            return Some(i);
        }
        i += 1;
    }
    None
}

/// How a requested device name resolves.
pub enum DeviceChoice {
    /// Use the enumerated device at this index.
    ByIndex(usize),
    /// Use the system default input device.
    SystemDefault,
}

/// Resolve a requested name against the enumerated device names: a blank
/// request, or one that matches nothing, falls back to the system default;
/// otherwise the first device with exactly that name is chosen.
pub fn resolve_device(requested: &String, names: &Vec<String>) -> (r: DeviceChoice)
    ensures
        match r {
            DeviceChoice::ByIndex(i) => {
                &&& !is_blank(requested@)
                &&& i < names@.len()
                &&& names@[i as int]@ == requested@
                &&& forall|j: int| 0 <= j < i ==> names@[j]@ != requested@
            },
            DeviceChoice::SystemDefault => is_blank(requested@) || forall|j: int|
                0 <= j < names@.len() ==> (#[trigger] names@[j])@ != requested@,
        },
{
    if str_is_blank(requested.as_str()) {
        return DeviceChoice::SystemDefault;
    }
    let mut i: usize = 0;
    while i < names.len()
        invariant
            i <= names@.len(),
            !is_blank(requested@),
            forall|j: int| 0 <= j < i ==> (#[trigger] names@[j])@ != requested@,
        decreases names@.len() - i,
    {
        if names[i].eq(requested) {
            return DeviceChoice::ByIndex(i);
        }
        i += 1;
    }
    DeviceChoice::SystemDefault
}

/// The devices to try after the chosen one failed: every other enumerated
/// device, in enumeration order, skipping those that carry the failed
/// device's name.
pub fn fallback_candidates(names: &Vec<String>, failed: &String) -> (r: Vec<usize>)
    ensures
        forall|p: int|
            0 <= p < r@.len() ==> (#[trigger] r@[p]) < names@.len() && names@[r@[p] as int]@
                != failed@,
        forall|p: int, q: int| 0 <= p < q < r@.len() ==> r@[p] < r@[q],
        forall|j: int|
            0 <= j < names@.len() && (#[trigger] names@[j])@ != failed@ ==> r@.contains(j as usize),
{
    let mut out: Vec<usize> = Vec::new();
    let mut i: usize = 0;
    while i < names.len()
        invariant
            i <= names@.len(),
            forall|p: int|
                0 <= p < out@.len() ==> (#[trigger] out@[p]) < i && names@[out@[p] as int]@
                    != failed@,
            forall|p: int, q: int| 0 <= p < q < out@.len() ==> out@[p] < out@[q],
            forall|j: int|
                0 <= j < i && (#[trigger] names@[j])@ != failed@ ==> out@.contains(j as usize),
        decreases names@.len() - i,
    {
        if !names[i].eq(failed) {
            let ghost prior = out@;
            out.push(i);
            proof {
                assert(out@[out@.len() - 1] == i);
                assert(forall|j: int|
                    0 <= j < i && (#[trigger] names@[j])@ != failed@ ==> prior.contains(
                        j as usize,
                    ));
                assert forall|j: int| 0 <= j < i + 1 && (#[trigger] names@[j])@ != failed@ implies
                    out@.contains(j as usize) by {
                    if j < i {
                        let p = choose|p: int| 0 <= p < prior.len() && prior[p] == j as usize;
                        assert(out@[p] == j as usize);
                    } else {
                        assert(out@[out@.len() - 1] == j as usize);
                    }
                }
            }
        }
        i += 1;
    }
    out
}

} // verus!
