//! Conventions carried by texture names.
use vstd::prelude::*;
use crate::text::{chars_of, same_chars};

verus! {

/// Faces with these textures shape the collision volume but are never drawn.
pub open spec fn non_rendering(t: Seq<char>) -> bool {
    t == "trigger"@ || t == "clip"@ || t == "common/trigger"@ || t == "common/clip"@
}

/// `t` holds `a` immediately followed by `b` somewhere.
pub open spec fn holds_pair(t: Seq<char>, a: char, b: char) -> bool {
    exists|i: int| 0 <= i < t.len() - 1 && t[i] == a && #[trigger] t[i + 1] == b
}

pub open spec fn ends_with_pair(t: Seq<char>, a: char, b: char) -> bool {
    t.len() >= 2 && t[t.len() - 2] == a && t[t.len() - 1] == b
}

/// Foliage textures contain `-f`.
pub open spec fn foliage(t: Seq<char>) -> bool {
    holds_pair(t, '-', 'f')
}

/// Textures drawn with an alpha cut-off: names ending in `-m` or `-f`.
pub open spec fn masked(t: Seq<char>) -> bool {
    ends_with_pair(t, '-', 'm') || ends_with_pair(t, '-', 'f')
}

pub(crate) fn has_pair(t: &Vec<char>, a: char, b: char) -> (r: bool)
    ensures
        r == holds_pair(t@, a, b),
{
    let mut i: usize = 0;
    while t.len() >= 2 && i < t.len() - 1
        invariant
            i <= t.len(),
            forall|j: int| 0 <= j < i && j < t.len() - 1 ==> !(t@[j] == a && #[trigger] t@[j + 1] == b),
        decreases t.len() - i,
    {
        if t[i] == a && t[i + 1] == b {
            return true;
        }
        i = i + 1;
    }
    false
}

fn ends_in(t: &Vec<char>, a: char, b: char) -> (r: bool)
    ensures
        r == ends_with_pair(t@, a, b),
{
    t.len() >= 2 && t[t.len() - 2] == a && t[t.len() - 1] == b
}

/// Whether faces with texture `name` are left out of render meshes.
pub fn is_non_rendering(name: &str) -> (r: bool)
    ensures
        r == non_rendering(name@),
{
    let t = chars_of(name);
    let a = chars_of("trigger");
    let b = chars_of("clip");
    let c = chars_of("common/trigger");
    let d = chars_of("common/clip");
    same_chars(&t, &a) || same_chars(&t, &b) || same_chars(&t, &c) || same_chars(&t, &d)
}

/// Whether texture `name` marks foliage.
pub fn is_foliage(name: &str) -> (r: bool)
    ensures
        r == foliage(name@),
{
    let t = chars_of(name);
    has_pair(&t, '-', 'f')
}

/// Whether texture `name` is drawn with an alpha cut-off.
pub fn is_masked(name: &str) -> (r: bool)
    ensures
        r == masked(name@),
{
    let t = chars_of(name);
    ends_in(&t, '-', 'm') || ends_in(&t, '-', 'f')
}

} // verus!
