//! Typed reads of an entity's key/value property bag, with defaults.
use vstd::prelude::*;
use crate::geom::Vec3;
use crate::text::{chars_of, number_value, parse_number, pieces, same_chars, split_spaces, views};

verus! {

/// A property bag as the map file wrote it: key/value pairs in file order.
/// When a key repeats, the last pair wins.
pub struct Properties {
    pub entries: Vec<(String, String)>,
}

pub open spec fn pair_views(e: Seq<(String, String)>) -> Seq<(Seq<char>, Seq<char>)> {
    Seq::new(e.len(), |i: int| (e[i].0@, e[i].1@))
}

/// The value of the last pair whose key is `key`.
pub open spec fn lookup(e: Seq<(Seq<char>, Seq<char>)>, key: Seq<char>) -> Option<Seq<char>>
    decreases e.len(),
{
    if e.len() == 0 {
        None
    } else if e.last().0 == key {
        Some(e.last().1)
    } else {
        lookup(e.drop_last(), key)
    }
}

/// The entity's classname, empty when it has none.
pub open spec fn classname_of(p: Properties) -> Seq<char> {
    match p.value_of("classname"@) {
        Some(c) => c,
        None => Seq::empty(),
    }
}

pub open spec fn true_text(v: Seq<char>) -> bool {
    v == seq!['1'] || v == seq!['t', 'r', 'u', 'e']
}

/// A vector written as exactly three numbers between single spaces.
pub open spec fn vec3_value(v: Seq<char>) -> Option<(int, int, int)> {
    let p = pieces(v);
    if p.len() == 3 && number_value(p[0]) is Some && number_value(p[1]) is Some
        && number_value(p[2]) is Some {
        Some((number_value(p[0])->0, number_value(p[1])->0, number_value(p[2])->0))
    } else {
        None
    }
}

pub open spec fn number_or(v: Option<Seq<char>>, default: int) -> int {
    match v {
        Some(t) => match number_value(t) {
            Some(n) => n,
            None => default,
        },
        None => default,
    }
}

pub open spec fn vec3_or(v: Option<Seq<char>>, default: Vec3) -> (int, int, int) {
    match v {
        Some(t) => match vec3_value(t) {
            Some(p) => p,
            None => default@,
        },
        None => default@,
    }
}

pub open spec fn bool_or(v: Option<Seq<char>>, default: bool) -> bool {
    match v {
        Some(t) => true_text(t),
        None => default,
    }
}

impl Properties {
    pub open spec fn view(&self) -> Seq<(Seq<char>, Seq<char>)> {
        pair_views(self.entries@)
    }

    pub open spec fn value_of(&self, key: Seq<char>) -> Option<Seq<char>> {
        lookup(self@, key)
    }

    pub fn new(entries: Vec<(String, String)>) -> (r: Properties)
        ensures
            r.entries@ == entries@,
    {
        Properties { entries }
    }

    /// The value stored under `key`, if any.
    pub fn get_property_as_string_opt(&self, key: &str) -> (r: Option<String>)
        ensures
            r matches Some(v) ==> self.value_of(key@) == Some(v@),
            r is None ==> self.value_of(key@) is None,
    {
        let k = key.to_owned();
        let ghost v = self@;
        let mut i: usize = self.entries.len();
        assert(v.take(i as int) =~= v);
        while i > 0
            invariant
                i <= self.entries.len(),
                v == self@,
                k@ == key@,
                lookup(v, key@) == lookup(v.take(i as int), key@),
            decreases i,
        {
            assert(v.take(i as int).drop_last() =~= v.take(i - 1));
            if self.entries[i - 1].0 == k {
                return Some(self.entries[i - 1].1.clone());
            }
            i = i - 1;
        }
        None
    }

    /// The value stored under `key`, or `default` when there is none.
    pub fn get_property_as_string(&self, key: &str, default: &str) -> (r: String)
        ensures
            r@ == (match self.value_of(key@) {
                Some(v) => v,
                None => default@,
            }),
    {
        match self.get_property_as_string_opt(key) {
            Some(v) => v,
            None => default.to_owned(),
        }
    }

    /// `true` for the values `1` and `true`, `false` for any other value,
    /// `default` when the key is absent.
    pub fn get_property_as_bool(&self, key: &str, default: bool) -> (r: bool)
        ensures
            r == bool_or(self.value_of(key@), default),
    {
        match self.get_property_as_string_opt(key) {
            Some(v) => {
                let c = chars_of(v.as_str());
                let one = chars_of("1");
                let yes = chars_of("true");
                proof {
                    reveal_strlit("1");
                    reveal_strlit("true");
                    assert(one@ =~= seq!['1']);
                    assert(yes@ =~= seq!['t', 'r', 'u', 'e']);
                }
                same_chars(&c, &one) || same_chars(&c, &yes)
            },
            None => default,
        }
    }

    /// A fixed-point number (thousandths); `default` when the key is absent
    /// or its value is no number.
    pub fn get_property_as_number(&self, key: &str, default: i64) -> (r: i64)
        ensures
            r == number_or(self.value_of(key@), default as int),
    {
        match self.get_property_as_string_opt(key) {
            Some(v) => {
                let c = chars_of(v.as_str());
                match parse_number(&c) {
                    Some(n) => n,
                    None => default,
                }
            },
            None => default,
        }
    }

    /// Three fixed-point numbers between single spaces; `default` when the
    /// key is absent or its value is not exactly three numbers.
    pub fn get_property_as_vec3(&self, key: &str, default: Vec3) -> (r: Vec3)
        ensures
            r@ == vec3_or(self.value_of(key@), default),
    {
        match self.get_property_as_string_opt(key) {
            Some(v) => {
                let c = chars_of(v.as_str());
                match parse_vec3(&c) {
                    Some(p) => p,
                    None => default,
                }
            },
            None => default,
        }
    }

    /// A colour, written as a vector of three channels.
    pub fn get_property_as_color(&self, key: &str, default: Vec3) -> (r: Vec3)
        ensures
            r@ == vec3_or(self.value_of(key@), default),
    {
        self.get_property_as_vec3(key, default)
    }
}

/// Reads exactly three numbers between single spaces.
pub fn parse_vec3(s: &Vec<char>) -> (r: Option<Vec3>)
    ensures
        r matches Some(p) ==> vec3_value(s@) == Some(p@),
        r is None ==> vec3_value(s@) is None,
{
    let parts = split_spaces(s);
    if parts.len() != 3 {
        return None;
    }
    assert(views(parts@)[0] == parts@[0]@);
    assert(views(parts@)[1] == parts@[1]@);
    assert(views(parts@)[2] == parts@[2]@);
    let x = parse_number(&parts[0]);
    let y = parse_number(&parts[1]);
    let z = parse_number(&parts[2]);
    match (x, y, z) {
        (Some(x), Some(y), Some(z)) => Some(Vec3 { x, y, z }),
        _ => None,
    }
}

/// A vector written with fewer than three pieces is not read in part: the
/// caller's default comes back whole.
pub proof fn lemma_short_vector_gives_default(v: Seq<char>, default: Vec3)
    requires
        pieces(v).len() < 3,
    ensures
        vec3_value(v) is None,
        vec3_or(Some(v), default) == default@,
{
}

} // verus!
