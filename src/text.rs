//! Character-level helpers: splitting property strings into pieces and
//! reading fixed-point decimal numbers.
use vstd::prelude::*;

verus! {

/// Fixed-point scale of every number the library reads: one unit is 1000.
pub const SCALE: i64 = 1000;

/// Longest run of integer digits that a number may have.
pub const MAX_INT_DIGITS: usize = 12;

/// The characters of `s`, in order.
pub fn chars_of(s: &str) -> (r: Vec<char>)
    ensures
        r@ == s@,
{
    broadcast use vstd::string::axiom_spec_iter;

    let mut out: Vec<char> = Vec::new();
    for c in it: s.chars()
        invariant
            out@ == it.history(),
            it.seq() == s@,
    {
        out.push(c);
    }
    out
}

/// The pieces of `s` between single spaces, as `str::split(" ")` gives them.
pub open spec fn pieces(s: Seq<char>) -> Seq<Seq<char>>
    decreases s.len(),
{
    if s.len() == 0 {
        seq![Seq::empty()]
    } else {
        let p = pieces(s.drop_last());
        if s.last() == ' ' {
            p.push(Seq::empty())
        } else {
            p.update(p.len() - 1, p.last().push(s.last()))
        }
    }
}

pub proof fn lemma_pieces_nonempty(s: Seq<char>)
    ensures
        pieces(s).len() >= 1,
    decreases s.len(),
{
    if s.len() > 0 {
        lemma_pieces_nonempty(s.drop_last());
    }
}

/// The character sequences held by `v`.
pub open spec fn views(v: Seq<Vec<char>>) -> Seq<Seq<char>> {
    Seq::new(v.len(), |i: int| v[i]@)
}

/// Splits `s` at every single space.
pub fn split_spaces(s: &Vec<char>) -> (r: Vec<Vec<char>>)
    ensures
        views(r@) == pieces(s@),
{
    let mut out: Vec<Vec<char>> = Vec::new();
    out.push(Vec::new());
    assert(views(out@) =~= pieces(s@.take(0)));
    let mut i: usize = 0;
    while i < s.len()
        invariant
            i <= s.len(),
            views(out@) == pieces(s@.take(i as int)),
        decreases s.len() - i,
    {
        proof {
            lemma_pieces_nonempty(s@.take(i as int));
        }
        let c = s[i];
        assert(s@.take(i as int + 1).drop_last() =~= s@.take(i as int));
        if c == ' ' {
            out.push(Vec::new());
            assert(views(out@) =~= pieces(s@.take(i as int + 1)));
        } else {
            let ghost before = views(out@);
            let mut last = out.pop().unwrap();
            last.push(c);
            out.push(last);
            assert(views(out@) =~= before.update(before.len() - 1, before.last().push(c)));
        }
        i = i + 1;
    }
    assert(s@.take(s.len() as int) =~= s@);
    out
}

pub open spec fn is_digit(c: char) -> bool {
    '0' <= c && c <= '9'
}

pub open spec fn all_digits(s: Seq<char>) -> bool {
    forall|i: int| 0 <= i < s.len() ==> is_digit(#[trigger] s[i])
}

pub open spec fn digit_value(c: char) -> int {
    c as int - '0' as int
}

/// The value of a run of decimal digits, most significant first.
pub open spec fn digits_value(s: Seq<char>) -> int
    decreases s.len(),
{
    if s.len() == 0 {
        0
    } else {
        10 * digits_value(s.drop_last()) + digit_value(s.last())
    }
}

pub open spec fn pow10(n: nat) -> int
    decreases n,
{
    if n == 0 {
        1
    } else {
        10 * pow10((n - 1) as nat)
    }
}

pub proof fn lemma_digits_bound(s: Seq<char>)
    requires
        all_digits(s),
    ensures
        0 <= digits_value(s) < pow10(s.len()),
    decreases s.len(),
{
    if s.len() > 0 {
        assert(is_digit(s[s.len() - 1]));
        lemma_digits_bound(s.drop_last());
    }
}

/// `d` is where the first `.` of `s` stands, or the length of `s` if it has none.
pub open spec fn is_dot_index(s: Seq<char>, d: int) -> bool {
    &&& 0 <= d <= s.len()
    &&& forall|j: int| 0 <= j < d ==> s[j] != '.'
    &&& d < s.len() ==> s[d] == '.'
}

pub open spec fn dot_index(s: Seq<char>) -> int {
    choose|d: int| is_dot_index(s, d)
}

pub proof fn lemma_dot_index(s: Seq<char>, d: int)
    requires
        is_dot_index(s, d),
    ensures
        dot_index(s) == d,
{
    let e = dot_index(s);
    assert(is_dot_index(s, e));
    if e < d {
        assert(s[e] == '.');
    } else if d < e {
        assert(s[d] == '.');
    }
}

/// The first three fractional digits, in thousandths; later digits are cut off.
pub open spec fn frac_thousandths(f: Seq<char>) -> int {
    let k: nat = if f.len() < 3 { f.len() } else { 3 };
    digits_value(f.take(k as int)) * pow10((3 - k) as nat)
}

/// A number without sign: digits, then optionally a `.` and more digits.
pub open spec fn unsigned_value(s: Seq<char>) -> Option<int> {
    let d = dot_index(s);
    let ip = s.take(d);
    let fp = if d < s.len() { s.skip(d + 1) } else { Seq::empty() };
    if 1 <= ip.len() <= MAX_INT_DIGITS && all_digits(ip) && all_digits(fp) {
        Some(digits_value(ip) * SCALE + frac_thousandths(fp))
    } else {
        None
    }
}

/// The fixed-point value of a decimal number with an optional leading `-`.
pub open spec fn number_value(s: Seq<char>) -> Option<int> {
    if s.len() > 0 && s[0] == '-' {
        match unsigned_value(s.skip(1)) {
            Some(v) => Some(-v),
            None => None,
        }
    } else {
        unsigned_value(s)
    }
}

/// Reads the digits `s[lo..hi]` as a number.
fn read_digits(s: &Vec<char>, lo: usize, hi: usize) -> (r: u64)
    requires
        lo <= hi <= s.len(),
        hi - lo <= MAX_INT_DIGITS,
        all_digits(s@.subrange(lo as int, hi as int)),
    ensures
        r == digits_value(s@.subrange(lo as int, hi as int)),
{
    let mut acc: u64 = 0;
    let mut i: usize = lo;
    while i < hi
        invariant
            lo <= i <= hi <= s.len(),
            hi - lo <= MAX_INT_DIGITS,
            all_digits(s@.subrange(lo as int, hi as int)),
            acc == digits_value(s@.subrange(lo as int, i as int)),
        decreases hi - i,
    {
        let ghost t = s@.subrange(lo as int, i as int + 1);
        assert(t.drop_last() =~= s@.subrange(lo as int, i as int));
        assert(s@.subrange(lo as int, hi as int)[i - lo] == s@[i as int]);
        proof {
            assert(s@.subrange(lo as int, i as int) =~= s@.subrange(lo as int, hi as int).take(i - lo));
            lemma_digits_bound(s@.subrange(lo as int, i as int));
            lemma_pow10_12(i - lo);
        }
        let d = (s[i] as u32 - '0' as u32) as u64;
        acc = acc * 10 + d;
        i = i + 1;
    }
    acc
}

proof fn lemma_pow10_12(n: int)
    requires
        0 <= n < MAX_INT_DIGITS,
    ensures
        pow10(n as nat) <= 100_000_000_000,
    decreases n,
{
    reveal_with_fuel(pow10, 13);
}

fn all_digits_in(s: &Vec<char>, lo: usize, hi: usize) -> (r: bool)
    requires
        lo <= hi <= s.len(),
    ensures
        r == all_digits(s@.subrange(lo as int, hi as int)),
{
    let mut i: usize = lo;
    while i < hi
        invariant
            lo <= i <= hi <= s.len(),
            all_digits(s@.subrange(lo as int, i as int)),
        decreases hi - i,
    {
        if !(s[i] >= '0' && s[i] <= '9') {
            assert(s@.subrange(lo as int, hi as int)[i - lo] == s@[i as int]);
            return false;
        }
        assert(all_digits(s@.subrange(lo as int, i as int + 1))) by {
            assert forall|j: int| 0 <= j < i + 1 - lo implies is_digit(
                #[trigger] s@.subrange(lo as int, i as int + 1)[j],
            ) by {
                if j < i - lo {
                    assert(s@.subrange(lo as int, i as int)[j] == s@[lo + j]);
                }
            }
        }
        i = i + 1;
    }
    true
}

/// Reads the number `s[lo..]`, which has no sign.
fn parse_unsigned(s: &Vec<char>, lo: usize) -> (r: Option<i64>)
    requires
        lo <= s.len(),
    ensures
        r matches Some(v) ==> v >= 0 && unsigned_value(s@.skip(lo as int)) == Some(v as int),
        r is None ==> unsigned_value(s@.skip(lo as int)) is None,
{
    let ghost t = s@.skip(lo as int);
    let mut d: usize = lo;
    while d < s.len() && s[d] != '.'
        invariant
            lo <= d <= s.len(),
            forall|j: int| lo <= j < d ==> s@[j] != '.',
        decreases s.len() - d,
    {
        d = d + 1;
    }
    proof {
        assert(is_dot_index(t, d - lo));
        lemma_dot_index(t, d - lo);
        assert(t.take(d - lo) =~= s@.subrange(lo as int, d as int));
    }
    let n = s.len();
    let fstart: usize = if d < n { d + 1 } else { n };
    proof {
        if d < n {
            assert(t.skip(d - lo + 1) =~= s@.subrange(fstart as int, n as int));
        } else {
            assert(s@.subrange(fstart as int, n as int) =~= Seq::<char>::empty());
        }
    }
    if d - lo < 1 || d - lo > MAX_INT_DIGITS {
        return None;
    }
    if !all_digits_in(s, lo, d) || !all_digits_in(s, fstart, n) {
        return None;
    }
    let ip = read_digits(s, lo, d);
    let k: usize = if n - fstart < 3 { n - fstart } else { 3 };
    let ghost fp = s@.subrange(fstart as int, n as int);
    proof {
        assert(fp.take(k as int) =~= s@.subrange(fstart as int, fstart + k));
        assert(all_digits(s@.subrange(fstart as int, fstart + k))) by {
            assert forall|j: int| 0 <= j < k implies is_digit(
                #[trigger] s@.subrange(fstart as int, fstart + k)[j],
            ) by {
                assert(fp[j] == s@[fstart + j]);
            }
        }
        lemma_digits_bound(s@.subrange(lo as int, d as int));
        lemma_pow10_12((d - lo - 1) as int);
        reveal_with_fuel(pow10, 4);
        lemma_digits_bound(s@.subrange(fstart as int, fstart + k));
    }
    let f = read_digits(s, fstart, fstart + k);
    let mult: u64 = if k == 0 {
        1000
    } else if k == 1 {
        100
    } else if k == 2 {
        10
    } else {
        1
    };
    proof {
        reveal_with_fuel(pow10, 4);
        assert(pow10((3 - k) as nat) == mult);
    }
    Some((ip * 1000 + f * mult) as i64)
}

/// Reads a decimal number with an optional leading `-`, in thousandths.
pub fn parse_number(s: &Vec<char>) -> (r: Option<i64>)
    ensures
        r matches Some(v) ==> number_value(s@) == Some(v as int),
        r is None ==> number_value(s@) is None,
{
    if s.len() > 0 && s[0] == '-' {
        match parse_unsigned(s, 1) {
            Some(v) => Some(-v),
            None => None,
        }
    } else {
        let r = parse_unsigned(s, 0);
        assert(s@.skip(0) =~= s@);
        r
    }
}

/// Whether `s` and `t` hold the same characters.
pub fn same_chars(s: &Vec<char>, t: &Vec<char>) -> (r: bool)
    ensures
        r == (s@ == t@),
{
    if s.len() != t.len() {
        return false;
    }
    let mut i: usize = 0;
    while i < s.len()
        invariant
            s.len() == t.len(),
            i <= s.len(),
            forall|j: int| 0 <= j < i ==> s@[j] == t@[j],
        decreases s.len() - i,
    {
        if s[i] != t[i] {
            return false;
        }
        i = i + 1;
    }
    assert(s@ =~= t@);
    true
}

} // verus!
