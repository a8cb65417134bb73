//! Text operations on character strings: replacing every occurrence of a
//! pattern, as `str::replace` does, and building strings from pieces.
use crate::std_wrappers::{string_push, string_push_str};
use vstd::prelude::*;
use vstd::string::StrSliceExecFns;

verus! {

/// `s` with every occurrence of `from` replaced by `to`, left to right, the
/// occurrences not overlapping. An empty `from` occurs before every
/// character and at the end.
pub open spec fn replaced(s: Seq<char>, from: Seq<char>, to: Seq<char>) -> Seq<char>
    decreases s.len(),
{
    if from.len() == 0 {
        if s.len() == 0 {
            to
        } else {
            to + seq![s[0]] + replaced(s.drop_first(), from, to)
        }
    } else if s.len() < from.len() {
        s
    } else if s.take(from.len() as int) == from {
        to + replaced(s.skip(from.len() as int), from, to)
    } else {
        seq![s[0]] + replaced(s.drop_first(), from, to)
    }
}

/// The characters of `s`.
pub fn chars_of(s: &str) -> (r: Vec<char>)
    ensures
        r@ == s@,
{
    let n = s.unicode_len();
    let mut r: Vec<char> = Vec::new();
    let mut i: usize = 0;
    while i < n
        invariant
            n == s@.len(),
            i <= n,
            r@ == s@.take(i as int),
        decreases n - i,
    {
        r.push(s.get_char(i));
        assert(r@ =~= s@.take(i + 1));
        i = i + 1;
    }
    assert(s@.take(n as int) =~= s@);
    r
}

/// Whether `from` occurs in `s` at `i`.
fn occurs_at(s: &Vec<char>, i: usize, from: &Vec<char>) -> (r: bool)
    requires
        i <= s@.len(),
    ensures
        r == (from@.len() <= s@.len() - i && s@.skip(i as int).take(from@.len() as int) == from@),
{
    let m = from.len();
    let n = s.len();
    if m > n - i {
        return false;
    }
    let mut j: usize = 0;
    while j < m
        invariant
            m == from@.len(),
            n == s@.len(),
            i + m <= n,
            i <= s@.len(),
            j <= m,
            forall|k: int| 0 <= k < j ==> s@[i + k] == from@[k],
        decreases m - j,
    {
        if s[i + j] != from[j] {
            assert(s@.skip(i as int).take(m as int)[j as int] != from@[j as int]);
            return false;
        }
        j = j + 1;
    }
    assert(s@.skip(i as int).take(m as int) =~= from@);
    true
}

/// `s` with every occurrence of `from` replaced by `to`, as `str::replace`
/// gives it.
pub fn replace_all(s: &str, from: &str, to: &str) -> (r: String)
    ensures
        r@ == replaced(s@, from@, to@),
{
    let cs = chars_of(s);
    let fs = chars_of(from);
    let n = cs.len();
    let m = fs.len();
    let mut r = String::new();
    let mut i: usize = 0;
    assert(cs@.skip(0) =~= cs@);
    assert(r@ + replaced(cs@.skip(0), fs@, to@) =~= replaced(s@, from@, to@));
    if m == 0 {
        while i < n
            invariant
                n == cs@.len(),
                cs@ == s@,
                fs@ == from@,
                m == fs@.len(),
                m == 0,
                i <= n,
                r@ + replaced(cs@.skip(i as int), fs@, to@) == replaced(s@, from@, to@),
            decreases n - i,
        {
            let ghost rest = cs@.skip(i as int);
            assert(rest.drop_first() =~= cs@.skip(i + 1));
            assert(rest[0] == cs@[i as int]);
            assert(replaced(rest, fs@, to@) == to@ + seq![rest[0]] + replaced(
                rest.drop_first(),
                fs@,
                to@,
            ));
            string_push_str(&mut r, to);
            string_push(&mut r, cs[i]);
            assert(r@ + replaced(cs@.skip(i + 1), fs@, to@) =~= replaced(s@, from@, to@));
            i = i + 1;
        }
        assert(cs@.skip(n as int) =~= Seq::<char>::empty());
        string_push_str(&mut r, to);
        assert(r@ =~= replaced(s@, from@, to@));
        return r;
    }
    while i < n
        invariant
            n == cs@.len(),
            cs@ == s@,
            fs@ == from@,
            m == fs@.len(),
            m > 0,
            i <= n,
            r@ + replaced(cs@.skip(i as int), fs@, to@) == replaced(s@, from@, to@),
        decreases n - i,
    {
        let ghost rest = cs@.skip(i as int);
        if occurs_at(&cs, i, &fs) {
            assert(rest.skip(m as int) =~= cs@.skip(i + m));
            string_push_str(&mut r, to);
            assert(r@ + replaced(cs@.skip(i + m), fs@, to@) =~= replaced(s@, from@, to@));
            i = i + m;
        } else {
            assert(rest.drop_first() =~= cs@.skip(i + 1));
            proof {
                if rest.len() >= m {
                    assert(rest.take(m as int) != fs@);
                }
            }
            string_push(&mut r, cs[i]);
            assert(r@ + replaced(cs@.skip(i + 1), fs@, to@) =~= replaced(s@, from@, to@));
            i = i + 1;
        }
    }
    assert(cs@.skip(n as int) =~= Seq::<char>::empty());
    assert(r@ =~= replaced(s@, from@, to@));
    r
}

/// `a` followed by `b`.
pub fn concat2(a: &str, b: &str) -> (r: String)
    ensures
        r@ == a@ + b@,
{
    let mut r = a.to_owned();
    string_push_str(&mut r, b);
    r
}

/// `a` followed by `b` and `c`.
pub fn concat3(a: &str, b: &str, c: &str) -> (r: String)
    ensures
        r@ == a@ + b@ + c@,
{
    let mut r = a.to_owned();
    string_push_str(&mut r, b);
    string_push_str(&mut r, c);
    r
}

/// The decimal digit `d`.
pub open spec fn digit_char(d: nat) -> char {
    if d == 0 {
        '0'
    } else if d == 1 {
        '1'
    } else if d == 2 {
        '2'
    } else if d == 3 {
        '3'
    } else if d == 4 {
        '4'
    } else if d == 5 {
        '5'
    } else if d == 6 {
        '6'
    } else if d == 7 {
        '7'
    } else if d == 8 {
        '8'
    } else {
        '9'
    }
}

/// `n` written in decimal, without leading zeros.
pub open spec fn decimal(n: nat) -> Seq<char>
    decreases n,
{
    if n < 10 {
        seq![digit_char(n)]
    } else {
        decimal(n / 10).push(digit_char(n % 10))
    }
}

/// The digit `d`, below ten.
fn digit(d: u64) -> (c: char)
    requires
        d < 10,
    ensures
        c == digit_char(d as nat),
{
    if d == 0 {
        '0'
    } else if d == 1 {
        '1'
    } else if d == 2 {
        '2'
    } else if d == 3 {
        '3'
    } else if d == 4 {
        '4'
    } else if d == 5 {
        '5'
    } else if d == 6 {
        '6'
    } else if d == 7 {
        '7'
    } else if d == 8 {
        '8'
    } else {
        '9'
    }
}

/// Appends `n` written in decimal to `r`.
pub fn push_decimal(r: &mut String, n: u64)
    ensures
        final(r)@ == old(r)@ + decimal(n as nat),
    decreases n,
{
    if n >= 10 {
        push_decimal(r, n / 10);
    }
    string_push(r, digit(n % 10));
    assert(n < 10 ==> final(r)@ =~= old(r)@ + decimal(n as nat));
    assert(n >= 10 ==> final(r)@ =~= old(r)@ + decimal(n as nat));
}

/// `n` written in decimal, as `to_string` writes it.
pub fn decimal_text(n: u64) -> (r: String)
    ensures
        r@ == decimal(n as nat),
{
    let mut r = String::new();
    push_decimal(&mut r, n);
    assert(r@ =~= decimal(n as nat));
    r
}

} // verus!
