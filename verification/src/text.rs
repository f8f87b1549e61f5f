//! Plain-text building blocks: decimal rendering of counters and the
//! character-level helpers that the persistence codec and the renderers
//! share.

use vstd::prelude::*;

verus! {

/// The glyph for one decimal digit value.
pub open spec fn digit_char(d: int) -> char {
    if d == 0 {
        '0'
    } else if d == 1 {
        '1'
    } else if d == 2 {
        '2'
    } else if d == 3 {
        '3'
    } else if d == 4 {
        '4'
    } else if d == 5 {
        '5'
    } else if d == 6 {
        '6'
    } else if d == 7 {
        '7'
    } else if d == 8 {
        '8'
    } else {
        '9'
    }
}

/// The decimal rendering of a number, most significant digit first,
/// without leading zeroes (`0` renders as "0").
pub open spec fn dec_digits(n: nat) -> Seq<char>
    decreases n,
{
    if n < 10 {
        seq![digit_char(n as int)]
    } else {
        dec_digits(n / 10).push(digit_char((n % 10) as int))
    }
}

/// Whether a character is a decimal digit.
pub open spec fn is_digit(c: char) -> bool {
    c == '0' || c == '1' || c == '2' || c == '3' || c == '4' || c == '5' || c == '6' || c == '7'
        || c == '8' || c == '9'
}

/// The value of a digit character (meaningful only when `is_digit` holds).
pub open spec fn digit_val(c: char) -> int {
    if c == '0' {
        0
    } else if c == '1' {
        1
    } else if c == '2' {
        2
    } else if c == '3' {
        3
    } else if c == '4' {
        4
    } else if c == '5' {
        5
    } else if c == '6' {
        6
    } else if c == '7' {
        7
    } else if c == '8' {
        8
    } else {
        9
    }
}

/// Every character a decimal rendering produces is a digit.
pub proof fn lemma_dec_digits_are_digits(n: nat)
    ensures
        dec_digits(n).len() >= 1,
        forall|i: int| 0 <= i < dec_digits(n).len() ==> is_digit(#[trigger] dec_digits(n)[i]),
    decreases n,
{
    if n >= 10 {
        lemma_dec_digits_are_digits(n / 10);
    }
}

/// The numeric value of a digit sequence, most significant digit first.
pub open spec fn dec_value(ds: Seq<char>) -> nat
    decreases ds.len(),
{
    if ds.len() == 0 {
        0
    } else {
        (dec_value(ds.drop_last()) * 10 + digit_val(ds.last())) as nat
    }
}

/// Reading back a decimal rendering yields the rendered number.
pub proof fn lemma_dec_value_of_digits(n: nat)
    ensures
        dec_value(dec_digits(n)) == n,
    decreases n,
{
    if n < 10 {
        let ds = dec_digits(n);
        assert(ds =~= seq![digit_char(n as int)]);
        assert(ds.drop_last() =~= Seq::<char>::empty());
        assert(dec_value(ds) == dec_value(ds.drop_last()) * 10 + digit_val(ds.last()));
        assert(dec_value(ds.drop_last()) == 0);
        assert(digit_val(ds.last()) == n);
    } else {
        lemma_dec_value_of_digits(n / 10);
        let ds = dec_digits(n);
        assert(ds == dec_digits(n / 10).push(digit_char((n % 10) as int)));
        assert(ds.drop_last() =~= dec_digits(n / 10));
        assert(ds.last() == digit_char((n % 10) as int));
        assert(digit_val(ds.last()) == n % 10);
        assert(dec_value(ds) == (n / 10) * 10 + n % 10);
    }
}

/// A digit sequence's value only grows as digits are appended.
pub proof fn lemma_dec_value_prefix(ds: Seq<char>, k: int)
    requires
        0 <= k <= ds.len(),
    ensures
        dec_value(ds.subrange(0, k)) <= dec_value(ds),
    decreases ds.len(),
{
    if k < ds.len() {
        assert(ds.drop_last() =~= ds.subrange(0, ds.len() - 1));
        lemma_dec_value_prefix(ds.drop_last(), k);
        assert(ds.drop_last().subrange(0, k) =~= ds.subrange(0, k));
        assert(dec_value(ds) == dec_value(ds.drop_last()) * 10 + digit_val(ds.last()));
    } else {
        assert(ds.subrange(0, k) =~= ds);
    }
}

/// Renders one digit value as its character.
pub fn digit_to_char(d: u64) -> (c: char)
    requires
        d < 10,
    ensures
        c == digit_char(d as int),
{
    match d {
        0 => '0',
        1 => '1',
        2 => '2',
        3 => '3',
        4 => '4',
        5 => '5',
        6 => '6',
        7 => '7',
        8 => '8',
        _ => '9',
    }
}

/// Appends the decimal rendering of `n` to `out`.
pub fn push_dec(out: &mut Vec<char>, n: u64)
    ensures
        final(out)@ == old(out)@ + dec_digits(n as nat),
    decreases n,
{
    if n < 10 {
        let c = digit_to_char(n);
        out.push(c);
    } else {
        push_dec(out, n / 10);
        let c = digit_to_char(n % 10);
        out.push(c);
    }
}

/// Relies on `String::push`: appends exactly one character.
#[verifier::external_body]
pub fn push_char(s: &mut String, c: char)
    ensures
        final(s)@ == old(s)@.push(c),
{
    s.push(c);
}

/// Collects the characters of a string slice into a vector.
pub fn str_to_chars(s: &str) -> (v: Vec<char>)
    ensures
        v@ == s@,
{
    let n = s.unicode_len();
    let mut v: Vec<char> = Vec::new();
    let mut i: usize = 0;
    while i < n
        invariant
            n == s@.len(),
            i <= n,
            v@ == s@.subrange(0, i as int),
        decreases n - i,
    {
        let c = s.get_char(i);
        v.push(c);
        assert(v@ =~= s@.subrange(0, i + 1));
        i = i + 1;
    }
    assert(v@ =~= s@);
    v
}

/// Builds a string out of a character vector.
pub fn chars_to_string(v: &Vec<char>) -> (s: String)
    ensures
        s@ == v@,
{
    let mut s = String::new();
    let mut i: usize = 0;
    while i < v.len()
        invariant
            i <= v@.len(),
            s@ == v@.subrange(0, i as int),
        decreases v@.len() - i,
    {
        push_char(&mut s, v[i]);
        assert(s@ =~= v@.subrange(0, i + 1));
        i = i + 1;
    }
    assert(s@ =~= v@);
    s
}

/// Appends every character of `s` to `out`.
pub fn push_str_chars(out: &mut Vec<char>, s: &str)
    ensures
        final(out)@ == old(out)@ + s@,
{
    let n = s.unicode_len();
    let mut i: usize = 0;
    while i < n
        invariant
            n == s@.len(),
            i <= n,
            out@ == old(out)@ + s@.subrange(0, i as int),
        decreases n - i,
    {
        let c = s.get_char(i);
        out.push(c);
        assert(out@ =~= old(out)@ + s@.subrange(0, i + 1));
        i = i + 1;
    }
    assert(out@ =~= old(out)@ + s@);
}

/// Whether two string slices hold the same characters.
pub fn str_eq(a: &str, b: &str) -> (r: bool)
    ensures
        r == (a@ == b@),
{
    let n = a.unicode_len();
    if n != b.unicode_len() {
        proof {
            if a@ == b@ {
                assert(a@.len() == b@.len());
            }
        }
        return false;
    }
    let mut i: usize = 0;
    while i < n
        invariant
            n == a@.len(),
            n == b@.len(),
            i <= n,
            forall|j: int| 0 <= j < i ==> a@[j] == b@[j],
        decreases n - i,
    {
        if !(a.get_char(i) == b.get_char(i)) {
            return false;
        }
        i = i + 1;
    }
    proof {
        assert(a@ =~= b@);
    }
    true
}

} // verus!
