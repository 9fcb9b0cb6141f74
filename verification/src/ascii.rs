//! ASCII letters without regard to their case, and what reads as a number.

use vstd::prelude::*;
use crate::text::{chars_of, is_digit, all_digits, unsigned_part};

verus! {

/// An ASCII capital as its small letter, any other character as it is.
pub open spec fn small(c: char) -> char {
    if 'A' <= c <= 'Z' { (c as u8 + 32) as char } else { c }
}

/// Each ASCII capital of a text as its small letter.
pub open spec fn fold(s: Seq<char>) -> Seq<char> {
    Seq::new(s.len(), |i: int| small(s[i]))
}

fn small_of(c: char) -> (r: char)
    ensures
        r == small(c),
{
    if 'A' <= c && c <= 'Z' {
        (c as u8 + 32) as char
    } else {
        c
    }
}

/// See [`fold`].
pub fn ascii_lowercase(s: &str) -> (r: String)
    ensures
        r@ == fold(s@),
{
    let v = chars_of(s);
    let mut out = String::new();
    let mut i: usize = 0;
    assert(fold(v@).take(0) =~= Seq::<char>::empty());
    while i < v.len()
        invariant
            i <= v@.len(),
            out@ == fold(v@).take(i as int),
        decreases v@.len() - i,
    {
        out.push(small_of(v[i]));
        assert(out@ =~= fold(v@).take(i + 1));
        i = i + 1;
    }
    assert(fold(v@).take(i as int) =~= fold(v@));
    out
}

/// Whether two texts are the same but for the case of ASCII letters.
pub fn same_letters(a: &str, b: &str) -> (r: bool)
    ensures
        r == (fold(a@) == fold(b@)),
{
    let x = ascii_lowercase(a);
    let y = ascii_lowercase(b);
    crate::text::same(x.as_str(), y.as_str())
}

/// How many digits a text begins with.
pub open spec fn digit_run(s: Seq<char>) -> nat
    decreases s.len(),
{
    if s.len() > 0 && is_digit(s[0]) {
        1 + digit_run(s.skip(1))
    } else {
        0
    }
}

/// The exponent of a decimal number: none, or the letter, an optional sign and
/// digits.
pub open spec fn is_exponent(s: Seq<char>) -> bool {
    s.len() == 0 || ((s[0] == 'e' || s[0] == 'E') && unsigned_part(s.skip(1)).len() > 0 && all_digits(
        unsigned_part(s.skip(1)),
    ))
}

/// A decimal number without a sign: digits, of which some stand before or behind
/// the point if there is one, and an optional exponent.
pub open spec fn is_decimal(s: Seq<char>) -> bool {
    let a = digit_run(s) as int;
    let rest = s.skip(a);
    if rest.len() > 0 && rest[0] == '.' {
        let f = digit_run(rest.skip(1)) as int;
        a + f > 0 && is_exponent(rest.skip(1).skip(f))
    } else {
        a > 0 && is_exponent(rest)
    }
}

/// What reads as a floating-point number.
pub open spec fn is_number(s: Seq<char>) -> bool {
    let b = unsigned_part(s);
    ||| fold(b) == "inf"@
    ||| fold(b) == "infinity"@
    ||| fold(b) == "nan"@
    ||| is_decimal(b)
}

proof fn lemma_digit_run(s: Seq<char>)
    ensures
        digit_run(s) <= s.len(),
    decreases s.len(),
{
    if s.len() > 0 && is_digit(s[0]) {
        lemma_digit_run(s.skip(1));
    }
}

/// Where the digits that start at `from` end.
fn run_end(v: &Vec<char>, from: usize) -> (r: usize)
    requires
        from <= v@.len(),
    ensures
        from <= r <= v@.len(),
        r - from == digit_run(v@.skip(from as int)),
{
    let mut i: usize = from;
    while i < v.len() && '0' <= v[i] && v[i] <= '9'
        invariant
            from <= i <= v@.len(),
            digit_run(v@.skip(from as int)) == (i - from) + digit_run(v@.skip(i as int)),
        decreases v@.len() - i,
    {
        assert(v@.skip(i as int)[0] == v@[i as int]);
        assert(v@.skip(i as int).skip(1) =~= v@.skip(i + 1));
        i = i + 1;
    }
    if i < v.len() {
        assert(v@.skip(i as int)[0] == v@[i as int]);
    }
    i
}

proof fn lemma_all_digits(s: Seq<char>)
    ensures
        all_digits(s) <==> digit_run(s) == s.len(),
    decreases s.len(),
{
    lemma_digit_run(s);
    if s.len() > 0 {
        if is_digit(s[0]) {
            lemma_all_digits(s.skip(1));
            assert(all_digits(s) <==> all_digits(s.skip(1))) by {
                if all_digits(s) {
                    assert forall|i: int| 0 <= i < s.skip(1).len() implies is_digit(#[trigger] s.skip(1)[i]) by {
                        assert(is_digit(s[i + 1]));
                    }
                }
                if all_digits(s.skip(1)) {
                    assert forall|i: int| 0 <= i < s.len() implies is_digit(#[trigger] s[i]) by {
                        if i > 0 {
                            assert(s.skip(1)[i - 1] == s[i]);
                        }
                    }
                }
            }
        } else {
            assert(!all_digits(s));
        }
    }
}

fn exponent_at(v: &Vec<char>, at: usize) -> (r: bool)
    requires
        at <= v@.len(),
    ensures
        r == is_exponent(v@.skip(at as int)),
{
    let n: usize = v.len();
    if at == n {
        return true;
    }
    let ghost s = v@.skip(at as int);
    assert(s[0] == v@[at as int]);
    if v[at] != 'e' && v[at] != 'E' {
        return false;
    }
    let mut from: usize = at + 1;
    assert(s.skip(1) =~= v@.skip(at + 1));
    if from < n && (v[from] == '+' || v[from] == '-') {
        from = from + 1;
        assert(s.skip(1).skip(1) =~= v@.skip(from as int));
    }
    assert(unsigned_part(s.skip(1)) == v@.skip(from as int));
    proof {
        lemma_all_digits(v@.skip(from as int));
    }
    from < n && run_end(v, from) == n
}

fn decimal_at(v: &Vec<char>, at: usize) -> (r: bool)
    requires
        at <= v@.len(),
    ensures
        r == is_decimal(v@.skip(at as int)),
{
    let ghost s = v@.skip(at as int);
    let a = run_end(v, at);
    assert(s.skip(a - at) =~= v@.skip(a as int));
    if a < v.len() && v[a] == '.' {
        let f = run_end(v, a + 1);
        assert(v@.skip(a as int).skip(1) =~= v@.skip(a + 1));
        assert(v@.skip(a + 1).skip(f - (a + 1)) =~= v@.skip(f as int));
        (a > at || f > a + 1) && exponent_at(v, f)
    } else {
        a > at && exponent_at(v, a)
    }
}

/// See [`is_number`].
pub fn reads_as_number(s: &str) -> (r: bool)
    ensures
        r == is_number(s@),
{
    let v = chars_of(s);
    let n: usize = v.len();
    let from: usize = if n > 0 && (v[0] == '+' || v[0] == '-') { 1 } else { 0 };
    assert(v@.skip(0) =~= v@);
    assert(v@.subrange(from as int, n as int) =~= v@.skip(from as int));
    let body = crate::text::slice_of(&v, from, n);
    assert(body@ == unsigned_part(s@));
    proof {
        reveal_strlit("inf");
        reveal_strlit("infinity");
        reveal_strlit("nan");
        assert(fold("inf"@) =~= "inf"@);
        assert(fold("infinity"@) =~= "infinity"@);
        assert(fold("nan"@) =~= "nan"@);
    }
    same_letters(body.as_str(), "inf") || same_letters(body.as_str(), "infinity") || same_letters(
        body.as_str(),
        "nan",
    ) || decimal_at(&v, from)
}

/// Folding moves the twenty-six capitals onto their small letters, leaves every other
/// character alone, and changes nothing more a second time.
pub proof fn law_folding_moves_capitals_alone(s: Seq<char>)
    ensures
        fold(s).len() == s.len(),
        forall|i: int| 0 <= i < s.len() && 'A' <= #[trigger] s[i] <= 'Z' ==> fold(s)[i] as int == s[i] as int + 32,
        forall|i: int| 0 <= i < s.len() && !('A' <= #[trigger] s[i] <= 'Z') ==> fold(s)[i] == s[i],
        fold(fold(s)) == fold(s),
{
    assert(fold(fold(s)) =~= fold(s));
}

/// A run of digits reads as a number, with a sign, with digits behind a point and with an
/// exponent too; a text without a digit does only where it says infinity or no number.
pub proof fn law_decimals_read_as_numbers(d: Seq<char>, f: Seq<char>)
    requires
        d.len() > 0,
        all_digits(d),
        all_digits(f),
    ensures
        is_number(d),
        is_number(seq!['-'] + d),
        is_number(seq!['+'] + d),
        is_number(d + seq!['.'] + f),
        is_number(seq!['.'] + d),
        is_number(d + seq!['e'] + d),
        is_number(d + seq!['E', '-'] + d),
{
    let e = Seq::<char>::empty();
    lemma_run_then(d, e);
    assert(d + e =~= d);
    assert(!(d[0] == '+' || d[0] == '-')) by {
        assert(is_digit(d[0]));
    }
    assert(d.skip(d.len() as int) =~= e);
    assert(is_decimal(d));
    assert((seq!['-'] + d).skip(1) =~= d);
    assert((seq!['+'] + d).skip(1) =~= d);
    let p = d + seq!['.'] + f;
    lemma_run_then(d, seq!['.'] + f);
    assert(d + (seq!['.'] + f) =~= p);
    assert(p.skip(d.len() as int) =~= seq!['.'] + f);
    assert((seq!['.'] + f).skip(1) =~= f + e);
    lemma_run_then(f, e);
    assert((f + e).skip(f.len() as int) =~= e);
    assert(is_decimal(p));
    let q = seq!['.'] + d;
    assert(digit_run(q) == 0);
    assert(q.skip(0) =~= q);
    assert(q.skip(1) =~= d + e);
    assert((d + e).skip(d.len() as int) =~= e);
    assert(is_decimal(q));
    let x = d + seq!['e'] + d;
    lemma_run_then(d, seq!['e'] + d);
    assert(d + (seq!['e'] + d) =~= x);
    assert(x.skip(d.len() as int) =~= seq!['e'] + d);
    assert((seq!['e'] + d).skip(1) =~= d);
    assert(is_decimal(x));
    let y = d + seq!['E', '-'] + d;
    lemma_run_then(d, seq!['E', '-'] + d);
    assert(d + (seq!['E', '-'] + d) =~= y);
    assert(y.skip(d.len() as int) =~= seq!['E', '-'] + d);
    assert((seq!['E', '-'] + d).skip(1) =~= seq!['-'] + d);
    assert(is_decimal(y));
}

proof fn lemma_run_then(d: Seq<char>, t: Seq<char>)
    requires
        all_digits(d),
        t.len() == 0 || !is_digit(t[0]),
    ensures
        digit_run(d + t) == d.len(),
    decreases d.len(),
{
    if d.len() > 0 {
        assert(is_digit(d[0]));
        let rest = d.skip(1);
        assert forall|i: int| 0 <= i < rest.len() implies is_digit(#[trigger] rest[i]) by {
            assert(is_digit(d[i + 1]));
        }
        assert((d + t).skip(1) =~= rest + t);
        lemma_run_then(rest, t);
    } else {
        assert(d + t =~= t);
    }
}

/// What reads as a number and holds no letter has a digit in it.
pub proof fn law_a_number_has_a_digit(s: Seq<char>)
    requires
        is_number(s),
        forall|i: int| 0 <= i < s.len() ==> !('a' <= small(#[trigger] s[i]) <= 'z'),
    ensures
        exists|i: int| 0 <= i < s.len() && is_digit(#[trigger] s[i]),
{
    let b = unsigned_part(s);
    let k: int = if b == s { 0 } else { 1 };
    assert forall|i: int| 0 <= i < b.len() implies #[trigger] b[i] == s[i + k] by {}
    reveal_strlit("inf");
    reveal_strlit("infinity");
    reveal_strlit("nan");
    if fold(b) == "inf"@ || fold(b) == "infinity"@ || fold(b) == "nan"@ {
        assert("inf"@.len() == 3 && "infinity"@.len() == 8 && "nan"@.len() == 3);
        assert(fold(b).len() == b.len());
        assert("inf"@[0] == 'i' && "infinity"@[0] == 'i' && "nan"@[0] == 'n');
        assert(fold(b)[0] == small(b[0]));
        assert(b[0] == s[k]);
    } else {
        let a = digit_run(b) as int;
        lemma_run_is_digits(b);
        if a > 0 {
            assert(is_digit(b[0]));
            assert(is_digit(s[k]));
        } else {
            let rest = b.skip(a);
            let t = rest.skip(1);
            lemma_run_is_digits(t);
            assert(is_digit(t[0]));
            assert(t[0] == b[1]);
            assert(is_digit(s[1 + k]));
        }
    }
}

proof fn lemma_run_is_digits(s: Seq<char>)
    ensures
        digit_run(s) > 0 ==> s.len() > 0 && is_digit(s[0]),
{
}

} // verus!
