//! Strings as sequences of characters: the small vocabulary in which the rest
//! of the library states what its labels, lines and keys read.

use vstd::prelude::*;
use vstd::arithmetic::power::pow;

verus! {

/// The characters of `s`, in order.
pub fn chars_of(s: &str) -> (r: Vec<char>)
    ensures
        r@ == s@,
{
    let mut out: Vec<char> = Vec::new();
    for c in it: s.chars()
        invariant
            out@ == s@.take(it.index()),
            it.seq() == s@,
    {
        out.push(c);
        assert(s@.take(it.index() + 1) =~= s@.take(it.index()).push(c));
    }
    assert(s@.take(s@.len() as int) =~= s@);
    out
}

/// Appends `v[from..to]` to `out`.
pub fn push_chars(out: &mut String, v: &Vec<char>, from: usize, to: usize)
    requires
        from <= to <= v@.len(),
    ensures
        final(out)@ == old(out)@ + v@.subrange(from as int, to as int),
{
    let ghost base = out@;
    let mut i: usize = from;
    assert(base + v@.subrange(from as int, from as int) =~= base);
    while i < to
        invariant
            from <= i <= to <= v@.len(),
            out@ == base + v@.subrange(from as int, i as int),
        decreases to - i,
    {
        out.push(v[i]);
        assert(v@.subrange(from as int, i + 1) =~= v@.subrange(from as int, i as int).push(v@[i as int]));
        assert((base + v@.subrange(from as int, i as int)).push(v@[i as int]) =~= base + v@.subrange(from as int, i + 1));
        i = i + 1;
    }
}

/// `v[from..to]` as a string.
pub fn slice_of(v: &Vec<char>, from: usize, to: usize) -> (r: String)
    requires
        from <= to <= v@.len(),
    ensures
        r@ == v@.subrange(from as int, to as int),
{
    let mut out = String::new();
    push_chars(&mut out, v, from, to);
    assert(Seq::<char>::empty() + v@.subrange(from as int, to as int) =~= v@.subrange(from as int, to as int));
    out
}

/// What a list of strings reads.
pub open spec fn views(v: Seq<String>) -> Seq<Seq<char>> {
    Seq::new(v.len(), |i: int| v[i]@)
}

/// `a` and `b` read the same.
pub fn same(a: &str, b: &str) -> (r: bool)
    ensures
        r == (a@ == b@),
{
    let x = chars_of(a);
    let y = chars_of(b);
    if x.len() != y.len() {
        return false;
    }
    let mut i: usize = 0;
    while i < x.len()
        invariant
            x@ == a@,
            y@ == b@,
            x@.len() == y@.len(),
            i <= x@.len(),
            x@.take(i as int) == y@.take(i as int),
        decreases x@.len() - i,
    {
        if x[i] != y[i] {
            assert(x@[i as int] != y@[i as int]);
            return false;
        }
        assert(x@.take(i + 1) =~= x@.take(i as int).push(x@[i as int]));
        assert(y@.take(i + 1) =~= y@.take(i as int).push(y@[i as int]));
        i = i + 1;
    }
    assert(x@.take(x@.len() as int) =~= x@);
    assert(y@.take(y@.len() as int) =~= y@);
    true
}


/// The digit of value `d`.
pub open spec fn digit(d: nat) -> char {
    (48 + d) as char
}

/// `n` in decimal, without leading zeros.
pub open spec fn dec(n: nat) -> Seq<char>
    decreases n,
{
    if n < 10 {
        seq![digit(n)]
    } else {
        dec(n / 10).push(digit(n % 10))
    }
}

/// `i` in decimal, with a minus sign where it is negative.
pub open spec fn dec_int(i: int) -> Seq<char> {
    if i < 0 {
        seq!['-'] + dec((-i) as nat)
    } else {
        dec(i as nat)
    }
}

/// `s` filled up on the left with zeros to at least `width` characters.
pub open spec fn zero_fill(s: Seq<char>, width: nat) -> Seq<char> {
    if s.len() >= width {
        s
    } else {
        Seq::new((width - s.len()) as nat, |i: int| '0') + s
    }
}

/// `i` in at least two places: the sign counts as one, zeros go behind it.
pub open spec fn dec_two(i: int) -> Seq<char> {
    if i < 0 {
        seq!['-'] + dec((-i) as nat)
    } else {
        zero_fill(dec(i as nat), 2)
    }
}

/// See [`digit`].
pub fn digit_char(d: u8) -> (c: char)
    requires
        d < 10,
    ensures
        c == digit(d as nat),
{
    (48 + d) as char
}

/// Appends `n` in decimal.
pub fn push_dec(out: &mut String, n: u64)
    ensures
        final(out)@ == old(out)@ + dec(n as nat),
    decreases n,
{
    let ghost base = out@;
    if n >= 10 {
        push_dec(out, n / 10);
    }
    out.push(digit_char((n % 10) as u8));
    proof {
        if n < 10 {
            assert(base.push(digit(n as nat)) =~= base + seq![digit(n as nat)]);
        } else {
            let head = dec((n / 10) as nat);
            let last = digit((n % 10) as nat);
            assert((base + head).push(last) =~= base + head.push(last));
        }
    }
}

/// Appends `n` in decimal.
pub fn push_dec_wide(out: &mut String, n: u128)
    ensures
        final(out)@ == old(out)@ + dec(n as nat),
    decreases n,
{
    let ghost base = out@;
    if n >= 10 {
        push_dec_wide(out, n / 10);
    }
    out.push(digit_char((n % 10) as u8));
    proof {
        if n < 10 {
            assert(base.push(digit(n as nat)) =~= base + seq![digit(n as nat)]);
        } else {
            let head = dec((n / 10) as nat);
            let last = digit((n % 10) as nat);
            assert((base + head).push(last) =~= base + head.push(last));
        }
    }
}

/// The distance of `i` from zero.
pub fn magnitude(i: i64) -> (m: u64)
    ensures
        m == if i < 0 { -i } else { i as int },
{
    if i >= 0 {
        i as u64
    } else {
        (-(i + 1)) as u64 + 1
    }
}

/// Appends `i` in decimal.
pub fn push_dec_int(out: &mut String, i: i64)
    ensures
        final(out)@ == old(out)@ + dec_int(i as int),
{
    let ghost base = out@;
    if i < 0 {
        out.push('-');
    }
    push_dec(out, magnitude(i));
    proof {
        if i < 0 {
            let tail = dec((-i) as nat);
            assert(base.push('-') + tail =~= base + (seq!['-'] + tail));
        }
    }
}

/// A decimal has at least one digit, and two or more from ten on.
pub proof fn lemma_dec_len(n: nat)
    ensures
        dec(n).len() >= 1,
        n < 10 <==> dec(n).len() == 1,
    decreases n,
{
    if n >= 10 {
        lemma_dec_len(n / 10);
    }
}

/// Appends `i` in at least two places.
pub fn push_dec_two(out: &mut String, i: i64)
    ensures
        final(out)@ == old(out)@ + dec_two(i as int),
{
    let ghost base = out@;
    proof {
        if i >= 0 {
            lemma_dec_len(i as nat);
        }
    }
    if 0 <= i && i < 10 {
        out.push('0');
    }
    push_dec_int(out, i);
    proof {
        if 0 <= i < 10 {
            let tail = dec(i as nat);
            assert(Seq::new(1, |j: int| '0') =~= seq!['0']);
            assert(base.push('0') + tail =~= base + (seq!['0'] + tail));
        }
    }
}

/// Appends `n` in at least `width` places.
pub fn push_zero_filled(out: &mut String, n: u64, width: usize)
    ensures
        final(out)@ == old(out)@ + zero_fill(dec(n as nat), width as nat),
{
    let ghost base = out@;
    let mut digits = String::new();
    push_dec(&mut digits, n);
    assert(digits@ =~= dec(n as nat));
    let len: usize = digits.as_str().unicode_len();
    let mut i: usize = len;
    let ghost zeros = |k: int| Seq::new(k as nat, |j: int| '0');
    assert(base + zeros(0) =~= base);
    while i < width
        invariant
            len <= i,
            i <= width || i == len,
            out@ == base + zeros(i - len),
            zeros == (|k: int| Seq::new(k as nat, |j: int| '0')),
        decreases width - i,
    {
        out.push('0');
        assert(out@ =~= base + zeros(i + 1 - len));
        i = i + 1;
    }
    out.append(digits.as_str());
    assert(out@ =~= base + zero_fill(dec(n as nat), width as nat));
}

/// `parts` with `sep` between each two.
pub open spec fn join(parts: Seq<Seq<char>>, sep: Seq<char>) -> Seq<char>
    decreases parts.len(),
{
    if parts.len() == 0 {
        Seq::empty()
    } else if parts.len() == 1 {
        parts[0]
    } else {
        join(parts.drop_last(), sep) + sep + parts.last()
    }
}

/// `parts` with `sep` between each two, as one string.
pub fn join_strings(parts: &Vec<String>, sep: &str) -> (r: String)
    ensures
        r@ == join(views(parts@), sep@),
{
    let mut out = String::new();
    let mut i: usize = 0;
    assert(views(parts@).take(0) =~= Seq::<Seq<char>>::empty());
    while i < parts.len()
        invariant
            i <= parts@.len(),
            out@ == join(views(parts@).take(i as int), sep@),
        decreases parts@.len() - i,
    {
        let ghost all = views(parts@);
        let ghost before = out@;
        if i > 0 {
            out.append(sep);
        }
        out.append(parts[i].as_str());
        proof {
            let next = all.take(i + 1);
            assert(next.drop_last() =~= all.take(i as int));
            assert(next.last() == parts@[i as int]@);
            if i == 0 {
                assert(before + parts@[0]@ =~= parts@[0]@);
            }
        }
        i = i + 1;
    }
    assert(views(parts@).take(i as int) =~= views(parts@));
    out
}

/// The White_Space characters of Unicode.
pub open spec fn is_space(c: char) -> bool {
    let n = c as u32;
    ||| 0x09 <= n <= 0x0d
    ||| n == 0x20
    ||| n == 0x85
    ||| n == 0xa0
    ||| n == 0x1680
    ||| 0x2000 <= n <= 0x200a
    ||| n == 0x2028
    ||| n == 0x2029
    ||| n == 0x202f
    ||| n == 0x205f
    ||| n == 0x3000
}

/// Whether `c` is white space.
pub fn space(c: char) -> (r: bool)
    ensures
        r == is_space(c),
{
    let n: u32 = c as u32;
    (0x09 <= n && n <= 0x0d) || n == 0x20 || n == 0x85 || n == 0xa0 || n == 0x1680
        || (0x2000 <= n && n <= 0x200a) || n == 0x2028 || n == 0x2029 || n == 0x202f
        || n == 0x205f || n == 0x3000
}

/// `s` without the white space in front.
pub open spec fn trim_start(s: Seq<char>) -> Seq<char>
    decreases s.len(),
{
    if s.len() > 0 && is_space(s[0]) {
        trim_start(s.skip(1))
    } else {
        s
    }
}

/// `s` without the white space behind.
pub open spec fn trim_end(s: Seq<char>) -> Seq<char>
    decreases s.len(),
{
    if s.len() > 0 && is_space(s.last()) {
        trim_end(s.drop_last())
    } else {
        s
    }
}

/// `s` without the white space at either end.
pub open spec fn trim(s: Seq<char>) -> Seq<char> {
    trim_end(trim_start(s))
}

/// The bounds of `v` without the white space at either end.
fn trim_bounds(v: &Vec<char>) -> (r: (usize, usize))
    ensures
        r.0 <= r.1 <= v@.len(),
        v@.subrange(r.0 as int, r.1 as int) == trim(v@),
{
    let n: usize = v.len();
    let mut a: usize = 0;
    assert(v@.skip(0) =~= v@);
    while a < n && space(v[a])
        invariant
            n == v@.len(),
            a <= n,
            trim_start(v@) == trim_start(v@.skip(a as int)),
        decreases n - a,
    {
        assert(v@.skip(a as int).skip(1) =~= v@.skip(a + 1));
        a = a + 1;
    }
    assert(trim_start(v@) == v@.skip(a as int));
    let ghost front = v@.skip(a as int);
    let mut b: usize = n;
    assert(v@.subrange(a as int, n as int) =~= front);
    while b > a && space(v[b - 1])
        invariant
            n == v@.len(),
            a <= b <= n,
            trim_end(front) == trim_end(v@.subrange(a as int, b as int)),
        decreases b,
    {
        assert(v@.subrange(a as int, b as int).drop_last() =~= v@.subrange(a as int, b - 1));
        b = b - 1;
    }
    (a, b)
}

/// `s` without the white space at either end.
pub fn trimmed(s: &str) -> (r: String)
    ensures
        r@ == trim(s@),
{
    let v = chars_of(s);
    let (a, b) = trim_bounds(&v);
    slice_of(&v, a, b)
}

/// `v` in decimal, followed by `unit`.
pub fn count_of(v: i64, unit: &str) -> (r: String)
    ensures
        r@ == dec_int(v as int) + unit@,
{
    let mut s = String::new();
    push_dec_int(&mut s, v);
    assert(s@ =~= dec_int(v as int));
    s.append(unit);
    s
}

/// `s` followed by `tail`.
pub fn followed(s: String, tail: &str) -> (r: String)
    ensures
        r@ == s@ + tail@,
{
    let mut r = s;
    r.append(tail);
    r
}

/// Division that rounds toward zero.
pub open spec fn trunc_div(a: int, b: int) -> int {
    if a < 0 { -((-a) / b) } else { a / b }
}

/// See [`trunc_div`].
pub fn divide(a: i64, b: i64) -> (r: i64)
    requires
        b > 0,
    ensures
        r == trunc_div(a as int, b as int),
{
    let m: u64 = magnitude(a) / (b as u64);
    let ghost x = if a < 0 { -a } else { a as int };
    assert(m == x / (b as int));
    assert(x / (b as int) <= x) by (nonlinear_arith)
        requires
            b >= 1,
            x >= 0,
    ;
    if a < 0 {
        if m == 0x8000_0000_0000_0000 {
            i64::MIN
        } else {
            -(m as i64)
        }
    } else {
        m as i64
    }
}


/// The runs of characters between white space, in order.
pub open spec fn words(s: Seq<char>) -> Seq<Seq<char>>
    decreases s.len(),
{
    if s.len() == 0 {
        Seq::empty()
    } else {
        let w = words(s.drop_last());
        let c = s.last();
        if is_space(c) {
            w
        } else if s.len() == 1 || is_space(s[s.len() - 2]) {
            w.push(seq![c])
        } else {
            w.drop_last().push(w.last().push(c))
        }
    }
}

/// See [`words`].
pub fn split_words(s: &str) -> (r: Vec<String>)
    ensures
        views(r@) == words(s@),
{
    let v = chars_of(s);
    let mut out: Vec<String> = Vec::new();
    let mut cur = String::new();
    let mut inside: bool = false;
    let mut i: usize = 0;
    assert(v@.take(0) =~= Seq::<char>::empty());
    assert(views(out@) =~= Seq::<Seq<char>>::empty());
    while i < v.len()
        invariant
            i <= v@.len(),
            inside == (i > 0 && !is_space(v@[i - 1])),
            inside ==> words(v@.take(i as int)) == views(out@).push(cur@),
            !inside ==> words(v@.take(i as int)) == views(out@) && cur@.len() == 0,
        decreases v@.len() - i,
    {
        let ghost next = v@.take(i + 1);
        let ghost before = views(out@);
        let ghost word = cur@;
        assert(next.drop_last() =~= v@.take(i as int));
        assert(next.last() == v@[i as int]);
        if i > 0 {
            assert(next[next.len() - 2] == v@[i - 1]);
        }
        let c = v[i];
        if space(c) {
            if inside {
                out.push(cur);
                cur = String::new();
                assert(views(out@) =~= before.push(word));
            }
            inside = false;
        } else {
            cur.push(c);
            if inside {
                assert(before.push(word).drop_last() =~= before);
            } else {
                assert(cur@ =~= seq![c]);
            }
            inside = true;
        }
        i = i + 1;
    }
    assert(v@.take(i as int) =~= v@);
    if inside {
        let ghost before = views(out@);
        let ghost word = cur@;
        out.push(cur);
        assert(views(out@) =~= before.push(word));
    }
    out
}

/// Whether `c` is a decimal digit.
pub open spec fn is_digit(c: char) -> bool {
    '0' <= c <= '9'
}

/// The number that a run of digits says.
pub open spec fn digits_value(s: Seq<char>) -> nat
    decreases s.len(),
{
    if s.len() == 0 {
        0
    } else {
        digits_value(s.drop_last()) * 10 + (s.last() as nat - 48) as nat
    }
}

/// Every character of `s` is a digit.
pub open spec fn all_digits(s: Seq<char>) -> bool {
    forall|i: int| 0 <= i < s.len() ==> is_digit(#[trigger] s[i])
}

/// `s` without a sign in front.
pub open spec fn unsigned_part(s: Seq<char>) -> Seq<char> {
    if s.len() > 0 && (s[0] == '+' || s[0] == '-') { s.skip(1) } else { s }
}

/// The 64-bit integer that `s` writes: an optional sign and digits, nothing else.
pub open spec fn parse_int(s: Seq<char>) -> Option<int> {
    let body = unsigned_part(s);
    if body.len() == 0 || !all_digits(body) {
        None
    } else {
        let v = if s[0] == '-' { -(digits_value(body) as int) } else { digits_value(body) as int };
        if i64::MIN <= v <= i64::MAX { Some(v) } else { None }
    }
}

/// The digits of `v` from `from` on: their number, `u128::MAX` where it is too
/// large to matter, nothing where one is no digit or there is none.
fn read_digits(v: &Vec<char>, from: usize) -> (r: Option<u128>)
    requires
        from <= v@.len(),
    ensures
        ({
            let body = v@.skip(from as int);
            &&& r is None <==> (body.len() == 0 || !all_digits(body))
            &&& r matches Some(n) ==> (n < 0x1_0000_0000_0000_0000_0000 && n == digits_value(body))
                || (n == u128::MAX && digits_value(body) >= 0x1_0000_0000_0000_0000)
        }),
{
    let n: usize = v.len();
    let ghost body = v@.skip(from as int);
    if from == n {
        return None;
    }
    let mut acc: u128 = 0;
    let mut big: bool = false;
    let mut i: usize = from;
    assert(body.take(0) =~= Seq::<char>::empty());
    while i < n
        invariant
            n == v@.len(),
            from <= i <= n,
            body == v@.skip(from as int),
            forall|j: int| 0 <= j < i - from ==> is_digit(#[trigger] body[j]),
            !big ==> acc == digits_value(body.take(i - from)) && acc < 0x1_0000_0000_0000_0000,
            big ==> digits_value(body.take(i - from)) >= 0x1_0000_0000_0000_0000,
        decreases n - i,
    {
        let c = v[i];
        assert(body[i - from] == c);
        if !('0' <= c && c <= '9') {
            return None;
        }
        let ghost next = body.take(i + 1 - from);
        assert(next.drop_last() =~= body.take(i - from));
        assert(next.last() == c);
        if !big {
            acc = acc * 10 + (c as u32 - 48) as u128;
            if acc >= 0x1_0000_0000_0000_0000 {
                big = true;
            }
        }
        i = i + 1;
    }
    assert(body.take(n - from) =~= body);
    if big {
        Some(u128::MAX)
    } else {
        Some(acc)
    }
}

/// See [`parse_int`].
pub fn parse_i64(s: &str) -> (r: Option<i64>)
    ensures
        r is Some <==> parse_int(s@) is Some,
        r matches Some(n) ==> Some(n as int) == parse_int(s@),
{
    let v = chars_of(s);
    if v.len() == 0 {
        return None;
    }
    let signed = v[0] == '+' || v[0] == '-';
    let from: usize = if signed {
        1
    } else {
        0
    };
    assert(v@.skip(0) =~= v@);
    assert(v@.skip(from as int) == unsigned_part(s@));
    match read_digits(&v, from) {
        None => None,
        Some(n) => {
            if v[0] == '-' {
                if n < 0x8000_0000_0000_0000 {
                    Some(-(n as i64))
                } else if n == 0x8000_0000_0000_0000 {
                    Some(i64::MIN)
                } else {
                    None
                }
            } else if n <= 0x7fff_ffff_ffff_ffff {
                Some(n as i64)
            } else {
                None
            }
        },
    }
}

/// `s` without a plus in front.
pub open spec fn plain_part(s: Seq<char>) -> Seq<char> {
    if s.len() > 0 && s[0] == '+' { s.skip(1) } else { s }
}

/// The place that `s` writes: digits, with a plus in front at most.
pub open spec fn parse_count(s: Seq<char>) -> Option<nat> {
    let body = plain_part(s);
    if body.len() == 0 || !all_digits(body) || digits_value(body) > usize::MAX { None } else { Some(digits_value(body)) }
}

/// See [`parse_count`].
pub fn parse_usize(s: &str) -> (r: Option<usize>)
    ensures
        r is Some <==> parse_count(s@) is Some,
        r matches Some(n) ==> Some(n as nat) == parse_count(s@),
{
    let v = chars_of(s);
    if v.len() == 0 {
        return None;
    }
    let from: usize = if v[0] == '+' { 1 } else { 0 };
    assert(v@.skip(0) =~= v@);
    assert(v@.skip(from as int) == plain_part(s@));
    match read_digits(&v, from) {
        None => None,
        Some(n) => {
            if n <= usize::MAX as u128 {
                Some(n as usize)
            } else {
                None
            }
        },
    }
}


/// The place of the first `c` in `s`, its length where there is none.
pub open spec fn place_of(s: Seq<char>, c: char) -> int
    decreases s.len(),
{
    if s.len() == 0 || s[0] == c {
        0
    } else {
        1 + place_of(s.skip(1), c)
    }
}

pub proof fn lemma_place_of(s: Seq<char>, c: char)
    ensures
        0 <= place_of(s, c) <= s.len(),
        place_of(s, c) < s.len() ==> s[place_of(s, c)] == c,
        forall|i: int| 0 <= i < place_of(s, c) ==> #[trigger] s[i] != c,
    decreases s.len(),
{
    if s.len() > 0 && s[0] != c {
        let t = s.skip(1);
        lemma_place_of(t, c);
        assert forall|i: int| 0 <= i < place_of(s, c) implies #[trigger] s[i] != c by {
            if i > 0 {
                assert(s[i] == t[i - 1]);
            }
        }
    }
}

/// The place of the first `c` in `v`, its length where there is none.
pub fn find_char(v: &Vec<char>, c: char) -> (r: usize)
    ensures
        r == place_of(v@, c),
        r <= v@.len(),
{
    let mut i: usize = 0;
    assert(v@.skip(0) =~= v@);
    while i < v.len() && v[i] != c
        invariant
            i <= v@.len(),
            place_of(v@, c) == i + place_of(v@.skip(i as int), c),
        decreases v@.len() - i,
    {
        assert(v@.skip(i as int).skip(1) =~= v@.skip(i + 1));
        i = i + 1;
    }
    proof {
        lemma_place_of(v@, c);
    }
    i
}

/// What stands in front of the first `c` and what behind it; nothing where there
/// is no `c`.
pub open spec fn cut(s: Seq<char>, c: char) -> Option<(Seq<char>, Seq<char>)> {
    let k = place_of(s, c);
    if k < s.len() { Some((s.take(k), s.skip(k + 1))) } else { None }
}

/// What an optional pair of strings reads.
pub open spec fn pair_view(p: Option<(String, String)>) -> Option<(Seq<char>, Seq<char>)> {
    match p {
        Some((a, b)) => Some((a@, b@)),
        None => None,
    }
}

/// See [`cut`].
pub fn split_once(s: &str, c: char) -> (r: Option<(String, String)>)
    ensures
        pair_view(r) == cut(s@, c),
{
    let v = chars_of(s);
    let k: usize = find_char(&v, c);
    if k < v.len() {
        let n: usize = v.len();
        let a = slice_of(&v, 0, k);
        let b = slice_of(&v, k + 1, n);
        assert(a@ =~= s@.take(k as int));
        assert(b@ =~= s@.skip(k + 1));
        Some((a, b))
    } else {
        None
    }
}

/// The pieces of `s` between the `c`s.
pub open spec fn pieces(s: Seq<char>, c: char) -> Seq<Seq<char>>
    decreases s.len(),
{
    if s.len() == 0 {
        seq![Seq::<char>::empty()]
    } else {
        let front = pieces(s.drop_last(), c);
        if s.last() == c {
            front.push(Seq::<char>::empty())
        } else {
            front.drop_last().push(front.last().push(s.last()))
        }
    }
}

/// See [`pieces`].
pub fn split_on(s: &str, c: char) -> (r: Vec<String>)
    ensures
        views(r@) == pieces(s@, c),
        r@.len() >= 1,
{
    let v = chars_of(s);
    let mut out: Vec<String> = Vec::new();
    let mut cur = String::new();
    let mut i: usize = 0;
    assert(v@.take(0) =~= Seq::<char>::empty());
    assert(views(out@).push(cur@) =~= seq![Seq::<char>::empty()]);
    while i < v.len()
        invariant
            i <= v@.len(),
            pieces(v@.take(i as int), c) == views(out@).push(cur@),
        decreases v@.len() - i,
    {
        let ghost before = views(out@);
        let ghost piece = cur@;
        assert(v@.take(i + 1).drop_last() =~= v@.take(i as int));
        if v[i] == c {
            out.push(cur);
            cur = String::new();
            assert(views(out@) =~= before.push(piece));
            assert(cur@ =~= Seq::<char>::empty());
        } else {
            cur.push(v[i]);
            assert(before.push(piece).drop_last() =~= before);
        }
        i = i + 1;
    }
    assert(v@.take(i as int) =~= v@);
    let ghost before = views(out@);
    let ghost piece = cur@;
    out.push(cur);
    assert(views(out@) =~= before.push(piece));
    out
}

/// A decimal is made of digits and says its number.
pub proof fn lemma_dec_reads_back(n: nat)
    ensures
        all_digits(dec(n)),
        digits_value(dec(n)) == n,
        dec(n).len() >= 1,
        is_digit(dec(n)[0]),
    decreases n,
{
    if n >= 10 {
        let head = dec(n / 10);
        lemma_dec_reads_back(n / 10);
        let d = dec(n);
        assert(d.drop_last() =~= head);
        assert forall|i: int| 0 <= i < d.len() implies is_digit(#[trigger] d[i]) by {
            if i < head.len() {
                assert(d[i] == head[i]);
            }
        }
        assert(d[0] == head[0]);
    } else {
        let d = dec(n);
        assert(d.drop_last() =~= Seq::<char>::empty());
        assert(digits_value(d.drop_last()) == 0);
        assert(d.last() as nat == 48 + n);
    }
}

/// An integer printed and parsed is itself.
pub proof fn law_integers_read_back(i: i64)
    ensures
        parse_int(dec_int(i as int)) == Some(i as int),
{
    if i < 0 {
        let d = dec((-i) as nat);
        lemma_dec_reads_back((-i) as nat);
        assert(dec_int(i as int).skip(1) =~= d);
        assert(unsigned_part(dec_int(i as int)) == d);
    } else {
        lemma_dec_reads_back(i as nat);
        assert(unsigned_part(dec_int(i as int)) == dec(i as nat));
    }
}

/// Zeros in front change nothing of the number that digits say, and they fill the places
/// that were asked for.
pub proof fn lemma_zero_fill_reads_back(n: nat, width: nat)
    ensures
        all_digits(zero_fill(dec(n), width)),
        digits_value(zero_fill(dec(n), width)) == n,
        zero_fill(dec(n), width).len() >= width,
        zero_fill(dec(n), width).len() > 0,
    decreases width,
{
    lemma_dec_reads_back(n);
    let d = dec(n);
    let f = zero_fill(d, width);
    if d.len() < width {
        let zeros = Seq::new((width - d.len()) as nat, |i: int| '0');
        assert forall|i: int| 0 <= i < f.len() implies is_digit(#[trigger] f[i]) by {
            if i >= zeros.len() {
                assert(f[i] == d[i - zeros.len()]);
            }
        }
        lemma_zeros_in_front(zeros, d);
    }
}

proof fn lemma_zeros_in_front(zeros: Seq<char>, d: Seq<char>)
    requires
        forall|i: int| 0 <= i < zeros.len() ==> zeros[i] == '0',
    ensures
        digits_value(zeros + d) == digits_value(d),
    decreases zeros.len() + d.len(),
{
    let f = zeros + d;
    if d.len() > 0 {
        assert(f.drop_last() =~= zeros + d.drop_last());
        lemma_zeros_in_front(zeros, d.drop_last());
    } else if zeros.len() > 0 {
        assert(f =~= zeros);
        assert(f.drop_last() =~= zeros.drop_last() + d);
        lemma_zeros_in_front(zeros.drop_last(), d);
    }
}

/// A number below ten to the power `width` takes at most so many digits.
pub proof fn lemma_dec_fits(n: nat, width: nat)
    requires
        n < pow(10, width),
        width >= 1,
    ensures
        dec(n).len() <= width,
    decreases width,
{
    reveal(pow);
    if n >= 10 {
        if width == 1 {
            assert(pow(10, 0) == 1);
        } else {
            let w = (width - 1) as nat;
            assert(pow(10, width) == 10 * pow(10, w));
            lemma_dec_fits(n / 10, w);
        }
    }
}

/// Digits that say the same number in as many places are the same.
pub proof fn lemma_same_digits(a: Seq<char>, b: Seq<char>)
    requires
        all_digits(a),
        all_digits(b),
        a.len() == b.len(),
        digits_value(a) == digits_value(b),
    ensures
        a == b,
    decreases a.len(),
{
    if a.len() > 0 {
        let (x, y) = (a.drop_last(), b.drop_last());
        assert(is_digit(a[a.len() - 1]) && is_digit(b[b.len() - 1]));
        assert forall|i: int| 0 <= i < x.len() implies is_digit(#[trigger] x[i]) by {
            assert(is_digit(a[i]));
        }
        assert forall|i: int| 0 <= i < y.len() implies is_digit(#[trigger] y[i]) by {
            assert(is_digit(b[i]));
        }
        lemma_same_digits(x, y);
        assert(a =~= x.push(a.last()));
        assert(b =~= y.push(b.last()));
    } else {
        assert(a =~= b);
    }
}

/// Digits behind others: those in front count so many tens.
pub proof fn lemma_digits_append(a: Seq<char>, b: Seq<char>)
    requires
        all_digits(b),
    ensures
        digits_value(a + b) == digits_value(a) * pow(10, b.len()) + digits_value(b),
        digits_value(b) < pow(10, b.len()),
    decreases b.len(),
{
    reveal(pow);
    if b.len() == 0 {
        assert(a + b =~= a);
    } else {
        let f = b.drop_last();
        assert(is_digit(b[b.len() - 1]));
        assert forall|i: int| 0 <= i < f.len() implies is_digit(#[trigger] f[i]) by {
            assert(is_digit(b[i]));
        }
        lemma_digits_append(a, f);
        assert((a + b).drop_last() =~= a + f);
        let (x, p) = (digits_value(a) as int, pow(10, f.len()));
        assert(pow(10, b.len()) == 10 * p);
        assert((x * p) * 10 == x * (10 * p)) by (nonlinear_arith);
    }
}

/// A trimmed text is what is left of it once the white space at both ends is gone: neither
/// end of it is white space, and nothing but white space was taken.
pub proof fn law_trimming_takes_white_space_alone(s: Seq<char>) -> (r: (int, int))
    ensures
        0 <= r.0 <= r.1 <= s.len(),
        trim(s) == s.subrange(r.0, r.1),
        forall|i: int| 0 <= i < r.0 || r.1 <= i < s.len() ==> is_space(#[trigger] s[i]),
        r.0 < r.1 ==> !is_space(s[r.0]) && !is_space(s[r.1 - 1]),
{
    let a = lemma_front_trimmed(s);
    let t = s.skip(a);
    let b = lemma_back_trimmed(t);
    let r = (a, a + b);
    assert(trim(s) =~= s.subrange(a, a + b));
    assert forall|i: int| 0 <= i < r.0 || r.1 <= i < s.len() implies is_space(#[trigger] s[i]) by {
        if i >= r.1 {
            assert(t[i - a] == s[i]);
        }
    }
    if b > 0 {
        assert(t[b - 1] == s[a + b - 1]);
        assert(t[0] == s[a]);
    }
    r
}

proof fn lemma_front_trimmed(s: Seq<char>) -> (a: int)
    ensures
        0 <= a <= s.len(),
        trim_start(s) == s.skip(a),
        forall|i: int| 0 <= i < a ==> is_space(#[trigger] s[i]),
        a < s.len() ==> !is_space(s[a]),
    decreases s.len(),
{
    if s.len() > 0 && is_space(s[0]) {
        let rest = s.skip(1);
        let b = lemma_front_trimmed(rest);
        assert(rest.skip(b) =~= s.skip(b + 1));
        assert forall|i: int| 0 <= i < b + 1 implies is_space(#[trigger] s[i]) by {
            if i > 0 {
                assert(rest[i - 1] == s[i]);
            }
        }
        if b < rest.len() {
            assert(rest[b] == s[b + 1]);
        }
        b + 1
    } else {
        assert(s.skip(0) =~= s);
        0
    }
}

proof fn lemma_back_trimmed(s: Seq<char>) -> (b: int)
    ensures
        0 <= b <= s.len(),
        trim_end(s) == s.take(b),
        forall|i: int| b <= i < s.len() ==> is_space(#[trigger] s[i]),
        b > 0 ==> !is_space(s[b - 1]),
    decreases s.len(),
{
    if s.len() > 0 && is_space(s.last()) {
        let front = s.drop_last();
        let b = lemma_back_trimmed(front);
        assert(front.take(b) =~= s.take(b));
        assert forall|i: int| b <= i < s.len() implies is_space(#[trigger] s[i]) by {
            if i < front.len() {
                assert(front[i] == s[i]);
            }
        }
        b
    } else {
        assert(s.take(s.len() as int) =~= s);
        s.len() as int
    }
}

/// The pieces of a text, with the character that parts them between each two, are the text
/// again, and no piece holds that character.
pub proof fn law_pieces_go_together_again(s: Seq<char>, c: char)
    ensures
        pieces(s, c).len() > 0,
        join(pieces(s, c), seq![c]) == s,
        forall|k: int, i: int| 0 <= k < pieces(s, c).len() && 0 <= i < pieces(s, c)[k].len() ==> #[trigger] pieces(s, c)[k][i] != c,
    decreases s.len(),
{
    let p = pieces(s, c);
    if s.len() == 0 {
        assert(join(p, seq![c]) =~= s);
    } else {
        let t = s.drop_last();
        let front = pieces(t, c);
        law_pieces_go_together_again(t, c);
        if s.last() == c {
            assert(p.drop_last() =~= front);
            assert(join(p, seq![c]) =~= t + seq![c]);
            assert(t + seq![c] =~= s);
            assert forall|k: int, i: int| 0 <= k < p.len() && 0 <= i < p[k].len() implies #[trigger] p[k][i] != c by {
                if k < front.len() {
                    assert(p[k] == front[k]);
                }
            }
        } else {
            assert(p.drop_last() =~= front.drop_last());
            assert(p.last() == front.last().push(s.last()));
            if front.len() > 1 {
                assert(join(p, seq![c]) =~= join(front, seq![c]).push(s.last()));
            } else {
                assert(join(p, seq![c]) =~= join(front, seq![c]).push(s.last()));
            }
            assert(t.push(s.last()) =~= s);
            assert forall|k: int, i: int| 0 <= k < p.len() && 0 <= i < p[k].len() implies #[trigger] p[k][i] != c by {
                if k < front.len() - 1 {
                    assert(p[k] == front[k]);
                } else if i < front.last().len() {
                    assert(front[k][i] != c);
                }
            }
        }
    }
}

/// A text that is cut at a character is the two parts with that character between, and the
/// first holds none; it is cut exactly where it holds one.
pub proof fn law_a_cut_text_goes_together_again(s: Seq<char>, c: char)
    ensures
        cut(s, c) matches Some((a, b)) ==> s == a.push(c) + b && !a.contains(c),
        cut(s, c) is None ==> !s.contains(c),
{
    lemma_place_of(s, c);
    let k = place_of(s, c);
    if k < s.len() {
        assert(s.take(k).push(c) + s.skip(k + 1) =~= s);
        assert forall|i: int| 0 <= i < k implies s.take(k)[i] != c by {
            assert(s[i] != c);
        }
    }
}

/// Joining text keeps every part in its order: a further part comes behind, parted from
/// what is there already.
pub proof fn law_a_joined_text_has_every_part(a: Seq<Seq<char>>, b: Seq<Seq<char>>, sep: Seq<char>)
    ensures
        a.len() > 0 && b.len() > 0 ==> join(a + b, sep) == join(a, sep) + sep + join(b, sep),
        b.len() == 0 ==> join(a + b, sep) == join(a, sep),
        a.len() == 0 ==> join(a + b, sep) == join(b, sep),
        a.len() == 1 ==> join(a, sep) == a[0],
    decreases b.len(),
{
    if b.len() == 0 {
        assert(a + b =~= a);
    } else if a.len() == 0 {
        assert(a + b =~= b);
    } else {
        assert((a + b).drop_last() =~= a + b.drop_last());
        law_a_joined_text_has_every_part(a, b.drop_last(), sep);
        if b.len() == 1 {
            assert(a + b.drop_last() =~= a);
            assert(join(b, sep) == b[0]);
        } else {
            assert(join(a + b, sep) =~= join(a, sep) + sep + join(b, sep));
        }
    }
}

/// Whether a text stands between two places as a whole word: no white space in it, and
/// white space or an end of the text on either side.
pub open spec fn stands_as_word(s: Seq<char>, a: int, b: int) -> bool {
    &&& 0 <= a < b <= s.len()
    &&& forall|i: int| a <= i < b ==> !is_space(#[trigger] s[i])
    &&& a == 0 || is_space(s[a - 1])
    &&& b == s.len() || is_space(s[b])
}

/// The words of a text are the runs of characters without white space, all of them, in
/// their order.
pub proof fn law_words_are_the_runs_between_white_space(s: Seq<char>) -> (at: Seq<(int, int)>)
    ensures
        words(s).len() == at.len(),
        forall|k: int| 0 <= k < at.len() ==> stands_as_word(s, (#[trigger] at[k]).0, at[k].1) && words(s)[k] == s.subrange(at[k].0, at[k].1),
        forall|j: int, k: int| 0 <= j < k < at.len() ==> (#[trigger] at[j]).1 < (#[trigger] at[k]).0,
        forall|i: int| 0 <= i < s.len() && !is_space(#[trigger] s[i]) ==> exists|k: int| 0 <= k < at.len() && (#[trigger] at[k]).0 <= i < at[k].1,
    decreases s.len(),
{
    if s.len() == 0 {
        Seq::empty()
    } else {
        let t = s.drop_last();
        let n = t.len() as int;
        let c = s.last();
        let before = law_words_are_the_runs_between_white_space(t);
        assert forall|i: int| 0 <= i < n implies #[trigger] s[i] == t[i] by {}
        if is_space(c) {
            assert forall|k: int| 0 <= k < before.len() implies stands_as_word(s, (#[trigger] before[k]).0, before[k].1) && words(s)[k] == s.subrange(before[k].0, before[k].1) by {
                assert(s.subrange(before[k].0, before[k].1) =~= t.subrange(before[k].0, before[k].1));
            }
            before
        } else if s.len() == 1 || is_space(s[s.len() - 2]) {
            let at = before.push((n, n + 1));
            assert forall|k: int| 0 <= k < before.len() implies (#[trigger] before[k]).1 < n by {
                assert(stands_as_word(t, before[k].0, before[k].1));
                if before[k].1 == n {
                    assert(!is_space(t[n - 1]));
                }
            }
            assert forall|k: int| 0 <= k < at.len() implies stands_as_word(s, (#[trigger] at[k]).0, at[k].1) && words(s)[k] == s.subrange(at[k].0, at[k].1) by {
                if k < before.len() {
                    assert(at[k] == before[k]);
                    assert(s.subrange(before[k].0, before[k].1) =~= t.subrange(before[k].0, before[k].1));
                } else {
                    assert(s.subrange(n, n + 1) =~= seq![c]);
                }
            }
            assert forall|i: int| 0 <= i < s.len() && !is_space(#[trigger] s[i]) implies exists|k: int| 0 <= k < at.len() && (#[trigger] at[k]).0 <= i < at[k].1 by {
                if i < n {
                    let k = choose|k: int| 0 <= k < before.len() && (#[trigger] before[k]).0 <= i < before[k].1;
                    assert(at[k] == before[k]);
                } else {
                    assert(at[before.len() as int] == (n, n + 1));
                }
            }
            at
        } else {
            assert(!is_space(t[n - 1]));
            let last = choose|k: int| 0 <= k < before.len() && (#[trigger] before[k]).0 <= n - 1 < before[k].1;
            assert(last == before.len() - 1) by {
                if last < before.len() - 1 {
                    assert(before[last].1 < before[before.len() - 1].0);
                    assert(stands_as_word(t, before[before.len() - 1].0, before[before.len() - 1].1));
                }
            }
            let f = before[last].0;
            assert(stands_as_word(t, f, before[last].1));
            assert(before[last].1 == n);
            let at = before.drop_last().push((f, n + 1));
            assert forall|k: int| 0 <= k < at.len() implies stands_as_word(s, (#[trigger] at[k]).0, at[k].1) && words(s)[k] == s.subrange(at[k].0, at[k].1) by {
                if k < last {
                    assert(at[k] == before[k]);
                    assert(before[k].1 < f);
                    assert(s.subrange(before[k].0, before[k].1) =~= t.subrange(before[k].0, before[k].1));
                } else {
                    assert(s.subrange(f, n + 1) =~= t.subrange(f, n).push(c));
                }
            }
            assert forall|j: int, k: int| 0 <= j < k < at.len() implies (#[trigger] at[j]).1 < (#[trigger] at[k]).0 by {
                assert(at[j] == before[j]);
                assert(before[j].1 < before[k].0);
            }
            assert forall|i: int| 0 <= i < s.len() && !is_space(#[trigger] s[i]) implies exists|k: int| 0 <= k < at.len() && (#[trigger] at[k]).0 <= i < at[k].1 by {
                if i < n {
                    let k = choose|k: int| 0 <= k < before.len() && (#[trigger] before[k]).0 <= i < before[k].1;
                    if k < last {
                        assert(at[k] == before[k]);
                    } else {
                        assert(at[last] == (f, n + 1));
                    }
                } else {
                    assert(at[last] == (f, n + 1));
                }
            }
            at
        }
    }
}

/// A quotient that rounds toward zero has the sign that the dividend has, or is zero, and
/// what is left over is less than the divisor.
pub proof fn law_division_rounds_toward_zero(a: int, b: int)
    requires
        b > 0,
    ensures
        a >= 0 ==> 0 <= trunc_div(a, b) * b <= a < (trunc_div(a, b) + 1) * b,
        a < 0 ==> (trunc_div(a, b) - 1) * b < a <= trunc_div(a, b) * b <= 0,
{
    let x = if a < 0 { -a } else { a };
    let q = x / b;
    assert(0 <= q * b <= x < (q + 1) * b) by (nonlinear_arith)
        requires
            b > 0,
            x >= 0,
            q == x / b,
    ;
    if a < 0 {
        assert(trunc_div(a, b) == -q);
        assert((-q) * b == -(q * b) && (-q - 1) * b == -((q + 1) * b)) by (nonlinear_arith);
    }
}

/// White space is the tab and what stands behind it up to the carriage return, the space,
/// and the spaces and line ends of Unicode; a letter, a digit and a sign are none.
pub proof fn law_what_prints_is_no_white_space(c: char)
    requires
        '!' <= c <= '~',
    ensures
        !is_space(c),
        is_space(' ') && is_space('\t') && is_space('\n') && is_space('\r'),
{
}

/// A count that is written reads as its number, with or without a plus; what is no run of
/// digits reads as none.
pub proof fn law_counts_read_back(n: nat, s: Seq<char>)
    requires
        n <= usize::MAX,
    ensures
        parse_count(dec(n)) == Some(n),
        parse_count(seq!['+'] + dec(n)) == Some(n),
        parse_count(Seq::empty()) is None,
        s.contains('-') ==> parse_count(s) is None,
{
    lemma_dec_reads_back(n);
    lemma_dec_len(n);
    let d = dec(n);
    assert(is_digit(d[0]));
    assert((seq!['+'] + d).skip(1) =~= d);
    if s.contains('-') {
        let k = choose|k: int| 0 <= k < s.len() && s[k] == '-';
        let body = plain_part(s);
        if s[0] == '+' {
            assert(body[k - 1] == '-');
        } else {
            assert(body[k] == '-');
        }
    }
}

} // verus!
