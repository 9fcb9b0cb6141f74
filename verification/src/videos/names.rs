//! What file names and dates say: seasons and episodes, release dates, and the
//! names under which posters are kept.

use vstd::prelude::*;
use crate::ascii::{ascii_lowercase, digit_run, fold};
use crate::outside::{sha256, sha256_of};
use crate::sync::hex::{hex, hex_text};
use crate::text::{
    all_digits, chars_of, dec, dec_int, digit, digits_value, is_digit, lemma_dec_fits, lemma_zero_fill_reads_back,
    parse_i64, parse_int, push_dec_int, same, slice_of, zero_fill,
};
use vstd::utf8::encode_utf8;

verus! {

/// How many digits a text begins with, `most` at most.
pub open spec fn digits_up_to(s: Seq<char>, most: nat) -> int {
    if digit_run(s) > most { most as int } else { digit_run(s) as int }
}

/// How many separators a text begins with: dots, blanks, underscores, hyphens.
pub open spec fn separators(s: Seq<char>) -> nat
    decreases s.len(),
{
    if s.len() > 0 && (s[0] == '.' || s[0] == ' ' || s[0] == '_' || s[0] == '-') {
        1 + separators(s.skip(1))
    } else {
        0
    }
}

/// The season and episode that a text in small letters begins with: an `s`, one or
/// two digits, separators, an `e`, one to three digits.
pub open spec fn tag_here(s: Seq<char>) -> Option<(int, int)> {
    if s.len() == 0 || s[0] != 's' {
        None
    } else {
        let a = digits_up_to(s.skip(1), 2);
        let rest = s.skip(1 + a);
        let gap = separators(rest) as int;
        let after = rest.skip(gap);
        if a == 0 || after.len() == 0 || after[0] != 'e' {
            None
        } else {
            let b = digits_up_to(after.skip(1), 3);
            if b == 0 {
                None
            } else {
                Some(
                    (
                        digits_value(s.subrange(1, 1 + a)) as int,
                        digits_value(after.subrange(1, 1 + b)) as int,
                    ),
                )
            }
        }
    }
}

/// The first season and episode in a text in small letters.
pub open spec fn first_tag(s: Seq<char>) -> Option<(int, int)>
    decreases s.len(),
{
    if s.len() == 0 {
        None
    } else if tag_here(s) is Some {
        tag_here(s)
    } else {
        first_tag(s.skip(1))
    }
}

fn run_from(v: &Vec<char>, from: usize, most: usize) -> (r: usize)
    requires
        from <= v@.len(),
        most <= 3,
    ensures
        from <= r <= v@.len(),
        r - from == digits_up_to(v@.skip(from as int), most as nat),
        forall|i: int| from <= i < r ==> is_digit(#[trigger] v@[i]),
        r - from <= most,
{
    let mut i: usize = from;
    let n: usize = v.len();
    while i < n && i - from < most && '0' <= v[i] && v[i] <= '9'
        invariant
            n == v@.len(),
            from <= i <= n,
            most <= 3,
            i - from <= most,
            digit_run(v@.skip(from as int)) == (i - from) + digit_run(v@.skip(i as int)),
            forall|j: int| from <= j < i ==> is_digit(#[trigger] v@[j]),
        decreases n - i,
    {
        assert(v@.skip(i as int)[0] == v@[i as int]);
        assert(v@.skip(i as int).skip(1) =~= v@.skip(i + 1));
        i = i + 1;
    }
    if i < n {
        assert(v@.skip(i as int)[0] == v@[i as int]);
    }
    i
}

/// The value of the digits between two places, three at most.
fn small_value(v: &Vec<char>, from: usize, to: usize) -> (r: i64)
    requires
        from <= to <= v@.len(),
        to - from <= 3,
        forall|i: int| from <= i < to ==> is_digit(#[trigger] v@[i]),
    ensures
        r == digits_value(v@.subrange(from as int, to as int)),
        0 <= r <= 999,
{
    let ghost s = v@.subrange(from as int, to as int);
    let mut r: i64 = 0;
    let mut i: usize = from;
    assert(v@.subrange(from as int, from as int) =~= Seq::<char>::empty());
    while i < to
        invariant
            from <= i <= to <= v@.len(),
            to - from <= 3,
            forall|j: int| from <= j < to ==> is_digit(#[trigger] v@[j]),
            r == digits_value(v@.subrange(from as int, i as int)),
            0 <= r,
            i - from == 0 ==> r == 0,
            i - from == 1 ==> r <= 9,
            i - from == 2 ==> r <= 99,
            i - from == 3 ==> r <= 999,
        decreases to - i,
    {
        let ghost next = v@.subrange(from as int, i + 1);
        assert(next.drop_last() =~= v@.subrange(from as int, i as int));
        assert(next.last() == v@[i as int]);
        let c = v[i];
        assert(is_digit(v@[i as int]));
        r = r * 10 + digit_of(c);
        i = i + 1;
    }
    r
}

fn digit_of(c: char) -> (r: i64)
    requires
        is_digit(c),
    ensures
        r == c as int - 48,
        0 <= r <= 9,
{
    (c as u32 - 48) as i64
}

fn gap_end(v: &Vec<char>, from: usize) -> (r: usize)
    requires
        from <= v@.len(),
    ensures
        from <= r <= v@.len(),
        r - from == separators(v@.skip(from as int)),
{
    let mut i: usize = from;
    let n: usize = v.len();
    while i < n && (v[i] == '.' || v[i] == ' ' || v[i] == '_' || v[i] == '-')
        invariant
            n == v@.len(),
            from <= i <= n,
            separators(v@.skip(from as int)) == (i - from) + separators(v@.skip(i as int)),
        decreases n - i,
    {
        assert(v@.skip(i as int)[0] == v@[i as int]);
        assert(v@.skip(i as int).skip(1) =~= v@.skip(i + 1));
        i = i + 1;
    }
    if i < n {
        assert(v@.skip(i as int)[0] == v@[i as int]);
    }
    i
}

/// Two numbers as they are.
pub open spec fn numbers(p: Option<(i64, i64)>) -> Option<(int, int)> {
    match p {
        Some((a, b)) => Some((a as int, b as int)),
        None => None,
    }
}

fn tag_at(v: &Vec<char>, at: usize) -> (r: Option<(i64, i64)>)
    requires
        at < v@.len(),
    ensures
        numbers(r) == tag_here(v@.skip(at as int)),
{
    let n: usize = v.len();
    let ghost s = v@.skip(at as int);
    assert(s[0] == v@[at as int]);
    if v[at] != 's' {
        return None;
    }
    assert(s.skip(1) =~= v@.skip(at + 1));
    let j = run_from(v, at + 1, 2);
    let ghost a = j - (at + 1);
    assert(s.skip(1 + a) =~= v@.skip(j as int));
    if j == at + 1 {
        return None;
    }
    let k = gap_end(v, j);
    assert(v@.skip(j as int).skip(k - j) =~= v@.skip(k as int));
    if k < n {
        assert(v@.skip(k as int)[0] == v@[k as int]);
        if v[k] == 'e' {
            assert(v@.skip(k as int).skip(1) =~= v@.skip(k + 1));
            let e = run_from(v, k + 1, 3);
            if e > k + 1 {
                let season = small_value(v, at + 1, j);
                let episode = small_value(v, k + 1, e);
                assert(s.subrange(1, 1 + a) =~= v@.subrange(at + 1, j as int));
                assert(v@.skip(k as int).subrange(1, 1 + (e - (k + 1))) =~= v@.subrange(k + 1, e as int));
                return Some((season, episode));
            }
        }
    }
    None
}

/// The season and episode that a file name carries, as in `S01E02`, `s1.e2` or
/// `S01 E02`; the first of several.
pub fn parse_season_episode(name: &str) -> (r: Option<(i64, i64)>)
    ensures
        numbers(r) == first_tag(fold(name@)),
        r matches Some((s, e)) ==> 0 <= s <= 99 && 0 <= e <= 999,
{
    let lower = ascii_lowercase(name);
    let v = chars_of(lower.as_str());
    let mut i: usize = 0;
    assert(v@.skip(0) =~= v@);
    while i < v.len()
        invariant
            i <= v@.len(),
            v@ == fold(name@),
            first_tag(v@) == first_tag(v@.skip(i as int)),
        decreases v@.len() - i,
    {
        assert(v@.skip(i as int).skip(1) =~= v@.skip(i + 1));
        match tag_at(&v, i) {
            Some(t) => {
                proof {
                    let s = v@.skip(i as int);
                    let a = digits_up_to(s.skip(1), 2);
                    lemma_two_digits(s.subrange(1, 1 + a));
                    let after = s.skip(1 + a).skip(separators(s.skip(1 + a)) as int);
                    lemma_three_digits(after.subrange(1, 1 + digits_up_to(after.skip(1), 3)));
                    lemma_run_is_digits(s.skip(1), 2);
                    lemma_run_is_digits(after.skip(1), 3);
                }
                return Some(t);
            },
            None => {},
        }
        i = i + 1;
    }
    None
}

proof fn lemma_run_is_digits(s: Seq<char>, most: nat)
    ensures
        digits_up_to(s, most) <= s.len(),
        forall|i: int| 0 <= i < digits_up_to(s, most) ==> is_digit(#[trigger] s[i]),
    decreases s.len(),
{
    if s.len() > 0 && is_digit(s[0]) {
        lemma_run_is_digits(s.skip(1), if most > 0 { (most - 1) as nat } else { 0 });
        assert forall|i: int| 0 <= i < digits_up_to(s, most) implies is_digit(#[trigger] s[i]) by {
            if i > 0 {
                assert(s.skip(1)[i - 1] == s[i]);
            }
        }
    }
}

proof fn lemma_two_digits(s: Seq<char>)
    ensures
        s.len() <= 2 && (forall|i: int| 0 <= i < s.len() ==> is_digit(#[trigger] s[i])) ==> digits_value(s) <= 99,
{
    reveal_with_fuel(digits_value, 4);
    if s.len() <= 2 && (forall|i: int| 0 <= i < s.len() ==> is_digit(#[trigger] s[i])) {
        if s.len() > 0 {
            assert(is_digit(s[s.len() - 1]));
        }
        if s.len() > 1 {
            assert(is_digit(s[0]));
            assert(s.drop_last().last() == s[0]);
        }
    }
}

proof fn lemma_three_digits(s: Seq<char>)
    ensures
        s.len() <= 3 && (forall|i: int| 0 <= i < s.len() ==> is_digit(#[trigger] s[i])) ==> digits_value(s) <= 999,
{
    reveal_with_fuel(digits_value, 2);
    if s.len() <= 3 && (forall|i: int| 0 <= i < s.len() ==> is_digit(#[trigger] s[i])) && s.len() > 0 {
        let front = s.drop_last();
        assert forall|i: int| 0 <= i < front.len() implies is_digit(#[trigger] front[i]) by {
            assert(is_digit(s[i]));
        }
        lemma_two_digits(front);
        assert(is_digit(s[s.len() - 1]));
    }
}

/// What a file that carries a season and an episode belongs to: the show is named
/// by the folder that the file lies in.
pub open spec fn episode_of(name: Seq<char>, folder: Option<Seq<char>>) -> Option<(int, int, Seq<char>)> {
    match first_tag(fold(name)) {
        Some((s, e)) => Some(
            (
                s,
                e,
                match folder {
                    Some(f) => f,
                    None => "Unknown Show"@,
                },
            ),
        ),
        None => None,
    }
}

/// See [`episode_of`].
pub fn classify(name: &str, folder: &Option<String>) -> (r: Option<(i64, i64, String)>)
    ensures
        (match r {
            Some((s, e, t)) => Some((s as int, e as int, t@)),
            None => None,
        }) == episode_of(name@, crate::status::figures::opt_string(*folder)),
{
    match parse_season_episode(name) {
        Some((s, e)) => {
            let title = match folder {
                Some(f) => f.clone(),
                None => "Unknown Show".to_owned(),
            };
            Some((s, e, title))
        },
        None => None,
    }
}

/// How many bytes a character takes in UTF-8.
pub open spec fn byte_width(c: char) -> nat {
    let n = c as int;
    if n < 0x80 {
        1
    } else if n < 0x800 {
        2
    } else if n < 0x10000 {
        3
    } else {
        4
    }
}

/// How many bytes a text takes in UTF-8.
pub open spec fn byte_length(s: Seq<char>) -> nat
    decreases s.len(),
{
    if s.len() == 0 {
        0
    } else {
        byte_width(s[0]) + byte_length(s.skip(1))
    }
}

/// The number of characters whose bytes come to `n`, nothing where byte `n` falls
/// inside a character or behind the text.
pub open spec fn chars_at(s: Seq<char>, n: int) -> Option<int>
    decreases s.len(),
{
    if n == 0 {
        Some(0)
    } else if s.len() == 0 || n < byte_width(s[0]) {
        None
    } else {
        match chars_at(s.skip(1), n - byte_width(s[0])) {
            Some(k) => Some(k + 1),
            None => None,
        }
    }
}

/// The characters between two byte places.
pub open spec fn bytes_between(s: Seq<char>, a: int, b: int) -> Seq<char> {
    s.subrange(chars_at(s, a)->0, chars_at(s, b)->0)
}

fn width_of(c: char) -> (r: usize)
    ensures
        r == byte_width(c),
{
    let n: u32 = c as u32;
    if n < 0x80 {
        1
    } else if n < 0x800 {
        2
    } else if n < 0x10000 {
        3
    } else {
        4
    }
}

fn place_at(v: &Vec<char>, n: usize) -> (r: Option<usize>)
    requires
        n <= 10,
    ensures
        r is Some <==> chars_at(v@, n as int) is Some,
        r matches Some(k) ==> Some(k as int) == chars_at(v@, n as int) && k <= v@.len(),
{
    let mut i: usize = 0;
    let mut left: usize = n;
    assert(v@.skip(0) =~= v@);
    loop
        invariant
            i <= v@.len(),
            left <= n <= 10,
            chars_at(v@, n as int) == (match chars_at(v@.skip(i as int), left as int) {
                Some(k) => Some(k + i),
                None => None,
            }),
        decreases v@.len() - i,
    {
        if left == 0 {
            return Some(i);
        }
        if i == v.len() {
            return None;
        }
        assert(v@.skip(i as int)[0] == v@[i as int]);
        assert(v@.skip(i as int).skip(1) =~= v@.skip(i + 1));
        let w = width_of(v[i]);
        if left < w {
            return None;
        }
        left = left - w;
        i = i + 1;
    }
}

proof fn lemma_chars_at(s: Seq<char>, a: int, b: int)
    requires
        0 <= a <= b,
        chars_at(s, a) is Some,
        chars_at(s, b) is Some,
    ensures
        0 <= chars_at(s, a)->0 <= chars_at(s, b)->0 <= s.len(),
    decreases s.len(),
{
    if a > 0 {
        lemma_chars_at(s.skip(1), a - byte_width(s[0]), b - byte_width(s[0]));
    } else if b > 0 {
        lemma_chars_at(s.skip(1), 0, b - byte_width(s[0]));
    }
}

/// The name of a month by its two digits.
pub open spec fn month_name(mm: Seq<char>) -> Option<Seq<char>> {
    if mm == "01"@ {
        Some("Jan"@)
    } else if mm == "02"@ {
        Some("Feb"@)
    } else if mm == "03"@ {
        Some("Mar"@)
    } else if mm == "04"@ {
        Some("Apr"@)
    } else if mm == "05"@ {
        Some("May"@)
    } else if mm == "06"@ {
        Some("Jun"@)
    } else if mm == "07"@ {
        Some("Jul"@)
    } else if mm == "08"@ {
        Some("Aug"@)
    } else if mm == "09"@ {
        Some("Sep"@)
    } else if mm == "10"@ {
        Some("Oct"@)
    } else if mm == "11"@ {
        Some("Nov"@)
    } else if mm == "12"@ {
        Some("Dec"@)
    } else {
        None
    }
}

fn month_of(mm: &str) -> (r: Option<&'static str>)
    ensures
        r is Some <==> month_name(mm@) is Some,
        r matches Some(s) ==> Some(s@) == month_name(mm@),
{
    if same(mm, "01") {
        Some("Jan")
    } else if same(mm, "02") {
        Some("Feb")
    } else if same(mm, "03") {
        Some("Mar")
    } else if same(mm, "04") {
        Some("Apr")
    } else if same(mm, "05") {
        Some("May")
    } else if same(mm, "06") {
        Some("Jun")
    } else if same(mm, "07") {
        Some("Jul")
    } else if same(mm, "08") {
        Some("Aug")
    } else if same(mm, "09") {
        Some("Sep")
    } else if same(mm, "10") {
        Some("Oct")
    } else if same(mm, "11") {
        Some("Nov")
    } else if same(mm, "12") {
        Some("Dec")
    } else {
        None
    }
}

/// A text of ten bytes or more can be taken apart as a date: no character lies
/// across the places where year, month and day would part.
pub open spec fn parts_cleanly(s: Seq<char>) -> bool {
    byte_length(s) >= 10 ==> {
        &&& chars_at(s, 5) is Some
        &&& chars_at(s, 7) is Some
        &&& month_name(bytes_between(s, 5, 7)) is Some ==> {
            &&& chars_at(s, 4) is Some
            &&& chars_at(s, 8) is Some
            &&& chars_at(s, 10) is Some
        }
    }
}

/// A date as people write it: month, day, year. What is no date stays as it is; a
/// day that is no number reads as none.
pub open spec fn date_text(s: Seq<char>) -> Seq<char> {
    if byte_length(s) < 10 {
        s
    } else {
        match month_name(bytes_between(s, 5, 7)) {
            Some(m) => m + " "@ + dec_int(
                match parse_int(bytes_between(s, 8, 10)) {
                    Some(d) => d,
                    None => 0,
                },
            ) + ", "@ + bytes_between(s, 0, 4),
            None => s,
        }
    }
}

fn long_enough(v: &Vec<char>) -> (r: bool)
    ensures
        r == (byte_length(v@) >= 10),
{
    let mut i: usize = 0;
    let mut total: usize = 0;
    assert(v@.skip(0) =~= v@);
    while i < v.len() && total < 10
        invariant
            i <= v@.len(),
            total <= 13,
            byte_length(v@) == total + byte_length(v@.skip(i as int)),
        decreases v@.len() - i,
    {
        assert(v@.skip(i as int)[0] == v@[i as int]);
        assert(v@.skip(i as int).skip(1) =~= v@.skip(i + 1));
        total = total + width_of(v[i]);
        i = i + 1;
    }
    total >= 10
}

/// Whether a text can be taken apart as a date.
pub fn can_part(s: &str) -> (r: bool)
    ensures
        r == parts_cleanly(s@),
{
    let v = chars_of(s);
    if !long_enough(&v) {
        return true;
    }
    match (place_at(&v, 5), place_at(&v, 7)) {
        (Some(a), Some(b)) => {
            proof {
                lemma_chars_at(v@, 5, 7);
            }
            let mm = slice_of(&v, a, b);
            if month_of(mm.as_str()).is_some() {
                place_at(&v, 4).is_some() && place_at(&v, 8).is_some() && place_at(&v, 10).is_some()
            } else {
                true
            }
        },
        _ => false,
    }
}

/// A release date as the catalogue gives it, `2025-06-14`, as people write it:
/// "Jun 14, 2025".
pub fn fmt_release_date(s: &str) -> (r: String)
    requires
        parts_cleanly(s@),
    ensures
        r@ == date_text(s@),
{
    let v = chars_of(s);
    if !long_enough(&v) {
        return s.to_owned();
    }
    let (a, b) = match (place_at(&v, 5), place_at(&v, 7)) {
        (Some(a), Some(b)) => (a, b),
        _ => {
            return s.to_owned();
        },
    };
    proof {
        lemma_chars_at(v@, 5, 7);
    }
    let mm = slice_of(&v, a, b);
    let month = match month_of(mm.as_str()) {
        Some(m) => m,
        None => {
            return s.to_owned();
        },
    };
    let (y, d0, d1) = match (place_at(&v, 4), place_at(&v, 8), place_at(&v, 10)) {
        (Some(y), Some(d0), Some(d1)) => (y, d0, d1),
        _ => {
            return s.to_owned();
        },
    };
    proof {
        lemma_chars_at(v@, 8, 10);
        lemma_chars_at(v@, 0, 4);
    }
    let dd = slice_of(&v, d0, d1);
    let day: i64 = match parse_i64(dd.as_str()) {
        Some(d) => d,
        None => 0,
    };
    let mut out = month.to_owned();
    out.append(" ");
    push_dec_int(&mut out, day);
    out.append(", ");
    let year = slice_of(&v, 0, y);
    out.append(year.as_str());
    out
}

/// The address of a poster.
pub open spec fn poster_url(path: Seq<char>) -> Seq<char> {
    "https://image.tmdb.org/t/p/w500"@ + path
}

/// The name of the file that a poster is kept in: the hash of its address.
pub open spec fn poster_file(path: Seq<char>) -> Seq<char> {
    hex_text(sha256(encode_utf8(poster_url(path)))) + ".jpg"@
}

/// See [`poster_file`].
pub fn poster_name(path: &str) -> (r: String)
    ensures
        r@ == poster_file(path@),
{
    let mut url = "https://image.tmdb.org/t/p/w500".to_owned();
    url.append(path);
    let digest = sha256_of(url.as_str().as_bytes());
    let mut s = hex(digest.as_slice());
    s.append(".jpg");
    s
}

proof fn lemma_digit_run(d: Seq<char>, rest: Seq<char>)
    requires
        all_digits(d),
    ensures
        digit_run(d + rest) == d.len() + digit_run(rest),
    decreases d.len(),
{
    if d.len() > 0 {
        assert(is_digit(d[0]));
        assert((d + rest)[0] == d[0]);
        assert((d + rest).skip(1) =~= d.skip(1) + rest);
        assert forall|i: int| 0 <= i < d.skip(1).len() implies is_digit(#[trigger] d.skip(1)[i]) by {
            assert(is_digit(d[i + 1]));
        }
        lemma_digit_run(d.skip(1), rest);
    } else {
        assert(d + rest =~= rest);
    }
}

proof fn lemma_separators(gap: Seq<char>, rest: Seq<char>)
    requires
        forall|i: int| 0 <= i < gap.len() ==> (#[trigger] gap[i] == '.' || gap[i] == ' ' || gap[i] == '_' || gap[i] == '-'),
        rest.len() > 0,
        rest[0] == 'e',
    ensures
        separators(gap + rest) == gap.len(),
    decreases gap.len(),
{
    let s = gap + rest;
    if gap.len() > 0 {
        assert(s[0] == gap[0]);
        assert(s.skip(1) =~= gap.skip(1) + rest);
        assert forall|i: int| 0 <= i < gap.skip(1).len() implies (#[trigger] gap.skip(1)[i] == '.' || gap.skip(1)[i] == ' '
            || gap.skip(1)[i] == '_' || gap.skip(1)[i] == '-') by {
            assert(gap[i + 1] == gap.skip(1)[i]);
        }
        lemma_separators(gap.skip(1), rest);
    } else {
        assert(s[0] == 'e');
    }
}

proof fn lemma_tag_behind(front: Seq<char>, tag: Seq<char>)
    requires
        forall|i: int| 0 <= i < front.len() ==> #[trigger] front[i] != 's',
        tag_here(tag) is Some,
    ensures
        first_tag(front + tag) == tag_here(tag),
    decreases front.len(),
{
    let s = front + tag;
    if front.len() > 0 {
        assert(s[0] == front[0]);
        assert(s.skip(1) =~= front.skip(1) + tag);
        assert forall|i: int| 0 <= i < front.skip(1).len() implies #[trigger] front.skip(1)[i] != 's' by {
            assert(front[i + 1] != 's');
        }
        lemma_tag_behind(front.skip(1), tag);
    } else {
        assert(s =~= tag);
    }
}

/// A season of one or two digits and an episode of one to three, behind an `s` and an `e`
/// of either case and with separators between, read as the numbers that their digits say,
/// wherever they stand behind a text without an `s`.
pub proof fn law_a_tag_reads_as_its_digits(
    front: Seq<char>,
    s: char,
    season: Seq<char>,
    gap: Seq<char>,
    e: char,
    episode: Seq<char>,
    behind: Seq<char>,
)
    requires
        forall|i: int| 0 <= i < front.len() ==> #[trigger] front[i] != 's' && front[i] != 'S',
        s == 's' || s == 'S',
        1 <= season.len() <= 2,
        all_digits(season),
        forall|i: int| 0 <= i < gap.len() ==> (#[trigger] gap[i] == '.' || gap[i] == ' ' || gap[i] == '_' || gap[i] == '-'),
        e == 'e' || e == 'E',
        1 <= episode.len() <= 3,
        all_digits(episode),
        episode.len() < 3 ==> behind.len() == 0 || !is_digit(behind[0]),
    ensures
        first_tag(fold(front + seq![s] + season + gap + seq![e] + episode + behind)) == Some(
            (digits_value(season) as int, digits_value(episode) as int),
        ),
{
    let name = front + seq![s] + season + gap + seq![e] + episode + behind;
    let (f, b) = (fold(front), fold(behind));
    let after = seq!['e'] + (episode + b);
    let rest = gap + after;
    let tag = seq!['s'] + (season + rest);
    assert(fold(name) =~= f + tag) by {
        assert forall|i: int| 0 <= i < name.len() implies fold(name)[i] == (f + tag)[i] by {
            let (p, q) = (front.len() as int, season.len() as int);
            let (g, h) = (gap.len() as int, episode.len() as int);
            if i < p {
            } else if i == p {
            } else if i < p + 1 + q {
                assert(is_digit(season[i - p - 1]));
            } else if i < p + 1 + q + g {
                assert(gap[i - p - 1 - q] == name[i]);
            } else if i == p + 1 + q + g {
            } else if i < p + 2 + q + g + h {
                assert(is_digit(episode[i - p - 2 - q - g]));
            } else {
                assert(name[i] == behind[i - p - 2 - q - g - h]);
            }
        }
    }
    assert forall|i: int| 0 <= i < f.len() implies #[trigger] f[i] != 's' by {
        assert(front[i] != 's' && front[i] != 'S');
    }
    assert(rest[0] == (if gap.len() > 0 { gap[0] } else { 'e' }));
    assert(digit_run(rest) == 0);
    lemma_digit_run(season, rest);
    assert(tag.skip(1) =~= season + rest);
    assert(tag.skip(1 + season.len() as int) =~= rest);
    lemma_separators(gap, after);
    assert(rest.skip(gap.len() as int) =~= after);
    assert(after.skip(1) =~= episode + b);
    lemma_digit_run(episode, b);
    if episode.len() < 3 && behind.len() > 0 {
        assert(b[0] == behind[0] || !is_digit(b[0]));
    }
    assert(tag.subrange(1, 1 + season.len() as int) =~= season);
    assert(after.subrange(1, 1 + episode.len() as int) =~= episode);
    lemma_tag_behind(f, tag);
}

/// A season and an episode that are written down, with zeros in front or without, read
/// back: two episodes never read alike.
pub proof fn law_an_episode_reads_back(season: nat, episode: nat, two: bool, three: bool)
    requires
        season <= 99,
        episode <= 999,
    ensures
        ({
            let s = zero_fill(dec(season), if two { 2 } else { 1 });
            let e = zero_fill(dec(episode), if three { 3 } else { 2 });
            first_tag(fold(seq!['S'] + s + seq!['E'] + e)) == Some((season as int, episode as int))
        }),
{
    let s = zero_fill(dec(season), if two { 2 } else { 1 });
    let e = zero_fill(dec(episode), if three { 3 } else { 2 });
    lemma_zero_fill_reads_back(season, if two { 2 } else { 1 });
    lemma_zero_fill_reads_back(episode, if three { 3 } else { 2 });
    assert(vstd::arithmetic::power::pow(10, 2) == 100 && vstd::arithmetic::power::pow(10, 3) == 1000) by {
        reveal(vstd::arithmetic::power::pow);
        reveal_with_fuel(vstd::arithmetic::power::pow, 4);
    }
    lemma_dec_fits(season, 2);
    lemma_dec_fits(episode, 3);
    let none = Seq::<char>::empty();
    law_a_tag_reads_as_its_digits(none, 'S', s, none, 'E', e, none);
    assert(none + seq!['S'] + s + none + seq!['E'] + e + none =~= seq!['S'] + s + seq!['E'] + e);
}

/// A name without an `s` carries no season and no episode.
pub proof fn law_no_tag_without_its_letter(name: Seq<char>)
    requires
        forall|i: int| 0 <= i < name.len() ==> #[trigger] name[i] != 's' && name[i] != 'S',
    ensures
        first_tag(fold(name)) is None,
    decreases name.len(),
{
    if name.len() > 0 {
        assert(name[0] != 's' && name[0] != 'S');
        assert(fold(name).skip(1) =~= fold(name.skip(1)));
        assert forall|i: int| 0 <= i < name.skip(1).len() implies #[trigger] name.skip(1)[i] != 's' && name.skip(1)[i]
            != 'S' by {
            assert(name[i + 1] != 's');
        }
        law_no_tag_without_its_letter(name.skip(1));
    }
}

/// A file belongs to the show that its folder is named after, and to the season and
/// episode that its name carries; without those it belongs to none.
pub proof fn law_a_file_belongs_to_its_folder(name: Seq<char>, folder: Seq<char>)
    ensures
        episode_of(name, Some(folder)) is Some <==> first_tag(fold(name)) is Some,
        episode_of(name, Some(folder)) matches Some((s, e, show)) ==> show == folder && first_tag(fold(name)) == Some((s, e)),
{
}

proof fn lemma_ascii_places(s: Seq<char>, n: int)
    requires
        0 <= n <= s.len(),
        forall|i: int| 0 <= i < s.len() ==> (#[trigger] s[i] as int) < 0x80,
    ensures
        chars_at(s, n) == Some(n),
        byte_length(s) == s.len(),
    decreases s.len(),
{
    if s.len() > 0 {
        assert((s[0] as int) < 0x80);
        assert forall|i: int| 0 <= i < s.skip(1).len() implies (#[trigger] s.skip(1)[i] as int) < 0x80 by {
            assert((s[i + 1] as int) < 0x80);
        }
        lemma_ascii_places(s.skip(1), if n > 0 { n - 1 } else { 0 });
    }
}

/// The short names of the months.
pub open spec fn months() -> Seq<Seq<char>> {
    seq!["Jan"@, "Feb"@, "Mar"@, "Apr"@, "May"@, "Jun"@, "Jul"@, "Aug"@, "Sep"@, "Oct"@, "Nov"@, "Dec"@]
}

/// A date that is written year, month and day with hyphens between reads month, day and
/// year: the name of its month, the day without a zero in front, and the year as it was.
pub proof fn law_a_date_reads_as_written(year: Seq<char>, month: nat, day: nat)
    requires
        year.len() == 4,
        all_digits(year),
        1 <= month <= 12,
        1 <= day <= 31,
    ensures
        date_text(year + seq!['-'] + zero_fill(dec(month), 2) + seq!['-'] + zero_fill(dec(day), 2)) == months()[month - 1]
            + seq![' '] + dec(day) + seq![',', ' '] + year,
{
    let (mm, dd) = (zero_fill(dec(month), 2), zero_fill(dec(day), 2));
    lemma_zero_fill_reads_back(month, 2);
    lemma_zero_fill_reads_back(day, 2);
    assert(vstd::arithmetic::power::pow(10, 2) == 100) by {
        reveal_with_fuel(vstd::arithmetic::power::pow, 3);
    }
    lemma_dec_fits(month, 2);
    lemma_dec_fits(day, 2);
    let s = year + seq!['-'] + mm + seq!['-'] + dd;
    assert forall|i: int| 0 <= i < s.len() implies (#[trigger] s[i] as int) < 0x80 by {
        if i < 4 {
            assert(is_digit(year[i]));
        } else if 5 <= i < 7 {
            assert(is_digit(mm[i - 5]));
        } else if i >= 8 {
            assert(is_digit(dd[i - 8]));
        }
    }
    lemma_ascii_places(s, 0);
    lemma_ascii_places(s, 4);
    lemma_ascii_places(s, 5);
    lemma_ascii_places(s, 7);
    lemma_ascii_places(s, 8);
    lemma_ascii_places(s, 10);
    assert(bytes_between(s, 5, 7) =~= mm);
    assert(bytes_between(s, 8, 10) =~= dd);
    assert(bytes_between(s, 0, 4) =~= year);
    lemma_month_name(month, mm);
    assert(is_digit(dd[0]));
    assert(parse_int(dd) == Some(day as int));
    reveal_strlit(" ");
    reveal_strlit(", ");
    assert(" "@ =~= seq![' ']);
    assert(", "@ =~= seq![',', ' ']);
}

proof fn lemma_month_name(m: nat, mm: Seq<char>)
    requires
        1 <= m <= 12,
        mm == zero_fill(dec(m), 2),
    ensures
        month_name(mm) == Some(months()[m - 1]),
{
    reveal_with_fuel(dec, 3);
    reveal_strlit("01");
    reveal_strlit("02");
    reveal_strlit("03");
    reveal_strlit("04");
    reveal_strlit("05");
    reveal_strlit("06");
    reveal_strlit("07");
    reveal_strlit("08");
    reveal_strlit("09");
    reveal_strlit("10");
    reveal_strlit("11");
    reveal_strlit("12");
    assert(mm.len() == 2);
    assert(mm[0] == digit((m / 10) as nat) && mm[1] == digit((m % 10) as nat));
    if m == 1 {
        assert(mm =~= "01"@);
    }
    if m == 2 {
        assert(mm =~= "02"@);
    }
    if m == 3 {
        assert(mm =~= "03"@);
    }
    if m == 4 {
        assert(mm =~= "04"@);
    }
    if m == 5 {
        assert(mm =~= "05"@);
    }
    if m == 6 {
        assert(mm =~= "06"@);
    }
    if m == 7 {
        assert(mm =~= "07"@);
    }
    if m == 8 {
        assert(mm =~= "08"@);
    }
    if m == 9 {
        assert(mm =~= "09"@);
    }
    if m == 10 {
        assert(mm =~= "10"@);
    }
    if m == 11 {
        assert(mm =~= "11"@);
    }
    if m == 12 {
        assert(mm =~= "12"@);
    }
}

/// A poster lies under the address of its host, and is kept under the hash of that address.
pub proof fn law_a_poster_is_kept_by_its_address(path: Seq<char>)
    ensures
        poster_url(path) == "https://image.tmdb.org/t/p/w500"@ + path,
        poster_file(path) == hex_text(sha256(encode_utf8("https://image.tmdb.org/t/p/w500"@ + path))) + ".jpg"@,
{
}

/// A text that is too short for a date, or has no month where one would stand, stays as it is.
pub proof fn law_what_is_no_date_stays(s: Seq<char>)
    ensures
        byte_length(s) < 10 ==> date_text(s) == s,
        byte_length(s) >= 10 && month_name(bytes_between(s, 5, 7)) is None ==> date_text(s) == s,
{
}

} // verus!
