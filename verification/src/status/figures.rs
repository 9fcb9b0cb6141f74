//! How the dashboard prints a figure, a moment and a level of health.

use vstd::prelude::*;
use vstd::arithmetic::power::pow;
use crate::double::{law_small_integers_are_exact, lemma_p2_pos, lemma_p2_sum, of_nat, p2, Double};
use crate::text::{
    chars_of, dec, dec_int, is_digit, law_integers_read_back, lemma_dec_reads_back, magnitude, parse_int, push_chars,
    push_dec, push_zero_filled, same, trim, trimmed, zero_fill,
};

verus! {

/// Everything works.
pub const OK: &'static str = "ok";
/// Work is in progress.
pub const BUSY: &'static str = "busy";
/// Something needs attention.
pub const PROBLEM: &'static str = "problem";
/// The section could not be asked.
pub const UNKNOWN: &'static str = "unknown";

/// How bad a level is: a problem over busy over ok, anything else below.
pub open spec fn rank_of(level: Seq<char>) -> nat {
    if level == PROBLEM@ {
        3
    } else if level == BUSY@ {
        2
    } else if level == OK@ {
        1
    } else {
        0
    }
}

/// See [`rank_of`].
pub fn rank(level: &str) -> (r: u8)
    ensures
        r == rank_of(level@),
{
    if same(level, PROBLEM) {
        3
    } else if same(level, BUSY) {
        2
    } else if same(level, OK) {
        1
    } else {
        0
    }
}

/// The worse of two levels, the first where they rank alike.
pub open spec fn worse_of(a: Seq<char>, b: Seq<char>) -> Seq<char> {
    if rank_of(b) > rank_of(a) {
        b
    } else {
        a
    }
}

/// See [`worse_of`].
pub fn worse<'a>(a: &'a str, b: &'a str) -> (r: &'a str)
    ensures
        r@ == worse_of(a@, b@),
{
    if rank(b) > rank(a) {
        b
    } else {
        a
    }
}

/// `x` divided by 1024 until it is below 1024, four times at most, and how often
/// that was.
pub open spec fn reduced(x: Double, i: nat) -> (Double, nat)
    decreases 4 - i,
{
    if i < 4 && x.floor() >= 1024 {
        reduced(Double { neg: x.neg, m: x.m, e: (x.e - 10) as i32 }, i + 1)
    } else {
        (x, i)
    }
}

/// The name of the unit of 1024 to the power `i` bytes.
pub open spec fn byte_unit(i: nat) -> Seq<char> {
    if i == 0 {
        " B"@
    } else if i == 1 {
        " KB"@
    } else if i == 2 {
        " MB"@
    } else if i == 3 {
        " GB"@
    } else {
        " TB"@
    }
}

/// A byte count as people read it: binary steps, one decimal below 100.
pub open spec fn bytes_text(b: int) -> Seq<char> {
    let n = (if b < 0 { 0 } else { b }) as nat;
    let (x, i) = reduced(of_nat(n), 0);
    if i == 0 {
        dec(n) + byte_unit(0)
    } else if x.floor() < 100 {
        x.text(1) + byte_unit(i)
    } else {
        x.text(0) + byte_unit(i)
    }
}

/// Human bytes: "1.5 MB", "200 MB", "1023 B"; a negative count reads as none.
pub fn bytes(b: i64) -> (r: String)
    ensures
        r@ == bytes_text(b as int),
{
    let n: u64 = if b < 0 {
        0
    } else {
        b as u64
    };
    let mut x = Double::from_u64(n);
    let ghost x0 = x;
    assert(x0 == of_nat(n as nat));
    let mut i: usize = 0;
    while i < 4 && x.to_floor() >= 1024
        invariant
            i <= 4,
            x.wf(),
            !x.neg,
            -60 - 10 * i <= x.e <= 12 - 10 * i,
            reduced(x0, 0) == reduced(x, i as nat),
        decreases 4 - i,
    {
        proof {
            if x.m == 0 {
                let u = crate::double::up(0);
                assert(0 * u == 0) by (nonlinear_arith);
                reveal_with_fuel(crate::double::p2, 2);
            }
        }
        x = Double { neg: false, m: x.m, e: x.e - 10 };
        i = i + 1;
    }
    let mut out = String::new();
    assert(out@ =~= Seq::<char>::empty());
    if i == 0 {
        push_dec(&mut out, n);
        assert(out@ =~= dec(n as nat));
    } else {
        if x.to_floor() < 100 {
            x.push_text(&mut out, 1);
            assert(out@ =~= x.text(1));
        } else {
            x.push_text(&mut out, 0);
            assert(out@ =~= x.text(0));
        }
    }
    let unit = match i {
        0 => " B",
        1 => " KB",
        2 => " MB",
        3 => " GB",
        _ => " TB",
    };
    out.append(unit);
    out
}

/// Digits in groups of three from the right, with commas between.
pub open spec fn grouped(d: Seq<char>) -> Seq<char>
    decreases d.len(),
{
    if d.len() <= 3 {
        d
    } else {
        grouped(d.take(d.len() - 3)) + seq![','] + d.skip(d.len() - 3)
    }
}

/// A number with thousands separators.
pub open spec fn num_text(v: int) -> Seq<char> {
    if v < 0 {
        seq!['-'] + grouped(dec((-v) as nat))
    } else {
        grouped(dec(v as nat))
    }
}

fn push_grouped(out: &mut String, d: &Vec<char>, to: usize)
    requires
        to <= d@.len(),
    ensures
        final(out)@ == old(out)@ + grouped(d@.take(to as int)),
    decreases to,
{
    let ghost base = out@;
    let ghost all = d@.take(to as int);
    if to <= 3 {
        push_chars(out, d, 0, to);
        assert(d@.subrange(0, to as int) =~= all);
    } else {
        push_grouped(out, d, to - 3);
        out.push(',');
        push_chars(out, d, to - 3, to);
        assert(all.take(all.len() - 3) =~= d@.take(to - 3));
        assert(all.skip(all.len() - 3) =~= d@.subrange(to - 3, to as int));
        assert(out@ =~= base + grouped(all));
    }
}

/// Thousands separators: "21,704", "-4,512".
pub fn num(v: i64) -> (r: String)
    ensures
        r@ == num_text(v as int),
{
    let mut digits = String::new();
    push_dec(&mut digits, magnitude(v));
    let ghost d = dec((if v < 0 { -v } else { v as int }) as nat);
    assert(digits@ =~= d);
    let chars = chars_of(digits.as_str());
    let mut out = String::new();
    if v < 0 {
        out.push('-');
    }
    push_grouped(&mut out, &chars, chars.len());
    assert(chars@.take(chars@.len() as int) =~= d);
    assert(out@ =~= num_text(v as int));
    out
}

/// A text without its commas.
pub open spec fn without_commas(s: Seq<char>) -> Seq<char>
    decreases s.len(),
{
    if s.len() == 0 {
        Seq::empty()
    } else if s.last() == ',' {
        without_commas(s.drop_last())
    } else {
        without_commas(s.drop_last()).push(s.last())
    }
}

proof fn lemma_without_commas(a: Seq<char>, b: Seq<char>)
    ensures
        without_commas(a + b) == without_commas(a) + without_commas(b),
    decreases b.len(),
{
    if b.len() == 0 {
        assert(a + b =~= a);
        assert(without_commas(a) + without_commas(b) =~= without_commas(a));
    } else {
        assert((a + b).drop_last() =~= a + b.drop_last());
        lemma_without_commas(a, b.drop_last());
        assert(without_commas(a + b) =~= without_commas(a) + without_commas(b));
    }
}

proof fn lemma_no_commas(d: Seq<char>)
    requires
        forall|i: int| 0 <= i < d.len() ==> #[trigger] d[i] != ',',
    ensures
        without_commas(d) == d,
    decreases d.len(),
{
    if d.len() > 0 {
        assert forall|i: int| 0 <= i < d.drop_last().len() implies #[trigger] d.drop_last()[i] != ',' by {
            assert(d[i] != ',');
        }
        lemma_no_commas(d.drop_last());
        assert(d[d.len() - 1] != ',');
        assert(d.drop_last().push(d.last()) =~= d);
    } else {
        assert(d =~= Seq::<char>::empty());
    }
}

proof fn lemma_grouped(d: Seq<char>)
    requires
        forall|i: int| 0 <= i < d.len() ==> #[trigger] d[i] != ',',
    ensures
        without_commas(grouped(d)) == d,
    decreases d.len(),
{
    if d.len() <= 3 {
        lemma_no_commas(d);
    } else {
        let (head, tail) = (d.take(d.len() - 3), d.skip(d.len() - 3));
        assert forall|i: int| 0 <= i < head.len() implies #[trigger] head[i] != ',' by {
            assert(d[i] != ',');
        }
        assert forall|i: int| 0 <= i < tail.len() implies #[trigger] tail[i] != ',' by {
            assert(d[d.len() - 3 + i] != ',');
        }
        lemma_grouped(head);
        lemma_no_commas(tail);
        lemma_without_commas(grouped(head) + seq![','], tail);
        lemma_without_commas(grouped(head), seq![',']);
        assert(seq![','].drop_last() =~= Seq::<char>::empty());
        assert(without_commas(seq![',']) =~= Seq::<char>::empty()) by {
            reveal_with_fuel(without_commas, 2);
        }
        assert(head + tail =~= d);
        assert(without_commas(grouped(d)) =~= d);
    }
}

/// A grouped number reads back: without its commas it is the number as it is printed,
/// and parses to it.
pub proof fn law_grouped_numbers_read_back(v: i64)
    ensures
        without_commas(num_text(v as int)) == dec_int(v as int),
        parse_int(without_commas(num_text(v as int))) == Some(v as int),
{
    let d = dec((if v < 0 { -v } else { v as int }) as nat);
    lemma_dec_reads_back((if v < 0 { -v } else { v as int }) as nat);
    assert forall|i: int| 0 <= i < d.len() implies #[trigger] d[i] != ',' by {
        assert(is_digit(d[i]));
    }
    lemma_grouped(d);
    if v < 0 {
        lemma_without_commas(seq!['-'], grouped(d));
        lemma_no_commas(seq!['-']);
    }
    assert(without_commas(num_text(v as int)) =~= dec_int(v as int));
    law_integers_read_back(v);
}

/// A length of time in hours and minutes.
pub open spec fn dur_text(secs: int) -> Seq<char> {
    if secs <= 0 {
        "—"@
    } else if secs / 3600 == 0 {
        dec((secs / 60) as nat) + "m"@
    } else {
        dec((secs / 3600) as nat) + "h "@ + zero_fill(dec(((secs / 60) % 60) as nat), 2) + "m"@
    }
}

/// "4h 12m", "12m", or a dash for no time at all.
pub fn dur(secs: i64) -> (r: String)
    ensures
        r@ == dur_text(secs as int),
{
    let mut out = String::new();
    assert(out@ =~= Seq::<char>::empty());
    if secs <= 0 {
        out.append("—");
        assert(out@ =~= "—"@);
        return out;
    }
    let m: u64 = (secs as u64) / 60;
    let h: u64 = m / 60;
    assert(h == secs / 3600);
    if h == 0 {
        push_dec(&mut out, m);
        out.append("m");
        assert(out@ =~= dur_text(secs as int));
    } else {
        push_dec(&mut out, h);
        out.append("h ");
        push_zero_filled(&mut out, m % 60, 2);
        out.append("m");
        assert(out@ =~= dur_text(secs as int));
    }
    out
}

/// The time of day of `ts`, `offset` seconds east of UTC, on a twelve-hour clock.
pub open spec fn clock_text(ts: int, offset: int) -> Seq<char> {
    if ts <= 0 {
        "—"@
    } else {
        let day = (ts + offset) % 86_400;
        let h24 = day / 3600;
        let h = if h24 % 12 == 0 { 12 } else { h24 % 12 };
        dec(h as nat) + ":"@ + zero_fill(dec(((day % 3600) / 60) as nat), 2) + (if h24 < 12 {
            " AM"@
        } else {
            " PM"@
        })
    }
}

/// `local` modulo a day, never negative.
pub fn second_of_day(local: i64) -> (r: i64)
    ensures
        r == local % 86_400,
        0 <= r < 86_400,
{
    if local >= 0 {
        local % 86_400
    } else {
        let back: i64 = (-(local + 1)) % 86_400;
        86_399 - back
    }
}

/// Wall-clock "3:25 PM" for a unix timestamp, `offset` seconds east of UTC; a
/// dash where there is no moment.
pub fn clock(ts: i64, offset: i64) -> (r: String)
    requires
        i64::MIN <= ts + offset <= i64::MAX,
    ensures
        r@ == clock_text(ts as int, offset as int),
{
    let mut out = String::new();
    assert(out@ =~= Seq::<char>::empty());
    if ts <= 0 {
        out.append("—");
        assert(out@ =~= "—"@);
        return out;
    }
    let day: i64 = second_of_day(ts + offset);
    let h24: i64 = day / 3600;
    let mi: i64 = (day % 3600) / 60;
    let h: i64 = if h24 % 12 == 0 {
        12
    } else {
        h24 % 12
    };
    push_dec(&mut out, h as u64);
    out.append(":");
    push_zero_filled(&mut out, mi as u64, 2);
    out.append(if h24 < 12 { " AM" } else { " PM" });
    assert(out@ =~= clock_text(ts as int, offset as int));
    out
}

/// What two bytes say as a number: two digits, or a sign and a digit; zero where
/// they say none.
pub open spec fn two_byte_number(a: u8, b: u8) -> int {
    if !(48 <= b <= 57) {
        0
    } else if 48 <= a <= 57 {
        (a - 48) * 10 + (b - 48)
    } else if a == 43 {
        b - 48
    } else if a == 45 {
        48 - b
    } else {
        0
    }
}

/// Seconds east of UTC of an offset written like "+0530", zero where `text` holds
/// no such thing.
pub open spec fn offset_of(text: Seq<char>) -> int {
    let b = vstd::utf8::encode_utf8(trim(text));
    if b.len() < 5 {
        0
    } else {
        let secs = two_byte_number(b[1], b[2]) * 3600 + two_byte_number(b[3], b[4]) * 60;
        if b[0] == 45 {
            -secs
        } else {
            secs
        }
    }
}

fn read_two(a: u8, b: u8) -> (r: i64)
    ensures
        r == two_byte_number(a, b),
        -9 <= r <= 99,
{
    if !(48 <= b && b <= 57) {
        0
    } else if 48 <= a && a <= 57 {
        (a as i64 - 48) * 10 + (b as i64 - 48)
    } else if a == 43 {
        b as i64 - 48
    } else if a == 45 {
        48 - b as i64
    } else {
        0
    }
}

/// Seconds east of UTC as the system's `date +%z` prints them: "+0530" is 19800.
pub fn local_offset(text: &str) -> (r: i64)
    ensures
        r == offset_of(text@),
        -400_000 <= r <= 400_000,
{
    let t = trimmed(text);
    let s = t.as_str();
    let b = s.as_bytes();
    if b.len() < 5 {
        return 0;
    }
    let h: i64 = read_two(b[1], b[2]);
    let m: i64 = read_two(b[3], b[4]);
    if b[0] == 45 {
        -(h * 3600 + m * 60)
    } else {
        h * 3600 + m * 60
    }
}

/// The most recent midnight at or before `now`, `offset` seconds east of UTC.
pub fn local_midnight(now: i64, offset: i64) -> (r: i64)
    requires
        now + offset <= i64::MAX,
        now + offset - (now + offset) % 86_400 >= i64::MIN,
        now - (now + offset) % 86_400 >= i64::MIN,
    ensures
        r <= now,
        now - r < 86_400,
        (r + offset) % 86_400 == 0,
{
    let local: i64 = now + offset;
    local - second_of_day(local) - offset
}

/// How late something is, in days.
pub open spec fn days_text(d: int) -> Seq<char> {
    if d <= 0 {
        "today"@
    } else if d == 1 {
        "1 day"@
    } else {
        dec(d as nat) + " days"@
    }
}

/// "1 day" / "6 days" / "today".
pub fn plural_days(d: i64) -> (r: String)
    ensures
        r@ == days_text(d as int),
{
    let mut out = String::new();
    assert(out@ =~= Seq::<char>::empty());
    if d <= 0 {
        out.append("today");
        assert(out@ =~= "today"@);
    } else if d == 1 {
        out.append("1 day");
        assert(out@ =~= "1 day"@);
    } else {
        push_dec(&mut out, d as u64);
        out.append(" days");
        assert(out@ =~= days_text(d as int));
    }
    out
}

/// What a section says when files it indexed are gone from disk.
pub open spec fn missing_text(noun: Seq<char>, missing: int) -> Seq<char> {
    if missing == 0 {
        Seq::empty()
    } else if missing == 1 {
        "1 "@ + noun + " file is indexed but no longer on disk — rescan to clear it"@
    } else {
        num_text(missing) + " "@ + noun
            + " files are indexed but no longer on disk — rescan to clear them"@
    }
}

/// The one sentence every media section says when files it indexed are no longer
/// where it indexed them.
pub fn missing_why(noun: &str, missing: i64) -> (r: String)
    ensures
        r@ == missing_text(noun@, missing as int),
{
    let mut out = String::new();
    assert(out@ =~= Seq::<char>::empty());
    if missing == 0 {
        return out;
    }
    if missing == 1 {
        out.append("1 ");
        assert(out@ =~= "1 "@);
        out.append(noun);
        out.append(" file is indexed but no longer on disk — rescan to clear it");
    } else {
        out = num(missing);
        out.append(" ");
        out.append(noun);
        out.append(" files are indexed but no longer on disk — rescan to clear them");
    }
    out
}

/// What a mount's recorded status reads, and in which colour class.
pub open spec fn mount_text(st: Option<Seq<char>>) -> (Seq<char>, Seq<char>) {
    if st == Some("mounted"@) {
        ("Mounted"@, "g"@)
    } else if st == Some("error"@) {
        ("Error"@, "b"@)
    } else if st == Some("unmounted"@) {
        ("Unmounted"@, "i"@)
    } else {
        ("Not mounted"@, "i"@)
    }
}

/// What an optional string reads.
pub open spec fn opt_view(s: Option<&str>) -> Option<Seq<char>> {
    match s {
        Some(t) => Some(t@),
        None => None,
    }
}

/// What an optional owned string reads.
pub open spec fn opt_string(s: Option<String>) -> Option<Seq<char>> {
    match s {
        Some(t) => Some(t@),
        None => None,
    }
}

/// Mount status to label and colour class. `None` is a remote that was never
/// mounted, which is not one that failed.
pub fn mount_state(st: Option<&str>) -> (r: (&'static str, &'static str))
    ensures
        (r.0@, r.1@) == mount_text(opt_view(st)),
{
    match st {
        Some(s) => if same(s, "mounted") {
            ("Mounted", "g")
        } else if same(s, "error") {
            ("Error", "b")
        } else if same(s, "unmounted") {
            ("Unmounted", "i")
        } else {
            ("Not mounted", "i")
        },
        None => ("Not mounted", "i"),
    }
}

/// What follows the last slash or backslash of `path`.
pub open spec fn last_part(path: Seq<char>) -> Seq<char>
    decreases path.len(),
{
    if path.len() == 0 || path.last() == '/' || path.last() == '\\' {
        Seq::empty()
    } else {
        last_part(path.drop_last()).push(path.last())
    }
}

/// The last component of `path`, the whole of it where that is empty.
pub open spec fn file_name_text(path: Seq<char>) -> Seq<char> {
    if last_part(path).len() == 0 {
        path
    } else {
        last_part(path)
    }
}

/// Last path component, for a table cell that a full path would not fit.
pub fn file_name(path: &str) -> (r: String)
    ensures
        r@ == file_name_text(path@),
{
    let v = chars_of(path);
    let n: usize = v.len();
    let mut a: usize = n;
    assert(v@.take(n as int) =~= v@);
    assert(v@.subrange(n as int, n as int) =~= Seq::<char>::empty());
    while a > 0 && v[a - 1] != '/' && v[a - 1] != '\\'
        invariant
            n == v@.len(),
            a <= n,
            last_part(v@) =~= last_part(v@.take(a as int)) + v@.subrange(a as int, n as int),
        decreases a,
    {
        assert(v@.take(a as int).drop_last() =~= v@.take(a - 1));
        assert(v@.subrange(a - 1, n as int) =~= seq![v@[a - 1]] + v@.subrange(a as int, n as int));
        a = a - 1;
    }
    assert(last_part(v@.take(a as int)) =~= Seq::<char>::empty());
    assert(last_part(v@) =~= v@.subrange(a as int, n as int));
    if a == n {
        crate::text::slice_of(&v, 0, n)
    } else {
        crate::text::slice_of(&v, a, n)
    }
}

/// One reading of a counter that only grows: its total and when it was read.
#[derive(Clone, Copy, Debug, PartialEq, Eq, Structural)]
pub struct Reading {
    pub total: u64,
    pub at: i64,
}

impl Reading {
    /// No reading yet.
    pub fn none() -> (r: Reading)
        ensures
            r == (Reading { total: 0, at: 0 }),
    {
        Reading { total: 0, at: 0 }
    }
}

/// The rate between two readings: nothing before the second, over no time, or
/// where the counter went back.
pub open spec fn rate_between(prev: Reading, total: u64, t: i64) -> int {
    if prev.at == 0 || t <= prev.at || total < prev.total {
        0
    } else {
        (total - prev.total) / (t - prev.at)
    }
}

/// Bytes per second since the last reading in `slot`, which takes this one.
pub fn wire_rate(slot: &mut Reading, total: u64, t: i64) -> (r: i64)
    requires
        t - old(slot).at <= i64::MAX,
        total - old(slot).total <= i64::MAX,
    ensures
        *final(slot) == (Reading { total, at: t }),
        r == rate_between(*old(slot), total, t),
        r >= 0,
{
    let prev = *slot;
    *slot = Reading { total, at: t };
    if prev.at == 0 || t <= prev.at || total < prev.total {
        return 0;
    }
    let d: i64 = (total - prev.total) as i64;
    let s: i64 = t - prev.at;
    assert(d / s >= 0) by (nonlinear_arith)
        requires
            d >= 0,
            s > 0,
    ;
    d / s
}

/// What an optional text reads, a dash where there is none.
pub open spec fn or_dash(t: Option<Seq<char>>) -> Seq<char> {
    match t {
        Some(s) => s,
        None => "—"@,
    }
}

/// See [`or_dash`].
pub fn text_or_dash(t: &Option<String>) -> (r: String)
    ensures
        r@ == or_dash(opt_string(*t)),
{
    match t {
        Some(s) => s.clone(),
        None => "—".to_owned(),
    }
}

/// A count of bytes below a kilobyte is said to the byte; a larger one in the largest unit
/// that does not exceed it, in exactly so many of that unit, to one decimal below a hundred.
pub proof fn law_bytes_are_said_in_their_unit(n: nat)
    requires
        n < 0x20_0000_0000_0000,
    ensures
        ({
            let (x, i) = reduced(of_nat(n), 0);
            &&& i <= 4
            &&& i > 0 ==> pow(1024, i) <= n
            &&& i < 4 ==> n < pow(1024, i + 1)
            &&& x.e <= 0
            &&& x.m * pow(1024, i) == n * p2((-x.e) as nat)
            &&& n < 1024 ==> bytes_text(n as int) == dec(n) + " B"@
            &&& n >= 1024 ==> {
                let unit = if i == 1 {
                    " KB"@
                } else if i == 2 {
                    " MB"@
                } else if i == 3 {
                    " GB"@
                } else {
                    " TB"@
                };
                &&& n < 100 * pow(1024, i) ==> bytes_text(n as int) == x.text(1) + unit
                &&& n >= 100 * pow(1024, i) ==> bytes_text(n as int) == x.text(0) + unit
            }
        }),
        bytes_text(-(n as int)) == bytes_text(0) || n == 0,
{
    let d = of_nat(n);
    law_small_integers_are_exact(n);
    let (m, e) = crate::double::nearest(n, 1, 0);
    assert(d.m == m && d.e == e);
    reveal(pow);
    assert(pow(1024, 0) == 1);
    assert(crate::double::up(e) == 1) by {
        reveal_with_fuel(p2, 2);
    }
    assert(crate::double::down(e) == p2((-e) as nat)) by {
        reveal_with_fuel(p2, 2);
    }
    lemma_reduced(d, n, 0);
    let (x, i) = reduced(d, 0);
    let (u, g) = (pow(1024, i), p2((-x.e) as nat));
    lemma_p2_pos((-x.e) as nat);
    assert(crate::double::up(x.e as int) == 1) by {
        reveal_with_fuel(p2, 2);
    }
    assert(crate::double::down(x.e as int) == g) by {
        reveal_with_fuel(p2, 2);
    }
    assert(x.m as nat * 1 == x.m);
    if n < 1024 && i > 0 {
        lemma_unit_at_least(i);
    }
    if i == 0 {
        assert(pow(1024, 1) == 1024 * pow(1024, 0));
    }
    lemma_floor_below(x.m as nat, g, n, u, 100);
}

proof fn lemma_unit_at_least(i: nat)
    requires
        i > 0,
    ensures
        pow(1024, i) >= 1024,
    decreases i,
{
    reveal(pow);
    if i > 1 {
        lemma_unit_at_least((i - 1) as nat);
    } else {
        assert(pow(1024, 0) == 1);
    }
}

proof fn lemma_floor_below(m: nat, g: nat, n: nat, u: int, c: int)
    requires
        g > 0,
        u > 0,
        c > 0,
        m * u == n * g,
    ensures
        m / g < c <==> n < c * u,
{
    let f = m / g;
    assert(f * g <= m < (f + 1) * g) by (nonlinear_arith)
        requires
            f == m / g,
            g > 0,
    ;
    if f < c {
        assert(n < c * u) by (nonlinear_arith)
            requires
                m < (f + 1) * g,
                f + 1 <= c,
                m * u == n * g,
                g > 0,
                u > 0,
        ;
    } else {
        assert(n >= c * u) by (nonlinear_arith)
            requires
                f * g <= m,
                f >= c,
                m * u == n * g,
                g > 0,
                u > 0,
        ;
    }
}

proof fn lemma_reduced(x: Double, n: nat, i: nat)
    requires
        i <= 4,
        -52 - 10 * i <= x.e <= 0,
        x.m * pow(1024, i) == n * p2((-x.e) as nat),
        i > 0 ==> pow(1024, i) <= n,
        pow(1024, i) > 0,
    ensures
        ({
            let (y, j) = reduced(x, i);
            &&& j <= 4
            &&& j > 0 ==> pow(1024, j) <= n
            &&& j < 4 ==> n < pow(1024, j + 1)
            &&& pow(1024, j) > 0
            &&& -100 <= y.e <= 0
            &&& y.m * pow(1024, j) == n * p2((-y.e) as nat)
        }),
    decreases 4 - i,
{
    let u = pow(1024, i);
    let g = p2((-x.e) as nat);
    reveal(pow);
    assert(pow(1024, i + 1) == 1024 * u);
    lemma_p2_pos((-x.e) as nat);
    assert(crate::double::up(x.e as int) == 1) by {
        reveal_with_fuel(p2, 2);
    }
    assert(crate::double::down(x.e as int) == g) by {
        reveal_with_fuel(p2, 2);
    }
    assert(x.m as nat * 1 == x.m);
    lemma_floor_below(x.m as nat, g, n, u, 1024);
    if i < 4 && x.floor() >= 1024 {
        lemma_p2_sum((-x.e) as nat, 10);
        assert(p2(10) == 1024) by {
            reveal_with_fuel(p2, 11);
        }
        let y = Double { neg: x.neg, m: x.m, e: (x.e - 10) as i32 };
        assert(p2((-y.e) as nat) == g * 1024);
        assert(x.m * (1024 * u) == n * (g * 1024)) by (nonlinear_arith)
            requires
                x.m * u == n * g,
        ;
        lemma_reduced(y, n, i + 1);
    }
}

/// What is said of a length of time are its whole minutes: hours and the minutes that are
/// left, of which there are less than sixty and which take two places behind an hour.
pub proof fn law_a_length_of_time_is_said_in_full(hours: nat, minutes: nat, seconds: nat)
    requires
        minutes < 60,
        seconds < 60,
        hours + minutes + seconds > 0,
    ensures
        ({
            let secs = hours as int * 3600 + minutes * 60 + seconds;
            &&& hours == 0 ==> dur_text(secs) == dec(minutes) + "m"@
            &&& hours > 0 && minutes < 10 ==> dur_text(secs) == dec(hours) + "h 0"@ + dec(minutes) + "m"@
            &&& hours > 0 && minutes >= 10 ==> dur_text(secs) == dec(hours) + "h "@ + dec(minutes) + "m"@
        }),
{
    let secs = hours as int * 3600 + minutes * 60 + seconds;
    assert(secs / 3600 == hours);
    assert((secs / 60) % 60 == minutes);
    assert(hours == 0 ==> secs / 60 == minutes);
    lemma_dec_places(minutes);
    reveal_strlit("h ");
    reveal_strlit("h 0");
    assert("h 0"@ =~= "h "@.push('0'));
    if hours > 0 && minutes < 10 {
        assert(zero_fill(dec(minutes), 2) =~= seq!['0'] + dec(minutes));
        assert(dur_text(secs) =~= dec(hours) + "h 0"@ + dec(minutes) + "m"@);
    }
}

proof fn lemma_dec_places(n: nat)
    requires
        n < 100,
    ensures
        n < 10 ==> dec(n).len() == 1,
        n >= 10 ==> dec(n).len() == 2,
{
    reveal_with_fuel(dec, 3);
}

/// A clock reads the hour and minute of the day: before noon AM and from noon on PM, twelve
/// in place of zero, the minutes in two places.
pub proof fn law_a_clock_reads_the_time_of_day(days: nat, hour: nat, minute: nat, second: nat, offset: int)
    requires
        hour < 24,
        minute < 60,
        second < 60,
        days as int * 86_400 + hour * 3600 + minute * 60 + second - offset > 0,
    ensures
        ({
            let ts = days as int * 86_400 + hour * 3600 + minute * 60 + second - offset;
            let shown: nat = if hour == 0 || hour == 12 {
                12
            } else if hour > 12 {
                (hour - 12) as nat
            } else {
                hour
            };
            clock_text(ts, offset) == dec(shown) + ":"@ + (if minute < 10 { "0"@ } else { ""@ }) + dec(minute) + (if hour < 12 {
                " AM"@
            } else {
                " PM"@
            })
        }),
{
    let day = hour as int * 3600 + minute * 60 + second;
    assert((days as int * 86_400 + day) % 86_400 == day);
    assert(day / 3600 == hour);
    assert((day % 3600) / 60 == minute);
    lemma_dec_places(minute);
    reveal_strlit("0");
    reveal_strlit("");
    if minute < 10 {
        assert(zero_fill(dec(minute), 2) =~= "0"@ + dec(minute));
    } else {
        assert(zero_fill(dec(minute), 2) =~= ""@ + dec(minute));
    }
    let ts = days as int * 86_400 + day - offset;
    assert(ts + offset == days as int * 86_400 + day);
    let shown: nat = if hour == 0 || hour == 12 {
        12
    } else if hour > 12 {
        (hour - 12) as nat
    } else {
        hour
    };
    let two = zero_fill(dec(minute), 2);
    let pad = if minute < 10 { "0"@ } else { ""@ };
    assert(dec(shown) + ":"@ + two =~= dec(shown) + ":"@ + pad + dec(minute));
}

/// A rate is what was counted over the time it took, rounded down.
pub proof fn law_a_rate_is_what_came_over_the_time(prev: Reading, total: u64, t: i64)
    requires
        prev.at != 0,
        prev.at < t,
        prev.total <= total,
    ensures
        rate_between(prev, total, t) * (t - prev.at) <= total - prev.total < (rate_between(prev, total, t) + 1) * (t - prev.at),
{
    let (a, b) = (total - prev.total, t - prev.at);
    let q = a / b;
    assert(q * b <= a < (q + 1) * b) by (nonlinear_arith)
        requires
            b > 0,
            q == a / b,
    ;
}

/// The name of a file holds no separator and stands behind the last one of its path; a path
/// that ends with one is its own name.
pub proof fn law_a_file_name_ends_its_path(path: Seq<char>)
    ensures
        ({
            let n = file_name_text(path);
            &&& n.len() <= path.len()
            &&& n == path.skip(path.len() - n.len())
            &&& path.len() > 0 && path.last() != '/' && path.last() != '\\' ==> {
                &&& n.len() > 0 && !n.contains('/') && !n.contains('\\')
                &&& n.len() < path.len() ==> path[path.len() - n.len() - 1] == '/' || path[path.len() - n.len() - 1] == '\\'
            }
            &&& path.len() == 0 || path.last() == '/' || path.last() == '\\' ==> n == path
        }),
{
    lemma_last_part(path);
    assert(path.skip(0) =~= path);
}

proof fn lemma_last_part(path: Seq<char>)
    ensures
        ({
            let n = last_part(path);
            &&& n.len() <= path.len()
            &&& n == path.skip(path.len() - n.len())
            &&& !n.contains('/') && !n.contains('\\')
            &&& n.len() < path.len() ==> path[path.len() - n.len() - 1] == '/' || path[path.len() - n.len() - 1] == '\\'
        }),
    decreases path.len(),
{
    if path.len() == 0 || path.last() == '/' || path.last() == '\\' {
        assert(path.skip(path.len() as int) =~= Seq::<char>::empty());
    } else {
        let f = path.drop_last();
        lemma_last_part(f);
        let n = last_part(path);
        let m = last_part(f);
        assert(n =~= path.skip(path.len() - n.len()));
        if n.contains('/') {
            let i = choose|i: int| 0 <= i < n.len() && n[i] == '/';
            assert(m[i] == '/');
        }
        if n.contains('\\') {
            let i = choose|i: int| 0 <= i < n.len() && n[i] == '\\';
            assert(m[i] == '\\');
        }
    }
}

/// What two digits say is the number that they write.
pub proof fn law_two_digits_say_their_number(n: int)
    requires
        0 <= n < 100,
    ensures
        two_byte_number((48 + n / 10) as u8, (48 + n % 10) as u8) == n,
{
}

/// The offset of a time zone is written hours and minutes behind its sign.
pub proof fn law_an_offset_reads_as_written(hours: int, minutes: int)
    requires
        0 <= hours < 100,
        0 <= minutes < 100,
    ensures
        ({
            let digits = seq![
                (48 + hours / 10) as char,
                (48 + hours % 10) as char,
                (48 + minutes / 10) as char,
                (48 + minutes % 10) as char,
            ];
            &&& offset_of(seq!['+'] + digits) == hours * 3600 + minutes * 60
            &&& offset_of(seq!['-'] + digits) == -(hours * 3600 + minutes * 60)
        }),
{
    let digits = seq![
        (48 + hours / 10) as char,
        (48 + hours % 10) as char,
        (48 + minutes / 10) as char,
        (48 + minutes % 10) as char,
    ];
    law_two_digits_say_their_number(hours);
    law_two_digits_say_their_number(minutes);
    lemma_plain_bytes(seq!['+'] + digits);
    lemma_plain_bytes(seq!['-'] + digits);
}

proof fn lemma_plain_bytes(s: Seq<char>)
    requires
        s.len() == 5,
        forall|i: int| 0 <= i < s.len() ==> '!' <= #[trigger] s[i] <= '~',
    ensures
        trim(s) == s,
        vstd::utf8::encode_utf8(s).len() == 5,
        forall|i: int| 0 <= i < 5 ==> #[trigger] vstd::utf8::encode_utf8(s)[i] == s[i] as u8,
{
    crate::text::law_what_prints_is_no_white_space(s[0]);
    crate::text::law_what_prints_is_no_white_space(s[4]);
    reveal_with_fuel(crate::text::trim_start, 2);
    reveal_with_fuel(crate::text::trim_end, 2);
    vstd::utf8::is_ascii_chars_encode_utf8(s);
}

/// A mount reads as its recorded state says, in the colour of that state.
pub proof fn law_a_mount_reads_as_its_state(st: Seq<char>)
    ensures
        mount_text(Some("mounted"@)) == ("Mounted"@, "g"@),
        mount_text(Some("error"@)) == ("Error"@, "b"@),
        mount_text(Some("unmounted"@)) == ("Unmounted"@, "i"@),
        mount_text(None) == ("Not mounted"@, "i"@),
        st != "mounted"@ && st != "error"@ && st != "unmounted"@ ==> mount_text(Some(st)) == ("Not mounted"@, "i"@),
{
    reveal_strlit("mounted");
    reveal_strlit("error");
    reveal_strlit("unmounted");
    assert("mounted"@.len() == 7 && "error"@.len() == 5 && "unmounted"@.len() == 9);
}

/// The worse of two levels is a problem where either is one, else busy where either is, else
/// in order where either is; and it is one of the two.
pub proof fn law_the_worse_level_wins(a: Seq<char>, b: Seq<char>)
    ensures
        worse_of(a, b) == a || worse_of(a, b) == b,
        a == "problem"@ || b == "problem"@ ==> worse_of(a, b) == "problem"@,
        a != "problem"@ && b != "problem"@ && (a == "busy"@ || b == "busy"@) ==> worse_of(a, b) == "busy"@,
        worse_of(a, a) == a,
{
    reveal_strlit("problem");
    reveal_strlit("busy");
    reveal_strlit("ok");
    assert("problem"@.len() == 7 && "busy"@.len() == 4 && "ok"@.len() == 2);
}

/// How late something is: today, a day, or so many days.
pub proof fn law_lateness_is_said_in_days(d: int)
    ensures
        d <= 0 ==> days_text(d) == "today"@,
        days_text(1) == "1 day"@,
        d > 1 ==> days_text(d) == dec(d as nat) + " days"@,
{
}

} // verus!
