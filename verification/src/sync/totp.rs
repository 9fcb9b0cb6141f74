//! Time-based one-time codes and single-use backup codes.

use vstd::prelude::*;
use crate::double::p2;
use crate::outside::{sha256, sha256_of};
use crate::sync::hex::{hex, hex_text};
use crate::text::{
    all_digits, chars_of, dec, digits_value, divide, is_digit, lemma_dec_fits, lemma_digits_append, lemma_same_digits,
    lemma_zero_fill_reads_back, push_zero_filled, same, trim, trimmed, trunc_div, zero_fill,
};
use vstd::arithmetic::power::pow;

verus! {

/// The block size of the hash, in bytes.
pub const BLOCK: usize = 64;

/// A key filled up to one block: hashed first where it is longer, zeros behind.
pub open spec fn block_key(key: Seq<u8>) -> Seq<u8> {
    let k = if key.len() > 64 { sha256(key) } else { key };
    Seq::new(64, |i: int| if i < k.len() { k[i] } else { 0u8 })
}

/// A block with every byte masked.
pub open spec fn masked(k: Seq<u8>, mask: u8) -> Seq<u8> {
    Seq::new(k.len(), |i: int| k[i] ^ mask)
}

/// The keyed hash of a message.
pub open spec fn hmac(key: Seq<u8>, msg: Seq<u8>) -> Seq<u8> {
    sha256(masked(block_key(key), 0x5c) + sha256(masked(block_key(key), 0x36) + msg))
}

fn push_masked(out: &mut Vec<u8>, k: &Vec<u8>, mask: u8)
    ensures
        final(out)@ == old(out)@ + masked(k@, mask),
{
    let ghost base = out@;
    let mut i: usize = 0;
    assert(base + masked(k@, mask).take(0) =~= base);
    while i < k.len()
        invariant
            i <= k@.len(),
            out@ == base + masked(k@, mask).take(i as int),
        decreases k@.len() - i,
    {
        out.push(k[i] ^ mask);
        assert(out@ =~= base + masked(k@, mask).take(i + 1));
        i = i + 1;
    }
    assert(masked(k@, mask).take(i as int) =~= masked(k@, mask));
}

fn push_bytes(out: &mut Vec<u8>, b: &[u8])
    ensures
        final(out)@ == old(out)@ + b@,
{
    let ghost base = out@;
    let mut i: usize = 0;
    assert(base + b@.take(0) =~= base);
    while i < b.len()
        invariant
            i <= b@.len(),
            out@ == base + b@.take(i as int),
        decreases b@.len() - i,
    {
        out.push(b[i]);
        assert(out@ =~= base + b@.take(i + 1));
        i = i + 1;
    }
    assert(b@.take(i as int) =~= b@);
}

/// HMAC-SHA256.
pub fn hmac_sha256(key: &[u8], msg: &[u8]) -> (r: Vec<u8>)
    ensures
        r@ == hmac(key@, msg@),
        r@.len() == 32,
{
    let mut k: Vec<u8> = Vec::new();
    if key.len() > BLOCK {
        k = sha256_of(key);
    } else {
        push_bytes(&mut k, key);
        assert(k@ =~= key@);
    }
    let ghost short = k@;
    while k.len() < BLOCK
        invariant
            short.len() <= k@.len() <= 64,
            k@ =~= Seq::new(k@.len(), |i: int| if i < short.len() { short[i] } else { 0u8 }),
        decreases 64 - k@.len(),
    {
        k.push(0);
    }
    assert(k@ =~= block_key(key@));
    let mut inner: Vec<u8> = Vec::new();
    push_masked(&mut inner, &k, 0x36);
    push_bytes(&mut inner, msg);
    assert(inner@ =~= masked(k@, 0x36) + msg@);
    let d = sha256_of(inner.as_slice());
    let mut outer: Vec<u8> = Vec::new();
    push_masked(&mut outer, &k, 0x5c);
    push_bytes(&mut outer, d.as_slice());
    assert(outer@ =~= masked(k@, 0x5c) + d@);
    sha256_of(outer.as_slice())
}

/// The value of a base-32 character, capital or small.
pub open spec fn base32_value(c: char) -> Option<nat> {
    if 'A' <= c <= 'Z' {
        Some((c as nat - 65) as nat)
    } else if 'a' <= c <= 'z' {
        Some((c as nat - 97) as nat)
    } else if '2' <= c <= '7' {
        Some((c as nat - 50 + 26) as nat)
    } else {
        None
    }
}

/// The values of the characters of `s`, padding left out; nothing where one has
/// none.
pub open spec fn base32_values(s: Seq<char>) -> Option<Seq<nat>>
    decreases s.len(),
{
    if s.len() == 0 {
        Some(Seq::empty())
    } else {
        match base32_values(s.drop_last()) {
            None => None,
            Some(front) => if s.last() == '=' {
                Some(front)
            } else {
                match base32_value(s.last()) {
                    None => None,
                    Some(v) => Some(front.push(v)),
                }
            },
        }
    }
}

/// The values as one binary number, five bits each.
pub open spec fn bits_of(values: Seq<nat>) -> nat
    decreases values.len(),
{
    if values.len() == 0 {
        0
    } else {
        bits_of(values.drop_last()) * 32 + values.last()
    }
}

/// The whole bytes of the values' bits, in order; what is left over is dropped.
pub open spec fn base32_bytes(values: Seq<nat>) -> Seq<u8>
    decreases values.len(),
{
    if values.len() == 0 {
        Seq::empty()
    } else {
        let front = values.drop_last();
        let spare = (5 * values.len()) % 8;
        if spare < 5 {
            base32_bytes(front).push(((bits_of(values) / p2(spare as nat)) % 256) as u8)
        } else {
            base32_bytes(front)
        }
    }
}

/// What a base-32 secret decodes to.
pub open spec fn base32_of(s: Seq<char>) -> Option<Seq<u8>> {
    match base32_values(trim(s)) {
        Some(v) => Some(base32_bytes(v)),
        None => None,
    }
}

fn value_of(c: char) -> (r: Option<u32>)
    ensures
        r matches Some(v) ==> v < 32 && base32_value(c) == Some(v as nat),
        r is None ==> base32_value(c) is None,
{
    if 'A' <= c && c <= 'Z' {
        Some(c as u32 - 65)
    } else if 'a' <= c && c <= 'z' {
        Some(c as u32 - 97)
    } else if '2' <= c && c <= '7' {
        Some(c as u32 - 50 + 26)
    } else {
        None
    }
}

/// No prefix that fails to decode is mended by what follows.
proof fn lemma_values_prefix(s: Seq<char>, i: int)
    requires
        0 <= i <= s.len(),
        base32_values(s.take(i)) is None,
    ensures
        base32_values(s) is None,
    decreases s.len() - i,
{
    if i < s.len() {
        assert(s.take(i + 1).drop_last() =~= s.take(i));
        lemma_values_prefix(s, i + 1);
    } else {
        assert(s.take(i) =~= s);
    }
}

/// The kept low bits are enough: reading a byte out of them reads it out of all.
#[verifier::spinoff_prover]
#[verifier::rlimit(80)]
proof fn lemma_low_bits(bits: nat, kept: nat, spare: nat)
    requires
        spare < 5,
        kept == bits % 8192,
    ensures
        (bits / p2(spare)) % 256 == (kept / p2(spare)) % 256,
{
    reveal_with_fuel(p2, 6);
    let q = bits / 8192;
    assert(bits == 8192 * q + kept);
    let g = p2(spare);
    if spare == 0 {
        assert(g == 1);
        assert(bits / g == bits / 1nat && kept / g == kept / 1nat);
        assert((8192 * q + kept) / 1 == 8192 * q + kept / 1nat);
        assert((8192 * q + kept / 1nat) % 256 == (kept / 1nat) % 256);
    } else if spare == 1 {
        assert(g == 2);
        assert(bits / g == bits / 2nat && kept / g == kept / 2nat);
        assert((8192 * q + kept) / 2 == 4096 * q + kept / 2nat);
        assert((4096 * q + kept / 2nat) % 256 == (kept / 2nat) % 256);
    } else if spare == 2 {
        assert(g == 4);
        assert(bits / g == bits / 4nat && kept / g == kept / 4nat);
        assert((8192 * q + kept) / 4 == 2048 * q + kept / 4nat);
        assert((2048 * q + kept / 4nat) % 256 == (kept / 4nat) % 256);
    } else if spare == 3 {
        assert(g == 8);
        assert(bits / g == bits / 8nat && kept / g == kept / 8nat);
        assert((8192 * q + kept) / 8 == 1024 * q + kept / 8nat);
        assert((1024 * q + kept / 8nat) % 256 == (kept / 8nat) % 256);
    } else {
        assert(g == 16);
        assert(bits / g == bits / 16nat && kept / g == kept / 16nat);
        assert((8192 * q + kept) / 16 == 512 * q + kept / 16nat);
        assert((512 * q + kept / 16nat) % 256 == (kept / 16nat) % 256);
    }
}

proof fn lemma_next_value(b: nat, x: nat, n: nat, spare: nat)
    requires
        x < 32,
        spare == (5 * n) % 8,
    ensures
        (b * 32 + x) % 8192 == ((b % 8192) * 32 + x) % 8192,
        (5 * (n + 1)) % 8 == (if spare + 5 >= 8 { (spare + 5 - 8) as nat } else { spare + 5 }),
{
    assert(b == 8192 * (b / 8192) + b % 8192);
}

/// The byte that the kept bits end with once the spare ones are left out.
fn low_byte(kept: u32, spare: u32) -> (r: u8)
    requires
        spare < 5,
    ensures
        r == (kept as nat / p2(spare as nat)) % 256,
{
    let unit: u32 = match spare {
        0 => 1,
        1 => 2,
        2 => 4,
        3 => 8,
        _ => 16,
    };
    assert(unit == p2(spare as nat)) by {
        reveal_with_fuel(p2, 6);
    }
    ((kept / unit) % 256) as u8
}

/// Decodes a base-32 secret: letters of either case, padding ignored.
pub fn base32_decode(s: &str) -> (r: Option<Vec<u8>>)
    ensures
        r is Some <==> base32_of(s@) is Some,
        r matches Some(b) ==> base32_of(s@) == Some(b@),
{
    let t = trimmed(s);
    let v = chars_of(t.as_str());
    let mut out: Vec<u8> = Vec::new();
    let mut kept: u32 = 0;
    let mut spare: u32 = 0;
    let ghost mut vals = Seq::<nat>::empty();
    let mut i: usize = 0;
    assert(v@.take(0) =~= Seq::<char>::empty());
    while i < v.len()
        invariant
            i <= v@.len(),
            v@ == trim(s@),
            base32_values(v@.take(i as int)) == Some(vals),
            kept == bits_of(vals) % 8192,
            spare == (5 * vals.len()) % 8,
            spare < 8,
            out@ == base32_bytes(vals),
        decreases v@.len() - i,
    {
        assert(v@.take(i + 1).drop_last() =~= v@.take(i as int));
        let c = v[i];
        if c != '=' {
            match value_of(c) {
                None => {
                    proof {
                        lemma_values_prefix(v@, i + 1);
                    }
                    return None;
                },
                Some(x) => {
                    let ghost next = vals.push(x as nat);
                    assert(next.drop_last() =~= vals);
                    proof {
                        lemma_next_value(bits_of(vals), x as nat, vals.len(), spare as nat);
                    }
                    kept = (kept * 32 + x) % 8192;
                    spare = spare + 5;
                    if spare >= 8 {
                        spare = spare - 8;
                    }
                    if spare < 5 {
                        proof {
                            lemma_low_bits(bits_of(next), kept as nat, spare as nat);
                        }
                        out.push(low_byte(kept, spare));
                    }
                    proof {
                        vals = next;
                    }
                },
            }
        }
        i = i + 1;
    }
    assert(v@.take(i as int) =~= v@);
    Some(out)
}

/// A counter as eight bytes, the most significant first.
pub open spec fn big_endian(c: nat) -> Seq<u8> {
    seq![
        ((c / 0x100_0000_0000_0000) % 256) as u8,
        ((c / 0x1_0000_0000_0000) % 256) as u8,
        ((c / 0x100_0000_0000) % 256) as u8,
        ((c / 0x1_0000_0000) % 256) as u8,
        ((c / 0x100_0000) % 256) as u8,
        ((c / 0x1_0000) % 256) as u8,
        ((c / 0x100) % 256) as u8,
        (c % 256) as u8,
    ]
}

fn counter_bytes(c: u64) -> (r: Vec<u8>)
    ensures
        r@ == big_endian(c as nat),
{
    let r = vec![
        ((c / 0x100_0000_0000_0000) % 256) as u8,
        ((c / 0x1_0000_0000_0000) % 256) as u8,
        ((c / 0x100_0000_0000) % 256) as u8,
        ((c / 0x1_0000_0000) % 256) as u8,
        ((c / 0x100_0000) % 256) as u8,
        ((c / 0x1_0000) % 256) as u8,
        ((c / 0x100) % 256) as u8,
        (c % 256) as u8,
    ];
    assert(r@ =~= big_endian(c as nat));
    r
}

/// Thirty-one bits out of a hash, from where its last byte points.
pub open spec fn dynamic_bits(mac: Seq<u8>) -> nat {
    let off = (mac[31] % 16) as int;
    ((mac[off] % 128) * 0x100_0000 + mac[off + 1] * 0x1_0000 + mac[off + 2] * 0x100 + mac[off + 3]) as nat
}

/// The code of a counter: the hash's bits in the last `digits` places.
pub open spec fn code_text(secret: Seq<u8>, counter: nat, digits: nat) -> Seq<char> {
    zero_fill(
        dec(dynamic_bits(hmac(secret, big_endian(counter))) % crate::double::p10(digits)),
        digits,
    )
}

fn ten_to(digits: u32) -> (r: u32)
    requires
        digits <= 9,
    ensures
        r == crate::double::p10(digits as nat),
        r >= 1,
{
    proof {
        reveal_with_fuel(crate::double::p10, 11);
    }
    match digits {
        0 => 1,
        1 => 10,
        2 => 100,
        3 => 1_000,
        4 => 10_000,
        5 => 100_000,
        6 => 1_000_000,
        7 => 10_000_000,
        8 => 100_000_000,
        _ => 1_000_000_000,
    }
}

/// The one-time code of a counter.
pub fn code_for_counter(secret: &[u8], counter: u64, digits: u32) -> (r: String)
    requires
        digits <= 9,
    ensures
        r@ == code_text(secret@, counter as nat, digits as nat),
{
    let msg = counter_bytes(counter);
    let mac = hmac_sha256(secret, msg.as_slice());
    let off: usize = (mac[31] % 16) as usize;
    let bin: u32 = (mac[off] % 128) as u32 * 0x100_0000 + mac[off + 1] as u32 * 0x1_0000 + mac[off + 2] as u32
        * 0x100 + mac[off + 3] as u32;
    let mut out = String::new();
    push_zero_filled(&mut out, (bin % ten_to(digits)) as u64, digits as usize);
    assert(out@ =~= code_text(secret@, counter as nat, digits as nat));
    out
}

/// A step number as an unsigned counter: negative steps count from the top.
pub open spec fn wrapped(step: int) -> nat {
    (if step < 0 { step + 0x1_0000_0000_0000_0000 } else { step }) as nat
}

fn wrap(step: i64) -> (r: u64)
    ensures
        r == wrapped(step as int),
{
    if step < 0 {
        (step as i128 + 0x1_0000_0000_0000_0000) as u64
    } else {
        step as u64
    }
}

/// The step that a moment falls into; a period below one second counts as one.
pub open spec fn step_of(unix_time: int, period: int) -> int {
    trunc_div(unix_time, if period < 1 { 1 } else { period })
}

fn step_at(unix_time: i64, period: i64) -> (r: i64)
    ensures
        r == step_of(unix_time as int, period as int),
{
    divide(unix_time, if period < 1 { 1 } else { period })
}

/// The code at `unix_time`, for steps of `period` seconds.
pub fn totp(secret: &[u8], unix_time: i64, period: i64, digits: u32) -> (r: String)
    requires
        digits <= 9,
    ensures
        r@ == code_text(secret@, wrapped(step_of(unix_time as int, period as int)), digits as nat),
{
    code_for_counter(secret, wrap(step_at(unix_time, period)), digits)
}

/// `code` is the code of some step at most `window` away from `base`.
pub open spec fn matches_near(secret: Seq<u8>, code: Seq<char>, base: int, digits: nat, window: int) -> bool {
    exists|off: int|
        -window <= off <= window && #[trigger] code_text(secret, wrapped(base + off), digits) == code
}

/// Whether `code` is that of the current step or of one within `window` steps.
pub fn verify(secret: &[u8], code: &str, unix_time: i64, period: i64, digits: u32, window: i64) -> (r: bool)
    requires
        digits <= 9,
        window > i64::MIN,
        window >= 0 ==> i64::MIN <= step_of(unix_time as int, period as int) - window,
        window >= 0 ==> step_of(unix_time as int, period as int) + window <= i64::MAX,
    ensures
        r == matches_near(secret@, code@, step_of(unix_time as int, period as int), digits as nat, window as int),
{
    let base: i64 = step_at(unix_time, period);
    if window < 0 {
        return false;
    }
    let last: i128 = base as i128 + window as i128;
    let mut step: i128 = base as i128 - window as i128;
    while step <= last
        invariant
            digits <= 9,
            base - window <= step <= last + 1,
            last == base + window,
            i64::MIN <= base - window,
            last <= i64::MAX,
            base == step_of(unix_time as int, period as int),
            forall|off: int|
                -window <= off < step - base ==> #[trigger] code_text(secret@, wrapped(base + off), digits as nat) != code@,
        decreases last + 1 - step,
    {
        let c = code_for_counter(secret, wrap(step as i64), digits);
        if same(c.as_str(), code) {
            assert(code_text(secret@, wrapped(base + (step - base)), digits as nat) == code@);
            return true;
        }
        step = step + 1;
    }
    false
}

/// A code is accepted at the moment it is made for, and at any moment whose step
/// is at most `window` away.
pub proof fn law_code_verifies_within_window(
    secret: Seq<u8>,
    made_at: int,
    seen_at: int,
    period: int,
    digits: nat,
    window: int,
)
    requires
        -window <= step_of(made_at, period) - step_of(seen_at, period) <= window,
    ensures
        matches_near(
            secret,
            code_text(secret, wrapped(step_of(made_at, period)), digits),
            step_of(seen_at, period),
            digits,
            window,
        ),
{
    let off = step_of(made_at, period) - step_of(seen_at, period);
    assert(code_text(secret, wrapped(step_of(seen_at, period) + off), digits) == code_text(
        secret,
        wrapped(step_of(made_at, period)),
        digits,
    ));
}

/// How a backup code is kept: the hexadecimal digest of its text.
pub open spec fn code_hash(code: Seq<char>) -> Seq<char> {
    hex_text(sha256(vstd::utf8::encode_utf8(code)))
}

/// See [`code_hash`].
pub fn hash_code(code: &str) -> (r: String)
    ensures
        r@ == code_hash(code@),
        r@.len() == 64,
{
    hex(sha256_of(code.as_bytes()).as_slice())
}

/// A kept backup code.
#[derive(Debug)]
pub struct BackupCode {
    pub user_id: String,
    pub code_hash: String,
    pub used: bool,
}

/// A kept code that `code` of `user` would spend.
pub open spec fn spendable(b: BackupCode, user: Seq<char>, code: Seq<char>) -> bool {
    b.user_id@ == user && b.code_hash@ == code_hash(code) && !b.used
}

/// How many kept codes `code` of `user` would spend.
pub open spec fn spendable_count(codes: Seq<BackupCode>, user: Seq<char>, code: Seq<char>) -> nat
    decreases codes.len(),
{
    if codes.len() == 0 {
        0
    } else {
        spendable_count(codes.drop_last(), user, code) + (if spendable(codes.last(), user, code) {
            1nat
        } else {
            0nat
        })
    }
}

/// A kept code after `code` of `user` was presented.
pub open spec fn after_presenting(b: BackupCode, user: Seq<char>, code: Seq<char>) -> BackupCode {
    if spendable(b, user, code) { BackupCode { used: true, ..b } } else { b }
}

/// What spending a code came to, from how many kept codes it spent: it was valid and
/// unused where it spent any.
pub fn spent(rows: u64) -> (r: bool)
    ensures
        r == (rows >= 1),
{
    rows >= 1
}

/// Spends a backup code: marks every kept code that it matches, and says whether
/// there was one. A code that was kept twice is spent in both places.
pub fn consume_backup_code(codes: &mut Vec<BackupCode>, user: &str, code: &str) -> (r: bool)
    ensures
        final(codes)@ == Seq::new(
            old(codes)@.len(),
            |i: int| after_presenting(old(codes)@[i], user@, code@),
        ),
        r == (spendable_count(old(codes)@, user@, code@) >= 1),
{
    let hash = hash_code(code);
    let ghost was = codes@;
    let mut n: usize = 0;
    let mut i: usize = 0;
    assert(was.take(0) =~= Seq::<BackupCode>::empty());
    while i < codes.len()
        invariant
            i <= codes@.len(),
            codes@.len() == was.len(),
            hash@ == code_hash(code@),
            n <= i,
            n == spendable_count(was.take(i as int), user@, code@),
            forall|j: int| 0 <= j < i ==> #[trigger] codes@[j] == after_presenting(was[j], user@, code@),
            forall|j: int| i <= j < was.len() ==> #[trigger] codes@[j] == was[j],
        decreases codes@.len() - i,
    {
        assert(was.take(i + 1).drop_last() =~= was.take(i as int));
        assert(codes@[i as int] == was[i as int]);
        let hit = same(codes[i].user_id.as_str(), user) && same(codes[i].code_hash.as_str(), hash.as_str())
            && !codes[i].used;
        if hit {
            let b = BackupCode {
                user_id: codes[i].user_id.clone(),
                code_hash: codes[i].code_hash.clone(),
                used: true,
            };
            codes.set(i, b);
            n = n + 1;
        }
        i = i + 1;
    }
    assert(was.take(i as int) =~= was);
    assert(codes@ =~= Seq::new(was.len(), |i: int| after_presenting(was[i], user@, code@)));
    spent(n as u64)
}

/// A backup code is good exactly while it is kept for the user and unused, however
/// often it was kept.
pub proof fn law_an_unused_backup_code_is_good(codes: Seq<BackupCode>, user: Seq<char>, code: Seq<char>)
    ensures
        spendable_count(codes, user, code) >= 1 <==> exists|i: int|
            0 <= i < codes.len() && spendable(#[trigger] codes[i], user, code),
    decreases codes.len(),
{
    if codes.len() > 0 {
        let front = codes.drop_last();
        law_an_unused_backup_code_is_good(front, user, code);
        if spendable_count(front, user, code) >= 1 {
            let i = choose|i: int| 0 <= i < front.len() && spendable(#[trigger] front[i], user, code);
            assert(codes[i] == front[i]);
        }
        if exists|i: int| 0 <= i < codes.len() && spendable(#[trigger] codes[i], user, code) {
            let i = choose|i: int| 0 <= i < codes.len() && spendable(#[trigger] codes[i], user, code);
            if i < front.len() {
                assert(front[i] == codes[i]);
            }
        }
    }
}

/// A backup code works once: presenting it leaves nothing for it to spend again.
pub proof fn law_backup_code_is_single_use(codes: Seq<BackupCode>, user: Seq<char>, code: Seq<char>)
    ensures
        spendable_count(
            Seq::new(codes.len(), |i: int| after_presenting(codes[i], user, code)),
            user,
            code,
        ) == 0,
    decreases codes.len(),
{
    let after = Seq::new(codes.len(), |i: int| after_presenting(codes[i], user, code));
    if codes.len() > 0 {
        let front = codes.drop_last();
        law_backup_code_is_single_use(front, user, code);
        assert(after.drop_last() =~= Seq::new(front.len(), |i: int| after_presenting(front[i], user, code)));
    }
}

proof fn lemma_tens(k: nat)
    ensures
        crate::double::p10(k) == pow(10, k),
        pow(10, k) >= 1,
    decreases k,
{
    reveal(pow);
    if k > 0 {
        lemma_tens((k - 1) as nat);
    }
}

/// A code has as many digits as were asked for, and says what the truncated hash leaves
/// over ten to that power.
pub proof fn law_a_code_is_the_end_of_the_hash(secret: Seq<u8>, counter: nat, digits: nat)
    requires
        1 <= digits <= 9,
    ensures
        code_text(secret, counter, digits).len() == digits,
        all_digits(code_text(secret, counter, digits)),
        digits_value(code_text(secret, counter, digits)) < pow(10, digits),
        (dynamic_bits(hmac(secret, big_endian(counter))) - digits_value(code_text(secret, counter, digits))) % pow(
            10,
            digits,
        ) == 0,
{
    lemma_tens(digits);
    let bits = dynamic_bits(hmac(secret, big_endian(counter)));
    let n = bits % crate::double::p10(digits);
    lemma_zero_fill_reads_back(n, digits);
    lemma_dec_fits(n, digits);
    let p = pow(10, digits);
    vstd::arithmetic::div_mod::lemma_fundamental_div_mod(bits as int, p);
    assert(bits - n == p * (bits as int / p) + 0);
    vstd::arithmetic::div_mod::lemma_mod_multiples_vanish(bits as int / p, 0, p);
    assert((p * (bits as int / p) + 0) % p == 0);
}

/// A shorter code is the end of a longer one of the same secret and counter.
pub proof fn law_a_shorter_code_ends_a_longer_one(secret: Seq<u8>, counter: nat, a: nat, b: nat)
    requires
        1 <= a <= b <= 9,
    ensures
        code_text(secret, counter, b).skip(b - a) == code_text(secret, counter, a),
{
    law_a_code_is_the_end_of_the_hash(secret, counter, a);
    law_a_code_is_the_end_of_the_hash(secret, counter, b);
    let (x, y) = (code_text(secret, counter, a), code_text(secret, counter, b));
    let (head, tail) = (y.take(b - a), y.skip(b - a));
    assert(y =~= head + tail);
    assert forall|i: int| 0 <= i < tail.len() implies is_digit(#[trigger] tail[i]) by {
        assert(is_digit(y[i + (b - a)]));
    }
    lemma_digits_append(head, tail);
    let bits = dynamic_bits(hmac(secret, big_endian(counter))) as int;
    let (p, q, g) = (pow(10, a), pow(10, b), pow(10, (b - a) as nat));
    lemma_tens(a);
    lemma_tens(b);
    lemma_tens((b - a) as nat);
    vstd::arithmetic::power::lemma_pow_adds(10, a, (b - a) as nat);
    let (vx, vy, vt, vh) = (digits_value(x) as int, digits_value(y) as int, digits_value(tail) as int, digits_value(head) as int);
    // What is left over the larger power leaves the same over the smaller one.
    let k = (bits - vy) / q;
    vstd::arithmetic::div_mod::lemma_fundamental_div_mod(bits - vy, q);
    let j = (bits - vx) / p;
    vstd::arithmetic::div_mod::lemma_fundamental_div_mod(bits - vx, p);
    assert(bits == q * k + vy);
    assert(bits == p * j + vx);
    assert(vy == vh * p + vt);
    assert(q * k == p * (g * k)) by (nonlinear_arith)
        requires
            q == p * g,
    ;
    assert(bits == (g * k + vh) * p + vt) by (nonlinear_arith)
        requires
            bits == q * k + vy,
            q * k == p * (g * k),
            vy == vh * p + vt,
    ;
    assert(bits == j * p + vx) by (nonlinear_arith)
        requires
            bits == p * j + vx,
    ;
    vstd::arithmetic::div_mod::lemma_fundamental_div_mod_converse(bits, p, g * k + vh, vt);
    vstd::arithmetic::div_mod::lemma_fundamental_div_mod_converse(bits, p, j, vx);
    lemma_same_digits(tail, x);
}

/// The bits of a hash are those of the four bytes that the low half of its last byte
/// points to, the first of them without its top bit.
pub proof fn law_truncation_follows_the_last_byte(mac: Seq<u8>)
    requires
        mac.len() == 32,
    ensures
        ({
            let at = (mac[31] & 0x0f) as int;
            let (a, b, c, d) = (mac[at] as u32, mac[at + 1] as u32, mac[at + 2] as u32, mac[at + 3] as u32);
            dynamic_bits(mac) == ((a & 0x7f) << 24 | b << 16 | c << 8 | d)
        }),
        dynamic_bits(mac) < 0x8000_0000,
{
    let last = mac[31];
    assert(last & 0x0f == last % 16 && last & 0x0f < 16) by (bit_vector);
    let at = (last & 0x0f) as int;
    let (a, b, c, d) = (mac[at] as u32, mac[at + 1] as u32, mac[at + 2] as u32, mac[at + 3] as u32);
    assert(((a & 0x7f) << 24 | b << 16 | c << 8 | d) == (a % 128) * 0x100_0000 + b * 0x1_0000 + c * 0x100 + d)
        by (bit_vector)
        requires
            a < 256,
            b < 256,
            c < 256,
            d < 256,
    ;
    assert((mac[at] % 128) as u32 == a % 128);
}

/// The eight bytes of a counter, taken one after the other, say the counter.
pub proof fn law_a_counter_reads_back(c: nat)
    requires
        c < 0x1_0000_0000_0000_0000,
    ensures
        big_endian(c).len() == 8,
        bytes_value(big_endian(c)) == c,
{
    let b = big_endian(c);
    assert(b.take(0).len() == 0);
    lemma_one_more_byte(b, 1, c / 0x100000000000000nat, 0);
    lemma_one_more_byte(b, 2, c / 0x1000000000000nat, c / 0x100000000000000nat);
    lemma_one_more_byte(b, 3, c / 0x10000000000nat, c / 0x1000000000000nat);
    lemma_one_more_byte(b, 4, c / 0x100000000nat, c / 0x10000000000nat);
    lemma_one_more_byte(b, 5, c / 0x1000000nat, c / 0x100000000nat);
    lemma_one_more_byte(b, 6, c / 0x10000nat, c / 0x1000000nat);
    lemma_one_more_byte(b, 7, c / 0x100nat, c / 0x10000nat);
    lemma_one_more_byte(b, 8, c / 0x1nat, c / 0x100nat);
    assert(b.take(8) =~= b);
}

proof fn lemma_one_more_byte(b: Seq<u8>, k: int, now: nat, before: nat)
    requires
        0 < k <= b.len(),
        bytes_value(b.take(k - 1)) == before,
        b[k - 1] == now % 256,
        before == now / 256,
    ensures
        bytes_value(b.take(k)) == now,
{
    assert(b.take(k).drop_last() =~= b.take(k - 1));
}

/// Bytes as one number, the most significant first.
pub open spec fn bytes_value(b: Seq<u8>) -> nat
    decreases b.len(),
{
    if b.len() == 0 {
        0
    } else {
        bytes_value(b.drop_last()) * 256 + b.last() as nat
    }
}

/// The keyed hash is that of RFC 2104: `k` is the key with zeros behind it up to a block,
/// or the digest of a key that is longer than a block.
pub proof fn law_the_keyed_hash_is_hmac(key: Seq<u8>, k: Seq<u8>, msg: Seq<u8>)
    requires
        k.len() == 64,
        forall|i: int|
            0 <= i < 64 ==> #[trigger] k[i] == (if key.len() > 64 {
                if i < sha256(key).len() { sha256(key)[i] } else { 0 }
            } else if i < key.len() {
                key[i]
            } else {
                0
            }),
    ensures
        hmac(key, msg) == sha256(
            Seq::new(64, |i: int| k[i] ^ 0x5c) + sha256(Seq::new(64, |i: int| k[i] ^ 0x36) + msg),
        ),
{
    assert(block_key(key) =~= k);
    assert(masked(k, 0x5c) =~= Seq::new(64, |i: int| k[i] ^ 0x5c));
    assert(masked(k, 0x36) =~= Seq::new(64, |i: int| k[i] ^ 0x36));
}

/// A step lasts one period: a moment lies in the period that its step begins.
pub proof fn law_a_step_lasts_one_period(unix_time: int, period: int)
    requires
        unix_time >= 0,
        period >= 1,
    ensures
        period * step_of(unix_time, period) <= unix_time,
        unix_time < period * step_of(unix_time, period) + period,
{
    vstd::arithmetic::div_mod::lemma_fundamental_div_mod(unix_time, period);
}

/// Two moments of one period have one code.
pub proof fn law_a_code_lasts_its_period(secret: Seq<u8>, n: int, a: int, b: int, period: int, digits: nat)
    requires
        n >= 0,
        period >= 1,
        0 <= a < period,
        0 <= b < period,
    ensures
        step_of(n * period + a, period) == n,
        code_text(secret, wrapped(step_of(n * period + a, period)), digits) == code_text(
            secret,
            wrapped(step_of(n * period + b, period)),
            digits,
        ),
{
    assert(n * period >= 0) by (nonlinear_arith)
        requires
            n >= 0,
            period >= 1,
    ;
    vstd::arithmetic::div_mod::lemma_fundamental_div_mod_converse(n * period + a, period, n, a);
    vstd::arithmetic::div_mod::lemma_fundamental_div_mod_converse(n * period + b, period, n, b);
}

/// A step as a counter is the same step in sixty-four bits.
pub proof fn law_a_step_wraps_to_its_counter(step: int)
    requires
        i64::MIN <= step <= i64::MAX,
    ensures
        0 <= wrapped(step) < 0x1_0000_0000_0000_0000,
        (wrapped(step) - step) % 0x1_0000_0000_0000_0000 == 0,
{
}

/// A code that is accepted is that of a step at most `window` away from the moment's.
pub proof fn law_only_codes_near_are_accepted(
    secret: Seq<u8>,
    code: Seq<char>,
    unix_time: int,
    period: int,
    digits: nat,
    window: int,
)
    requires
        matches_near(secret, code, step_of(unix_time, period), digits, window),
    ensures
        exists|step: int|
            #![trigger wrapped(step)]
            step_of(unix_time, period) - window <= step <= step_of(unix_time, period) + window && code == code_text(
                secret,
                wrapped(step),
                digits,
            ),
{
    let base = step_of(unix_time, period);
    let off = choose|off: int|
        -window <= off <= window && #[trigger] code_text(secret, wrapped(base + off), digits) == code;
    assert(code == code_text(secret, wrapped(base + off), digits));
}

/// A presented code uses up the unused codes of that user that were kept of it, and
/// changes nothing else of any.
pub proof fn law_presenting_uses_up_that_code_alone(b: BackupCode, user: Seq<char>, code: Seq<char>)
    ensures
        ({
            let after = after_presenting(b, user, code);
            &&& after.user_id == b.user_id
            &&& after.code_hash == b.code_hash
            &&& after.used == (b.used || (b.user_id@ == user && b.code_hash@ == hex_text(
                sha256(vstd::utf8::encode_utf8(code)),
            )))
        }),
{
}

/// Letters of either case stand for 0 to 25, the digits 2 to 7 for 26 to 31, and no other
/// character stands for anything.
pub proof fn law_base32_letters(c: char)
    ensures
        base32_value(c) is Some <==> ('A' <= c <= 'Z' || 'a' <= c <= 'z' || '2' <= c <= '7'),
        base32_value(c) matches Some(v) ==> v < 32,
        'A' <= c <= 'Z' ==> base32_value(c)->0 + 'A' as nat == c as nat,
        'a' <= c <= 'z' ==> base32_value(c)->0 + 'a' as nat == c as nat,
        '2' <= c <= '7' ==> base32_value(c)->0 + '2' as nat == c as nat + 26,
{
}

/// A secret decodes to the whole bytes of its bits, five to a character, the rest
/// dropped: the bytes taken together are the bits without what is left over.
pub proof fn law_base32_keeps_the_bits(values: Seq<nat>)
    requires
        forall|i: int| 0 <= i < values.len() ==> #[trigger] values[i] < 32,
    ensures
        base32_bytes(values).len() == (5 * values.len()) / 8,
        bytes_value(base32_bytes(values)) == bits_of(values) / p2(((5 * values.len()) % 8) as nat),
    decreases values.len(),
{
    reveal_with_fuel(p2, 9);
    if values.len() > 0 {
        let front = values.drop_last();
        assert forall|i: int| 0 <= i < front.len() implies #[trigger] front[i] < 32 by {
            assert(values[i] < 32);
        }
        assert(values[values.len() - 1] < 32);
        law_base32_keeps_the_bits(front);
        let b = base32_bytes(values);
        let n = front.len() as int;
        let (w, x) = (bits_of(front), values.last());
        let v = bits_of(values);
        assert(v == w * 32 + x);
        let s = ((5 * n) % 8) as int;
        if (5 * (n + 1)) % 8 < 5 {
            assert(b.drop_last() =~= base32_bytes(front));
            lemma_byte_taken(w, x, s);
        } else {
            lemma_none_taken(w, x, s);
        }
    } else {
        assert(bits_of(values) / 1 == 0);
    }
}

proof fn lemma_byte_taken(w: nat, x: nat, s: int)
    requires
        x < 32,
        3 <= s < 8,
    ensures
        (w / p2(s as nat)) * 256 + ((w * 32 + x) / p2((s - 3) as nat)) % 256 == (w * 32 + x) / p2((s - 3) as nat),
{
    reveal_with_fuel(p2, 9);
    let v = (w * 32 + x) as int;
    if s == 3 {
        assert(v / 1 == v);
        assert(w as int / 8 == v / 256);
    } else if s == 4 {
        assert(w as int / 16 == (v / 2) / 256);
    } else if s == 5 {
        assert(w as int / 32 == (v / 4) / 256);
    } else if s == 6 {
        assert(w as int / 64 == (v / 8) / 256);
    } else {
        assert(w as int / 128 == (v / 16) / 256);
    }
}

proof fn lemma_none_taken(w: nat, x: nat, s: int)
    requires
        x < 32,
        0 <= s < 3,
    ensures
        w / p2(s as nat) == (w * 32 + x) / p2((s + 5) as nat),
{
    reveal_with_fuel(p2, 9);
    let v = (w * 32 + x) as int;
    if s == 0 {
        assert(w as int / 1 == v / 32);
    } else if s == 1 {
        assert(w as int / 2 == v / 64);
    } else {
        assert(w as int / 4 == v / 128);
    }
}

} // verus!
