//! Bytes as hexadecimal text.

use vstd::prelude::*;

verus! {

/// The lowercase hexadecimal digit of value `d`.
pub open spec fn hex_digit(d: int) -> char {
    if d < 10 { (48 + d) as char } else { (87 + d) as char }
}

/// Two digits for each byte, in order.
pub open spec fn hex_text(bytes: Seq<u8>) -> Seq<char>
    decreases bytes.len(),
{
    if bytes.len() == 0 {
        Seq::empty()
    } else {
        hex_text(bytes.drop_last()) + seq![hex_digit((bytes.last() / 16) as int), hex_digit((bytes.last() % 16) as int)]
    }
}

fn digit_of(d: u8) -> (c: char)
    requires
        d < 16,
    ensures
        c == hex_digit(d as int),
{
    if d < 10 {
        (48 + d) as char
    } else {
        (87 + d) as char
    }
}

/// See [`hex_text`].
pub fn hex(bytes: &[u8]) -> (r: String)
    ensures
        r@ == hex_text(bytes@),
        r@.len() == 2 * bytes@.len(),
{
    let mut out = String::new();
    let mut i: usize = 0;
    assert(bytes@.take(0) =~= Seq::<u8>::empty());
    assert(out@ =~= Seq::<char>::empty());
    while i < bytes.len()
        invariant
            i <= bytes@.len(),
            out@ == hex_text(bytes@.take(i as int)),
            out@.len() == 2 * i,
        decreases bytes@.len() - i,
    {
        let ghost before = out@;
        let b = bytes[i];
        out.push(digit_of(b / 16));
        out.push(digit_of(b % 16));
        assert(bytes@.take(i + 1).drop_last() =~= bytes@.take(i as int));
        assert(out@ =~= before + seq![hex_digit((b / 16) as int), hex_digit((b % 16) as int)]);
        i = i + 1;
    }
    assert(bytes@.take(i as int) =~= bytes@);
    out
}

proof fn lemma_hex_len(b: Seq<u8>)
    ensures
        hex_text(b).len() == 2 * b.len(),
    decreases b.len(),
{
    if b.len() > 0 {
        lemma_hex_len(b.drop_last());
    }
}

/// Hexadecimal text keeps every byte: two runs of bytes that read alike are alike.
pub proof fn law_hex_is_injective(a: Seq<u8>, b: Seq<u8>)
    requires
        hex_text(a) == hex_text(b),
    ensures
        a == b,
    decreases a.len(),
{
    lemma_hex_len(a);
    lemma_hex_len(b);
    if a.len() > 0 {
        let (x, y) = (a.drop_last(), b.drop_last());
        let (s, t) = (hex_text(a), hex_text(b));
        lemma_hex_len(x);
        lemma_hex_len(y);
        assert(s.take(s.len() - 2) =~= hex_text(x));
        assert(t.take(t.len() - 2) =~= hex_text(y));
        law_hex_is_injective(x, y);
        assert(s[s.len() - 2] == hex_digit((a.last() / 16) as int));
        assert(t[t.len() - 2] == hex_digit((b.last() / 16) as int));
        assert(s[s.len() - 1] == hex_digit((a.last() % 16) as int));
        assert(t[t.len() - 1] == hex_digit((b.last() % 16) as int));
        assert(a.last() == b.last());
        assert(a =~= x.push(a.last()));
        assert(b =~= y.push(b.last()));
    } else {
        assert(a =~= b);
    }
}

/// Each byte stands in two digits, the high half before the low: digits from zero to nine,
/// then small letters from a to f.
pub proof fn law_a_byte_is_two_digits(bytes: Seq<u8>, i: int)
    requires
        0 <= i < bytes.len(),
    ensures
        hex_text(bytes).len() == 2 * bytes.len(),
        ({
            let digits = "0123456789abcdef"@;
            &&& hex_text(bytes)[2 * i] == digits[(bytes[i] / 16) as int]
            &&& hex_text(bytes)[2 * i + 1] == digits[(bytes[i] % 16) as int]
        }),
    decreases bytes.len(),
{
    reveal_strlit("0123456789abcdef");
    let front = bytes.drop_last();
    lemma_hex_len(bytes);
    lemma_hex_len(front);
    let b = bytes[i];
    assert(0 <= b / 16 < 16 && 0 <= b % 16 < 16);
    lemma_hex_digits((b / 16) as int);
    lemma_hex_digits((b % 16) as int);
    if i < front.len() {
        law_a_byte_is_two_digits(front, i);
        assert(hex_text(bytes)[2 * i] == hex_text(front)[2 * i]);
        assert(hex_text(bytes)[2 * i + 1] == hex_text(front)[2 * i + 1]);
    }
}

proof fn lemma_hex_digits(d: int)
    requires
        0 <= d < 16,
    ensures
        hex_digit(d) == "0123456789abcdef"@[d],
{
    reveal_strlit("0123456789abcdef");
    let t = "0123456789abcdef"@;
    assert(t[0] == '0' && t[1] == '1' && t[2] == '2' && t[3] == '3' && t[4] == '4' && t[5] == '5' && t[6] == '6' && t[7] == '7');
    assert(t[8] == '8' && t[9] == '9' && t[10] == 'a' && t[11] == 'b' && t[12] == 'c' && t[13] == 'd' && t[14] == 'e' && t[15] == 'f');
}

} // verus!
