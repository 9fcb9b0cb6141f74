//! Sign-in with an outside provider through a deep link, with a proof key.

use vstd::prelude::*;
use crate::outside::{sha256, sha256_of};
use crate::text::{cut, pieces, same, split_on, split_once, views};

verus! {

/// Who vouches for the user.
#[derive(Debug, Clone, Copy, PartialEq, Eq, Structural)]
pub enum Provider {
    Google,
    GitHub,
}

/// Where the provider sends the browser back to.
pub const REDIRECT_URI: &'static str = "tulipix://auth";

impl Provider {
    /// The address that asks for consent.
    pub open spec fn endpoint(&self) -> Seq<char> {
        match *self {
            Provider::Google => "https://accounts.google.com/o/oauth2/v2/auth"@,
            Provider::GitHub => "https://github.com/login/oauth/authorize"@,
        }
    }

    /// What is asked for.
    pub open spec fn asks(&self) -> Seq<char> {
        match *self {
            Provider::Google => "openid email profile"@,
            Provider::GitHub => "read:user user:email"@,
        }
    }

    /// See [`Provider::endpoint`].
    pub fn authorize_endpoint(self) -> (r: &'static str)
        ensures
            r@ == self.endpoint(),
    {
        match self {
            Provider::Google => "https://accounts.google.com/o/oauth2/v2/auth",
            Provider::GitHub => "https://github.com/login/oauth/authorize",
        }
    }

    /// See [`Provider::asks`].
    pub fn scope(self) -> (r: &'static str)
        ensures
            r@ == self.asks(),
    {
        match self {
            Provider::Google => "openid email profile",
            Provider::GitHub => "read:user user:email",
        }
    }
}

/// The character of six bits in the URL-safe base-64 alphabet.
pub open spec fn b64_char(n: int) -> char {
    if n < 26 {
        (65 + n) as char
    } else if n < 52 {
        (97 + n - 26) as char
    } else if n < 62 {
        (48 + n - 52) as char
    } else if n == 62 {
        '-'
    } else {
        '_'
    }
}

/// Bytes in the URL-safe base-64 alphabet, three at a time, without padding.
pub open spec fn b64_text(b: Seq<u8>) -> Seq<char>
    decreases b.len(),
{
    if b.len() == 0 {
        Seq::empty()
    } else if b.len() == 1 {
        seq![b64_char((b[0] / 4) as int), b64_char((b[0] % 4) * 16)]
    } else if b.len() == 2 {
        seq![
            b64_char((b[0] / 4) as int),
            b64_char((b[0] % 4) * 16 + b[1] / 16),
            b64_char((b[1] % 16) * 4),
        ]
    } else {
        seq![
            b64_char((b[0] / 4) as int),
            b64_char((b[0] % 4) * 16 + b[1] / 16),
            b64_char((b[1] % 16) * 4 + b[2] / 64),
            b64_char((b[2] % 64) as int),
        ] + b64_text(b.skip(3))
    }
}

fn char_of(n: u8) -> (c: char)
    requires
        n < 64,
    ensures
        c == b64_char(n as int),
{
    if n < 26 {
        (65 + n) as char
    } else if n < 52 {
        (97 + (n - 26)) as char
    } else if n < 62 {
        (48 + (n - 52)) as char
    } else if n == 62 {
        '-'
    } else {
        '_'
    }
}

/// See [`b64_text`].
pub fn b64url(bytes: &[u8]) -> (r: String)
    ensures
        r@ == b64_text(bytes@),
{
    let mut out = String::new();
    let n: usize = bytes.len();
    let mut i: usize = 0;
    assert(bytes@.skip(0) =~= bytes@);
    assert(out@ + b64_text(bytes@) =~= b64_text(bytes@));
    while n - i >= 3
        invariant
            n == bytes@.len(),
            i <= n,
            b64_text(bytes@) == out@ + b64_text(bytes@.skip(i as int)),
        decreases n - i,
    {
        let ghost before = out@;
        let (a, b, c) = (bytes[i], bytes[i + 1], bytes[i + 2]);
        out.push(char_of(a / 4));
        out.push(char_of((a % 4) * 16 + b / 16));
        out.push(char_of((b % 16) * 4 + c / 64));
        out.push(char_of(c % 64));
        proof {
            let rest = bytes@.skip(i as int);
            assert(rest[0] == a && rest[1] == b && rest[2] == c);
            assert(rest.skip(3) =~= bytes@.skip(i + 3));
            assert(before + b64_text(rest) =~= out@ + b64_text(bytes@.skip(i + 3)));
        }
        i = i + 3;
    }
    let ghost before = out@;
    let ghost rest = bytes@.skip(i as int);
    if n - i == 1 {
        let a = bytes[i];
        out.push(char_of(a / 4));
        out.push(char_of((a % 4) * 16));
        assert(rest[0] == a);
    } else if n - i == 2 {
        let (a, b) = (bytes[i], bytes[i + 1]);
        out.push(char_of(a / 4));
        out.push(char_of((a % 4) * 16 + b / 16));
        out.push(char_of((b % 16) * 4));
        assert(rest[0] == a && rest[1] == b);
    }
    assert(out@ =~= before + b64_text(rest));
    out
}

/// The challenge of a proof-key verifier.
pub open spec fn challenge_text(verifier: Seq<char>) -> Seq<char> {
    b64_text(sha256(vstd::utf8::encode_utf8(verifier)))
}

/// See [`challenge_text`].
pub fn pkce_challenge(verifier: &str) -> (r: String)
    ensures
        r@ == challenge_text(verifier@),
{
    b64url(sha256_of(verifier.as_bytes()).as_slice())
}

/// The capital hexadecimal digit of value `d`.
pub open spec fn capital_digit(d: int) -> char {
    if d < 10 { (48 + d) as char } else { (55 + d) as char }
}

/// A byte that stands for itself in a URL.
pub open spec fn unreserved(b: u8) -> bool {
    ||| 65 <= b <= 90
    ||| 97 <= b <= 122
    ||| 48 <= b <= 57
    ||| b == 45
    ||| b == 95
    ||| b == 46
    ||| b == 126
}

/// A byte in a URL: itself, or a percent sign and two digits.
pub open spec fn enc_byte(b: u8) -> Seq<char> {
    if unreserved(b) {
        seq![b as char]
    } else {
        seq!['%', capital_digit((b / 16) as int), capital_digit((b % 16) as int)]
    }
}

/// Bytes in a URL.
pub open spec fn enc_bytes(b: Seq<u8>) -> Seq<char>
    decreases b.len(),
{
    if b.len() == 0 {
        Seq::empty()
    } else {
        enc_bytes(b.drop_last()) + enc_byte(b.last())
    }
}

/// A text in a URL.
pub open spec fn enc_text(s: Seq<char>) -> Seq<char> {
    enc_bytes(vstd::utf8::encode_utf8(s))
}

fn capital(d: u8) -> (c: char)
    requires
        d < 16,
    ensures
        c == capital_digit(d as int),
{
    if d < 10 {
        (48 + d) as char
    } else {
        (55 + d) as char
    }
}

/// Percent-encodes a text.
pub fn enc(s: &str) -> (r: String)
    ensures
        r@ == enc_text(s@),
{
    let b = s.as_bytes();
    let mut out = String::new();
    let mut i: usize = 0;
    assert(b@.take(0) =~= Seq::<u8>::empty());
    assert(out@ =~= Seq::<char>::empty());
    while i < b.len()
        invariant
            i <= b@.len(),
            out@ == enc_bytes(b@.take(i as int)),
        decreases b@.len() - i,
    {
        let ghost before = out@;
        let x = b[i];
        assert(b@.take(i + 1).drop_last() =~= b@.take(i as int));
        if (65 <= x && x <= 90) || (97 <= x && x <= 122) || (48 <= x && x <= 57) || x == 45 || x == 95 || x == 46
            || x == 126 {
            out.push(x as char);
        } else {
            out.push('%');
            out.push(capital(x / 16));
            out.push(capital(x % 16));
        }
        assert(out@ =~= before + enc_byte(x));
        i = i + 1;
    }
    assert(b@.take(i as int) =~= b@);
    out
}

/// The address that asks `provider` for consent.
pub open spec fn authorize_text(
    provider: Provider,
    client_id: Seq<char>,
    state: Seq<char>,
    verifier: Seq<char>,
) -> Seq<char> {
    provider.endpoint() + "?response_type=code&client_id="@ + enc_text(client_id) + "&redirect_uri="@ + enc_text(
        REDIRECT_URI@,
    ) + "&scope="@ + enc_text(provider.asks()) + "&state="@ + enc_text(state) + "&code_challenge="@
        + challenge_text(verifier) + "&code_challenge_method=S256"@
}

/// Builds the address that asks for consent: proof key by digest, and the deep
/// link to come back to.
pub fn authorize_url(provider: Provider, client_id: &str, state: &str, verifier: &str) -> (r: String)
    ensures
        r@ == authorize_text(provider, client_id@, state@, verifier@),
{
    let mut u = provider.authorize_endpoint().to_owned();
    u.append("?response_type=code&client_id=");
    u.append(enc(client_id).as_str());
    u.append("&redirect_uri=");
    u.append(enc(REDIRECT_URI).as_str());
    u.append("&scope=");
    u.append(enc(provider.scope()).as_str());
    u.append("&state=");
    u.append(enc(state).as_str());
    u.append("&code_challenge=");
    u.append(pkce_challenge(verifier).as_str());
    u.append("&code_challenge_method=S256");
    u
}

/// What a deep link brings back.
#[derive(Debug, Clone, PartialEq)]
pub struct Callback {
    pub code: String,
    pub state: String,
}

/// Why a deep link is refused.
#[derive(Debug, Clone, Copy, PartialEq, Eq, Structural)]
pub enum CallbackError {
    NoQuery,
    MissingCode,
    MissingState,
    StateMismatch,
}

impl CallbackError {
    /// What is wrong, in words.
    pub open spec fn words(&self) -> Seq<char> {
        match *self {
            CallbackError::NoQuery => "no query"@,
            CallbackError::MissingCode => "missing code"@,
            CallbackError::MissingState => "missing state"@,
            CallbackError::StateMismatch => "state mismatch"@,
        }
    }

    /// See [`CallbackError::words`].
    pub fn message(&self) -> (r: &'static str)
        ensures
            r@ == self.words(),
    {
        match self {
            CallbackError::NoQuery => "no query",
            CallbackError::MissingCode => "missing code",
            CallbackError::MissingState => "missing state",
            CallbackError::StateMismatch => "state mismatch",
        }
    }
}

/// The value that the last pair with key `key` gives.
pub open spec fn param(pairs: Seq<Seq<char>>, key: Seq<char>) -> Option<Seq<char>>
    decreases pairs.len(),
{
    if pairs.len() == 0 {
        None
    } else {
        match cut(pairs.last(), '=') {
            Some((k, v)) => if k == key { Some(v) } else { param(pairs.drop_last(), key) },
            None => param(pairs.drop_last(), key),
        }
    }
}

/// What a deep link means to who expects `expected` as its state.
pub open spec fn callback_of(link: Seq<char>, expected: Seq<char>) -> Result<(Seq<char>, Seq<char>), CallbackError> {
    match cut(link, '?') {
        None => Err(CallbackError::NoQuery),
        Some((_, q)) => {
            let pairs = pieces(q, '&');
            match param(pairs, "code"@) {
                None => Err(CallbackError::MissingCode),
                Some(code) => match param(pairs, "state"@) {
                    None => Err(CallbackError::MissingState),
                    Some(state) => if state != expected {
                        Err(CallbackError::StateMismatch)
                    } else {
                        Ok((code, state))
                    },
                },
            }
        },
    }
}

fn find_param(pairs: &Vec<String>, key: &str) -> (r: Option<String>)
    ensures
        crate::status::figures::opt_string(r) == param(views(pairs@), key@),
{
    let ghost all = views(pairs@);
    let mut i: usize = pairs.len();
    assert(all.take(i as int) =~= all);
    while i > 0
        invariant
            i <= pairs@.len(),
            all == views(pairs@),
            param(all, key@) == param(all.take(i as int), key@),
        decreases i,
    {
        assert(all.take(i as int).drop_last() =~= all.take(i - 1));
        assert(all.take(i as int).last() == pairs@[i - 1]@);
        match split_once(pairs[i - 1].as_str(), '=') {
            Some((k, v)) => {
                if same(k.as_str(), key) {
                    return Some(v);
                }
            },
            None => {},
        }
        i = i - 1;
    }
    None
}

/// Reads the deep link that the provider came back with, and holds its state to
/// the one that was sent.
pub fn parse_callback(deep_link: &str, expected_state: &str) -> (r: Result<Callback, CallbackError>)
    ensures
        match r {
            Ok(c) => callback_of(deep_link@, expected_state@) == Ok::<(Seq<char>, Seq<char>), CallbackError>(
                (c.code@, c.state@),
            ),
            Err(e) => callback_of(deep_link@, expected_state@) == Err::<(Seq<char>, Seq<char>), CallbackError>(e),
        },
{
    match split_once(deep_link, '?') {
        None => Err(CallbackError::NoQuery),
        Some((_, q)) => {
            let pairs = split_on(q.as_str(), '&');
            match find_param(&pairs, "code") {
                None => Err(CallbackError::MissingCode),
                Some(code) => match find_param(&pairs, "state") {
                    None => Err(CallbackError::MissingState),
                    Some(state) => if !same(state.as_str(), expected_state) {
                        Err(CallbackError::StateMismatch)
                    } else {
                        Ok(Callback { code, state })
                    },
                },
            }
        },
    }
}

/// A deep link is taken only where it carries the state that was sent.
pub proof fn law_callback_state_must_match(link: Seq<char>, expected: Seq<char>)
    requires
        callback_of(link, expected) is Ok,
    ensures
        callback_of(link, expected)->Ok_0.1 == expected,
{
}

/// Base-64 text of `n` bytes has four characters for each three of them, and one
/// more than the bytes that are left over.
pub proof fn law_b64_length(b: Seq<u8>)
    ensures
        b64_text(b).len() == (b.len() / 3) * 4 + (if b.len() % 3 == 0 { 0 } else { b.len() % 3 + 1 }),
    decreases b.len(),
{
    if b.len() >= 3 {
        law_b64_length(b.skip(3));
    }
}

/// The value of a character of the URL-safe base-64 alphabet.
pub open spec fn b64_value(c: char) -> int {
    if 'A' <= c <= 'Z' {
        c as int - 'A' as int
    } else if 'a' <= c <= 'z' {
        c as int - 'a' as int + 26
    } else if '0' <= c <= '9' {
        c as int - '0' as int + 52
    } else if c == '-' {
        62
    } else {
        63
    }
}

/// Every three bytes make four characters that say the same number, a last one or two make
/// two or three, with zeros behind.
pub proof fn law_b64_keeps_the_bits(b: Seq<u8>)
    ensures
        ({
            let t = b64_text(b);
            &&& b.len() == 0 ==> t.len() == 0
            &&& b.len() == 1 ==> t.len() == 2 && b64_value(t[0]) * 64 + b64_value(t[1]) == b[0] * 16
            &&& b.len() == 2 ==> t.len() == 3 && (b64_value(t[0]) * 64 + b64_value(t[1])) * 64 + b64_value(t[2]) == (b[0] * 256 + b[1]) * 4
            &&& b.len() >= 3 ==> t.len() >= 4 && ((b64_value(t[0]) * 64 + b64_value(t[1])) * 64 + b64_value(t[2])) * 64 + b64_value(t[3]) == (b[0]
                * 256 + b[1]) * 256 + b[2] && t.skip(4) == b64_text(b.skip(3))
        }),
{
    lemma_b64_values();
    if b.len() >= 3 {
        assert(b64_text(b).skip(4) =~= b64_text(b.skip(3)));
    }
}

proof fn lemma_b64_values()
    ensures
        forall|n: int| 0 <= n < 64 ==> b64_value(#[trigger] b64_char(n)) == n,
{
}

/// A text in a URL, read back: a percent sign and two digits are a byte, anything else is
/// itself.
pub open spec fn dec_bytes(s: Seq<char>) -> Seq<u8>
    decreases s.len(),
{
    if s.len() == 0 {
        Seq::empty()
    } else if s[0] == '%' && s.len() >= 3 {
        seq![(hex_of(s[1]) * 16 + hex_of(s[2])) as u8] + dec_bytes(s.skip(3))
    } else {
        seq![s[0] as u8] + dec_bytes(s.skip(1))
    }
}

/// The value of a capital hexadecimal digit.
pub open spec fn hex_of(c: char) -> int {
    if '0' <= c <= '9' { c as int - '0' as int } else { c as int - 'A' as int + 10 }
}

/// Bytes in a URL read back as they were, and stand there in letters, digits and the signs
/// that a URL has.
pub proof fn law_a_url_reads_back(b: Seq<u8>)
    ensures
        dec_bytes(enc_bytes(b)) == b,
        forall|i: int|
            0 <= i < enc_bytes(b).len() ==> {
                let c = #[trigger] enc_bytes(b)[i];
                'A' <= c <= 'Z' || 'a' <= c <= 'z' || '0' <= c <= '9' || c == '-' || c == '_' || c == '.' || c == '~' || c == '%'
            },
    decreases b.len(),
{
    if b.len() > 0 {
        let front = b.drop_last();
        law_a_url_reads_back(front);
        lemma_dec_append(front, b.last());
        assert(front.push(b.last()) =~= b);
        let (x, y) = (enc_bytes(front), enc_byte(b.last()));
        assert forall|i: int| 0 <= i < enc_bytes(b).len() implies ({
            let c = #[trigger] enc_bytes(b)[i];
            'A' <= c <= 'Z' || 'a' <= c <= 'z' || '0' <= c <= '9' || c == '-' || c == '_' || c == '.' || c == '~' || c == '%'
        }) by {
            if i < x.len() {
                assert(enc_bytes(b)[i] == x[i]);
            } else {
                assert(enc_bytes(b)[i] == y[i - x.len()]);
            }
        }
    }
}

proof fn lemma_dec_one(x: u8, rest: Seq<char>)
    ensures
        dec_bytes(enc_byte(x) + rest) == seq![x] + dec_bytes(rest),
{
    let s = enc_byte(x) + rest;
    if unreserved(x) {
        assert(s.skip(1) =~= rest);
        assert(s[0] == x as char);
    } else {
        assert(s.skip(3) =~= rest);
        assert(s[0] == '%' && s.len() >= 3);
        let (h, l) = ((x / 16) as int, (x % 16) as int);
        assert(s[1] == capital_digit(h) && s[2] == capital_digit(l));
        assert(hex_of(capital_digit(h)) == h);
        assert(hex_of(capital_digit(l)) == l);
    }
}

proof fn lemma_dec_append(b: Seq<u8>, x: u8)
    ensures
        dec_bytes(enc_bytes(b) + enc_byte(x)) == dec_bytes(enc_bytes(b)).push(x),
{
    lemma_dec_through(b, enc_byte(x));
    lemma_dec_through(b, Seq::empty());
    let e = Seq::<char>::empty();
    assert(enc_bytes(b) + e =~= enc_bytes(b));
    lemma_dec_one(x, e);
    assert(enc_byte(x) + e =~= enc_byte(x));
    assert(dec_bytes(enc_byte(x)) =~= seq![x]);
    assert(dec_bytes(enc_bytes(b)) =~= b);
    assert(b + seq![x] =~= b.push(x));
}

proof fn lemma_dec_through(b: Seq<u8>, rest: Seq<char>)
    ensures
        dec_bytes(enc_bytes(b) + rest) == b + dec_bytes(rest),
    decreases b.len(),
{
    if b.len() == 0 {
        assert(enc_bytes(b) + rest =~= rest);
        assert(b + dec_bytes(rest) =~= dec_bytes(rest));
    } else {
        let front = b.drop_last();
        let x = b.last();
        lemma_dec_through(front, enc_byte(x) + rest);
        assert(enc_bytes(b) + rest =~= enc_bytes(front) + (enc_byte(x) + rest));
        lemma_dec_one(x, rest);
        assert(front + (seq![x] + dec_bytes(rest)) =~= b + dec_bytes(rest));
    }
}

/// The last pair under a key gives its value, and a key that no pair has gives none.
pub proof fn law_the_last_pair_under_a_key_counts(pairs: Seq<Seq<char>>, key: Seq<char>, value: Seq<char>)
    requires
        !key.contains('='),
    ensures
        param(pairs.push(key.push('=') + value), key) == Some(value),
        forall|other: Seq<char>| !other.contains('=') && other != key ==> #[trigger] param(pairs.push(key.push('=') + value), other) == param(pairs, other),
        param(Seq::empty(), key) is None,
{
    let line = key.push('=') + value;
    let all = pairs.push(line);
    assert(all.drop_last() =~= pairs);
    crate::text::law_a_cut_text_goes_together_again(line, '=');
    crate::text::lemma_place_of(line, '=');
    let k = crate::text::place_of(line, '=');
    assert(line[key.len() as int] == '=');
    if k < key.len() {
        assert(line[k] == key[k]);
        assert(key.contains('='));
    }
    assert(k == key.len());
    assert(line.take(k) =~= key);
    assert(line.skip(k + 1) =~= value);
}

/// The address that asks for consent names the provider's own page and what is asked of it,
/// and carries the client, the way back, the state and the challenge, each so that it reads
/// back.
pub proof fn law_consent_is_asked_at_the_provider(client_id: Seq<char>, state: Seq<char>, verifier: Seq<char>)
    ensures
        authorize_text(Provider::Google, client_id, state, verifier) == "https://accounts.google.com/o/oauth2/v2/auth"@
            + "?response_type=code&client_id="@ + enc_text(client_id) + "&redirect_uri="@ + enc_text(REDIRECT_URI@) + "&scope="@ + enc_text(
            "openid email profile"@,
        ) + "&state="@ + enc_text(state) + "&code_challenge="@ + challenge_text(verifier) + "&code_challenge_method=S256"@,
        authorize_text(Provider::GitHub, client_id, state, verifier) == "https://github.com/login/oauth/authorize"@
            + "?response_type=code&client_id="@ + enc_text(client_id) + "&redirect_uri="@ + enc_text(REDIRECT_URI@) + "&scope="@ + enc_text(
            "read:user user:email"@,
        ) + "&state="@ + enc_text(state) + "&code_challenge="@ + challenge_text(verifier) + "&code_challenge_method=S256"@,
{
}

/// A deep link without a query, without a code and without a state is refused for just that,
/// in this order; one whose state is another's is refused too; any other gives its code.
pub proof fn law_a_deep_link_is_refused_for_what_it_lacks(link: Seq<char>, expected: Seq<char>)
    ensures
        !link.contains('?') ==> callback_of(link, expected) == Err::<(Seq<char>, Seq<char>), CallbackError>(CallbackError::NoQuery),
        cut(link, '?') matches Some((_, q)) ==> ({
            let pairs = pieces(q, '&');
            &&& param(pairs, "code"@) is None ==> callback_of(link, expected) == Err::<(Seq<char>, Seq<char>), CallbackError>(CallbackError::MissingCode)
            &&& param(pairs, "code"@) is Some && param(pairs, "state"@) is None ==> callback_of(link, expected) == Err::<
                (Seq<char>, Seq<char>),
                CallbackError,
            >(CallbackError::MissingState)
            &&& param(pairs, "code"@) matches Some(code) ==> (param(pairs, "state"@) matches Some(state) ==> (state == expected ==> callback_of(link, expected) == Ok::<
                (Seq<char>, Seq<char>),
                CallbackError,
            >((code, state))) && (state != expected ==> callback_of(link, expected) == Err::<(Seq<char>, Seq<char>), CallbackError>(CallbackError::StateMismatch)))
        }),
{
    crate::text::law_a_cut_text_goes_together_again(link, '?');
    if cut(link, '?') is Some {
        let (a, b) = cut(link, '?')->0;
        assert((a.push('?') + b)[a.len() as int] == '?');
    }
}

} // verus!
