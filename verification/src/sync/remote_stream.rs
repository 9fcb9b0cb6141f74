//! Remote streaming: bearer tokens and their store, the bandwidth probe, and the
//! choice of a variant that the line can carry.

use vstd::prelude::*;
use crate::double::{of_int, of_nat, product, quotient, sum, Double};
use crate::outside::{sha256, sha256_of, since_epoch};
use crate::sync::hex::{hex, hex_text};
use crate::text::{chars_of, dec, dec_int, push_dec, push_dec_int, same};

verus! {

/// A token that grants one item to one user for a time.
#[derive(Debug, Clone, PartialEq)]
pub struct StreamToken {
    pub token: String,
    /// Digest of the manifest that the host signed when it issued the token.
    pub manifest_sha256: String,
    pub issued_at: i64,
    pub expires_at: i64,
    /// The item that the token grants.
    pub item_id: i64,
    pub user_id: u64,
}

impl StreamToken {
    /// The token is good at `now`.
    pub open spec fn good_at(&self, now: int) -> bool {
        self.issued_at <= now < self.expires_at
    }

    /// See [`StreamToken::good_at`].
    pub fn is_valid(&self, now: i64) -> (r: bool)
        ensures
            r == self.good_at(now as int),
    {
        now >= self.issued_at && now < self.expires_at
    }
}

/// A clock reading as signed seconds, zero where there is none; a reading beyond
/// the signed range counts from its bottom.
pub open spec fn seconds_of(reading: Option<u64>) -> int {
    match reading {
        None => 0,
        Some(s) => if s <= i64::MAX { s as int } else { s - 0x1_0000_0000_0000_0000 },
    }
}

/// See [`seconds_of`].
pub fn seconds(reading: Option<u64>) -> (r: i64)
    ensures
        r == seconds_of(reading),
{
    match reading {
        None => 0,
        Some(s) => if s <= 0x7fff_ffff_ffff_ffff {
            s as i64
        } else {
            -((0xffff_ffff_ffff_ffff - s) as i64) - 1
        },
    }
}

/// The present moment in Unix seconds.
pub fn now_secs() -> (r: i64)
    ensures
        exists|reading: Option<u64>| r == #[trigger] seconds_of(reading),
{
    let reading = since_epoch();
    seconds(reading)
}

/// When a token issued at `now` for `ttl` seconds ends: never under a minute, and
/// not beyond the last moment there is.
pub open spec fn expiry(now: int, ttl: int) -> int {
    let end = now + (if ttl < 60 { 60 } else { ttl });
    if end > i64::MAX { i64::MAX as int } else { end }
}

/// The token over a manifest, issued at `now`.
pub fn issue_token_at(
    manifest_json: &str,
    item_id: i64,
    user_id: u64,
    ttl_secs: i64,
    entropy: &[u8; 32],
    now: i64,
) -> (r: StreamToken)
    ensures
        r.token@ == hex_text(entropy@),
        r.token@.len() == 64,
        r.manifest_sha256@ == hex_text(sha256(vstd::utf8::encode_utf8(manifest_json@))),
        r.issued_at == now,
        r.expires_at == expiry(now as int, ttl_secs as int),
        r.item_id == item_id,
        r.user_id == user_id,
{
    let manifest_sha256 = hex(sha256_of(manifest_json.as_bytes()).as_slice());
    let ttl: i64 = if ttl_secs < 60 {
        60
    } else {
        ttl_secs
    };
    let expires_at: i64 = if now > i64::MAX - ttl {
        i64::MAX
    } else {
        now + ttl
    };
    StreamToken { token: hex(entropy.as_slice()), manifest_sha256, issued_at: now, expires_at, item_id, user_id }
}

/// Mints a fresh token over a manifest. The caller supplies the entropy.
pub fn issue_token(
    manifest_json: &str,
    item_id: i64,
    user_id: u64,
    ttl_secs: i64,
    entropy: &[u8; 32],
) -> (r: StreamToken)
    ensures
        r.token@ == hex_text(entropy@),
        r.token@.len() == 64,
        r.manifest_sha256@ == hex_text(sha256(vstd::utf8::encode_utf8(manifest_json@))),
        r.expires_at == expiry(r.issued_at as int, ttl_secs as int),
        r.item_id == item_id,
        r.user_id == user_id,
{
    let now: i64 = now_secs();
    issue_token_at(manifest_json, item_id, user_id, ttl_secs, entropy, now)
}

/// A token is good from the moment it was issued to just before it ends, and it
/// lasts a minute at least.
pub proof fn law_fresh_token_is_good(now: int, ttl: int, t: int)
    requires
        now + 60 <= i64::MAX,
    ensures
        expiry(now, ttl) - now >= 60,
        now <= t < now + 60 ==> t < expiry(now, ttl),
{
}

/// No two kept tokens read alike.
pub open spec fn distinct(tokens: Seq<StreamToken>) -> bool {
    forall|i: int, j: int|
        0 <= i < j < tokens.len() ==> (#[trigger] tokens[i]).token@ != (#[trigger] tokens[j]).token@
}

/// The tokens by their text.
pub open spec fn by_text(tokens: Seq<StreamToken>) -> Map<Seq<char>, StreamToken>
    decreases tokens.len(),
{
    if tokens.len() == 0 {
        Map::empty()
    } else {
        by_text(tokens.drop_last()).insert(tokens.last().token@, tokens.last())
    }
}

/// Where each key of the map comes from.
proof fn lemma_by_text(tokens: Seq<StreamToken>)
    requires
        distinct(tokens),
    ensures
        forall|i: int| 0 <= i < tokens.len() ==> by_text(tokens).dom().contains((#[trigger] tokens[i]).token@)
            && by_text(tokens)[tokens[i].token@] == tokens[i],
        forall|k: Seq<char>| #[trigger] by_text(tokens).dom().contains(k) ==> exists|i: int|
            0 <= i < tokens.len() && (#[trigger] tokens[i]).token@ == k,
        by_text(tokens).dom().finite(),
        by_text(tokens).dom().len() == tokens.len(),
    decreases tokens.len(),
{
    if tokens.len() > 0 {
        let front = tokens.drop_last();
        lemma_by_text(front);
        let m = by_text(tokens);
        assert forall|i: int| 0 <= i < tokens.len() implies m.dom().contains((#[trigger] tokens[i]).token@)
            && m[tokens[i].token@] == tokens[i] by {
            if i < front.len() {
                assert(front[i] == tokens[i]);
                assert(tokens[i].token@ != tokens[tokens.len() - 1].token@);
            }
        }
        assert forall|k: Seq<char>| #[trigger] m.dom().contains(k) implies exists|i: int|
            0 <= i < tokens.len() && (#[trigger] tokens[i]).token@ == k by {
            if k == tokens.last().token@ {
                assert(tokens[tokens.len() - 1].token@ == k);
            } else {
                assert(by_text(front).dom().contains(k));
                let i = choose|i: int| 0 <= i < front.len() && (#[trigger] front[i]).token@ == k;
                assert(tokens[i].token@ == k);
            }
        }
        assert(!by_text(front).dom().contains(tokens.last().token@)) by {
            if by_text(front).dom().contains(tokens.last().token@) {
                let i = choose|i: int|
                    0 <= i < front.len() && (#[trigger] front[i]).token@ == tokens.last().token@;
                assert(tokens[i].token@ == tokens[tokens.len() - 1].token@);
            }
        }
    }
}

/// A map is the tokens' map where it has their keys and values and no other.
proof fn lemma_is_by_text(tokens: Seq<StreamToken>, m: Map<Seq<char>, StreamToken>)
    requires
        distinct(tokens),
        forall|i: int| 0 <= i < tokens.len() ==> m.dom().contains((#[trigger] tokens[i]).token@)
            && m[tokens[i].token@] == tokens[i],
        forall|k: Seq<char>| #[trigger] m.dom().contains(k) ==> exists|i: int|
            0 <= i < tokens.len() && (#[trigger] tokens[i]).token@ == k,
    ensures
        by_text(tokens) == m,
{
    lemma_by_text(tokens);
    let b = by_text(tokens);
    assert forall|k: Seq<char>| b.dom().contains(k) <==> m.dom().contains(k) by {
        if b.dom().contains(k) {
            let i = choose|i: int| 0 <= i < tokens.len() && (#[trigger] tokens[i]).token@ == k;
            assert(m.dom().contains(tokens[i].token@));
        }
        if m.dom().contains(k) {
            let i = choose|i: int| 0 <= i < tokens.len() && (#[trigger] tokens[i]).token@ == k;
            assert(b.dom().contains(tokens[i].token@));
        }
    }
    assert forall|k: Seq<char>| b.dom().contains(k) implies b[k] == m[k] by {
        let i = choose|i: int| 0 <= i < tokens.len() && (#[trigger] tokens[i]).token@ == k;
        assert(b[tokens[i].token@] == tokens[i]);
    }
    assert(b =~= m);
}

/// The tokens that are in force, found by their text.
#[derive(Debug)]
pub struct TokenStore {
    tokens: Vec<StreamToken>,
}

impl View for TokenStore {
    type V = Map<Seq<char>, StreamToken>;

    closed spec fn view(&self) -> Map<Seq<char>, StreamToken> {
        by_text(self.tokens@)
    }
}

impl Default for TokenStore {
    /// A store without tokens.
    fn default() -> (r: TokenStore)
        ensures
            r.wf(),
            r@ == Map::<Seq<char>, StreamToken>::empty(),
    {
        TokenStore::new()
    }
}

impl TokenStore {
    /// No text stands for two tokens.
    pub closed spec fn wf(&self) -> bool {
        distinct(self.tokens@)
    }

    /// A store without tokens.
    pub fn new() -> (r: TokenStore)
        ensures
            r.wf(),
            r@ == Map::<Seq<char>, StreamToken>::empty(),
    {
        TokenStore { tokens: Vec::new() }
    }

    fn find(&self, token: &str) -> (r: Option<usize>)
        ensures
            r matches Some(i) ==> i < self.tokens@.len() && self.tokens@[i as int].token@ == token@,
            r is None ==> forall|i: int| 0 <= i < self.tokens@.len() ==> (#[trigger] self.tokens@[i]).token@ != token@,
    {
        let mut i: usize = 0;
        while i < self.tokens.len()
            invariant
                i <= self.tokens@.len(),
                forall|j: int| 0 <= j < i ==> (#[trigger] self.tokens@[j]).token@ != token@,
            decreases self.tokens@.len() - i,
        {
            if same(self.tokens[i].token.as_str(), token) {
                return Some(i);
            }
            i = i + 1;
        }
        None
    }

    /// Puts a token in force; one of the same text gives way.
    pub fn insert(&mut self, t: StreamToken)
        requires
            old(self).wf(),
        ensures
            final(self).wf(),
            final(self)@ == old(self)@.insert(t.token@, t),
    {
        let ghost was = self.tokens@;
        proof {
            lemma_by_text(was);
        }
        match self.find(t.token.as_str()) {
            Some(i) => {
                self.tokens.set(i, t);
                proof {
                    let now = self.tokens@;
                    let m = by_text(was).insert(t.token@, t);
                    assert forall|k: Seq<char>| #[trigger] m.dom().contains(k) implies exists|j: int|
                        0 <= j < now.len() && (#[trigger] now[j]).token@ == k by {
                        if k == t.token@ {
                            assert(now[i as int].token@ == k);
                        } else {
                            let j = choose|j: int| 0 <= j < was.len() && (#[trigger] was[j]).token@ == k;
                            assert(now[j].token@ == k);
                        }
                    }
                    assert forall|j: int| 0 <= j < now.len() implies m.dom().contains((#[trigger] now[j]).token@)
                        && m[now[j].token@] == now[j] by {
                        if j != i {
                            assert(now[j] == was[j]);
                            assert(was[j].token@ != was[i as int].token@) by {
                                if j < i {
                                } else {
                                }
                            }
                        }
                    }
                    assert(distinct(now)) by {
                        assert forall|a: int, b: int| 0 <= a < b < now.len() implies (#[trigger] now[a]).token@
                            != (#[trigger] now[b]).token@ by {
                            assert(was[a].token@ != was[b].token@);
                        }
                    }
                    lemma_is_by_text(now, m);
                }
            },
            None => {
                self.tokens.push(t);
                proof {
                    let now = self.tokens@;
                    assert(now.drop_last() =~= was);
                    assert forall|a: int, b: int| 0 <= a < b < now.len() implies (#[trigger] now[a]).token@
                        != (#[trigger] now[b]).token@ by {
                        assert(now[a] == was[a]);
                        if b < was.len() {
                            assert(now[b] == was[b]);
                        }
                    }
                }
            },
        }
    }

    /// Takes a token out of force, and says whether it was in.
    pub fn revoke(&mut self, token: &str) -> (r: bool)
        requires
            old(self).wf(),
        ensures
            final(self).wf(),
            r == old(self)@.dom().contains(token@),
            final(self)@ == old(self)@.remove(token@),
    {
        let ghost was = self.tokens@;
        proof {
            lemma_by_text(was);
        }
        match self.find(token) {
            Some(i) => {
                self.tokens.remove(i);
                proof {
                    let now = self.tokens@;
                    let m = by_text(was).remove(token@);
                    assert(now =~= was.remove(i as int));
                    assert forall|j: int| 0 <= j < now.len() implies m.dom().contains((#[trigger] now[j]).token@)
                        && m[now[j].token@] == now[j] by {
                        let o = if j < i { j } else { j + 1 };
                        assert(now[j] == was[o]);
                        if o < i {
                            assert(was[o].token@ != was[i as int].token@);
                        } else {
                            assert(was[i as int].token@ != was[o].token@);
                        }
                    }
                    assert forall|k: Seq<char>| #[trigger] m.dom().contains(k) implies exists|j: int|
                        0 <= j < now.len() && (#[trigger] now[j]).token@ == k by {
                        assert(by_text(was).dom().contains(k));
                        let o = choose|o: int| 0 <= o < was.len() && (#[trigger] was[o]).token@ == k;
                        let j = if o < i { o } else { o - 1 };
                        assert(now[j] == was[o]);
                    }
                    assert forall|a: int, b: int| 0 <= a < b < now.len() implies (#[trigger] now[a]).token@
                        != (#[trigger] now[b]).token@ by {
                        let (x, y) = (if a < i { a } else { a + 1 }, if b < i { b } else { b + 1 });
                        assert(now[a] == was[x] && now[b] == was[y]);
                        assert(was[x].token@ != was[y].token@);
                    }
                    lemma_is_by_text(now, m);
                    assert(by_text(was).dom().contains(was[i as int].token@));
                }
                true
            },
            None => {
                proof {
                    assert(!by_text(was).dom().contains(token@)) by {
                        if by_text(was).dom().contains(token@) {
                            let j = choose|j: int| 0 <= j < was.len() && (#[trigger] was[j]).token@ == token@;
                            assert(was[j].token@ == token@);
                        }
                    }
                    assert(by_text(was).remove(token@) =~= by_text(was));
                }
                false
            },
        }
    }

    /// The token of a text, where one is in force.
    pub fn lookup(&self, token: &str) -> (r: Option<&StreamToken>)
        requires
            self.wf(),
        ensures
            r is Some <==> self@.dom().contains(token@),
            r matches Some(t) ==> *t == self@[token@],
    {
        proof {
            lemma_by_text(self.tokens@);
        }
        match self.find(token) {
            Some(i) => {
                assert(by_text(self.tokens@).dom().contains(self.tokens@[i as int].token@));
                Some(&self.tokens[i])
            },
            None => {
                assert(!by_text(self.tokens@).dom().contains(token@)) by {
                    if by_text(self.tokens@).dom().contains(token@) {
                        let j = choose|j: int|
                            0 <= j < self.tokens@.len() && (#[trigger] self.tokens@[j]).token@ == token@;
                        assert(self.tokens@[j].token@ == token@);
                    }
                }
                None
            },
        }
    }

    /// Drops every token that is not good at `now`, and says how many those were.
    pub fn purge_expired(&mut self, now: i64) -> (r: usize)
        requires
            old(self).wf(),
        ensures
            final(self).wf(),
            forall|k: Seq<char>| #[trigger] final(self)@.dom().contains(k) <==> old(self)@.dom().contains(k)
                && old(self)@[k].good_at(now as int),
            forall|k: Seq<char>| #[trigger] final(self)@.dom().contains(k) ==> final(self)@[k] == old(self)@[k],
            old(self)@.dom().finite(),
            r == old(self)@.dom().len() - final(self)@.dom().len(),
    {
        let ghost was = self.tokens@;
        proof {
            lemma_by_text(was);
        }
        let before: usize = self.tokens.len();
        let ghost m0 = by_text(was);
        let mut i: usize = 0;
        while i < self.tokens.len()
            invariant
                i <= self.tokens@.len() <= before,
                distinct(self.tokens@),
                distinct(was),
                m0 == by_text(was),
                forall|j: int| 0 <= j < i ==> (#[trigger] self.tokens@[j]).good_at(now as int),
                forall|k: Seq<char>| #[trigger] by_text(self.tokens@).dom().contains(k) ==> m0.dom().contains(k)
                    && by_text(self.tokens@)[k] == m0[k],
                forall|k: Seq<char>| #[trigger] m0.dom().contains(k) && m0[k].good_at(now as int) ==> by_text(
                    self.tokens@,
                ).dom().contains(k),
            decreases self.tokens@.len() - i,
        {
            if self.tokens[i].is_valid(now) {
                i = i + 1;
            } else {
                let ghost cur = self.tokens@;
                proof {
                    lemma_by_text(cur);
                }
                let gone = self.tokens.remove(i);
                proof {
                    let next = self.tokens@;
                    assert(next =~= cur.remove(i as int));
                    let m = by_text(cur).remove(gone.token@);
                    assert forall|j: int| 0 <= j < next.len() implies m.dom().contains((#[trigger] next[j]).token@)
                        && m[next[j].token@] == next[j] by {
                        let o = if j < i { j } else { j + 1 };
                        assert(next[j] == cur[o]);
                        if o < i {
                            assert(cur[o].token@ != cur[i as int].token@);
                        } else {
                            assert(cur[i as int].token@ != cur[o].token@);
                        }
                    }
                    assert forall|k: Seq<char>| #[trigger] m.dom().contains(k) implies exists|j: int|
                        0 <= j < next.len() && (#[trigger] next[j]).token@ == k by {
                        assert(by_text(cur).dom().contains(k));
                        let o = choose|o: int| 0 <= o < cur.len() && (#[trigger] cur[o]).token@ == k;
                        let j = if o < i { o } else { o - 1 };
                        assert(next[j] == cur[o]);
                    }
                    assert forall|a: int, b: int| 0 <= a < b < next.len() implies (#[trigger] next[a]).token@
                        != (#[trigger] next[b]).token@ by {
                        let (x, y) = (if a < i { a } else { a + 1 }, if b < i { b } else { b + 1 });
                        assert(next[a] == cur[x] && next[b] == cur[y]);
                        assert(cur[x].token@ != cur[y].token@);
                    }
                    lemma_is_by_text(next, m);
                    assert(by_text(cur).dom().contains(cur[i as int].token@));
                    assert forall|j: int| 0 <= j < i implies (#[trigger] next[j]).good_at(now as int) by {
                        assert(next[j] == cur[j]);
                    }
                }
            }
        }
        proof {
            let end = self.tokens@;
            lemma_by_text(end);
            assert forall|k: Seq<char>| by_text(end).dom().contains(k) implies by_text(end)[k].good_at(now as int) by {
                let j = choose|j: int| 0 <= j < end.len() && (#[trigger] end[j]).token@ == k;
                assert(end[j].good_at(now as int));
            }
        }
        before - self.tokens.len()
    }
}

/// A token that was put in force is found again, until it is revoked.
pub proof fn law_lookup_after_insert_and_revoke(m: Map<Seq<char>, StreamToken>, t: StreamToken)
    ensures
        m.insert(t.token@, t).dom().contains(t.token@),
        m.insert(t.token@, t)[t.token@] == t,
        !m.insert(t.token@, t).remove(t.token@).dom().contains(t.token@),
{
}

/// One.
pub open spec fn one() -> Double {
    Double { neg: false, m: 0x10_0000_0000_0000, e: -52i32 }
}

/// Eight.
pub open spec fn eight() -> Double {
    Double { neg: false, m: 0x10_0000_0000_0000, e: -49i32 }
}

/// One thousand.
pub open spec fn thousand() -> Double {
    Double { neg: false, m: 8796093022208000, e: -43i32 }
}

/// The double nearest to 1.4.
pub open spec fn headroom() -> Double {
    Double { neg: false, m: 6305039478318694, e: -52i32 }
}

/// Bits per second of a segment of `bytes` that took `ms` milliseconds.
pub open spec fn bits_per_second(bytes: int, ms: int) -> int {
    quotient(product(product(of_int(bytes), eight()), thousand()), of_int(ms)).truncated()
}

/// One over a sample; a sample below one counts as one.
pub open spec fn inverse(sample: int) -> Double {
    quotient(one(), of_int(if sample < 1 { 1 } else { sample }))
}

/// The inverses of the samples, added up in order.
pub open spec fn inverse_sum(samples: Seq<i64>) -> Double
    decreases samples.len(),
{
    if samples.len() <= 1 {
        inverse(samples[0] as int)
    } else {
        sum(inverse_sum(samples.drop_last()), inverse(samples.last() as int))
    }
}

/// The last few bandwidth samples of the line.
#[derive(Debug)]
pub struct WanProbe {
    samples_bps: Vec<i64>,
    cap: usize,
}

/// The samples of a probe, the oldest first, and how many it keeps.
#[verifier::ext_equal]
pub struct WanProbeView {
    pub samples: Seq<i64>,
    pub window: nat,
}

impl View for WanProbe {
    type V = WanProbeView;

    closed spec fn view(&self) -> WanProbeView {
        WanProbeView { samples: self.samples_bps@, window: self.cap as nat }
    }
}

impl Default for WanProbe {
    /// A probe that keeps one sample.
    fn default() -> (r: WanProbe)
        ensures
            r.wf(),
            r@ == (WanProbeView { samples: Seq::empty(), window: 1 }),
    {
        WanProbe::new(0)
    }
}

impl WanProbe {
    /// At least one sample can be kept, and no more than that are.
    pub closed spec fn wf(&self) -> bool {
        self.cap >= 1 && self.samples_bps@.len() <= self.cap
    }

    /// A probe that keeps `window` samples, one at least.
    pub fn new(window: usize) -> (r: WanProbe)
        ensures
            r.wf(),
            r@ == (WanProbeView { samples: Seq::empty(), window: if window == 0 { 1 } else { window as nat } }),
    {
        WanProbe { samples_bps: Vec::new(), cap: if window == 0 { 1 } else { window } }
    }

    /// Takes a sample: a segment of so many bytes came in so many milliseconds.
    /// Once the window is full the oldest sample gives way. What took no time or
    /// brought nothing is no sample.
    pub fn record(&mut self, segment_bytes: i64, downloaded_ms: i64)
        requires
            old(self).wf(),
        ensures
            final(self).wf(),
            final(self)@.window == old(self)@.window,
            final(self)@.samples == if downloaded_ms <= 0 || segment_bytes <= 0 {
                old(self)@.samples
            } else if old(self)@.samples.len() == old(self)@.window {
                old(self)@.samples.skip(1).push(bits_per_second(segment_bytes as int, downloaded_ms as int) as i64)
            } else {
                old(self)@.samples.push(bits_per_second(segment_bytes as int, downloaded_ms as int) as i64)
            },
    {
        if downloaded_ms <= 0 || segment_bytes <= 0 {
            return;
        }
        let bits = Double::from_i64(segment_bytes).mul(&Double { neg: false, m: 0x10_0000_0000_0000, e: -49 });
        let scaled = bits.mul(&Double { neg: false, m: 8796093022208000, e: -43 });
        let bps: i64 = scaled.div(&Double::from_i64(downloaded_ms)).to_truncated();
        let ghost was = self.samples_bps@;
        if self.samples_bps.len() == self.cap {
            self.samples_bps.remove(0);
            assert(self.samples_bps@ =~= was.skip(1));
        }
        self.samples_bps.push(bps);
    }

    /// The harmonic mean of the samples, nothing where there are none.
    pub fn estimate_bps(&self) -> (r: Option<i64>)
        requires
            self.wf(),
        ensures
            r is None <==> self@.samples.len() == 0,
            r matches Some(n) ==> n == quotient(of_nat(self@.samples.len()), inverse_sum(self@.samples)).truncated(),
    {
        if self.samples_bps.len() == 0 {
            return None;
        }
        let ghost all = self.samples_bps@;
        let mut total = invert(self.samples_bps[0]);
        let mut i: usize = 1;
        assert(all.take(1).len() == 1);
        while i < self.samples_bps.len()
            invariant
                1 <= i <= self.samples_bps@.len(),
                all == self.samples_bps@,
                total == inverse_sum(all.take(i as int)),
                total.wf(),
                total.m > 0,
                !total.neg,
                -127 <= total.e <= 17,
            decreases self.samples_bps@.len() - i,
        {
            assert(all.take(i + 1).drop_last() =~= all.take(i as int));
            let x = invert(self.samples_bps[i]);
            total = if total.e >= x.e {
                total.plus(&x)
            } else {
                x.plus(&total)
            };
            i = i + 1;
        }
        assert(all.take(i as int) =~= all);
        let n = Double::from_u64(self.samples_bps.len() as u64);
        Some(n.div(&total).to_truncated())
    }
}

fn invert(sample: i64) -> (r: Double)
    ensures
        r == inverse(sample as int),
        r.wf(),
        !r.neg,
        r.m > 0,
        -127 <= r.e <= -41,
{
    let s: i64 = if sample < 1 {
        1
    } else {
        sample
    };
    let one = Double { neg: false, m: 0x10_0000_0000_0000, e: -52 };
    one.div(&Double::from_i64(s))
}

/// One rendition of a stream.
#[derive(Debug, Clone)]
pub struct ManifestVariant {
    pub label: String,
    pub width: i32,
    pub height: i32,
    pub bitrate_bps: i64,
    pub playlist_url: String,
}

/// What a host is willing to serve of an item.
#[derive(Debug, Clone)]
pub struct StreamManifest {
    pub item_id: i64,
    pub duration_s: Double,
    pub variants: Vec<ManifestVariant>,
    /// The capability that the account must have.
    pub required_cap: String,
}

/// What a variant needs of the line: its bitrate and two fifths more.
pub open spec fn needed_bps(bitrate: int) -> int {
    product(of_int(bitrate), headroom()).truncated()
}

/// The last variant that a line of `probe` bits per second carries.
pub open spec fn carried(variants: Seq<ManifestVariant>, probe: int) -> Option<ManifestVariant>
    decreases variants.len(),
{
    if variants.len() == 0 {
        None
    } else if needed_bps(variants.last().bitrate_bps as int) <= probe {
        Some(variants.last())
    } else {
        carried(variants.drop_last(), probe)
    }
}

impl StreamManifest {
    /// The last variant that fits the line with headroom, none where none does.
    pub fn pick_variant(&self, probe_bps: i64) -> (r: Option<&ManifestVariant>)
        ensures
            match r {
                Some(v) => carried(self.variants@, probe_bps as int) == Some(*v),
                None => carried(self.variants@, probe_bps as int) is None,
            },
    {
        let ghost all = self.variants@;
        let mut i: usize = self.variants.len();
        assert(all.take(i as int) =~= all);
        while i > 0
            invariant
                i <= self.variants@.len(),
                all == self.variants@,
                carried(all, probe_bps as int) == carried(all.take(i as int), probe_bps as int),
            decreases i,
        {
            assert(all.take(i as int).drop_last() =~= all.take(i - 1));
            assert(all.take(i as int).last() == all[i - 1]);
            let v = &self.variants[i - 1];
            let need: i64 = Double::from_i64(v.bitrate_bps).mul(
                &Double { neg: false, m: 6305039478318694, e: -52 },
            ).to_truncated();
            if need <= probe_bps {
                return Some(v);
            }
            i = i - 1;
        }
        None
    }
}

/// The header line of a token.
pub open spec fn authz_text(t: StreamToken) -> Seq<char> {
    "Bearer "@ + t.token@ + " item="@ + dec_int(t.item_id as int) + " user="@ + dec(t.user_id as nat)
}

/// The header that presents a token and names its item and user.
pub fn authz_header(token: &StreamToken) -> (r: String)
    ensures
        r@ == authz_text(*token),
{
    let mut s = "Bearer ".to_owned();
    s.append(token.token.as_str());
    s.append(" item=");
    push_dec_int(&mut s, token.item_id);
    s.append(" user=");
    push_dec(&mut s, token.user_id);
    s
}

/// A header that presents no bearer token.
#[derive(Debug, Clone, Copy, PartialEq, Eq, Structural)]
pub enum AuthzError {
    MissingBearer,
}

impl AuthzError {
    /// What is wrong, in words.
    pub fn message(&self) -> (r: &'static str)
        ensures
            r@ == "missing Bearer prefix"@,
    {
        "missing Bearer prefix"
    }
}

/// What stands in front of the first space.
pub open spec fn first_word(s: Seq<char>) -> Seq<char>
    decreases s.len(),
{
    if s.len() == 0 || s[0] == ' ' {
        Seq::empty()
    } else {
        seq![s[0]] + first_word(s.skip(1))
    }
}

/// The token that a header presents: what follows "Bearer ", up to a space.
pub open spec fn authz_token(header: Seq<char>) -> Option<Seq<char>> {
    if header.len() >= 7 && header.take(7) == "Bearer "@ {
        Some(first_word(header.skip(7)))
    } else {
        None
    }
}

/// The token text of a header; an error where it presents none.
pub fn parse_authz_header(header: &str) -> (r: Result<&str, AuthzError>)
    ensures
        match r {
            Ok(t) => authz_token(header@) == Some(t@),
            Err(_) => authz_token(header@) is None,
        },
{
    let v = chars_of(header);
    proof {
        reveal_strlit("Bearer ");
    }
    if v.len() < 7 {
        return Err(AuthzError::MissingBearer);
    }
    let head = header.substring_char(0, 7);
    assert(header@.subrange(0, 7) =~= header@.take(7));
    if !same(head, "Bearer ") {
        return Err(AuthzError::MissingBearer);
    }
    let n: usize = v.len();
    let ghost rest = v@.skip(7);
    let mut end: usize = 7;
    assert(rest.skip(0) =~= rest);
    assert(rest.take(0) =~= Seq::<char>::empty());
    assert(Seq::<char>::empty() + first_word(rest) =~= first_word(rest));
    while end < n && v[end] != ' '
        invariant
            7 <= end <= n,
            n == v@.len(),
            rest == v@.skip(7),
            first_word(rest) == rest.take(end - 7) + first_word(rest.skip(end - 7)),
        decreases n - end,
    {
        let ghost k = end - 7;
        assert(rest.skip(k)[0] == v@[end as int]);
        assert(rest.skip(k).skip(1) =~= rest.skip(k + 1));
        assert(rest.take(k + 1) =~= rest.take(k) + seq![v@[end as int]]);
        assert(rest.take(k) + (seq![v@[end as int]] + first_word(rest.skip(k + 1))) =~= rest.take(k + 1)
            + first_word(rest.skip(k + 1)));
        end = end + 1;
    }
    proof {
        let k = end - 7;
        if end < n {
            assert(rest.skip(k)[0] == v@[end as int]);
        }
        assert(first_word(rest) =~= rest.take(k));
        assert(rest.take(k) =~= header@.subrange(7, end as int));
    }
    Ok(header.substring_char(7, end))
}

/// A header read back gives the token it was made for.
pub proof fn law_authz_header_reads_back(t: StreamToken)
    requires
        !t.token@.contains(' '),
    ensures
        authz_token(authz_text(t)) == Some(t.token@),
{
    reveal_strlit("Bearer ");
    reveal_strlit(" item=");
    let tail = " item="@ + dec_int(t.item_id as int) + " user="@ + dec(t.user_id as nat);
    let h = authz_text(t);
    assert(h =~= "Bearer "@ + (t.token@ + tail));
    assert(h.take(7) =~= "Bearer "@);
    assert(h.skip(7) =~= t.token@ + tail);
    assert(tail[0] == ' ');
    lemma_first_word(t.token@, tail);
}

proof fn lemma_first_word(a: Seq<char>, b: Seq<char>)
    requires
        !a.contains(' '),
        b.len() > 0,
        b[0] == ' ',
    ensures
        first_word(a + b) == a,
    decreases a.len(),
{
    let s = a + b;
    if a.len() == 0 {
        assert(s =~= b);
        assert(a =~= Seq::<char>::empty());
    } else {
        assert(s[0] == a[0]);
        assert(a.contains(a[0]));
        assert(s.skip(1) =~= a.skip(1) + b);
        assert(!a.skip(1).contains(' ')) by {
            if a.skip(1).contains(' ') {
                let i = choose|i: int| 0 <= i < a.skip(1).len() && a.skip(1)[i] == ' ';
                assert(a[i + 1] == ' ');
            }
        }
        lemma_first_word(a.skip(1), b);
        assert(seq![a[0]] + a.skip(1) =~= a);
    }
}

/// No rung is picked that the line cannot carry, and none is passed over that
/// comes later and fits.
pub proof fn law_picked_variant_fits(variants: Seq<ManifestVariant>, probe: int, i: int)
    requires
        0 <= i < variants.len(),
        needed_bps(variants[i].bitrate_bps as int) <= probe,
    ensures
        carried(variants, probe) is Some,
        needed_bps(carried(variants, probe)->0.bitrate_bps as int) <= probe,
        exists|j: int| i <= j < variants.len() && carried(variants, probe) == Some(#[trigger] variants[j]),
    decreases variants.len(),
{
    let n = variants.len() as int;
    if needed_bps(variants.last().bitrate_bps as int) <= probe {
        assert(carried(variants, probe) == Some(variants[n - 1]));
    } else {
        let front = variants.drop_last();
        law_picked_variant_fits(front, probe, i);
        let j = choose|j: int| i <= j < front.len() && carried(front, probe) == Some(#[trigger] front[j]);
        assert(front[j] == variants[j]);
    }
}

/// A token lasts as long as it was asked for, a minute at least, from the moment it was
/// issued; only the end of time cuts it short.
pub proof fn law_a_token_lasts_at_least_a_minute(now: i64, ttl: i64)
    ensures
        ttl >= 60 && now + ttl <= i64::MAX ==> expiry(now as int, ttl as int) == now + ttl,
        ttl < 60 && now + 60 <= i64::MAX ==> expiry(now as int, ttl as int) == now + 60,
        expiry(now as int, ttl as int) <= i64::MAX,
        expiry(now as int, ttl as int) >= now,
{
}

/// A clock within reach reads as it is; without one the time is zero.
pub proof fn law_a_clock_reads_its_seconds(s: u64)
    requires
        s <= i64::MAX,
    ensures
        seconds_of(Some(s)) == s,
        seconds_of(None) == 0,
{
}

/// Of the variants the last that the line carries is taken: those behind it need more than
/// there is, and none is taken only where all do.
#[verifier::spinoff_prover]
#[verifier::rlimit(80)]
pub proof fn law_the_last_variant_that_fits_is_taken(variants: Seq<ManifestVariant>, probe: int)
    ensures
        carried(variants, probe) matches Some(v) ==> exists|i: int|
            0 <= i < variants.len() && (#[trigger] variants[i]) == v && needed_bps(v.bitrate_bps as int) <= probe && forall|j: int|
                i < j < variants.len() ==> needed_bps((#[trigger] variants[j]).bitrate_bps as int) > probe,
        carried(variants, probe) is None ==> forall|j: int|
            0 <= j < variants.len() ==> needed_bps((#[trigger] variants[j]).bitrate_bps as int) > probe,
    decreases variants.len(),
{
    if variants.len() > 0 {
        let front = variants.drop_last();
        if needed_bps(variants.last().bitrate_bps as int) <= probe {
            assert(variants[variants.len() - 1] == variants.last());
        } else {
            law_the_last_variant_that_fits_is_taken(front, probe);
            assert forall|i: int| 0 <= i < front.len() implies (#[trigger] front[i]) == variants[i] by {}
            if carried(front, probe) is Some {
                let v = carried(front, probe)->0;
                let i = choose|i: int|
                    0 <= i < front.len() && (#[trigger] front[i]) == v && needed_bps(v.bitrate_bps as int) <= probe && forall|j: int|
                        i < j < front.len() ==> needed_bps((#[trigger] front[j]).bitrate_bps as int) > probe;
                assert(variants[i] == v);
                assert forall|j: int| i < j < variants.len() implies needed_bps((#[trigger] variants[j]).bitrate_bps as int) > probe by {
                    if j < front.len() {
                        assert(front[j] == variants[j]);
                    }
                }
            } else {
                assert forall|j: int| 0 <= j < variants.len() implies needed_bps((#[trigger] variants[j]).bitrate_bps as int) > probe by {
                    if j < front.len() {
                        assert(front[j] == variants[j]);
                    }
                }
            }
        }
    }
}

/// What a segment says of the line is its bits over its time; a sample counts by its inverse,
/// one below one as one; and a variant needs its bitrate and two fifths more.
pub proof fn law_the_line_is_measured_in_bits_over_time(bytes: int, ms: int, samples: Seq<i64>, last: i64, rate: int)
    requires
        samples.len() > 0,
    ensures
        bits_per_second(bytes, ms) == quotient(product(product(of_int(bytes), eight()), thousand()), of_int(ms)).truncated(),
        inverse_sum(samples.push(last)) == sum(inverse_sum(samples), inverse(last as int)),
        inverse_sum(seq![last]) == inverse(last as int),
        last >= 1 ==> inverse(last as int) == quotient(one(), of_int(last as int)),
        last < 1 ==> inverse(last as int) == quotient(one(), of_int(1)),
        needed_bps(rate) == product(of_int(rate), headroom()).truncated(),
        eight().m == one().m && eight().e == one().e + 3,
        thousand().m == 1000 * 0x800_0000_0000 && thousand().e == -43,
{
    assert(samples.push(last).drop_last() =~= samples);
}

} // verus!
