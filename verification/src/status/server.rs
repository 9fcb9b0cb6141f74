//! What the dashboard's server lets through and what the page may ask for.

use vstd::prelude::*;
use crate::outside::{json_string, json_text, random_32};
use crate::status::figures::{opt_string, opt_view};
use crate::sync::hex::{hex, hex_text};
use crate::text::{dec_int, push_dec_int, same};

verus! {

/// What the page can ask the app to do.
#[derive(Debug, Clone)]
pub enum Action {
    /// Switch the app to a section.
    OpenSection(String),
    /// Re-scan every library root.
    Rescan,
    /// Open the app's own "add watched folder" picker.
    AddFolder,
    /// Erase every database, setting and cache, then relaunch clean.
    ResetApp,
}

/// What has to be typed to confirm a reset.
pub const RESET_PHRASE: &'static str = "RESET";

/// The token that some random bytes make; none where there were no bytes.
pub open spec fn token_text(bytes: Option<Seq<u8>>) -> Seq<char> {
    match bytes {
        Some(b) => hex_text(b),
        None => Seq::empty(),
    }
}

/// See [`token_text`].
pub fn token_of(bytes: Option<Vec<u8>>) -> (r: String)
    ensures
        r@ == token_text(
            match bytes {
                Some(b) => Some(b@),
                None => None,
            },
        ),
        bytes matches Some(b) ==> r@.len() == 2 * b@.len(),
{
    match bytes {
        Some(b) => hex(b.as_slice()),
        None => String::new(),
    }
}

/// A fresh token: 32 random bytes in hexadecimal, or empty where the system gave
/// none, so that nothing is served under a token that could be guessed.
pub fn mint_token() -> (r: String)
    ensures
        r@.len() == 0 || exists|b: Seq<u8>| b.len() == 32 && r@ == #[trigger] hex_text(b),
        r@.len() == 0 || r@.len() == 64,
{
    let bytes = random_32();
    token_of(bytes)
}

/// Whether a request carries the server's token. Every byte is looked at wherever
/// the two first differ.
pub fn authed(token: &str, presented: Option<&str>) -> (r: bool)
    ensures
        r == (opt_view(presented) == Some(token@)),
{
    match presented {
        None => false,
        Some(t) => {
            let a = t.as_bytes();
            let b = token.as_bytes();
            if a.len() != b.len() {
                return false;
            }
            let mut diff: u8 = 0;
            let mut i: usize = 0;
            while i < a.len()
                invariant
                    a@.len() == b@.len(),
                    i <= a@.len(),
                    diff == 0 <==> (forall|j: int| 0 <= j < i ==> a@[j] == #[trigger] b@[j]),
                decreases a@.len() - i,
            {
                let (x, y) = (a[i], b[i]);
                assert((diff | (x ^ y)) == 0 <==> (diff == 0 && x == y)) by (bit_vector);
                diff = diff | (x ^ y);
                i = i + 1;
            }
            proof {
                vstd::utf8::encode_utf8_decode_utf8(t@);
                vstd::utf8::encode_utf8_decode_utf8(token@);
                if diff == 0 {
                    assert(a@ =~= b@);
                } else if t@ == token@ {
                    assert(a@ == b@);
                }
            }
            diff == 0
        },
    }
}

/// The sections that the page may open.
pub open spec fn is_section(s: Seq<char>) -> bool {
    ||| s == "home"@
    ||| s == "photos"@
    ||| s == "videos"@
    ||| s == "music"@
    ||| s == "books"@
    ||| s == "cloud"@
    ||| s == "tools"@
    ||| s == "transfer"@
    ||| s == "finances"@
    ||| s == "settings"@
}

fn known_section(s: &str) -> (r: bool)
    ensures
        r == is_section(s@),
{
    same(s, "home") || same(s, "photos") || same(s, "videos") || same(s, "music") || same(s, "books") || same(
        s,
        "cloud",
    ) || same(s, "tools") || same(s, "transfer") || same(s, "finances") || same(s, "settings")
}

/// What a request is answered.
#[derive(Debug, Clone)]
pub enum Answer {
    /// Refused: no token, or the wrong one.
    Denied,
    /// The request makes no sense, and why.
    Bad(&'static str),
    /// Accepted; the app is to do this.
    Accepted(Action),
}

/// The line that a refused request is answered with.
pub const DENIED: &'static str = "bad or missing token";

impl Answer {
    /// The HTTP status of the answer.
    pub fn status(&self) -> (r: u16)
        ensures
            r == match *self {
                Answer::Denied => 403u16,
                Answer::Bad(_) => 400u16,
                Answer::Accepted(_) => 200u16,
            },
    {
        match self {
            Answer::Denied => 403,
            Answer::Bad(_) => 400,
            Answer::Accepted(_) => 200,
        }
    }
}

/// What a request to open a section comes to, for the section that its body names.
pub open spec fn opens(a: Answer, section: Option<Seq<char>>) -> bool {
    match section {
        None => a matches Answer::Bad(why) && why@ == "no section"@,
        Some(s) => if is_section(s) {
            a matches Answer::Accepted(Action::OpenSection(t)) && t@ == s
        } else {
            a matches Answer::Bad(why) && why@ == "unknown section"@
        },
    }
}

/// The answer to a request to open a section, for the section that its body names.
/// Only the sections there are can be opened.
pub fn open_named(section: Option<String>) -> (r: Answer)
    ensures
        opens(r, opt_string(section)),
{
    match section {
        None => Answer::Bad("no section"),
        Some(s) => if known_section(s.as_str()) {
            Answer::Accepted(Action::OpenSection(s))
        } else {
            Answer::Bad("unknown section")
        },
    }
}

/// The answer to a request to open a section.
pub fn open_section(token: &str, presented: Option<&str>, body: &str) -> (r: Answer)
    ensures
        opt_view(presented) != Some(token@) ==> r is Denied,
        opt_view(presented) == Some(token@) ==> opens(r, json_text(body@, "section"@)),
{
    if !authed(token, presented) {
        return Answer::Denied;
    }
    open_named(json_string(body, "section"))
}

/// The answer to a request to scan again.
pub fn rescan(token: &str, presented: Option<&str>) -> (r: Answer)
    ensures
        opt_view(presented) != Some(token@) ==> r is Denied,
        opt_view(presented) == Some(token@) ==> r == Answer::Accepted(Action::Rescan),
{
    if !authed(token, presented) {
        return Answer::Denied;
    }
    Answer::Accepted(Action::Rescan)
}

/// The answer to a request to add a folder.
pub fn add_folder(token: &str, presented: Option<&str>) -> (r: Answer)
    ensures
        opt_view(presented) != Some(token@) ==> r is Denied,
        opt_view(presented) == Some(token@) ==> r == Answer::Accepted(Action::AddFolder),
{
    if !authed(token, presented) {
        return Answer::Denied;
    }
    Answer::Accepted(Action::AddFolder)
}

/// What a request to reset comes to, for the phrase that its body confirms with.
pub open spec fn resets(a: Answer, phrase: Option<Seq<char>>) -> bool {
    if phrase == Some(RESET_PHRASE@) {
        a == Answer::Accepted(Action::ResetApp)
    } else {
        a matches Answer::Bad(why) && why@ == "reset not confirmed"@
    }
}

/// The answer to a request to reset, for the phrase that its body confirms with.
pub fn reset_confirmed(phrase: Option<String>) -> (r: Answer)
    ensures
        resets(r, opt_string(phrase)),
{
    match phrase {
        Some(p) => if same(p.as_str(), RESET_PHRASE) {
            Answer::Accepted(Action::ResetApp)
        } else {
            Answer::Bad("reset not confirmed")
        },
        None => Answer::Bad("reset not confirmed"),
    }
}

/// The answer to a request to erase everything: the token alone is not enough, the
/// phrase has to have been typed.
pub fn reset(token: &str, presented: Option<&str>, body: &str) -> (r: Answer)
    ensures
        opt_view(presented) != Some(token@) ==> r is Denied,
        opt_view(presented) == Some(token@) ==> resets(r, json_text(body@, "confirm"@)),
{
    if !authed(token, presented) {
        return Answer::Denied;
    }
    reset_confirmed(json_string(body, "confirm"))
}

/// Nothing is erased for a caller without the token, nor without the phrase.
pub proof fn law_reset_needs_token_and_phrase(a: Answer, phrase: Option<Seq<char>>)
    requires
        resets(a, phrase),
        a == Answer::Accepted(Action::ResetApp),
    ensures
        phrase == Some(RESET_PHRASE@),
{
}

/// How long a page may stay silent and still count as open, in seconds.
pub const WATCHED_S: i64 = 12;

/// When a page last asked, and whether it is to come forward.
#[derive(Debug, Clone, Copy, PartialEq, Eq, Structural)]
pub struct Watch {
    pub last_seen: i64,
    pub focus: bool,
}

impl Watch {
    /// Nobody has asked yet.
    pub fn new() -> (r: Watch)
        ensures
            r == (Watch { last_seen: 0, focus: false }),
    {
        Watch { last_seen: 0, focus: false }
    }

    /// Seconds since a page last asked.
    pub fn idle_secs(&self, now: i64) -> (r: i64)
        requires
            i64::MIN <= now - self.last_seen <= i64::MAX,
        ensures
            r == now - self.last_seen,
    {
        now - self.last_seen
    }

    /// A page asked recently enough to count as open.
    pub fn watched(&self, now: i64) -> (r: bool)
        requires
            i64::MIN <= now - self.last_seen <= i64::MAX,
        ensures
            r == (now - self.last_seen < WATCHED_S),
    {
        self.idle_secs(now) < WATCHED_S
    }

    /// Asks the open page to come forward.
    pub fn request_focus(&mut self)
        ensures
            *final(self) == (Watch { focus: true, ..*old(self) }),
    {
        self.focus = true;
    }

    /// A page asks at `now`. Whether it is to come forward: the first page that
    /// asks after the request is, and only that one.
    pub fn seen(&mut self, now: i64) -> (r: bool)
        ensures
            r == old(self).focus,
            *final(self) == (Watch { last_seen: now, focus: false }),
    {
        let focus = self.focus;
        self.last_seen = now;
        self.focus = false;
        focus
    }
}

/// The address of the page.
pub open spec fn page_text(port: int, token: Seq<char>) -> Seq<char> {
    "http://127.0.0.1:"@ + dec_int(port) + "/?t="@ + token
}

/// The address that the app hands to the browser, token included.
pub fn page_url(port: u16, token: &str) -> (r: String)
    ensures
        r@ == page_text(port as int, token@),
{
    let mut s = "http://127.0.0.1:".to_owned();
    push_dec_int(&mut s, port as i64);
    s.append("/?t=");
    s.append(token);
    s
}

/// An address on this machine.
pub open spec fn loopback(url: Seq<char>) -> bool {
    url.len() >= 17 && url.take(17) == "http://127.0.0.1:"@
}

/// Whether an address may be handed to the browser: only ever one on this machine.
pub fn may_open(url: &str) -> (r: bool)
    ensures
        r == loopback(url@),
{
    if url.unicode_len() < 17 {
        return false;
    }
    assert(url@.subrange(0, 17) =~= url@.take(17));
    same(url.substring_char(0, 17), "http://127.0.0.1:")
}

/// The page's own address may always be opened.
pub proof fn law_page_is_loopback(port: int, token: Seq<char>)
    ensures
        loopback(page_text(port, token)),
{
    reveal_strlit("http://127.0.0.1:");
    let s = page_text(port, token);
    assert(s.take(17) =~= "http://127.0.0.1:"@);
}

/// The page may open its ten sections and no other.
pub proof fn law_the_page_opens_its_sections_alone(s: Seq<char>)
    ensures
        is_section(s) <==> seq!["home"@, "photos"@, "videos"@, "music"@, "books"@, "cloud"@, "tools"@, "transfer"@, "finances"@, "settings"@].contains(s),
{
    let all = seq!["home"@, "photos"@, "videos"@, "music"@, "books"@, "cloud"@, "tools"@, "transfer"@, "finances"@, "settings"@];
    assert(all[0] == "home"@); assert(all[1] == "photos"@); assert(all[2] == "videos"@); assert(all[3] == "music"@); assert(all[4] == "books"@); assert(all[5] == "cloud"@); assert(all[6] == "tools"@); assert(all[7] == "transfer"@); assert(all[8] == "finances"@); assert(all[9] == "settings"@);
    if all.contains(s) {
        let k = choose|k: int| 0 <= k < all.len() && all[k] == s;
        assert(0 <= k < 10);
    }
}

/// A token is its random bytes in digits; where there were none, there is no token.
pub proof fn law_a_token_is_its_random_bytes(b: Seq<u8>)
    ensures
        token_text(Some(b)) == hex_text(b),
        token_text(None).len() == 0,
{
}

} // verus!
