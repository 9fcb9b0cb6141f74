//! How the sharing page puts things: counts, times, kinds of files, and what to
//! do when a phone cannot connect.

use vstd::prelude::*;
use crate::ascii::{ascii_lowercase, fold};
use crate::outside::{
    law_a_name_is_the_last_component, name_fits, name_part, path_name, plain_name, slash_only, to_uppercase, uppercase,
};
use crate::status::figures::opt_string;
use crate::text::{dec, dec_int, join, join_strings, push_dec, push_dec_int, same, views};
use crate::tools::paths::{extension, file_extension};
use vstd::utf8::encode_utf8;

verus! {

/// A count of things.
pub open spec fn plural_text(n: nat, word: Seq<char>) -> Seq<char> {
    if n == 1 { "1 "@ + word } else { dec(n) + " "@ + word + "s"@ }
}

/// See [`plural_text`].
pub fn plural(n: u64, word: &str) -> (r: String)
    ensures
        r@ == plural_text(n as nat, word@),
{
    if n == 1 {
        let mut s = "1 ".to_owned();
        s.append(word);
        return s;
    }
    let mut s = String::new();
    push_dec(&mut s, n);
    assert(s@ =~= dec(n as nat));
    s.append(" ");
    s.append(word);
    s.append("s");
    s
}

/// How long a pairing has left: hours alone from six on, minutes rounded up below
/// an hour.
pub open spec fn left_text(secs: nat) -> Seq<char> {
    let hours = secs / 3600;
    let minutes = (secs % 3600) / 60;
    if secs == 0 {
        "expired"@
    } else if hours == 0 {
        plural_text((secs + 59) / 60, "min"@)
    } else if hours >= 6 || minutes == 0 {
        plural_text(hours, "hour"@)
    } else {
        plural_text(hours, "hour"@) + ", "@ + plural_text(minutes, "min"@)
    }
}

/// See [`left_text`].
pub fn left(secs: u64) -> (r: String)
    ensures
        r@ == left_text(secs as nat),
{
    if secs == 0 {
        return "expired".to_owned();
    }
    let hours: u64 = secs / 3600;
    if hours >= 1 {
        let minutes: u64 = (secs % 3600) / 60;
        if hours >= 6 || minutes == 0 {
            plural(hours, "hour")
        } else {
            let mut s = plural(hours, "hour");
            s.append(", ");
            let m = plural(minutes, "min");
            s.append(m.as_str());
            s
        }
    } else {
        plural((secs + 59) / 60, "min")
    }
}

/// The badge of a file: its extension in capitals where that is at most four
/// bytes long.
pub open spec fn badge(name: Option<Seq<char>>) -> Seq<char> {
    match name {
        Some(n) => match extension(n) {
            Some(e) => if encode_utf8(uppercase(e)).len() <= 4 { uppercase(e) } else { "FILE"@ },
            None => "FILE"@,
        },
        None => "FILE"@,
    }
}

/// The badge of an extension, its capitals given.
pub fn badge_of(capitals: &Option<String>) -> (r: String)
    ensures
        r@ == (match opt_string(*capitals) {
            Some(e) => if encode_utf8(e).len() <= 4 { e } else { "FILE"@ },
            None => "FILE"@,
        }),
{
    match capitals {
        Some(e) => if e.as_str().as_bytes().len() <= 4 { e.clone() } else { "FILE".to_owned() },
        None => "FILE".to_owned(),
    }
}

/// The badge of a file, told from the last component of its path.
pub fn kind_of(name: &str) -> (r: String)
    ensures
        exists|n: Option<Seq<char>>| r@ == #[trigger] badge(n) && name_fits(name@, n),
        slash_only(name@) && plain_name(name_part(name@)) ==> r@ == badge(Some(name_part(name@))),
{
    proof {
        if plain_name(name_part(name@)) {
            law_a_name_is_the_last_component(name@);
        }
    }
    let own = path_name(name);
    let capitals = match &own {
        Some(n) => match file_extension(n.as_str()) {
            Some(e) => Some(to_uppercase(e.as_str())),
            None => None,
        },
        None => None,
    };
    let r = badge_of(&capitals);
    assert(r@ == badge(opt_string(own)));
    r
}

/// The family of files that an extension in small letters belongs to.
pub open spec fn family(ext: Seq<char>) -> Option<Seq<char>> {
    if ext == "jpg"@ || ext == "jpeg"@ || ext == "png"@ || ext == "gif"@ || ext == "webp"@ || ext == "heic"@ || ext
        == "avif"@ || ext == "bmp"@ || ext == "tiff"@ {
        Some("Image"@)
    } else if ext == "mp4"@ || ext == "mkv"@ || ext == "mov"@ || ext == "avi"@ || ext == "webm"@ || ext == "m4v"@ || ext
        == "wmv"@ {
        Some("Video"@)
    } else if ext == "mp3"@ || ext == "flac"@ || ext == "wav"@ || ext == "m4a"@ || ext == "ogg"@ || ext == "opus"@
        || ext == "aac"@ {
        Some("Audio"@)
    } else if ext == "pdf"@ {
        Some("PDF Document"@)
    } else if ext == "epub"@ || ext == "mobi"@ || ext == "azw3"@ || ext == "cbz"@ || ext == "cbr"@ {
        Some("Book"@)
    } else if ext == "zip"@ || ext == "rar"@ || ext == "7z"@ || ext == "tar"@ || ext == "gz"@ || ext == "xz"@ || ext
        == "zst"@ {
        Some("Archive"@)
    } else if ext == "doc"@ || ext == "docx"@ || ext == "odt"@ || ext == "rtf"@ || ext == "txt"@ || ext == "md"@ {
        Some("Document"@)
    } else if ext == "xls"@ || ext == "xlsx"@ || ext == "ods"@ || ext == "csv"@ {
        Some("Spreadsheet"@)
    } else if ext == "ppt"@ || ext == "pptx"@ || ext == "odp"@ {
        Some("Presentation"@)
    } else if ext == "apk"@ || ext == "exe"@ || ext == "msi"@ || ext == "dmg"@ || ext == "appimage"@ || ext == "deb"@
        || ext == "rpm"@ {
        Some("Application"@)
    } else {
        None
    }
}

fn family_of(ext: &str) -> (r: Option<&'static str>)
    ensures
        r is Some <==> family(ext@) is Some,
        r matches Some(s) ==> Some(s@) == family(ext@),
{
    if same(ext, "jpg") || same(ext, "jpeg") || same(ext, "png") || same(ext, "gif") || same(ext, "webp") || same(
        ext,
        "heic",
    ) || same(ext, "avif") || same(ext, "bmp") || same(ext, "tiff") {
        Some("Image")
    } else if same(ext, "mp4") || same(ext, "mkv") || same(ext, "mov") || same(ext, "avi") || same(ext, "webm")
        || same(ext, "m4v") || same(ext, "wmv") {
        Some("Video")
    } else if same(ext, "mp3") || same(ext, "flac") || same(ext, "wav") || same(ext, "m4a") || same(ext, "ogg")
        || same(ext, "opus") || same(ext, "aac") {
        Some("Audio")
    } else if same(ext, "pdf") {
        Some("PDF Document")
    } else if same(ext, "epub") || same(ext, "mobi") || same(ext, "azw3") || same(ext, "cbz") || same(ext, "cbr") {
        Some("Book")
    } else if same(ext, "zip") || same(ext, "rar") || same(ext, "7z") || same(ext, "tar") || same(ext, "gz") || same(
        ext,
        "xz",
    ) || same(ext, "zst") {
        Some("Archive")
    } else if same(ext, "doc") || same(ext, "docx") || same(ext, "odt") || same(ext, "rtf") || same(ext, "txt")
        || same(ext, "md") {
        Some("Document")
    } else if same(ext, "xls") || same(ext, "xlsx") || same(ext, "ods") || same(ext, "csv") {
        Some("Spreadsheet")
    } else if same(ext, "ppt") || same(ext, "pptx") || same(ext, "odp") {
        Some("Presentation")
    } else if same(ext, "apk") || same(ext, "exe") || same(ext, "msi") || same(ext, "dmg") || same(ext, "appimage")
        || same(ext, "deb") || same(ext, "rpm") {
        Some("Application")
    } else {
        None
    }
}

/// What a file is, in words: its family, else its extension in capitals.
pub open spec fn described(name: Option<Seq<char>>) -> Seq<char> {
    let ext = match name {
        Some(n) => match extension(n) {
            Some(e) => fold(e),
            None => Seq::empty(),
        },
        None => Seq::empty(),
    };
    match family(ext) {
        Some(f) => f,
        None => if ext.len() == 0 { "File"@ } else { uppercase(ext) + " file"@ },
    }
}

/// What a file with an extension is, the extension given in small letters and in
/// capitals.
pub fn describe(ext: &str, capitals: &str) -> (r: String)
    ensures
        r@ == (match family(ext@) {
            Some(f) => f,
            None => if ext@.len() == 0 { "File"@ } else { capitals@ + " file"@ },
        }),
{
    match family_of(ext) {
        Some(f) => f.to_owned(),
        None => if ext.is_empty() {
            "File".to_owned()
        } else {
            let mut s = capitals.to_owned();
            s.append(" file");
            s
        },
    }
}

/// What a file is, in words, told from the last component of its path.
pub fn kind_label(name: &str) -> (r: String)
    ensures
        exists|n: Option<Seq<char>>| r@ == #[trigger] described(n) && name_fits(name@, n),
        slash_only(name@) && plain_name(name_part(name@)) ==> r@ == described(Some(name_part(name@))),
{
    proof {
        if plain_name(name_part(name@)) {
            law_a_name_is_the_last_component(name@);
        }
    }
    let own = path_name(name);
    let ext = match &own {
        Some(n) => match file_extension(n.as_str()) {
            Some(e) => ascii_lowercase(e.as_str()),
            None => String::new(),
        },
        None => String::new(),
    };
    let capitals = to_uppercase(ext.as_str());
    let r = describe(ext.as_str(), capitals.as_str());
    proof {
        let x = match opt_string(own) {
            Some(n) => match extension(n) {
                Some(e) => fold(e),
                None => Seq::empty(),
            },
            None => Seq::empty(),
        };
        assert(ext@ =~= x);
        assert(r@ == described(opt_string(own)));
    }
    r
}

/// A moment: relative while it is recent, by its date before that and ahead.
pub open spec fn when_text(at: int, now: int, date: Seq<char>) -> Seq<char> {
    let d = now - at;
    if d < 0 {
        date
    } else if d < 60 {
        "just now"@
    } else if d < 3600 {
        dec_int(d / 60) + " min ago"@
    } else if d < 86_400 {
        dec_int(d / 3600) + " h ago"@
    } else {
        date
    }
}

/// "just now" / "12 min ago" / "3 h ago", then the date once it stops mattering;
/// `date` is what the moment's date reads.
pub fn when(at: i64, now: i64, date: &str) -> (r: String)
    requires
        i64::MIN <= now - at <= i64::MAX,
    ensures
        r@ == when_text(at as int, now as int, date@),
{
    let d: i64 = now - at;
    if d < 0 {
        date.to_owned()
    } else if d < 60 {
        "just now".to_owned()
    } else if d < 3600 {
        crate::text::count_of(d / 60, " min ago")
    } else if d < 86_400 {
        crate::text::count_of(d / 3600, " h ago")
    } else {
        date.to_owned()
    }
}

/// How many pages some rows fill, one at least.
pub open spec fn page_count(total: int, per_page: int) -> int {
    let n = (total + per_page - 1) / per_page;
    if n < 1 { 1 } else { n }
}

/// How many pages `total` rows fill: even a list with nothing in it has one.
pub fn pages(total: u64, per_page: u64) -> (r: u64)
    requires
        per_page > 0,
    ensures
        r == page_count(total as int, per_page as int),
{
    let q: u64 = total / per_page;
    let left: u64 = total % per_page;
    proof {
        let (t, p) = (total as int, per_page as int);
        vstd::arithmetic::div_mod::lemma_fundamental_div_mod(t, p);
        let n = t + p - 1;
        if left > 0 {
            assert(n == (q + 1) * p + (left - 1)) by (nonlinear_arith)
                requires
                    t == p * q + left,
                    n == t + p - 1,
            ;
            vstd::arithmetic::div_mod::lemma_fundamental_div_mod_converse(n, p, q + 1, left - 1);
        } else {
            assert(n == q * p + (p - 1)) by (nonlinear_arith)
                requires
                    t == p * q,
                    n == t + p - 1,
            ;
            vstd::arithmetic::div_mod::lemma_fundamental_div_mod_converse(n, p, q as int, p - 1);
        }
        assert(q <= t) by (nonlinear_arith)
            requires
                t == p * q + left,
                p >= 1,
                q >= 0,
                left >= 0,
        ;
        if left > 0 && q == u64::MAX {
            assert(p * q + left > u64::MAX) by (nonlinear_arith)
                requires
                    p >= 1,
                    q == u64::MAX,
                    left > 0,
            ;
        }
    }
    let n: u64 = if left > 0 { q + 1 } else { q };
    if n < 1 {
        1
    } else {
        n
    }
}

/// The pages hold every row, and none of them could be left out.
pub proof fn law_pages_hold_every_row(total: int, per_page: int)
    requires
        total > 0,
        per_page > 0,
    ensures
        page_count(total, per_page) * per_page >= total,
        (page_count(total, per_page) - 1) * per_page < total,
{
    let n = (total + per_page - 1) / per_page;
    vstd::arithmetic::div_mod::lemma_fundamental_div_mod(total + per_page - 1, per_page);
    let r = (total + per_page - 1) % per_page;
    assert(n >= 1) by (nonlinear_arith)
        requires
            total + per_page - 1 == per_page * n + r,
            0 <= r < per_page,
            total >= 1,
    ;
    assert(n * per_page >= total && (n - 1) * per_page < total) by (nonlinear_arith)
        requires
            total + per_page - 1 == per_page * n + r,
            0 <= r < per_page,
    ;
}

/// What is said of one address that guessed the PIN wrong `n` times of `limit`.
pub open spec fn attempt_text(ip: Seq<char>, n: int, limit: int) -> Seq<char> {
    if n >= limit {
        ip + " — locked out after "@ + dec_int(n) + " wrong PINs"@
    } else {
        ip + " — "@ + dec_int(n) + " wrong of "@ + dec_int(limit)
    }
}

/// The wrong guesses of the PIN, a line for each address.
pub open spec fn attempts_text(attempts: Seq<(String, u32)>, limit: int) -> Seq<char> {
    join(Seq::new(attempts.len(), |i: int| attempt_text(attempts[i].0@, attempts[i].1 as int, limit)), "\n"@)
}

/// See [`attempts_text`].
pub fn attempts_line(attempts: &Vec<(String, u32)>, limit: u32) -> (r: String)
    ensures
        r@ == attempts_text(attempts@, limit as int),
        attempts@.len() == 0 ==> r@.len() == 0,
{
    let ghost all = Seq::new(
        attempts@.len(),
        |i: int| attempt_text(attempts@[i].0@, attempts@[i].1 as int, limit as int),
    );
    let mut parts: Vec<String> = Vec::new();
    let mut i: usize = 0;
    while i < attempts.len()
        invariant
            i <= attempts@.len(),
            parts@.len() == i,
            forall|j: int| 0 <= j < i ==> (#[trigger] parts@[j])@ == attempt_text(attempts@[j].0@, attempts@[j].1 as int, limit as int),
        decreases attempts@.len() - i,
    {
        let mut s = attempts[i].0.clone();
        let n: u32 = attempts[i].1;
        if n >= limit {
            s.append(" — locked out after ");
            push_dec_int(&mut s, n as i64);
            s.append(" wrong PINs");
        } else {
            s.append(" — ");
            push_dec_int(&mut s, n as i64);
            s.append(" wrong of ");
            push_dec_int(&mut s, limit as i64);
        }
        parts.push(s);
        i = i + 1;
    }
    assert(views(parts@) =~= all);
    join_strings(&parts, "\n")
}

/// What kind of machine the desktop is.
#[derive(Clone, Copy, Debug, PartialEq, Eq, Structural)]
pub enum Platform {
    Linux,
    Windows,
    MacOs,
}

/// The name of the link with an address, `wlan0` where no link has it.
pub open spec fn link_name(links: Seq<(String, String)>, ip: Seq<char>) -> Seq<char>
    decreases links.len(),
{
    if links.len() == 0 {
        "wlan0"@
    } else if links[0].1@ == ip {
        links[0].0@
    } else {
        link_name(links.skip(1), ip)
    }
}

/// The one fix worth trying first on a machine, with its own port and link.
pub open spec fn hint_text(platform: Platform, port: nat, link: Seq<char>) -> Seq<char> {
    match platform {
        Platform::Linux => "A default-deny firewall (ufw, firewalld) drops this before it reaches the app, and the desktop cannot tell — the bind succeeded either way.\n\nRun this, for the link you are actually sharing on:\n\nsudo ufw allow in on "@
            + link + " to any port "@ + dec(port) + " proto tcp"@,
        Platform::Windows => "Windows Firewall asks once, on the first bind, and dismissing that dialog silently blocks every later connection — it never asks again.\n\nAllow Tulipix for private networks, or open TCP "@
            + dec(port) + ". See the Windows section below for where that setting lives."@,
        Platform::MacOs => "macOS asks for Local Network permission once, and a denied prompt never returns.\n\nAllow Tulipix at System Settings → Privacy & Security → Local Network, then confirm the firewall is not blocking TCP "@
            + dec(port) + "."@,
    }
}

fn name_of_link<'a>(links: &'a Vec<(String, String)>, ip: &str) -> (r: &'a str)
    ensures
        r@ == link_name(links@, ip@),
{
    let mut i: usize = 0;
    assert(links@.skip(0) =~= links@);
    while i < links.len()
        invariant
            i <= links@.len(),
            link_name(links@, ip@) == link_name(links@.skip(i as int), ip@),
        decreases links@.len() - i,
    {
        assert(links@.skip(i as int).skip(1) =~= links@.skip(i + 1));
        if same(links[i].1.as_str(), ip) {
            return links[i].0.as_str();
        }
        i = i + 1;
    }
    "wlan0"
}

/// The one fix worth trying first, for this machine; nothing while nothing is
/// shared.
pub fn firewall_hint(
    running: bool,
    platform: Platform,
    port: u16,
    links: &Vec<(String, String)>,
    ip: &str,
) -> (r: String)
    ensures
        r@ == (if running { hint_text(platform, port as nat, link_name(links@, ip@)) } else { Seq::empty() }),
{
    if !running {
        let s = String::new();
        assert(s@ =~= Seq::<char>::empty());
        return s;
    }
    match platform {
        Platform::Linux => {
            let mut s = "A default-deny firewall (ufw, firewalld) drops this before it reaches the app, and the desktop cannot tell — the bind succeeded either way.\n\nRun this, for the link you are actually sharing on:\n\nsudo ufw allow in on ".to_owned();
            s.append(name_of_link(links, ip));
            s.append(" to any port ");
            push_dec(&mut s, port as u64);
            s.append(" proto tcp");
            s
        },
        Platform::Windows => {
            let mut s = "Windows Firewall asks once, on the first bind, and dismissing that dialog silently blocks every later connection — it never asks again.\n\nAllow Tulipix for private networks, or open TCP ".to_owned();
            push_dec(&mut s, port as u64);
            s.append(". See the Windows section below for where that setting lives.");
            s
        },
        Platform::MacOs => {
            let mut s = "macOS asks for Local Network permission once, and a denied prompt never returns.\n\nAllow Tulipix at System Settings → Privacy & Security → Local Network, then confirm the firewall is not blocking TCP ".to_owned();
            push_dec(&mut s, port as u64);
            s.append(".");
            s
        },
    }
}

/// The line about the server: an error goes before everything, then whether it
/// serves, then whether it can receive.
pub open spec fn status_text(
    error: Seq<char>,
    running: bool,
    inbox_ok: bool,
    inbox: Seq<char>,
    url: Seq<char>,
    platform: Platform,
) -> Seq<char> {
    if error.len() > 0 {
        error
    } else if !running {
        "Not sharing. Start to open a page on this network."@
    } else if !inbox_ok {
        "Uploads are off: "@ + inbox + " cannot be written to."@
    } else if platform == Platform::Windows {
        "Serving on "@ + url + ". If Windows asked about the firewall, allow it or the phone sees nothing."@
    } else {
        "Serving on "@ + url + ". Open until you stop sharing or close the app."@
    }
}

/// See [`status_text`].
pub fn status_line(error: &str, running: bool, inbox_ok: bool, inbox: &str, url: &str, platform: Platform) -> (r: String)
    ensures
        r@ == status_text(error@, running, inbox_ok, inbox@, url@, platform),
{
    if !error.is_empty() {
        return error.to_owned();
    }
    if !running {
        return "Not sharing. Start to open a page on this network.".to_owned();
    }
    if !inbox_ok {
        let mut s = "Uploads are off: ".to_owned();
        s.append(inbox);
        s.append(" cannot be written to.");
        return s;
    }
    let mut s = "Serving on ".to_owned();
    s.append(url);
    if platform == Platform::Windows {
        s.append(". If Windows asked about the firewall, allow it or the phone sees nothing.");
    } else {
        s.append(". Open until you stop sharing or close the app.");
    }
    s
}

/// One thing is one, any other number of things is many.
pub proof fn law_one_is_one_and_more_are_many(n: nat, word: Seq<char>)
    ensures
        plural_text(1, word) == "1 "@ + word,
        n != 1 ==> plural_text(n, word) == dec(n) + " "@ + word + "s"@,
{
}

/// What a pairing has left: minutes rounded up below an hour, hours and whole minutes below
/// six, hours alone from six on.
pub proof fn law_what_is_left_is_said_in_hours_and_minutes(hours: nat, minutes: nat, seconds: nat)
    requires
        minutes < 60,
        seconds < 60,
        hours + minutes + seconds > 0,
    ensures
        ({
            let t = left_text(hours * 3600 + minutes * 60 + seconds);
            &&& hours == 0 && seconds == 0 ==> t == plural_text(minutes, "min"@)
            &&& hours == 0 && seconds > 0 ==> t == plural_text(minutes + 1, "min"@)
            &&& 0 < hours < 6 && minutes > 0 ==> t == plural_text(hours, "hour"@) + ", "@ + plural_text(minutes, "min"@)
            &&& 0 < hours && minutes == 0 ==> t == plural_text(hours, "hour"@)
            &&& hours >= 6 ==> t == plural_text(hours, "hour"@)
        }),
        left_text(0) == "expired"@,
{
    let s = hours * 3600 + minutes * 60 + seconds;
    assert(s / 3600 == hours);
    assert((s % 3600) / 60 == minutes);
}

/// A moment is said by how long ago it was: at once, in minutes, in hours, and by its date
/// from a day on and where it is still to come.
pub proof fn law_a_moment_is_said_by_its_distance(now: int, ago: int, date: Seq<char>)
    ensures
        ago < 0 || ago >= 86_400 ==> when_text(now - ago, now, date) == date,
        0 <= ago < 60 ==> when_text(now - ago, now, date) == "just now"@,
        60 <= ago < 3600 ==> when_text(now - ago, now, date) == dec_int(ago / 60) + " min ago"@,
        3600 <= ago < 86_400 ==> when_text(now - ago, now, date) == dec_int(ago / 3600) + " h ago"@,
{
}

/// An address is locked out exactly once it has used up its guesses; before that it is said
/// how many it has used.
pub proof fn law_an_address_is_locked_out_at_its_limit(ip: Seq<char>, n: int, limit: int)
    ensures
        n >= limit ==> attempt_text(ip, n, limit) == ip + " — locked out after "@ + dec_int(n) + " wrong PINs"@,
        n < limit ==> attempt_text(ip, n, limit) == ip + " — "@ + dec_int(n) + " wrong of "@ + dec_int(limit),
{
}

/// The line about the server says what is wrong first, then that nothing is shared, then
/// that nothing can be received, and only then where it serves.
pub proof fn law_the_worst_is_said_first(
    error: Seq<char>,
    running: bool,
    inbox_ok: bool,
    inbox: Seq<char>,
    url: Seq<char>,
    platform: Platform,
)
    ensures
        ({
            let t = status_text(error, running, inbox_ok, inbox, url, platform);
            &&& error.len() > 0 ==> t == error
            &&& error.len() == 0 && !running ==> t == "Not sharing. Start to open a page on this network."@
            &&& error.len() == 0 && running && !inbox_ok ==> t == "Uploads are off: "@ + inbox + " cannot be written to."@
            &&& error.len() == 0 && running && inbox_ok && platform != Platform::Windows ==> t == "Serving on "@ + url
                + ". Open until you stop sharing or close the app."@
            &&& error.len() == 0 && running && inbox_ok && platform == Platform::Windows ==> t == "Serving on "@ + url
                + ". If Windows asked about the firewall, allow it or the phone sees nothing."@
        }),
{
}

/// A file has its extension in capitals for a badge where that fits, and is described by its
/// family, else by its extension.
pub proof fn law_a_file_is_told_by_its_extension(stem: Seq<char>, ext: Seq<char>)
    requires
        stem.len() > 0,
        !ext.contains('.'),
    ensures
        ({
            let name = Some(stem + seq!['.'] + ext);
            &&& encode_utf8(uppercase(ext)).len() <= 4 ==> badge(name) == uppercase(ext)
            &&& encode_utf8(uppercase(ext)).len() > 4 ==> badge(name) == "FILE"@
            &&& family(fold(ext)) matches Some(f) ==> described(name) == f
            &&& family(fold(ext)) is None && ext.len() > 0 ==> described(name) == uppercase(fold(ext)) + " file"@
        }),
        badge(None) == "FILE"@,
        described(None) == "File"@ || family(Seq::empty()) is Some,
{
    reveal_strlit(".");
    assert("."@ =~= seq!['.']);
    let none = Seq::<char>::empty();
    assert forall|i: int| 0 <= i < ext.len() implies #[trigger] ext[i] != '.' by {}
    crate::tools::paths::law_result_extension(stem, none, ext);
    assert(crate::tools::paths::result_name(stem, none, ext) =~= stem + seq!['.'] + ext);
    assert(fold(ext).len() == ext.len());
}
/// The link is the first that has the address.
pub proof fn law_a_link_is_named_by_its_address(links: Seq<(String, String)>, ip: Seq<char>)
    ensures
        (exists|i: int|
            0 <= i < links.len() && (#[trigger] links[i]).1@ == ip && link_name(links, ip) == links[i].0@ && forall|j: int|
                0 <= j < i ==> !((#[trigger] links[j]).1@ == ip)) || ((forall|i: int| 0 <= i < links.len() ==> !((#[trigger] links[i]).1@ == ip)) && link_name(links, ip) == "wlan0"@),
    decreases links.len(),
{
    if links.len() > 0 {
        if links[0].1@ == ip {
            assert(links[0].1@ == ip && link_name(links, ip) == links[0].0@);
        } else {
            let rest = links.skip(1);
            law_a_link_is_named_by_its_address(rest, ip);
            assert forall|i: int| 0 <= i < rest.len() implies (#[trigger] rest[i]) == links[i + 1] by {}
            if exists|i: int|
            0 <= i < rest.len() && (#[trigger] rest[i]).1@ == ip && link_name(rest, ip) == rest[i].0@ && forall|j: int|
                0 <= j < i ==> !((#[trigger] rest[j]).1@ == ip) {
                let i = choose|i: int|
                    0 <= i < rest.len() && (#[trigger] rest[i]).1@ == ip && link_name(rest, ip) == rest[i].0@ && forall|j: int|
                        0 <= j < i ==> !((#[trigger] rest[j]).1@ == ip);
                assert(links[i + 1].1@ == ip && link_name(links, ip) == links[i + 1].0@);
                assert forall|j: int| 0 <= j < i + 1 implies !((#[trigger] links[j]).1@ == ip) by {
                    if j > 0 {
                        assert(!(rest[j - 1].1@ == ip));
                    }
                }
            } else {
                assert forall|i: int| 0 <= i < links.len() implies !((#[trigger] links[i]).1@ == ip) by {
                    if i > 0 {
                        assert(!(rest[i - 1].1@ == ip));
                    }
                }
            }
        }
    }
}

/// Which extensions make which family, and that no other extension makes one.
pub proof fn law_families_hold_their_extensions(ext: Seq<char>)
    ensures
        ext == "jpg"@ || ext == "jpeg"@ || ext == "png"@ || ext == "gif"@ || ext == "webp"@ || ext == "heic"@ || ext == "avif"@ || ext == "bmp"@ || ext == "tiff"@ ==> family(ext) == Some("Image"@),
        ext == "mp4"@ || ext == "mkv"@ || ext == "mov"@ || ext == "avi"@ || ext == "webm"@ || ext == "m4v"@ || ext == "wmv"@ ==> family(ext) == Some("Video"@),
        ext == "mp3"@ || ext == "flac"@ || ext == "wav"@ || ext == "m4a"@ || ext == "ogg"@ || ext == "opus"@ || ext == "aac"@ ==> family(ext) == Some("Audio"@),
        ext == "pdf"@ ==> family(ext) == Some("PDF Document"@),
        ext == "epub"@ || ext == "mobi"@ || ext == "azw3"@ || ext == "cbz"@ || ext == "cbr"@ ==> family(ext) == Some("Book"@),
        ext == "zip"@ || ext == "rar"@ || ext == "7z"@ || ext == "tar"@ || ext == "gz"@ || ext == "xz"@ || ext == "zst"@ ==> family(ext) == Some("Archive"@),
        ext == "doc"@ || ext == "docx"@ || ext == "odt"@ || ext == "rtf"@ || ext == "txt"@ || ext == "md"@ ==> family(ext) == Some("Document"@),
        ext == "xls"@ || ext == "xlsx"@ || ext == "ods"@ || ext == "csv"@ ==> family(ext) == Some("Spreadsheet"@),
        ext == "ppt"@ || ext == "pptx"@ || ext == "odp"@ ==> family(ext) == Some("Presentation"@),
        ext == "apk"@ || ext == "exe"@ || ext == "msi"@ || ext == "dmg"@ || ext == "appimage"@ || ext == "deb"@ || ext == "rpm"@ ==> family(ext) == Some("Application"@),
        family(ext) is Some ==> ext == "jpg"@ || ext == "jpeg"@ || ext == "png"@ || ext == "gif"@ || ext == "webp"@ || ext == "heic"@ || ext == "avif"@ || ext == "bmp"@ || ext == "tiff"@ || ext == "mp4"@ || ext == "mkv"@ || ext == "mov"@ || ext == "avi"@ || ext == "webm"@ || ext == "m4v"@ || ext == "wmv"@ || ext == "mp3"@ || ext == "flac"@ || ext == "wav"@ || ext == "m4a"@ || ext == "ogg"@ || ext == "opus"@ || ext == "aac"@ || ext == "pdf"@ || ext == "epub"@ || ext == "mobi"@ || ext == "azw3"@ || ext == "cbz"@ || ext == "cbr"@ || ext == "zip"@ || ext == "rar"@ || ext == "7z"@ || ext == "tar"@ || ext == "gz"@ || ext == "xz"@ || ext == "zst"@ || ext == "doc"@ || ext == "docx"@ || ext == "odt"@ || ext == "rtf"@ || ext == "txt"@ || ext == "md"@ || ext == "xls"@ || ext == "xlsx"@ || ext == "ods"@ || ext == "csv"@ || ext == "ppt"@ || ext == "pptx"@ || ext == "odp"@ || ext == "apk"@ || ext == "exe"@ || ext == "msi"@ || ext == "dmg"@ || ext == "appimage"@ || ext == "deb"@ || ext == "rpm"@,
{
    reveal_strlit("jpg");
    reveal_strlit("jpeg");
    reveal_strlit("png");
    reveal_strlit("gif");
    reveal_strlit("webp");
    reveal_strlit("heic");
    reveal_strlit("avif");
    reveal_strlit("bmp");
    reveal_strlit("tiff");
    reveal_strlit("mp4");
    reveal_strlit("mkv");
    reveal_strlit("mov");
    reveal_strlit("avi");
    reveal_strlit("webm");
    reveal_strlit("m4v");
    reveal_strlit("wmv");
    reveal_strlit("mp3");
    reveal_strlit("flac");
    reveal_strlit("wav");
    reveal_strlit("m4a");
    reveal_strlit("ogg");
    reveal_strlit("opus");
    reveal_strlit("aac");
    reveal_strlit("pdf");
    reveal_strlit("epub");
    reveal_strlit("mobi");
    reveal_strlit("azw3");
    reveal_strlit("cbz");
    reveal_strlit("cbr");
    reveal_strlit("zip");
    reveal_strlit("rar");
    reveal_strlit("7z");
    reveal_strlit("tar");
    reveal_strlit("gz");
    reveal_strlit("xz");
    reveal_strlit("zst");
    reveal_strlit("doc");
    reveal_strlit("docx");
    reveal_strlit("odt");
    reveal_strlit("rtf");
    reveal_strlit("txt");
    reveal_strlit("md");
    reveal_strlit("xls");
    reveal_strlit("xlsx");
    reveal_strlit("ods");
    reveal_strlit("csv");
    reveal_strlit("ppt");
    reveal_strlit("pptx");
    reveal_strlit("odp");
    reveal_strlit("apk");
    reveal_strlit("exe");
    reveal_strlit("msi");
    reveal_strlit("dmg");
    reveal_strlit("appimage");
    reveal_strlit("deb");
    reveal_strlit("rpm");
    assert("jpg"@.len() == 3 && "jpeg"@.len() == 4 && "png"@.len() == 3 && "gif"@.len() == 3 && "webp"@.len() == 4 && "heic"@.len() == 4 && "avif"@.len() == 4 && "bmp"@.len() == 3 && "tiff"@.len() == 4 && "mp4"@.len() == 3 && "mkv"@.len() == 3 && "mov"@.len() == 3 && "avi"@.len() == 3 && "webm"@.len() == 4 && "m4v"@.len() == 3 && "wmv"@.len() == 3 && "mp3"@.len() == 3 && "flac"@.len() == 4 && "wav"@.len() == 3 && "m4a"@.len() == 3 && "ogg"@.len() == 3 && "opus"@.len() == 4 && "aac"@.len() == 3 && "pdf"@.len() == 3 && "epub"@.len() == 4 && "mobi"@.len() == 4 && "azw3"@.len() == 4 && "cbz"@.len() == 3 && "cbr"@.len() == 3 && "zip"@.len() == 3 && "rar"@.len() == 3 && "7z"@.len() == 2 && "tar"@.len() == 3 && "gz"@.len() == 2 && "xz"@.len() == 2 && "zst"@.len() == 3 && "doc"@.len() == 3 && "docx"@.len() == 4 && "odt"@.len() == 3 && "rtf"@.len() == 3 && "txt"@.len() == 3 && "md"@.len() == 2 && "xls"@.len() == 3 && "xlsx"@.len() == 4 && "ods"@.len() == 3 && "csv"@.len() == 3 && "ppt"@.len() == 3 && "pptx"@.len() == 4 && "odp"@.len() == 3 && "apk"@.len() == 3 && "exe"@.len() == 3 && "msi"@.len() == 3 && "dmg"@.len() == 3 && "appimage"@.len() == 8 && "deb"@.len() == 3 && "rpm"@.len() == 3);
    assert("jpg"@[0] == 'j' && "png"@[0] == 'p' && "gif"@[0] == 'g' && "bmp"@[0] == 'b' && "mp4"@[0] == 'm' && "mkv"@[0] == 'm' && "mov"@[0] == 'm' && "avi"@[0] == 'a' && "m4v"@[0] == 'm' && "wmv"@[0] == 'w' && "mp3"@[0] == 'm' && "wav"@[0] == 'w' && "m4a"@[0] == 'm' && "ogg"@[0] == 'o' && "aac"@[0] == 'a' && "pdf"@[0] == 'p' && "cbz"@[0] == 'c' && "cbr"@[0] == 'c' && "zip"@[0] == 'z' && "rar"@[0] == 'r' && "tar"@[0] == 't' && "zst"@[0] == 'z' && "doc"@[0] == 'd' && "odt"@[0] == 'o' && "rtf"@[0] == 'r' && "txt"@[0] == 't' && "xls"@[0] == 'x' && "ods"@[0] == 'o' && "csv"@[0] == 'c' && "ppt"@[0] == 'p' && "odp"@[0] == 'o' && "apk"@[0] == 'a' && "exe"@[0] == 'e' && "msi"@[0] == 'm' && "dmg"@[0] == 'd' && "deb"@[0] == 'd' && "rpm"@[0] == 'r' && "png"@[1] == 'n' && "pdf"@[1] == 'd' && "ppt"@[1] == 'p' && "mp4"@[1] == 'p' && "mkv"@[1] == 'k' && "mov"@[1] == 'o' && "m4v"@[1] == '4' && "mp4"@[2] == '4' && "mp3"@[2] == '3' && "m4a"@[1] == '4' && "msi"@[1] == 's' && "mp3"@[1] == 'p' && "avi"@[1] == 'v' && "aac"@[1] == 'a' && "apk"@[1] == 'p' && "m4v"@[2] == 'v' && "m4a"@[2] == 'a' && "wmv"@[1] == 'm' && "wav"@[1] == 'a' && "ogg"@[1] == 'g' && "odt"@[1] == 'd' && "ods"@[1] == 'd' && "odp"@[1] == 'd' && "cbz"@[2] == 'z' && "cbr"@[2] == 'r' && "cbz"@[1] == 'b' && "csv"@[1] == 's' && "cbr"@[1] == 'b' && "zip"@[1] == 'i' && "zst"@[1] == 's' && "rar"@[1] == 'a' && "rtf"@[1] == 't' && "rpm"@[1] == 'p' && "tar"@[1] == 'a' && "txt"@[1] == 'x' && "doc"@[1] == 'o' && "dmg"@[1] == 'm' && "deb"@[1] == 'e' && "odt"@[2] == 't' && "ods"@[2] == 's' && "odp"@[2] == 'p' && "jpeg"@[0] == 'j' && "webp"@[0] == 'w' && "heic"@[0] == 'h' && "avif"@[0] == 'a' && "tiff"@[0] == 't' && "webm"@[0] == 'w' && "flac"@[0] == 'f' && "opus"@[0] == 'o' && "epub"@[0] == 'e' && "mobi"@[0] == 'm' && "azw3"@[0] == 'a' && "docx"@[0] == 'd' && "xlsx"@[0] == 'x' && "pptx"@[0] == 'p' && "webp"@[3] == 'p' && "webm"@[3] == 'm' && "avif"@[1] == 'v' && "azw3"@[1] == 'z' && "7z"@[0] == '7' && "gz"@[0] == 'g' && "xz"@[0] == 'x' && "md"@[0] == 'm');
}

/// Each address that guessed wrong has its line, in order.
pub proof fn law_each_address_has_its_line(attempts: Seq<(String, u32)>, last: (String, u32), limit: int)
    requires
        attempts.len() > 0,
    ensures
        attempts_text(attempts.push(last), limit) == attempts_text(attempts, limit) + "\n"@ + attempt_text(last.0@, last.1 as int, limit),
{
    let f = |v: Seq<(String, u32)>| Seq::new(v.len(), |i: int| attempt_text(v[i].0@, v[i].1 as int, limit));
    let all = f(attempts.push(last));
    assert(all.drop_last() =~= f(attempts));
    assert(all.last() == attempt_text(last.0@, last.1 as int, limit));
}

/// The hint for a machine names its own port, and on Linux the link that is shared on.
pub proof fn law_a_hint_names_the_port(port: nat, link: Seq<char>)
    ensures
        hint_text(Platform::Linux, port, link).skip(hint_text(Platform::Linux, port, link).len() - (link + " to any port "@ + dec(port) + " proto tcp"@).len()) == link
            + " to any port "@ + dec(port) + " proto tcp"@,
        hint_text(Platform::MacOs, port, link).skip(hint_text(Platform::MacOs, port, link).len() - (dec(port) + "."@).len()) == dec(port) + "."@,
{
    let t = hint_text(Platform::Linux, port, link);
    let e = link + " to any port "@ + dec(port) + " proto tcp"@;
    assert(t.skip(t.len() - e.len()) =~= e);
    let u = hint_text(Platform::MacOs, port, link);
    let g = dec(port) + "."@;
    assert(u.skip(u.len() - g.len()) =~= g);
}

} // verus!
