//! Downloading a stream: what the file is called, how far it is, and what is said
//! of it.

use vstd::prelude::*;
use crate::double::{hundred, of_nat, product, quotient, Double};
use crate::outside::{alphanumeric, is_alphanumeric};
use crate::text::{
    chars_of, dec_int, dec_two, is_space, join, join_strings, push_dec_int, push_dec_two, same, split_words, trim, trimmed,
    views, words,
};
use crate::tools::media::over;

verus! {

/// Whether a character may stand in a file name as it is: a letter, a digit, a hyphen
/// or a point.
pub open spec fn fits_name(c: char) -> bool {
    if (c as u32) < 128 {
        '0' <= c <= '9' || 'A' <= c <= 'Z' || 'a' <= c <= 'z' || c == '-' || c == '.'
    } else {
        alphanumeric(c)
    }
}

/// A text with a blank in place of every character that may not stand in a file
/// name.
pub open spec fn blanked(raw: Seq<char>) -> Seq<char> {
    Seq::new(raw.len(), |i: int| if fits_name(raw[i]) { raw[i] } else { ' ' })
}

/// Whether a word stands for a folder in a path: one point or two.
pub open spec fn names_folder(w: Seq<char>) -> bool {
    w == seq!['.'] || w == seq!['.', '.']
}

/// The words that do not stand for a folder.
pub open spec fn telling_words(w: Seq<Seq<char>>) -> Seq<Seq<char>>
    decreases w.len(),
{
    if w.len() == 0 {
        Seq::empty()
    } else {
        let rest = telling_words(w.drop_last());
        if names_folder(w.last()) { rest } else { rest.push(w.last()) }
    }
}

/// A title as a file name: its words with underscores between them.
pub open spec fn safe_name(raw: Seq<char>) -> Seq<char> {
    let joined = join(telling_words(words(blanked(raw))), "_"@);
    if joined.len() == 0 { "stream"@ } else { joined }
}

fn is_folder_name(w: &str) -> (r: bool)
    ensures
        r == names_folder(w@),
{
    proof {
        reveal_strlit(".");
        reveal_strlit("..");
        assert("."@ =~= seq!['.']);
        assert(".."@ =~= seq!['.', '.']);
    }
    same(w, ".") || same(w, "..")
}

/// See [`safe_name`].
pub fn safe_filename(raw: &str) -> (r: String)
    ensures
        r@ == safe_name(raw@),
{
    let v = chars_of(raw);
    let mut clean = String::new();
    let mut i: usize = 0;
    assert(clean@ =~= Seq::<char>::empty());
    while i < v.len()
        invariant
            i <= v@.len(),
            v@ == raw@,
            clean@.len() == i,
            forall|j: int| 0 <= j < i ==> #[trigger] clean@[j] == (if fits_name(raw@[j]) { raw@[j] } else { ' ' }),
        decreases v@.len() - i,
    {
        let c = v[i];
        if is_alphanumeric(c) || c == '-' || c == '.' {
            clean.push(c);
        } else {
            clean.push(' ');
        }
        i = i + 1;
    }
    assert(clean@ =~= blanked(raw@));
    let parts = split_words(clean.as_str());
    let ghost all = views(parts@);
    let mut kept: Vec<String> = Vec::new();
    let mut k: usize = 0;
    assert(all.take(0) =~= Seq::<Seq<char>>::empty());
    assert(views(kept@) =~= Seq::<Seq<char>>::empty());
    while k < parts.len()
        invariant
            k <= parts@.len(),
            all == views(parts@),
            views(kept@) == telling_words(all.take(k as int)),
        decreases parts@.len() - k,
    {
        assert(all.take(k + 1).drop_last() =~= all.take(k as int));
        assert(all.take(k + 1).last() == parts@[k as int]@);
        if !is_folder_name(parts[k].as_str()) {
            let ghost was = views(kept@);
            kept.push(parts[k].clone());
            assert(views(kept@) =~= was.push(parts@[k as int]@));
        }
        k = k + 1;
    }
    assert(all.take(k as int) =~= all);
    let joined = join_strings(&kept, "_");
    if joined.as_str().is_empty() {
        "stream".to_owned()
    } else {
        joined
    }
}

/// What a download is called: the title, the episode where there is one, and the
/// rung where it is known.
pub open spec fn download_text(title: Seq<char>, season: int, episode: int, resolution: int) -> Seq<char> {
    safe_name(title) + (if season > 0 || episode > 0 {
        "_S"@ + dec_two(season) + "E"@ + dec_two(episode)
    } else {
        Seq::empty()
    }) + (if resolution > 0 { "_"@ + dec_int(resolution) + "p"@ } else { Seq::empty() }) + ".mp4"@
}

/// See [`download_text`].
pub fn download_name(title: &str, season: i64, episode: i64, resolution: i64) -> (r: String)
    ensures
        r@ == download_text(title@, season as int, episode as int, resolution as int),
{
    let mut name = safe_filename(title);
    if season > 0 || episode > 0 {
        name.append("_S");
        push_dec_two(&mut name, season);
        name.append("E");
        push_dec_two(&mut name, episode);
    }
    if resolution > 0 {
        name.append("_");
        push_dec_int(&mut name, resolution);
        name.append("p");
    }
    name.append(".mp4");
    assert(name@ =~= download_text(title@, season as int, episode as int, resolution as int));
    name
}

/// A word of a file name: something, and nothing in it but what may stand there.
pub open spec fn plain_word(w: Seq<char>) -> bool {
    w.len() > 0 && forall|i: int| 0 <= i < w.len() ==> fits_name(#[trigger] w[i]) && !is_space(w[i])
}

proof fn lemma_words_fit(s: Seq<char>)
    requires
        forall|i: int| 0 <= i < s.len() ==> is_space(#[trigger] s[i]) || fits_name(s[i]),
    ensures
        forall|k: int| 0 <= k < words(s).len() ==> plain_word(#[trigger] words(s)[k]),
        s.len() > 0 && !is_space(s.last()) ==> words(s).len() > 0,
    decreases s.len(),
{
    if s.len() > 0 {
        let t = s.drop_last();
        assert forall|i: int| 0 <= i < t.len() implies is_space(#[trigger] t[i]) || fits_name(t[i]) by {
            assert(t[i] == s[i]);
        }
        lemma_words_fit(t);
        let w = words(t);
        let c = s.last();
        if !is_space(c) {
            assert(fits_name(c));
            if s.len() == 1 || is_space(s[s.len() - 2]) {
                assert(words(s) == w.push(seq![c]));
                assert(plain_word(seq![c]));
            } else {
                assert(t.last() == s[s.len() - 2]);
                assert(words(s) == w.drop_last().push(w.last().push(c)));
                let longer = w.last().push(c);
                assert(plain_word(w[w.len() - 1]));
                assert(plain_word(longer)) by {
                    assert forall|i: int| 0 <= i < longer.len() implies fits_name(#[trigger] longer[i]) && !is_space(
                        longer[i],
                    ) by {
                        if i < w.last().len() {
                            assert(longer[i] == w.last()[i]);
                        }
                    }
                }
                assert forall|k: int| 0 <= k < words(s).len() implies plain_word(#[trigger] words(s)[k]) by {
                    if k < w.len() - 1 {
                        assert(words(s)[k] == w[k]);
                    }
                }
            }
        }
    }
}

proof fn lemma_telling_words(w: Seq<Seq<char>>)
    requires
        forall|k: int| 0 <= k < w.len() ==> plain_word(#[trigger] w[k]),
    ensures
        forall|k: int| 0 <= k < telling_words(w).len() ==> plain_word(#[trigger] telling_words(w)[k]),
        forall|k: int| 0 <= k < telling_words(w).len() ==> !names_folder(#[trigger] telling_words(w)[k]),
    decreases w.len(),
{
    if w.len() > 0 {
        let f = w.drop_last();
        assert forall|k: int| 0 <= k < f.len() implies plain_word(#[trigger] f[k]) by {
            assert(f[k] == w[k]);
        }
        lemma_telling_words(f);
        assert(plain_word(w[w.len() - 1]));
        let (rest, now) = (telling_words(f), telling_words(w));
        assert forall|k: int| 0 <= k < now.len() implies plain_word(#[trigger] now[k]) && !names_folder(now[k]) by {
            if k < rest.len() {
                assert(now[k] == rest[k]);
            }
        }
    }
}

/// Where no word stands for a folder, all of them stay.
proof fn lemma_all_telling(w: Seq<Seq<char>>)
    requires
        forall|k: int| 0 <= k < w.len() ==> !names_folder(#[trigger] w[k]),
    ensures
        telling_words(w) == w,
    decreases w.len(),
{
    if w.len() > 0 {
        assert forall|k: int| 0 <= k < w.drop_last().len() implies !names_folder(#[trigger] w.drop_last()[k]) by {
            assert(w.drop_last()[k] == w[k]);
        }
        lemma_all_telling(w.drop_last());
        assert(!names_folder(w[w.len() - 1]));
        assert(w.drop_last().push(w.last()) =~= w);
    } else {
        assert(w =~= Seq::<Seq<char>>::empty());
    }
}

/// A word behind white space, or in front of everything, is one word more.
proof fn lemma_word_behind(a: Seq<char>, w: Seq<char>)
    requires
        a.len() == 0 || is_space(a.last()),
        plain_word(w),
    ensures
        words(a + w) == words(a).push(w),
    decreases w.len(),
{
    let s = a + w;
    let c = w.last();
    assert(!is_space(w[w.len() - 1]));
    if w.len() == 1 {
        assert(s.drop_last() =~= a);
        assert(w =~= seq![c]);
        if s.len() > 1 {
            assert(s[s.len() - 2] == a.last());
        }
    } else {
        let front = w.drop_last();
        assert(plain_word(front)) by {
            assert forall|i: int| 0 <= i < front.len() implies fits_name(#[trigger] front[i]) && !is_space(front[i]) by {
                assert(front[i] == w[i]);
            }
        }
        lemma_word_behind(a, front);
        assert(s.drop_last() =~= a + front);
        assert(s[s.len() - 2] == w[w.len() - 2]);
        assert(front.push(c) =~= w);
        assert(words(a).push(front).drop_last() =~= words(a));
    }
}

/// Words with underscores between them.
spec fn is_joined(n: Seq<char>) -> bool {
    &&& n.len() > 0
    &&& fits_name(n[0])
    &&& fits_name(n.last())
    &&& forall|i: int| 0 <= i < n.len() ==> (fits_name(#[trigger] n[i]) && !is_space(n[i])) || n[i] == '_'
    &&& forall|i: int| 0 <= i < n.len() - 1 ==> !(#[trigger] n[i] == '_' && n[i + 1] == '_')
}

proof fn lemma_join_words(parts: Seq<Seq<char>>)
    requires
        parts.len() > 0,
        forall|k: int| 0 <= k < parts.len() ==> plain_word(#[trigger] parts[k]),
    ensures
        words(blanked(join(parts, "_"@))) == parts,
        is_joined(join(parts, "_"@)),
    decreases parts.len(),
{
    reveal_strlit("_");
    let n = join(parts, "_"@);
    let w = parts.last();
    assert(plain_word(parts[parts.len() - 1]));
    assert(blanked(w) =~= w) by {
        assert forall|i: int| 0 <= i < w.len() implies blanked(w)[i] == w[i] by {
            assert(fits_name(w[i]));
        }
    }
    if parts.len() == 1 {
        lemma_word_behind(Seq::empty(), w);
        assert(Seq::<char>::empty() + w =~= w);
        assert(words(Seq::<char>::empty()).push(w) =~= parts);
        assert(fits_name(w[0]) && fits_name(w[w.len() - 1]));
    } else {
        let f = parts.drop_last();
        assert forall|k: int| 0 <= k < f.len() implies plain_word(#[trigger] f[k]) by {
            assert(f[k] == parts[k]);
        }
        lemma_join_words(f);
        let a = join(f, "_"@);
        assert(n == a + "_"@ + w);
        let gap = blanked(a).push(' ');
        assert(blanked(n) =~= gap + w) by {
            assert forall|i: int| 0 <= i < n.len() implies blanked(n)[i] == (gap + w)[i] by {
                if i < a.len() {
                    assert(n[i] == a[i]);
                } else if i == a.len() {
                    assert(n[i] == '_');
                } else {
                    assert(n[i] == w[i - a.len() - 1]);
                    assert(fits_name(w[i - a.len() - 1]));
                }
            }
        }
        assert(is_space(' '));
        assert(gap.drop_last() =~= blanked(a));
        assert(words(gap) == f);
        lemma_word_behind(gap, w);
        assert(f.push(w) =~= parts);
        assert(n[0] == a[0]);
        assert(n[n.len() - 1] == w[w.len() - 1]);
        assert(fits_name(w[0]) && fits_name(w[w.len() - 1]));
        assert forall|i: int| 0 <= i < n.len() implies (fits_name(#[trigger] n[i]) && !is_space(n[i])) || n[i] == '_' by {
            if i < a.len() {
                assert(n[i] == a[i]);
            } else if i > a.len() {
                assert(n[i] == w[i - a.len() - 1]);
            }
        }
        assert forall|i: int| 0 <= i < n.len() - 1 implies !(#[trigger] n[i] == '_' && n[i + 1] == '_') by {
            if i + 1 < a.len() {
                assert(n[i] == a[i] && n[i + 1] == a[i + 1]);
            } else if i + 1 == a.len() {
                assert(n[i] == a[a.len() - 1]);
            } else if i == a.len() {
                assert(n[i + 1] == w[0]);
            } else {
                assert(n[i] == w[i - a.len() - 1]);
            }
        }
    }
}

/// The words that a name is made of; where the title leaves none, the one that stands
/// for it.
proof fn lemma_name_parts(title: Seq<char>) -> (parts: Seq<Seq<char>>)
    ensures
        parts.len() > 0,
        forall|k: int| 0 <= k < parts.len() ==> plain_word(#[trigger] parts[k]),
        forall|k: int| 0 <= k < parts.len() ==> !names_folder(#[trigger] parts[k]),
        join(parts, "_"@) == safe_name(title),
{
    let b = blanked(title);
    assert forall|k: int| 0 <= k < b.len() implies is_space(#[trigger] b[k]) || fits_name(b[k]) by {
        if !fits_name(title[k]) {
            assert(b[k] == ' ');
            assert(is_space(' '));
        }
    }
    lemma_words_fit(b);
    lemma_telling_words(words(b));
    let told = telling_words(words(b));
    if told.len() == 0 {
        reveal_strlit("stream");
        let one = seq!["stream"@];
        assert(plain_word("stream"@));
        assert("stream"@.len() == 6);
        assert(!names_folder("stream"@));
        one
    } else {
        lemma_join_words(told);
        told
    }
}

/// A title never leaves anything in a file name but letters and digits, points,
/// hyphens and underscores: no separator, no quote and no white space of it survives.
/// Underscores stand inside the name, one at a time.
pub proof fn law_titles_become_safe_names(title: Seq<char>, i: int)
    requires
        0 <= i < safe_name(title).len(),
    ensures
        fits_name(safe_name(title)[i]) || safe_name(title)[i] == '_',
        !is_space(safe_name(title)[i]),
        safe_name(title)[i] == '_' ==> {
            &&& 0 < i < safe_name(title).len() - 1
            &&& safe_name(title)[i - 1] != '_'
            &&& safe_name(title)[i + 1] != '_'
        },
{
    let parts = lemma_name_parts(title);
    lemma_join_words(parts);
    let n = safe_name(title);
    assert(!fits_name('_'));
    assert(n[n.len() - 1] == n.last());
    if 0 < i {
        assert(!(n[i - 1] == '_' && n[i - 1 + 1] == '_'));
    }
}

/// A safe name stays as it is.
pub proof fn law_a_safe_name_stays(title: Seq<char>)
    ensures
        safe_name(safe_name(title)) == safe_name(title),
{
    let parts = lemma_name_parts(title);
    lemma_join_words(parts);
    lemma_all_telling(parts);
}

/// A title without anything that may stand in a file name is called `stream`.
pub proof fn law_a_name_is_never_empty(title: Seq<char>)
    ensures
        safe_name(title).len() > 0,
{
    reveal_strlit("stream");
}

/// How far a download is: megabytes of megabytes and per cent, or megabytes alone
/// where the length is not known.
pub open spec fn progress_text(done: nat, total: nat) -> Seq<char> {
    if total > 0 {
        over(of_nat(done), 20).text(0) + " MB of "@ + over(of_nat(total), 20).text(0) + " MB ("@ + product(
            quotient(of_nat(done), of_nat(total)),
            hundred(),
        ).text(0) + "%)"@
    } else {
        over(of_nat(done), 20).text(0) + " MB"@
    }
}

fn megabytes(n: u64) -> (r: Double)
    ensures
        r == over(of_nat(n as nat), 20),
        r.wf(),
{
    let x = Double::from_u64(n);
    if x.m == 0 {
        x
    } else {
        Double { neg: x.neg, m: x.m, e: x.e - 20 }
    }
}

/// See [`progress_text`].
pub fn progress_label(done: u64, total: u64) -> (r: String)
    ensures
        r@ == progress_text(done as nat, total as nat),
{
    let mut s = String::new();
    assert(s@ =~= Seq::<char>::empty());
    let d = megabytes(done);
    d.push_text(&mut s, 0);
    assert(s@ =~= d.text(0));
    if total == 0 {
        s.append(" MB");
        return s;
    }
    s.append(" MB of ");
    megabytes(total).push_text(&mut s, 0);
    s.append(" MB (");
    let a = Double::from_u64(done);
    let b = Double::from_u64(total);
    let q = a.div(&b);
    q.mul(&Double::hundred()).push_text(&mut s, 0);
    s.append("%)");
    s
}

/// Whether a download may start.
#[derive(Debug, PartialEq, Eq, Clone, Copy, Structural)]
pub enum DownloadStart {
    /// There is no such stream any more.
    Gone,
    /// Another download runs.
    Busy,
    /// It starts, and no earlier cancel counts against it.
    Go,
}

/// What is known of the one download that can run.
#[derive(Debug, PartialEq, Eq, Clone, Copy, Structural)]
pub struct Downloads {
    pub busy: bool,
    pub cancelled: bool,
}

/// How a download ended.
#[derive(Debug)]
pub enum DownloadEnd {
    /// The file is whole; whether it could be given its name.
    Whole { named: bool },
    /// It was cancelled.
    Cancelled,
    /// It failed.
    Failed(String),
}

/// What is said of the end of a download. `dest` is where it was to lie.
pub open spec fn end_text(end: DownloadEnd, dest: Seq<char>) -> Seq<char> {
    match end {
        DownloadEnd::Whole { named } => if named {
            "Saved to "@ + dest
        } else {
            "Downloaded, but could not be renamed."@
        },
        DownloadEnd::Cancelled => "Download cancelled."@,
        DownloadEnd::Failed(e) => "Download failed: "@ + e@,
    }
}

/// What is said of the end of a download, whether its bar is full, and whether the
/// unfinished file is removed.
pub fn download_ended(end: &DownloadEnd, dest: &str) -> (r: (String, bool, bool))
    ensures
        r.0@ == end_text(*end, dest@),
        r.1 == (*end is Whole),
        r.2 == !(*end is Whole),
{
    match end {
        DownloadEnd::Whole { named } => {
            if *named {
                let mut s = "Saved to ".to_owned();
                s.append(dest);
                (s, true, false)
            } else {
                ("Downloaded, but could not be renamed.".to_owned(), true, false)
            }
        },
        DownloadEnd::Cancelled => ("Download cancelled.".to_owned(), false, true),
        DownloadEnd::Failed(e) => {
            let mut s = "Download failed: ".to_owned();
            s.append(e.as_str());
            (s, false, true)
        },
    }
}

impl Downloads {
    /// No download runs.
    pub fn new() -> (r: Downloads)
        ensures
            r == (Downloads { busy: false, cancelled: false }),
    {
        Downloads { busy: false, cancelled: false }
    }

    /// Asks for a download of one of `files` streams. One runs at a time.
    pub fn stream_download(&mut self, index: i32, files: usize) -> (r: DownloadStart)
        ensures
            ({
                let i = if index < 0 { 0 } else { index as int };
                r == (if i >= files {
                    DownloadStart::Gone
                } else if old(self).busy {
                    DownloadStart::Busy
                } else {
                    DownloadStart::Go
                })
            }),
            *final(self) == (if r == DownloadStart::Go {
                Downloads { busy: true, cancelled: false }
            } else {
                *old(self)
            }),
    {
        let i: usize = if index < 0 { 0 } else { index as usize };
        if i >= files {
            return DownloadStart::Gone;
        }
        if self.busy {
            return DownloadStart::Busy;
        }
        self.busy = true;
        self.cancelled = false;
        DownloadStart::Go
    }

    /// Asks the download that runs to stop.
    pub fn stream_download_cancel(&mut self)
        ensures
            *final(self) == (Downloads { busy: old(self).busy, cancelled: true }),
    {
        self.cancelled = true;
    }

    /// The download ended, however it did.
    pub fn finish(&mut self)
        ensures
            *final(self) == (Downloads { busy: false, cancelled: old(self).cancelled }),
    {
        self.busy = false;
    }
}

/// A row about a download that ended goes by itself only where no other has
/// started since.
pub fn hides_itself(d: &Downloads) -> (r: bool)
    ensures
        r == !d.busy,
{
    !d.busy
}

/// The folder that downloads land in: the one that was set, else the user's own where
/// there is one, else the one that the program runs in.
pub fn download_dir(set: Option<String>, own: Option<(String, bool)>) -> (r: String)
    ensures
        r@ == (match set {
            Some(d) if trim(d@).len() > 0 => d@,
            _ => match own {
                Some((d, true)) => d@,
                _ => "."@,
            },
        }),
{
    if let Some(d) = set {
        if !trimmed(d.as_str()).as_str().is_empty() {
            return d;
        }
    }
    if let Some((d, there)) = own {
        if there {
            return d;
        }
    }
    ".".to_owned()
}

/// What is kept of the choice whether downloads land in the library.
pub open spec fn place_name(on: bool) -> Seq<char> {
    if on { "library"@ } else { "downloads"@ }
}

/// See [`place_name`].
pub fn stream_set_to_library(on: bool) -> (r: &'static str)
    ensures
        r@ == place_name(on),
{
    if on {
        "library"
    } else {
        "downloads"
    }
}

/// Downloads land in the library unless the choice was the folder of downloads.
pub open spec fn is_library(kept: Seq<char>) -> bool {
    kept != "downloads"@
}

/// See [`is_library`].
pub fn to_library(kept: &str) -> (r: bool)
    ensures
        r == is_library(kept@),
{
    !same(kept, "downloads")
}

/// What was chosen is what is read back.
pub proof fn law_the_place_of_downloads_reads_back(on: bool)
    ensures
        is_library(place_name(on)) == on,
{
    reveal_strlit("library");
    reveal_strlit("downloads");
    assert("library"@.len() == 7 && "downloads"@.len() == 9);
}

/// A file name keeps the words of its title that do not name a folder, in order.
pub proof fn law_words_that_name_a_folder_go(w: Seq<Seq<char>>)
    ensures
        telling_words(w) == w.filter(|x: Seq<char>| !(x == seq!['.'] || x == seq!['.', '.'])),
    decreases w.len(),
{
    reveal(Seq::filter);
    let p = |x: Seq<char>| !(x == seq!['.'] || x == seq!['.', '.']);
    let wanted = w.filter(|x: Seq<char>| !(x == seq!['.'] || x == seq!['.', '.']));
    if w.len() > 0 {
        let front = w.drop_last();
        law_words_that_name_a_folder_go(front);
        let kept = front.filter(p);
        assert(w.filter(p) == (if p(w.last()) { kept.push(w.last()) } else { kept }));
        assert(front.filter(|x: Seq<char>| !(x == seq!['.'] || x == seq!['.', '.'])) == telling_words(front));
    }
    assert(telling_words(w) =~= wanted);
}


/// A download is called by its title, its episode where there is one, and its rung where that
/// is known.
pub proof fn law_a_download_is_called_by_its_title(title: Seq<char>, season: int, episode: int, resolution: int)
    ensures
        season <= 0 && episode <= 0 && resolution <= 0 ==> download_text(title, season, episode, resolution) == safe_name(title) + ".mp4"@,
        season <= 0 && episode <= 0 && resolution > 0 ==> download_text(title, season, episode, resolution) == safe_name(title) + "_"@ + dec_int(resolution) + "p"@ + ".mp4"@,
        (season > 0 || episode > 0) && resolution <= 0 ==> download_text(title, season, episode, resolution) == safe_name(title) + "_S"@ + dec_two(season) + "E"@ + dec_two(
            episode,
        ) + ".mp4"@,
        (season > 0 || episode > 0) && resolution > 0 ==> download_text(title, season, episode, resolution) == safe_name(title) + "_S"@ + dec_two(season) + "E"@ + dec_two(
            episode,
        ) + "_"@ + dec_int(resolution) + "p"@ + ".mp4"@,
{
    let n = Seq::<char>::empty();
    let s = safe_name(title);
    let e = "_S"@ + dec_two(season) + "E"@ + dec_two(episode);
    let r = "_"@ + dec_int(resolution) + "p"@;
    assert(s + n =~= s);
    assert(s + e =~= s + "_S"@ + dec_two(season) + "E"@ + dec_two(episode));
    assert(s + r =~= s + "_"@ + dec_int(resolution) + "p"@);
    assert(s + e + n =~= s + e);
    assert(s + e + r =~= s + e + "_"@ + dec_int(resolution) + "p"@);
}

/// The end of a download is told as it was: where it lies, that it could not be renamed, that
/// it was cancelled, or why it failed.
pub proof fn law_a_download_ends_as_it_is_told(dest: Seq<char>, e: String)
    ensures
        end_text((DownloadEnd::Whole { named: true }), dest) == "Saved to "@ + dest,
        end_text((DownloadEnd::Whole { named: false }), dest) == "Downloaded, but could not be renamed."@,
        end_text(DownloadEnd::Cancelled, dest) == "Download cancelled."@,
        end_text(DownloadEnd::Failed(e), dest) == "Download failed: "@ + e@,
{
}

/// Progress is told in megabytes and per cent where the length is known, and in megabytes alone
/// where it is not.
pub proof fn law_progress_is_told_in_megabytes(done: nat, total: nat)
    ensures
        progress_text(done, 0) == over(of_nat(done), 20).text(0) + " MB"@,
        total > 0 ==> progress_text(done, total) == over(of_nat(done), 20).text(0) + " MB of "@ + over(of_nat(total), 20).text(0) + " MB ("@ + product(
            quotient(of_nat(done), of_nat(total)),
            hundred(),
        ).text(0) + "%)"@,
{
}

} // verus!
