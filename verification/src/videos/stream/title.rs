//! A title of the catalogue, the files of an episode, and the words for both.

use vstd::prelude::*;
use vstd::utf8::encode_utf8;
use crate::ascii::{fold, same_letters};
use crate::double::Number;
use crate::order::{num_order, nums, order_of_nums, places};
use crate::outside::{sha256, sha256_of};
use crate::sync::hex::{hex, hex_text};
use crate::text::{chars_of, dec, join, join_strings, push_chars, push_dec, same, views};

verus! {

/// A subtitle track: where it is, its language and the extension of its file.
#[derive(Clone, Debug)]
pub struct Caption {
    pub url: String,
    pub lang: String,
    pub ext: String,
}

/// What a subtitle track holds.
#[verifier::ext_equal]
pub struct CaptionView {
    pub url: Seq<char>,
    pub lang: Seq<char>,
    pub ext: Seq<char>,
}

impl View for Caption {
    type V = CaptionView;

    open spec fn view(&self) -> CaptionView {
        CaptionView { url: self.url@, lang: self.lang@, ext: self.ext@ }
    }
}

/// The tracks as they are.
pub open spec fn captions_view(v: Seq<Caption>) -> Seq<CaptionView> {
    Seq::new(v.len(), |i: int| v[i]@)
}

impl Caption {
    /// The same track once more.
    pub fn copy(&self) -> (r: Caption)
        ensures
            r@ == self@,
    {
        Caption { url: self.url.clone(), lang: self.lang.clone(), ext: self.ext.clone() }
    }
}

/// The same tracks once more.
pub fn copy_captions(v: &Vec<Caption>) -> (r: Vec<Caption>)
    ensures
        captions_view(r@) == captions_view(v@),
{
    let mut out: Vec<Caption> = Vec::new();
    let mut i: usize = 0;
    while i < v.len()
        invariant
            i <= v@.len(),
            out@.len() == i,
            forall|j: int| 0 <= j < i ==> (#[trigger] out@[j])@ == v@[j]@,
        decreases v@.len() - i,
    {
        out.push(v[i].copy());
        i = i + 1;
    }
    assert(captions_view(out@) =~= captions_view(v@));
    out
}

/// A season and how many episodes it has.
#[derive(Clone, Copy, Debug, PartialEq, Eq, Structural)]
pub struct Season {
    pub number: i64,
    pub max_ep: i64,
}

/// A language cut of a title: a subject of its own.
#[derive(Clone, Debug)]
pub struct Dub {
    pub subject_id: String,
    pub name: String,
}

/// What the catalogue says of a title.
#[derive(Clone, Debug)]
pub struct Details {
    pub id: String,
    pub title: String,
    pub overview: String,
    pub cover: String,
    pub year: String,
    pub genre: String,
    pub country: String,
    pub content_rating: String,
    pub duration: String,
    pub rating: Number,
    pub is_series: bool,
    pub seasons: Vec<Season>,
    pub dubs: Vec<Dub>,
}

impl Default for Details {
    fn default() -> (r: Details)
        ensures
            r.id@.len() == 0,
            r.title@.len() == 0,
            r.overview@.len() == 0,
            r.cover@.len() == 0,
            r.year@.len() == 0,
            r.genre@.len() == 0,
            r.country@.len() == 0,
            r.content_rating@.len() == 0,
            r.duration@.len() == 0,
            r.rating == Number::Finite(crate::double::Double { neg: false, m: 0, e: 0 }),
            r.rating.wf(),
            !r.is_series,
            r.seasons@.len() == 0,
            r.dubs@.len() == 0,
    {
        Details {
            id: String::new(),
            title: String::new(),
            overview: String::new(),
            cover: String::new(),
            year: String::new(),
            genre: String::new(),
            country: String::new(),
            content_rating: String::new(),
            duration: String::new(),
            rating: Number::Finite(crate::double::Double::zero()),
            is_series: false,
            seasons: Vec::new(),
            dubs: Vec::new(),
        }
    }
}

/// A file that an episode can be played from.
#[derive(Clone, Debug)]
pub struct StreamFile {
    pub url: String,
    pub size: String,
    pub codec: String,
    pub uploader: String,
    pub resource_id: String,
    pub resolution: i64,
    pub captions: Vec<Caption>,
}

/// What a file holds.
#[verifier::ext_equal]
pub struct FileView {
    pub url: Seq<char>,
    pub size: Seq<char>,
    pub codec: Seq<char>,
    pub uploader: Seq<char>,
    pub resource_id: Seq<char>,
    pub resolution: int,
    pub captions: Seq<CaptionView>,
}

impl View for StreamFile {
    type V = FileView;

    open spec fn view(&self) -> FileView {
        FileView {
            url: self.url@,
            size: self.size@,
            codec: self.codec@,
            uploader: self.uploader@,
            resource_id: self.resource_id@,
            resolution: self.resolution as int,
            captions: captions_view(self.captions@),
        }
    }
}

/// The files as they are.
pub open spec fn files_view(v: Seq<StreamFile>) -> Seq<FileView> {
    Seq::new(v.len(), |i: int| v[i]@)
}

impl Default for StreamFile {
    fn default() -> (r: StreamFile)
        ensures
            r.url@.len() == 0,
            r.size@.len() == 0,
            r.codec@.len() == 0,
            r.uploader@.len() == 0,
            r.resource_id@.len() == 0,
            r.resolution == 0,
            r.captions@.len() == 0,
    {
        StreamFile {
            url: String::new(),
            size: String::new(),
            codec: String::new(),
            uploader: String::new(),
            resource_id: String::new(),
            resolution: 0,
            captions: Vec::new(),
        }
    }
}

impl StreamFile {
    /// The same file once more, with the tracks given.
    pub fn with_captions(&self, captions: &Vec<Caption>) -> (r: StreamFile)
        ensures
            r@ == (FileView { captions: captions_view(captions@), ..self@ }),
    {
        StreamFile {
            url: self.url.clone(),
            size: self.size.clone(),
            codec: self.codec.clone(),
            uploader: self.uploader.clone(),
            resource_id: self.resource_id.clone(),
            resolution: self.resolution,
            captions: copy_captions(captions),
        }
    }

    /// The same file once more.
    pub fn copy(&self) -> (r: StreamFile)
        ensures
            r@ == self@,
    {
        self.with_captions(&self.captions)
    }
}

/// Why the catalogue gave nothing.
#[derive(Clone, Copy, Debug, PartialEq, Eq, Structural)]
pub enum StreamError {
    NoHosts,
    HostsExhausted,
    MissingToken,
    ApiStatus(u16),
    Reqwest,
    Json,
}

/// A failure in plain words.
pub open spec fn explained(e: StreamError) -> Seq<char> {
    match e {
        StreamError::NoHosts => "No servers configured — open Hosts and add one."@,
        StreamError::HostsExhausted => "No server answered. Check your connection or edit Hosts."@,
        StreamError::MissingToken => "Servers answered but refused a session. Try different Hosts."@,
        StreamError::ApiStatus(s) => if s == 404 {
            "Nothing found for that."@
        } else {
            "Servers returned "@ + dec(s as nat) + ". Try again or edit Hosts."@
        },
        StreamError::Reqwest => "Network error."@,
        StreamError::Json => "Unreadable response from the server."@,
    }
}

/// See [`explained`].
pub fn explain(e: &StreamError) -> (r: String)
    ensures
        r@ == explained(*e),
{
    match e {
        StreamError::NoHosts => "No servers configured — open Hosts and add one.".to_owned(),
        StreamError::HostsExhausted => "No server answered. Check your connection or edit Hosts.".to_owned(),
        StreamError::MissingToken => "Servers answered but refused a session. Try different Hosts.".to_owned(),
        StreamError::ApiStatus(s) => {
            if *s == 404 {
                return "Nothing found for that.".to_owned();
            }
            let mut t = "Servers returned ".to_owned();
            push_dec(&mut t, *s as u64);
            t.append(". Try again or edit Hosts.");
            t
        },
        StreamError::Reqwest => "Network error.".to_owned(),
        StreamError::Json => "Unreadable response from the server.".to_owned(),
    }
}

/// One part more, where there is something in it.
pub open spec fn and_filled(parts: Seq<Seq<char>>, s: Seq<char>) -> Seq<Seq<char>> {
    if s.len() == 0 { parts } else { parts.push(s) }
}

/// See [`and_filled`].
pub fn push_filled(parts: &mut Vec<String>, s: &String)
    ensures
        views(final(parts)@) == and_filled(views(old(parts)@), s@),
{
    if !s.as_str().is_empty() {
        let ghost was = views(parts@);
        parts.push(s.clone());
        assert(views(parts@) =~= was.push(s@));
    }
}

/// Whether a number is above zero.
pub open spec fn positive(n: Number) -> bool {
    match n {
        Number::Finite(d) => !d.neg && d.m > 0,
        Number::Infinite(neg) => !neg,
        Number::Nan => false,
    }
}

/// See [`positive`].
pub fn is_positive(n: &Number) -> (r: bool)
    ensures
        r == positive(*n),
{
    match n {
        Number::Finite(d) => !d.neg && d.m > 0,
        Number::Infinite(neg) => !*neg,
        Number::Nan => false,
    }
}

/// The line under a title: year, genre, country, rating by age, length and stars;
/// what is blank drops out.
pub open spec fn meta_text(d: Details) -> Seq<char> {
    let parts = and_filled(
        and_filled(
            and_filled(
                and_filled(and_filled(Seq::empty(), d.year@), d.genre@),
                d.country@,
            ),
            d.content_rating@,
        ),
        d.duration@,
    );
    join(if positive(d.rating) { parts.push("★ "@ + d.rating.text(1)) } else { parts }, "  ·  "@)
}

/// See [`meta_text`].
pub fn meta_line(d: &Details) -> (r: String)
    requires
        d.rating.wf(),
    ensures
        r@ == meta_text(*d),
{
    let mut parts: Vec<String> = Vec::new();
    assert(views(parts@) =~= Seq::<Seq<char>>::empty());
    push_filled(&mut parts, &d.year);
    push_filled(&mut parts, &d.genre);
    push_filled(&mut parts, &d.country);
    push_filled(&mut parts, &d.content_rating);
    push_filled(&mut parts, &d.duration);
    if is_positive(&d.rating) {
        let ghost was = views(parts@);
        let mut s = "★ ".to_owned();
        d.rating.push_text(&mut s, 1);
        parts.push(s);
        assert(views(parts@) =~= was.push("★ "@ + d.rating.text(1)));
    }
    join_strings(&parts, "  ·  ")
}

/// The line under a file: its size and its codec, where they are known.
pub open spec fn file_text(f: FileView) -> Seq<char> {
    join(and_filled(and_filled(Seq::empty(), f.size), f.codec), "  ·  "@)
}

/// See [`file_text`].
pub fn file_sub(f: &StreamFile) -> (r: String)
    ensures
        r@ == file_text(f@),
{
    let mut parts: Vec<String> = Vec::new();
    assert(views(parts@) =~= Seq::<Seq<char>>::empty());
    push_filled(&mut parts, &f.size);
    push_filled(&mut parts, &f.codec);
    join_strings(&parts, "  ·  ")
}

/// The first characters of a text, with an ellipsis where it was cut.
pub open spec fn truncated(s: Seq<char>, max: nat) -> Seq<char> {
    if s.len() <= max { s } else { s.take(max as int) + "…"@ }
}

/// See [`truncated`].
pub fn truncate_chars(s: &str, max: usize) -> (r: String)
    ensures
        r@ == truncated(s@, max as nat),
{
    let v = chars_of(s);
    if v.len() <= max {
        return s.to_owned();
    }
    let mut out = String::new();
    push_chars(&mut out, &v, 0, max);
    assert(out@ =~= s@.take(max as int));
    out.append("…");
    out
}

/// Whether a list has a track already: one of the same language, small and capital
/// letters alike, or at the same address.
pub open spec fn has_track(list: Seq<CaptionView>, c: CaptionView) -> bool {
    exists|i: int|
        0 <= i < list.len() && ((c.lang.len() > 0 && fold((#[trigger] list[i]).lang) == fold(c.lang)) || list[i].url
            == c.url)
}

/// A list with one track more, where it has an address and is new.
pub open spec fn and_track(list: Seq<CaptionView>, c: CaptionView) -> Seq<CaptionView> {
    if c.url.len() == 0 || has_track(list, c) { list } else { list.push(c) }
}

/// A list with some tracks more.
pub open spec fn and_tracks(list: Seq<CaptionView>, more: Seq<CaptionView>) -> Seq<CaptionView>
    decreases more.len(),
{
    if more.len() == 0 { list } else { and_track(and_tracks(list, more.drop_last()), more.last()) }
}

/// The tracks of some lists of tracks, one for each language.
pub open spec fn tracks_of(lists: Seq<Seq<CaptionView>>) -> Seq<CaptionView>
    decreases lists.len(),
{
    if lists.len() == 0 {
        Seq::empty()
    } else {
        and_tracks(tracks_of(lists.drop_last()), lists.last())
    }
}

/// The tracks of each file.
pub open spec fn tracks_by_file(files: Seq<FileView>) -> Seq<Seq<CaptionView>> {
    Seq::new(files.len(), |i: int| files[i].captions)
}

fn is_listed(list: &Vec<Caption>, c: &Caption) -> (r: bool)
    ensures
        r == has_track(captions_view(list@), c@),
{
    let mut i: usize = 0;
    while i < list.len()
        invariant
            i <= list@.len(),
            forall|j: int|
                0 <= j < i ==> !((c@.lang.len() > 0 && fold((#[trigger] list@[j])@.lang) == fold(c@.lang)) || list@[j]@.url
                    == c@.url),
        decreases list@.len() - i,
    {
        if (!c.lang.as_str().is_empty() && same_letters(list[i].lang.as_str(), c.lang.as_str())) || same(
            list[i].url.as_str(),
            c.url.as_str(),
        ) {
            assert(captions_view(list@)[i as int] == list@[i as int]@);
            return true;
        }
        i = i + 1;
    }
    assert forall|j: int| 0 <= j < captions_view(list@).len() implies !((c@.lang.len() > 0 && fold(
        (#[trigger] captions_view(list@)[j]).lang,
    ) == fold(c@.lang)) || captions_view(list@)[j].url == c@.url) by {
        assert(captions_view(list@)[j] == list@[j]@);
    }
    false
}

/// Puts tracks into a list; see [`and_tracks`].
pub fn add_tracks(list: &mut Vec<Caption>, more: &Vec<Caption>)
    ensures
        captions_view(final(list)@) == and_tracks(captions_view(old(list)@), captions_view(more@)),
{
    let ghost base = captions_view(list@);
    let ghost all = captions_view(more@);
    let mut i: usize = 0;
    assert(all.take(0) =~= Seq::<CaptionView>::empty());
    while i < more.len()
        invariant
            i <= more@.len(),
            all == captions_view(more@),
            base == captions_view(old(list)@),
            captions_view(list@) == and_tracks(base, all.take(i as int)),
        decreases more@.len() - i,
    {
        assert(all.take(i + 1).drop_last() =~= all.take(i as int));
        assert(all.take(i + 1).last() == more@[i as int]@);
        let c = &more[i];
        if !c.url.as_str().is_empty() && !is_listed(list, c) {
            let ghost was = captions_view(list@);
            list.push(c.copy());
            assert(captions_view(list@) =~= was.push(c@));
        }
        i = i + 1;
    }
    assert(all.take(i as int) =~= all);
}

/// One track for each language over every file of an episode, the first address
/// seen for each.
pub fn caption_union(files: &Vec<StreamFile>) -> (r: Vec<Caption>)
    ensures
        captions_view(r@) == tracks_of(tracks_by_file(files_view(files@))),
{
    let ghost all = tracks_by_file(files_view(files@));
    let mut out: Vec<Caption> = Vec::new();
    let mut i: usize = 0;
    assert(all.take(0) =~= Seq::<Seq<CaptionView>>::empty());
    assert(captions_view(out@) =~= Seq::<CaptionView>::empty());
    while i < files.len()
        invariant
            i <= files@.len(),
            all == tracks_by_file(files_view(files@)),
            captions_view(out@) == tracks_of(all.take(i as int)),
        decreases files@.len() - i,
    {
        assert(all.take(i + 1).drop_last() =~= all.take(i as int));
        assert(all.take(i + 1).last() == captions_view(files@[i as int].captions@));
        add_tracks(&mut out, &files[i].captions);
        i = i + 1;
    }
    assert(all.take(i as int) =~= all);
    out
}

/// One track for each language over some lists of tracks.
pub fn merge_captions(lists: &Vec<Vec<Caption>>) -> (r: Vec<Caption>)
    ensures
        captions_view(r@) == tracks_of(Seq::new(lists@.len(), |i: int| captions_view(lists@[i]@))),
{
    let ghost all = Seq::new(lists@.len(), |i: int| captions_view(lists@[i]@));
    let mut out: Vec<Caption> = Vec::new();
    let mut i: usize = 0;
    assert(all.take(0) =~= Seq::<Seq<CaptionView>>::empty());
    assert(captions_view(out@) =~= Seq::<CaptionView>::empty());
    while i < lists.len()
        invariant
            i <= lists@.len(),
            all == Seq::new(lists@.len(), |i: int| captions_view(lists@[i]@)),
            captions_view(out@) == tracks_of(all.take(i as int)),
        decreases lists@.len() - i,
    {
        assert(all.take(i + 1).drop_last() =~= all.take(i as int));
        assert(all.take(i + 1).last() == captions_view(lists@[i as int]@));
        add_tracks(&mut out, &lists[i]);
        i = i + 1;
    }
    assert(all.take(i as int) =~= all);
    out
}

/// Whether a list of tracks names each language and each address once and none
/// without an address.
pub open spec fn tracks_apart(list: Seq<CaptionView>) -> bool {
    &&& forall|i: int| 0 <= i < list.len() ==> (#[trigger] list[i]).url.len() > 0
    &&& forall|i: int, j: int|
        0 <= i < j < list.len() ==> (#[trigger] list[i]).url != (#[trigger] list[j]).url && (list[j].lang.len() > 0
            ==> fold(list[i].lang) != fold(list[j].lang))
}

proof fn lemma_and_tracks(list: Seq<CaptionView>, more: Seq<CaptionView>)
    requires
        tracks_apart(list),
    ensures
        tracks_apart(and_tracks(list, more)),
        list.len() <= and_tracks(list, more).len(),
        and_tracks(list, more).take(list.len() as int) == list,
    decreases more.len(),
{
    if more.len() > 0 {
        lemma_and_tracks(list, more.drop_last());
        let l = and_tracks(list, more.drop_last());
        let c = more.last();
        if c.url.len() > 0 && !has_track(l, c) {
            let n = l.push(c);
            assert forall|i: int, j: int| 0 <= i < j < n.len() implies (#[trigger] n[i]).url != (#[trigger] n[j]).url && (
            n[j].lang.len() > 0 ==> fold(n[i].lang) != fold(n[j].lang)) by {
                if j == l.len() {
                    assert(n[i] == l[i]);
                } else {
                    assert(n[i] == l[i] && n[j] == l[j]);
                }
            }
            assert(n.take(list.len() as int) =~= l.take(list.len() as int));
        }
    } else {
        assert(list.take(list.len() as int) =~= list);
    }
}

/// The picker never names a language twice, nor an address, and every track in it
/// has an address.
pub proof fn law_one_track_for_each_language(lists: Seq<Seq<CaptionView>>)
    ensures
        tracks_apart(tracks_of(lists)),
    decreases lists.len(),
{
    if lists.len() > 0 {
        law_one_track_for_each_language(lists.drop_last());
        lemma_and_tracks(tracks_of(lists.drop_last()), lists.last());
    }
}

proof fn lemma_tracks_listed(list: Seq<CaptionView>, more: Seq<CaptionView>, c: CaptionView)
    requires
        has_track(list, c) || (more.contains(c) && c.url.len() > 0),
    ensures
        has_track(and_tracks(list, more), c),
    decreases more.len(),
{
    if more.len() > 0 {
        let front = more.drop_last();
        let l = and_tracks(list, front);
        if has_track(list, c) || front.contains(c) {
            lemma_tracks_listed(list, front, c);
            let j = choose|j: int|
                0 <= j < l.len() && ((c.lang.len() > 0 && fold((#[trigger] l[j]).lang) == fold(c.lang)) || l[j].url
                    == c.url);
            assert(and_tracks(list, more)[j] == l[j]);
        } else {
            let k = choose|k: int| 0 <= k < more.len() && more[k] == c;
            if k < front.len() {
                assert(front[k] == c);
            }
            assert(c == more.last());
            if !has_track(l, c) {
                assert(and_tracks(list, more)[l.len() as int] == c);
            }
        }
    }
}

proof fn lemma_every_track_listed(lists: Seq<Seq<CaptionView>>, i: int, c: CaptionView)
    requires
        0 <= i < lists.len(),
        lists[i].contains(c),
        c.url.len() > 0,
    ensures
        has_track(tracks_of(lists), c),
    decreases lists.len(),
{
    if i < lists.len() - 1 {
        lemma_every_track_listed(lists.drop_last(), i, c);
    }
    lemma_tracks_listed(tracks_of(lists.drop_last()), lists.last(), c);
}

/// Every track of an episode's files that has an address is in the picker, by itself or
/// by one of its language or its address; and there is one for each language and each
/// address.
pub proof fn law_the_picker_has_every_language_once(files: Seq<FileView>, i: int, k: int)
    requires
        0 <= i < files.len(),
        0 <= k < files[i].captions.len(),
        files[i].captions[k].url.len() > 0,
    ensures
        has_track(tracks_of(tracks_by_file(files)), files[i].captions[k]),
        tracks_apart(tracks_of(tracks_by_file(files))),
{
    let lists = tracks_by_file(files);
    assert(lists[i][k] == files[i].captions[k]);
    lemma_every_track_listed(lists, i, files[i].captions[k]);
    law_one_track_for_each_language(lists);
}

/// The first address that is seen for a language stays: what comes later is put
/// behind what is there.
pub proof fn law_tracks_seen_first_stay(lists: Seq<Seq<CaptionView>>, later: Seq<CaptionView>)
    ensures
        tracks_of(lists).len() <= tracks_of(lists.push(later)).len(),
        tracks_of(lists.push(later)).take(tracks_of(lists).len() as int) == tracks_of(lists),
{
    law_one_track_for_each_language(lists);
    lemma_and_tracks(tracks_of(lists), later);
    assert(lists.push(later).drop_last() =~= lists);
}

/// What some bytes are, by how they begin: the extension of a picture's file.
pub open spec fn picture_ext(b: Seq<u8>) -> Seq<char> {
    if b.len() >= 4 && b.take(4) == seq![0x89u8, 0x50u8, 0x4eu8, 0x47u8] {
        "png"@
    } else if b.len() >= 12 && b.take(4) == seq![0x52u8, 0x49u8, 0x46u8, 0x46u8] && b.subrange(8, 12) == seq![
        0x57u8,
        0x45u8,
        0x42u8,
        0x50u8,
    ] {
        "webp"@
    } else {
        "jpg"@
    }
}

/// See [`picture_ext`].
pub fn image_ext(bytes: &[u8]) -> (r: &'static str)
    ensures
        r@ == picture_ext(bytes@),
{
    if bytes.len() >= 4 && bytes[0] == 0x89 && bytes[1] == 0x50 && bytes[2] == 0x4e && bytes[3] == 0x47 {
        assert(bytes@.take(4) =~= seq![0x89u8, 0x50u8, 0x4eu8, 0x47u8]);
        return "png";
    }
    proof {
        if bytes@.len() >= 4 && bytes@.take(4) == seq![0x89u8, 0x50u8, 0x4eu8, 0x47u8] {
            assert(bytes@.take(4)[0] == bytes@[0] && bytes@.take(4)[1] == bytes@[1] && bytes@.take(4)[2] == bytes@[2]
                && bytes@.take(4)[3] == bytes@[3]);
        }
    }
    if bytes.len() >= 12 && bytes[0] == 0x52 && bytes[1] == 0x49 && bytes[2] == 0x46 && bytes[3] == 0x46 && bytes[8]
        == 0x57 && bytes[9] == 0x45 && bytes[10] == 0x42 && bytes[11] == 0x50 {
        assert(bytes@.take(4) =~= seq![0x52u8, 0x49u8, 0x46u8, 0x46u8]);
        assert(bytes@.subrange(8, 12) =~= seq![0x57u8, 0x45u8, 0x42u8, 0x50u8]);
        return "webp";
    }
    proof {
        if bytes@.len() >= 12 && bytes@.take(4) == seq![0x52u8, 0x49u8, 0x46u8, 0x46u8] && bytes@.subrange(8, 12) == seq![
            0x57u8,
            0x45u8,
            0x42u8,
            0x50u8,
        ] {
            assert(bytes@.take(4)[0] == bytes@[0] && bytes@.take(4)[1] == bytes@[1] && bytes@.take(4)[2] == bytes@[2]
                && bytes@.take(4)[3] == bytes@[3]);
            let s = bytes@.subrange(8, 12);
            assert(s[0] == bytes@[8] && s[1] == bytes@[9] && s[2] == bytes@[10] && s[3] == bytes@[11]);
        }
    }
    "jpg"
}

/// The name that a poster is kept under, for an extension.
pub open spec fn cover_file(url: Seq<char>, ext: Seq<char>) -> Seq<char> {
    hex_text(sha256(encode_utf8(url))) + "."@ + ext
}

/// See [`cover_file`].
pub fn cover_name(url: &str, ext: &str) -> (r: String)
    ensures
        r@ == cover_file(url@, ext@),
{
    let mut s = hex(sha256_of(url.as_bytes()).as_slice());
    s.append(".");
    s.append(ext);
    s
}

/// The names that a poster can be kept under, in the order in which they are
/// looked for; none where there is no address.
pub fn cover_names(url: &str) -> (r: Vec<String>)
    ensures
        views(r@) == (if url@.len() == 0 {
            Seq::empty()
        } else {
            seq![cover_file(url@, "jpg"@), cover_file(url@, "png"@), cover_file(url@, "webp"@)]
        }),
{
    let mut out: Vec<String> = Vec::new();
    if !url.is_empty() {
        out.push(cover_name(url, "jpg"));
        out.push(cover_name(url, "png"));
        out.push(cover_name(url, "webp"));
        assert(views(out@) =~= seq![cover_file(url@, "jpg"@), cover_file(url@, "png"@), cover_file(url@, "webp"@)]);
    } else {
        assert(views(out@) =~= Seq::<Seq<char>>::empty());
    }
    out
}

/// The extension that a kept picture is renamed to; nothing where its own says
/// what its bytes are.
pub fn repair_ext(head: &[u8], ext: &str) -> (r: Option<&'static str>)
    ensures
        r is Some <==> picture_ext(head@) != ext@,
        r matches Some(e) ==> e@ == picture_ext(head@),
{
    let actual = image_ext(head);
    if same(actual, ext) {
        None
    } else {
        Some(actual)
    }
}

/// How many posters and how many subtitle files are kept.
pub const COVERS_MAX: usize = 400;

/// See [`COVERS_MAX`].
pub const SUBTITLES_MAX: usize = 60;

/// The files of a folder to drop so that at most `max` stay: the oldest, by when
/// each was last written.
pub fn cap_dir(times: &Vec<u64>, max: usize) -> (r: Vec<usize>)
    ensures
        places(r@) == (if times@.len() <= max {
            Seq::empty()
        } else {
            num_order(nums(times@), times@.len()).take(times@.len() - max)
        }),
        forall|j: int| 0 <= j < r@.len() ==> #[trigger] r@[j] < times@.len(),
{
    let mut out: Vec<usize> = Vec::new();
    if times.len() <= max {
        assert(places(out@) =~= Seq::<int>::empty());
        return out;
    }
    let o = order_of_nums(times);
    let n: usize = times.len() - max;
    let mut i: usize = 0;
    while i < n
        invariant
            i <= n <= o@.len(),
            o@.len() == times@.len(),
            out@.len() == i,
            forall|j: int| 0 <= j < o@.len() ==> #[trigger] o@[j] < times@.len(),
            forall|j: int| 0 <= j < i ==> #[trigger] out@[j] == o@[j] && out@[j] < times@.len(),
        decreases n - i,
    {
        out.push(o[i]);
        i = i + 1;
    }
    assert(places(out@) =~= places(o@).take(n as int));
    out
}

/// No file that is dropped was written after one that stays.
pub proof fn law_the_oldest_files_go(times: Seq<int>, max: nat, i: int, j: int)
    requires
        0 <= i < times.len() - max <= j < times.len(),
    ensures
        times[num_order(times, times.len())[i]] <= times[num_order(times, times.len())[j]],
{
    crate::order::law_num_order_sorts(times, times.len());
    let o = num_order(times, times.len());
    assert(o.len() == times.len());
    assert(times[o[i]] <= times[o[j]]);
}

/// The line under a title has what is known of it in its order, year first and stars last,
/// and nothing that is blank.
pub proof fn law_the_line_under_a_title_skips_what_is_blank(d: Details)
    ensures
        ({
            let all = seq![d.year@, d.genre@, d.country@, d.content_rating@, d.duration@].filter(|s: Seq<char>| s.len() > 0);
            &&& positive(d.rating) ==> meta_text(d) == join(all.push("★ "@ + d.rating.text(1)), "  ·  "@)
            &&& !positive(d.rating) ==> meta_text(d) == join(all, "  ·  "@)
        }),
{
    let p = |s: Seq<char>| s.len() > 0;
    let (a, b, c, e, f) = (d.year@, d.genre@, d.country@, d.content_rating@, d.duration@);
    let n = Seq::<Seq<char>>::empty();
    lemma_filled(n, a, p);
    lemma_filled(seq![a], b, p);
    lemma_filled(seq![a, b], c, p);
    lemma_filled(seq![a, b, c], e, p);
    lemma_filled(seq![a, b, c, e], f, p);
    assert(n.push(a) =~= seq![a]);
    assert(seq![a].push(b) =~= seq![a, b]);
    assert(seq![a, b].push(c) =~= seq![a, b, c]);
    assert(seq![a, b, c].push(e) =~= seq![a, b, c, e]);
    assert(seq![a, b, c, e].push(f) =~= seq![a, b, c, e, f]);
    assert(n.filter(p) =~= n) by {
        reveal(Seq::filter);
    }
}

proof fn lemma_filled(parts: Seq<Seq<char>>, s: Seq<char>, p: spec_fn(Seq<char>) -> bool)
    requires
        p == (|s: Seq<char>| s.len() > 0),
    ensures
        parts.push(s).filter(p) == and_filled(parts.filter(p), s),
{
    reveal(Seq::filter);
    assert(parts.push(s).drop_last() =~= parts);
    assert(parts.push(s).last() == s);
}

/// A text that fits is whole; of a longer one the beginning is kept, and an ellipsis says
/// that it was cut.
pub proof fn law_a_cut_text_says_so(s: Seq<char>, max: nat)
    ensures
        s.len() <= max ==> truncated(s, max) == s,
        s.len() > max ==> truncated(s, max) == s.take(max as int).push('…') && truncated(s, max).len() == max + 1,
{
    reveal_strlit("…");
    assert(s.len() > max ==> s.take(max as int) + "…"@ =~= s.take(max as int).push('…'));
}

/// A picture is told by its first bytes: the mark of a PNG, the two marks of a WebP; what has
/// neither is a JPEG.
pub proof fn law_a_picture_is_told_by_its_first_bytes(b: Seq<u8>)
    ensures
        b.len() >= 4 && b[0] == 0x89 && b[1] == 0x50 && b[2] == 0x4e && b[3] == 0x47 ==> picture_ext(b) == "png"@,
        b.len() >= 12 && b[0] == 0x52 && b[1] == 0x49 && b[2] == 0x46 && b[3] == 0x46 && b[8] == 0x57 && b[9] == 0x45 && b[10] == 0x42 && b[11]
            == 0x50 ==> picture_ext(b) == "webp"@,
        b.len() >= 2 && b[0] == 0xff && b[1] == 0xd8 ==> picture_ext(b) == "jpg"@,
        b.len() < 4 ==> picture_ext(b) == "jpg"@,
{
    if b.len() >= 4 {
        let t = b.take(4);
        assert(t[0] == b[0] && t[1] == b[1] && t[2] == b[2] && t[3] == b[3]);
        if b[0] == 0x89 && b[1] == 0x50 && b[2] == 0x4e && b[3] == 0x47 {
            assert(t =~= seq![0x89u8, 0x50u8, 0x4eu8, 0x47u8]);
        }
        if b.len() >= 12 && b[0] == 0x52 && b[1] == 0x49 && b[2] == 0x46 && b[3] == 0x46 {
            assert(t =~= seq![0x52u8, 0x49u8, 0x46u8, 0x46u8]);
            let u = b.subrange(8, 12);
            assert(u[0] == b[8] && u[1] == b[9] && u[2] == b[10] && u[3] == b[11]);
            if b[8] == 0x57 && b[9] == 0x45 && b[10] == 0x42 && b[11] == 0x50 {
                assert(u =~= seq![0x57u8, 0x45u8, 0x42u8, 0x50u8]);
            }
        }
    }
}

/// A failure is put in words of its own; only what was not found says so.
pub proof fn law_a_failure_is_put_in_words(s: u16)
    ensures
        explained(StreamError::ApiStatus(404)) == "Nothing found for that."@,
        s != 404 ==> explained(StreamError::ApiStatus(s)) == "Servers returned "@ + dec(s as nat) + ". Try again or edit Hosts."@,
        explained(StreamError::NoHosts) == "No servers configured — open Hosts and add one."@,
        explained(StreamError::HostsExhausted) == "No server answered. Check your connection or edit Hosts."@,
        explained(StreamError::MissingToken) == "Servers answered but refused a session. Try different Hosts."@,
        explained(StreamError::Reqwest) == "Network error."@,
        explained(StreamError::Json) == "Unreadable response from the server."@,
{
}

/// The line under a file has its size and its codec, each where it is known; a poster is kept
/// under the hash of its address.
pub proof fn law_the_line_under_a_file(f: FileView, url: Seq<char>, ext: Seq<char>)
    ensures
        f.size.len() > 0 && f.codec.len() > 0 ==> file_text(f) == f.size + "  ·  "@ + f.codec,
        f.size.len() > 0 && f.codec.len() == 0 ==> file_text(f) == f.size,
        f.size.len() == 0 && f.codec.len() > 0 ==> file_text(f) == f.codec,
        f.size.len() == 0 && f.codec.len() == 0 ==> file_text(f).len() == 0,
        cover_file(url, ext) == hex_text(sha256(encode_utf8(url))) + "."@ + ext,
{
    reveal_with_fuel(join, 3);
    let n = Seq::<Seq<char>>::empty();
    assert(n.push(f.size).push(f.codec).drop_last() =~= n.push(f.size));
}

} // verus!
