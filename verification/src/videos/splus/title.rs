//! A title, and the lines about it.

use vstd::prelude::*;
use crate::double::{of_int, of_nat, quotient, Double};
use crate::text::{dec_int, join, join_strings, push_dec_int, same, views};
use crate::videos::stream::title::{and_filled, push_filled};

verus! {

/// A title. The score is out of a hundred.
#[derive(Clone, Debug)]
pub struct Title {
    pub anilist_id: Option<i64>,
    pub tmdb_id: Option<i64>,
    pub mal_id: Option<i64>,
    pub title: String,
    pub overview: String,
    pub cover_url: String,
    pub format: String,
    pub certification: String,
    pub year: Option<i64>,
    pub episodes: Option<i64>,
    pub score: Option<i64>,
    pub next_episode: Option<i64>,
    pub next_airing_at: Option<i64>,
    pub genres: Vec<String>,
    pub adult: bool,
}

impl Default for Title {
    fn default() -> (r: Title)
        ensures
            r.anilist_id is None,
            r.tmdb_id is None,
            r.mal_id is None,
            r.title@.len() == 0,
            r.overview@.len() == 0,
            r.cover_url@.len() == 0,
            r.format@.len() == 0,
            r.certification@.len() == 0,
            r.year is None,
            r.episodes is None,
            r.score is None,
            r.next_episode is None,
            r.next_airing_at is None,
            r.genres@.len() == 0,
            !r.adult,
    {
        Title {
            anilist_id: None,
            tmdb_id: None,
            mal_id: None,
            title: String::new(),
            overview: String::new(),
            cover_url: String::new(),
            format: String::new(),
            certification: String::new(),
            year: None,
            episodes: None,
            score: None,
            next_episode: None,
            next_airing_at: None,
            genres: Vec::new(),
            adult: false,
        }
    }
}

/// What a title holds.
#[verifier::ext_equal]
pub struct TitleView {
    pub anilist_id: Option<i64>,
    pub tmdb_id: Option<i64>,
    pub mal_id: Option<i64>,
    pub title: Seq<char>,
    pub overview: Seq<char>,
    pub cover_url: Seq<char>,
    pub format: Seq<char>,
    pub certification: Seq<char>,
    pub year: Option<i64>,
    pub episodes: Option<i64>,
    pub score: Option<i64>,
    pub next_episode: Option<i64>,
    pub next_airing_at: Option<i64>,
    pub genres: Seq<Seq<char>>,
    pub adult: bool,
}

impl View for Title {
    type V = TitleView;

    open spec fn view(&self) -> TitleView {
        TitleView {
            anilist_id: self.anilist_id,
            tmdb_id: self.tmdb_id,
            mal_id: self.mal_id,
            title: self.title@,
            overview: self.overview@,
            cover_url: self.cover_url@,
            format: self.format@,
            certification: self.certification@,
            year: self.year,
            episodes: self.episodes,
            score: self.score,
            next_episode: self.next_episode,
            next_airing_at: self.next_airing_at,
            genres: views(self.genres@),
            adult: self.adult,
        }
    }
}

/// The titles as they are.
pub open spec fn titles_view(v: Seq<Title>) -> Seq<TitleView> {
    Seq::new(v.len(), |i: int| v[i]@)
}

/// The same texts once more.
pub(crate) fn copy_texts(v: &Vec<String>) -> (r: Vec<String>)
    ensures
        views(r@) == views(v@),
{
    let mut out: Vec<String> = Vec::new();
    let mut i: usize = 0;
    while i < v.len()
        invariant
            i <= v@.len(),
            out@.len() == i,
            forall|j: int| 0 <= j < i ==> (#[trigger] out@[j])@ == v@[j]@,
        decreases v@.len() - i,
    {
        out.push(v[i].clone());
        i = i + 1;
    }
    assert(views(out@) =~= views(v@));
    out
}

impl Title {
    /// The same title once more.
    pub fn copy(&self) -> (r: Title)
        ensures
            r@ == self@,
    {
        Title {
            anilist_id: self.anilist_id,
            tmdb_id: self.tmdb_id,
            mal_id: self.mal_id,
            title: self.title.clone(),
            overview: self.overview.clone(),
            cover_url: self.cover_url.clone(),
            format: self.format.clone(),
            certification: self.certification.clone(),
            year: self.year,
            episodes: self.episodes,
            score: self.score,
            next_episode: self.next_episode,
            next_airing_at: self.next_airing_at,
            genres: copy_texts(&self.genres),
            adult: self.adult,
        }
    }
}

/// What a title is found by: its number in the first catalogue that has one, else
/// its name.
pub open spec fn key_text(t: TitleView) -> Seq<char> {
    match (t.anilist_id, t.tmdb_id) {
        (Some(a), _) => "al:"@ + dec_int(a as int),
        (None, Some(x)) => "tmdb:"@ + dec_int(x as int),
        (None, None) => "q:"@ + t.title,
    }
}

/// See [`key_text`].
pub fn title_key(t: &Title) -> (r: String)
    ensures
        r@ == key_text(t@),
{
    match t.anilist_id {
        Some(a) => {
            let mut s = "al:".to_owned();
            push_dec_int(&mut s, a);
            return s;
        },
        None => {},
    }
    match t.tmdb_id {
        Some(x) => {
            let mut s = "tmdb:".to_owned();
            push_dec_int(&mut s, x);
            s
        },
        None => {
            let mut s = "q:".to_owned();
            s.append(t.title.as_str());
            s
        },
    }
}

/// Titles with different numbers in one catalogue are never taken for each other,
/// nor are titles of different catalogues.
pub proof fn law_keys_tell_titles_apart(a: TitleView, b: TitleView)
    requires
        a.anilist_id is Some || a.tmdb_id is Some,
        b.anilist_id is Some || b.tmdb_id is Some,
        a.anilist_id is Some || b.anilist_id is Some ==> a.anilist_id != b.anilist_id,
        a.anilist_id is None && b.anilist_id is None ==> a.tmdb_id != b.tmdb_id,
    ensures
        key_text(a) != key_text(b),
{
    reveal_strlit("al:");
    reveal_strlit("tmdb:");
    if a.anilist_id is Some && b.anilist_id is Some {
        let (x, y) = (a.anilist_id->0, b.anilist_id->0);
        crate::text::law_integers_read_back(x);
        crate::text::law_integers_read_back(y);
        assert(key_text(a).skip(3) =~= dec_int(x as int));
        assert(key_text(b).skip(3) =~= dec_int(y as int));
    } else if a.anilist_id is None && b.anilist_id is None {
        let (x, y) = (a.tmdb_id->0, b.tmdb_id->0);
        crate::text::law_integers_read_back(x);
        crate::text::law_integers_read_back(y);
        assert(key_text(a).skip(5) =~= dec_int(x as int));
        assert(key_text(b).skip(5) =~= dec_int(y as int));
    } else {
        assert(key_text(a)[0] != key_text(b)[0]);
    }
}

/// A score out of ten.
pub open spec fn score_text(s: int) -> Seq<char> {
    "★ "@ + quotient(of_int(s), of_nat(10)).text(1)
}

fn score_of(s: i64) -> (r: String)
    ensures
        r@ == score_text(s as int),
{
    let mut out = "★ ".to_owned();
    Double::from_i64(s).div(&Double::from_u64(10)).push_text(&mut out, 1);
    out
}

/// One part more, where there is one.
pub open spec fn and_some(parts: Seq<Seq<char>>, part: Option<Seq<char>>) -> Seq<Seq<char>> {
    match part {
        Some(p) => parts.push(p),
        None => parts,
    }
}

fn push_part(parts: &mut Vec<String>, s: String)
    ensures
        views(final(parts)@) == views(old(parts)@).push(s@),
{
    let ghost was = views(parts@);
    let ghost t = s@;
    parts.push(s);
    assert(views(parts@) =~= was.push(t));
}

fn number(i: i64) -> (r: String)
    ensures
        r@ == dec_int(i as int),
{
    let mut s = String::new();
    push_dec_int(&mut s, i);
    assert(s@ =~= dec_int(i as int));
    s
}

fn number_then(i: i64, tail: &str) -> (r: String)
    ensures
        r@ == dec_int(i as int) + tail@,
{
    let mut s = number(i);
    s.append(tail);
    s
}

fn number_after(head: &str, i: i64) -> (r: String)
    ensures
        r@ == head@ + dec_int(i as int),
{
    let mut s = head.to_owned();
    push_dec_int(&mut s, i);
    s
}

/// The parts of the line on a card: the year, the episodes where there are several,
/// the score, and the episode that airs next where that is known.
pub open spec fn note_parts(t: TitleView) -> Seq<Seq<char>> {
    let a = and_some(
        Seq::empty(),
        match t.year {
            Some(y) => Some(dec_int(y as int)),
            None => None,
        },
    );
    let b = and_some(
        a,
        match t.episodes {
            Some(n) => if n > 1 { Some(dec_int(n as int) + " ep"@) } else { None },
            None => None,
        },
    );
    let c = and_some(
        b,
        match t.score {
            Some(s) => Some(score_text(s as int)),
            None => None,
        },
    );
    and_some(
        c,
        match (t.next_episode, t.next_airing_at) {
            (Some(n), Some(_)) => Some("ep "@ + dec_int(n as int) + " next"@),
            _ => None,
        },
    )
}

/// The line on a card; what is not known drops out.
pub fn note_line(t: &Title) -> (r: String)
    ensures
        r@ == join(note_parts(t@), " · "@),
{
    let mut parts: Vec<String> = Vec::new();
    assert(views(parts@) =~= Seq::<Seq<char>>::empty());
    match t.year {
        Some(y) => push_part(&mut parts, number(y)),
        None => {},
    }
    match t.episodes {
        Some(n) => {
            if n > 1 {
                push_part(&mut parts, number_then(n, " ep"));
            }
        },
        None => {},
    }
    match t.score {
        Some(s) => push_part(&mut parts, score_of(s)),
        None => {},
    }
    match (t.next_episode, t.next_airing_at) {
        (Some(n), Some(_)) => {
            let mut s = number_after("ep ", n);
            s.append(" next");
            push_part(&mut parts, s);
        },
        _ => {},
    }
    join_strings(&parts, " · ")
}

/// The first three genres.
pub open spec fn first_genres(g: Seq<Seq<char>>) -> Seq<Seq<char>> {
    if g.len() <= 3 { g } else { g.take(3) }
}

/// The parts of the line on a title's own page.
pub open spec fn page_parts(t: TitleView) -> Seq<Seq<char>> {
    let a = and_some(
        Seq::empty(),
        match t.year {
            Some(y) => Some(dec_int(y as int)),
            None => None,
        },
    );
    let b = and_filled(a, t.format);
    let c = and_some(
        b,
        match t.episodes {
            Some(n) => Some(dec_int(n as int) + " episodes"@),
            None => None,
        },
    );
    let d = and_some(
        c,
        match t.score {
            Some(s) => Some(score_text(s as int)),
            None => None,
        },
    );
    let e = if t.genres.len() > 0 { d.push(join(first_genres(t.genres), ", "@)) } else { d };
    let f = and_some(
        e,
        match t.anilist_id {
            Some(n) => Some("AniList "@ + dec_int(n as int)),
            None => None,
        },
    );
    and_some(
        f,
        match t.mal_id {
            Some(n) => Some("MAL "@ + dec_int(n as int)),
            None => None,
        },
    )
}

fn genres_of(t: &Title) -> (r: String)
    ensures
        r@ == join(first_genres(views(t.genres@)), ", "@),
{
    let n: usize = if t.genres.len() < 3 { t.genres.len() } else { 3 };
    let mut out: Vec<String> = Vec::new();
    let mut i: usize = 0;
    while i < n
        invariant
            i <= n <= t.genres@.len(),
            out@.len() == i,
            forall|j: int| 0 <= j < i ==> (#[trigger] out@[j])@ == t.genres@[j]@,
        decreases n - i,
    {
        out.push(t.genres[i].clone());
        i = i + 1;
    }
    assert(views(out@) =~= first_genres(views(t.genres@)));
    join_strings(&out, ", ")
}

/// The line on a title's own page; what is not known drops out.
pub fn meta_line(t: &Title) -> (r: String)
    ensures
        r@ == join(page_parts(t@), "  ·  "@),
{
    let mut parts: Vec<String> = Vec::new();
    assert(views(parts@) =~= Seq::<Seq<char>>::empty());
    match t.year {
        Some(y) => push_part(&mut parts, number(y)),
        None => {},
    }
    push_filled(&mut parts, &t.format);
    match t.episodes {
        Some(n) => push_part(&mut parts, number_then(n, " episodes")),
        None => {},
    }
    match t.score {
        Some(s) => push_part(&mut parts, score_of(s)),
        None => {},
    }
    if t.genres.len() > 0 {
        push_part(&mut parts, genres_of(t));
    }
    match t.anilist_id {
        Some(n) => push_part(&mut parts, number_after("AniList ", n)),
        None => {},
    }
    match t.mal_id {
        Some(n) => push_part(&mut parts, number_after("MAL ", n)),
        None => {},
    }
    join_strings(&parts, "  ·  ")
}

/// A card.
#[derive(Debug)]
pub struct SPlusCard {
    pub key: String,
    pub note: String,
    pub badge: String,
    pub saved: bool,
}

/// What a card shows.
pub type CardView = (Seq<char>, Seq<char>, Seq<char>, bool);

/// The cards as they are.
pub open spec fn cards_view(v: Seq<SPlusCard>) -> Seq<CardView> {
    Seq::new(v.len(), |i: int| (v[i].key@, v[i].note@, v[i].badge@, v[i].saved))
}

/// The card of a title.
pub open spec fn card_of(t: TitleView, saved: Seq<Seq<char>>) -> CardView {
    (key_text(t), join(note_parts(t), " · "@), t.format, saved.contains(key_text(t)))
}

/// Whether a list has a text.
pub fn has_text(v: &Vec<String>, s: &str) -> (r: bool)
    ensures
        r == views(v@).contains(s@),
{
    let mut i: usize = 0;
    while i < v.len()
        invariant
            i <= v@.len(),
            forall|j: int| 0 <= j < i ==> (#[trigger] v@[j])@ != s@,
        decreases v@.len() - i,
    {
        if same(v[i].as_str(), s) {
            assert(views(v@)[i as int] == s@);
            return true;
        }
        i = i + 1;
    }
    assert forall|j: int| 0 <= j < views(v@).len() implies views(v@)[j] != s@ by {
        assert(v@[j]@ != s@);
    }
    false
}

/// The cards of some titles, those that are saved marked.
pub fn cards(titles: &Vec<Title>, saved: &Vec<String>) -> (r: Vec<SPlusCard>)
    ensures
        cards_view(r@) == Seq::new(titles@.len(), |i: int| card_of(titles@[i]@, views(saved@))),
{
    let mut out: Vec<SPlusCard> = Vec::new();
    let mut i: usize = 0;
    while i < titles.len()
        invariant
            i <= titles@.len(),
            out@.len() == i,
            forall|j: int|
                0 <= j < i ==> ((#[trigger] out@[j]).key@, out@[j].note@, out@[j].badge@, out@[j].saved) == card_of(
                    titles@[j]@,
                    views(saved@),
                ),
        decreases titles@.len() - i,
    {
        let t = &titles[i];
        let key = title_key(t);
        let is_saved = has_text(saved, key.as_str());
        out.push(SPlusCard { key, note: note_line(t), badge: t.format.clone(), saved: is_saved });
        i = i + 1;
    }
    assert(cards_view(out@) =~= Seq::new(titles@.len(), |i: int| card_of(titles@[i]@, views(saved@))));
    out
}

/// The line on a card has the year, the episodes where there are several, the score and the
/// episode to come, each where it is known, in this order.
pub proof fn law_a_card_says_what_is_known(t: TitleView)
    ensures
        ({
            let year = t.year matches Some(_);
            let eps = t.episodes matches Some(n) && n > 1;
            let score = t.score is Some;
            let next = t.next_episode is Some && t.next_airing_at is Some;
            let p = note_parts(t);
            let (a, b, c) = (
                if year { 1int } else { 0 },
                if eps { 1int } else { 0 },
                if score { 1int } else { 0 },
            );
            &&& p.len() == a + b + c + (if next { 1int } else { 0 })
            &&& year ==> p[0] == dec_int(t.year->0 as int)
            &&& eps ==> p[a] == dec_int(t.episodes->0 as int) + " ep"@
            &&& score ==> p[a + b] == "★ "@ + quotient(of_int(t.score->0 as int), of_nat(10)).text(1)
            &&& next ==> p[a + b + c] == "ep "@ + dec_int(t.next_episode->0 as int) + " next"@
        }),
{
}

/// A card stands for its title: under its key, with its format for a badge, and marked
/// exactly where the title is saved.
pub proof fn law_a_card_is_marked_where_it_is_saved(t: TitleView, saved: Seq<Seq<char>>)
    ensures
        card_of(t, saved).0 == key_text(t),
        card_of(t, saved).1 == join(note_parts(t), " · "@),
        card_of(t, saved).2 == t.format,
        card_of(t, saved).3 == saved.contains(key_text(t)),
        t.anilist_id matches Some(a) ==> key_text(t) == "al:"@ + dec_int(a as int),
        t.anilist_id is None ==> (t.tmdb_id matches Some(x) ==> key_text(t) == "tmdb:"@ + dec_int(x as int)),
        t.anilist_id is None && t.tmdb_id is None ==> key_text(t) == "q:"@ + t.title,
{
}

/// The page of a title says, each where it is known and in this order: the year, the format,
/// the episodes, the score, three genres at most, and its two numbers.
pub proof fn law_a_page_says_what_is_known(t: TitleView)
    ensures
        ({
            let p = page_parts(t);
            let a = if t.year is Some { 1int } else { 0 };
            let b = a + (if t.format.len() > 0 { 1int } else { 0 });
            let c = b + (if t.episodes is Some { 1int } else { 0 });
            let d = c + (if t.score is Some { 1int } else { 0 });
            let e = d + (if t.genres.len() > 0 { 1int } else { 0 });
            let f = e + (if t.anilist_id is Some { 1int } else { 0 });
            &&& p.len() == f + (if t.mal_id is Some { 1int } else { 0 })
            &&& t.year matches Some(y) ==> p[0] == dec_int(y as int)
            &&& t.format.len() > 0 ==> p[a] == t.format
            &&& t.episodes matches Some(n) ==> p[b] == dec_int(n as int) + " episodes"@
            &&& t.score matches Some(s) ==> p[c] == "★ "@ + quotient(of_int(s as int), of_nat(10)).text(1)
            &&& t.genres.len() > 0 && t.genres.len() <= 3 ==> p[d] == join(t.genres, ", "@)
            &&& t.genres.len() > 3 ==> p[d] == join(t.genres.take(3), ", "@)
            &&& t.anilist_id matches Some(n) ==> p[e] == "AniList "@ + dec_int(n as int)
            &&& t.mal_id matches Some(n) ==> p[f] == "MAL "@ + dec_int(n as int)
        }),
{
}

} // verus!
