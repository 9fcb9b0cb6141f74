//! The landing screen: what was left unfinished, then what the catalogue shows.

use vstd::prelude::*;
use super::state::{cards_view, copy_text, hit_card, CardData, CardView, SearchHit};
use crate::double::{of_nat, quotient, Double, Number};
use crate::status::figures::opt_string;
use crate::text::{dec_two, join, join_strings, push_dec_two, views};

verus! {

/// Cards in each row.
pub const ROW_LEN: usize = 12;

/// A row of the landing screen.
#[derive(Debug)]
pub struct StreamRow {
    pub title: String,
    pub resumable: bool,
    pub cards: Vec<CardData>,
}

/// What a row shows.
pub type RowView = (Seq<char>, bool, Seq<CardView>);

/// The rows as they are.
pub open spec fn rows_view(v: Seq<StreamRow>) -> Seq<RowView> {
    Seq::new(v.len(), |i: int| (v[i].title@, v[i].resumable, cards_view(v[i].cards@)))
}

/// How many cards of a row are shown.
pub open spec fn row_len(n: nat) -> nat {
    if n < 12 { n } else { 12 }
}

/// How many cards stand in the rows before one.
pub open spec fn cards_before(rows: Seq<(String, Vec<SearchHit>)>, k: nat) -> nat
    decreases k,
{
    if k == 0 {
        0
    } else {
        cards_before(rows, (k - 1) as nat) + row_len(rows[k - 1].1@.len())
    }
}

/// The posters of all the rows' cards, row after row.
pub open spec fn covers_of(rows: Seq<(String, Vec<SearchHit>)>, k: nat) -> Seq<Seq<char>>
    decreases k,
{
    if k == 0 {
        Seq::empty()
    } else {
        let hits = rows[k - 1].1@;
        covers_of(rows, (k - 1) as nat) + Seq::new(row_len(hits.len()), |i: int| hits[i].cover@)
    }
}

/// See [`covers_of`].
pub fn feed_covers(rows: &Vec<(String, Vec<SearchHit>)>) -> (r: Vec<String>)
    ensures
        views(r@) == covers_of(rows@, rows@.len()),
{
    let mut out: Vec<String> = Vec::new();
    let mut k: usize = 0;
    assert(views(out@) =~= Seq::<Seq<char>>::empty());
    while k < rows.len()
        invariant
            k <= rows@.len(),
            views(out@) == covers_of(rows@, k as nat),
        decreases rows@.len() - k,
    {
        let hits = &rows[k].1;
        let n: usize = if hits.len() < ROW_LEN { hits.len() } else { ROW_LEN };
        let ghost base = views(out@);
        let mut i: usize = 0;
        assert(views(out@) =~= base + Seq::new(0, |i: int| hits@[i].cover@));
        while i < n
            invariant
                i <= n <= hits@.len(),
                views(out@) == base + Seq::new(i as nat, |i: int| hits@[i].cover@),
            decreases n - i,
        {
            let ghost was = views(out@);
            out.push(hits[i].cover.clone());
            assert(views(out@) =~= was.push(hits@[i as int].cover@));
            assert(base + Seq::new((i + 1) as nat, |i: int| hits@[i].cover@) =~= was.push(hits@[i as int].cover@));
            i = i + 1;
        }
        k = k + 1;
    }
    out
}

/// The poster at a place; none where it could not be had.
pub open spec fn cover_at(covers: Seq<Option<String>>, i: int) -> Option<Seq<char>> {
    if 0 <= i < covers.len() { opt_string(covers[i]) } else { None }
}

/// The cards of a row.
pub open spec fn row_cards(rows: Seq<(String, Vec<SearchHit>)>, covers: Seq<Option<String>>, k: int) -> Seq<CardView> {
    let hits = rows[k].1@;
    let base = cards_before(rows, k as nat) as int;
    Seq::new(row_len(hits.len()), |i: int| hit_card(hits[i], cover_at(covers, base + i)))
}

/// The rows of the catalogue, each with its label and twelve cards at most. The
/// posters come in one list, as [`feed_covers`] asks for them.
pub fn browse_rows(rows: &Vec<(String, Vec<SearchHit>)>, covers: &Vec<Option<String>>) -> (r: Vec<StreamRow>)
    ensures
        rows_view(r@) == Seq::new(rows@.len(), |k: int| (rows@[k].0@, false, row_cards(rows@, covers@, k))),
{
    let total: usize = covers.len();
    let mut out: Vec<StreamRow> = Vec::new();
    let mut k: usize = 0;
    let mut at: usize = 0;
    while k < rows.len()
        invariant
            k <= rows@.len(),
            total == covers@.len(),
            out@.len() == k,
            at == (if cards_before(rows@, k as nat) < total { cards_before(rows@, k as nat) as int } else { total as int }),
            forall|j: int|
                0 <= j < k ==> ((#[trigger] out@[j]).title@, out@[j].resumable, cards_view(out@[j].cards@)) == (
                    rows@[j].0@,
                    false,
                    row_cards(rows@, covers@, j),
                ),
        decreases rows@.len() - k,
    {
        let hits = &rows[k].1;
        let n: usize = if hits.len() < ROW_LEN { hits.len() } else { ROW_LEN };
        let ghost base = cards_before(rows@, k as nat) as int;
        let mut cards: Vec<CardData> = Vec::new();
        let mut i: usize = 0;
        while i < n
            invariant
                i <= n <= hits@.len(),
                total == covers@.len(),
                cards@.len() == i,
                base >= 0,
                at == (if base + i < total { base + i } else { total as int }),
                forall|j: int| 0 <= j < i ==> (#[trigger] cards@[j])@ == hit_card(hits@[j], cover_at(covers@, base + j)),
            decreases n - i,
        {
            let poster = if at < total { copy_text(&covers[at]) } else { None };
            cards.push(CardData::of(&hits[i], poster));
            if at < total {
                at = at + 1;
            }
            i = i + 1;
        }
        assert(cards_view(cards@) =~= row_cards(rows@, covers@, k as int));
        out.push(StreamRow { title: rows[k].0.clone(), resumable: false, cards });
        k = k + 1;
    }
    assert(rows_view(out@) =~= Seq::new(rows@.len(), |k: int| (rows@[k].0@, false, row_cards(rows@, covers@, k))));
    out
}

/// The landing screen: the titles to go on with first, where there are any, then
/// the catalogue's rows.
pub fn landing_rows(resume: Vec<CardData>, browse: Vec<StreamRow>) -> (r: Vec<StreamRow>)
    ensures
        rows_view(r@) == (if resume@.len() == 0 {
            Seq::empty()
        } else {
            seq![("Continue watching"@, true, cards_view(resume@))]
        }) + rows_view(browse@),
{
    let ghost cards = cards_view(resume@);
    let ghost rest = rows_view(browse@);
    let mut rows = browse;
    if resume.len() > 0 {
        rows.insert(0, StreamRow { title: "Continue watching".to_owned(), resumable: true, cards: resume });
        assert(rows_view(rows@) =~= seq![("Continue watching"@, true, cards)] + rest);
    } else {
        assert(Seq::<RowView>::empty() + rest =~= rest);
    }
    rows
}

/// Minutes that are left, to the nearest.
pub open spec fn minutes_left(s: Number) -> Seq<char> {
    (match s {
        Number::Finite(d) => quotient(d, of_nat(60)).text(0),
        other => other.text(0),
    }) + " min left"@
}

/// Appends [`minutes_left`].
pub fn push_minutes_left(out: &mut String, s: &Number)
    requires
        s.wf(),
    ensures
        final(out)@ == old(out)@ + minutes_left(*s),
{
    let ghost base = out@;
    match s {
        Number::Finite(d) => {
            d.div(&Double::from_u64(60)).push_text(out, 0);
        },
        Number::Infinite(_) => s.push_text(out, 0),
        Number::Nan => s.push_text(out, 0),
    }
    out.append(" min left");
    assert(out@ =~= base + minutes_left(*s));
}

/// An episode's number, never below the first.
pub open spec fn episode_text(season: int, episode: int) -> Seq<char> {
    "S"@ + dec_two(if season < 1 { 1 } else { season }) + "E"@ + dec_two(if episode < 1 { 1 } else { episode })
}

/// Appends [`episode_text`].
pub fn push_episode(out: &mut String, season: i64, episode: i64)
    ensures
        final(out)@ == old(out)@ + episode_text(season as int, episode as int),
{
    let ghost base = out@;
    out.append("S");
    push_dec_two(out, if season < 1 { 1 } else { season });
    out.append("E");
    push_dec_two(out, if episode < 1 { 1 } else { episode });
    assert(out@ =~= base + episode_text(season as int, episode as int));
}

/// The line under a title that was left unfinished: the episode of a series, and
/// how long is left.
pub open spec fn resume_text(is_series: bool, season: int, episode: int, remaining: Option<Number>) -> Seq<char> {
    let first = if is_series && (season > 0 || episode > 0) {
        seq![episode_text(season, episode)]
    } else {
        Seq::empty()
    };
    join(
        match remaining {
            Some(s) => first.push(if s.reaches(60) { minutes_left(s) } else { "nearly done"@ }),
            None => first,
        },
        "  ·  "@,
    )
}

/// See [`resume_text`].
pub fn resume_label(is_series: bool, season: i64, episode: i64, remaining: &Option<Number>) -> (r: String)
    requires
        remaining matches Some(s) ==> s.wf(),
    ensures
        r@ == resume_text(is_series, season as int, episode as int, *remaining),
{
    let mut parts: Vec<String> = Vec::new();
    if is_series && (season > 0 || episode > 0) {
        let mut s = String::new();
        push_episode(&mut s, season, episode);
        assert(s@ =~= episode_text(season as int, episode as int));
        parts.push(s);
    }
    let ghost first = views(parts@);
    assert(first =~= (if is_series && (season > 0 || episode > 0) {
        seq![episode_text(season as int, episode as int)]
    } else {
        Seq::empty()
    }));
    match remaining {
        Some(s) => {
            let mut t = String::new();
            assert(t@ =~= Seq::<char>::empty());
            if s.at_least(60) {
                push_minutes_left(&mut t, s);
                assert(t@ =~= minutes_left(*s));
            } else {
                t.append("nearly done");
                assert(t@ =~= "nearly done"@);
            }
            let ghost last = t@;
            parts.push(t);
            assert(views(parts@) =~= first.push(last));
        },
        None => {},
    }
    join_strings(&parts, "  ·  ")
}

/// A row shows twelve cards at most, each of its own hit, with the poster that was fetched for
/// it: posters are fetched row after row, in the order of the cards.
pub proof fn law_a_card_has_its_own_poster(rows: Seq<(String, Vec<SearchHit>)>, covers: Seq<Option<String>>, k: int, i: int)
    requires
        0 <= k < rows.len(),
        0 <= i < rows[k].1@.len(),
        i < 12,
    ensures
        row_cards(rows, covers, k).len() == (if rows[k].1@.len() < 12 { rows[k].1@.len() as int } else { 12 }),
        row_cards(rows, covers, k)[i].id == rows[k].1@[i].id@,
        row_cards(rows, covers, k)[i].title == rows[k].1@[i].title@,
        cards_before(rows, k as nat) + i < covers_of(rows, rows.len()).len(),
        covers_of(rows, rows.len())[cards_before(rows, k as nat) + i] == rows[k].1@[i].cover@,
        cards_before(rows, k as nat) + i < covers.len() ==> row_cards(rows, covers, k)[i].poster == opt_string(covers[cards_before(rows, k as nat) + i]),
{
    lemma_covers(rows, rows.len(), k, i);
}

proof fn lemma_covers_len(rows: Seq<(String, Vec<SearchHit>)>, n: nat)
    ensures
        covers_of(rows, n).len() == cards_before(rows, n),
    decreases n,
{
    if n > 0 {
        lemma_covers_len(rows, (n - 1) as nat);
    }
}

proof fn lemma_covers(rows: Seq<(String, Vec<SearchHit>)>, n: nat, k: int, i: int)
    requires
        0 <= k < n <= rows.len(),
        0 <= i < rows[k].1@.len(),
        i < 12,
    ensures
        cards_before(rows, k as nat) + i < covers_of(rows, n).len(),
        covers_of(rows, n)[cards_before(rows, k as nat) + i] == rows[k].1@[i].cover@,
    decreases n,
{
    lemma_covers_len(rows, n);
    lemma_covers_len(rows, (n - 1) as nat);
    if k < n - 1 {
        lemma_covers(rows, (n - 1) as nat, k, i);
    }
}

/// An episode is called by its season and its number in two places, from the first on.
pub proof fn law_an_episode_is_called_by_its_number(season: int, episode: int)
    ensures
        season >= 1 && episode >= 1 ==> episode_text(season, episode) == "S"@ + dec_two(season) + "E"@ + dec_two(episode),
        season < 1 ==> episode_text(season, episode) == episode_text(1, episode),
        episode < 1 ==> episode_text(season, episode) == episode_text(season, 1),
{
}

/// What was left unfinished says its episode, where it is one, and what is left of it, where
/// that is known.
pub proof fn law_what_is_unfinished_says_what_is_left(season: int, episode: int, s: Number)
    requires
        season > 0,
    ensures
        ({
            let left = if s.reaches(60) { minutes_left(s) } else { "nearly done"@ };
            &&& resume_text(true, season, episode, Some(s)) == episode_text(season, episode) + "  ·  "@ + left
            &&& resume_text(true, season, episode, None) == episode_text(season, episode)
            &&& resume_text(false, season, episode, Some(s)) == left
            &&& resume_text(false, season, episode, None).len() == 0
        }),
{
    reveal_with_fuel(join, 3);
    let left = if s.reaches(60) { minutes_left(s) } else { "nearly done"@ };
    let a = seq![episode_text(season, episode)];
    assert(a.push(left).drop_last() =~= a);
}

} // verus!
