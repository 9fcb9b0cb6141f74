//! Everything that happened, newest first, from every place that keeps a record.

use vstd::prelude::*;
use crate::status::card::{events_view, Event, EventView};
use crate::status::figures::{bytes, bytes_text, clock, clock_text};
use crate::text::{followed, same};

verus! {

/// Where an event at `at` goes in a list that is newest first: behind everything
/// that is not older.
pub open spec fn slot(list: Seq<EventView>, at: int) -> int
    decreases list.len(),
{
    if list.len() == 0 || list.last().0 >= at {
        list.len() as int
    } else {
        slot(list.drop_last(), at)
    }
}

/// `events` newest first; those of one moment keep their order.
pub open spec fn newest_first(events: Seq<EventView>) -> Seq<EventView>
    decreases events.len(),
{
    if events.len() == 0 {
        Seq::empty()
    } else {
        let rest = newest_first(events.drop_last());
        rest.insert(slot(rest, events.last().0), events.last())
    }
}

/// A list is newest first.
pub open spec fn is_newest_first(list: Seq<EventView>) -> bool {
    forall|i: int, j: int| 0 <= i <= j < list.len() ==> (#[trigger] list[i]).0 >= (#[trigger] list[j]).0
}

proof fn lemma_slot(list: Seq<EventView>, at: int)
    requires
        is_newest_first(list),
    ensures
        0 <= slot(list, at) <= list.len(),
        forall|i: int| 0 <= i < slot(list, at) ==> (#[trigger] list[i]).0 >= at,
        forall|i: int| slot(list, at) <= i < list.len() ==> (#[trigger] list[i]).0 < at,
    decreases list.len(),
{
    if list.len() > 0 && list.last().0 < at {
        let front = list.drop_last();
        lemma_slot(front, at);
        assert forall|i: int| 0 <= i < slot(list, at) implies (#[trigger] list[i]).0 >= at by {
            assert(front[i] == list[i]);
        }
        assert forall|i: int| slot(list, at) <= i < list.len() implies (#[trigger] list[i]).0 < at by {
            if i < front.len() {
                assert(front[i] == list[i]);
            }
        }
    } else if list.len() > 0 {
        assert(list.last() == list[list.len() - 1]);
    }
}

/// The timeline is one list, newest first, that holds exactly the events given.
pub proof fn law_newest_first_sorts(events: Seq<EventView>)
    ensures
        is_newest_first(newest_first(events)),
        newest_first(events).to_multiset() == events.to_multiset(),
        newest_first(events).len() == events.len(),
    decreases events.len(),
{
    if events.len() > 0 {
        let front = events.drop_last();
        let x = events.last();
        law_newest_first_sorts(front);
        let rest = newest_first(front);
        lemma_slot(rest, x.0);
        let k = slot(rest, x.0);
        let out = rest.insert(k, x);
        assert forall|i: int, j: int| 0 <= i <= j < out.len() implies (#[trigger] out[i]).0 >= (#[trigger] out[j]).0 by {
            let a = if i < k { rest[i] } else if i == k { x } else { rest[i - 1] };
            let b = if j < k { rest[j] } else if j == k { x } else { rest[j - 1] };
            assert(out[i] == a);
            assert(out[j] == b);
        }
        broadcast use vstd::seq_lib::group_to_multiset_ensures;
        assert(events =~= front.push(x));
        assert(out.to_multiset() =~= rest.to_multiset().insert(x)) by {
            rest.to_multiset_ensures();
            lemma_insert_multiset(rest, k, x);
        }
        front.to_multiset_ensures();
        assert(front.push(x).to_multiset() =~= front.to_multiset().insert(x));
    } else {
        assert(events =~= Seq::<EventView>::empty());
    }
}

proof fn lemma_insert_multiset(s: Seq<EventView>, k: int, x: EventView)
    requires
        0 <= k <= s.len(),
    ensures
        s.insert(k, x).to_multiset() == s.to_multiset().insert(x),
{
    let a = s.take(k);
    let b = s.skip(k);
    assert(s =~= a + b);
    assert(s.insert(k, x) =~= a.push(x) + b);
    vstd::seq_lib::lemma_multiset_commutative(a, b);
    vstd::seq_lib::lemma_multiset_commutative(a.push(x), b);
    a.to_multiset_ensures();
    assert(a.push(x).to_multiset() =~= a.to_multiset().insert(x));
    assert(a.to_multiset().insert(x).add(b.to_multiset()) =~= a.to_multiset().add(b.to_multiset()).insert(x));
}

/// One line of the timeline as the page shows it.
#[derive(Debug)]
pub struct Entry {
    pub at: String,
    pub accent: String,
    pub title: String,
    pub desc: String,
}

/// What a line of the timeline reads.
pub type EntryView = (Seq<char>, Seq<char>, Seq<char>, Seq<char>);

impl View for Entry {
    type V = EntryView;

    open spec fn view(&self) -> EntryView {
        (self.at@, self.accent@, self.title@, self.desc@)
    }
}

/// What the timeline reads.
pub open spec fn entries_view(v: Seq<Entry>) -> Seq<EntryView> {
    Seq::new(v.len(), |i: int| v[i]@)
}

/// An event as a line.
pub open spec fn entry_of(e: EventView, offset: int) -> EntryView {
    (clock_text(e.0, offset), e.1, e.2, e.3)
}

/// The first twelve, or fewer where there are fewer.
pub open spec fn first_twelve(list: Seq<EventView>) -> Seq<EventView> {
    if list.len() > 12 { list.take(12) } else { list }
}

/// The timeline: the newest twelve events of three sources, or one line that says
/// that nothing happened.
pub open spec fn timeline_view(
    jobs: Seq<EventView>,
    transfers: Seq<EventView>,
    activity: Seq<EventView>,
    now: int,
    offset: int,
) -> Seq<EntryView> {
    let list = first_twelve(newest_first(jobs + transfers + activity));
    if list.len() == 0 {
        seq![
            (
                clock_text(now, offset),
                "slate"@,
                "Nothing to report"@,
                "No jobs, transfers or library changes recorded yet"@,
            ),
        ]
    } else {
        Seq::new(list.len(), |i: int| entry_of(list[i], offset))
    }
}

fn copy_event(e: &Event) -> (r: Event)
    ensures
        r@ == e@,
{
    Event { at: e.at, accent: e.accent.clone(), title: e.title.clone(), desc: e.desc.clone() }
}

/// Every event's local moment can be computed.
pub open spec fn moments_fit(events: Seq<Event>, offset: int) -> bool {
    forall|i: int| 0 <= i < events.len() ==> i64::MIN <= (#[trigger] events[i]).at + offset <= i64::MAX
}

/// Puts the events of `from` into `list`, which stays newest first.
fn merge(list: &mut Vec<Event>, from: &Vec<Event>, Ghost(seen): Ghost<Seq<EventView>>, offset: i64)
    requires
        events_view(old(list)@) == newest_first(seen),
        moments_fit(old(list)@, offset as int),
        moments_fit(from@, offset as int),
    ensures
        events_view(final(list)@) == newest_first(seen + events_view(from@)),
        moments_fit(final(list)@, offset as int),
{
    let mut i: usize = 0;
    assert(seen + events_view(from@).take(0) =~= seen);
    while i < from.len()
        invariant
            i <= from@.len(),
            moments_fit(from@, offset as int),
            moments_fit(list@, offset as int),
            events_view(list@) == newest_first(seen + events_view(from@).take(i as int)),
        decreases from@.len() - i,
    {
        let ghost have = seen + events_view(from@).take(i as int);
        let ghost next = seen + events_view(from@).take(i + 1);
        let e = copy_event(&from[i]);
        let ghost x = e@;
        let mut k: usize = list.len();
        let ghost view = events_view(list@);
        assert(view.take(k as int) =~= view);
        while k > 0 && list[k - 1].at < e.at
            invariant
                k <= list@.len(),
                e@ == x,
                view == events_view(list@),
                slot(view, x.0) == slot(view.take(k as int), x.0),
            decreases k,
        {
            assert(view.take(k as int).drop_last() =~= view.take(k - 1));
            assert(view.take(k as int).last() == list@[k - 1]@);
            k = k - 1;
        }
        if k > 0 {
            assert(view.take(k as int).last() == list@[k - 1]@);
        }
        assert(slot(view, x.0) == k);
        let ghost was = list@;
        list.insert(k, e);
        proof {
            assert(events_view(list@) =~= view.insert(k as int, x));
            assert(next.drop_last() =~= have);
            assert(next.last() == x);
            assert forall|j: int| 0 <= j < list@.len() implies i64::MIN <= (#[trigger] list@[j]).at + offset <= i64::MAX by {
                let y = if j < k { was[j] } else if j == k { e } else { was[j - 1] };
                assert(list@[j] == y);
            }
        }
        i = i + 1;
    }
    assert(events_view(from@).take(i as int) =~= events_view(from@));
}

/// The timeline of finished jobs, completed transfers and the activity log.
pub fn timeline(
    jobs: &Vec<Event>,
    transfers: &Vec<Event>,
    activity: &Vec<Event>,
    now: i64,
    offset: i64,
) -> (r: Vec<Entry>)
    requires
        moments_fit(jobs@, offset as int),
        moments_fit(transfers@, offset as int),
        moments_fit(activity@, offset as int),
        i64::MIN <= now + offset <= i64::MAX,
    ensures
        entries_view(r@) == timeline_view(
            events_view(jobs@),
            events_view(transfers@),
            events_view(activity@),
            now as int,
            offset as int,
        ),
{
    let mut list: Vec<Event> = Vec::new();
    let ghost none = Seq::<EventView>::empty();
    assert(events_view(list@) =~= newest_first(none));
    merge(&mut list, jobs, Ghost(none), offset);
    assert(none + events_view(jobs@) =~= events_view(jobs@));
    merge(&mut list, transfers, Ghost(events_view(jobs@)), offset);
    merge(&mut list, activity, Ghost(events_view(jobs@) + events_view(transfers@)), offset);
    let ghost all = newest_first(events_view(jobs@) + events_view(transfers@) + events_view(activity@));
    let ghost full = list@;
    list.truncate(12);
    assert(events_view(list@) =~= first_twelve(all));
    let ghost kept = first_twelve(all);
    assert forall|j: int| 0 <= j < list@.len() implies i64::MIN <= (#[trigger] list@[j]).at + offset <= i64::MAX by {
        assert(list@[j] == full[j]);
    }
    let mut out: Vec<Entry> = Vec::new();
    let mut i: usize = 0;
    while i < list.len()
        invariant
            i <= list@.len(),
            out@.len() == i,
            moments_fit(list@, offset as int),
            kept == events_view(list@),
            forall|j: int| 0 <= j < i ==> (#[trigger] out@[j])@ == entry_of(kept[j], offset as int),
        decreases list@.len() - i,
    {
        let e = &list[i];
        out.push(Entry {
            at: clock(e.at, offset),
            accent: e.accent.clone(),
            title: e.title.clone(),
            desc: e.desc.clone(),
        });
        i = i + 1;
    }
    if out.len() == 0 {
        out.push(Entry {
            at: clock(now, offset),
            accent: "slate".to_owned(),
            title: "Nothing to report".to_owned(),
            desc: "No jobs, transfers or library changes recorded yet".to_owned(),
        });
    }
    assert(entries_view(out@) =~= timeline_view(
        events_view(jobs@),
        events_view(transfers@),
        events_view(activity@),
        now as int,
        offset as int,
    ));
    out
}

/// A row of the transfer ledger.
#[derive(Debug)]
pub struct LedgerRow {
    pub direction: String,
    pub name: String,
    pub bytes: i64,
    pub peer: String,
    pub status: String,
    pub at: i64,
}

/// What became of a transfer, in a word.
pub open spec fn verb(direction: Seq<char>, status: Seq<char>) -> Seq<char> {
    if status != "ok"@ {
        "Transfer failed"@
    } else if direction == "in"@ {
        "Received"@
    } else {
        "Sent"@
    }
}

/// A transfer on the timeline.
pub open spec fn ledger_event(r: LedgerRow) -> EventView {
    (
        r.at as int,
        "teal"@,
        verb(r.direction@, r.status@) + " — "@ + r.name@,
        bytes_text(r.bytes as int) + " · "@ + r.peer@,
    )
}

/// The transfers on the timeline.
pub open spec fn ledger_events(rows: Seq<LedgerRow>) -> Seq<EventView> {
    Seq::new(rows.len(), |i: int| ledger_event(rows[i]))
}

/// See [`ledger_events`].
pub fn transfer_events(rows: &Vec<LedgerRow>) -> (r: Vec<Event>)
    ensures
        events_view(r@) == ledger_events(rows@),
{
    let mut out: Vec<Event> = Vec::new();
    let mut i: usize = 0;
    while i < rows.len()
        invariant
            i <= rows@.len(),
            out@.len() == i,
            forall|j: int| 0 <= j < i ==> (#[trigger] out@[j])@ == ledger_event(rows@[j]),
        decreases rows@.len() - i,
    {
        let r = &rows[i];
        let mut title = if !same(r.status.as_str(), "ok") {
            "Transfer failed".to_owned()
        } else if same(r.direction.as_str(), "in") {
            "Received".to_owned()
        } else {
            "Sent".to_owned()
        };
        title.append(" — ");
        title.append(r.name.as_str());
        let mut desc = followed(bytes(r.bytes), " · ");
        desc.append(r.peer.as_str());
        out.push(Event { at: r.at, accent: "teal".to_owned(), title, desc });
        i = i + 1;
    }
    assert(events_view(out@) =~= ledger_events(rows@));
    out
}

/// The timeline shows what happened last: at most twelve lines, one for each event that it
/// shows, newest first, and no event that is left out is newer than one that is shown.
pub proof fn law_the_timeline_shows_the_newest(
    jobs: Seq<EventView>,
    transfers: Seq<EventView>,
    activity: Seq<EventView>,
    now: int,
    offset: int,
) -> (r: (Seq<EventView>, Seq<EventView>))
    requires
        jobs.len() + transfers.len() + activity.len() > 0,
    ensures
        (r.0 + r.1).to_multiset() == (jobs + transfers + activity).to_multiset(),
        r.0.len() <= 12,
        r.1.len() > 0 ==> r.0.len() == 12,
        timeline_view(jobs, transfers, activity, now, offset).len() == r.0.len(),
        forall|i: int, j: int| 0 <= i <= j < r.0.len() ==> (#[trigger] r.0[i]).0 >= (#[trigger] r.0[j]).0,
        forall|i: int, j: int| 0 <= i < r.0.len() && 0 <= j < r.1.len() ==> (#[trigger] r.0[i]).0 >= (#[trigger] r.1[j]).0,
        forall|i: int|
            0 <= i < r.0.len() ==> {
                let line = #[trigger] timeline_view(jobs, transfers, activity, now, offset)[i];
                line.0 == clock_text(r.0[i].0, offset) && line.1 == r.0[i].1 && line.2 == r.0[i].2 && line.3 == r.0[i].3
            },
{
    let all = jobs + transfers + activity;
    law_newest_first_sorts(all);
    let list = newest_first(all);
    let n: int = if list.len() > 12 { 12 } else { list.len() as int };
    let r = (list.take(n), list.skip(n));
    assert(r.0 + r.1 =~= list);
    assert(first_twelve(list) =~= r.0);
    assert forall|i: int, j: int| 0 <= i <= j < r.0.len() implies (#[trigger] r.0[i]).0 >= (#[trigger] r.0[j]).0 by {
        assert(list[i].0 >= list[j].0);
    }
    assert forall|i: int, j: int| 0 <= i < r.0.len() && 0 <= j < r.1.len() implies (#[trigger] r.0[i]).0 >= (#[trigger] r.1[j]).0 by {
        assert(list[i].0 >= list[n + j].0);
    }
    r
}

/// A transfer is said to have failed unless it ended well; one that did was received where
/// it came in, and else sent. The line names the file, its size and the other device.
pub proof fn law_a_transfer_is_said_as_it_went(r: LedgerRow)
    ensures
        ledger_event(r).0 == r.at,
        r.status@ != "ok"@ ==> ledger_event(r).2 == "Transfer failed"@ + " — "@ + r.name@,
        r.status@ == "ok"@ && r.direction@ == "in"@ ==> ledger_event(r).2 == "Received"@ + " — "@ + r.name@,
        r.status@ == "ok"@ && r.direction@ != "in"@ ==> ledger_event(r).2 == "Sent"@ + " — "@ + r.name@,
        ledger_event(r).3 == bytes_text(r.bytes as int) + " · "@ + r.peer@,
{
}

} // verus!
