//! What the section does for each of its buttons.

use vstd::prelude::*;
use super::page::may_retry;
use crate::text::{same, views};

verus! {

/// What a button asks for, with what is known at that moment.
#[derive(Debug)]
pub enum Wish {
    /// Share, or stop sharing.
    Start,
    Stop,
    /// Offer the files or the folder that were picked; nothing where none was.
    Add(Option<Vec<String>>),
    /// Take back one offered file, or all.
    Remove(i32),
    Clear,
    /// Offer to one device; empty stands for all.
    ShareTarget(String),
    /// Open the page on this machine, under its own single-use address.
    OpenUrl(String),
    Forget(String),
    RenameDevice(String, String),
    /// Serve on another address.
    SetIface { ip: String, running: bool },
    /// Keep what arrives in another folder, where one was picked.
    PickInbox(Option<String>),
    OpenInbox,
    /// Show a file of the table.
    OpenRow { path: String, there: bool },
    /// Offer a file again that could not be sent.
    RetryRow { id: i64, direction: String, path: String, there: bool, running: bool },
    ClearHistory,
    SetPage(i32),
    SetSort { column: i32, desc: bool },
    DismissUpload(i32),
    /// Another section is opened, or this one.
    SectionChanged { section: String, running: bool },
}

/// One thing that is done.
#[derive(Debug)]
pub enum Deed {
    StartService,
    StopService,
    Offer(String),
    TakeBack(u64),
    TakeAllBack,
    Target(String),
    Browse(String),
    Forget(String),
    Rename(String, String),
    Iface(String),
    KeepInbox(String),
    OpenInbox,
    Reveal(String),
    ForgetRow(i64),
    ForgetAllRows,
    Dismiss(u64),
    /// Read the service once and paint the page.
    Refresh,
    /// Read one page of the table.
    LoadHistory(i64),
    /// Look at the service every so many milliseconds; nothing stops it.
    Tick(Option<u64>),
}

/// What a deed is.
#[verifier::ext_equal]
pub enum DeedView {
    StartService,
    StopService,
    Offer(Seq<char>),
    TakeBack(int),
    TakeAllBack,
    Target(Seq<char>),
    Browse(Seq<char>),
    Forget(Seq<char>),
    Rename(Seq<char>, Seq<char>),
    Iface(Seq<char>),
    KeepInbox(Seq<char>),
    OpenInbox,
    Reveal(Seq<char>),
    ForgetRow(int),
    ForgetAllRows,
    Dismiss(int),
    Refresh,
    LoadHistory(int),
    Tick(Option<u64>),
}

impl View for Deed {
    type V = DeedView;

    open spec fn view(&self) -> DeedView {
        match *self {
            Deed::StartService => DeedView::StartService,
            Deed::StopService => DeedView::StopService,
            Deed::Offer(p) => DeedView::Offer(p@),
            Deed::TakeBack(n) => DeedView::TakeBack(n as int),
            Deed::TakeAllBack => DeedView::TakeAllBack,
            Deed::Target(t) => DeedView::Target(t@),
            Deed::Browse(u) => DeedView::Browse(u@),
            Deed::Forget(t) => DeedView::Forget(t@),
            Deed::Rename(t, n) => DeedView::Rename(t@, n@),
            Deed::Iface(i) => DeedView::Iface(i@),
            Deed::KeepInbox(p) => DeedView::KeepInbox(p@),
            Deed::OpenInbox => DeedView::OpenInbox,
            Deed::Reveal(p) => DeedView::Reveal(p@),
            Deed::ForgetRow(i) => DeedView::ForgetRow(i as int),
            Deed::ForgetAllRows => DeedView::ForgetAllRows,
            Deed::Dismiss(n) => DeedView::Dismiss(n as int),
            Deed::Refresh => DeedView::Refresh,
            Deed::LoadHistory(p) => DeedView::LoadHistory(p as int),
            Deed::Tick(t) => DeedView::Tick(t),
        }
    }
}

/// The deeds as they are.
pub open spec fn deeds_view(v: Seq<Deed>) -> Seq<DeedView> {
    Seq::new(v.len(), |i: int| v[i]@)
}

/// How the table is read: which page, by which column, which way.
#[derive(Clone, Copy, Debug, PartialEq, Eq, Structural)]
pub struct HistoryTable {
    pub page: i64,
    pub column: i32,
    pub desc: bool,
}

/// A number that is never below zero.
pub open spec fn not_below(n: int) -> int {
    if n < 0 { 0 } else { n }
}

/// The table after a wish. Another order starts at the first page again: a later
/// page of another order shows rows that have nothing to do with the click.
pub open spec fn table_after(t: HistoryTable, w: Wish) -> HistoryTable {
    match w {
        Wish::ClearHistory => HistoryTable { page: 0, ..t },
        Wish::SetPage(p) => HistoryTable { page: not_below(p as int) as i64, ..t },
        Wish::SetSort { column, desc } => HistoryTable { page: 0, column, desc },
        Wish::SectionChanged { section, .. } => if section@ == "transfer"@ { HistoryTable { page: 0, ..t } } else { t },
        _ => t,
    }
}

/// Offers of some paths.
pub open spec fn offers(paths: Seq<Seq<char>>) -> Seq<DeedView> {
    Seq::new(paths.len(), |i: int| DeedView::Offer(paths[i]))
}

/// What is done for a wish, in order. A file that could not be sent is taken out of
/// the table only once it was offered again. Sharing outlives the section: leaving
/// it only slows the ticks while something is shared.
pub open spec fn deeds_of(t: HistoryTable, w: Wish) -> Seq<DeedView> {
    match w {
        Wish::Start => seq![DeedView::StartService, DeedView::Refresh],
        Wish::Stop => seq![DeedView::StopService, DeedView::Refresh],
        Wish::Add(picked) => match picked {
            Some(p) => offers(views(p@)).push(DeedView::Refresh),
            None => Seq::empty(),
        },
        Wish::Remove(id) => seq![DeedView::TakeBack(not_below(id as int)), DeedView::Refresh],
        Wish::Clear => seq![DeedView::TakeAllBack, DeedView::Refresh],
        Wish::ShareTarget(token) => seq![DeedView::Target(token@), DeedView::Refresh],
        Wish::OpenUrl(url) => if url@.len() == 0 {
            Seq::empty()
        } else {
            seq![DeedView::Browse(url@), DeedView::Refresh]
        },
        Wish::Forget(token) => seq![DeedView::Forget(token@), DeedView::Refresh],
        Wish::RenameDevice(token, name) => seq![DeedView::Rename(token@, name@), DeedView::Refresh],
        Wish::SetIface { ip, running } => if running {
            seq![DeedView::Iface(ip@), DeedView::StopService, DeedView::StartService, DeedView::Refresh]
        } else {
            seq![DeedView::Iface(ip@), DeedView::Refresh]
        },
        Wish::PickInbox(dir) => match dir {
            Some(d) => seq![DeedView::KeepInbox(d@), DeedView::Refresh],
            None => Seq::empty(),
        },
        Wish::OpenInbox => seq![DeedView::OpenInbox],
        Wish::OpenRow { path, there } => if path@.len() > 0 && there {
            seq![DeedView::Reveal(path@)]
        } else {
            Seq::empty()
        },
        Wish::RetryRow { id, direction, path, there, running } => if direction@ == "out"@ && path@.len() > 0 && there
            && running {
            seq![
                DeedView::Offer(path@),
                DeedView::ForgetRow(id as int),
                DeedView::Refresh,
                DeedView::LoadHistory(not_below(t.page as int)),
            ]
        } else {
            Seq::empty()
        },
        Wish::ClearHistory => seq![DeedView::ForgetAllRows, DeedView::LoadHistory(0)],
        Wish::SetPage(p) => seq![DeedView::LoadHistory(not_below(p as int))],
        Wish::SetSort { .. } => seq![DeedView::LoadHistory(0)],
        Wish::DismissUpload(id) => seq![DeedView::Dismiss(not_below(id as int))],
        Wish::SectionChanged { section, running } => if section@ == "transfer"@ {
            seq![
                DeedView::Tick(Some(600)),
                DeedView::StartService,
                DeedView::Refresh,
                DeedView::LoadHistory(0),
            ]
        } else {
            seq![DeedView::Tick(if running { Some(3_000) } else { None })]
        },
    }
}

fn one(a: Deed) -> (r: Vec<Deed>)
    ensures
        deeds_view(r@) == seq![a@],
{
    let mut v: Vec<Deed> = Vec::new();
    let ghost x = a@;
    v.push(a);
    assert(deeds_view(v@) =~= seq![x]);
    v
}

fn two(a: Deed, b: Deed) -> (r: Vec<Deed>)
    ensures
        deeds_view(r@) == seq![a@, b@],
{
    let mut v: Vec<Deed> = Vec::new();
    let ghost (x, y) = (a@, b@);
    v.push(a);
    v.push(b);
    assert(deeds_view(v@) =~= seq![x, y]);
    v
}

fn four(a: Deed, b: Deed, c: Deed, d: Deed) -> (r: Vec<Deed>)
    ensures
        deeds_view(r@) == seq![a@, b@, c@, d@],
{
    let mut v: Vec<Deed> = Vec::new();
    let ghost (x, y, z, u) = (a@, b@, c@, d@);
    v.push(a);
    v.push(b);
    v.push(c);
    v.push(d);
    assert(deeds_view(v@) =~= seq![x, y, z, u]);
    v
}

fn nothing() -> (r: Vec<Deed>)
    ensures
        deeds_view(r@) == Seq::<DeedView>::empty(),
{
    let v: Vec<Deed> = Vec::new();
    assert(deeds_view(v@) =~= Seq::<DeedView>::empty());
    v
}

fn offer_all(paths: &Vec<String>) -> (r: Vec<Deed>)
    ensures
        deeds_view(r@) == offers(views(paths@)).push(DeedView::Refresh),
{
    let mut v: Vec<Deed> = Vec::new();
    let mut i: usize = 0;
    while i < paths.len()
        invariant
            i <= paths@.len(),
            v@.len() == i,
            forall|j: int| 0 <= j < i ==> (#[trigger] v@[j])@ == DeedView::Offer(paths@[j]@),
        decreases paths@.len() - i,
    {
        v.push(Deed::Offer(paths[i].clone()));
        i = i + 1;
    }
    v.push(Deed::Refresh);
    assert(deeds_view(v@) =~= offers(views(paths@)).push(DeedView::Refresh));
    v
}

fn whole(n: i32) -> (r: u64)
    ensures
        r == not_below(n as int),
{
    if n < 0 {
        0
    } else {
        n as u64
    }
}

impl HistoryTable {
    /// The newest rows first, from the first page.
    pub fn new() -> (r: HistoryTable)
        ensures
            r == (HistoryTable { page: 0, column: 0, desc: true }),
    {
        HistoryTable { page: 0, column: 0, desc: true }
    }

    /// What is done for a wish.
    #[verifier::rlimit(30)]
    pub fn wire(&mut self, w: Wish) -> (r: Vec<Deed>)
        ensures
            *final(self) == table_after(*old(self), w),
            deeds_view(r@) == deeds_of(*old(self), w),
    {
        match w {
            Wish::Start => two(Deed::StartService, Deed::Refresh),
            Wish::Stop => two(Deed::StopService, Deed::Refresh),
            Wish::Add(picked) => match picked {
                Some(p) => offer_all(&p),
                None => nothing(),
            },
            Wish::Remove(id) => two(Deed::TakeBack(whole(id)), Deed::Refresh),
            Wish::Clear => two(Deed::TakeAllBack, Deed::Refresh),
            Wish::ShareTarget(token) => two(Deed::Target(token), Deed::Refresh),
            Wish::OpenUrl(url) => {
                if url.as_str().is_empty() {
                    nothing()
                } else {
                    two(Deed::Browse(url), Deed::Refresh)
                }
            },
            Wish::Forget(token) => two(Deed::Forget(token), Deed::Refresh),
            Wish::RenameDevice(token, name) => two(Deed::Rename(token, name), Deed::Refresh),
            Wish::SetIface { ip, running } => {
                if running {
                    four(Deed::Iface(ip), Deed::StopService, Deed::StartService, Deed::Refresh)
                } else {
                    two(Deed::Iface(ip), Deed::Refresh)
                }
            },
            Wish::PickInbox(dir) => match dir {
                Some(d) => two(Deed::KeepInbox(d), Deed::Refresh),
                None => nothing(),
            },
            Wish::OpenInbox => one(Deed::OpenInbox),
            Wish::OpenRow { path, there } => {
                if !path.as_str().is_empty() && there {
                    one(Deed::Reveal(path))
                } else {
                    nothing()
                }
            },
            Wish::RetryRow { id, direction, path, there, running } => {
                if may_retry(direction.as_str(), path.as_str(), there, running) {
                    let p: i64 = if self.page < 0 { 0 } else { self.page };
                    four(Deed::Offer(path), Deed::ForgetRow(id), Deed::Refresh, Deed::LoadHistory(p))
                } else {
                    nothing()
                }
            },
            Wish::ClearHistory => {
                self.page = 0;
                two(Deed::ForgetAllRows, Deed::LoadHistory(0))
            },
            Wish::SetPage(p) => {
                let n: i64 = if p < 0 { 0 } else { p as i64 };
                self.page = n;
                one(Deed::LoadHistory(n))
            },
            Wish::SetSort { column, desc } => {
                self.page = 0;
                self.column = column;
                self.desc = desc;
                one(Deed::LoadHistory(0))
            },
            Wish::DismissUpload(id) => one(Deed::Dismiss(whole(id))),
            Wish::SectionChanged { section, running } => {
                if same(section.as_str(), "transfer") {
                    self.page = 0;
                    four(Deed::Tick(Some(600)), Deed::StartService, Deed::Refresh, Deed::LoadHistory(0))
                } else {
                    one(Deed::Tick(if running { Some(3_000) } else { None }))
                }
            },
        }
    }
}

/// A row leaves the table for a retry only where its file was offered again before.
pub proof fn law_a_row_is_dropped_only_once_offered(t: HistoryTable, w: Wish, i: int)
    requires
        0 <= i < deeds_of(t, w).len(),
        deeds_of(t, w)[i] is ForgetRow,
    ensures
        i > 0,
        deeds_of(t, w)[i - 1] is Offer,
{
    if let Wish::Add(Some(p)) = w {
        assert(i < offers(views(p@)).len() ==> deeds_of(t, w)[i] is Offer);
    }
}

/// Leaving the section never stops sharing.
pub proof fn law_leaving_keeps_sharing(t: HistoryTable, section: String, running: bool, i: int)
    requires
        0 <= i < deeds_of(t, Wish::SectionChanged { section, running }).len(),
    ensures
        !(deeds_of(t, Wish::SectionChanged { section, running })[i] is StopService),
{
}

/// Another order, a cleared table and the opened section start at the first page; a page
/// that is asked for is shown, none before the first; any other wish leaves the table alone.
pub proof fn law_the_table_starts_at_its_first_page(t: HistoryTable, w: Wish)
    ensures
        w is ClearHistory || w is SetSort ==> table_after(t, w).page == 0,
        w matches Wish::SetPage(p) ==> (p >= 0 ==> table_after(t, w).page == p) && (p < 0 ==> table_after(t, w).page == 0) && table_after(t, w).column == t.column && table_after(t, w).desc == t.desc,
        w matches Wish::SetSort { column, desc } ==> table_after(t, w).column == column && table_after(t, w).desc == desc,
        w matches Wish::SectionChanged { section, .. } ==> (section@ != "transfer"@ ==> table_after(t, w) == t) && (section@ == "transfer"@ ==> table_after(t, w).page == 0),
        !(w is ClearHistory || w is SetPage || w is SetSort || w is SectionChanged) ==> table_after(t, w) == t,
{
}

/// What a wish sets off: the files that were picked are offered, each once and in order; a
/// row is tried again only where it went out, its file is there and something is shared; the
/// service starts and stops as asked, and starts anew when it moves to another link.
pub proof fn law_a_wish_does_what_it_says(t: HistoryTable, w: Wish)
    ensures
        w is Start ==> deeds_of(t, w)[0] == DeedView::StartService,
        w is Stop ==> deeds_of(t, w)[0] == DeedView::StopService,
        w matches Wish::Add(Some(p)) ==> deeds_of(t, w).len() == p@.len() + 1 && deeds_of(t, w).last() == DeedView::Refresh && forall|i: int|
            0 <= i < p@.len() ==> #[trigger] deeds_of(t, w)[i] == DeedView::Offer(p@[i]@),
        w matches Wish::Add(None) ==> deeds_of(t, w).len() == 0,
        w matches Wish::Remove(id) ==> (id >= 0 ==> deeds_of(t, w)[0] == DeedView::TakeBack(id as int)),
        w is Clear ==> deeds_of(t, w)[0] == DeedView::TakeAllBack,
        w matches Wish::ShareTarget(token) ==> deeds_of(t, w)[0] == DeedView::Target(token@),
        w matches Wish::Forget(token) ==> deeds_of(t, w)[0] == DeedView::Forget(token@),
        w matches Wish::RenameDevice(token, name) ==> deeds_of(t, w)[0] == DeedView::Rename(token@, name@),
        w matches Wish::OpenUrl(url) ==> (deeds_of(t, w).len() > 0) == (url@.len() > 0) && (url@.len() > 0 ==> deeds_of(t, w)[0] == DeedView::Browse(url@)),
        w matches Wish::SetIface { ip, running } ==> deeds_of(t, w)[0] == DeedView::Iface(ip@) && (deeds_of(t, w).contains(DeedView::StartService) ==> running) && (running
            ==> deeds_of(t, w)[1] == DeedView::StopService && deeds_of(t, w)[2] == DeedView::StartService),
        w matches Wish::OpenRow { path, there } ==> (deeds_of(t, w).len() > 0) == (path@.len() > 0 && there),
        w matches Wish::RetryRow { id, direction, path, there, running } ==> (deeds_of(t, w).len() > 0) == (direction@ == "out"@ && path@.len() > 0 && there && running) && (deeds_of(
            t,
            w,
        ).len() > 0 ==> deeds_of(t, w)[0] == DeedView::Offer(path@) && deeds_of(t, w)[1] == DeedView::ForgetRow(id as int)),
        w is ClearHistory ==> deeds_of(t, w)[0] == DeedView::ForgetAllRows,
        w matches Wish::SectionChanged { section, running } ==> (section@ == "transfer"@ ==> deeds_of(t, w)[0] == DeedView::Tick(Some(600)) && deeds_of(t, w)[1] == DeedView::StartService) && (section@
            != "transfer"@ && running ==> deeds_of(t, w)[0] == DeedView::Tick(Some(3_000))) && (section@ != "transfer"@ && !running ==> deeds_of(t, w)[0] == DeedView::Tick(None)),
        w matches Wish::DismissUpload(id) ==> (id >= 0 ==> deeds_of(t, w)[0] == DeedView::Dismiss(id as int)),
{
    if let Wish::SetIface { ip, running } = w {
        if !running && deeds_of(t, w).contains(DeedView::StartService) {
            let d = deeds_of(t, w);
            let k = choose|k: int| 0 <= k < d.len() && d[k] == DeedView::StartService;
            assert(k == 0 || k == 1);
        }
    }
}

} // verus!
