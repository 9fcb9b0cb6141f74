//! The metric strip: six figures, each with what it counts and why anyone cares.

use vstd::prelude::*;
use crate::status::card::{row, row_str, rows_view, Row, RowView};
use crate::status::figures::{bytes, bytes_text, dur, dur_text, num, num_text};
use crate::status::services::{moving_cls, rss_line, rss_text, sizes_fit, sizes_sum, sum_sizes};
use crate::text::{dec, followed, push_dec};

verus! {

/// What the library tile counts.
pub const LIBRARY_IS: &'static str = "Total bytes of the media files Tulipix has indexed — photos, videos, music and books added together. Files still on disk only; anything the index has flagged as missing is left out.";
/// Why the library tile matters.
pub const LIBRARY_FOR: &'static str = "It is the size of what you would lose, and what a backup or a move to a bigger disk has to carry. It grows when you add folders, never because Tulipix itself stored something.";
/// What the databases tile counts.
pub const DATABASES_IS: &'static str = "Tulipix's own index files — one SQLite database per section, holding metadata, thumbnails' bookkeeping, play history, ratings and settings. Not your media, which is never copied into them.";
/// Why the databases tile matters.
pub const DATABASES_FOR: &'static str = "This is the part that a reset erases and a rescan rebuilds. It is normally a rounding error next to the library; if it is not, something is retaining far more history than it should.";
/// What the queue tile counts.
pub const QUEUE_IS: &'static str = "Background work from the Tools section — conversions, transcodes, downloads — plus any file moving over Transfer. The big number is running right now; the line under it is what errored in the last 24 hours.";
/// Why the queue tile matters.
pub const QUEUE_FOR: &'static str = "A queue that never drains, or a failure count that keeps climbing, is the first sign a bundled binary went missing.";
/// What the cloud tile counts.
pub const CLOUD_IS: &'static str = "How many configured rclone remotes are currently mounted and reachable.";
/// Why the cloud tile matters.
pub const CLOUD_FOR: &'static str = "A remote that is configured but not mounted is a folder that silently is not there — which looks exactly like an empty folder until you go looking for a file.";
/// What the podcasts tile counts.
pub const PODCASTS_IS: &'static str = "Podcast feeds you subscribe to, and saved radio stations. Both live outside the music library — they are subscriptions, not files.";
/// Why the podcasts tile matters.
pub const PODCASTS_FOR: &'static str = "They are the two things in Music that survive a library rescan, because nothing about them is on your disk to rescan.";
/// What the session tile counts.
pub const SESSION_IS: &'static str = "How long this Tulipix process has been running, and how much memory it currently holds (resident set size).";
/// Why the session tile matters.
pub const SESSION_FOR: &'static str = "Memory that only ever climbs across a long session is a leak; memory that settles is not. One reading tells you nothing — the point of showing it with an uptime is the pair.";

/// One tile, with its explanation.
#[derive(Debug)]
pub struct Metric {
    pub label: String,
    pub value: String,
    pub note: String,
    pub accent: String,
    pub counts: String,
    pub matters: String,
    pub rows: Vec<Row>,
}

/// What a tile reads.
#[verifier::ext_equal]
pub struct MetricView {
    pub label: Seq<char>,
    pub value: Seq<char>,
    pub note: Seq<char>,
    pub accent: Seq<char>,
    pub counts: Seq<char>,
    pub matters: Seq<char>,
    pub rows: Seq<RowView>,
}

impl View for Metric {
    type V = MetricView;

    open spec fn view(&self) -> MetricView {
        MetricView {
            label: self.label@,
            value: self.value@,
            note: self.note@,
            accent: self.accent@,
            counts: self.counts@,
            matters: self.matters@,
            rows: rows_view(self.rows@),
        }
    }
}

/// What tiles read.
pub open spec fn metrics_view(v: Seq<Metric>) -> Seq<MetricView> {
    Seq::new(v.len(), |i: int| v[i]@)
}

fn metric(label: &str, value: String, note: String, accent: &str, counts: &str, matters: &str, rows: Vec<Row>) -> (r: Metric)
    ensures
        r@ == (MetricView {
            label: label@,
            value: value@,
            note: note@,
            accent: accent@,
            counts: counts@,
            matters: matters@,
            rows: rows_view(rows@),
        }),
{
    Metric {
        label: label.to_owned(),
        value,
        note,
        accent: accent.to_owned(),
        counts: counts.to_owned(),
        matters: matters.to_owned(),
        rows,
    }
}

/// One row for each database and its size.
pub open spec fn db_rows(dbs: Seq<(String, i64)>) -> Seq<RowView> {
    Seq::new(dbs.len(), |i: int| (dbs[i].0@, bytes_text(dbs[i].1 as int), ""@))
}

fn rows_of_dbs(dbs: &Vec<(String, i64)>) -> (r: Vec<Row>)
    ensures
        rows_view(r@) == db_rows(dbs@),
{
    let mut out: Vec<Row> = Vec::new();
    let mut i: usize = 0;
    while i < dbs.len()
        invariant
            i <= dbs@.len(),
            out@.len() == i,
            forall|j: int| 0 <= j < i ==> (#[trigger] out@[j])@ == db_rows(dbs@)[j],
        decreases dbs@.len() - i,
    {
        out.push(row(dbs[i].0.as_str(), bytes(dbs[i].1), ""));
        i = i + 1;
    }
    assert(rows_view(out@) =~= db_rows(dbs@));
    out
}

/// The figures that the strip shows.
#[derive(Debug)]
pub struct MetricFacts {
    pub lib_bytes: i64,
    pub dbs: Vec<(String, i64)>,
    pub jobs_running: i64,
    pub jobs_failed: i64,
    pub cloud_status: String,
    pub podcasts: i64,
    pub radio: i64,
    pub uptime_s: i64,
    pub rss: i64,
}

/// The metric strip.
pub open spec fn strip(f: MetricFacts) -> Seq<MetricView> {
    seq![
        MetricView {
            label: "Library"@,
            value: bytes_text(f.lib_bytes as int),
            note: "across all sections"@,
            accent: "emerald"@,
            counts: LIBRARY_IS@,
            matters: LIBRARY_FOR@,
            rows: seq![
                ("Indexed size"@, bytes_text(f.lib_bytes as int), ""@),
                ("Where it lives"@, "your watched folders, untouched"@, "mut"@),
            ],
        },
        MetricView {
            label: "Databases"@,
            value: dec(f.dbs@.len()) + " files"@,
            note: bytes_text(sizes_sum(f.dbs@)),
            accent: "indigo"@,
            counts: DATABASES_IS@,
            matters: DATABASES_FOR@,
            rows: db_rows(f.dbs@),
        },
        MetricView {
            label: "Job queue"@,
            value: num_text(f.jobs_running as int),
            note: num_text(f.jobs_failed as int) + " failed 24h"@,
            accent: "cyan"@,
            counts: QUEUE_IS@,
            matters: QUEUE_FOR@,
            rows: seq![
                ("Running now"@, num_text(f.jobs_running as int), moving_cls(f.jobs_running as int)),
                ("Failed 24h"@, num_text(f.jobs_failed as int), if f.jobs_failed > 0 { "rd"@ } else { "g"@ }),
            ],
        },
        MetricView {
            label: "Cloud"@,
            value: f.cloud_status@,
            note: "rclone remotes"@,
            accent: "teal"@,
            counts: CLOUD_IS@,
            matters: CLOUD_FOR@,
            rows: seq![("Remotes"@, f.cloud_status@, ""@)],
        },
        MetricView {
            label: "Podcasts · Radio"@,
            value: num_text(f.podcasts as int) + " · "@ + num_text(f.radio as int),
            note: "subscribed · stations"@,
            accent: "violet"@,
            counts: PODCASTS_IS@,
            matters: PODCASTS_FOR@,
            rows: seq![
                ("Podcast feeds"@, num_text(f.podcasts as int), ""@),
                ("Radio stations"@, num_text(f.radio as int), ""@),
            ],
        },
        MetricView {
            label: "Session"@,
            value: dur_text(f.uptime_s as int),
            note: if f.rss > 0 { "RSS "@ + bytes_text(f.rss as int) } else { "—"@ },
            accent: "orange"@,
            counts: SESSION_IS@,
            matters: SESSION_FOR@,
            rows: seq![
                ("Uptime"@, dur_text(f.uptime_s as int), ""@),
                ("Memory (RSS)"@, rss_text(f.rss as int), if f.rss > 0 { ""@ } else { "mut"@ }),
            ],
        },
    ]
}

/// See [`strip`].
pub fn metrics(f: &MetricFacts) -> (r: Vec<Metric>)
    requires
        sizes_fit(f.dbs@),
    ensures
        metrics_view(r@) == strip(*f),
{
    let mut files = String::new();
    push_dec(&mut files, f.dbs.len() as u64);
    assert(files@ =~= dec(f.dbs@.len()));
    let session = if f.rss > 0 {
        let mut s = "RSS ".to_owned();
        s.append(bytes(f.rss).as_str());
        s
    } else {
        "—".to_owned()
    };
    let mut subs = followed(num(f.podcasts), " · ");
    subs.append(num(f.radio).as_str());
    let r = vec![
        metric(
            "Library",
            bytes(f.lib_bytes),
            "across all sections".to_owned(),
            "emerald",
            LIBRARY_IS,
            LIBRARY_FOR,
            vec![
                row("Indexed size", bytes(f.lib_bytes), ""),
                row_str("Where it lives", "your watched folders, untouched", "mut"),
            ],
        ),
        metric(
            "Databases",
            followed(files, " files"),
            bytes(sum_sizes(&f.dbs)),
            "indigo",
            DATABASES_IS,
            DATABASES_FOR,
            rows_of_dbs(&f.dbs),
        ),
        metric(
            "Job queue",
            num(f.jobs_running),
            followed(num(f.jobs_failed), " failed 24h"),
            "cyan",
            QUEUE_IS,
            QUEUE_FOR,
            vec![
                row("Running now", num(f.jobs_running), if f.jobs_running > 0 { "o" } else { "mut" }),
                row("Failed 24h", num(f.jobs_failed), if f.jobs_failed > 0 { "rd" } else { "g" }),
            ],
        ),
        metric(
            "Cloud",
            f.cloud_status.clone(),
            "rclone remotes".to_owned(),
            "teal",
            CLOUD_IS,
            CLOUD_FOR,
            vec![row("Remotes", f.cloud_status.clone(), "")],
        ),
        metric(
            "Podcasts · Radio",
            subs,
            "subscribed · stations".to_owned(),
            "violet",
            PODCASTS_IS,
            PODCASTS_FOR,
            vec![row("Podcast feeds", num(f.podcasts), ""), row("Radio stations", num(f.radio), "")],
        ),
        metric(
            "Session",
            dur(f.uptime_s),
            session,
            "orange",
            SESSION_IS,
            SESSION_FOR,
            vec![
                row("Uptime", dur(f.uptime_s), ""),
                row("Memory (RSS)", rss_line(f.rss), if f.rss > 0 { "" } else { "mut" }),
            ],
        ),
    ];
    assert(metrics_view(r@) =~~= strip(*f));
    r
}

/// The strip counts the library, the databases, the queue, the cloud, the feeds and the
/// session, one tile each in this order, and each tile says its figure.
pub proof fn law_the_strip_has_its_six_tiles(f: MetricFacts)
    ensures
        ({
            let s = strip(f);
            &&& s.len() == 6
            &&& s[0].label == "Library"@ && s[0].value == bytes_text(f.lib_bytes as int)
            &&& s[1].label == "Databases"@ && s[1].value == dec(f.dbs@.len()) + " files"@ && s[1].note == bytes_text(sizes_sum(f.dbs@))
            &&& s[1].rows.len() == f.dbs@.len() && forall|i: int|
                0 <= i < f.dbs@.len() ==> #[trigger] s[1].rows[i] == (f.dbs@[i].0@, bytes_text(f.dbs@[i].1 as int), ""@)
            &&& s[2].label == "Job queue"@ && s[2].value == num_text(f.jobs_running as int) && s[2].note == num_text(f.jobs_failed as int) + " failed 24h"@
            &&& s[2].rows[1].2 == (if f.jobs_failed > 0 { "rd"@ } else { "g"@ })
            &&& s[3].label == "Cloud"@ && s[3].value == f.cloud_status@
            &&& s[4].label == "Podcasts · Radio"@ && s[4].value == num_text(f.podcasts as int) + " · "@ + num_text(f.radio as int)
            &&& s[5].label == "Session"@ && s[5].value == dur_text(f.uptime_s as int)
            &&& f.rss > 0 ==> s[5].note == "RSS "@ + bytes_text(f.rss as int)
            &&& f.rss <= 0 ==> s[5].note == "—"@
        }),
{
}

} // verus!
