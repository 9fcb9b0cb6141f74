//! The operations that the tool runner offers, by category, and what each says
//! of itself.

use vstd::prelude::*;
use crate::order::{lemma_rising_push, rising};
use crate::find::{contains, has};
use crate::outside::{lowercase, to_lowercase};
use crate::text::{same, trim, trimmed, views};

verus! {

/// One operation: what its button reads and the kind of job that it starts.
#[derive(Debug)]
pub struct Op {
    pub label: &'static str,
    pub kind: &'static str,
}

/// One category of operations.
#[derive(Debug)]
pub struct Category {
    pub key: &'static str,
    pub title: &'static str,
    pub icon: &'static str,
    pub ops: Vec<Op>,
}

/// What a category holds: key, title, icon, and label and kind of each operation.
pub type CategoryView = (Seq<char>, Seq<char>, Seq<char>, Seq<(Seq<char>, Seq<char>)>);

impl View for Op {
    type V = (Seq<char>, Seq<char>);

    open spec fn view(&self) -> Self::V {
        (self.label@, self.kind@)
    }
}

impl View for Category {
    type V = CategoryView;

    open spec fn view(&self) -> Self::V {
        (self.key@, self.title@, self.icon@, Seq::new(self.ops@.len(), |i: int| self.ops@[i]@))
    }
}

/// The categories as they are.
pub open spec fn categories_view(v: Seq<Category>) -> Seq<CategoryView> {
    Seq::new(v.len(), |i: int| v[i]@)
}

/// The operations of "File ops".
pub open spec fn fileops_ops() -> CategoryView {
    (
        "fileops"@,
        "File ops"@,
        "📁"@,
        seq![
            ("Rename"@, "rename"@),
            ("Merge"@, "merge"@),
            ("Split"@, "split"@),
            ("Hash"@, "hash"@),
            ("Folder diff"@, "folder_diff"@),
            ("Media info"@, "mediainfo"@),
            ("Clean cache"@, "cache_clean"@),
        ],
    )
}

fn fileops_category() -> (r: Category)
    ensures
        r@ == fileops_ops(),
{
    let r = Category {
        key: "fileops",
        title: "File ops",
        icon: "📁",
        ops: vec![
            Op { label: "Rename", kind: "rename" },
            Op { label: "Merge", kind: "merge" },
            Op { label: "Split", kind: "split" },
            Op { label: "Hash", kind: "hash" },
            Op { label: "Folder diff", kind: "folder_diff" },
            Op { label: "Media info", kind: "mediainfo" },
            Op { label: "Clean cache", kind: "cache_clean" },
        ],
    };
    assert(r@.3 =~= fileops_ops().3);
    r
}

/// The operations of "Video".
pub open spec fn video_ops() -> CategoryView {
    (
        "video"@,
        "Video"@,
        "🎬"@,
        seq![
            ("Compress video"@, "compress_video"@),
            ("Trim"@, "trim"@),
            ("Convert"@, "convert"@),
            ("Thumbnail"@, "thumbnail"@),
            ("Contact sheet"@, "contact_sheet"@),
            ("Download"@, "download"@),
            ("Playlist download"@, "download_playlist"@),
            ("Live record"@, "download_live"@),
        ],
    )
}

fn video_category() -> (r: Category)
    ensures
        r@ == video_ops(),
{
    let r = Category {
        key: "video",
        title: "Video",
        icon: "🎬",
        ops: vec![
            Op { label: "Compress video", kind: "compress_video" },
            Op { label: "Trim", kind: "trim" },
            Op { label: "Convert", kind: "convert" },
            Op { label: "Thumbnail", kind: "thumbnail" },
            Op { label: "Contact sheet", kind: "contact_sheet" },
            Op { label: "Download", kind: "download" },
            Op { label: "Playlist download", kind: "download_playlist" },
            Op { label: "Live record", kind: "download_live" },
        ],
    };
    assert(r@.3 =~= video_ops().3);
    r
}

/// The operations of "Audio".
pub open spec fn audio_ops() -> CategoryView {
    (
        "audio"@,
        "Audio"@,
        "🎵"@,
        seq![
            ("Compress audio"@, "compress_audio"@),
            ("Normalise (R128)"@, "normalize"@),
            ("Extract audio"@, "extract"@),
        ],
    )
}

fn audio_category() -> (r: Category)
    ensures
        r@ == audio_ops(),
{
    let r = Category {
        key: "audio",
        title: "Audio",
        icon: "🎵",
        ops: vec![
            Op { label: "Compress audio", kind: "compress_audio" },
            Op { label: "Normalise (R128)", kind: "normalize" },
            Op { label: "Extract audio", kind: "extract" },
        ],
    };
    assert(r@.3 =~= audio_ops().3);
    r
}

/// The operations of "Photo".
pub open spec fn photo_ops() -> CategoryView {
    (
        "photo"@,
        "Photo"@,
        "🖼"@,
        seq![
            ("Compress photo"@, "compress_photo"@),
            ("Resize"@, "resize"@),
            ("Watermark"@, "watermark"@),
        ],
    )
}

fn photo_category() -> (r: Category)
    ensures
        r@ == photo_ops(),
{
    let r = Category {
        key: "photo",
        title: "Photo",
        icon: "🖼",
        ops: vec![
            Op { label: "Compress photo", kind: "compress_photo" },
            Op { label: "Resize", kind: "resize" },
            Op { label: "Watermark", kind: "watermark" },
        ],
    };
    assert(r@.3 =~= photo_ops().3);
    r
}

/// The operations of "Subtitles".
pub open spec fn subs_ops() -> CategoryView {
    (
        "subs"@,
        "Subtitles"@,
        "💬"@,
        seq![
            ("Transcribe"@, "transcribe"@),
            ("Burn-in subtitles"@, "burn_subs"@),
        ],
    )
}

fn subs_category() -> (r: Category)
    ensures
        r@ == subs_ops(),
{
    let r = Category {
        key: "subs",
        title: "Subtitles",
        icon: "💬",
        ops: vec![
            Op { label: "Transcribe", kind: "transcribe" },
            Op { label: "Burn-in subtitles", kind: "burn_subs" },
        ],
    };
    assert(r@.3 =~= subs_ops().3);
    r
}

/// The whole catalog.
pub open spec fn catalog_view() -> Seq<CategoryView> {
    seq![fileops_ops(), video_ops(), audio_ops(), photo_ops(), subs_ops()]
}

/// See [`catalog_view`].
pub fn catalog() -> (r: Vec<Category>)
    ensures
        categories_view(r@) == catalog_view(),
{
    let r = vec![fileops_category(), video_category(), audio_category(), photo_category(), subs_category()];
    assert(categories_view(r@) =~= catalog_view());
    r
}

/// How many operations some categories offer together.
pub open spec fn ops_in(c: Seq<CategoryView>) -> nat
    decreases c.len(),
{
    if c.len() == 0 {
        0
    } else {
        ops_in(c.drop_last()) + c.last().3.len()
    }
}

/// How many operations the catalog offers, across every category.
pub fn op_total() -> (r: usize)
    ensures
        r == ops_in(catalog_view()),
        r == 23,
{
    let c = catalog();
    let ghost all = categories_view(c@);
    proof {
        assert(all.len() == 5);
        assert(all.take(5) =~= all);
        assert(all.take(0) =~= Seq::<CategoryView>::empty());
        assert(all.take(1).drop_last() =~= all.take(0));
        assert(all.take(2).drop_last() =~= all.take(1));
        assert(all.take(3).drop_last() =~= all.take(2));
        assert(all.take(4).drop_last() =~= all.take(3));
        assert(all.take(5).drop_last() =~= all.take(4));
        assert(all.take(1).last() == fileops_ops() && fileops_ops().3.len() == 7);
        assert(all.take(2).last() == video_ops() && video_ops().3.len() == 8);
        assert(all.take(3).last() == audio_ops() && audio_ops().3.len() == 3);
        assert(all.take(4).last() == photo_ops() && photo_ops().3.len() == 3);
        assert(all.take(5).last() == subs_ops() && subs_ops().3.len() == 2);
        assert(ops_in(all.take(0)) == 0);
        assert(ops_in(all.take(1)) == 7);
        assert(ops_in(all.take(2)) == 15);
        assert(ops_in(all.take(3)) == 18);
        assert(ops_in(all.take(4)) == 21);
        assert(ops_in(all.take(5)) == 23);
    }
    let mut n: usize = 0;
    let mut i: usize = 0;
    while i < c.len()
        invariant
            i <= c@.len(),
            c@.len() == 5,
            all == categories_view(c@),
            all == catalog_view(),
            n == ops_in(all.take(i as int)),
            n <= 8 * i,
        decreases c@.len() - i,
    {
        assert(all.take(i + 1).drop_last() =~= all.take(i as int));
        assert(all[i as int] == c@[i as int]@);
        assert(all[i as int].3.len() <= 8);
        n = n + c[i].ops.len();
        i = i + 1;
    }
    assert(all.take(5) =~= all);
    n
}

/// A row of the list of operations: the title of its category, its label and its
/// kind.
#[derive(Debug)]
pub struct ToolOpRow {
    pub cat: String,
    pub label: String,
    pub kind: String,
}

impl View for ToolOpRow {
    type V = (Seq<char>, Seq<char>, Seq<char>);

    open spec fn view(&self) -> Self::V {
        (self.cat@, self.label@, self.kind@)
    }
}

/// The rows as they read.
pub open spec fn rows_view(v: Seq<ToolOpRow>) -> Seq<(Seq<char>, Seq<char>, Seq<char>)> {
    Seq::new(v.len(), |i: int| v[i]@)
}

/// The rows of one category's operations.
pub open spec fn rows_of(c: CategoryView) -> Seq<(Seq<char>, Seq<char>, Seq<char>)> {
    Seq::new(c.3.len(), |i: int| (c.1, c.3[i].0, c.3[i].1))
}

/// The rows of every operation, category by category.
pub open spec fn all_rows(c: Seq<CategoryView>) -> Seq<(Seq<char>, Seq<char>, Seq<char>)>
    decreases c.len(),
{
    if c.len() == 0 {
        Seq::empty()
    } else {
        all_rows(c.drop_last()) + rows_of(c.last())
    }
}

/// Of the rows those whose label, in the spelling that `lowered` gives it, holds
/// `q`.
pub open spec fn rows_with(
    rows: Seq<(Seq<char>, Seq<char>, Seq<char>)>,
    lowered: Seq<Seq<char>>,
    q: Seq<char>,
) -> Seq<(Seq<char>, Seq<char>, Seq<char>)>
    decreases rows.len(),
{
    if rows.len() == 0 {
        Seq::empty()
    } else {
        let rest = rows_with(rows.drop_last(), lowered, q);
        if has(lowered[rows.len() - 1], q) { rest.push(rows.last()) } else { rest }
    }
}

/// The labels of some rows in lowercase.
pub open spec fn lowered_labels(rows: Seq<(Seq<char>, Seq<char>, Seq<char>)>) -> Seq<Seq<char>> {
    Seq::new(rows.len(), |i: int| lowercase(rows[i].1))
}

fn push_rows(out: &mut Vec<ToolOpRow>, c: &Category)
    ensures
        rows_view(final(out)@) == rows_view(old(out)@) + rows_of(c@),
{
    let ghost base = rows_view(out@);
    let mut i: usize = 0;
    assert(rows_of(c@).take(0) =~= Seq::<(Seq<char>, Seq<char>, Seq<char>)>::empty());
    assert(base + rows_of(c@).take(0) =~= base);
    while i < c.ops.len()
        invariant
            i <= c.ops@.len(),
            rows_view(out@) == base + rows_of(c@).take(i as int),
        decreases c.ops@.len() - i,
    {
        let ghost was = rows_view(out@);
        let row = ToolOpRow {
            cat: c.title.to_owned(),
            label: c.ops[i].label.to_owned(),
            kind: c.ops[i].kind.to_owned(),
        };
        assert(row@ == rows_of(c@)[i as int]);
        out.push(row);
        assert(rows_view(out@) =~= was.push(rows_of(c@)[i as int]));
        assert(rows_view(out@) =~= base + rows_of(c@).take(i + 1));
        i = i + 1;
    }
    assert(rows_of(c@).take(i as int) =~= rows_of(c@));
}

/// Every operation of the catalog as a row.
pub fn every_row() -> (r: Vec<ToolOpRow>)
    ensures
        rows_view(r@) == all_rows(catalog_view()),
{
    let c = catalog();
    let ghost all = categories_view(c@);
    let mut out: Vec<ToolOpRow> = Vec::new();
    let mut i: usize = 0;
    assert(all.take(0) =~= Seq::<CategoryView>::empty());
    assert(rows_view(out@) =~= Seq::<(Seq<char>, Seq<char>, Seq<char>)>::empty());
    while i < c.len()
        invariant
            i <= c@.len(),
            all == categories_view(c@),
            rows_view(out@) == all_rows(all.take(i as int)),
        decreases c@.len() - i,
    {
        assert(all.take(i + 1).drop_last() =~= all.take(i as int));
        assert(all[i as int] == c@[i as int]@);
        push_rows(&mut out, &c[i]);
        i = i + 1;
    }
    assert(all.take(i as int) =~= all);
    out
}

/// The rows that a search shows, the labels' lowercase spellings given.
pub fn search_rows(q: &str, lowered: &Vec<String>) -> (r: Vec<ToolOpRow>)
    requires
        lowered@.len() == all_rows(catalog_view()).len(),
    ensures
        rows_view(r@) == rows_with(all_rows(catalog_view()), views(lowered@), q@),
{
    let rows = every_row();
    let ghost all = rows_view(rows@);
    let mut out: Vec<ToolOpRow> = Vec::new();
    let mut i: usize = 0;
    assert(all.take(0) =~= Seq::<(Seq<char>, Seq<char>, Seq<char>)>::empty());
    assert(rows_view(out@) =~= Seq::<(Seq<char>, Seq<char>, Seq<char>)>::empty());
    while i < rows.len()
        invariant
            i <= rows@.len(),
            rows@.len() == lowered@.len(),
            all == rows_view(rows@),
            rows_view(out@) == rows_with(all.take(i as int), views(lowered@), q@),
        decreases rows@.len() - i,
    {
        assert(all.take(i + 1).drop_last() =~= all.take(i as int));
        assert(all.take(i + 1).last() == rows@[i as int]@);
        assert(views(lowered@)[i as int] == lowered@[i as int]@);
        if contains(lowered[i].as_str(), q) {
            let ghost was = rows_view(out@);
            let row = ToolOpRow {
                cat: rows[i].cat.clone(),
                label: rows[i].label.clone(),
                kind: rows[i].kind.clone(),
            };
            out.push(row);
            assert(rows_view(out@) =~= was.push(rows@[i as int]@));
        }
        i = i + 1;
    }
    assert(all.take(i as int) =~= all);
    out
}

/// The first category under a key.
pub open spec fn category_at(c: Seq<CategoryView>, key: Seq<char>) -> Option<CategoryView>
    decreases c.len(),
{
    if c.len() == 0 {
        None
    } else if c[0].0 == key {
        Some(c[0])
    } else {
        category_at(c.skip(1), key)
    }
}

/// What the list of operations shows. The heading is changed only where a
/// category is shown.
#[derive(Debug)]
pub struct Listing {
    pub heading: Option<(String, String)>,
    pub rows: Vec<ToolOpRow>,
}

/// What the list of operations shows for a category and a query: a query that is
/// not blank goes over every category.
pub open spec fn listing_view(category: Seq<char>, query: Seq<char>) -> (
    Option<(Seq<char>, Seq<char>)>,
    Seq<(Seq<char>, Seq<char>, Seq<char>)>,
) {
    let q = lowercase(trim(query));
    if q.len() == 0 {
        match category_at(catalog_view(), category) {
            Some(c) => (Some((c.1, c.2)), rows_of(c)),
            None => (None, Seq::empty()),
        }
    } else {
        let rows = all_rows(catalog_view());
        (None, rows_with(rows, lowered_labels(rows), q))
    }
}

impl View for Listing {
    type V = (Option<(Seq<char>, Seq<char>)>, Seq<(Seq<char>, Seq<char>, Seq<char>)>);

    open spec fn view(&self) -> Self::V {
        (
            match self.heading {
                Some((title, icon)) => Some((title@, icon@)),
                None => None,
            },
            rows_view(self.rows@),
        )
    }
}

fn lower_labels(rows: &Vec<ToolOpRow>) -> (r: Vec<String>)
    ensures
        views(r@) == lowered_labels(rows_view(rows@)),
        r@.len() == rows@.len(),
{
    let mut out: Vec<String> = Vec::new();
    let mut i: usize = 0;
    while i < rows.len()
        invariant
            i <= rows@.len(),
            out@.len() == i,
            forall|j: int| 0 <= j < i ==> (#[trigger] out@[j])@ == lowercase(rows@[j].label@),
        decreases rows@.len() - i,
    {
        out.push(to_lowercase(rows[i].label.as_str()));
        i = i + 1;
    }
    assert(views(out@) =~= lowered_labels(rows_view(rows@)));
    out
}

/// The operations of one category.
pub fn category_listing(category: &str) -> (r: Listing)
    ensures
        r@ == (match category_at(catalog_view(), category@) {
            Some(c) => (Some((c.1, c.2)), rows_of(c)),
            None => (None, Seq::empty()),
        }),
{
    let c = catalog();
    let ghost all = categories_view(c@);
    let mut i: usize = 0;
    assert(all.skip(0) =~= all);
    while i < c.len()
        invariant
            i <= c@.len(),
            all == categories_view(c@),
            all == catalog_view(),
            category_at(all, category@) == category_at(all.skip(i as int), category@),
        decreases c@.len() - i,
    {
        assert(all.skip(i as int)[0] == c@[i as int]@);
        assert(all.skip(i as int).skip(1) =~= all.skip(i + 1));
        if same(c[i].key, category) {
            let mut rows: Vec<ToolOpRow> = Vec::new();
            push_rows(&mut rows, &c[i]);
            assert(rows_view(rows@) =~= rows_of(c@[i as int]@));
            return Listing { heading: Some((c[i].title.to_owned(), c[i].icon.to_owned())), rows };
        }
        i = i + 1;
    }
    let rows: Vec<ToolOpRow> = Vec::new();
    assert(rows_view(rows@) =~= Seq::<(Seq<char>, Seq<char>, Seq<char>)>::empty());
    Listing { heading: None, rows }
}

/// See [`listing_view`].
pub fn tools_refresh(category: &str, query: &str) -> (r: Listing)
    ensures
        r@ == listing_view(category@, query@),
{
    let q = to_lowercase(trimmed(query).as_str());
    if q.as_str().is_empty() {
        return category_listing(category);
    }
    let rows = every_row();
    let lowered = lower_labels(&rows);
    Listing { heading: None, rows: search_rows(q.as_str(), &lowered) }
}

/// What the job `compress_video` does and how to use it.
pub const INFO_COMPRESS_VIDEO: &'static str = "Shrinks a video's file size by re-encoding it at a chosen quality. CRF (Constant Rate Factor) is the quality dial: the encoder keeps a constant visual quality and lets the bitrate vary to hit it. LOWER CRF = higher quality + bigger file; HIGHER CRF = smaller file + more quality loss. Each +6 roughly halves the size. Sweet spots: ~18 visually lossless, ~23 default, ~28 small. Pick the source video, set the CRF, then Run — the smaller copy is written beside the original.";

/// What the job `compress_audio` does and how to use it.
pub const INFO_COMPRESS_AUDIO: &'static str = "Re-encodes an audio file to a smaller size at a target bitrate. Choose the file and bitrate, then Run; the compressed copy lands beside the source.";

/// What the job `compress_photo` does and how to use it.
pub const INFO_COMPRESS_PHOTO: &'static str = "Reduces an image's file size by re-encoding it. Pick the photo and quality, then Run — a lighter copy is saved next to it.";

/// What the job `convert` does and how to use it.
pub const INFO_CONVERT: &'static str = "Converts a media file from one container/codec to another. Choose the file and the target format, then Run.";

/// What the job `trim` does and how to use it.
pub const INFO_TRIM: &'static str = "Cuts a clip out of a video between a start and end time without re-encoding where possible. Pick the file, set start/end, then Run.";

/// What the job `resize` does and how to use it.
pub const INFO_RESIZE: &'static str = "Scales a video or image to a new resolution. Pick the file, set the target width/height, then Run.";

/// What the job `thumbnail` does and how to use it.
pub const INFO_THUMBNAIL: &'static str = "Grabs a single still frame from a video as an image. Pick the video and the timestamp, then Run.";

/// What the job `extract` does and how to use it.
pub const INFO_EXTRACT: &'static str = "Pulls the audio track out of a video into a standalone audio file. Pick the video, choose the audio format, then Run.";

/// What the job `normalize` does and how to use it.
pub const INFO_NORMALIZE: &'static str = "Levels a file's loudness to a standard target (EBU R128) so playback volume is consistent. Pick the file, then Run.";

/// What the job `watermark` does and how to use it.
pub const INFO_WATERMARK: &'static str = "Overlays an image or text watermark onto a video. Pick the video and the watermark, position it, then Run.";

/// What the job `burn_subs` does and how to use it.
pub const INFO_BURN_SUBS: &'static str = "Permanently renders a subtitle file into the video picture. Pick the video and the .srt/.ass, then Run.";

/// What the job `split` does and how to use it.
pub const INFO_SPLIT: &'static str = "Splits one media file into multiple parts (by time or chapters). Pick the file, set how to split, then Run.";

/// What the job `merge` does and how to use it.
pub const INFO_MERGE: &'static str = "Joins several media files of the same type into one. Add the files in order, then Run to concatenate them.";

/// What the job `download` does and how to use it.
pub const INFO_DOWNLOAD: &'static str = "Downloads a single video/audio from a URL via yt-dlp. Paste the link, pick a format, then Run.";

/// What the job `download_playlist` does and how to use it.
pub const INFO_DOWNLOAD_PLAYLIST: &'static str = "Downloads an entire playlist via yt-dlp. Paste the playlist URL, choose a format, then Run — items queue up one by one.";

/// What the job `download_live` does and how to use it.
pub const INFO_DOWNLOAD_LIVE: &'static str = "Records a live stream to disk via yt-dlp. Paste the stream URL, then Run; press Cancel on the queue row to stop — the recording is finalized and kept.";

/// What the job `hash` does and how to use it.
pub const INFO_HASH: &'static str = "Computes checksums (e.g. SHA-256) for a file so you can verify its integrity. Pick the file, then Run; the digest shows in the queue row.";

/// What the job `folder_diff` does and how to use it.
pub const INFO_FOLDER_DIFF: &'static str = "Compares two folders and reports which files are added, removed, or changed between them. Choose folder A and folder B, then Run — the differences are listed in the result.";

/// What the job `rename` does and how to use it.
pub const INFO_RENAME: &'static str = "Batch-renames files in a folder using a pattern. Pick the folder, set the naming pattern, then Run.";

/// What the job `transcribe` does and how to use it.
pub const INFO_TRANSCRIBE: &'static str = "Transcribes speech in an audio/video file to an SRT subtitle using Whisper. Leave language on auto-detect or pick one; flip \"Translate to English\" to turn any language straight into English subtitles. Pick the file, then Run.";

/// What the job `mediainfo` does and how to use it.
pub const INFO_MEDIAINFO: &'static str = "Reports detailed technical metadata (codecs, bitrate, streams, duration) for a media file. Pick the file, then Run — the report appears in the queue row.";

/// What the job `contact_sheet` does and how to use it.
pub const INFO_CONTACT_SHEET: &'static str = "Builds a grid of thumbnails sampled across a video (a contact sheet). Pick the video, set the grid size, then Run.";

/// What the job `cache_clean` does and how to use it.
pub const INFO_CACHE_CLEAN: &'static str = "Clears Tulipix's thumbnail cache to reclaim disk space. Thumbnails regenerate on demand the next time you browse. Just Run.";

/// What a job of some kind is called in the queue.
pub open spec fn label_of(kind: Seq<char>) -> Seq<char> {
    if kind == "compress_video"@ {
        "Compress video"@
    } else if kind == "compress_audio"@ {
        "Compress audio"@
    } else if kind == "compress_photo"@ {
        "Compress photo"@
    } else if kind == "convert"@ {
        "Convert"@
    } else if kind == "trim"@ {
        "Trim"@
    } else if kind == "resize"@ {
        "Resize"@
    } else if kind == "thumbnail"@ {
        "Thumbnail"@
    } else if kind == "extract"@ {
        "Extract audio"@
    } else if kind == "normalize"@ {
        "Normalise"@
    } else if kind == "watermark"@ {
        "Watermark"@
    } else if kind == "burn_subs"@ {
        "Burn subtitles"@
    } else if kind == "split"@ {
        "Split"@
    } else if kind == "merge"@ {
        "Merge"@
    } else if kind == "download"@ {
        "Download"@
    } else if kind == "download_playlist"@ {
        "Playlist download"@
    } else if kind == "download_live"@ {
        "Live record"@
    } else if kind == "hash"@ {
        "Hash"@
    } else if kind == "folder_diff"@ {
        "Folder diff"@
    } else if kind == "rename"@ {
        "Rename"@
    } else if kind == "transcribe"@ {
        "Transcribe"@
    } else if kind == "mediainfo"@ {
        "Media info"@
    } else if kind == "contact_sheet"@ {
        "Contact sheet"@
    } else if kind == "cache_clean"@ {
        "Clean cache"@
    } else {
        "Job"@
    }
}

/// See [`label_of`].
pub fn tool_label(kind: &str) -> (r: &'static str)
    ensures
        r@ == label_of(kind@),
{
    if same(kind, "compress_video") {
        "Compress video"
    } else if same(kind, "compress_audio") {
        "Compress audio"
    } else if same(kind, "compress_photo") {
        "Compress photo"
    } else if same(kind, "convert") {
        "Convert"
    } else if same(kind, "trim") {
        "Trim"
    } else if same(kind, "resize") {
        "Resize"
    } else if same(kind, "thumbnail") {
        "Thumbnail"
    } else if same(kind, "extract") {
        "Extract audio"
    } else if same(kind, "normalize") {
        "Normalise"
    } else if same(kind, "watermark") {
        "Watermark"
    } else if same(kind, "burn_subs") {
        "Burn subtitles"
    } else if same(kind, "split") {
        "Split"
    } else if same(kind, "merge") {
        "Merge"
    } else if same(kind, "download") {
        "Download"
    } else if same(kind, "download_playlist") {
        "Playlist download"
    } else if same(kind, "download_live") {
        "Live record"
    } else if same(kind, "hash") {
        "Hash"
    } else if same(kind, "folder_diff") {
        "Folder diff"
    } else if same(kind, "rename") {
        "Rename"
    } else if same(kind, "transcribe") {
        "Transcribe"
    } else if same(kind, "mediainfo") {
        "Media info"
    } else if same(kind, "contact_sheet") {
        "Contact sheet"
    } else if same(kind, "cache_clean") {
        "Clean cache"
    } else {
        "Job"
    }
}

/// The paragraph above a tool's form: what it does and how to use it.
pub open spec fn info_of(kind: Seq<char>) -> Seq<char> {
    if kind == "compress_video"@ {
        INFO_COMPRESS_VIDEO@
    } else if kind == "compress_audio"@ {
        INFO_COMPRESS_AUDIO@
    } else if kind == "compress_photo"@ {
        INFO_COMPRESS_PHOTO@
    } else if kind == "convert"@ {
        INFO_CONVERT@
    } else if kind == "trim"@ {
        INFO_TRIM@
    } else if kind == "resize"@ {
        INFO_RESIZE@
    } else if kind == "thumbnail"@ {
        INFO_THUMBNAIL@
    } else if kind == "extract"@ {
        INFO_EXTRACT@
    } else if kind == "normalize"@ {
        INFO_NORMALIZE@
    } else if kind == "watermark"@ {
        INFO_WATERMARK@
    } else if kind == "burn_subs"@ {
        INFO_BURN_SUBS@
    } else if kind == "split"@ {
        INFO_SPLIT@
    } else if kind == "merge"@ {
        INFO_MERGE@
    } else if kind == "download"@ {
        INFO_DOWNLOAD@
    } else if kind == "download_playlist"@ {
        INFO_DOWNLOAD_PLAYLIST@
    } else if kind == "download_live"@ {
        INFO_DOWNLOAD_LIVE@
    } else if kind == "hash"@ {
        INFO_HASH@
    } else if kind == "folder_diff"@ {
        INFO_FOLDER_DIFF@
    } else if kind == "rename"@ {
        INFO_RENAME@
    } else if kind == "transcribe"@ {
        INFO_TRANSCRIBE@
    } else if kind == "mediainfo"@ {
        INFO_MEDIAINFO@
    } else if kind == "contact_sheet"@ {
        INFO_CONTACT_SHEET@
    } else if kind == "cache_clean"@ {
        INFO_CACHE_CLEAN@
    } else {
        "Set the options below, then Run. Progress shows in the Queue tab."@
    }
}

/// See [`info_of`].
pub fn tool_info(kind: &str) -> (r: &'static str)
    ensures
        r@ == info_of(kind@),
{
    if same(kind, "compress_video") {
        INFO_COMPRESS_VIDEO
    } else if same(kind, "compress_audio") {
        INFO_COMPRESS_AUDIO
    } else if same(kind, "compress_photo") {
        INFO_COMPRESS_PHOTO
    } else if same(kind, "convert") {
        INFO_CONVERT
    } else if same(kind, "trim") {
        INFO_TRIM
    } else if same(kind, "resize") {
        INFO_RESIZE
    } else if same(kind, "thumbnail") {
        INFO_THUMBNAIL
    } else if same(kind, "extract") {
        INFO_EXTRACT
    } else if same(kind, "normalize") {
        INFO_NORMALIZE
    } else if same(kind, "watermark") {
        INFO_WATERMARK
    } else if same(kind, "burn_subs") {
        INFO_BURN_SUBS
    } else if same(kind, "split") {
        INFO_SPLIT
    } else if same(kind, "merge") {
        INFO_MERGE
    } else if same(kind, "download") {
        INFO_DOWNLOAD
    } else if same(kind, "download_playlist") {
        INFO_DOWNLOAD_PLAYLIST
    } else if same(kind, "download_live") {
        INFO_DOWNLOAD_LIVE
    } else if same(kind, "hash") {
        INFO_HASH
    } else if same(kind, "folder_diff") {
        INFO_FOLDER_DIFF
    } else if same(kind, "rename") {
        INFO_RENAME
    } else if same(kind, "transcribe") {
        INFO_TRANSCRIBE
    } else if same(kind, "mediainfo") {
        INFO_MEDIAINFO
    } else if same(kind, "contact_sheet") {
        INFO_CONTACT_SHEET
    } else if same(kind, "cache_clean") {
        INFO_CACHE_CLEAN
    } else {
        "Set the options below, then Run. Progress shows in the Queue tab."
    }
}

/// A query lists the operations whose label holds it, all of them and no other, in the
/// order of the catalog.
pub proof fn law_a_query_lists_what_holds_it(
    rows: Seq<(Seq<char>, Seq<char>, Seq<char>)>,
    lowered: Seq<Seq<char>>,
    q: Seq<char>,
) -> (idx: Seq<int>)
    ensures
        rising(idx),
        forall|i: int| #[trigger] idx.contains(i) <==> 0 <= i < rows.len() && has(lowered[i], q),
        rows_with(rows, lowered, q) == Seq::new(idx.len(), |k: int| rows[idx[k]]),
    decreases rows.len(),
{
    if rows.len() == 0 {
        Seq::empty()
    } else {
        let front = rows.drop_last();
        let n = front.len() as int;
        let before = law_a_query_lists_what_holds_it(front, lowered, q);
        assert forall|k: int| 0 <= k < before.len() implies 0 <= #[trigger] before[k] < n by {
            assert(before.contains(before[k]));
        }
        lemma_rising_push(before, n);
        let idx = if has(lowered[n], q) { before.push(n) } else { before };
        assert forall|i: int| #[trigger] idx.contains(i) <==> 0 <= i < rows.len() && has(lowered[i], q) by {
            if idx.contains(i) {
                let k = choose|k: int| 0 <= k < idx.len() && idx[k] == i;
                if k < before.len() {
                    assert(before.contains(before[k]));
                }
            }
            if before.contains(i) {
                let k = choose|k: int| 0 <= k < before.len() && before[k] == i;
                assert(idx[k] == i);
            }
            if i == n && has(lowered[n], q) {
                assert(idx[before.len() as int] == n);
            }
        }
        assert(rows_with(rows, lowered, q) =~= Seq::new(idx.len(), |k: int| rows[idx[k]]));
        idx
    }
}

/// Every operation of every category has its row, under the name of its category.
pub proof fn law_every_operation_has_its_row(c: Seq<CategoryView>, k: int, i: int)
    requires
        0 <= k < c.len(),
        0 <= i < c[k].3.len(),
    ensures
        all_rows(c).contains((c[k].1, c[k].3[i].0, c[k].3[i].1)),
        all_rows(c).len() == ops_in(c),
    decreases c.len(),
{
    let front = c.drop_last();
    let x = (c[k].1, c[k].3[i].0, c[k].3[i].1);
    lemma_all_rows_len(c);
    if k < front.len() {
        law_every_operation_has_its_row(front, k, i);
        let j = choose|j: int| 0 <= j < all_rows(front).len() && all_rows(front)[j] == x;
        assert(all_rows(c)[j] == x);
    } else {
        assert(rows_of(c.last())[i] == x);
        assert(all_rows(c)[all_rows(front).len() + i] == x);
    }
}

proof fn lemma_all_rows_len(c: Seq<CategoryView>)
    ensures
        all_rows(c).len() == ops_in(c),
    decreases c.len(),
{
    if c.len() > 0 {
        lemma_all_rows_len(c.drop_last());
    }
}

/// A category lists its own operations, and only a query goes over all.
pub proof fn law_a_category_lists_its_own(category: Seq<char>, query: Seq<char>)
    requires
        lowercase(trim(query)).len() == 0,
    ensures
        match category_at(catalog_view(), category) {
            Some(c) => listing_view(category, query).0 == Some((c.1, c.2)) && listing_view(category, query).1.len() == c.3.len()
                && forall|i: int| 0 <= i < c.3.len() ==> #[trigger] listing_view(category, query).1[i] == (c.1, c.3[i].0, c.3[i].1),
            None => listing_view(category, query).0 is None && listing_view(category, query).1.len() == 0,
        },
{
}

/// A category is the first of the catalog under its key.
pub proof fn law_a_category_is_found_by_its_key(c: Seq<CategoryView>, key: Seq<char>)
    ensures
        (exists|i: int|
            0 <= i < c.len() && (#[trigger] c[i]).0 == key && category_at(c, key) == Some(c[i]) && forall|j: int|
                0 <= j < i ==> !((#[trigger] c[j]).0 == key)) || ((forall|i: int| 0 <= i < c.len() ==> !((#[trigger] c[i]).0 == key)) && category_at(c, key) is None),
    decreases c.len(),
{
    if c.len() > 0 {
        if c[0].0 == key {
            assert(c[0].0 == key && category_at(c, key) == Some(c[0]));
        } else {
            let rest = c.skip(1);
            law_a_category_is_found_by_its_key(rest, key);
            assert forall|i: int| 0 <= i < rest.len() implies (#[trigger] rest[i]) == c[i + 1] by {}
            if exists|i: int|
            0 <= i < rest.len() && (#[trigger] rest[i]).0 == key && category_at(rest, key) == Some(rest[i]) && forall|j: int|
                0 <= j < i ==> !((#[trigger] rest[j]).0 == key) {
                let i = choose|i: int|
                    0 <= i < rest.len() && (#[trigger] rest[i]).0 == key && category_at(rest, key) == Some(rest[i]) && forall|j: int|
                        0 <= j < i ==> !((#[trigger] rest[j]).0 == key);
                assert(c[i + 1].0 == key && category_at(c, key) == Some(c[i + 1]));
                assert forall|j: int| 0 <= j < i + 1 implies !((#[trigger] c[j]).0 == key) by {
                    if j > 0 {
                        assert(!(rest[j - 1].0 == key));
                    }
                }
            } else {
                assert forall|i: int| 0 <= i < c.len() implies !((#[trigger] c[i]).0 == key) by {
                    if i > 0 {
                        assert(!(rest[i - 1].0 == key));
                    }
                }
            }
        }
    }
}

/// Each kind of job has its name and its own paragraph; any other is a job.
pub proof fn law_each_kind_has_its_name(kind: Seq<char>)
    ensures
        label_of("compress_video"@) == "Compress video"@ && info_of("compress_video"@) == INFO_COMPRESS_VIDEO@,
        label_of("compress_audio"@) == "Compress audio"@ && info_of("compress_audio"@) == INFO_COMPRESS_AUDIO@,
        label_of("compress_photo"@) == "Compress photo"@ && info_of("compress_photo"@) == INFO_COMPRESS_PHOTO@,
        label_of("convert"@) == "Convert"@ && info_of("convert"@) == INFO_CONVERT@,
        label_of("trim"@) == "Trim"@ && info_of("trim"@) == INFO_TRIM@,
        label_of("resize"@) == "Resize"@ && info_of("resize"@) == INFO_RESIZE@,
        label_of("thumbnail"@) == "Thumbnail"@ && info_of("thumbnail"@) == INFO_THUMBNAIL@,
        label_of("extract"@) == "Extract audio"@ && info_of("extract"@) == INFO_EXTRACT@,
        label_of("normalize"@) == "Normalise"@ && info_of("normalize"@) == INFO_NORMALIZE@,
        label_of("watermark"@) == "Watermark"@ && info_of("watermark"@) == INFO_WATERMARK@,
        label_of("burn_subs"@) == "Burn subtitles"@ && info_of("burn_subs"@) == INFO_BURN_SUBS@,
        label_of("split"@) == "Split"@ && info_of("split"@) == INFO_SPLIT@,
        label_of("merge"@) == "Merge"@ && info_of("merge"@) == INFO_MERGE@,
        label_of("download"@) == "Download"@ && info_of("download"@) == INFO_DOWNLOAD@,
        label_of("download_playlist"@) == "Playlist download"@ && info_of("download_playlist"@) == INFO_DOWNLOAD_PLAYLIST@,
        label_of("download_live"@) == "Live record"@ && info_of("download_live"@) == INFO_DOWNLOAD_LIVE@,
        label_of("hash"@) == "Hash"@ && info_of("hash"@) == INFO_HASH@,
        label_of("folder_diff"@) == "Folder diff"@ && info_of("folder_diff"@) == INFO_FOLDER_DIFF@,
        label_of("rename"@) == "Rename"@ && info_of("rename"@) == INFO_RENAME@,
        label_of("transcribe"@) == "Transcribe"@ && info_of("transcribe"@) == INFO_TRANSCRIBE@,
        label_of("mediainfo"@) == "Media info"@ && info_of("mediainfo"@) == INFO_MEDIAINFO@,
        label_of("contact_sheet"@) == "Contact sheet"@ && info_of("contact_sheet"@) == INFO_CONTACT_SHEET@,
        label_of("cache_clean"@) == "Clean cache"@ && info_of("cache_clean"@) == INFO_CACHE_CLEAN@,
        kind != "compress_video"@ && kind != "compress_audio"@ && kind != "compress_photo"@ && kind != "convert"@ && kind != "trim"@ && kind != "resize"@ && kind != "thumbnail"@ && kind != "extract"@ && kind != "normalize"@ && kind != "watermark"@ && kind != "burn_subs"@ && kind != "split"@ && kind != "merge"@ && kind != "download"@ && kind != "download_playlist"@ && kind != "download_live"@ && kind != "hash"@ && kind != "folder_diff"@ && kind != "rename"@ && kind != "transcribe"@ && kind != "mediainfo"@ && kind != "contact_sheet"@ && kind != "cache_clean"@ ==> label_of(kind) == "Job"@ && info_of(kind) == "Set the options below, then Run. Progress shows in the Queue tab."@,
{
    reveal_strlit("compress_video");
    reveal_strlit("compress_audio");
    reveal_strlit("compress_photo");
    reveal_strlit("convert");
    reveal_strlit("trim");
    reveal_strlit("resize");
    reveal_strlit("thumbnail");
    reveal_strlit("extract");
    reveal_strlit("normalize");
    reveal_strlit("watermark");
    reveal_strlit("burn_subs");
    reveal_strlit("split");
    reveal_strlit("merge");
    reveal_strlit("download");
    reveal_strlit("download_playlist");
    reveal_strlit("download_live");
    reveal_strlit("hash");
    reveal_strlit("folder_diff");
    reveal_strlit("rename");
    reveal_strlit("transcribe");
    reveal_strlit("mediainfo");
    reveal_strlit("contact_sheet");
    reveal_strlit("cache_clean");
    assert("compress_video"@.len() == 14 && "compress_audio"@.len() == 14 && "compress_photo"@.len() == 14 && "convert"@.len() == 7 && "trim"@.len() == 4 && "resize"@.len() == 6 && "thumbnail"@.len() == 9 && "extract"@.len() == 7 && "normalize"@.len() == 9 && "watermark"@.len() == 9 && "burn_subs"@.len() == 9 && "split"@.len() == 5 && "merge"@.len() == 5 && "download"@.len() == 8 && "download_playlist"@.len() == 17 && "download_live"@.len() == 13 && "hash"@.len() == 4 && "folder_diff"@.len() == 11 && "rename"@.len() == 6 && "transcribe"@.len() == 10 && "mediainfo"@.len() == 9 && "contact_sheet"@.len() == 13 && "cache_clean"@.len() == 11);
    assert("compress_video"@[9] == 'v' && "compress_audio"@[9] == 'a' && "compress_photo"@[9] == 'p' && "convert"@[0] == 'c' && "extract"@[0] == 'e' && "trim"@[0] == 't' && "hash"@[0] == 'h' && "resize"@[2] == 's' && "rename"@[2] == 'n' && "thumbnail"@[0] == 't' && "normalize"@[0] == 'n' && "watermark"@[0] == 'w' && "burn_subs"@[0] == 'b' && "mediainfo"@[0] == 'm' && "split"@[0] == 's' && "merge"@[0] == 'm' && "download_live"@[0] == 'd' && "contact_sheet"@[0] == 'c' && "folder_diff"@[0] == 'f' && "cache_clean"@[0] == 'c');
}

} // verus!
