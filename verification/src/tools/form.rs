//! The form of each tool: its fields, and the answers typed into them.

use vstd::prelude::*;
use crate::text::{same, views};

verus! {

/// One field of a tool's form.
#[derive(Debug)]
pub struct ToolField {
    pub key: &'static str,
    pub label: &'static str,
    pub kind: &'static str,
    pub value: String,
    pub required: bool,
    pub hint: &'static str,
    pub options: Vec<&'static str>,
    pub min: u32,
    pub max: u32,
}

/// What a field holds.
#[verifier::ext_equal]
pub struct FieldView {
    pub key: Seq<char>,
    pub label: Seq<char>,
    pub kind: Seq<char>,
    pub value: Seq<char>,
    pub required: bool,
    pub hint: Seq<char>,
    pub options: Seq<Seq<char>>,
    pub min: int,
    pub max: int,
}

/// The options as they read.
pub open spec fn options_view(v: Seq<&'static str>) -> Seq<Seq<char>> {
    Seq::new(v.len(), |i: int| v[i]@)
}

impl View for ToolField {
    type V = FieldView;

    open spec fn view(&self) -> FieldView {
        FieldView {
            key: self.key@,
            label: self.label@,
            kind: self.kind@,
            value: self.value@,
            required: self.required,
            hint: self.hint@,
            options: options_view(self.options@),
            min: self.min as int,
            max: self.max as int,
        }
    }
}

/// The fields as they are.
pub open spec fn fields_view(v: Seq<ToolField>) -> Seq<FieldView> {
    Seq::new(v.len(), |i: int| v[i]@)
}

/// A field without options and limits.
pub open spec fn field(
    key: Seq<char>,
    label: Seq<char>,
    kind: Seq<char>,
    value: Seq<char>,
    required: bool,
    hint: Seq<char>,
) -> FieldView {
    FieldView { key, label, kind, value, required, hint, options: Seq::empty(), min: 0, max: 0 }
}

/// A field between two limits.
pub open spec fn between(f: FieldView, min: int, max: int) -> FieldView {
    FieldView { min, max, ..f }
}

/// A field that offers a choice.
pub open spec fn choice(f: FieldView, options: Seq<Seq<char>>) -> FieldView {
    FieldView { options, ..f }
}

/// A file that has to be picked.
pub open spec fn file_field(key: Seq<char>, label: Seq<char>) -> FieldView {
    field(key, label, "file"@, ""@, true, ""@)
}

/// Where the result goes.
pub open spec fn out_field() -> FieldView {
    field(
        "output"@,
        "Output (blank = beside source)"@,
        "text"@,
        ""@,
        false,
        "auto-named next to the source"@,
    )
}

fn mk_field(
    key: &'static str,
    label: &'static str,
    kind: &'static str,
    value: &'static str,
    required: bool,
    hint: &'static str,
) -> (r: ToolField)
    ensures
        r@ == field(key@, label@, kind@, value@, required, hint@),
{
    let r = ToolField { key, label, kind, value: value.to_owned(), required, hint, options: Vec::new(), min: 0, max: 0 };
    assert(options_view(r.options@) =~= Seq::<Seq<char>>::empty());
    r
}

fn with_limits(f: ToolField, min: u32, max: u32) -> (r: ToolField)
    ensures
        r@ == between(f@, min as int, max as int),
{
    ToolField {
        key: f.key,
        label: f.label,
        kind: f.kind,
        value: f.value,
        required: f.required,
        hint: f.hint,
        options: f.options,
        min,
        max,
    }
}

fn with_options(f: ToolField, options: Vec<&'static str>) -> (r: ToolField)
    ensures
        r@ == choice(f@, options_view(options@)),
{
    ToolField {
        key: f.key,
        label: f.label,
        kind: f.kind,
        value: f.value,
        required: f.required,
        hint: f.hint,
        options,
        min: f.min,
        max: f.max,
    }
}

fn file(key: &'static str, label: &'static str) -> (r: ToolField)
    ensures
        r@ == file_field(key@, label@),
{
    mk_field(key, label, "file", "", true, "")
}

fn out() -> (r: ToolField)
    ensures
        r@ == out_field(),
{
    mk_field("output", "Output (blank = beside source)", "text", "", false, "auto-named next to the source")
}

/// The fields of `compress_video`.
pub open spec fn compress_video_form() -> Seq<FieldView> {
    seq![
        file_field("input"@, "Source video"@),
        choice(
            field("codec"@, "Codec"@, "dropdown"@, "h264"@, true, ""@),
            seq!["h264"@, "h265"@, "av1"@],
        ),
        between(
            field("crf"@, "Quality — CRF (lower = better, bigger)"@, "slider"@, "23"@, false, "Constant Rate Factor · ~18 near-lossless · 23 default · 28 small · each +6 ≈ half the size"@),
            18,
            35,
        ),
        out_field(),
    ]
}

fn compress_video_fields() -> (r: Vec<ToolField>)
    ensures
        fields_view(r@) == compress_video_form(),
{
    let codec_options = vec!["h264", "h265", "av1"];
    assert(options_view(codec_options@) =~= seq!["h264"@, "h265"@, "av1"@]);
    let r = vec![
        file("input", "Source video"),
        with_options(
            mk_field("codec", "Codec", "dropdown", "h264", true, ""),
            codec_options,
        ),
        with_limits(
            mk_field("crf", "Quality — CRF (lower = better, bigger)", "slider", "23", false, "Constant Rate Factor · ~18 near-lossless · 23 default · 28 small · each +6 ≈ half the size"),
            18,
            35,
        ),
        out(),
    ];
    assert(fields_view(r@) =~= compress_video_form());
    r
}

/// The fields of `compress_audio`.
pub open spec fn compress_audio_form() -> Seq<FieldView> {
    seq![
        file_field("input"@, "Source audio"@),
        choice(
            field("codec"@, "Codec"@, "dropdown"@, "mp3"@, true, ""@),
            seq!["mp3"@, "aac"@, "opus"@, "vorbis"@],
        ),
        between(
            field("kbps"@, "Bitrate (kbps)"@, "slider"@, "192"@, false, ""@),
            64,
            320,
        ),
        out_field(),
    ]
}

fn compress_audio_fields() -> (r: Vec<ToolField>)
    ensures
        fields_view(r@) == compress_audio_form(),
{
    let codec_options = vec!["mp3", "aac", "opus", "vorbis"];
    assert(options_view(codec_options@) =~= seq!["mp3"@, "aac"@, "opus"@, "vorbis"@]);
    let r = vec![
        file("input", "Source audio"),
        with_options(
            mk_field("codec", "Codec", "dropdown", "mp3", true, ""),
            codec_options,
        ),
        with_limits(
            mk_field("kbps", "Bitrate (kbps)", "slider", "192", false, ""),
            64,
            320,
        ),
        out(),
    ];
    assert(fields_view(r@) =~= compress_audio_form());
    r
}

/// The fields of `compress_photo`.
pub open spec fn compress_photo_form() -> Seq<FieldView> {
    seq![
        file_field("input"@, "Source image"@),
        choice(
            field("format"@, "Format"@, "dropdown"@, "jpeg"@, true, ""@),
            seq!["jpeg"@, "webp"@, "avif"@],
        ),
        between(
            field("quality"@, "Quality"@, "slider"@, "82"@, false, "1–100"@),
            1,
            100,
        ),
        out_field(),
    ]
}

fn compress_photo_fields() -> (r: Vec<ToolField>)
    ensures
        fields_view(r@) == compress_photo_form(),
{
    let format_options = vec!["jpeg", "webp", "avif"];
    assert(options_view(format_options@) =~= seq!["jpeg"@, "webp"@, "avif"@]);
    let r = vec![
        file("input", "Source image"),
        with_options(
            mk_field("format", "Format", "dropdown", "jpeg", true, ""),
            format_options,
        ),
        with_limits(
            mk_field("quality", "Quality", "slider", "82", false, "1–100"),
            1,
            100,
        ),
        out(),
    ];
    assert(fields_view(r@) =~= compress_photo_form());
    r
}

/// The fields of `convert`.
pub open spec fn convert_form() -> Seq<FieldView> {
    seq![
        file_field("input"@, "Source file"@),
        choice(
            field("target_ext"@, "Convert to"@, "dropdown"@, "mp4"@, true, ""@),
            seq!["mp4"@, "mkv"@, "webm"@, "mp3"@, "m4a"@, "opus"@, "flac"@, "png"@, "jpg"@, "webp"@],
        ),
        out_field(),
    ]
}

fn convert_fields() -> (r: Vec<ToolField>)
    ensures
        fields_view(r@) == convert_form(),
{
    let target_ext_options = vec!["mp4", "mkv", "webm", "mp3", "m4a", "opus", "flac", "png", "jpg", "webp"];
    assert(options_view(target_ext_options@) =~= seq!["mp4"@, "mkv"@, "webm"@, "mp3"@, "m4a"@, "opus"@, "flac"@, "png"@, "jpg"@, "webp"@]);
    let r = vec![
        file("input", "Source file"),
        with_options(
            mk_field("target_ext", "Convert to", "dropdown", "mp4", true, ""),
            target_ext_options,
        ),
        out(),
    ];
    assert(fields_view(r@) =~= convert_form());
    r
}

/// The fields of `trim`.
pub open spec fn trim_form() -> Seq<FieldView> {
    seq![
        file_field("input"@, "Source video"@),
        field("start_s"@, "Start (seconds)"@, "number"@, "0"@, true, "e.g. 12.5"@),
        field("end_s"@, "End (seconds)"@, "number"@, ""@, true, "e.g. 48"@),
        field("lossless"@, "Lossless cut (keyframe-aligned)"@, "toggle"@, "true"@, false, "fast, no re-encode"@),
        out_field(),
    ]
}

fn trim_fields() -> (r: Vec<ToolField>)
    ensures
        fields_view(r@) == trim_form(),
{
    let r = vec![
        file("input", "Source video"),
        mk_field("start_s", "Start (seconds)", "number", "0", true, "e.g. 12.5"),
        mk_field("end_s", "End (seconds)", "number", "", true, "e.g. 48"),
        mk_field("lossless", "Lossless cut (keyframe-aligned)", "toggle", "true", false, "fast, no re-encode"),
        out(),
    ];
    assert(fields_view(r@) =~= trim_form());
    r
}

/// The fields of `resize`.
pub open spec fn resize_form() -> Seq<FieldView> {
    seq![
        file_field("input"@, "Source image/video"@),
        choice(
            field("mode"@, "Aspect"@, "dropdown"@, "fit"@, false, "fit = keep aspect inside W×H · exact may distort · width/height scale one edge"@),
            seq!["fit"@, "exact"@, "width"@, "height"@],
        ),
        field("w"@, "Width (px)"@, "number"@, "1920"@, true, ""@),
        field("h"@, "Height (px)"@, "number"@, "1080"@, true, ""@),
        out_field(),
    ]
}

fn resize_fields() -> (r: Vec<ToolField>)
    ensures
        fields_view(r@) == resize_form(),
{
    let mode_options = vec!["fit", "exact", "width", "height"];
    assert(options_view(mode_options@) =~= seq!["fit"@, "exact"@, "width"@, "height"@]);
    let r = vec![
        file("input", "Source image/video"),
        with_options(
            mk_field("mode", "Aspect", "dropdown", "fit", false, "fit = keep aspect inside W×H · exact may distort · width/height scale one edge"),
            mode_options,
        ),
        mk_field("w", "Width (px)", "number", "1920", true, ""),
        mk_field("h", "Height (px)", "number", "1080", true, ""),
        out(),
    ];
    assert(fields_view(r@) =~= resize_form());
    r
}

/// The fields of `thumbnail`.
pub open spec fn thumbnail_form() -> Seq<FieldView> {
    seq![
        file_field("input"@, "Source video"@),
        field("at_s"@, "At timestamp (seconds)"@, "number"@, "1"@, false, ""@),
        field("width"@, "Thumbnail width (px)"@, "number"@, "320"@, false, ""@),
        out_field(),
    ]
}

fn thumbnail_fields() -> (r: Vec<ToolField>)
    ensures
        fields_view(r@) == thumbnail_form(),
{
    let r = vec![
        file("input", "Source video"),
        mk_field("at_s", "At timestamp (seconds)", "number", "1", false, ""),
        mk_field("width", "Thumbnail width (px)", "number", "320", false, ""),
        out(),
    ];
    assert(fields_view(r@) =~= thumbnail_form());
    r
}

/// The fields of `extract`.
pub open spec fn extract_form() -> Seq<FieldView> {
    seq![
        file_field("input"@, "Source video"@),
        choice(
            field("stream"@, "Stream"@, "dropdown"@, "audio"@, true, ""@),
            seq!["audio"@, "subtitle"@],
        ),
        field("index"@, "Track index"@, "number"@, "0"@, false, "0 = first"@),
        out_field(),
    ]
}

fn extract_fields() -> (r: Vec<ToolField>)
    ensures
        fields_view(r@) == extract_form(),
{
    let stream_options = vec!["audio", "subtitle"];
    assert(options_view(stream_options@) =~= seq!["audio"@, "subtitle"@]);
    let r = vec![
        file("input", "Source video"),
        with_options(
            mk_field("stream", "Stream", "dropdown", "audio", true, ""),
            stream_options,
        ),
        mk_field("index", "Track index", "number", "0", false, "0 = first"),
        out(),
    ];
    assert(fields_view(r@) =~= extract_form());
    r
}

/// The fields of `normalize`.
pub open spec fn normalize_form() -> Seq<FieldView> {
    seq![
        file_field("input"@, "Source audio/video"@),
        field("lufs"@, "Target loudness (LUFS)"@, "number"@, "-23"@, false, "EBU R128 = -23"@),
        out_field(),
    ]
}

fn normalize_fields() -> (r: Vec<ToolField>)
    ensures
        fields_view(r@) == normalize_form(),
{
    let r = vec![
        file("input", "Source audio/video"),
        mk_field("lufs", "Target loudness (LUFS)", "number", "-23", false, "EBU R128 = -23"),
        out(),
    ];
    assert(fields_view(r@) =~= normalize_form());
    r
}

/// The fields of `watermark`.
pub open spec fn watermark_form() -> Seq<FieldView> {
    seq![
        file_field("input"@, "Source image/video"@),
        field("text"@, "Watermark text"@, "text"@, ""@, true, "shown bottom-right"@),
        out_field(),
    ]
}

fn watermark_fields() -> (r: Vec<ToolField>)
    ensures
        fields_view(r@) == watermark_form(),
{
    let r = vec![
        file("input", "Source image/video"),
        mk_field("text", "Watermark text", "text", "", true, "shown bottom-right"),
        out(),
    ];
    assert(fields_view(r@) =~= watermark_form());
    r
}

/// The fields of `burn_subs`.
pub open spec fn burn_subs_form() -> Seq<FieldView> {
    seq![
        file_field("input"@, "Source video"@),
        field("sub"@, "Subtitle file (.srt/.ass)"@, "file"@, ""@, true, ""@),
        out_field(),
    ]
}

fn burn_subs_fields() -> (r: Vec<ToolField>)
    ensures
        fields_view(r@) == burn_subs_form(),
{
    let r = vec![
        file("input", "Source video"),
        mk_field("sub", "Subtitle file (.srt/.ass)", "file", "", true, ""),
        out(),
    ];
    assert(fields_view(r@) =~= burn_subs_form());
    r
}

/// The fields of `split`.
pub open spec fn split_form() -> Seq<FieldView> {
    seq![
        file_field("input"@, "Source video"@),
        field("every_s"@, "Segment length (seconds)"@, "number"@, "60"@, true, ""@),
        field("output"@, "Output template (blank = beside source)"@, "text"@, ""@, false, ""@),
    ]
}

fn split_fields() -> (r: Vec<ToolField>)
    ensures
        fields_view(r@) == split_form(),
{
    let r = vec![
        file("input", "Source video"),
        mk_field("every_s", "Segment length (seconds)", "number", "60", true, ""),
        mk_field("output", "Output template (blank = beside source)", "text", "", false, ""),
    ];
    assert(fields_view(r@) =~= split_form());
    r
}

/// The fields of `merge`.
pub open spec fn merge_form() -> Seq<FieldView> {
    seq![
        field("inputs"@, "Source files (pick several)"@, "files"@, ""@, true, ""@),
        field("output"@, "Output file"@, "text"@, ""@, true, ""@),
    ]
}

fn merge_fields() -> (r: Vec<ToolField>)
    ensures
        fields_view(r@) == merge_form(),
{
    let r = vec![
        mk_field("inputs", "Source files (pick several)", "files", "", true, ""),
        mk_field("output", "Output file", "text", "", true, ""),
    ];
    assert(fields_view(r@) =~= merge_form());
    r
}

/// The fields of `download`, `download_playlist`, `download_live`.
pub open spec fn download_form() -> Seq<FieldView> {
    seq![
        field("url"@, "URL"@, "text"@, ""@, true, "YouTube / Vimeo / 1800+ sites"@),
        field("audio_only"@, "Audio only"@, "toggle"@, "false"@, false, "extract audio"@),
        choice(
            field("max_height"@, "Resolution"@, "dropdown"@, "1080"@, false, "“Best” grabs the highest available"@),
            seq!["Best"@, "2160"@, "1440"@, "1080"@, "720"@, "480"@, "360"@, "240"@],
        ),
        field("embed_subs"@, "Embed subtitles"@, "toggle"@, "false"@, false, ""@),
        field("embed_thumbnail"@, "Embed thumbnail"@, "toggle"@, "false"@, false, "cover art from the video thumbnail"@),
        field("output"@, "Save folder (blank = Downloads)"@, "folder"@, ""@, false, ""@),
    ]
}

fn download_fields() -> (r: Vec<ToolField>)
    ensures
        fields_view(r@) == download_form(),
{
    let max_height_options = vec!["Best", "2160", "1440", "1080", "720", "480", "360", "240"];
    assert(options_view(max_height_options@) =~= seq!["Best"@, "2160"@, "1440"@, "1080"@, "720"@, "480"@, "360"@, "240"@]);
    let r = vec![
        mk_field("url", "URL", "text", "", true, "YouTube / Vimeo / 1800+ sites"),
        mk_field("audio_only", "Audio only", "toggle", "false", false, "extract audio"),
        with_options(
            mk_field("max_height", "Resolution", "dropdown", "1080", false, "“Best” grabs the highest available"),
            max_height_options,
        ),
        mk_field("embed_subs", "Embed subtitles", "toggle", "false", false, ""),
        mk_field("embed_thumbnail", "Embed thumbnail", "toggle", "false", false, "cover art from the video thumbnail"),
        mk_field("output", "Save folder (blank = Downloads)", "folder", "", false, ""),
    ];
    assert(fields_view(r@) =~= download_form());
    r
}

/// The fields of `transcribe`.
pub open spec fn transcribe_form() -> Seq<FieldView> {
    seq![
        file_field("input"@, "Audio/video file"@),
        choice(
            field("language"@, "Source language"@, "dropdown"@, "auto"@, false, "auto-detect, or pick to sharpen accuracy"@),
            seq!["auto"@, "en"@, "es"@, "fr"@, "de"@, "it"@, "pt"@, "nl"@, "ru"@, "uk"@, "pl"@, "tr"@, "ar"@, "fa"@, "hi"@, "ur"@, "bn"@, "ta"@, "th"@, "vi"@, "id"@, "ja"@, "ko"@, "zh"@],
        ),
        field("translate"@, "Translate to English"@, "toggle"@, "false"@, false, "transcribe any language straight to English (Whisper built-in)"@),
        field("output"@, "Output .srt (blank = beside source)"@, "text"@, ""@, false, ""@),
    ]
}

fn transcribe_fields() -> (r: Vec<ToolField>)
    ensures
        fields_view(r@) == transcribe_form(),
{
    let language_options = vec!["auto", "en", "es", "fr", "de", "it", "pt", "nl", "ru", "uk", "pl", "tr", "ar", "fa", "hi", "ur", "bn", "ta", "th", "vi", "id", "ja", "ko", "zh"];
    assert(options_view(language_options@) =~= seq!["auto"@, "en"@, "es"@, "fr"@, "de"@, "it"@, "pt"@, "nl"@, "ru"@, "uk"@, "pl"@, "tr"@, "ar"@, "fa"@, "hi"@, "ur"@, "bn"@, "ta"@, "th"@, "vi"@, "id"@, "ja"@, "ko"@, "zh"@]);
    let r = vec![
        file("input", "Audio/video file"),
        with_options(
            mk_field("language", "Source language", "dropdown", "auto", false, "auto-detect, or pick to sharpen accuracy"),
            language_options,
        ),
        mk_field("translate", "Translate to English", "toggle", "false", false, "transcribe any language straight to English (Whisper built-in)"),
        mk_field("output", "Output .srt (blank = beside source)", "text", "", false, ""),
    ];
    assert(fields_view(r@) =~= transcribe_form());
    r
}

/// The fields of `hash`.
pub open spec fn hash_form() -> Seq<FieldView> {
    seq![
        field("files"@, "Files to hash (pick several)"@, "files"@, ""@, true, "SHA-256"@),
        field("manifest"@, "Save manifest to (blank = show inline)"@, "text"@, ""@, false, ""@),
    ]
}

fn hash_fields() -> (r: Vec<ToolField>)
    ensures
        fields_view(r@) == hash_form(),
{
    let r = vec![
        mk_field("files", "Files to hash (pick several)", "files", "", true, "SHA-256"),
        mk_field("manifest", "Save manifest to (blank = show inline)", "text", "", false, ""),
    ];
    assert(fields_view(r@) =~= hash_form());
    r
}

/// The fields of `folder_diff`.
pub open spec fn folder_diff_form() -> Seq<FieldView> {
    seq![
        field("a"@, "Folder A"@, "folder"@, ""@, true, ""@),
        field("b"@, "Folder B"@, "folder"@, ""@, true, ""@),
    ]
}

fn folder_diff_fields() -> (r: Vec<ToolField>)
    ensures
        fields_view(r@) == folder_diff_form(),
{
    let r = vec![
        mk_field("a", "Folder A", "folder", "", true, ""),
        mk_field("b", "Folder B", "folder", "", true, ""),
    ];
    assert(fields_view(r@) =~= folder_diff_form());
    r
}

/// The fields of `rename`.
pub open spec fn rename_form() -> Seq<FieldView> {
    seq![
        field("dir"@, "Folder"@, "folder"@, ""@, true, ""@),
        field("pattern"@, "Pattern"@, "text"@, "{n:03}_{name}"@, true, "{n}, {n:03} = sequence · {name} = original name"@),
        field("start"@, "Start number"@, "number"@, "1"@, false, ""@),
    ]
}

fn rename_fields() -> (r: Vec<ToolField>)
    ensures
        fields_view(r@) == rename_form(),
{
    let r = vec![
        mk_field("dir", "Folder", "folder", "", true, ""),
        mk_field("pattern", "Pattern", "text", "{n:03}_{name}", true, "{n}, {n:03} = sequence · {name} = original name"),
        mk_field("start", "Start number", "number", "1", false, ""),
    ];
    assert(fields_view(r@) =~= rename_form());
    r
}

/// The fields of `mediainfo`.
pub open spec fn mediainfo_form() -> Seq<FieldView> {
    seq![
        file_field("input"@, "File to inspect"@),
        field("output"@, "Report .txt (blank = beside source)"@, "text"@, ""@, false, "codec/stream/bitrate report"@),
    ]
}

fn mediainfo_fields() -> (r: Vec<ToolField>)
    ensures
        fields_view(r@) == mediainfo_form(),
{
    let r = vec![
        file("input", "File to inspect"),
        mk_field("output", "Report .txt (blank = beside source)", "text", "", false, "codec/stream/bitrate report"),
    ];
    assert(fields_view(r@) =~= mediainfo_form());
    r
}

/// The fields of `contact_sheet`.
pub open spec fn contact_sheet_form() -> Seq<FieldView> {
    seq![
        file_field("input"@, "Source video"@),
        field("cols"@, "Columns"@, "number"@, "4"@, false, ""@),
        field("rows"@, "Rows"@, "number"@, "4"@, false, ""@),
        field("output"@, "Output .jpg (blank = beside source)"@, "text"@, ""@, false, ""@),
    ]
}

fn contact_sheet_fields() -> (r: Vec<ToolField>)
    ensures
        fields_view(r@) == contact_sheet_form(),
{
    let r = vec![
        file("input", "Source video"),
        mk_field("cols", "Columns", "number", "4", false, ""),
        mk_field("rows", "Rows", "number", "4", false, ""),
        mk_field("output", "Output .jpg (blank = beside source)", "text", "", false, ""),
    ];
    assert(fields_view(r@) =~= contact_sheet_form());
    r
}

/// The form of a kind of job; a kind without options has no fields.
pub open spec fn fields_of(kind: Seq<char>) -> Seq<FieldView> {
    if kind == "compress_video"@ {
        compress_video_form()
    } else if kind == "compress_audio"@ {
        compress_audio_form()
    } else if kind == "compress_photo"@ {
        compress_photo_form()
    } else if kind == "convert"@ {
        convert_form()
    } else if kind == "trim"@ {
        trim_form()
    } else if kind == "resize"@ {
        resize_form()
    } else if kind == "thumbnail"@ {
        thumbnail_form()
    } else if kind == "extract"@ {
        extract_form()
    } else if kind == "normalize"@ {
        normalize_form()
    } else if kind == "watermark"@ {
        watermark_form()
    } else if kind == "burn_subs"@ {
        burn_subs_form()
    } else if kind == "split"@ {
        split_form()
    } else if kind == "merge"@ {
        merge_form()
    } else if kind == "download"@ || kind == "download_playlist"@ || kind == "download_live"@ {
        download_form()
    } else if kind == "transcribe"@ {
        transcribe_form()
    } else if kind == "hash"@ {
        hash_form()
    } else if kind == "folder_diff"@ {
        folder_diff_form()
    } else if kind == "rename"@ {
        rename_form()
    } else if kind == "mediainfo"@ {
        mediainfo_form()
    } else if kind == "contact_sheet"@ {
        contact_sheet_form()
    } else {
        Seq::empty()
    }
}

/// See [`fields_of`].
pub fn tool_fields(kind: &str) -> (r: Vec<ToolField>)
    ensures
        fields_view(r@) == fields_of(kind@),
{
    if same(kind, "compress_video") {
        compress_video_fields()
    } else if same(kind, "compress_audio") {
        compress_audio_fields()
    } else if same(kind, "compress_photo") {
        compress_photo_fields()
    } else if same(kind, "convert") {
        convert_fields()
    } else if same(kind, "trim") {
        trim_fields()
    } else if same(kind, "resize") {
        resize_fields()
    } else if same(kind, "thumbnail") {
        thumbnail_fields()
    } else if same(kind, "extract") {
        extract_fields()
    } else if same(kind, "normalize") {
        normalize_fields()
    } else if same(kind, "watermark") {
        watermark_fields()
    } else if same(kind, "burn_subs") {
        burn_subs_fields()
    } else if same(kind, "split") {
        split_fields()
    } else if same(kind, "merge") {
        merge_fields()
    } else if same(kind, "download") || same(kind, "download_playlist") || same(kind, "download_live") {
        download_fields()
    } else if same(kind, "transcribe") {
        transcribe_fields()
    } else if same(kind, "hash") {
        hash_fields()
    } else if same(kind, "folder_diff") {
        folder_diff_fields()
    } else if same(kind, "rename") {
        rename_fields()
    } else if same(kind, "mediainfo") {
        mediainfo_fields()
    } else if same(kind, "contact_sheet") {
        contact_sheet_fields()
    } else {
        let r: Vec<ToolField> = Vec::new();
        assert(fields_view(r@) =~= Seq::<FieldView>::empty());
        r
    }
}

/// The answers typed into a form so far, and the kind of job that it is for. No
/// key stands in it twice.
#[derive(Debug)]
pub struct Form {
    pub kind: String,
    pub keys: Vec<String>,
    pub values: Vec<String>,
}

/// The answer under a key.
pub open spec fn answer(keys: Seq<Seq<char>>, values: Seq<Seq<char>>, key: Seq<char>) -> Option<Seq<char>>
    decreases keys.len(),
{
    if keys.len() == 0 {
        None
    } else if keys.last() == key {
        Some(values[keys.len() - 1])
    } else {
        answer(keys.drop_last(), values, key)
    }
}

/// What a form starts with under a key.
pub open spec fn default_of(fields: Seq<FieldView>, key: Seq<char>) -> Option<Seq<char>>
    decreases fields.len(),
{
    if fields.len() == 0 {
        None
    } else if fields.last().key == key {
        Some(fields.last().value)
    } else {
        default_of(fields.drop_last(), key)
    }
}

proof fn lemma_answer_at(keys: Seq<Seq<char>>, values: Seq<Seq<char>>, i: int)
    requires
        keys.no_duplicates(),
        0 <= i < keys.len(),
    ensures
        answer(keys, values, keys[i]) == Some(values[i]),
    decreases keys.len(),
{
    if i < keys.len() - 1 {
        assert(keys.last() != keys[i]);
        lemma_answer_at(keys.drop_last(), values, i);
    }
}

proof fn lemma_answer_none(keys: Seq<Seq<char>>, values: Seq<Seq<char>>, key: Seq<char>)
    requires
        !keys.contains(key),
    ensures
        answer(keys, values, key) is None,
    decreases keys.len(),
{
    if keys.len() > 0 {
        assert(keys[keys.len() - 1] != key);
        assert forall|i: int| 0 <= i < keys.drop_last().len() implies keys.drop_last()[i] != key by {
            assert(keys[i] != key);
        }
        lemma_answer_none(keys.drop_last(), values, key);
    }
}

proof fn lemma_answer_values(keys: Seq<Seq<char>>, a: Seq<Seq<char>>, b: Seq<Seq<char>>, key: Seq<char>)
    requires
        forall|i: int| 0 <= i < keys.len() && keys[i] == key ==> a[i] == b[i],
    ensures
        answer(keys, a, key) == answer(keys, b, key),
    decreases keys.len(),
{
    if keys.len() > 0 && keys.last() != key {
        assert forall|i: int| 0 <= i < keys.drop_last().len() && keys.drop_last()[i] == key implies a[i] == b[i] by {
            assert(keys[i] == key);
        }
        lemma_answer_values(keys.drop_last(), a, b, key);
    }
}

impl Form {
    /// No key stands in the form twice.
    pub open spec fn wf(&self) -> bool {
        &&& self.keys@.len() == self.values@.len()
        &&& views(self.keys@).no_duplicates()
    }

    /// The answer under a key.
    pub open spec fn look(&self, key: Seq<char>) -> Option<Seq<char>> {
        answer(views(self.keys@), views(self.values@), key)
    }

    /// The form of no tool.
    pub fn none() -> (r: Form)
        ensures
            r.wf(),
            r.kind@.len() == 0,
            forall|k: Seq<char>| #[trigger] r.look(k) is None,
    {
        let r = Form { kind: String::new(), keys: Vec::new(), values: Vec::new() };
        assert(views(r.keys@) =~= Seq::<Seq<char>>::empty());
        r
    }

    /// Where a key stands, the number of keys where it stands nowhere.
    fn place(&self, key: &str) -> (r: usize)
        requires
            self.wf(),
        ensures
            r <= self.keys@.len(),
            r < self.keys@.len() ==> self.keys@[r as int]@ == key@,
            r == self.keys@.len() ==> !views(self.keys@).contains(key@),
    {
        let mut i: usize = 0;
        while i < self.keys.len()
            invariant
                i <= self.keys@.len(),
                forall|j: int| 0 <= j < i ==> (#[trigger] self.keys@[j])@ != key@,
            decreases self.keys@.len() - i,
        {
            if same(self.keys[i].as_str(), key) {
                return i;
            }
            i = i + 1;
        }
        assert forall|j: int| 0 <= j < views(self.keys@).len() implies views(self.keys@)[j] != key@ by {
            assert(self.keys@[j]@ != key@);
        }
        i
    }

    /// The answer under a key, nothing where none was given.
    pub fn get(&self, key: &str) -> (r: Option<&String>)
        requires
            self.wf(),
        ensures
            match r {
                Some(v) => self.look(key@) == Some(v@),
                None => self.look(key@) is None,
            },
    {
        let i = self.place(key);
        proof {
            if i < self.keys@.len() {
                lemma_answer_at(views(self.keys@), views(self.values@), i as int);
            } else {
                lemma_answer_none(views(self.keys@), views(self.values@), key@);
            }
        }
        if i < self.keys.len() {
            Some(&self.values[i])
        } else {
            None
        }
    }

    /// Puts an answer under a key; every other answer stays.
    pub fn set(&mut self, key: &str, value: &str)
        requires
            old(self).wf(),
        ensures
            final(self).wf(),
            final(self).kind@ == old(self).kind@,
            forall|k: Seq<char>| #[trigger]
                final(self).look(k) == (if k == key@ { Some(value@) } else { old(self).look(k) }),
    {
        let i = self.place(key);
        let ghost (ks, vs) = (views(self.keys@), views(self.values@));
        if i < self.keys.len() {
            self.values.set(i, value.to_owned());
            proof {
                let now = views(self.values@);
                assert(views(self.keys@) =~= ks);
                assert forall|k: Seq<char>| #[trigger] self.look(k) == (if k == key@ { Some(value@) } else { old(self).look(k) }) by {
                    if k == key@ {
                        lemma_answer_at(ks, now, i as int);
                    } else {
                        assert forall|j: int| 0 <= j < ks.len() && ks[j] == k implies now[j] == vs[j] by {
                            assert(ks[i as int] == key@);
                        }
                        lemma_answer_values(ks, now, vs, k);
                    }
                }
            }
        } else {
            self.keys.push(key.to_owned());
            self.values.push(value.to_owned());
            proof {
                let (nk, nv) = (views(self.keys@), views(self.values@));
                assert(nk =~= ks.push(key@));
                assert(nv =~= vs.push(value@));
                assert(nk.drop_last() =~= ks);
                assert(nk.no_duplicates()) by {
                    assert forall|a: int, b: int| 0 <= a < nk.len() && 0 <= b < nk.len() && a != b implies nk[a] != nk[b] by {
                        if a < ks.len() && b < ks.len() {
                            assert(ks[a] != ks[b]);
                        } else if a < ks.len() {
                            assert(ks.contains(ks[a]));
                        } else {
                            assert(ks.contains(ks[b]));
                        }
                    }
                }
                assert forall|k: Seq<char>| #[trigger] self.look(k) == (if k == key@ { Some(value@) } else { old(self).look(k) }) by {
                    lemma_answer_values(ks, nv, vs, k);
                }
            }
        }
    }

    /// The form of a kind of job as it opens: every field at its default.
    pub fn seeded(kind: &str) -> (r: Form)
        ensures
            r.wf(),
            r.kind@ == kind@,
            forall|k: Seq<char>| #[trigger] r.look(k) == default_of(fields_of(kind@), k),
    {
        let fields = tool_fields(kind);
        let ghost all = fields_view(fields@);
        let none = Form::none();
        let ghost was = none;
        let mut r = Form { kind: kind.to_owned(), keys: none.keys, values: none.values };
        let mut i: usize = 0;
        assert(all.take(0) =~= Seq::<FieldView>::empty());
        assert forall|k: Seq<char>| #[trigger] r.look(k) is None by {
            assert(was.look(k) is None);
        }
        while i < fields.len()
            invariant
                i <= fields@.len(),
                all == fields_view(fields@),
                r.wf(),
                r.kind@ == kind@,
                forall|k: Seq<char>| #[trigger] r.look(k) == default_of(all.take(i as int), k),
            decreases fields@.len() - i,
        {
            assert(all.take(i + 1).drop_last() =~= all.take(i as int));
            assert(all.take(i + 1).last() == fields@[i as int]@);
            r.set(fields[i].key, fields[i].value.as_str());
            i = i + 1;
        }
        assert(all.take(i as int) =~= all);
        r
    }
}

/// A field with the answer given to it.
pub open spec fn overlaid(f: FieldView, given: Option<Seq<char>>) -> FieldView {
    match given {
        Some(v) => FieldView { value: v, ..f },
        None => f,
    }
}

/// The fields of a form with the answers given so far.
pub open spec fn applied(form: Form) -> Seq<FieldView> {
    let fields = fields_of(form.kind@);
    Seq::new(fields.len(), |i: int| overlaid(fields[i], form.look(fields[i].key)))
}

/// See [`applied`].
pub fn tools_apply_form(form: &Form) -> (r: Vec<ToolField>)
    requires
        form.wf(),
    ensures
        fields_view(r@) == applied(*form),
{
    let mut fields = tool_fields(form.kind.as_str());
    let ghost all = fields_of(form.kind@);
    let mut i: usize = 0;
    while i < fields.len()
        invariant
            i <= fields@.len(),
            form.wf(),
            fields@.len() == all.len(),
            all == fields_of(form.kind@),
            forall|j: int| 0 <= j < i ==> (#[trigger] fields@[j])@ == overlaid(all[j], form.look(all[j].key)),
            forall|j: int| i <= j < fields@.len() ==> (#[trigger] fields@[j])@ == all[j],
        decreases fields@.len() - i,
    {
        assert(fields@[i as int]@ == all[i as int]);
        let f = &fields[i];
        match form.get(f.key) {
            Some(v) => {
                let mut options: Vec<&'static str> = Vec::new();
                let mut k: usize = 0;
                while k < f.options.len()
                    invariant
                        k <= f.options@.len(),
                        options@ == f.options@.take(k as int),
                    decreases f.options@.len() - k,
                {
                    options.push(f.options[k]);
                    assert(options@ =~= f.options@.take(k + 1));
                    k = k + 1;
                }
                assert(options@ =~= f.options@);
                let g = ToolField {
                    key: f.key,
                    label: f.label,
                    kind: f.kind,
                    value: v.clone(),
                    required: f.required,
                    hint: f.hint,
                    options,
                    min: f.min,
                    max: f.max,
                };
                assert(g@ == overlaid(all[i as int], form.look(all[i as int].key)));
                fields.set(i, g);
            },
            None => {},
        }
        i = i + 1;
    }
    assert(fields_view(fields@) =~= applied(*form));
    fields
}

/// What is asked of the user who picks the answer to a field.
#[derive(Clone, Copy, Debug, PartialEq, Eq, Structural)]
pub enum Picker {
    Folder,
    Files,
    File,
}

/// The kind of the first field under a key, nothing where there is none.
pub open spec fn kind_at(fields: Seq<FieldView>, key: Seq<char>) -> Seq<char>
    decreases fields.len(),
{
    if fields.len() == 0 {
        Seq::empty()
    } else if fields[0].key == key {
        fields[0].kind
    } else {
        kind_at(fields.skip(1), key)
    }
}

/// Which dialog a field opens.
pub open spec fn picker_of(kind: Seq<char>, key: Seq<char>) -> Picker {
    let k = kind_at(fields_of(kind), key);
    if k == "folder"@ {
        Picker::Folder
    } else if k == "files"@ {
        Picker::Files
    } else {
        Picker::File
    }
}

/// See [`picker_of`].
pub fn field_picker(kind: &str, key: &str) -> (r: Picker)
    ensures
        r == picker_of(kind@, key@),
{
    let fields = tool_fields(kind);
    let ghost all = fields_view(fields@);
    let mut i: usize = 0;
    assert(all.skip(0) =~= all);
    proof {
        reveal_strlit("folder");
        reveal_strlit("files");
    }
    while i < fields.len()
        invariant
            i <= fields@.len(),
            all == fields_view(fields@),
            all == fields_of(kind@),
            kind_at(all, key@) == kind_at(all.skip(i as int), key@),
        decreases fields@.len() - i,
    {
        assert(all.skip(i as int)[0] == fields@[i as int]@);
        assert(all.skip(i as int).skip(1) =~= all.skip(i + 1));
        if same(fields[i].key, key) {
            return if same(fields[i].kind, "folder") {
                Picker::Folder
            } else if same(fields[i].kind, "files") {
                Picker::Files
            } else {
                Picker::File
            };
        }
        i = i + 1;
    }
    Picker::File
}

/// Whether no two fields have the same key, and none that is not a text or a folder is
/// where the result goes.
pub open spec fn told_apart(fields: Seq<FieldView>) -> bool {
    &&& forall|i: int, j: int| 0 <= i < j < fields.len() ==> (#[trigger] fields[i]).key != (#[trigger] fields[j]).key
    &&& forall|i: int|
        0 <= i < fields.len() ==> (#[trigger] fields[i]).key != "out_template"@ && (fields[i].key == "output"@ ==> fields[i].kind
            != "toggle"@ && fields[i].kind != "files"@ && fields[i].kind != "number"@ && fields[i].kind != "slider"@)
}

proof fn lemma_compress_video_form()
    ensures
        told_apart(compress_video_form()),
{
    reveal_strlit("codec");
    reveal_strlit("crf");
    reveal_strlit("dropdown");
    reveal_strlit("file");
    reveal_strlit("files");
    reveal_strlit("input");
    reveal_strlit("number");
    reveal_strlit("out_template");
    reveal_strlit("output");
    reveal_strlit("slider");
    reveal_strlit("text");
    reveal_strlit("toggle");
    assert("codec"@.len() == 5 && "crf"@.len() == 3 && "dropdown"@.len() == 8 && "file"@.len() == 4 && "files"@.len() == 5 && "input"@.len() == 5 && "number"@.len() == 6 && "out_template"@.len() == 12 && "output"@.len() == 6 && "slider"@.len() == 6 && "text"@.len() == 4 && "toggle"@.len() == 6);
    assert("codec"@[0] == 'c' && "files"@[0] == 'f' && "input"@[0] == 'i' && "file"@[0] == 'f' && "text"@[0] == 't' && "number"@[0] == 'n' && "output"@[0] == 'o' && "slider"@[0] == 's' && "toggle"@[0] == 't');
}

proof fn lemma_compress_audio_form()
    ensures
        told_apart(compress_audio_form()),
{
    reveal_strlit("codec");
    reveal_strlit("dropdown");
    reveal_strlit("file");
    reveal_strlit("files");
    reveal_strlit("input");
    reveal_strlit("kbps");
    reveal_strlit("number");
    reveal_strlit("out_template");
    reveal_strlit("output");
    reveal_strlit("slider");
    reveal_strlit("text");
    reveal_strlit("toggle");
    assert("codec"@.len() == 5 && "dropdown"@.len() == 8 && "file"@.len() == 4 && "files"@.len() == 5 && "input"@.len() == 5 && "kbps"@.len() == 4 && "number"@.len() == 6 && "out_template"@.len() == 12 && "output"@.len() == 6 && "slider"@.len() == 6 && "text"@.len() == 4 && "toggle"@.len() == 6);
    assert("codec"@[0] == 'c' && "files"@[0] == 'f' && "input"@[0] == 'i' && "file"@[0] == 'f' && "kbps"@[0] == 'k' && "text"@[0] == 't' && "number"@[0] == 'n' && "output"@[0] == 'o' && "slider"@[0] == 's' && "toggle"@[0] == 't');
}

proof fn lemma_compress_photo_form()
    ensures
        told_apart(compress_photo_form()),
{
    reveal_strlit("dropdown");
    reveal_strlit("file");
    reveal_strlit("files");
    reveal_strlit("format");
    reveal_strlit("input");
    reveal_strlit("number");
    reveal_strlit("out_template");
    reveal_strlit("output");
    reveal_strlit("quality");
    reveal_strlit("slider");
    reveal_strlit("text");
    reveal_strlit("toggle");
    assert("dropdown"@.len() == 8 && "file"@.len() == 4 && "files"@.len() == 5 && "format"@.len() == 6 && "input"@.len() == 5 && "number"@.len() == 6 && "out_template"@.len() == 12 && "output"@.len() == 6 && "quality"@.len() == 7 && "slider"@.len() == 6 && "text"@.len() == 4 && "toggle"@.len() == 6);
    assert("file"@[0] == 'f' && "text"@[0] == 't' && "files"@[0] == 'f' && "input"@[0] == 'i' && "format"@[0] == 'f' && "number"@[0] == 'n' && "output"@[0] == 'o' && "slider"@[0] == 's' && "toggle"@[0] == 't');
}

proof fn lemma_convert_form()
    ensures
        told_apart(convert_form()),
{
    reveal_strlit("dropdown");
    reveal_strlit("file");
    reveal_strlit("files");
    reveal_strlit("input");
    reveal_strlit("number");
    reveal_strlit("out_template");
    reveal_strlit("output");
    reveal_strlit("slider");
    reveal_strlit("target_ext");
    reveal_strlit("text");
    reveal_strlit("toggle");
    assert("dropdown"@.len() == 8 && "file"@.len() == 4 && "files"@.len() == 5 && "input"@.len() == 5 && "number"@.len() == 6 && "out_template"@.len() == 12 && "output"@.len() == 6 && "slider"@.len() == 6 && "target_ext"@.len() == 10 && "text"@.len() == 4 && "toggle"@.len() == 6);
    assert("file"@[0] == 'f' && "text"@[0] == 't' && "files"@[0] == 'f' && "input"@[0] == 'i' && "number"@[0] == 'n' && "output"@[0] == 'o' && "slider"@[0] == 's' && "toggle"@[0] == 't');
}

proof fn lemma_trim_form()
    ensures
        told_apart(trim_form()),
{
    reveal_strlit("end_s");
    reveal_strlit("file");
    reveal_strlit("files");
    reveal_strlit("input");
    reveal_strlit("lossless");
    reveal_strlit("number");
    reveal_strlit("out_template");
    reveal_strlit("output");
    reveal_strlit("slider");
    reveal_strlit("start_s");
    reveal_strlit("text");
    reveal_strlit("toggle");
    assert("end_s"@.len() == 5 && "file"@.len() == 4 && "files"@.len() == 5 && "input"@.len() == 5 && "lossless"@.len() == 8 && "number"@.len() == 6 && "out_template"@.len() == 12 && "output"@.len() == 6 && "slider"@.len() == 6 && "start_s"@.len() == 7 && "text"@.len() == 4 && "toggle"@.len() == 6);
    assert("end_s"@[0] == 'e' && "files"@[0] == 'f' && "input"@[0] == 'i' && "file"@[0] == 'f' && "text"@[0] == 't' && "number"@[0] == 'n' && "output"@[0] == 'o' && "slider"@[0] == 's' && "toggle"@[0] == 't');
}

proof fn lemma_resize_form()
    ensures
        told_apart(resize_form()),
{
    reveal_strlit("dropdown");
    reveal_strlit("file");
    reveal_strlit("files");
    reveal_strlit("h");
    reveal_strlit("input");
    reveal_strlit("mode");
    reveal_strlit("number");
    reveal_strlit("out_template");
    reveal_strlit("output");
    reveal_strlit("slider");
    reveal_strlit("text");
    reveal_strlit("toggle");
    reveal_strlit("w");
    assert("dropdown"@.len() == 8 && "file"@.len() == 4 && "files"@.len() == 5 && "h"@.len() == 1 && "input"@.len() == 5 && "mode"@.len() == 4 && "number"@.len() == 6 && "out_template"@.len() == 12 && "output"@.len() == 6 && "slider"@.len() == 6 && "text"@.len() == 4 && "toggle"@.len() == 6 && "w"@.len() == 1);
    assert("file"@[0] == 'f' && "mode"@[0] == 'm' && "text"@[0] == 't' && "files"@[0] == 'f' && "input"@[0] == 'i' && "h"@[0] == 'h' && "w"@[0] == 'w' && "number"@[0] == 'n' && "output"@[0] == 'o' && "slider"@[0] == 's' && "toggle"@[0] == 't');
}

proof fn lemma_thumbnail_form()
    ensures
        told_apart(thumbnail_form()),
{
    reveal_strlit("at_s");
    reveal_strlit("file");
    reveal_strlit("files");
    reveal_strlit("input");
    reveal_strlit("number");
    reveal_strlit("out_template");
    reveal_strlit("output");
    reveal_strlit("slider");
    reveal_strlit("text");
    reveal_strlit("toggle");
    reveal_strlit("width");
    assert("at_s"@.len() == 4 && "file"@.len() == 4 && "files"@.len() == 5 && "input"@.len() == 5 && "number"@.len() == 6 && "out_template"@.len() == 12 && "output"@.len() == 6 && "slider"@.len() == 6 && "text"@.len() == 4 && "toggle"@.len() == 6 && "width"@.len() == 5);
    assert("at_s"@[0] == 'a' && "file"@[0] == 'f' && "text"@[0] == 't' && "files"@[0] == 'f' && "input"@[0] == 'i' && "width"@[0] == 'w' && "number"@[0] == 'n' && "output"@[0] == 'o' && "slider"@[0] == 's' && "toggle"@[0] == 't');
}

proof fn lemma_extract_form()
    ensures
        told_apart(extract_form()),
{
    reveal_strlit("dropdown");
    reveal_strlit("file");
    reveal_strlit("files");
    reveal_strlit("index");
    reveal_strlit("input");
    reveal_strlit("number");
    reveal_strlit("out_template");
    reveal_strlit("output");
    reveal_strlit("slider");
    reveal_strlit("stream");
    reveal_strlit("text");
    reveal_strlit("toggle");
    assert("dropdown"@.len() == 8 && "file"@.len() == 4 && "files"@.len() == 5 && "index"@.len() == 5 && "input"@.len() == 5 && "number"@.len() == 6 && "out_template"@.len() == 12 && "output"@.len() == 6 && "slider"@.len() == 6 && "stream"@.len() == 6 && "text"@.len() == 4 && "toggle"@.len() == 6);
    assert("file"@[0] == 'f' && "text"@[0] == 't' && "files"@[0] == 'f' && "index"@[0] == 'i' && "input"@[0] == 'i' && "index"@[2] == 'd' && "input"@[2] == 'p' && "number"@[0] == 'n' && "output"@[0] == 'o' && "slider"@[0] == 's' && "stream"@[0] == 's' && "toggle"@[0] == 't' && "slider"@[1] == 'l' && "stream"@[1] == 't');
}

proof fn lemma_normalize_form()
    ensures
        told_apart(normalize_form()),
{
    reveal_strlit("file");
    reveal_strlit("files");
    reveal_strlit("input");
    reveal_strlit("lufs");
    reveal_strlit("number");
    reveal_strlit("out_template");
    reveal_strlit("output");
    reveal_strlit("slider");
    reveal_strlit("text");
    reveal_strlit("toggle");
    assert("file"@.len() == 4 && "files"@.len() == 5 && "input"@.len() == 5 && "lufs"@.len() == 4 && "number"@.len() == 6 && "out_template"@.len() == 12 && "output"@.len() == 6 && "slider"@.len() == 6 && "text"@.len() == 4 && "toggle"@.len() == 6);
    assert("file"@[0] == 'f' && "lufs"@[0] == 'l' && "text"@[0] == 't' && "files"@[0] == 'f' && "input"@[0] == 'i' && "number"@[0] == 'n' && "output"@[0] == 'o' && "slider"@[0] == 's' && "toggle"@[0] == 't');
}

proof fn lemma_watermark_form()
    ensures
        told_apart(watermark_form()),
{
    reveal_strlit("file");
    reveal_strlit("files");
    reveal_strlit("input");
    reveal_strlit("number");
    reveal_strlit("out_template");
    reveal_strlit("output");
    reveal_strlit("slider");
    reveal_strlit("text");
    reveal_strlit("toggle");
    assert("file"@.len() == 4 && "files"@.len() == 5 && "input"@.len() == 5 && "number"@.len() == 6 && "out_template"@.len() == 12 && "output"@.len() == 6 && "slider"@.len() == 6 && "text"@.len() == 4 && "toggle"@.len() == 6);
    assert("file"@[0] == 'f' && "text"@[0] == 't' && "files"@[0] == 'f' && "input"@[0] == 'i' && "number"@[0] == 'n' && "output"@[0] == 'o' && "slider"@[0] == 's' && "toggle"@[0] == 't');
}

proof fn lemma_burn_subs_form()
    ensures
        told_apart(burn_subs_form()),
{
    reveal_strlit("file");
    reveal_strlit("files");
    reveal_strlit("input");
    reveal_strlit("number");
    reveal_strlit("out_template");
    reveal_strlit("output");
    reveal_strlit("slider");
    reveal_strlit("sub");
    reveal_strlit("text");
    reveal_strlit("toggle");
    assert("file"@.len() == 4 && "files"@.len() == 5 && "input"@.len() == 5 && "number"@.len() == 6 && "out_template"@.len() == 12 && "output"@.len() == 6 && "slider"@.len() == 6 && "sub"@.len() == 3 && "text"@.len() == 4 && "toggle"@.len() == 6);
    assert("file"@[0] == 'f' && "text"@[0] == 't' && "files"@[0] == 'f' && "input"@[0] == 'i' && "number"@[0] == 'n' && "output"@[0] == 'o' && "slider"@[0] == 's' && "toggle"@[0] == 't');
}

proof fn lemma_split_form()
    ensures
        told_apart(split_form()),
{
    reveal_strlit("every_s");
    reveal_strlit("file");
    reveal_strlit("files");
    reveal_strlit("input");
    reveal_strlit("number");
    reveal_strlit("out_template");
    reveal_strlit("output");
    reveal_strlit("slider");
    reveal_strlit("text");
    reveal_strlit("toggle");
    assert("every_s"@.len() == 7 && "file"@.len() == 4 && "files"@.len() == 5 && "input"@.len() == 5 && "number"@.len() == 6 && "out_template"@.len() == 12 && "output"@.len() == 6 && "slider"@.len() == 6 && "text"@.len() == 4 && "toggle"@.len() == 6);
    assert("file"@[0] == 'f' && "text"@[0] == 't' && "files"@[0] == 'f' && "input"@[0] == 'i' && "number"@[0] == 'n' && "output"@[0] == 'o' && "slider"@[0] == 's' && "toggle"@[0] == 't');
}

proof fn lemma_merge_form()
    ensures
        told_apart(merge_form()),
{
    reveal_strlit("files");
    reveal_strlit("inputs");
    reveal_strlit("number");
    reveal_strlit("out_template");
    reveal_strlit("output");
    reveal_strlit("slider");
    reveal_strlit("text");
    reveal_strlit("toggle");
    assert("files"@.len() == 5 && "inputs"@.len() == 6 && "number"@.len() == 6 && "out_template"@.len() == 12 && "output"@.len() == 6 && "slider"@.len() == 6 && "text"@.len() == 4 && "toggle"@.len() == 6);
    assert("inputs"@[0] == 'i' && "number"@[0] == 'n' && "output"@[0] == 'o' && "slider"@[0] == 's' && "toggle"@[0] == 't');
}

proof fn lemma_download_form()
    ensures
        told_apart(download_form()),
{
    reveal_strlit("audio_only");
    reveal_strlit("dropdown");
    reveal_strlit("embed_subs");
    reveal_strlit("embed_thumbnail");
    reveal_strlit("files");
    reveal_strlit("folder");
    reveal_strlit("max_height");
    reveal_strlit("number");
    reveal_strlit("out_template");
    reveal_strlit("output");
    reveal_strlit("slider");
    reveal_strlit("text");
    reveal_strlit("toggle");
    reveal_strlit("url");
    assert("audio_only"@.len() == 10 && "dropdown"@.len() == 8 && "embed_subs"@.len() == 10 && "embed_thumbnail"@.len() == 15 && "files"@.len() == 5 && "folder"@.len() == 6 && "max_height"@.len() == 10 && "number"@.len() == 6 && "out_template"@.len() == 12 && "output"@.len() == 6 && "slider"@.len() == 6 && "text"@.len() == 4 && "toggle"@.len() == 6 && "url"@.len() == 3);
    assert("audio_only"@[0] == 'a' && "embed_subs"@[0] == 'e' && "max_height"@[0] == 'm' && "folder"@[0] == 'f' && "number"@[0] == 'n' && "output"@[0] == 'o' && "slider"@[0] == 's' && "toggle"@[0] == 't');
}

proof fn lemma_transcribe_form()
    ensures
        told_apart(transcribe_form()),
{
    reveal_strlit("dropdown");
    reveal_strlit("file");
    reveal_strlit("files");
    reveal_strlit("input");
    reveal_strlit("language");
    reveal_strlit("number");
    reveal_strlit("out_template");
    reveal_strlit("output");
    reveal_strlit("slider");
    reveal_strlit("text");
    reveal_strlit("toggle");
    reveal_strlit("translate");
    assert("dropdown"@.len() == 8 && "file"@.len() == 4 && "files"@.len() == 5 && "input"@.len() == 5 && "language"@.len() == 8 && "number"@.len() == 6 && "out_template"@.len() == 12 && "output"@.len() == 6 && "slider"@.len() == 6 && "text"@.len() == 4 && "toggle"@.len() == 6 && "translate"@.len() == 9);
    assert("dropdown"@[0] == 'd' && "language"@[0] == 'l' && "file"@[0] == 'f' && "text"@[0] == 't' && "files"@[0] == 'f' && "input"@[0] == 'i' && "number"@[0] == 'n' && "output"@[0] == 'o' && "slider"@[0] == 's' && "toggle"@[0] == 't');
}

proof fn lemma_hash_form()
    ensures
        told_apart(hash_form()),
{
    reveal_strlit("files");
    reveal_strlit("manifest");
    reveal_strlit("number");
    reveal_strlit("out_template");
    reveal_strlit("output");
    reveal_strlit("slider");
    reveal_strlit("text");
    reveal_strlit("toggle");
    assert("files"@.len() == 5 && "manifest"@.len() == 8 && "number"@.len() == 6 && "out_template"@.len() == 12 && "output"@.len() == 6 && "slider"@.len() == 6 && "text"@.len() == 4 && "toggle"@.len() == 6);
    assert("number"@[0] == 'n' && "output"@[0] == 'o' && "slider"@[0] == 's' && "toggle"@[0] == 't');
}

proof fn lemma_folder_diff_form()
    ensures
        told_apart(folder_diff_form()),
{
    reveal_strlit("a");
    reveal_strlit("b");
    reveal_strlit("files");
    reveal_strlit("folder");
    reveal_strlit("number");
    reveal_strlit("out_template");
    reveal_strlit("output");
    reveal_strlit("slider");
    reveal_strlit("toggle");
    assert("a"@.len() == 1 && "b"@.len() == 1 && "files"@.len() == 5 && "folder"@.len() == 6 && "number"@.len() == 6 && "out_template"@.len() == 12 && "output"@.len() == 6 && "slider"@.len() == 6 && "toggle"@.len() == 6);
    assert("a"@[0] == 'a' && "b"@[0] == 'b' && "folder"@[0] == 'f' && "number"@[0] == 'n' && "output"@[0] == 'o' && "slider"@[0] == 's' && "toggle"@[0] == 't');
}

proof fn lemma_rename_form()
    ensures
        told_apart(rename_form()),
{
    reveal_strlit("dir");
    reveal_strlit("files");
    reveal_strlit("folder");
    reveal_strlit("number");
    reveal_strlit("out_template");
    reveal_strlit("output");
    reveal_strlit("pattern");
    reveal_strlit("slider");
    reveal_strlit("start");
    reveal_strlit("text");
    reveal_strlit("toggle");
    assert("dir"@.len() == 3 && "files"@.len() == 5 && "folder"@.len() == 6 && "number"@.len() == 6 && "out_template"@.len() == 12 && "output"@.len() == 6 && "pattern"@.len() == 7 && "slider"@.len() == 6 && "start"@.len() == 5 && "text"@.len() == 4 && "toggle"@.len() == 6);
    assert("files"@[0] == 'f' && "start"@[0] == 's' && "folder"@[0] == 'f' && "number"@[0] == 'n' && "output"@[0] == 'o' && "slider"@[0] == 's' && "toggle"@[0] == 't');
}

proof fn lemma_mediainfo_form()
    ensures
        told_apart(mediainfo_form()),
{
    reveal_strlit("file");
    reveal_strlit("files");
    reveal_strlit("input");
    reveal_strlit("number");
    reveal_strlit("out_template");
    reveal_strlit("output");
    reveal_strlit("slider");
    reveal_strlit("text");
    reveal_strlit("toggle");
    assert("file"@.len() == 4 && "files"@.len() == 5 && "input"@.len() == 5 && "number"@.len() == 6 && "out_template"@.len() == 12 && "output"@.len() == 6 && "slider"@.len() == 6 && "text"@.len() == 4 && "toggle"@.len() == 6);
    assert("file"@[0] == 'f' && "text"@[0] == 't' && "files"@[0] == 'f' && "input"@[0] == 'i' && "number"@[0] == 'n' && "output"@[0] == 'o' && "slider"@[0] == 's' && "toggle"@[0] == 't');
}

proof fn lemma_contact_sheet_form()
    ensures
        told_apart(contact_sheet_form()),
{
    reveal_strlit("cols");
    reveal_strlit("file");
    reveal_strlit("files");
    reveal_strlit("input");
    reveal_strlit("number");
    reveal_strlit("out_template");
    reveal_strlit("output");
    reveal_strlit("rows");
    reveal_strlit("slider");
    reveal_strlit("text");
    reveal_strlit("toggle");
    assert("cols"@.len() == 4 && "file"@.len() == 4 && "files"@.len() == 5 && "input"@.len() == 5 && "number"@.len() == 6 && "out_template"@.len() == 12 && "output"@.len() == 6 && "rows"@.len() == 4 && "slider"@.len() == 6 && "text"@.len() == 4 && "toggle"@.len() == 6);
    assert("cols"@[0] == 'c' && "file"@[0] == 'f' && "rows"@[0] == 'r' && "text"@[0] == 't' && "files"@[0] == 'f' && "input"@[0] == 'i' && "number"@[0] == 'n' && "output"@[0] == 'o' && "slider"@[0] == 's' && "toggle"@[0] == 't');
}

/// No form asks for the same thing twice.
pub proof fn law_no_form_asks_twice(kind: Seq<char>)
    ensures
        forall|i: int, j: int|
            0 <= i < j < fields_of(kind).len() ==> (#[trigger] fields_of(kind)[i]).key != (#[trigger] fields_of(kind)[j]).key,
        told_apart(fields_of(kind)),
{
    lemma_compress_video_form();
    lemma_compress_audio_form();
    lemma_compress_photo_form();
    lemma_convert_form();
    lemma_trim_form();
    lemma_resize_form();
    lemma_thumbnail_form();
    lemma_extract_form();
    lemma_normalize_form();
    lemma_watermark_form();
    lemma_burn_subs_form();
    lemma_split_form();
    lemma_merge_form();
    lemma_download_form();
    lemma_transcribe_form();
    lemma_hash_form();
    lemma_folder_diff_form();
    lemma_rename_form();
    lemma_mediainfo_form();
    lemma_contact_sheet_form();
}

proof fn lemma_default_of(fields: Seq<FieldView>, i: int)
    requires
        0 <= i < fields.len(),
        told_apart(fields),
    ensures
        default_of(fields, fields[i].key) == Some(fields[i].value),
    decreases fields.len(),
{
    let front = fields.drop_last();
    if i < front.len() {
        assert(fields[i].key != fields[fields.len() - 1].key);
        assert forall|a: int, b: int| 0 <= a < b < front.len() implies (#[trigger] front[a]).key != (#[trigger] front[b]).key by {
            assert(fields[a].key != fields[b].key);
        }
        assert forall|a: int| 0 <= a < front.len() implies (#[trigger] front[a]) == fields[a] by {}
        lemma_default_of(front, i);
    }
}

/// A form opens with each field at the value that the field starts with.
pub proof fn law_a_form_opens_at_its_defaults(kind: Seq<char>, i: int)
    requires
        0 <= i < fields_of(kind).len(),
    ensures
        default_of(fields_of(kind), fields_of(kind)[i].key) == Some(fields_of(kind)[i].value),
{
    law_no_form_asks_twice(kind);
    lemma_default_of(fields_of(kind), i);
}

/// Answers change what a field holds and nothing else of it; a field without an answer
/// stays as it was.
pub proof fn law_answers_change_the_values_alone(form: Form, i: int)
    requires
        0 <= i < fields_of(form.kind@).len(),
    ensures
        applied(form).len() == fields_of(form.kind@).len(),
        ({
            let (f, g) = (fields_of(form.kind@)[i], applied(form)[i]);
            &&& g.key == f.key && g.label == f.label && g.kind == f.kind && g.required == f.required && g.hint == f.hint
            &&& g.options == f.options && g.min == f.min && g.max == f.max
            &&& form.look(f.key) is None ==> g.value == f.value
            &&& form.look(f.key) matches Some(v) ==> g.value == v
        }),
{
}

/// The answer that was given last is the one that a key holds, and a key that nothing was
/// given under holds none.
pub proof fn law_an_answer_is_found_by_its_key(keys: Seq<Seq<char>>, values: Seq<Seq<char>>)
    requires
        keys.no_duplicates(),
    ensures
        forall|i: int| 0 <= i < keys.len() ==> answer(keys, values, #[trigger] keys[i]) == Some(values[i]),
        forall|k: Seq<char>| !keys.contains(k) ==> #[trigger] answer(keys, values, k) is None,
{
    assert forall|i: int| 0 <= i < keys.len() implies answer(keys, values, #[trigger] keys[i]) == Some(values[i]) by {
        lemma_answer_at(keys, values, i);
    }
    assert forall|k: Seq<char>| !keys.contains(k) implies #[trigger] answer(keys, values, k) is None by {
        lemma_answer_none(keys, values, k);
    }
}

proof fn lemma_kind_at(fields: Seq<FieldView>, i: int)
    requires
        0 <= i < fields.len(),
        told_apart(fields),
    ensures
        kind_at(fields, fields[i].key) == fields[i].kind,
    decreases fields.len(),
{
    if i > 0 {
        let rest = fields.skip(1);
        assert(fields[0].key != fields[i].key);
        assert forall|a: int, b: int| 0 <= a < b < rest.len() implies (#[trigger] rest[a]).key != (#[trigger] rest[b]).key by {
            assert(fields[a + 1].key != fields[b + 1].key);
        }
        assert forall|a: int| 0 <= a < rest.len() implies (#[trigger] rest[a]) == fields[a + 1] by {}
        lemma_kind_at(rest, i - 1);
    }
}

/// A field for a folder asks for a folder, one for files for several, any other for one.
pub proof fn law_a_field_asks_for_its_kind(kind: Seq<char>, i: int)
    requires
        0 <= i < fields_of(kind).len(),
    ensures
        ({
            let f = fields_of(kind)[i];
            &&& (picker_of(kind, f.key) is Folder) == (f.kind == "folder"@)
            &&& (picker_of(kind, f.key) is Files) == (f.kind == "files"@)
        }),
{
    reveal_strlit("folder");
    reveal_strlit("files");
    assert("folder"@.len() == 6 && "files"@.len() == 5);
    law_no_form_asks_twice(kind);
    lemma_kind_at(fields_of(kind), i);
}

proof fn lemma_kinds_apart()
    ensures
        fields_of("compress_video"@) == compress_video_form(),
        fields_of("compress_audio"@) == compress_audio_form(),
        fields_of("compress_photo"@) == compress_photo_form(),
        fields_of("convert"@) == convert_form(),
        fields_of("trim"@) == trim_form(),
        fields_of("resize"@) == resize_form(),
        fields_of("thumbnail"@) == thumbnail_form(),
        fields_of("extract"@) == extract_form(),
        fields_of("normalize"@) == normalize_form(),
        fields_of("watermark"@) == watermark_form(),
        fields_of("burn_subs"@) == burn_subs_form(),
        fields_of("split"@) == split_form(),
        fields_of("merge"@) == merge_form(),
        fields_of("download"@) == download_form(),
        fields_of("download_playlist"@) == download_form(),
        fields_of("download_live"@) == download_form(),
        fields_of("transcribe"@) == transcribe_form(),
        fields_of("hash"@) == hash_form(),
        fields_of("folder_diff"@) == folder_diff_form(),
        fields_of("rename"@) == rename_form(),
        fields_of("mediainfo"@) == mediainfo_form(),
        fields_of("contact_sheet"@) == contact_sheet_form(),
{
    reveal_strlit("compress_video");
    reveal_strlit("compress_audio");
    reveal_strlit("compress_photo");
    reveal_strlit("convert");
    reveal_strlit("trim");
    reveal_strlit("resize");
    reveal_strlit("thumbnail");
    reveal_strlit("extract");
    reveal_strlit("normalize");
    reveal_strlit("watermark");
    reveal_strlit("burn_subs");
    reveal_strlit("split");
    reveal_strlit("merge");
    reveal_strlit("download");
    reveal_strlit("download_playlist");
    reveal_strlit("download_live");
    reveal_strlit("transcribe");
    reveal_strlit("hash");
    reveal_strlit("folder_diff");
    reveal_strlit("rename");
    reveal_strlit("mediainfo");
    reveal_strlit("contact_sheet");
    assert("compress_video"@.len() == 14 && "compress_audio"@.len() == 14 && "compress_photo"@.len() == 14 && "convert"@.len() == 7 && "trim"@.len() == 4 && "resize"@.len() == 6 && "thumbnail"@.len() == 9 && "extract"@.len() == 7 && "normalize"@.len() == 9 && "watermark"@.len() == 9 && "burn_subs"@.len() == 9 && "split"@.len() == 5 && "merge"@.len() == 5 && "download"@.len() == 8 && "download_playlist"@.len() == 17 && "download_live"@.len() == 13 && "transcribe"@.len() == 10 && "hash"@.len() == 4 && "folder_diff"@.len() == 11 && "rename"@.len() == 6 && "mediainfo"@.len() == 9 && "contact_sheet"@.len() == 13);
    assert("compress_video"@[9] == 'v' && "compress_audio"@[9] == 'a' && "compress_photo"@[9] == 'p' && "convert"@[0] == 'c' && "extract"@[0] == 'e' && "trim"@[0] == 't' && "hash"@[0] == 'h' && "resize"@[2] == 's' && "rename"@[2] == 'n' && "thumbnail"@[0] == 't' && "normalize"@[0] == 'n' && "watermark"@[0] == 'w' && "burn_subs"@[0] == 'b' && "mediainfo"@[0] == 'm' && "split"@[0] == 's' && "merge"@[0] == 'm' && "download_live"@[0] == 'd' && "contact_sheet"@[0] == 'c');
}

/// What the form of "compress_video" asks for: the keys and kinds of its fields, what they start with,
/// which have to be answered, and between which limits or among which choices.
pub proof fn law_the_form_of_compress_video()
    ensures
        ({
            let f = fields_of("compress_video"@);
            &&& f.len() == 4
            &&& f[0].key == "input"@ && f[0].kind == "file"@ && f[0].value == ""@ && f[0].required && f[0].min == 0 && f[0].max == 0 && f[0].options.len() == 0
            &&& f[1].key == "codec"@ && f[1].kind == "dropdown"@ && f[1].value == "h264"@ && f[1].required && f[1].min == 0 && f[1].max == 0 && f[1].options == seq!["h264"@, "h265"@, "av1"@]
            &&& f[2].key == "crf"@ && f[2].kind == "slider"@ && f[2].value == "23"@ && !f[2].required && f[2].min == 18 && f[2].max == 35 && f[2].options.len() == 0
            &&& f[3].key == "output"@ && f[3].kind == "text"@ && f[3].value == ""@ && !f[3].required && f[3].min == 0 && f[3].max == 0 && f[3].options.len() == 0
        }),
{
    lemma_kinds_apart();
}

/// What the form of "compress_audio" asks for: the keys and kinds of its fields, what they start with,
/// which have to be answered, and between which limits or among which choices.
pub proof fn law_the_form_of_compress_audio()
    ensures
        ({
            let f = fields_of("compress_audio"@);
            &&& f.len() == 4
            &&& f[0].key == "input"@ && f[0].kind == "file"@ && f[0].value == ""@ && f[0].required && f[0].min == 0 && f[0].max == 0 && f[0].options.len() == 0
            &&& f[1].key == "codec"@ && f[1].kind == "dropdown"@ && f[1].value == "mp3"@ && f[1].required && f[1].min == 0 && f[1].max == 0 && f[1].options == seq!["mp3"@, "aac"@, "opus"@, "vorbis"@]
            &&& f[2].key == "kbps"@ && f[2].kind == "slider"@ && f[2].value == "192"@ && !f[2].required && f[2].min == 64 && f[2].max == 320 && f[2].options.len() == 0
            &&& f[3].key == "output"@ && f[3].kind == "text"@ && f[3].value == ""@ && !f[3].required && f[3].min == 0 && f[3].max == 0 && f[3].options.len() == 0
        }),
{
    lemma_kinds_apart();
}

/// What the form of "compress_photo" asks for: the keys and kinds of its fields, what they start with,
/// which have to be answered, and between which limits or among which choices.
pub proof fn law_the_form_of_compress_photo()
    ensures
        ({
            let f = fields_of("compress_photo"@);
            &&& f.len() == 4
            &&& f[0].key == "input"@ && f[0].kind == "file"@ && f[0].value == ""@ && f[0].required && f[0].min == 0 && f[0].max == 0 && f[0].options.len() == 0
            &&& f[1].key == "format"@ && f[1].kind == "dropdown"@ && f[1].value == "jpeg"@ && f[1].required && f[1].min == 0 && f[1].max == 0 && f[1].options == seq!["jpeg"@, "webp"@, "avif"@]
            &&& f[2].key == "quality"@ && f[2].kind == "slider"@ && f[2].value == "82"@ && !f[2].required && f[2].min == 1 && f[2].max == 100 && f[2].options.len() == 0
            &&& f[3].key == "output"@ && f[3].kind == "text"@ && f[3].value == ""@ && !f[3].required && f[3].min == 0 && f[3].max == 0 && f[3].options.len() == 0
        }),
{
    lemma_kinds_apart();
}

/// What the form of "convert" asks for: the keys and kinds of its fields, what they start with,
/// which have to be answered, and between which limits or among which choices.
pub proof fn law_the_form_of_convert()
    ensures
        ({
            let f = fields_of("convert"@);
            &&& f.len() == 3
            &&& f[0].key == "input"@ && f[0].kind == "file"@ && f[0].value == ""@ && f[0].required && f[0].min == 0 && f[0].max == 0 && f[0].options.len() == 0
            &&& f[1].key == "target_ext"@ && f[1].kind == "dropdown"@ && f[1].value == "mp4"@ && f[1].required && f[1].min == 0 && f[1].max == 0 && f[1].options == seq!["mp4"@, "mkv"@, "webm"@, "mp3"@, "m4a"@, "opus"@, "flac"@, "png"@, "jpg"@, "webp"@]
            &&& f[2].key == "output"@ && f[2].kind == "text"@ && f[2].value == ""@ && !f[2].required && f[2].min == 0 && f[2].max == 0 && f[2].options.len() == 0
        }),
{
    lemma_kinds_apart();
}

/// What the form of "trim" asks for: the keys and kinds of its fields, what they start with,
/// which have to be answered, and between which limits or among which choices.
pub proof fn law_the_form_of_trim()
    ensures
        ({
            let f = fields_of("trim"@);
            &&& f.len() == 5
            &&& f[0].key == "input"@ && f[0].kind == "file"@ && f[0].value == ""@ && f[0].required && f[0].min == 0 && f[0].max == 0 && f[0].options.len() == 0
            &&& f[1].key == "start_s"@ && f[1].kind == "number"@ && f[1].value == "0"@ && f[1].required && f[1].min == 0 && f[1].max == 0 && f[1].options.len() == 0
            &&& f[2].key == "end_s"@ && f[2].kind == "number"@ && f[2].value == ""@ && f[2].required && f[2].min == 0 && f[2].max == 0 && f[2].options.len() == 0
            &&& f[3].key == "lossless"@ && f[3].kind == "toggle"@ && f[3].value == "true"@ && !f[3].required && f[3].min == 0 && f[3].max == 0 && f[3].options.len() == 0
            &&& f[4].key == "output"@ && f[4].kind == "text"@ && f[4].value == ""@ && !f[4].required && f[4].min == 0 && f[4].max == 0 && f[4].options.len() == 0
        }),
{
    lemma_kinds_apart();
}

/// What the form of "resize" asks for: the keys and kinds of its fields, what they start with,
/// which have to be answered, and between which limits or among which choices.
pub proof fn law_the_form_of_resize()
    ensures
        ({
            let f = fields_of("resize"@);
            &&& f.len() == 5
            &&& f[0].key == "input"@ && f[0].kind == "file"@ && f[0].value == ""@ && f[0].required && f[0].min == 0 && f[0].max == 0 && f[0].options.len() == 0
            &&& f[1].key == "mode"@ && f[1].kind == "dropdown"@ && f[1].value == "fit"@ && !f[1].required && f[1].min == 0 && f[1].max == 0 && f[1].options == seq!["fit"@, "exact"@, "width"@, "height"@]
            &&& f[2].key == "w"@ && f[2].kind == "number"@ && f[2].value == "1920"@ && f[2].required && f[2].min == 0 && f[2].max == 0 && f[2].options.len() == 0
            &&& f[3].key == "h"@ && f[3].kind == "number"@ && f[3].value == "1080"@ && f[3].required && f[3].min == 0 && f[3].max == 0 && f[3].options.len() == 0
            &&& f[4].key == "output"@ && f[4].kind == "text"@ && f[4].value == ""@ && !f[4].required && f[4].min == 0 && f[4].max == 0 && f[4].options.len() == 0
        }),
{
    lemma_kinds_apart();
}

/// What the form of "thumbnail" asks for: the keys and kinds of its fields, what they start with,
/// which have to be answered, and between which limits or among which choices.
pub proof fn law_the_form_of_thumbnail()
    ensures
        ({
            let f = fields_of("thumbnail"@);
            &&& f.len() == 4
            &&& f[0].key == "input"@ && f[0].kind == "file"@ && f[0].value == ""@ && f[0].required && f[0].min == 0 && f[0].max == 0 && f[0].options.len() == 0
            &&& f[1].key == "at_s"@ && f[1].kind == "number"@ && f[1].value == "1"@ && !f[1].required && f[1].min == 0 && f[1].max == 0 && f[1].options.len() == 0
            &&& f[2].key == "width"@ && f[2].kind == "number"@ && f[2].value == "320"@ && !f[2].required && f[2].min == 0 && f[2].max == 0 && f[2].options.len() == 0
            &&& f[3].key == "output"@ && f[3].kind == "text"@ && f[3].value == ""@ && !f[3].required && f[3].min == 0 && f[3].max == 0 && f[3].options.len() == 0
        }),
{
    lemma_kinds_apart();
}

/// What the form of "extract" asks for: the keys and kinds of its fields, what they start with,
/// which have to be answered, and between which limits or among which choices.
pub proof fn law_the_form_of_extract()
    ensures
        ({
            let f = fields_of("extract"@);
            &&& f.len() == 4
            &&& f[0].key == "input"@ && f[0].kind == "file"@ && f[0].value == ""@ && f[0].required && f[0].min == 0 && f[0].max == 0 && f[0].options.len() == 0
            &&& f[1].key == "stream"@ && f[1].kind == "dropdown"@ && f[1].value == "audio"@ && f[1].required && f[1].min == 0 && f[1].max == 0 && f[1].options == seq!["audio"@, "subtitle"@]
            &&& f[2].key == "index"@ && f[2].kind == "number"@ && f[2].value == "0"@ && !f[2].required && f[2].min == 0 && f[2].max == 0 && f[2].options.len() == 0
            &&& f[3].key == "output"@ && f[3].kind == "text"@ && f[3].value == ""@ && !f[3].required && f[3].min == 0 && f[3].max == 0 && f[3].options.len() == 0
        }),
{
    lemma_kinds_apart();
}

/// What the form of "normalize" asks for: the keys and kinds of its fields, what they start with,
/// which have to be answered, and between which limits or among which choices.
pub proof fn law_the_form_of_normalize()
    ensures
        ({
            let f = fields_of("normalize"@);
            &&& f.len() == 3
            &&& f[0].key == "input"@ && f[0].kind == "file"@ && f[0].value == ""@ && f[0].required && f[0].min == 0 && f[0].max == 0 && f[0].options.len() == 0
            &&& f[1].key == "lufs"@ && f[1].kind == "number"@ && f[1].value == "-23"@ && !f[1].required && f[1].min == 0 && f[1].max == 0 && f[1].options.len() == 0
            &&& f[2].key == "output"@ && f[2].kind == "text"@ && f[2].value == ""@ && !f[2].required && f[2].min == 0 && f[2].max == 0 && f[2].options.len() == 0
        }),
{
    lemma_kinds_apart();
}

/// What the form of "watermark" asks for: the keys and kinds of its fields, what they start with,
/// which have to be answered, and between which limits or among which choices.
pub proof fn law_the_form_of_watermark()
    ensures
        ({
            let f = fields_of("watermark"@);
            &&& f.len() == 3
            &&& f[0].key == "input"@ && f[0].kind == "file"@ && f[0].value == ""@ && f[0].required && f[0].min == 0 && f[0].max == 0 && f[0].options.len() == 0
            &&& f[1].key == "text"@ && f[1].kind == "text"@ && f[1].value == ""@ && f[1].required && f[1].min == 0 && f[1].max == 0 && f[1].options.len() == 0
            &&& f[2].key == "output"@ && f[2].kind == "text"@ && f[2].value == ""@ && !f[2].required && f[2].min == 0 && f[2].max == 0 && f[2].options.len() == 0
        }),
{
    lemma_kinds_apart();
}

/// What the form of "burn_subs" asks for: the keys and kinds of its fields, what they start with,
/// which have to be answered, and between which limits or among which choices.
pub proof fn law_the_form_of_burn_subs()
    ensures
        ({
            let f = fields_of("burn_subs"@);
            &&& f.len() == 3
            &&& f[0].key == "input"@ && f[0].kind == "file"@ && f[0].value == ""@ && f[0].required && f[0].min == 0 && f[0].max == 0 && f[0].options.len() == 0
            &&& f[1].key == "sub"@ && f[1].kind == "file"@ && f[1].value == ""@ && f[1].required && f[1].min == 0 && f[1].max == 0 && f[1].options.len() == 0
            &&& f[2].key == "output"@ && f[2].kind == "text"@ && f[2].value == ""@ && !f[2].required && f[2].min == 0 && f[2].max == 0 && f[2].options.len() == 0
        }),
{
    lemma_kinds_apart();
}

/// What the form of "split" asks for: the keys and kinds of its fields, what they start with,
/// which have to be answered, and between which limits or among which choices.
pub proof fn law_the_form_of_split()
    ensures
        ({
            let f = fields_of("split"@);
            &&& f.len() == 3
            &&& f[0].key == "input"@ && f[0].kind == "file"@ && f[0].value == ""@ && f[0].required && f[0].min == 0 && f[0].max == 0 && f[0].options.len() == 0
            &&& f[1].key == "every_s"@ && f[1].kind == "number"@ && f[1].value == "60"@ && f[1].required && f[1].min == 0 && f[1].max == 0 && f[1].options.len() == 0
            &&& f[2].key == "output"@ && f[2].kind == "text"@ && f[2].value == ""@ && !f[2].required && f[2].min == 0 && f[2].max == 0 && f[2].options.len() == 0
        }),
{
    lemma_kinds_apart();
}

/// What the form of "merge" asks for: the keys and kinds of its fields, what they start with,
/// which have to be answered, and between which limits or among which choices.
pub proof fn law_the_form_of_merge()
    ensures
        ({
            let f = fields_of("merge"@);
            &&& f.len() == 2
            &&& f[0].key == "inputs"@ && f[0].kind == "files"@ && f[0].value == ""@ && f[0].required && f[0].min == 0 && f[0].max == 0 && f[0].options.len() == 0
            &&& f[1].key == "output"@ && f[1].kind == "text"@ && f[1].value == ""@ && f[1].required && f[1].min == 0 && f[1].max == 0 && f[1].options.len() == 0
        }),
{
    lemma_kinds_apart();
}

/// What the form of "download" asks for: the keys and kinds of its fields, what they start with,
/// which have to be answered, and between which limits or among which choices.
pub proof fn law_the_form_of_download()
    ensures
        ({
            let f = fields_of("download"@);
            &&& f.len() == 6
            &&& f[0].key == "url"@ && f[0].kind == "text"@ && f[0].value == ""@ && f[0].required && f[0].min == 0 && f[0].max == 0 && f[0].options.len() == 0
            &&& f[1].key == "audio_only"@ && f[1].kind == "toggle"@ && f[1].value == "false"@ && !f[1].required && f[1].min == 0 && f[1].max == 0 && f[1].options.len() == 0
            &&& f[2].key == "max_height"@ && f[2].kind == "dropdown"@ && f[2].value == "1080"@ && !f[2].required && f[2].min == 0 && f[2].max == 0 && f[2].options == seq!["Best"@, "2160"@, "1440"@, "1080"@, "720"@, "480"@, "360"@, "240"@]
            &&& f[3].key == "embed_subs"@ && f[3].kind == "toggle"@ && f[3].value == "false"@ && !f[3].required && f[3].min == 0 && f[3].max == 0 && f[3].options.len() == 0
            &&& f[4].key == "embed_thumbnail"@ && f[4].kind == "toggle"@ && f[4].value == "false"@ && !f[4].required && f[4].min == 0 && f[4].max == 0 && f[4].options.len() == 0
            &&& f[5].key == "output"@ && f[5].kind == "folder"@ && f[5].value == ""@ && !f[5].required && f[5].min == 0 && f[5].max == 0 && f[5].options.len() == 0
        }),
{
    lemma_kinds_apart();
}

/// What the form of "transcribe" asks for: the keys and kinds of its fields, what they start with,
/// which have to be answered, and between which limits or among which choices.
pub proof fn law_the_form_of_transcribe()
    ensures
        ({
            let f = fields_of("transcribe"@);
            &&& f.len() == 4
            &&& f[0].key == "input"@ && f[0].kind == "file"@ && f[0].value == ""@ && f[0].required && f[0].min == 0 && f[0].max == 0 && f[0].options.len() == 0
            &&& f[1].key == "language"@ && f[1].kind == "dropdown"@ && f[1].value == "auto"@ && !f[1].required && f[1].min == 0 && f[1].max == 0 && f[1].options == seq!["auto"@, "en"@, "es"@, "fr"@, "de"@, "it"@, "pt"@, "nl"@, "ru"@, "uk"@, "pl"@, "tr"@, "ar"@, "fa"@, "hi"@, "ur"@, "bn"@, "ta"@, "th"@, "vi"@, "id"@, "ja"@, "ko"@, "zh"@]
            &&& f[2].key == "translate"@ && f[2].kind == "toggle"@ && f[2].value == "false"@ && !f[2].required && f[2].min == 0 && f[2].max == 0 && f[2].options.len() == 0
            &&& f[3].key == "output"@ && f[3].kind == "text"@ && f[3].value == ""@ && !f[3].required && f[3].min == 0 && f[3].max == 0 && f[3].options.len() == 0
        }),
{
    lemma_kinds_apart();
}

/// What the form of "hash" asks for: the keys and kinds of its fields, what they start with,
/// which have to be answered, and between which limits or among which choices.
pub proof fn law_the_form_of_hash()
    ensures
        ({
            let f = fields_of("hash"@);
            &&& f.len() == 2
            &&& f[0].key == "files"@ && f[0].kind == "files"@ && f[0].value == ""@ && f[0].required && f[0].min == 0 && f[0].max == 0 && f[0].options.len() == 0
            &&& f[1].key == "manifest"@ && f[1].kind == "text"@ && f[1].value == ""@ && !f[1].required && f[1].min == 0 && f[1].max == 0 && f[1].options.len() == 0
        }),
{
    lemma_kinds_apart();
}

/// What the form of "folder_diff" asks for: the keys and kinds of its fields, what they start with,
/// which have to be answered, and between which limits or among which choices.
pub proof fn law_the_form_of_folder_diff()
    ensures
        ({
            let f = fields_of("folder_diff"@);
            &&& f.len() == 2
            &&& f[0].key == "a"@ && f[0].kind == "folder"@ && f[0].value == ""@ && f[0].required && f[0].min == 0 && f[0].max == 0 && f[0].options.len() == 0
            &&& f[1].key == "b"@ && f[1].kind == "folder"@ && f[1].value == ""@ && f[1].required && f[1].min == 0 && f[1].max == 0 && f[1].options.len() == 0
        }),
{
    lemma_kinds_apart();
}

/// What the form of "rename" asks for: the keys and kinds of its fields, what they start with,
/// which have to be answered, and between which limits or among which choices.
pub proof fn law_the_form_of_rename()
    ensures
        ({
            let f = fields_of("rename"@);
            &&& f.len() == 3
            &&& f[0].key == "dir"@ && f[0].kind == "folder"@ && f[0].value == ""@ && f[0].required && f[0].min == 0 && f[0].max == 0 && f[0].options.len() == 0
            &&& f[1].key == "pattern"@ && f[1].kind == "text"@ && f[1].value == "{n:03}_{name}"@ && f[1].required && f[1].min == 0 && f[1].max == 0 && f[1].options.len() == 0
            &&& f[2].key == "start"@ && f[2].kind == "number"@ && f[2].value == "1"@ && !f[2].required && f[2].min == 0 && f[2].max == 0 && f[2].options.len() == 0
        }),
{
    lemma_kinds_apart();
}

/// What the form of "mediainfo" asks for: the keys and kinds of its fields, what they start with,
/// which have to be answered, and between which limits or among which choices.
pub proof fn law_the_form_of_mediainfo()
    ensures
        ({
            let f = fields_of("mediainfo"@);
            &&& f.len() == 2
            &&& f[0].key == "input"@ && f[0].kind == "file"@ && f[0].value == ""@ && f[0].required && f[0].min == 0 && f[0].max == 0 && f[0].options.len() == 0
            &&& f[1].key == "output"@ && f[1].kind == "text"@ && f[1].value == ""@ && !f[1].required && f[1].min == 0 && f[1].max == 0 && f[1].options.len() == 0
        }),
{
    lemma_kinds_apart();
}

/// What the form of "contact_sheet" asks for: the keys and kinds of its fields, what they start with,
/// which have to be answered, and between which limits or among which choices.
pub proof fn law_the_form_of_contact_sheet()
    ensures
        ({
            let f = fields_of("contact_sheet"@);
            &&& f.len() == 4
            &&& f[0].key == "input"@ && f[0].kind == "file"@ && f[0].value == ""@ && f[0].required && f[0].min == 0 && f[0].max == 0 && f[0].options.len() == 0
            &&& f[1].key == "cols"@ && f[1].kind == "number"@ && f[1].value == "4"@ && !f[1].required && f[1].min == 0 && f[1].max == 0 && f[1].options.len() == 0
            &&& f[2].key == "rows"@ && f[2].kind == "number"@ && f[2].value == "4"@ && !f[2].required && f[2].min == 0 && f[2].max == 0 && f[2].options.len() == 0
            &&& f[3].key == "output"@ && f[3].kind == "text"@ && f[3].value == ""@ && !f[3].required && f[3].min == 0 && f[3].max == 0 && f[3].options.len() == 0
        }),
{
    lemma_kinds_apart();
}

/// The three kinds of download share one form, and a kind without options has none.
pub proof fn law_downloads_share_a_form(kind: Seq<char>)
    ensures
        fields_of("download_playlist"@) == fields_of("download"@),
        fields_of("download_live"@) == fields_of("download"@),
        kind != "compress_video"@ && kind != "compress_audio"@ && kind != "compress_photo"@ && kind != "convert"@ && kind != "trim"@ && kind != "resize"@ && kind != "thumbnail"@ && kind != "extract"@ && kind != "normalize"@ && kind != "watermark"@ && kind != "burn_subs"@ && kind != "split"@ && kind != "merge"@ && kind != "download"@ && kind != "download_playlist"@ && kind != "download_live"@ && kind != "transcribe"@ && kind != "hash"@ && kind != "folder_diff"@ && kind != "rename"@ && kind != "mediainfo"@ && kind != "contact_sheet"@ ==> fields_of(kind).len() == 0,
{
    lemma_kinds_apart();
}

} // verus!
