use tulipix::double::{Double, Number};
use tulipix::tools::catalog::{catalog, every_row, op_total, tool_info, tool_label, tools_refresh};
use tulipix::tools::form::{field_picker, tool_fields, tools_apply_form, Form, Picker};
use tulipix::tools::job::{build_spec_at, is_download, listed_files, spec_text, tools_build_spec, SpecValue};
use tulipix::tools::media::{
    fmt_bitrate, fmt_bytes, fmt_duration, fmt_fps, human_bytes, figures, mediainfo_rows, probe_of,
    probe_texts, Probe, ProbedFormat,
};
use tulipix::tools::native::{diff_title, folderdiff_rows, may_rename, Act, Native, NativeRun, Told};
use tulipix::tools::paths::{beside, beside_source, ext_of, file_extension, file_stem, join_path};
use tulipix::tools::programs::{
    folders_beside, folders_to_try, list_downloaded, model_status, needed, tool_source, tool_status, tool_version, whisper_bin,
    Candidate, Written,
};
use tulipix::tools::progress::{heard_until, is_news, part_of, step_share, transcribed, whisper_stamp, Download, Heard};
use tulipix::tools::queue::{
    job_heading, mentioned, percent_of, queue_action, queue_header, queue_jobs, queue_summary, truncate_msg, Console,
    JobRow, QueueAct,
};
use tulipix::tools::run::{
    clashes, named_paths, run_form, run_with, sources, submission, validate, writes_over, Run, CLASH, DUPLICATE,
};
use tulipix::tools::step::{Step, StepAct, StepRun};
use tulipix::tools::tree::{folder_hash_map, Hashed, TreeAct, TreeRun};
use tulipix::tools::wire::{Ask, Bench, Do};
use tulipix::tools::worker::{
    jobs_to_stop, tools_open_job_output, tools_start_worker, JobAct, JobHeard, JobRun, Next, Turn,
};
use tulipix::tools::trim::{
    concat_body, concat_call, cut_call, cut_failure, drawn_status, filmstrip_filter, joined_status, trim_editor,
    trim_output, Segments,
};

fn any(x: f64) -> Number {
    Number::from_bits(x.to_bits())
}

fn dbl(x: f64) -> Double {
    Double::from_bits(x.to_bits()).unwrap()
}

fn num(x: f64) -> Option<Number> {
    Some(Number::from_bits(x.to_bits()))
}

fn shown(d: &Double, k: u32) -> String {
    let mut s = String::new();
    d.push_text(&mut s, k);
    s
}

#[test]
fn the_catalogue_is_whole() {
    assert_eq!(op_total(), 23);
    assert_eq!(every_row().len(), 23);
    for c in catalog() {
        for op in c.ops {
            assert!(!tool_info(op.kind).is_empty(), "{}", op.kind);
            assert_ne!(tool_label(op.kind), "Job");
        }
    }
    let found = tools_refresh("", "TRIM");
    assert!(found.rows.iter().any(|r| r.kind == "trim"));
    assert!(tools_refresh("", "no such tool").rows.is_empty());
}

#[test]
fn forms_keep_what_is_typed() {
    let mut f = Form::seeded("convert");
    assert_eq!(f.kind, "convert");
    f.set("input", "/a/b.mkv");
    f.set("input", "/a/c.mkv");
    assert_eq!(f.get("input").unwrap(), "/a/c.mkv");
    assert!(f.get("nothing").is_none());
    let fields = tools_apply_form(&f);
    assert_eq!(fields.len(), tool_fields("convert").len());
    assert!(fields.iter().any(|x| x.key == "input" && x.value == "/a/c.mkv"));
    assert!(tool_fields("no such tool").is_empty());
    assert!(matches!(field_picker("convert", "input"), Picker::File));
    assert!(Form::none().kind.is_empty());
}

#[test]
fn results_lie_beside_their_source() {
    assert_eq!(file_stem("movie.tar.gz"), "movie.tar");
    assert_eq!(file_stem(".bashrc"), ".bashrc");
    assert_eq!(file_extension("movie.mkv").as_deref(), Some("mkv"));
    assert_eq!(file_extension(".bashrc"), None);
    assert_eq!(join_path("/a", '/', "b"), "/a/b");
    assert_eq!(join_path("C:", '\\', "b"), "C:b");
    assert_eq!(join_path("C:\\", '\\', "b"), "C:\\b");
    assert_eq!(join_path("CC:", '\\', "b"), "CC:\\b");
    assert_eq!(join_path("C:", '/', "b"), "C:/b");
    assert_eq!(beside_source("/x.mkv", "thumb", "jpg"), "/x.thumb.jpg");
    assert_eq!(ext_of("/v/Dune: Part Two.mkv"), "mkv");
    assert_eq!(ext_of("/v/movie.mkv/"), "mkv");
    assert_eq!(ext_of("/v/movie.mkv/.."), "out");
    let sep = std::path::MAIN_SEPARATOR;
    assert_eq!(ext_of("movie.mkv"), "mkv");
    assert_eq!(beside(&Some("/v".into()), &Some("movie.mkv".into()), '/', "tulipix", "mp4"), "/v/movie.tulipix.mp4");
    assert_eq!(beside(&Some("/v".into()), &Some("movie.mkv".into()), '/', "", "srt"), "/v/movie.srt");
    assert_eq!(beside_source("movie.mkv", "thumb", "jpg"), "movie.thumb.jpg");
    let p = format!("dir{sep}movie.mkv");
    assert_eq!(beside_source(&p, "thumb", "jpg"), format!("dir{sep}movie.thumb.jpg"));
}

#[test]
fn a_form_becomes_a_job() {
    assert_eq!(listed_files(" a \n\n b\n"), ["a", "b"]);
    assert!(is_download("download") && !is_download("trim"));
    let mut f = Form::seeded("convert");
    f.set("input", "/v/movie.mkv");
    f.set("target_ext", "webm");
    let spec = build_spec_at(&f, &Some("/v".into()), &Some("movie.mkv".into()), '/', "/home/a");
    assert!(matches!(spec.get("output"), Some(SpecValue::Text(o)) if o == "/v/movie.tulipix.webm"));
    assert!(!clashes(&spec));
    let s2 = tools_build_spec(&f, "/home/a");
    assert!(matches!(s2.get("output"), Some(SpecValue::Text(o)) if o.ends_with("movie.tulipix.webm")));
    f.set("output", "/v/movie.mkv");
    assert!(clashes(&tools_build_spec(&f, "/home/a")));
    assert!(matches!(run_form(&f, &vec![], "/home/a"), Run::Refused(m) if m == CLASH));
    let empty = Form::seeded("convert");
    assert!(validate(&empty, &vec![]).is_some());
    f.set("output", "");
    assert_eq!(validate(&f, &vec![]), None);
    assert!(validate(&f, &vec!["/v/movie.mkv".into()]).is_some(), "the source is gone");
    assert!(matches!(run_form(&f, &vec![], "/home/a"), Run::Ready(_)));
    assert!(matches!(run_form(&Form::none(), &vec![], "/home/a"), Run::Nothing));
    assert_eq!(submission(Some(true)), Some(DUPLICATE));
    assert_eq!(submission(Some(false)), None);
}

#[test]
fn a_job_that_writes_over_its_source_is_refused() {
    let mut f = Form::seeded("convert");
    f.set("input", "/v/a.mp4");
    f.set("target_ext", "mp4");
    let outcome = |f: &Form| match run_form(f, &vec![], "/home/a") {
        Run::Refused(e) => e == CLASH,
        Run::Ready(_) => false,
        Run::Nothing => unreachable!(),
    };
    for out in ["/v/a.mp4", "/v//a.mp4", "/v/./a.mp4", "/v/a.mp4/", "/v/a.mp4/.", "/./v/a.mp4"] {
        f.set("output", out);
        assert!(clashes(&tools_build_spec(&f, "/home/a")), "{out}");
        assert!(outcome(&f), "{out}");
    }
    for out in ["/w/a.mp4", "/v/b.mp4", "v/a.mp4", "/v/../v/a.mp4", "/V/a.mp4", "./v/a.mp4", "/v/a"] {
        f.set("output", out);
        assert!(!clashes(&tools_build_spec(&f, "/home/a")), "{out}");
        assert!(!outcome(&f), "{out}");
    }
    f.set("input", "a.mp4");
    f.set("output", "./a.mp4");
    assert!(!outcome(&f), "a point in front is kept");
    f.set("input", "C:\\v\\a.mp4");
    f.set("output", "C:\\v\\b.mp4");
    assert!(!outcome(&f));
    f.set("output", "C:\\v\\a.mp4");
    assert!(outcome(&f));
    // Whatever the platform answers, the answers decide.
    let spec = tools_build_spec(&f, "/home/a");
    assert_eq!(sources(&spec), ["C:\\v\\a.mp4"]);
    assert!(writes_over(&spec, &vec![true]) && !writes_over(&spec, &vec![false]));
    assert!(matches!(run_with(&f, &vec![], tools_build_spec(&f, "/home/a"), &vec![true]), Run::Refused(m) if m == CLASH));
    assert!(matches!(run_with(&f, &vec![], tools_build_spec(&f, "/home/a"), &vec![false]), Run::Ready(_)));
    assert!(matches!(run_with(&Form::none(), &vec![], spec, &vec![true]), Run::Nothing));
}

#[test]
fn a_probe_is_read_out_of_its_bytes() {
    assert!(probe_texts(b"no json").is_none());
    let none = probe_texts(b"[1]").unwrap();
    assert!(none.format.is_none() && none.streams.is_empty());
    let none = probe_texts(br#"{"streams":{"0":{"codec_type":"video"}}}"#).unwrap();
    assert!(none.streams.is_empty(), "no array");
    let p = probe_texts(
        br#"{"streams":[
            {"codec_type":"video","codec_name":"h264","width":1920,"height":1080,"pix_fmt":"yuv420p",
             "r_frame_rate":"30000/1001","bit_rate":"5000000","tags":{"language":7}},
            {"codec_type":"audio","channels":2,"sample_rate":"48000","r_frame_rate":"30",
             "tags":{"language":"eng"},"bit_rate":null}],
            "format":{"format_long_name":"QuickTime / MOV","duration":"61.5","size":2048,"nb_streams":2}}"#,
    )
    .unwrap();
    let read: Vec<Option<Number>> = figures(&p).iter().map(|t| t.parse::<f64>().ok().map(any)).collect();
    let f = p.format.as_ref().unwrap();
    assert_eq!((f.long_name.as_str(), f.duration.as_str(), f.size.as_str()), ("QuickTime / MOV", "61.5", "2048"));
    assert_eq!((f.bit_rate.as_str(), f.streams.as_str()), ("", "2"));
    assert_eq!(p.streams.len(), 2);
    let (v, a) = (&p.streams[0], &p.streams[1]);
    assert_eq!((v.codec_type.as_str(), v.codec_name.as_str(), v.pix_fmt.as_str()), ("video", "h264", "yuv420p"));
    assert_eq!((v.width.as_str(), v.height.as_str(), v.bit_rate.as_str()), ("1920", "1080", "5000000"));
    assert_eq!(v.rate, Some(("30000".into(), "1001".into())));
    assert_eq!(v.language, "", "only a string names a language");
    assert_eq!((a.codec_type.as_str(), a.channels.as_str(), a.sample_rate.as_str()), ("audio", "2", "48000"));
    assert_eq!((a.language.as_str(), a.bit_rate.as_str()), ("eng", "null"));
    assert_eq!(a.rate, None);
    let rows = mediainfo_rows(&probe_of(p, &read));
    let rows: Vec<(&str, &str, &str)> =
        rows.iter().map(|r| (r.section.as_str(), r.key.as_str(), r.value.as_str())).collect();
    assert_eq!(
        rows,
        [
            ("General", "Format", "QuickTime / MOV"),
            ("General", "Duration", "00:01:01"),
            ("General", "Size", "2.0 KB"),
            ("General", "Streams", "2"),
            ("Video 1", "Codec", "h264"),
            ("Video 1", "Resolution", "1920×1080"),
            ("Video 1", "Pixel format", "yuv420p"),
            ("Video 1", "Frame rate", "29.970 fps"),
            ("Video 1", "Bitrate", "5.0 Mbps"),
            ("Audio 1", "Channels", "2"),
            ("Audio 1", "Sample rate", "48000 Hz"),
            ("Audio 1", "Language", "eng"),
        ]
    );
}

#[test]
fn media_figures_read_as_floats_do() {
    for n in [0u64, 1023, 1024, 1536, 1_048_576, 5_000_000, 1_073_741_824, u64::MAX] {
        let want = if n >= 1_073_741_824 {
            format!("{:.1} GB", n as f64 / 1_073_741_824.0)
        } else if n >= 1_048_576 {
            format!("{:.1} MB", n as f64 / 1_048_576.0)
        } else if n >= 1024 {
            format!("{:.0} KB", n as f64 / 1024.0)
        } else {
            format!("{n} B")
        };
        assert_eq!(human_bytes(n), want);
    }
    for b in [0.0, 1023.0, 1024.0, 123456789.0, 1e18, -5.0, 0.1, f64::INFINITY] {
        let u = ["B", "KB", "MB", "GB", "TB"];
        let (mut x, mut i) = (b, 0usize);
        while x >= 1024.0 && i < u.len() - 1 {
            x /= 1024.0;
            i += 1;
        }
        assert_eq!(fmt_bytes(&num(b)), format!("{x:.1} {}", u[i]));
        let want = if b >= 1_000_000.0 { format!("{:.1} Mbps", b / 1_000_000.0) } else { format!("{:.0} kbps", b / 1000.0) };
        assert_eq!(fmt_bitrate(&num(b)), want);
        let t = b as i64;
        assert_eq!(fmt_duration(&num(b)), format!("{:02}:{:02}:{:02}", t / 3600, (t % 3600) / 60, t % 60));
    }
    assert_eq!(fmt_bytes(&None), "");
    assert_eq!(fmt_bitrate(&None), "");
    assert_eq!(fmt_duration(&None), "");
    for (n, d) in [(30000.0, 1001.0), (25.0, 1.0), (0.0, 1.0), (60.0, 2.0), (24.0, 0.0)] {
        let want = if d > 0.0 { format!("{:.3} fps", n / d).replace(".000 ", " ") } else { String::new() };
        assert_eq!(fmt_fps(&num(n), &num(d)), want);
    }
    let rows = mediainfo_rows(&Probe {
        format: Some(ProbedFormat {
            long_name: "Matroska".into(),
            duration: num(61.5),
            size: num(2048.0),
            bit_rate: None,
            streams: "2".into(),
        }),
        streams: vec![],
    });
    assert!(rows.iter().any(|r| r.key == "Duration" && r.value == "00:01:01"));
    assert!(rows.iter().any(|r| r.key == "Size" && r.value == "2.0 KB"));
}

fn job(id: i64, kind: &str, state: &str, p: f64, m: Option<&str>) -> JobRow {
    JobRow { id, kind: kind.into(), state: state.into(), progress: any(p), message: m.map(|s| s.into()) }
}

#[test]
fn the_queue_in_a_line() {
    let rows = vec![
        job(3, "trim", "running", 0.505, None),
        job(2, "convert", "queued", 0.0, None),
        job(1, "convert", "done", 1.0, Some("saved")),
    ];
    assert_eq!(queue_summary(&rows), "1 running · 1 queued");
    assert_eq!(queue_summary(&vec![]), "Idle");
    assert_eq!(queue_header(&rows, "", ""), "1 running · 1 queued");
    assert_eq!(queue_header(&rows, "convert", "Convert"), "Convert · queued");
    assert!(queue_header(&rows, "trim", "Trim").starts_with("Trim · "));
    assert_eq!(queue_jobs(&rows, "convert").len(), 2);
    assert_eq!(queue_jobs(&rows, "").len(), 3);
    for p in [0.0, 0.004999, 0.005, 0.125, 0.999, 1.0] {
        assert_eq!(percent_of(&any(p)), (p * 100.0f64).round() as i64);
    }
    for p in [f64::INFINITY, f64::NEG_INFINITY, f64::NAN, f64::MAX, -1e300, 5e-324] {
        assert_eq!(percent_of(&any(p)), (p * 100.0).round() as i32 as i64);
    }
    let odd = vec![job(1, "trim", "running", f64::INFINITY, None), job(2, "trim", "running", f64::NAN, None)];
    assert_eq!(queue_header(&odd, "trim", "Trim"), "Trim · 2147483647%");
    assert_eq!(queue_jobs(&odd, "trim").len(), 2, "no row is lost");
    assert_eq!(queue_action("pause"), (QueueAct::Pause, true));
    assert_eq!(queue_action("up"), (QueueAct::Up, false));
    assert_eq!(queue_action("odd").0, QueueAct::Nothing);
    assert!(job_heading("trim", 7).contains('7'));
    assert_eq!(truncate_msg("  hi "), "hi");
    assert_eq!(truncate_msg(&"é".repeat(250)).chars().count(), 200);
    assert_eq!(mentioned(&vec!["a".into(), "b".into(), "a".into()]).len(), 2);
}

#[test]
fn the_console_stays_small() {
    let mut c = Console::new();
    c.reset("heading");
    assert_eq!(c.bytes, b"heading\n");
    for i in 0..20_000 {
        let line = format!("line {i} é");
        assert!(c.takes(&line));
        c.push(&line);
    }
    let text = String::from_utf8(c.bytes.clone()).unwrap();
    assert!(text.ends_with("line 19999 é\n"));
    assert!(text.len() < 100_000);
    c.clear();
    assert!(c.bytes.is_empty());
}

#[test]
fn steps_share_the_bar() {
    assert_eq!(shown(&step_share(1, 3).base, 5), format!("{:.5}", 1.0 / 3.0));
    assert_eq!(shown(&part_of(2, 7), 5), format!("{:.5}", 2.0 / 7.0));
    assert!(is_news(&dbl(0.1), &dbl(0.2)));
    assert!(!is_news(&dbl(0.1), &dbl(0.1)));
    assert_eq!(
        whisper_stamp("[00:01:02.500 --> 00:01:04.000] hi"),
        Some(("00".into(), "01".into(), "02.500".into()))
    );
    assert_eq!(whisper_stamp("no stamp"), None);
    let f = transcribed(&dbl(0.0), &dbl(1.0), &dbl(2.5), &dbl(125.0));
    assert_eq!(shown(&f, 3), format!("{:.3}", 62.5 / 125.0));
    let at = |h: f64, m: f64, s: f64, length: f64| heard_until(&any(h), &any(m), &any(s), &any(length));
    for (h, m, s, length) in
        [(0.0, 1.0, 2.5, 125.0), (1.0, 59.0, 59.9, 7200.0), (9.0, 0.0, 0.0, 60.0), (1e300, 1.0, 0.1, 1e308), (0.0, -0.0, 5e-324, 2.0)]
    {
        let whole: f64 = h * 3600.0 + m * 60.0 + s;
        let f = (whole / length).clamp(0.0, 1.0);
        assert_eq!(shown(&at(h, m, s, length).unwrap(), 5), format!("{f:.5}"));
    }
    assert_eq!(at(0.0, 1.0, 0.0, 1e13), Some(dbl(60.0 / 1e13)), "however long it is");
    assert_eq!(at(f64::INFINITY, 0.0, 0.0, 5.0), Some(dbl(1.0)));
    assert_eq!(at(0.0, 0.0, 1.0, f64::INFINITY), Some(dbl(0.0)));
    assert_eq!(at(0.0, f64::INFINITY, 1.0, f64::INFINITY), None);
    assert_eq!(at(0.0, 0.0, 1.0, 0.0), None);
    assert_eq!(at(0.0, 0.0, 1.0, -3.0), None);
    assert_eq!(at(0.0, 0.0, 1.0, f64::NAN), None);
    assert_eq!(at(f64::NAN, 0.0, 1.0, 2.0), None);
    assert_eq!(at(0.0, -1.0, 1.0, 2.0), None);
    let mut d = Download::new();
    assert!(d.hear(Heard::Item(2, 4), "t", true).is_none());
    let (p, _) = d.hear(Heard::Stats(dbl(0.5), None, None), "t", true).unwrap();
    assert_eq!(shown(&p, 3), "0.375");
}

#[test]
fn native_jobs_take_their_steps() {
    let mut run = NativeRun::new(Native::Hash { files: vec!["a".into(), "b".into()], manifest: None }, step_share(0, 1));
    assert!(matches!(run.tools_run_native(Told::Began).act, Act::Hash(f) if f == "a"));
    assert!(matches!(run.tools_run_native(Told::Line("aa".into())).act, Act::Hash(f) if f == "b"));
    assert!(matches!(run.tools_run_native(Told::Stopped).act, Act::Fail(_) | Act::Finish | Act::Wait));
    let mut clean = NativeRun::new(Native::CacheClean, step_share(0, 1));
    assert!(matches!(clean.tools_run_native(Told::Began).act, Act::Sweep));
    assert!(matches!(clean.tools_run_native(Told::Swept(3, 4096)).act, Act::Finish));
    assert!(may_rename(false, false) && !may_rename(false, true) && may_rename(true, true) == may_rename(true, false));
    let rows = folderdiff_rows(&vec!["x".into()], &vec!["y".into()], &vec![], "/a", "/b", '/');
    assert_eq!(rows.iter().map(|r| (r.kind, r.full.as_str())).collect::<Vec<_>>(), [("only-b", "/b/y"), ("only-a", "/a/x")]);
    assert!(diff_title(2).contains('2'));
}

#[test]
fn outside_steps_are_run() {
    let mut s = StepRun::new(
        Step::Ffmpeg { args: vec!["-i".into(), "a".into()], known: false, source: Some("a".into()) },
        step_share(0, 1),
    );
    assert!(matches!(s.tools_run_step(Told::Began).act, StepAct::Measure(f) if f == "a"));
    let mut t = StepRun::new(Step::Tool { bin: "odd".into() }, step_share(0, 1));
    assert!(matches!(t.tools_run_step(Told::Began).act, StepAct::Fail(_) | StepAct::Run(..) | StepAct::Finish));
}

#[test]
fn programs_are_looked_for() {
    assert_eq!(tool_source(true, true, true), "Tools dir");
    assert_eq!(tool_source(false, true, true), "Bundled");
    assert_eq!(tool_source(false, false, true), "System PATH");
    assert_eq!(tool_source(false, false, false), "Missing");
    assert!(needed().len() > 2);
    assert!(!tool_status("ffmpeg", "role", "Missing", "").available);
    assert!(tool_status("ffmpeg", "role", "Bundled", "6.0").available);
    assert_ne!(model_status(true).available, model_status(false).available);
    assert_eq!(tool_version(&vec![]), "");
    let c = |name: &str, there: bool, on_path: bool| Candidate {
        name: name.into(),
        path: format!("/t/{name}"),
        there,
        on_path,
    };
    assert_eq!(whisper_bin(&vec![c("whisper-cli", false, false)]), None);
    assert!(whisper_bin(&vec![c("whisper-cli", true, false)]).is_some());
}

#[test]
fn trims_are_cut_and_joined() {
    let mut s = Segments::new();
    s.push(dbl(1.0), dbl(2.0));
    s.push(dbl(3.0), dbl(4.0));
    s.remove(-1);
    s.remove(9);
    assert_eq!(s.list.len(), 2);
    s.remove(0);
    assert_eq!(shown(&s.list[0].0, 1), "3.0");
    s.clear();
    assert!(s.list.is_empty());
    assert!(!trim_editor("").0);
    assert!(trim_editor("/a.mp4").0);
    assert!(!drawn_status(&dbl(0.0)).is_empty() || drawn_status(&dbl(5.0)).is_empty());
    assert!(filmstrip_filter(&dbl(60.0)).contains("fps="));
    assert!(cut_call("in.mp4", "1", "2", "p.mp4").contains(&"in.mp4".to_string()));
    assert_eq!(cut_failure(0), "cut 1 failed");
    assert!(concat_body(&vec!["/a/p0.mp4".into(), "/a/p1.mp4".into()]).lines().count() == 2);
    assert_eq!(trim_output("", 1), None);
    assert_eq!(trim_output("/a.mp4", 0), None);
    assert!(trim_output("/a.mp4", 2).unwrap().ends_with(".mp4"));
}

#[test]
fn the_bench_opens_runs_and_submits() {
    let mut b = Bench::new("video");
    assert!(b.wire(Ask::Run { missing: vec![], home: "/d".into() }).is_empty());
    let d = b.wire(Ask::Open("trim".into()));
    assert!(matches!(d.as_slice(), [Do::PaintForm, Do::ReadQueue]));
    assert_eq!(b.active, "trim");
    let d = b.wire(Ask::FieldPick("input".into()));
    assert!(matches!(d.as_slice(), [Do::Pick(Picker::File, k)] if k == "input"));
    // Nothing is picked yet.
    assert!(b.wire(Ask::Run { missing: vec![], home: "/d".into() }).is_empty());
    assert!(b.error.ends_with(" is required"));
    b.wire(Ask::Picked("input".into(), "/v/clip.mkv".into()));
    assert!(b.wire(Ask::Run { missing: vec!["/v/clip.mkv".into()], home: "/d".into() }).is_empty());
    assert!(b.error.contains(": not found — /v/clip.mkv"));
    b.wire(Ask::Run { missing: vec![], home: "/d".into() });
    assert_eq!(b.error, "End (seconds) is required");
    b.wire(Ask::FieldSet("end_s".into(), "9".into()));
    // The output may not be the source.
    b.wire(Ask::FieldSet("output".into(), "/v/clip.mkv".into()));
    assert!(b.wire(Ask::Run { missing: vec![], home: "/d".into() }).is_empty());
    assert_eq!(b.error, CLASH);
    b.wire(Ask::FieldSet("output".into(), "".into()));
    let mut d = b.wire(Ask::Run { missing: vec![], home: "/d".into() });
    assert_eq!(b.error, "");
    assert_eq!(d.len(), 1);
    let (kind, spec) = match d.pop() {
        Some(Do::Look(kind, spec)) => (kind, spec),
        other => panic!("{other:?}"),
    };
    assert_eq!(kind, "trim");
    assert!(matches!(spec.get("output"), Some(SpecValue::Text(t)) if t == "/v/clip.tulipix.mkv"));
    let d = b.wire(Ask::Looked { kind, spec, twin: Some(false) });
    assert!(matches!(d.as_slice(), [Do::Submit(k, _), Do::ReadQueue] if k == "trim"));
    let mut d = b.wire(Ask::Run { missing: vec![], home: "/d".into() });
    if let Some(Do::Look(kind, spec)) = d.pop() {
        assert!(b.wire(Ask::Looked { kind, spec, twin: Some(true) }).is_empty());
    }
    assert_eq!(b.error, DUPLICATE);
    b.wire(Ask::Reset);
    assert_eq!(b.error, "");
    assert_eq!(b.form.get("input").unwrap(), "");
    assert!(matches!(b.wire(Ask::Close).as_slice(), [Do::ReadQueue]));
    assert_eq!(b.active, "");
}

#[test]
fn the_bench_trims_and_joins() {
    let mut b = Bench::new("video");
    b.wire(Ask::Open("trim".into()));
    assert!(b.wire(Ask::TrimEditor).is_empty());
    assert!(b.trim_open && b.trim_status.starts_with("Pick a source video first"));
    b.wire(Ask::FieldSet("input".into(), "/v/clip.mkv".into()));
    let d = b.wire(Ask::TrimEditor);
    assert!(matches!(d.as_slice(), [Do::PaintSegments, Do::Draw(p)] if p == "/v/clip.mkv"));
    b.wire(Ask::TrimDrawn(dbl(0.0)));
    assert_eq!(b.trim_status, "Could not read this file (is it a valid video?)");
    b.wire(Ask::TrimDrawn(dbl(9.5)));
    assert_eq!(b.trim_status, "");
    assert!(b.wire(Ask::TrimJoin).is_empty());
    b.wire(Ask::TrimAdd(dbl(0.0), dbl(1.0)));
    b.wire(Ask::TrimAdd(dbl(2.0), dbl(3.0)));
    b.wire(Ask::TrimDel(-1));
    b.wire(Ask::TrimDel(0));
    assert_eq!(b.segments.list.len(), 1);
    let d = b.wire(Ask::TrimJoin);
    assert!(matches!(d.as_slice(), [Do::Join(a, o)] if a == "/v/clip.mkv" && o == "/v/clip.trimmed.mkv"));
    assert_eq!(b.trim_status, "Joining…");
    b.wire(Ask::TrimJoined { output: "/v/clip.trimmed.mkv".into(), error: None });
    assert_eq!(b.trim_status, "Saved → /v/clip.trimmed.mkv");
    b.wire(Ask::TrimJoined { output: "".into(), error: Some("cut 1 failed".into()) });
    assert_eq!(b.trim_status, "Failed: cut 1 failed");
    b.wire(Ask::TrimClose);
    assert!(!b.trim_open);
}

#[test]
fn the_bench_serves_its_other_buttons() {
    let mut b = Bench::new("all");
    assert!(matches!(b.wire(Ask::SetCategory("settings".into())).as_slice(), [Do::List, Do::ProbePrograms]));
    assert!(matches!(b.wire(Ask::SetCategory("video".into())).as_slice(), [Do::List]));
    assert!(matches!(b.wire(Ask::UpdateTool("yt-dlp".into())).as_slice(), [Do::UpdateDownloader, Do::ProbePrograms]));
    assert!(matches!(b.wire(Ask::UpdateTool("ffmpeg".into())).as_slice(), [Do::ProbePrograms]));
    let d = b.wire(Ask::QueueAction(4, "pause".into()));
    assert!(matches!(d.as_slice(), [Do::Change { act: QueueAct::Pause, id: 4, stop: true }, Do::ReadQueue]));
    let d = b.wire(Ask::RemoveDownload("/d/x.mp4".into()));
    assert!(matches!(d.as_slice(), [Do::RemoveFile(p), Do::ReadDownloads] if p == "/d/x.mp4"));
    let result = |kind: &str| Ask::Result {
        id: 1,
        kind: kind.into(),
        input: "/v/a.mp4".into(),
        left: "/l".into(),
        right: "/r".into(),
    };
    assert!(matches!(b.wire(result("mediainfo")).as_slice(), [Do::Probe(p, t)] if p == "/v/a.mp4" && t == "a.mp4"));
    assert!(matches!(b.wire(result("folder_diff")).as_slice(), [Do::Compare(1, l, r)] if l == "/l" && r == "/r"));
    assert!(b.wire(result("trim")).is_empty());
    b.wire(Ask::ResultShown);
    assert!(b.result_open);
    b.wire(Ask::ResultClose);
    assert!(!b.result_open);
    b.wire(Ask::Open("trim".into()));
    b.wire(Ask::FieldSet("input".into(), " /v/a.mp4 ".into()));
    b.wire(Ask::FieldSet("output".into(), "/out".into()));
    assert!(matches!(b.wire(Ask::OpenFolder).as_slice(), [Do::OpenFolder(f)] if f == &["/out", "/v"]));
}

#[test]
fn a_join_is_called_and_told() {
    let call = concat_call("/tmp/list.txt", "/out.mp4");
    assert_eq!(call.last().map(String::as_str), Some("/out.mp4"));
    let at = call.iter().position(|a| a == "-i").unwrap();
    assert_eq!(call[at + 1], "/tmp/list.txt");
    assert_eq!(joined_status("/out.mp4", &None), "Saved → /out.mp4");
    assert_eq!(joined_status("/out.mp4", &Some("concat failed".into())), "Failed: concat failed");
}

#[test]
fn downloads_that_are_gone_are_forgotten() {
    let file = |path: &str, name: Option<&str>, size: Option<u64>| Written {
        path: path.into(),
        name: name.map(str::to_string),
        size,
    };
    let (items, gone) = list_downloaded(&vec![
        file("/d/a.mp4", Some("a.mp4"), Some(2048)),
        file("/d/b.mp4", Some("b.mp4"), None),
        file("/", None, Some(0)),
    ]);
    assert_eq!(items.iter().map(|i| i.name.as_str()).collect::<Vec<_>>(), ["a.mp4", "/"]);
    assert_eq!(items[0].meta, human_bytes(2048));
    assert_eq!(gone, ["/d/b.mp4"]);
}

#[test]
fn a_form_names_the_paths_that_must_be_there() {
    let mut f = Form::seeded("convert");
    assert!(named_paths(&f).is_empty());
    f.set("input", "/a/b.mkv");
    assert_eq!(named_paths(&f), ["/a/b.mkv"]);
    let mut m = Form::seeded("merge");
    m.set("inputs", "/a/1.mp4\n/a/2.mp4");
    assert_eq!(named_paths(&m), ["/a/1.mp4", "/a/2.mp4"]);
    assert!(folders_to_try(&f).contains(&"/a".to_string()));
    assert_eq!(folders_beside(&f, &Some("p".into())).last().map(|s| s.as_str()), Some("p"));
    assert_eq!(folders_beside(&f, &None).len() + 1, folders_beside(&f, &Some("p".into())).len());
}

#[test]
fn the_worker_stops_what_was_halted_elsewhere() {
    assert_eq!(jobs_to_stop(&vec![3, 9, 4], &vec![4, 3, 7]), [3, 4]);
    assert!(jobs_to_stop(&vec![], &vec![1]).is_empty());
    assert_eq!(tools_start_worker(Turn::Claimed(7)), Next { start: Some(7), pause_ms: 80 });
    assert_eq!(tools_start_worker(Turn::Idle), Next { start: None, pause_ms: 500 });
    assert_eq!(tools_start_worker(Turn::NoTable), Next { start: None, pause_ms: 2000 });
}

#[test]
fn a_job_runs_its_steps_up_to_the_first_failure() {
    let mut j = JobRun::new();
    let JobAct::Step(0, first) = j.tools_run_job(JobHeard::Planned(2)) else { panic!("no first step") };
    assert_eq!((shown(&first.base, 2), shown(&first.span, 2)), ("0.00".into(), "0.50".into()));
    let JobAct::Step(1, second) = j.tools_run_job(JobHeard::StepDone) else { panic!("no second step") };
    assert_eq!((shown(&second.base, 2), shown(&second.done(), 2)), ("0.50".into(), "1.00".into()));
    assert!(matches!(j.tools_run_job(JobHeard::StepDone), JobAct::Succeed));

    assert!(matches!(JobRun::new().tools_run_job(JobHeard::Planned(0)), JobAct::Succeed));
    let mut f = JobRun::new();
    f.tools_run_job(JobHeard::Planned(3));
    let long = format!("  {}end ", "x".repeat(300));
    let JobAct::Fail(why) = f.tools_run_job(JobHeard::StepFailed(long)) else { panic!("no failure") };
    assert_eq!(why, format!("{}end", "x".repeat(197)));
    let unplanned = JobRun::new().tools_run_job(JobHeard::Unplanned("no such tool".into()));
    assert!(matches!(unplanned, JobAct::Fail(why) if why == "no such tool"));
}

#[test]
fn a_second_job_leaves_the_console_standing() {
    let mut c = Console::new();
    c.begin("trim", 4, 1);
    assert_eq!(c.bytes, b"$ trim  (job #4)\n");
    c.push("frame 1");
    c.begin("hash", 5, 2);
    assert_eq!(c.bytes, b"$ trim  (job #4)\nframe 1\n$ hash  (job #5)\n");
    c.begin("hash", 6, 1);
    assert_eq!(c.bytes, b"$ hash  (job #6)\n");
}

#[test]
fn a_result_is_the_download_before_the_output() {
    let at = |p: &str, there: bool| Some((p.to_string(), there));
    assert_eq!(tools_open_job_output(at("/d", true), at("/o", true)).as_deref(), Some("/d"));
    assert_eq!(tools_open_job_output(at("/d", false), at("/o", true)).as_deref(), Some("/o"));
    assert_eq!(tools_open_job_output(None, at("/o", false)), None);
    assert_eq!(tools_open_job_output(None, None), None);
    let spec = r#"{"input": "/a.mkv", "quality": 23, "a": "x"}"#;
    assert_eq!(spec_text(spec, "input"), "/a.mkv");
    assert_eq!(spec_text(spec, "quality"), "", "a number is no text");
    assert_eq!(spec_text(spec, "b"), "");
    assert_eq!(spec_text("no json", "input"), "");
}

#[test]
fn a_folder_is_hashed_without_what_cannot_be_read() {
    let files: Vec<String> = vec!["a".into(), "b".into(), "c".into()];
    let share = step_share(1, 2);
    let mut t = TreeRun::new(files.clone(), share);
    assert_eq!(t.begin(false), TreeAct::Hash(0));
    assert_eq!(t.begin(true), TreeAct::Stop);
    assert_eq!(t.folder_hash_map_prog(Hashed::Hex("1".into()), false, false), (None, TreeAct::Hash(1)));
    let (told, act) = t.folder_hash_map_prog(Hashed::Unreadable, true, false);
    assert_eq!(act, TreeAct::Hash(2));
    assert_eq!(shown(&told.unwrap(), 4), "0.8333");
    assert_eq!(t.folder_hash_map_prog(Hashed::Hex("3".into()), false, true), (None, TreeAct::Finish));
    let all = folder_hash_map(&files, &vec![Some("1".into()), None, Some("3".into())]);
    assert_eq!(all, [("a".to_string(), "1".to_string()), ("c".to_string(), "3".to_string())]);
    assert_eq!(t.hashes, all);

    let mut s = TreeRun::new(files, share);
    assert_eq!(s.folder_hash_map_prog(Hashed::Stopped, true, false), (None, TreeAct::Stop));
    assert_eq!(TreeRun::new(vec![], share).begin(true), TreeAct::Finish);
}
