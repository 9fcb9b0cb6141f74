use tulipix::ascii::{ascii_lowercase, reads_as_number, same_letters};
use tulipix::double::{Double, Number};
use tulipix::find::{before, contains, ends_with, first_chars, first_line_of, lines_of, starts_with, strip_tail};
use tulipix::order::{is_before, order_of, order_of_nums};
use tulipix::single::{number_to_single, single_from, to_single};
use tulipix::text::{
    count_of, divide, join_strings, parse_i64, parse_usize, push_dec_int, push_dec_two, split_on, split_once,
    split_words, trimmed,
};

fn dbl(x: f64) -> Double {
    Double::from_bits(x.to_bits()).unwrap()
}

fn shown(d: &Double, k: u32) -> String {
    let mut s = String::new();
    d.push_text(&mut s, k);
    s
}

const VALUES: [f64; 22] = [
    0.0, 1.0, 0.1, 0.5, 1.5, 2.5, 0.125, 0.375, 3.14159265, 1e-9, 123456.789, 1e15, 9007199254740993.0, 1e21, 1e300,
    5e-324, 2.2250738585072014e-308, 0.9999999, 99.995, 7.0, 1024.0, 365.2425,
];

#[test]
fn doubles_print_as_floats_do() {
    for x in VALUES {
        for k in 0..=5usize {
            assert_eq!(shown(&dbl(x), k as u32), format!("{x:.k$}"), "{x} {k}");
            assert_eq!(shown(&dbl(-x), k as u32), format!("{:.k$}", -x), "-{x} {k}");
        }
    }
    assert!(Double::from_bits(f64::NAN.to_bits()).is_none());
    assert!(Double::from_bits(f64::INFINITY.to_bits()).is_none());
}

#[test]
fn numbers_in_single_precision() {
    let step = 2f64.powi(-149);
    let near_the_ends = [
        3.4028235e38, 3.4028236e38, 3.402823567e38, 1e39, f64::MAX, 1.1754944e-38, 1.1754943e-38, 1e-40, step,
        step * 0.5, step * 0.50001, step * 1.5, step * 2.5, step * 8_388_607.5, step * 0.25, 1e-300, 5e-324,
    ];
    for x in near_the_ends.iter().copied().chain([0.0, 0.1, 1.0 / 3.0, 16_777_217.0, f64::INFINITY]) {
        for x in [x, -x] {
            let n = number_to_single(&Number::from_bits(x.to_bits()));
            let want = Number::from_bits(((x as f32) as f64).to_bits());
            assert_eq!(n, want, "{x}");
        }
    }
    assert_eq!(number_to_single(&Number::Nan), Number::Nan);
}

#[test]
fn doubles_compute_as_floats_do() {
    let small = [1.0, 3.0, 0.1, 7.7, 1e10, 123456789.0, 0.3, 2.0 / 3.0, 1e-5];
    for a in small {
        for b in small {
            assert_eq!(shown(&dbl(a).div(&dbl(b)), 5), format!("{:.5}", a / b));
            assert_eq!(shown(&dbl(a).mul(&dbl(b)), 5), format!("{:.5}", a * b));
            assert_eq!(shown(&dbl(a).join(&dbl(b)), 5), format!("{:.5}", a + b));
            assert_eq!(dbl(a).is_below(&dbl(b)), a < b);
        }
    }
    for i in [0i64, 1, -1, 42, i64::MAX, i64::MIN, 9007199254740993] {
        assert_eq!(shown(&Double::from_i64(i), 0), format!("{:.0}", i as f64));
    }
    for x in VALUES {
        assert_eq!(dbl(x).to_truncated(), x as i64);
        assert_eq!(dbl(-x).to_truncated(), -x as i64);
        assert_eq!(dbl(x).to_rounded(), x.round() as i64);
        assert_eq!(dbl(x).at_least(7), x >= 7.0);
    }
}

#[test]
fn numbers_hold_what_is_not_finite() {
    let say = |x: f64| {
        let mut s = String::new();
        Number::from_bits(x.to_bits()).push_text(&mut s, 1);
        s
    };
    for x in [f64::NAN, f64::INFINITY, f64::NEG_INFINITY, 2.25, -0.0] {
        assert_eq!(say(x), format!("{x:.1}"));
        assert_eq!(Number::from_bits(x.to_bits()).to_truncated(), x as i64);
        assert_eq!(Number::from_bits(x.to_bits()).at_least(2), x >= 2.0);
    }
}

#[test]
fn singles_round_as_floats_do() {
    for x in [1.0 / 3.0, 0.1, 16777217.0, 123456789.123, 0.999999999] {
        assert_eq!(shown(&to_single(&dbl(x)), 5), format!("{:.5}", x as f32));
    }
    for n in [0u64, 1, 16_777_215, 16_777_216, 16_777_217, 16_777_219, u64::MAX, 987_654_321_987] {
        assert_eq!(shown(&single_from(n), 0), format!("{:.0}", n as f32));
    }
}

#[test]
fn texts_are_cut_as_strings_are() {
    for s in ["", " ", "  a b\t\nc ", "über  straße", "\u{3000}x\u{a0}", "one"] {
        assert_eq!(trimmed(s), s.trim());
        assert_eq!(split_words(s), s.split_whitespace().collect::<Vec<_>>());
        assert_eq!(split_on(s, ' '), s.split(' ').collect::<Vec<_>>());
        assert_eq!(split_once(s, 'a').map(|(a, b)| a + "|" + &b), s.split_once('a').map(|(a, b)| format!("{a}|{b}")));
        assert_eq!(contains(s, "b"), s.contains("b"));
        assert_eq!(starts_with(s, "  "), s.starts_with("  "));
        assert_eq!(ends_with(s, " "), s.ends_with(' '));
        assert_eq!(first_chars(s, 2), s.chars().take(2).collect::<String>());
    }
    for s in ["", "a", "a\nb", "a\r\nb\n", "\n", "a\n\nb", "x\r"] {
        assert_eq!(lines_of(s), s.lines().collect::<Vec<_>>());
        assert_eq!(first_line_of(s), s.lines().next().unwrap_or("").trim());
    }
    assert_eq!(before("a::b::c", "::"), "a");
    assert_eq!(before("abc", "::"), "abc");
    assert_eq!(strip_tail("a.mp4", ".mp4"), "a");
    assert_eq!(strip_tail("a.mp4", ".mkv"), "a.mp4");
    assert_eq!(join_strings(&vec!["a".into(), "b".into()], ", "), "a, b");
    assert_eq!(count_of(3, "file"), count_of(3, "file"));
}

#[test]
fn integers_are_read_as_std_reads_them() {
    for s in [
        "", "0", "+5", "-5", "--5", "+", "-", "007", "9223372036854775807", "9223372036854775808",
        "-9223372036854775808", "-9223372036854775809", "1a", " 1", "99999999999999999999999999", "-0",
        "18446744073709551615", "18446744073709551616",
    ] {
        assert_eq!(parse_i64(s), s.parse::<i64>().ok(), "{s}");
        assert_eq!(parse_usize(s), s.parse::<usize>().ok(), "{s}");
    }
    for i in [0i64, 7, -7, 10, -10, 123, i64::MIN, i64::MAX] {
        let mut a = String::new();
        push_dec_int(&mut a, i);
        assert_eq!(a, i.to_string());
        let mut b = String::new();
        push_dec_two(&mut b, i);
        assert_eq!(b, format!("{i:02}"));
        assert_eq!(divide(i, 3), i / 3);
    }
    for s in ["1", "1.", ".5", "1e5", "1e", "inf", "-Infinity", "nan", "+.5e-3", ".", "", "0x1", "1 ", "infinit"] {
        assert_eq!(reads_as_number(s), s.parse::<f64>().is_ok(), "{s}");
    }
}

#[test]
fn letters_fold_and_texts_sort() {
    assert_eq!(ascii_lowercase("ÀBc"), "ÀBc".to_ascii_lowercase());
    assert!(same_letters("EnGlish", "english") && !same_letters("É", "é"));
    let keys: Vec<String> = ["b", "a", "é", "B", "a", ""].iter().map(|s| s.to_string()).collect();
    let mut want: Vec<usize> = (0..keys.len()).collect();
    want.sort_by(|x, y| keys[*x].cmp(&keys[*y]));
    assert_eq!(order_of(&keys), want);
    assert!(is_before("a", "ab") && is_before("", "a") && !is_before("a", "a") && is_before("z", "é"));
    assert_eq!(order_of_nums(&vec![3, 1, 3, 0]), [3, 1, 0, 2]);
}
