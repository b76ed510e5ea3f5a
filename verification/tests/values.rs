use chrono::{DateTime, TimeZone, Utc};
use openhpa::clock::{floor_div, Timestamp, MAX_SECS, MIN_SECS, YEAR_9999, YEAR_ZERO};
use openhpa::domain::{CandidateKind, RiskLevel};
use openhpa::field_map::{contains_text, FieldMap};
use openhpa::sample::{sorted, Sample};
use openhpa::text::{
    decimal_text, parse_i32, parse_u32, replace_all, signed_text, space, split_on, split_once,
    strip_prefix, strip_suffix, take_chars, trim, trim_end_of, words,
};

fn s(x: f64) -> Sample {
    Sample { bits: x.to_bits() }
}

const ODD: [f64; 12] = [
    0.0,
    -0.0,
    1.0,
    -1.0,
    1.5,
    f64::MIN_POSITIVE,
    5e-324,
    f64::MAX,
    f64::MIN,
    f64::INFINITY,
    f64::NEG_INFINITY,
    f64::NAN,
];

#[test]
fn samples_compare_as_the_numbers_they_stand_for() {
    for a in ODD {
        assert_eq!(s(a).no_number(), a.is_nan());
        assert_eq!(s(a).finite_number(), a.is_finite());
        assert_eq!(s(a).above_zero(), a > 0.0);
        for b in ODD {
            assert_eq!(s(a).below(s(b)), a < b, "{a} {b}");
            assert_eq!(s(a).at_most(s(b)), a <= b, "{a} {b}");
            assert_eq!(s(a).total_below(s(b)), a.total_cmp(&b).is_lt(), "{a} {b}");
            let max = f64::from_bits(s(a).larger(s(b)).bits);
            assert!(max == a.max(b) || (max.is_nan() && a.max(b).is_nan()), "{a} {b}");
        }
    }
}

#[test]
fn samples_are_sorted_by_the_total_order() {
    let mut numbers = ODD.to_vec();
    let samples: Vec<Sample> = numbers.iter().map(|x| s(*x)).collect();
    numbers.sort_by(f64::total_cmp);
    let expected: Vec<Sample> = numbers.iter().map(|x| s(*x)).collect();
    assert_eq!(sorted(&samples), expected);
}

#[test]
fn white_space_is_what_std_takes_for_it() {
    for c in '\0'..=char::MAX {
        assert_eq!(space(c), c.is_whitespace(), "{c:?}");
    }
}

#[test]
fn texts_are_trimmed_split_and_cut() {
    assert_eq!(trim(" \u{2003}a b\t\n"), "a b");
    assert_eq!(trim_end_of("a//", '/'), "a");
    assert_eq!(trim_end_of("//", '/'), "");
    assert_eq!(words("  a  b\tc "), vec!["a", "b", "c"]);
    assert_eq!(split_on("a,,b,", ','), vec!["a", "", "b", ""]);
    assert_eq!(split_on("", ','), vec![""]);
    assert_eq!(split_once("a-b-c", '-'), Some(("a".to_owned(), "b-c".to_owned())));
    assert_eq!(split_once("abc", '-'), None);
    assert_eq!(strip_prefix("openhpa", "open").as_deref(), Some("hpa"));
    assert_eq!(strip_prefix("op", "open"), None);
    assert_eq!(strip_suffix("a```", "```").as_deref(), Some("a"));
    assert_eq!(take_chars("\u{e9}t\u{e9}", 2), "\u{e9}t");
    assert_eq!(take_chars("ab", 5), "ab");
    assert_eq!(replace_all("aaa", "aa", "b"), "ba");
    assert_eq!(replace_all("x", "aa", "b"), "x");
}

#[test]
fn numbers_are_read_as_std_reads_them() {
    for text in [
        "", "+", "-", "0", "-0", "+7", "007", "4294967295", "4294967296", "2147483647",
        "2147483648", "-2147483648", "-2147483649", " 1", "1 ", "1_0", "\u{663}", "99999999999999999999",
    ] {
        assert_eq!(parse_u32(text), text.parse::<u32>().ok(), "{text}");
        assert_eq!(parse_i32(text), text.parse::<i32>().ok(), "{text}");
    }
}

#[test]
fn numbers_are_written_as_std_writes_them() {
    for n in [0, 9, 10, 99, 100, u64::MAX] {
        assert_eq!(decimal_text(n), n.to_string());
    }
    for n in [0, -1, 1, i64::MAX, i64::MIN] {
        assert_eq!(signed_text(n), n.to_string());
    }
}

#[test]
fn a_map_holds_the_last_value_of_each_key() {
    let mut map = FieldMap::new();
    assert!(map.is_empty());
    map.insert("a".to_owned(), 1);
    map.insert("b".to_owned(), 2);
    map.insert("a".to_owned(), 3);
    assert_eq!((map.len(), map.get("a"), map.get("c")), (2, Some(&3), None));
    let mut other = FieldMap::new();
    other.insert("b".to_owned(), 9);
    other.insert("c".to_owned(), 4);
    map.absorb(&other);
    assert_eq!((map.len(), map.get("b"), map.get("c")), (3, Some(&9), Some(&4)));
    assert_eq!(map.take("b"), Some(9));
    assert_eq!(map.take("b"), None);
    let copy = map.copied();
    map.remove("a");
    assert!(!map.contains_key("a") && copy.contains_key("a"));
    let keys: Vec<&String> = (0..copy.entry_count()).map(|i| copy.entry(i).0).collect();
    assert!(keys.len() == 2 && keys.contains(&&"a".to_owned()) && keys.contains(&&"c".to_owned()));
    map.keep_only(&vec!["z".to_owned()]);
    assert!(map.is_empty());
    assert!(contains_text(&vec!["x".to_owned()], "x") && !contains_text(&vec![], "x"));
}

#[test]
fn instants_are_told_apart_to_the_nanosecond() {
    let a = Timestamp { secs: 10, nanos: 5 };
    let b = Timestamp { secs: 10, nanos: 6 };
    assert!(a.earlier_than(b) && !b.earlier_than(a) && !a.earlier_than(a));
    let later = Timestamp { secs: 12, nanos: 4 };
    assert_eq!((later.seconds_since(a), a.seconds_since(later)), (1, -1));
    for (x, y) in [(-1, 7), (-7, 7), (-8, 7), (0, 7), (6, 7), (i64::MIN, 86_400)] {
        assert_eq!(floor_div(x, y), x.div_euclid(y));
    }
}

#[test]
fn the_calendar_ends_where_chrono_ends() {
    assert_eq!(DateTime::<Utc>::MIN_UTC.timestamp(), MIN_SECS);
    assert_eq!(DateTime::<Utc>::MAX_UTC.timestamp(), MAX_SECS);
    for (secs, held) in
        [(MIN_SECS - 1, false), (MIN_SECS, true), (MAX_SECS, true), (MAX_SECS + 1, false)]
    {
        assert_eq!(DateTime::from_timestamp(secs, 0).is_some(), held, "{secs}");
    }
    let second = |y, m, d, h, mi, s| Utc.with_ymd_and_hms(y, m, d, h, mi, s).unwrap().timestamp();
    assert_eq!(second(0, 1, 1, 0, 0, 0), YEAR_ZERO);
    assert_eq!(second(9999, 12, 31, 23, 59, 59), YEAR_9999);
}

#[test]
fn names_are_the_ones_on_the_wire() {
    assert_eq!(CandidateKind::IdleWindow.as_str(), "idle_window");
    assert_eq!(CandidateKind::ScaleLag.as_str(), "scale_lag");
    assert_eq!(CandidateKind::Overprovisioned.as_str(), "overprovisioned");
    assert_eq!(CandidateKind::Thrashing.as_str(), "thrashing");
    assert_eq!(CandidateKind::PredictablePeak.as_str(), "predictable_peak");
    assert_eq!(RiskLevel::Low.as_str(), "low");
    assert_eq!(RiskLevel::Medium.as_str(), "medium");
    assert_eq!(RiskLevel::High.as_str(), "high");
}
