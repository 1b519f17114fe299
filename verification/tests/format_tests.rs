use folder_cleaner::text::{join_strings, replace_first_str, replace_str, trim_start_chars};
use folder_cleaner::utils::{format_date, format_size, is_older_than_days, is_older_than_days_at};

fn reference_size(bytes: u64) -> String {
    const KB: u64 = 1024;
    const MB: u64 = 1024 * KB;
    const GB: u64 = 1024 * MB;
    if bytes >= GB {
        format!("{:.1} GB", bytes as f64 / GB as f64)
    } else if bytes >= MB {
        format!("{:.1} MB", bytes as f64 / MB as f64)
    } else if bytes >= KB {
        format!("{:.1} KB", bytes as f64 / KB as f64)
    } else {
        format!("{} B", bytes)
    }
}

#[test]
fn format_size_small_values() {
    assert_eq!(format_size(0), "0 B");
    assert_eq!(format_size(1), "1 B");
    assert_eq!(format_size(1023), "1023 B");
}

#[test]
fn format_size_units() {
    assert_eq!(format_size(1024), "1.0 KB");
    assert_eq!(format_size(1536), "1.5 KB");
    assert_eq!(format_size(1024 * 1024), "1.0 MB");
    assert_eq!(format_size(5 * 1024 * 1024 + 512 * 1024), "5.5 MB");
    assert_eq!(format_size(1024 * 1024 * 1024), "1.0 GB");
    assert_eq!(format_size(3 * 1024 * 1024 * 1024 + 200 * 1024 * 1024), "3.2 GB");
}

#[test]
fn format_size_rounding_ties() {
    // 1280 / 1024 = 1.25 exactly: the tie goes to the even tenth
    assert_eq!(format_size(1280), reference_size(1280));
    assert_eq!(format_size(1280), "1.2 KB");
    // 1.75 goes up to 1.8
    assert_eq!(format_size(1792), reference_size(1792));
    assert_eq!(format_size(1792), "1.8 KB");
}

#[test]
fn format_size_matches_float_formatting() {
    let mut samples: Vec<u64> = Vec::new();
    let mut x: u64 = 1;
    while x < u64::MAX / 3 {
        samples.push(x);
        samples.push(x.wrapping_mul(3) / 2);
        samples.push(x + 1);
        samples.push(x.saturating_sub(1));
        x = x.wrapping_mul(3);
    }
    for k in 0..2000u64 {
        samples.push(k * 51);
        samples.push(1024 * 1024 + k * 104_857);
        samples.push(1024 * 1024 * 1024 + k * 107_374_183);
    }
    samples.push(u64::MAX);
    samples.push(u64::MAX - 1);
    samples.push((1u64 << 53) + 1);
    samples.push((1u64 << 60) + 12345);
    for b in samples {
        assert_eq!(format_size(b), reference_size(b), "bytes = {}", b);
    }
}

#[test]
fn format_size_largest_value() {
    assert_eq!(format_size(u64::MAX), "17179869184.0 GB");
}

#[test]
fn unknown_dates() {
    assert_eq!(format_date(None), "N/A");
    assert!(!is_older_than_days(None, 30));
}

#[test]
fn older_than_days_by_clock_reading() {
    let day: u64 = 86_400 * 1_000_000_000;
    let now = 100 * day;
    let at = |t: u64| Some(t as i64);
    assert!(is_older_than_days_at(at(now - 31 * day), 30, now));
    assert!(!is_older_than_days_at(at(now - 30 * day), 30, now));
    assert!(!is_older_than_days_at(at(now + day), 0, now));
    assert!(is_older_than_days_at(at(now - 1_000_000_000), 0, now));
    assert!(!is_older_than_days_at(None, 0, now));
}

#[test]
fn times_before_the_epoch_are_old() {
    let day: i64 = 86_400 * 1_000_000_000;
    let now: u64 = 10 * 86_400 * 1_000_000_000;
    assert!(is_older_than_days_at(Some(-day), 10, now));
    assert!(!is_older_than_days_at(Some(-day), 11, now));
    assert!(is_older_than_days_at(Some(i64::MIN), 365 * 200, 0));
    assert!(is_older_than_days(Some(-day), 1));
}

#[test]
fn older_than_days_with_real_clock() {
    assert!(is_older_than_days(Some(0), 1));
    assert!(!is_older_than_days(Some(i64::MAX), 0));
}

#[test]
fn format_date_of_known_time_has_minutes() {
    for t in [0i64, -1, i64::MIN, i64::MAX, -86_400 * 1_000_000_000 * 365 * 100] {
        let s = format_date(Some(t));
        let c: Vec<char> = s.chars().collect();
        assert_eq!(c.len(), 16, "{}", s);
        for (i, ch) in c.iter().enumerate() {
            match i {
                4 | 7 => assert_eq!(*ch, '-'),
                10 => assert_eq!(*ch, ' '),
                13 => assert_eq!(*ch, ':'),
                _ => assert!(ch.is_ascii_digit(), "{}", s),
            }
        }
    }
}

#[test]
fn replace_all_and_first() {
    assert_eq!(replace_str("Đã chuyển {} file vào thùng rác.", "{}", "3"), "Đã chuyển 3 file vào thùng rác.");
    assert_eq!(replace_str("{} and {}", "{}", "x"), "x and x");
    assert_eq!(replace_first_str("{} and {}", "{}", "x"), "x and {}");
    assert_eq!(replace_first_str("none here", "{}", "x"), "none here");
    assert_eq!(replace_str("{{}}", "{}", "-"), "{-}");
}

#[test]
fn trim_leading_marks() {
    assert_eq!(trim_start_chars("📂 Xác nhận sắp xếp", '📂', ' '), "Xác nhận sắp xếp");
    assert_eq!(trim_start_chars("⚠ Confirm delete", '⚠', ' '), "Confirm delete");
    assert_eq!(trim_start_chars("  ⚠⚠x ⚠", '⚠', ' '), "x ⚠");
    assert_eq!(trim_start_chars("", '⚠', ' '), "");
}

#[test]
fn join_lines() {
    let v = vec!["a".to_string(), "b".to_string(), "c".to_string()];
    assert_eq!(join_strings(&v, "\n"), "a\nb\nc");
    assert_eq!(join_strings(&Vec::new(), ","), "");
}

#[test]
fn format_date_matches_local_time() {
    for t in [0i64, -1, 1_234_567_890_123_456_789, -2_000_000_000_000_000_000, i64::MIN, i64::MAX] {
        let expected = chrono::DateTime::from_timestamp_nanos(t)
            .with_timezone(&chrono::Local)
            .format("%Y-%m-%d %H:%M")
            .to_string();
        assert_eq!(format_date(Some(t)), expected);
    }
    assert_ne!(format_date(Some(0)), format_date(Some(400 * 86_400 * 1_000_000_000)));
}
