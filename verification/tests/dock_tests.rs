use dock::archiver::{entry_name, plan_entry, zip_entry_name, EntryAction};
use dock::commands::{
    archive_after_overwrite_answer, archive_after_typed_name, archive_first_step, ArchiveStep,
    accept_typed_name, answer_is_yes, archive_file_name, confirms_overwrite, folder_name_from_input, list_row,
    name_from_source, uses_current_dir,
};
use dock::config::{generate_id, id_from_nanos, Archive, Config};
use dock::dates::{format_date, format_date_time, timestamp_from_nanos};
use dock::size::format_size;
use dock::style::{b, c, g, gr, p, r, y};
use dock::text::{is_white_space, pad_left, pad_right, same_text, trim};
use time::UtcDateTime;

const EMPTY: &str = "Archive name cannot be empty";
const TOO_LONG: &str = "Archive name too long (max 64 characters)";
const SEPARATOR: &str = "Archive name cannot contain path separators";
const DOTS: &str = "Archive name cannot be '.' or '..'";
const LEADING_DOT: &str = "Archive name cannot start with '.'";
const BAD_CHAR: &str = "Archive name can only contain letters, numbers, underscores, and hyphens";

fn float_size_text(bytes: u64) -> String {
    const KB: u64 = 1024;
    const MB: u64 = KB * 1024;
    const GB: u64 = MB * 1024;
    if bytes >= GB {
        format!("{:.2} GB", bytes as f64 / GB as f64)
    } else if bytes >= MB {
        format!("{:.2} MB", bytes as f64 / MB as f64)
    } else if bytes >= KB {
        format!("{:.2} KB", bytes as f64 / KB as f64)
    } else {
        format!("{} B", bytes)
    }
}

fn time_crate_date_text(ts: i64) -> String {
    let time = UtcDateTime::from_unix_timestamp(ts).unwrap();
    let month: u8 = time.month().into();
    format!(
        "{:04}-{:02}-{:02} {:02}:{:02}",
        time.year(),
        month,
        time.day(),
        time.hour(),
        time.minute()
    )
}

fn archive(id: &str, name: &str, size: u64) -> Archive {
    Archive {
        id: id.to_string(),
        name: name.to_string(),
        path: format!("/store/{}_{}.tar.gz", id, name),
        created_at: 1_546_300_800,
        size,
        items_count: 0,
    }
}

fn config_with(archives: Vec<Archive>) -> Config {
    Config {
        archive_path: "/store".to_string(),
        archives,
    }
}

fn names(config: &Config) -> Vec<&str> {
    config.archives.iter().map(|a| a.name.as_str()).collect()
}

#[test]
fn validate_name_accepts_plain_names() {
    assert_eq!(Archive::validate_name("my-project_2"), Ok("my-project_2".to_string()));
    assert_eq!(Archive::validate_name("  spaced\t\n"), Ok("spaced".to_string()));
    assert_eq!(Archive::validate_name("héllo"), Ok("héllo".to_string()));
    assert_eq!(Archive::validate_name("名前"), Ok("名前".to_string()));
    assert_eq!(Archive::validate_name("\u{3000}name\u{3000}"), Ok("name".to_string()));
    assert_eq!(Archive::validate_name("a..b"), Err(BAD_CHAR.to_string()));
}

#[test]
fn validate_name_rejects_each_rule() {
    assert_eq!(Archive::validate_name(""), Err(EMPTY.to_string()));
    assert_eq!(Archive::validate_name(" \t "), Err(EMPTY.to_string()));
    assert_eq!(Archive::validate_name(&"a".repeat(65)), Err(TOO_LONG.to_string()));
    assert_eq!(Archive::validate_name("a/b"), Err(SEPARATOR.to_string()));
    assert_eq!(Archive::validate_name("a\\b"), Err(SEPARATOR.to_string()));
    assert_eq!(Archive::validate_name("."), Err(DOTS.to_string()));
    assert_eq!(Archive::validate_name(" .. "), Err(DOTS.to_string()));
    assert_eq!(Archive::validate_name(".hidden"), Err(LEADING_DOT.to_string()));
    assert_eq!(Archive::validate_name("two words"), Err(BAD_CHAR.to_string()));
    assert_eq!(Archive::validate_name("semi;colon"), Err(BAD_CHAR.to_string()));
}

#[test]
fn validate_name_counts_bytes() {
    assert_eq!(Archive::validate_name(&"a".repeat(64)), Ok("a".repeat(64)));
    assert_eq!(Archive::validate_name(&"é".repeat(32)), Ok("é".repeat(32)));
    assert_eq!(Archive::validate_name(&"é".repeat(33)), Err(TOO_LONG.to_string()));
    // 40 characters but 120 bytes.
    assert_eq!(Archive::validate_name(&"名".repeat(40)), Err(TOO_LONG.to_string()));
}

#[test]
fn validate_name_rule_order() {
    // Too long is reported before a separator.
    let long_with_slash = format!("{}/", "a".repeat(70));
    assert_eq!(Archive::validate_name(&long_with_slash), Err(TOO_LONG.to_string()));
    // A separator is reported before a leading dot.
    assert_eq!(Archive::validate_name("./x"), Err(SEPARATOR.to_string()));
}

#[test]
fn validate_name_is_stable() {
    for input in ["  alpha ", "beta", "\tγάμμα\n", "x-y_z"] {
        let once = Archive::validate_name(input).unwrap();
        assert_eq!(Archive::validate_name(&once), Ok(once.clone()));
    }
}

#[test]
fn format_size_small_values() {
    assert_eq!(format_size(0), "0 B");
    assert_eq!(format_size(1), "1 B");
    assert_eq!(format_size(1023), "1023 B");
    assert_eq!(format_size(1024), "1.00 KB");
    assert_eq!(format_size(1536), "1.50 KB");
    assert_eq!(format_size(1024 * 1024), "1.00 MB");
    assert_eq!(format_size(5 * 1024 * 1024 * 1024), "5.00 GB");
}

#[test]
fn format_size_matches_float_formatting() {
    let mut values: Vec<u64> = vec![
        1152,
        1034,
        1029,
        10 * 1024 - 1,
        1024 * 1024 - 1,
        1024 * 1024 * 1024 - 1,
        (1 << 53) - 1,
        1 << 53,
        (1 << 53) + 1,
        (1 << 54) + 3,
        u64::MAX,
        u64::MAX - 1,
        u64::MAX / 3,
        1u64 << 63,
    ];
    let mut x: u64 = 0x9E37_79B9_7F4A_7C15;
    for _ in 0..5000 {
        x ^= x << 13;
        x ^= x >> 7;
        x ^= x << 17;
        values.push(x >> (x % 64));
        values.push(x % 5_000_000);
    }
    for k in 0..64 {
        let v = 1u64 << k;
        values.push(v);
        values.push(v.wrapping_sub(1));
        values.push(v.wrapping_add(1));
        values.push(v + v / 2);
    }
    for v in values {
        assert_eq!(format_size(v), float_size_text(v), "size {}", v);
    }
}

#[test]
fn format_size_ties_round_to_even() {
    // 1152 / 1024 = 1.125 exactly; 1.13 would be rounding half up.
    assert_eq!(format_size(1152), float_size_text(1152));
    assert_eq!(format_size(u64::MAX), "17179869184.00 GB");
}

#[test]
fn ids_are_lowercase_hex() {
    assert_eq!(id_from_nanos(0), "0");
    assert_eq!(id_from_nanos(255), "ff");
    assert_eq!(id_from_nanos(4096), "1000");
    assert_eq!(id_from_nanos(u128::MAX), format!("{:x}", u128::MAX));
    let n = 1_700_000_000_123_456_789u128;
    assert_eq!(id_from_nanos(n), format!("{:x}", n));
    assert_ne!(id_from_nanos(n), id_from_nanos(n + 1));
}

#[test]
fn generate_id_reads_the_clock() {
    let id = generate_id().expect("clock after the epoch");
    assert!(!id.is_empty());
    assert!(id.chars().all(|ch| ch.is_ascii_hexdigit() && !ch.is_ascii_uppercase()));
    let nanos = u128::from_str_radix(&id, 16).unwrap();
    assert!(nanos > 1_500_000_000_000_000_000);
}

#[test]
fn colors_wrap_text() {
    assert_eq!(c("x"), "\x1b[36mx\x1b[0m");
    assert_eq!(r("x"), "\x1b[31mx\x1b[0m");
    assert_eq!(g("x"), "\x1b[32mx\x1b[0m");
    assert_eq!(y("x"), "\x1b[33mx\x1b[0m");
    assert_eq!(b("x"), "\x1b[34mx\x1b[0m");
    assert_eq!(p("x"), "\x1b[35mx\x1b[0m");
    assert_eq!(gr("x"), "\x1b[90mx\x1b[0m");
    assert_eq!(c(""), "\x1b[36m\x1b[0m");
}

#[test]
fn dates_match_time_crate() {
    let samples: [i64; 10] = [
        0,
        1_546_300_800,
        1_700_000_000,
        -1,
        -86_400 * 365 * 2000,
        951_782_400,
        4_102_444_799,
        -62_135_596_800,
        -62_135_596_801,
        253_402_300_799,
    ];
    for ts in samples {
        assert_eq!(format_date(ts), time_crate_date_text(ts), "timestamp {}", ts);
    }
    assert_eq!(format_date(0), "1970-01-01 00:00");
    assert_eq!(format_date(1_546_300_800 + 3_600 * 13 + 60 * 7 + 59), "2019-01-01 13:07");
}

#[test]
fn date_range_bounds() {
    assert!(UtcDateTime::from_unix_timestamp(-377_705_116_800).is_ok());
    assert!(UtcDateTime::from_unix_timestamp(-377_705_116_801).is_err());
    assert!(UtcDateTime::from_unix_timestamp(253_402_300_799).is_ok());
    assert!(UtcDateTime::from_unix_timestamp(253_402_300_800).is_err());
    assert_eq!(format_date(-377_705_116_800), time_crate_date_text(-377_705_116_800));
    assert_eq!(format_date(-377_705_116_800), "-9999-01-01 00:00");
}

#[test]
fn date_fields_padding() {
    assert_eq!(format_date_time(-1, 1, 2, 3, 4), format!("{:04}-{:02}-{:02} {:02}:{:02}", -1, 1, 2, 3, 4));
    assert_eq!(format_date_time(-1, 1, 2, 3, 4), "-001-01-02 03:04");
    assert_eq!(format_date_time(7, 12, 31, 23, 59), "0007-12-31 23:59");
    assert_eq!(format_date_time(12345, 1, 1, 0, 0), "12345-01-01 00:00");
    assert_eq!(format_date_time(-12345, 1, 1, 0, 0), format!("{:04}-01-01 00:00", -12345));
}

#[test]
fn find_by_id_or_name() {
    let config = config_with(vec![archive("a1", "alpha", 1), archive("b2", "beta", 2), archive("alpha", "gamma", 3)]);
    assert_eq!(config.find_archive("alpha"), Some(0));
    assert_eq!(config.find_archive("b2"), Some(1));
    assert_eq!(config.find_archive("gamma"), Some(2));
    assert_eq!(config.find_archive("delta"), None);
}

#[test]
fn remove_takes_the_found_archive() {
    let mut config = config_with(vec![archive("a1", "alpha", 1), archive("b2", "beta", 2), archive("c3", "beta", 3)]);
    let found = config.find_archive("beta");
    assert_eq!(found, Some(1));
    let removed = config.remove_archive("beta").unwrap();
    assert_eq!(removed.id, "b2");
    assert_eq!(names(&config), vec!["alpha", "beta"]);
    assert!(config.remove_archive("nothing").is_none());
    assert_eq!(config.archives.len(), 2);
    assert_eq!(config.archive_path, "/store");
}

#[test]
fn upsert_replaces_same_name() {
    let mut config = config_with(vec![archive("a1", "alpha", 1), archive("b2", "beta", 2), archive("c3", "gamma", 3)]);
    config.upsert_archive(archive("d4", "beta", 4));
    assert_eq!(names(&config), vec!["alpha", "gamma", "beta"]);
    assert_eq!(config.archives[2].id, "d4");
    config.upsert_archive(archive("e5", "delta", 5));
    assert_eq!(names(&config), vec!["alpha", "gamma", "beta", "delta"]);
    let found = config.find_archive("beta").unwrap();
    assert_eq!(config.archives[found].id, "d4");
}

#[test]
fn record_archive_stamps_now() {
    let mut config = config_with(vec![archive("a1", "alpha", 1)]);
    assert!(config.record_archive("f6".to_string(), "alpha".to_string(), "/store/f6_alpha.tar.gz".to_string(), 99));
    assert_eq!(config.archives.len(), 1);
    let a = &config.archives[0];
    assert_eq!((a.id.as_str(), a.name.as_str(), a.size, a.items_count), ("f6", "alpha", 99, 0));
    let now = UtcDateTime::now().unix_timestamp();
    assert!((now - a.created_at).abs() < 60);
}

#[test]
fn has_archive_named_checks_names_only() {
    let config = config_with(vec![archive("a1", "alpha", 1)]);
    assert!(config.has_archive_named("alpha"));
    assert!(!config.has_archive_named("a1"));
}

#[test]
fn total_size_sums_and_detects_overflow() {
    let config = config_with(vec![archive("a", "a", 10), archive("b", "b", 20)]);
    assert_eq!(config.total_size(), Some(30));
    assert_eq!(config_with(vec![]).total_size(), Some(0));
    let big = config_with(vec![archive("a", "a", u64::MAX), archive("b", "b", 1)]);
    assert_eq!(big.total_size(), None);
    let exact = config_with(vec![archive("a", "a", u64::MAX - 1), archive("b", "b", 1)]);
    assert_eq!(exact.total_size(), Some(u64::MAX));
}

#[test]
fn current_dir_paths() {
    assert!(uses_current_dir("."));
    assert!(uses_current_dir(".."));
    assert!(!uses_current_dir("./x"));
    assert!(!uses_current_dir("..."));
    assert!(!uses_current_dir(""));
}

#[test]
fn source_names() {
    assert_eq!(name_from_source(Some("project")), Some("project".to_string()));
    assert_eq!(name_from_source(Some(".git")), None);
    assert_eq!(name_from_source(Some("my project")), None);
    assert_eq!(name_from_source(None), None);
}

#[test]
fn typed_names() {
    let config = config_with(vec![archive("a1", "alpha", 1)]);
    assert_eq!(accept_typed_name(&config, "beta\n"), Ok("beta".to_string()));
    assert_eq!(accept_typed_name(&config, " alpha \n"), Err("name already exists".to_string()));
    assert_eq!(accept_typed_name(&config, "\n"), Err(EMPTY.to_string()));
    assert_eq!(accept_typed_name(&config, "a/b\n"), Err(SEPARATOR.to_string()));
}

#[test]
fn overwrite_answers() {
    assert!(confirms_overwrite("y\n"));
    assert!(confirms_overwrite("Y\n"));
    assert!(confirms_overwrite("  yes please\n"));
    assert!(!confirms_overwrite("n\n"));
    assert!(!confirms_overwrite("\n"));
    assert!(!confirms_overwrite("no y\n"));
    assert!(answer_is_yes("yes"));
    assert!(!answer_is_yes("Yes"));
    assert!(!answer_is_yes(""));
}

#[test]
fn archive_file_names() {
    assert_eq!(archive_file_name("18a2f", "proj"), "18a2f_proj.tar.gz");
    assert_eq!(archive_file_name("", ""), "_.tar.gz");
}

#[test]
fn folder_names() {
    assert_eq!(folder_name_from_input("  new-name \n"), Some("new-name".to_string()));
    assert_eq!(folder_name_from_input("\n"), None);
    assert_eq!(folder_name_from_input("   "), None);
}

#[test]
fn list_rows_match_column_layout() {
    let mut a = archive("a1", "alpha", 1536);
    a.created_at = 1_700_000_000;
    let expected = format!(
        "{}{} {}",
        p(&format!("{:<16}", a.name)),
        b(&format!("{:>12}", float_size_text(a.size))),
        gr(&time_crate_date_text(a.created_at))
    );
    assert_eq!(list_row(&a), expected);
    let mut long = archive("b2", "a-very-long-archive-name", 5 * 1024 * 1024 * 1024);
    long.created_at = -1;
    let expected = format!(
        "{}{} {}",
        p(&format!("{:<16}", long.name)),
        b(&format!("{:>12}", float_size_text(long.size))),
        gr(&time_crate_date_text(long.created_at))
    );
    assert_eq!(list_row(&long), expected);
}

#[test]
fn padding_counts_characters() {
    assert_eq!(pad_right("é", 3), format!("{:<3}", "é"));
    assert_eq!(pad_left("ab", 5), "   ab");
    assert_eq!(pad_right("abcdef", 3), "abcdef");
    assert_eq!(pad_left("abcdef", 3), "abcdef");
}

#[test]
fn trimming() {
    assert_eq!(trim("  a b \n"), "a b");
    assert_eq!(trim("\u{a0}x\u{2003}"), "\u{a0}x\u{2003}".trim());
    assert_eq!(trim("   "), "");
    assert!(same_text("abc", "abc"));
    assert!(!same_text("abc", "abd"));
    assert!(!same_text("abc", "ab"));
}

#[test]
fn archive_entry_names() {
    assert_eq!(entry_name(Some("proj")), "proj");
    assert_eq!(entry_name(None), "archive");
}

#[test]
fn extraction_plan_drops_first_component() {
    let parts = vec!["proj".to_string(), "src".to_string(), "main.rs".to_string()];
    match plan_entry(false, parts) {
        EntryAction::Unpack(rel) => assert_eq!(rel, vec!["src".to_string(), "main.rs".to_string()]),
        EntryAction::MakeDir(_) => panic!("a file entry must be unpacked"),
    }
    match plan_entry(true, vec!["proj".to_string()]) {
        EntryAction::MakeDir(rel) => assert!(rel.is_empty()),
        EntryAction::Unpack(_) => panic!("a directory entry must be created"),
    }
    match plan_entry(true, vec![]) {
        EntryAction::MakeDir(rel) => assert!(rel.is_empty()),
        EntryAction::Unpack(_) => panic!("a directory entry must be created"),
    }
}

#[test]
fn zip_names_use_forward_slashes() {
    assert_eq!(zip_entry_name("a\\b\\c.txt"), "a/b/c.txt");
    assert_eq!(zip_entry_name("plain/path"), "plain/path");
    assert_eq!(zip_entry_name(""), "");
}

#[test]
fn white_space_matches_std_everywhere() {
    for u in 0..=0x10FFFFu32 {
        if let Some(ch) = char::from_u32(u) {
            assert_eq!(is_white_space(ch), ch.is_whitespace(), "code point {:#x}", u);
        }
    }
}

#[test]
fn ids_order_as_numbers() {
    let a = id_from_nanos(255);
    let b = id_from_nanos(256);
    assert!(a > b, "as text, ff sorts after 100");
    assert!(u128::from_str_radix(&a, 16).unwrap() < u128::from_str_radix(&b, 16).unwrap());
    for n in [0u128, 15, 16, 4095, 1_700_000_000_123_456_789, u128::MAX] {
        assert_eq!(u128::from_str_radix(&id_from_nanos(n), 16).unwrap(), n);
    }
}

#[test]
fn archive_steps() {
    let config = config_with(vec![archive("a1", "alpha", 1)]);
    match archive_first_step(&config, Some("beta")) {
        ArchiveStep::Store(n) => assert_eq!(n, "beta"),
        _ => panic!("a new valid name is stored"),
    }
    match archive_first_step(&config, Some("alpha")) {
        ArchiveStep::AskOverwrite(n) => assert_eq!(n, "alpha"),
        _ => panic!("a taken name asks first"),
    }
    assert!(matches!(archive_first_step(&config, Some(".git")), ArchiveStep::AskName));
    assert!(matches!(archive_first_step(&config, None), ArchiveStep::AskName));
    match archive_after_typed_name(&config, " gamma \n") {
        ArchiveStep::Store(n) => assert_eq!(n, "gamma"),
        _ => panic!("a typed valid name is stored"),
    }
    match archive_after_typed_name(&config, "alpha\n") {
        ArchiveStep::Refuse(m) => assert_eq!(m, "name already exists"),
        _ => panic!("a typed taken name is refused"),
    }
    match archive_after_typed_name(&config, "a b\n") {
        ArchiveStep::Refuse(m) => assert_eq!(m, BAD_CHAR),
        _ => panic!("a typed invalid name is refused"),
    }
    match archive_after_overwrite_answer("alpha".to_string(), "Yes\n") {
        ArchiveStep::Store(n) => assert_eq!(n, "alpha"),
        _ => panic!("yes stores"),
    }
    assert!(matches!(archive_after_overwrite_answer("alpha".to_string(), "\n"), ArchiveStep::Abort));
}

#[test]
fn date_text_lengths() {
    assert_eq!(format_date(1_700_000_000).chars().count(), 16);
    assert_eq!(format_date(-377_705_116_800).chars().count(), 17);
    assert_eq!(format_date(-62_135_596_801).chars().count(), 16);
}

#[test]
fn timestamps_from_nanos() {
    assert_eq!(timestamp_from_nanos(0), Some(0));
    assert_eq!(timestamp_from_nanos(1_999_999_999), Some(1));
    assert_eq!(timestamp_from_nanos(253_402_300_799_999_999_999), Some(253_402_300_799));
    assert_eq!(timestamp_from_nanos(253_402_300_800_000_000_000), None);
    assert_eq!(timestamp_from_nanos(u128::MAX), None);
}

#[test]
fn ascii_name_characters_follow_std() {
    for u in 0u8..128 {
        let ch = u as char;
        if ch.is_whitespace() || ch == '.' || ch == '/' || ch == '\\' {
            continue;
        }
        let allowed = ch.is_alphanumeric() || ch == '_' || ch == '-';
        assert_eq!(Archive::validate_name(&ch.to_string()).is_ok(), allowed, "char {:?}", ch);
        assert_eq!(ch.is_alphanumeric(), ch.is_ascii_alphanumeric(), "char {:?}", ch);
    }
}

#[test]
fn record_archive_at_a_given_time() {
    let mut config = config_with(vec![archive("a1", "alpha", 1), archive("b2", "beta", 2)]);
    assert!(config.record_archive_at(
        "c3".to_string(),
        "alpha".to_string(),
        "/store/c3_alpha.tar.gz".to_string(),
        7,
        1_700_000_000_999_999_999,
    ));
    assert_eq!(names(&config), vec!["beta", "alpha"]);
    let a = &config.archives[1];
    assert_eq!((a.id.as_str(), a.created_at, a.size, a.items_count), ("c3", 1_700_000_000, 7, 0));
    assert_eq!(a.path, "/store/c3_alpha.tar.gz");

    let before = names(&config).iter().map(|n| n.to_string()).collect::<Vec<_>>();
    assert!(!config.record_archive_at(
        "d4".to_string(),
        "delta".to_string(),
        "/store/d4_delta.tar.gz".to_string(),
        1,
        253_402_300_800_000_000_000,
    ));
    assert_eq!(names(&config), before);
}

#[test]
fn white_space_is_never_alphanumeric() {
    for u in 0..=0x10FFFFu32 {
        if let Some(ch) = char::from_u32(u) {
            if ch.is_whitespace() {
                assert!(!ch.is_alphanumeric(), "code point {:#x}", u);
            }
        }
    }
}
