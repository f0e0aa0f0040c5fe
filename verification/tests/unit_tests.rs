use hdl_sv::fs::{
    format_file_size, format_timestamp, generate_directory_listing, generate_directory_row_html,
    DirectoryEntry,
};
use hdl_sv::utils::{get_request_path, percent_encode_path};

#[test]
fn test_percent_encode_path() {
    let path = "a b/c d";
    assert_eq!(percent_encode_path(path), "a%20b/c%20d");
}

#[test]
fn test_get_request_path() {
    assert_eq!(get_request_path("GET /path/to/file HTTP/1.1"), "path/to/file");
    assert_eq!(get_request_path("GET / HTTP/1.1"), "/");
    assert_eq!(get_request_path("GET /a%20b HTTP/1.1"), "a%20b");
}

#[test]
fn test_generate_directory_row_html() {
    // "hello" and a newline: six bytes
    let row_html = generate_directory_row_html("/tmp/dir/test.txt", 6, "01-01-2024 00:00:00").unwrap();
    assert!(row_html.contains("test.txt"));
    assert!(row_html.contains("6 B"));
}

#[test]
fn test_generate_directory_listing() {
    let entries = vec![
        DirectoryEntry { name: "file1.txt".to_string(), is_dir: false, size: 0, modified: Some(0) },
        DirectoryEntry { name: "subdir".to_string(), is_dir: true, size: 0, modified: Some(0) },
    ];
    let html = generate_directory_listing(&entries, "TEST", 0).unwrap();
    assert!(html.contains("file1.txt"));
    assert!(html.contains("subdir"));
}

#[test]
fn request_path_of_other_lines() {
    assert_eq!(get_request_path("POST /x HTTP/1.1"), "/");
    assert_eq!(get_request_path("GET /only"), "only");
    assert_eq!(get_request_path("GET relative HTTP/1.1"), "relative");
    assert_eq!(get_request_path("GET  HTTP/1.1"), "");
    assert_eq!(get_request_path(""), "/");
    assert_eq!(get_request_path("GET /é/x HTTP/1.1"), "é/x");
}

#[test]
fn percent_encode_path_keeps_named_components_only() {
    assert_eq!(percent_encode_path("/a/./b/../c//d e/"), "a/b/c/d%20e");
    assert_eq!(percent_encode_path(""), "");
    assert_eq!(percent_encode_path(".."), "");
    assert_eq!(percent_encode_path("..."), "...");
}

#[test]
fn row_html_is_exact_and_uses_binary_units() {
    assert_eq!(
        generate_directory_row_html("dir/a b.txt", 1536, "now").unwrap(),
        "<tr><td><a href=\"a%20b.txt\">a b.txt</a></td><td>1.50 KiB</td><td>now</td></tr>"
    );
    assert_eq!(
        generate_directory_row_html("dir/", 1, "now"),
        Err(hdl_sv::error::AppError::InvalidPath)
    );
}

#[test]
fn file_sizes_for_people() {
    assert_eq!(format_file_size(0), "0 B");
    assert_eq!(format_file_size(6), "6 B");
    assert_eq!(format_file_size(1023), "1023 B");
    assert_eq!(format_file_size(1024), "1.0 KB");
    assert_eq!(format_file_size(1229), "1.2 KB");
    // a tie goes to the even digit
    assert_eq!(format_file_size(1280), "1.2 KB");
    assert_eq!(format_file_size(1408), "1.4 KB");
    assert_eq!(format_file_size(1536), "1.5 KB");
    assert_eq!(format_file_size(1024 * 1024 - 1), "1024.0 KB");
    assert_eq!(format_file_size(48024781), "45.8 MB");
    assert_eq!(format_file_size(5 * 1024 * 1024 * 1024), "5.0 GB");
    assert_eq!(format_file_size(1 << 40), "1.0 TB");
    assert_eq!(format_file_size(1 << 52), "4096.0 TB");
}

#[test]
fn file_sizes_agree_with_floating_point() {
    let sizes: [u64; 22] = [
        1, 1000, 1024, 1280, 1331, 99999, 1048575, 1048576, 123456789, 1073741824, 987654321987,
        4503599627370495, 9007199254740991, 9007199254740992, 9007199254740993,
        9007199254740995, 18014398509481987, 120946279055359, 6047313952767999999,
        9223372036854775807, 18446744073709550591, 18446744073709551615,
    ];
    for size in sizes {
        let mut value = size as f64;
        let mut unit = 0;
        let units = ["B", "KB", "MB", "GB", "TB"];
        while value >= 1024.0 && unit < 4 {
            value /= 1024.0;
            unit += 1;
        }
        let expected = if unit == 0 {
            format!("{} {}", size, units[unit])
        } else {
            format!("{:.1} {}", value, units[unit])
        };
        assert_eq!(format_file_size(size), expected);
    }
}

#[test]
fn timestamps_for_people() {
    let now: u64 = 1_700_000_000;
    assert_eq!(format_timestamp(now, now), "Just now");
    assert_eq!(format_timestamp(now + 100, now), "Just now");
    assert_eq!(format_timestamp(now - 59, now), "Just now");
    assert_eq!(format_timestamp(now - 60, now), "1 min ago");
    assert_eq!(format_timestamp(now - 3599, now), "59 min ago");
    assert_eq!(format_timestamp(now - 3600, now), "1 hr ago");
    assert_eq!(format_timestamp(now - 86399, now), "23 hr ago");
    assert_eq!(format_timestamp(now - 86400, now), "1 days ago");
    assert_eq!(format_timestamp(now - 86400 * 30 + 1, now), "29 days ago");
    // 0 is day 0 of 1970
    assert_eq!(format_timestamp(0, now), "1970-01-01");
    // day 364 of a year: month 13 is held to 12, day 5
    assert_eq!(format_timestamp(364 * 86400, now), "1970-12-05");
    assert_eq!(format_timestamp(365 * 86400, now), "1971-01-01");
    assert_eq!(format_timestamp(1_600_000_000, now), "2020-09-29");
}

#[test]
fn listing_puts_directories_first_and_ignores_case() {
    let entry = |name: &str, is_dir: bool| DirectoryEntry {
        name: name.to_string(),
        is_dir,
        size: 2048,
        modified: None,
    };
    let entries = vec![
        entry("b.txt", false),
        entry("Zeta", true),
        entry("A.txt", false),
        entry("alpha", true),
        entry("a.txt", false),
    ];
    let order = hdl_sv::fs::listing_order(&entries);
    assert_eq!(order, vec![3, 1, 2, 4, 0]);
    let html = generate_directory_listing(&entries, "/sub", 0).unwrap();
    let at = |needle: &str| html.find(needle).unwrap();
    assert!(at("href=\"alpha/\"") < at("href=\"Zeta/\""));
    assert!(at("href=\"Zeta/\"") < at("href=\"A.txt\""));
    assert!(at("href=\"A.txt\"") < at("href=\"a.txt\""));
    assert!(at("href=\"a.txt\"") < at("href=\"b.txt\""));
    assert!(html.contains("<td class=\"size\">2.0 KB</td>"));
    assert!(html.contains("<td class=\"size\">-</td>"));
    assert!(html.contains("<td class=\"date\">-</td>"));
    assert!(html.contains("Index of <span class=\"path\">/sub</span>"));
    assert!(html.contains("5 entries"));
    let root = generate_directory_listing(&entries, "", 0).unwrap();
    assert!(root.contains("Index of <span class=\"path\">/</span>"));
}
