//! The page that lists a folder.

use servant::listing::{
    days_to_ymd, epoch_to_ymdhm, format_size, format_time, listing_order, render, Entry, Metadata,
};

fn entry(name: &str, is_file: bool, metadata: Option<Metadata>) -> Entry {
    Entry {
        name: name.to_string(),
        is_file,
        metadata,
    }
}

fn file(name: &str, len: u64) -> Entry {
    let m = Metadata {
        is_dir: false,
        len,
        modified: 0,
    };
    entry(name, true, Some(m))
}

fn folder(name: &str) -> Entry {
    let m = Metadata {
        is_dir: true,
        len: 4096,
        modified: 90_061,
    };
    entry(name, false, Some(m))
}

#[test]
fn moments_are_written_in_utc() {
    assert_eq!(format_time(0), "1970-01-01 00:00");
    assert_eq!(format_time(59), "1970-01-01 00:00");
    assert_eq!(format_time(86_399), "1970-01-01 23:59");
    assert_eq!(format_time(86_400), "1970-01-02 00:00");
    assert_eq!(epoch_to_ymdhm(1_700_000_000), (2023, 11, 14, 22, 13));
    assert_eq!(format_time(1_700_000_000), "2023-11-14 22:13");
    assert_eq!(format_time(951_782_400), "2000-02-29 00:00");
    assert_eq!(format_time(951_868_799), "2000-02-29 23:59");
    assert_eq!(format_time(951_868_800), "2000-03-01 00:00");
    assert_eq!(days_to_ymd(719_468), (1970, 1, 1));
    assert_eq!(days_to_ymd(0), (0, 3, 1));
}

#[test]
fn calendar_agrees_with_day_by_day_counting() {
    let leap = |y: i64| y % 4 == 0 && (y % 100 != 0 || y % 400 == 0);
    let (mut y, mut m, mut d) = (-1i64, 1u32, 1u32);
    // 1 January of the year -1 lies 425 days before 1 March of the year 0.
    for z in -425i64..300_000 {
        assert_eq!(days_to_ymd(z), (y, m, d), "day {z}");
        let days = match m {
            2 => 28 + u32::from(leap(y)),
            4 | 6 | 9 | 11 => 30,
            _ => 31,
        };
        d += 1;
        if d > days {
            d = 1;
            m += 1;
            if m > 12 {
                m = 1;
                y += 1;
            }
        }
    }
}

#[test]
fn far_years_lose_their_high_bits() {
    let (year, _, _, _, _) = epoch_to_ymdhm(u64::MAX);
    let days = u64::MAX / 86_400;
    assert_eq!(year as i64, days_to_ymd(days as i64 + 719_468).0 % (1 << 32));
}

#[test]
fn sizes_are_rounded_like_floating_point() {
    assert_eq!(format_size(0), "0 B");
    assert_eq!(format_size(1023), "1023 B");
    assert_eq!(format_size(1024), "1.0 KB");
    assert_eq!(format_size(1536), "1.5 KB");
    assert_eq!(format_size(1_048_575), "1024.0 KB");
    assert_eq!(format_size(1_048_576), "1.0 MB");
    assert_eq!(format_size(5 << 30), "5.0 GB");
    let float = |n: u64| {
        let (unit, name) = if n >= 1 << 30 {
            (1u64 << 30, "GB")
        } else if n >= 1 << 20 {
            (1 << 20, "MB")
        } else {
            (1 << 10, "KB")
        };
        format!("{:.1} {name}", n as f64 / unit as f64)
    };
    let mut n: u64 = 1024;
    while n < u64::MAX - n / 7 {
        for k in [n - 1, n, n + 1, n + n / 20, n + n / 16] {
            if k >= 1024 {
                assert_eq!(format_size(k), float(k), "{k}");
            }
        }
        n += n / 7 + 1;
    }
    for k in (1024u64..60_000).step_by(1) {
        assert_eq!(format_size(k), float(k), "{k}");
    }
    for k in [u64::MAX, u64::MAX - 1, 1 << 53, (1 << 53) + 1, (1 << 54) + 2, (1 << 54) + 6] {
        assert_eq!(format_size(k), float(k), "{k}");
    }
}

#[test]
fn folders_come_first_and_names_are_in_order() {
    let entries = vec![
        file("b", 1),
        file(".hidden", 1),
        folder("z"),
        file("a", 1),
        folder("y"),
        file("B", 1),
        file("ab", 1),
        file("é", 1),
    ];
    assert_eq!(listing_order(&entries), vec![4, 2, 5, 3, 6, 0, 7]);
    assert!(listing_order(&Vec::new()).is_empty());
}

#[test]
fn order_is_that_of_a_stable_sort() {
    let names = ["b", "a", "", "aa", "b", "a", "ba", "\u{10ffff}", "z", "~"];
    let mut entries = Vec::new();
    for (i, n) in names.iter().enumerate() {
        entries.push(entry(n, i % 3 != 0, None));
    }
    let mut expected: Vec<usize> = (0..entries.len()).collect();
    expected.sort_by_key(|i| (entries[*i].is_file, entries[*i].name.clone()));
    assert_eq!(listing_order(&entries), expected);
}

#[test]
fn page_of_a_folder() {
    let entries = vec![
        file("a&b.txt", 1536),
        entry("broken", true, None),
        folder("\"q\""),
    ];
    let page = render(&entries, "/site/<x>/");
    assert_eq!(
        page,
        "<!doctype html><html><head><meta charset=\"utf-8\"><title>Index of \
         /site/&lt;x&gt;/</title><style>body{font:14px/1.4 monospace;padding:1em}\
         a{text-decoration:none}td{padding:2px 1em}</style></head><body>\
         <h1>Index of /site/&lt;x&gt;/</h1><table>\
         <tr><td><a href=\"../\">../</a></td><td></td><td></td></tr>\
         <tr><td><a href=\"&quot;q&quot;/\">&quot;q&quot;/</a></td><td>-</td>\
         <td>1970-01-02 01:01</td></tr>\
         <tr><td><a href=\"a&amp;b.txt\">a&amp;b.txt</a></td><td>1.5 KB</td>\
         <td>1970-01-01 00:00</td></tr>\
         </table></body></html>"
    );
}

#[test]
fn page_of_an_empty_folder() {
    let page = render(&vec![file(".x", 1)], "/e/");
    assert!(page.ends_with("<td></td><td></td></tr></table></body></html>"));
    assert!(!page.contains(".x"));
}
