use rdu::layout::{bar_scale, centered_rect, name_width, sidebar_split, title_width, Area};
use rdu::size_text::fmt_size;
use rdu::text::{short_path, truncate};
use rdu::tree::DirNode;

#[test]
fn truncate_keeps_short_names() {
    assert_eq!(truncate("notes.txt", 20), "notes.txt");
    assert_eq!(truncate("exactly10!", 10), "exactly10!");
}

#[test]
fn truncate_cuts_long_names_with_an_ellipsis() {
    assert_eq!(truncate("abcdefghijkl", 5), "abcd\u{2026}");
    assert_eq!(truncate("abcdef", 1), "\u{2026}");
    assert_eq!(truncate("abcdef", 0), "\u{2026}");
}

#[test]
fn truncate_counts_bytes_not_characters() {
    // "é" takes two bytes: "café" is five bytes long.
    assert_eq!(truncate("café", 5), "café");
    assert_eq!(truncate("cafés", 6), "cafés");
    assert_eq!(truncate("résumé", 4), "ré\u{2026}");
    assert_eq!(short_path("/résumé", 5), "\u{2026}umé");
}

#[test]
fn truncate_result_never_has_more_characters_than_the_limit() {
    for max in 1..12 {
        let out = truncate("a long file name.txt", max);
        assert!(out.chars().count() <= max);
    }
}

#[test]
fn short_path_keeps_the_tail() {
    assert_eq!(short_path("/home/user", 20), "/home/user");
    assert_eq!(short_path("/home/user/projects/rdu", 8), "\u{2026}cts/rdu");
    assert_eq!(short_path("abcdef", 1), "\u{2026}");
}

#[test]
fn short_path_result_never_has_more_characters_than_the_limit() {
    for max in 1..12 {
        let out = short_path("/var/lib/some/deep/path", max);
        assert!(out.chars().count() <= max);
    }
}

#[test]
fn fmt_size_small_counts_are_plain_bytes() {
    assert_eq!(fmt_size(0), "0 B");
    assert_eq!(fmt_size(512), "512 B");
    assert_eq!(fmt_size(1023), "1023 B");
}

#[test]
fn fmt_size_scales_by_1024() {
    assert_eq!(fmt_size(1024), "1 KiB");
    assert_eq!(fmt_size(1536), "1.50 KiB");
    assert_eq!(fmt_size(1024 * 1024), "1 MiB");
}

#[test]
fn title_and_name_widths() {
    assert_eq!(title_width(100), 92);
    assert_eq!(title_width(20), 34);
    assert_eq!(title_width(42), 34);
    assert_eq!(name_width(100), 71);
    assert_eq!(name_width(30), 10);
}

#[test]
fn bar_scale_uses_the_first_row() {
    let a = DirNode::file("a".to_string(), 300);
    let b = DirNode::file("b".to_string(), 100);
    assert_eq!(bar_scale(&vec![&a, &b]), 300);
    let z = DirNode::file("z".to_string(), 0);
    assert_eq!(bar_scale(&vec![&z]), 1);
    assert_eq!(bar_scale(&vec![]), 1);
}

#[test]
fn centered_rect_takes_the_middle_part() {
    let r = Area { x: 0, y: 0, width: 100, height: 50 };
    assert_eq!(centered_rect(50, 60, r), Area { x: 25, y: 10, width: 50, height: 30 });
    let full = centered_rect(100, 100, r);
    assert_eq!(full, r);
}

#[test]
fn shortening_twice_is_shortening_once() {
    for max in 0..12 {
        let once = truncate("a long file name.txt", max);
        assert_eq!(truncate(&once, max), once);
    }
    for max in 1..12 {
        let once = short_path("/var/lib/some/deep/path", max);
        assert_eq!(short_path(&once, max), once);
    }
    let once = truncate("résumé", 4);
    assert_eq!(truncate(&once, 4), once);
}

#[test]
fn sidebar_takes_three_tenths() {
    let (list, side) = sidebar_split(Area { x: 0, y: 0, width: 100, height: 41 });
    assert_eq!(list, Area { x: 0, y: 0, width: 70, height: 41 });
    assert_eq!(side, Area { x: 70, y: 0, width: 30, height: 40 });
}

#[test]
fn centered_rect_stays_inside() {
    let r = Area { x: 3, y: 5, width: 37, height: 11 };
    let c = centered_rect(50, 60, r);
    assert!(c.x >= r.x && c.x + c.width <= r.x + r.width);
    assert!(c.y >= r.y && c.y + c.height <= r.y + r.height);
}
