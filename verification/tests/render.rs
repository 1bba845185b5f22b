use disk_usage::record::path_color_of;
use disk_usage::render::{
    clear_line_text, decimal_string, error_suffix_string, output_colored_path, pad_left_string,
    progress_text,
};
use disk_usage::Color;

#[test]
fn decimal_digits_of_numbers() {
    assert_eq!(decimal_string(0), "0");
    assert_eq!(decimal_string(7), "7");
    assert_eq!(decimal_string(10), "10");
    assert_eq!(decimal_string(12345), "12345");
    assert_eq!(decimal_string(1_000_000), "1000000");
    assert_eq!(decimal_string(u64::MAX), "18446744073709551615");
}

#[test]
fn decimal_digits_agree_with_the_standard_formatting() {
    for n in [1u64, 9, 11, 99, 100, 101, 999, 1000, 65_535, 4_294_967_296, u64::MAX - 1] {
        assert_eq!(decimal_string(n), format!("{}", n));
    }
}

#[test]
fn no_errors_no_suffix() {
    assert_eq!(error_suffix_string(0), "");
}

#[test]
fn one_error_is_singular() {
    assert_eq!(error_suffix_string(1), "  <1 IO Error>");
}

#[test]
fn several_errors_are_plural() {
    assert_eq!(error_suffix_string(2), "  <2 IO Errors>");
    assert_eq!(error_suffix_string(120), "  <120 IO Errors>");
}

#[test]
fn line_of_a_plain_file() {
    let line = output_colored_path("1.00 KB", 10, "notes.txt", 0, None);
    assert_eq!(line, "\x1b[32m   1.00 KB\x1b[39m notes.txt\n");
}

#[test]
fn line_of_a_directory_is_colored() {
    let line = output_colored_path("12 b", 12, "src", 0, Some(Color::Cyan));
    assert_eq!(line, "\x1b[32m        12 b\x1b[39m \x1b[36msrc\x1b[39m\n");
}

#[test]
fn line_with_errors() {
    let line = output_colored_path("0 b", 5, "gone", 1, Some(Color::Cyan));
    assert_eq!(line, "\x1b[32m  0 b\x1b[39m \x1b[36mgone\x1b[39m  <1 IO Error>\n");
    let line = output_colored_path("0 b", 5, "total", 3, None);
    assert_eq!(line, "\x1b[32m  0 b\x1b[39m total  <3 IO Errors>\n");
}

#[test]
fn size_longer_than_the_width_is_not_cut() {
    let line = output_colored_path("123456 b", 4, "p", 0, None);
    assert_eq!(line, "\x1b[32m123456 b\x1b[39m p\n");
    let line = output_colored_path("1234", 4, "p", 0, None);
    assert_eq!(line, "\x1b[32m1234\x1b[39m p\n");
    let line = output_colored_path("", 0, "p", 0, None);
    assert_eq!(line, "\x1b[32m\x1b[39m p\n");
}

#[test]
fn width_counts_characters_not_bytes() {
    let line = output_colored_path("1 µb", 6, "p", 0, None);
    assert_eq!(line, "\x1b[32m  1 µb\x1b[39m p\n");
}

#[test]
fn coloring_differs_from_the_plain_path() {
    let colored = output_colored_path("1", 1, "p", 0, Some(Color::Cyan));
    let plain = output_colored_path("1", 1, "p", 0, None);
    assert_ne!(colored, plain);
    assert_ne!(plain, "1 p\n");
}

#[test]
fn color_of_paths() {
    assert_eq!(path_color_of(true), None);
    assert_eq!(path_color_of(false), Some(Color::Cyan));
}

#[test]
fn progress_line_returns_to_the_start() {
    assert_eq!(progress_text(0), "Enumerating 0 entries\r");
    assert_eq!(progress_text(1234), "Enumerating 1234 entries\r");
}

#[test]
fn clearing_the_progress_line() {
    assert_eq!(clear_line_text(), "\x1b[2K\r");
}

#[test]
fn padding_fills_up_to_the_width() {
    assert_eq!(pad_left_string("ab", 5), "   ab");
    assert_eq!(pad_left_string("ab", 2), "ab");
    assert_eq!(pad_left_string("abc", 2), "abc");
    assert_eq!(pad_left_string("", 3), "   ");
    assert_eq!(pad_left_string("", 0), "");
    assert_eq!(pad_left_string("µ", 2), " µ");
}

#[test]
fn padding_agrees_with_the_standard_formatting() {
    for width in [0usize, 1, 4, 9, 10, 11, 40] {
        for text in ["", "7 b", "1.00 KB", "123456789012", "12 µb"] {
            assert_eq!(pad_left_string(text, width), format!("{:>width$}", text));
        }
    }
}

#[test]
fn very_wide_lines_are_rendered() {
    let line = output_colored_path("x", 70000, "p", 0, None);
    assert_eq!(line.chars().count(), 5 + 70000 + 5 + 1 + 1 + 1);
    assert!(line.starts_with("\x1b[32m "));
    assert!(line.ends_with(" x\x1b[39m p\n"));
}
