//! Rendering one result line, and the texts of the progress indicator.

use crate::record::Color;
use owo_colors::AnsiColors;
use owo_colors::OwoColorize;
use vstd::prelude::*;
use vstd::string::*;

verus! {

/// The character that stands for the digit `d`.
pub open spec fn digit_char(d: nat) -> char {
    if d == 0 {
        '0'
    } else if d == 1 {
        '1'
    } else if d == 2 {
        '2'
    } else if d == 3 {
        '3'
    } else if d == 4 {
        '4'
    } else if d == 5 {
        '5'
    } else if d == 6 {
        '6'
    } else if d == 7 {
        '7'
    } else if d == 8 {
        '8'
    } else {
        '9'
    }
}

/// The number `n` written in decimal digits, without leading zeros.
pub open spec fn decimal(n: nat) -> Seq<char>
    decreases n,
{
    if n < 10 {
        seq![digit_char(n)]
    } else {
        decimal(n / 10).push(digit_char(n % 10))
    }
}

/// The text `text` with spaces before it, as many as it takes to fill
/// `width` characters; where it is as long or longer, the text itself.
pub open spec fn pad_left(text: Seq<char>, width: nat) -> Seq<char> {
    if text.len() >= width {
        text
    } else {
        Seq::new((width - text.len()) as nat, |i: int| ' ') + text
    }
}

/// The control sequence that ends a foreground color.
pub open spec fn color_end() -> Seq<char> {
    seq!['\x1b', '[', '3', '9', 'm']
}

/// The text in green: between the control sequence for green and the one
/// that ends a color.
pub open spec fn green(text: Seq<char>) -> Seq<char> {
    seq!['\x1b', '[', '3', '2', 'm'] + text + color_end()
}

/// The text in the given color: between the control sequence for that color
/// and the one that ends a color.
pub open spec fn in_color(text: Seq<char>, color: Color) -> Seq<char> {
    match color {
        Color::Cyan => seq!['\x1b', '[', '3', '6', 'm'] + text + color_end(),
    }
}

/// What is said of a root's errors behind its path: nothing where there are
/// none, else their number, with "Error" in the plural from two on.
pub open spec fn error_suffix(num_errors: u64) -> Seq<char> {
    if num_errors == 0 {
        Seq::empty()
    } else {
        seq![' ', ' ', '<'] + decimal(num_errors as nat) + seq![
            ' ',
            'I',
            'O',
            ' ',
            'E',
            'r',
            'r',
            'o',
            'r',
        ] + (if num_errors > 1 {
            seq!['s']
        } else {
            Seq::empty()
        }) + seq!['>']
    }
}

/// One result line: the size in green, right-aligned to `size_width`
/// characters, a space, the path in its color if it has one, what is said of
/// the errors, and the end of the line.
pub open spec fn result_line(
    size: Seq<char>,
    size_width: nat,
    path: Seq<char>,
    num_errors: u64,
    path_color: Option<Color>,
) -> Seq<char> {
    green(pad_left(size, size_width)) + seq![' '] + (match path_color {
        Some(color) => in_color(path, color),
        None => path,
    }) + error_suffix(num_errors) + seq!['\n']
}

/// The progress line for `entries` entries met so far. It ends by returning
/// to the start of the line, so that the next one overwrites it.
pub open spec fn progress_line(entries: u64) -> Seq<char> {
    seq!['E', 'n', 'u', 'm', 'e', 'r', 'a', 't', 'i', 'n', 'g', ' '] + decimal(entries as nat)
        + seq![' ', 'e', 'n', 't', 'r', 'i', 'e', 's', '\r']
}

/// The control sequence that erases the progress line and returns to its
/// start.
pub open spec fn clear_line() -> Seq<char> {
    seq!['\x1b', '[', '2', 'K', '\r']
}

/// Calls `green` of owo_colors on `text`. The crate writes the control
/// sequence for green, the text, and the sequence that ends the color. This
/// contract is taken on trust: the body is not verified.
#[verifier::external_body]
fn green_text(text: &str) -> (out: String)
    ensures
        out@ == green(text@),
{
    format!("{}", text.green())
}

/// Puts spaces before `text` until it fills `width` characters.
pub fn pad_left_string(text: &str, width: usize) -> (padded: String)
    ensures
        padded@ == pad_left(text@, width as nat),
{
    let len = text.unicode_len();
    let mut padded = String::new();
    if len < width {
        proof {
            reveal_strlit(" ");
        }
        let mut i: usize = 0;
        while i < width - len
            invariant
                len < width,
                i <= width - len,
                padded@ == Seq::new(i as nat, |k: int| ' '),
                " "@ == seq![' '],
            decreases width - len - i,
        {
            padded.append(" ");
            i += 1;
            assert(padded@ =~= Seq::new(i as nat, |k: int| ' '));
        }
    }
    padded.append(text);
    assert(padded@ =~= pad_left(text@, width as nat));
    padded
}

/// Calls `color` of owo_colors on `path` with the crate's color that stands
/// for `color`. The crate writes the control sequence of the color, the
/// text, and the sequence that ends the color. This contract is taken on
/// trust: the body is not verified.
#[verifier::external_body]
fn colored(path: &str, color: Color) -> (text: String)
    ensures
        text@ == in_color(path@, color),
{
    match color {
        Color::Cyan => format!("{}", path.color(AnsiColors::Cyan)),
    }
}

/// The text of one decimal digit.
fn digit_str(d: u64) -> (text: &'static str)
    requires
        d < 10,
    ensures
        text@ == seq![digit_char(d as nat)],
{
    proof {
        reveal_strlit("0");
        reveal_strlit("1");
        reveal_strlit("2");
        reveal_strlit("3");
        reveal_strlit("4");
        reveal_strlit("5");
        reveal_strlit("6");
        reveal_strlit("7");
        reveal_strlit("8");
        reveal_strlit("9");
    }
    let text = if d == 0 {
        "0"
    } else if d == 1 {
        "1"
    } else if d == 2 {
        "2"
    } else if d == 3 {
        "3"
    } else if d == 4 {
        "4"
    } else if d == 5 {
        "5"
    } else if d == 6 {
        "6"
    } else if d == 7 {
        "7"
    } else if d == 8 {
        "8"
    } else {
        "9"
    };
    assert(text@ =~= seq![digit_char(d as nat)]);
    text
}

/// Writes `n` in decimal digits.
pub fn decimal_string(n: u64) -> (text: String)
    ensures
        text@ == decimal(n as nat),
    decreases n,
{
    if n < 10 {
        String::from_str(digit_str(n))
    } else {
        let mut text = decimal_string(n / 10);
        text.append(digit_str(n % 10));
        assert(text@ =~= decimal(n as nat));
        text
    }
}

/// What is said of `num_errors` errors behind a path.
pub fn error_suffix_string(num_errors: u64) -> (text: String)
    ensures
        text@ == error_suffix(num_errors),
{
    if num_errors == 0 {
        String::new()
    } else {
        proof {
            reveal_strlit("  <");
            reveal_strlit(" IO Error");
            reveal_strlit("s");
            reveal_strlit(">");
        }
        let mut text = String::from_str("  <");
        let digits = decimal_string(num_errors);
        text.append(digits.as_str());
        text.append(" IO Error");
        if num_errors > 1 {
            text.append("s");
        }
        text.append(">");
        assert(text@ =~= error_suffix(num_errors));
        text
    }
}

/// Renders one result line for a path with its size, already written out as
/// `size`, and its errors.
pub fn output_colored_path(
    size: &str,
    size_width: usize,
    path: &str,
    num_errors: u64,
    path_color: Option<Color>,
) -> (line: String)
    ensures
        line@ == result_line(size@, size_width as nat, path@, num_errors, path_color),
{
    proof {
        reveal_strlit(" ");
        reveal_strlit("\n");
    }
    let padded = pad_left_string(size, size_width);
    let mut line = green_text(padded.as_str());
    line.append(" ");
    match path_color {
        Some(color) => {
            let shown = colored(path, color);
            line.append(shown.as_str());
        },
        None => {
            line.append(path);
        },
    }
    let errors = error_suffix_string(num_errors);
    line.append(errors.as_str());
    line.append("\n");
    assert(line@ =~= result_line(
        size@,
        size_width as nat,
        path@,
        num_errors,
        path_color,
    ));
    line
}

/// The progress line for `entries` entries met so far.
pub fn progress_text(entries: u64) -> (text: String)
    ensures
        text@ == progress_line(entries),
{
    proof {
        reveal_strlit("Enumerating ");
        reveal_strlit(" entries\r");
    }
    let mut text = String::from_str("Enumerating ");
    let digits = decimal_string(entries);
    text.append(digits.as_str());
    text.append(" entries\r");
    assert(text@ =~= progress_line(entries));
    text
}

/// The control sequence that erases the progress line.
pub fn clear_line_text() -> (text: String)
    ensures
        text@ == clear_line(),
{
    proof {
        reveal_strlit("\x1b[2K\r");
    }
    let text = String::from_str("\x1b[2K\r");
    assert(text@ =~= clear_line());
    text
}

} // verus!
