//! Interpretation of SGR parameter tokens: numeric parsing and the effect
//! of each parameter on the style stack.
//!
//! Tokens are applied left to right; a `38`/`48` introducer consumes the
//! tokens that follow it, and every malformed token degrades to a silent
//! no-op, never an error.

use vstd::prelude::*;

use crate::scan;
use crate::style::{without_kind, Color, Style, StyleKind};

verus! {

/// Whether `c` is an ASCII decimal digit.
pub open spec fn is_digit(c: char) -> bool {
    48 <= c as u32 <= 57
}

/// The value of one decimal digit.
pub open spec fn digit_val(c: char) -> int {
    c as u32 - 48
}

/// The value of a digit string read left to right.
pub open spec fn digits_val(s: Seq<char>) -> int
    decreases s.len(),
{
    if s.len() == 0 {
        0
    } else {
        digits_val(s.drop_last()) * 10 + digit_val(s.last())
    }
}

/// Whether every character of `s` is a decimal digit.
pub open spec fn all_digits(s: Seq<char>) -> bool {
    forall|i: int| 0 <= i < s.len() ==> is_digit(#[trigger] s[i])
}

/// The digit portion of a numeric token: an optional leading plus sign
/// is skipped.
pub open spec fn numeral_digits(t: Seq<char>) -> Seq<char> {
    if t.len() > 0 && t[0] == '+' {
        t.skip(1)
    } else {
        t
    }
}

/// The value of the token `t` read as an 8-bit unsigned decimal numeral:
/// an optional `+`, then one or more digits, value at most 255. Anything
/// else is no numeral.
pub open spec fn parse_u8(t: Seq<char>) -> Option<u8> {
    let d = numeral_digits(t);
    if d.len() > 0 && all_digits(d) && digits_val(d) <= 255 {
        Some(digits_val(d) as u8)
    } else {
        None
    }
}

/// A foreground or background attribute carrying `c`.
pub open spec fn color_style(fg: bool, c: Color) -> Style {
    if fg {
        Style::ForegroundColor(c)
    } else {
        Style::BackgroundColor(c)
    }
}

/// The effect of one self-contained parameter value on the stack; values
/// with no assigned meaning leave it unchanged.
pub open spec fn apply_simple(v: u8, styles: Seq<Style>) -> Seq<Style> {
    if v == 0 {
        Seq::empty()
    } else if v == 1 {
        styles.push(Style::Bold)
    } else if v == 3 {
        styles.push(Style::Italic)
    } else if v == 4 {
        styles.push(Style::Underline)
    } else if v == 22 {
        without_kind(styles, StyleKind::Bold)
    } else if v == 23 {
        without_kind(styles, StyleKind::Italic)
    } else if v == 24 {
        without_kind(styles, StyleKind::Underline)
    } else if 30 <= v && v <= 37 {
        styles.push(Style::ForegroundColor(Color::Indexed((v - 30) as u8)))
    } else if v == 39 {
        without_kind(styles, StyleKind::Foreground)
    } else if 40 <= v && v <= 47 {
        styles.push(Style::BackgroundColor(Color::Indexed((v - 40) as u8)))
    } else if v == 49 {
        without_kind(styles, StyleKind::Background)
    } else if 90 <= v && v <= 97 {
        styles.push(Style::ForegroundColor(Color::Indexed((v - 82) as u8)))
    } else if 100 <= v && v <= 107 {
        styles.push(Style::BackgroundColor(Color::Indexed((v - 92) as u8)))
    } else {
        styles
    }
}

/// The effect of an extended-color introducer (`38` or `48`) on the stack.
/// `rest` holds the tokens after the introducer. Returns the new stack and
/// how many of those tokens were consumed; a missing or unparseable part
/// abandons the color silently, and a missing part consumes every token
/// that is left.
pub open spec fn ext_step(rest: Seq<Seq<char>>, fg: bool, styles: Seq<Style>) -> (Seq<Style>, int) {
    if rest.len() == 0 {
        (styles, 0)
    } else {
        match parse_u8(rest[0]) {
            None => (styles, 1),
            Some(mode) => {
                if mode == 2 {
                    if rest.len() < 2 {
                        (styles, rest.len() as int)
                    } else {
                        match parse_u8(rest[1]) {
                            None => (styles, 2),
                            Some(r) => {
                                if rest.len() < 3 {
                                    (styles, rest.len() as int)
                                } else {
                                    match parse_u8(rest[2]) {
                                        None => (styles, 3),
                                        Some(g) => {
                                            if rest.len() < 4 {
                                                (styles, rest.len() as int)
                                            } else {
                                                match parse_u8(rest[3]) {
                                                    None => (styles, 4),
                                                    Some(b) => (
                                                        styles.push(
                                                            color_style(fg, Color::Rgb(r, g, b)),
                                                        ),
                                                        4,
                                                    ),
                                                }
                                            }
                                        },
                                    }
                                }
                            },
                        }
                    }
                } else if mode == 5 {
                    if rest.len() < 2 {
                        (styles, rest.len() as int)
                    } else {
                        match parse_u8(rest[1]) {
                            None => (styles, 2),
                            Some(x) => (styles.push(color_style(fg, Color::Indexed(x))), 2),
                        }
                    }
                } else {
                    (styles, 1)
                }
            },
        }
    }
}

/// The stack after applying the parameter tokens `toks`, in order, to
/// `styles`. An empty token clears the stack; a token that is no numeral
/// is ignored; `38`/`48` consume the tokens that follow them. Only the
/// introducer spelled exactly `38` selects the foreground form: another
/// spelling of the same value (`038`, `+38`) falls to the background form.
pub open spec fn apply_params(toks: Seq<Seq<char>>, styles: Seq<Style>) -> Seq<Style>
    decreases toks.len(),
{
    if toks.len() == 0 {
        styles
    } else {
        let t = toks[0];
        if t.len() == 0 {
            apply_params(toks.skip(1), Seq::empty())
        } else {
            match parse_u8(t) {
                None => apply_params(toks.skip(1), styles),
                Some(v) => {
                    if v == 38 || v == 48 {
                        let step = ext_step(toks.skip(1), t == seq!['3', '8'], styles);
                        apply_params(toks.skip(1 + step.1), step.0)
                    } else {
                        apply_params(toks.skip(1), apply_simple(v, styles))
                    }
                },
            }
        }
    }
}

/// Whether the extended-color introducer is spelled exactly `38`.
fn is_foreground_introducer(t: &[char]) -> (b: bool)
    ensures
        b == (t@ == seq!['3', '8']),
{
    let b = t.len() == 2 && t[0] == '3' && t[1] == '8';
    proof {
        if b {
            assert(t@ =~= seq!['3', '8']);
        } else if t@ == seq!['3', '8'] {
            assert(t@.len() == 2);
            assert(t@[0] == '3');
            assert(t@[1] == '8');
        }
    }
    b
}

/// Reads the token `t` as an 8-bit unsigned decimal numeral.
pub fn parse_u8_token(t: &[char]) -> (r: Option<u8>)
    ensures
        r == parse_u8(t@),
{
    let n = t.len();
    let start: usize = if n > 0 && t[0] == '+' {
        1
    } else {
        0
    };
    proof {
        assert(numeral_digits(t@) =~= t@.subrange(start as int, n as int));
    }
    if n == start {
        return None;
    }
    let mut i = start;
    let mut acc: u32 = 0;
    while i < n
        invariant
            start <= i <= n,
            n == t@.len(),
            numeral_digits(t@) == t@.subrange(start as int, n as int),
            all_digits(t@.subrange(start as int, i as int)),
            acc <= 2559,
            digits_val(t@.subrange(start as int, i as int)) <= 255 ==> acc == digits_val(
                t@.subrange(start as int, i as int),
            ),
            digits_val(t@.subrange(start as int, i as int)) > 255 ==> acc > 255,
        decreases n - i,
    {
        let c = t[i];
        let cv = c as u32;
        if cv < 48 || cv > 57 {
            proof {
                assert(numeral_digits(t@)[i - start] == t@[i as int]);
            }
            return None;
        }
        proof {
            let pre = t@.subrange(start as int, i as int);
            let cur = t@.subrange(start as int, i + 1);
            assert(cur.drop_last() =~= pre);
            assert(cur.last() == t@[i as int]);
            assert forall|k: int| 0 <= k < cur.len() implies is_digit(#[trigger] cur[k]) by {
                if k < pre.len() {
                    assert(cur[k] == pre[k]);
                }
            }
        }
        if acc <= 255 {
            acc = acc * 10 + (cv - 48);
        }
        i = i + 1;
    }
    proof {
        assert(t@.subrange(start as int, n as int) =~= numeral_digits(t@));
    }
    if acc <= 255 {
        Some(acc as u8)
    } else {
        None
    }
}

/// Applies one self-contained parameter value to the stack.
fn apply_simple_value(v: u8, styles: &mut Vec<Style>)
    ensures
        final(styles)@ == apply_simple(v, old(styles)@),
{
    if v == 0 {
        styles.clear();
    } else if v == 1 {
        styles.push(Style::Bold);
    } else if v == 3 {
        styles.push(Style::Italic);
    } else if v == 4 {
        styles.push(Style::Underline);
    } else if v == 22 {
        crate::style::remove_kind(styles, StyleKind::Bold);
    } else if v == 23 {
        crate::style::remove_kind(styles, StyleKind::Italic);
    } else if v == 24 {
        crate::style::remove_kind(styles, StyleKind::Underline);
    } else if 30 <= v && v <= 37 {
        styles.push(Style::ForegroundColor(Color::Indexed(v - 30)));
    } else if v == 39 {
        crate::style::remove_kind(styles, StyleKind::Foreground);
    } else if 40 <= v && v <= 47 {
        styles.push(Style::BackgroundColor(Color::Indexed(v - 40)));
    } else if v == 49 {
        crate::style::remove_kind(styles, StyleKind::Background);
    } else if 90 <= v && v <= 97 {
        styles.push(Style::ForegroundColor(Color::Indexed(v - 82)));
    } else if 100 <= v && v <= 107 {
        styles.push(Style::BackgroundColor(Color::Indexed(v - 92)));
    }
}

/// Handles an extended-color introducer found at token `j`: consumes the
/// selector and channel tokens after it and returns the position of the
/// next unconsumed token.
fn apply_extended(toks: &Vec<Vec<char>>, j: usize, fg: bool, styles: &mut Vec<Style>) -> (j2: usize)
    requires
        j < toks@.len(),
    ensures
        j < j2 <= toks@.len(),
        final(styles)@ == ext_step(toks.deep_view().skip(j + 1), fg, old(styles)@).0,
        j2 == j + 1 + ext_step(toks.deep_view().skip(j + 1), fg, old(styles)@).1,
{
    let n = toks.len();
    let ghost rest = toks.deep_view().skip(j + 1);
    proof {
        assert(toks.deep_view().len() == n);
    }
    if j + 1 >= n {
        return j + 1;
    }
    proof {
        assert(rest[0] =~= toks@[j + 1]@);
    }
    let mode = match parse_u8_token(toks[j + 1].as_slice()) {
        None => {
            return j + 2;
        },
        Some(m) => m,
    };
    if mode == 2 {
        if j + 2 >= n {
            return n;
        }
        proof {
            assert(rest[1] =~= toks@[j + 2]@);
        }
        let r = match parse_u8_token(toks[j + 2].as_slice()) {
            None => {
                return j + 3;
            },
            Some(r) => r,
        };
        if j + 3 >= n {
            return n;
        }
        proof {
            assert(rest[2] =~= toks@[j + 3]@);
        }
        let g = match parse_u8_token(toks[j + 3].as_slice()) {
            None => {
                return j + 4;
            },
            Some(g) => g,
        };
        if j + 4 >= n {
            return n;
        }
        proof {
            assert(rest[3] =~= toks@[j + 4]@);
        }
        let b = match parse_u8_token(toks[j + 4].as_slice()) {
            None => {
                return j + 5;
            },
            Some(b) => b,
        };
        let c = if fg {
            Style::ForegroundColor(Color::Rgb(r, g, b))
        } else {
            Style::BackgroundColor(Color::Rgb(r, g, b))
        };
        styles.push(c);
        j + 5
    } else if mode == 5 {
        if j + 2 >= n {
            return n;
        }
        proof {
            assert(rest[1] =~= toks@[j + 2]@);
        }
        let x = match parse_u8_token(toks[j + 2].as_slice()) {
            None => {
                return j + 3;
            },
            Some(x) => x,
        };
        let c = if fg {
            Style::ForegroundColor(Color::Indexed(x))
        } else {
            Style::BackgroundColor(Color::Indexed(x))
        };
        styles.push(c);
        j + 3
    } else {
        j + 2
    }
}

/// Applies the parameter tokens to the stack, left to right.
fn apply_tokens(toks: &Vec<Vec<char>>, styles: &mut Vec<Style>)
    ensures
        final(styles)@ == apply_params(toks.deep_view(), old(styles)@),
{
    let n = toks.len();
    let ghost tv = toks.deep_view();
    let mut j: usize = 0;
    proof {
        assert(tv.skip(0) =~~= tv);
    }
    while j < n
        invariant
            j <= n,
            n == toks@.len(),
            tv == toks.deep_view(),
            apply_params(tv.skip(j as int), styles@) == apply_params(tv, old(styles)@),
        decreases n - j,
    {
        let ghost rem = tv.skip(j as int);
        let ghost styles_at = styles@;
        proof {
            assert(rem[0] =~= toks@[j as int]@);
            assert(rem.skip(1) =~~= tv.skip(j + 1));
        }
        let t = &toks[j];
        if t.len() == 0 {
            styles.clear();
            j = j + 1;
        } else {
            match parse_u8_token(t.as_slice()) {
                None => {
                    j = j + 1;
                },
                Some(v) => {
                    if v == 38 || v == 48 {
                        let fg = is_foreground_introducer(t.as_slice());
                        let ghost step = ext_step(rem.skip(1), fg, styles_at);
                        let j2 = apply_extended(toks, j, fg, styles);
                        proof {
                            assert(rem.skip(1 + step.1) =~~= tv.skip(j2 as int));
                        }
                        j = j2;
                    } else {
                        apply_simple_value(v, styles);
                        j = j + 1;
                    }
                },
            }
        }
    }
    proof {
        assert(tv.skip(n as int) =~~= Seq::<Seq<char>>::empty());
    }
}

/// Applies the semicolon-separated parameter list `args` (the bytes
/// between `[` and `m`) to the stack.
pub fn apply_args(args: &[char], styles: &mut Vec<Style>)
    ensures
        final(styles)@ == apply_params(scan::split_on(args@, ';'), old(styles)@),
{
    let toks = scan::split_tokens(args, ';');
    apply_tokens(&toks, styles);
}

} // verus!
