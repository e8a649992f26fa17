//! Markup emission: opening commands for each active attribute, brace
//! escaping of literal text, and per-line wrapping of styled text.
//!
//! Every markup command and every escaped brace is introduced by the
//! marker character `×`. The background truecolor command uses the same
//! hex-triple convention as the foreground one; keeping one convention for
//! both is deliberate.

use vstd::prelude::*;

use crate::palette::{hex6, palette_hex, palette_rgb_exec, push_hex6};
use crate::scan::{find_char, find_from, lemma_find_from};
use crate::style::{Color, Style};

verus! {

/// The opening markup command for one attribute.
pub open spec fn command_of(s: Style) -> Seq<char> {
    match s {
        Style::Bold => seq!['×', 't', 'e', 'x', 't', 'b', 'f', '{'],
        Style::Italic => seq!['×', 't', 'e', 'x', 't', 'i', 't', '{'],
        Style::Underline => seq!['×', 'u', 'l', 'i', 'n', 'e', '{'],
        Style::ForegroundColor(c) => seq![
            '×', 't', 'e', 'x', 't', 'c', 'o', 'l', 'o', 'r', '[', 'H', 'T', 'M', 'L', ']', '{',
        ] + color_hex(c) + seq!['}', '{'],
        Style::BackgroundColor(c) => seq![
            '×', 'c', 'o', 'l', 'o', 'r', 'b', 'o', 'x', '[', 'H', 'T', 'M', 'L', ']', '{',
        ] + color_hex(c) + seq!['}', '{'],
    }
}

/// The six hex digits naming a color: a palette lookup for an indexed
/// color, the channels themselves for a direct one.
pub open spec fn color_hex(c: Color) -> Seq<char> {
    match c {
        Color::Indexed(i) => palette_hex(i as int),
        Color::Rgb(r, g, b) => hex6(r as int, g as int, b as int),
    }
}

/// The opening commands of the whole stack, first pushed outermost.
pub open spec fn commands_of(styles: Seq<Style>) -> Seq<char>
    decreases styles.len(),
{
    if styles.len() == 0 {
        Seq::empty()
    } else {
        commands_of(styles.drop_last()) + command_of(styles.last())
    }
}

/// One literal character as it appears in the output: braces get the
/// escape marker in front, everything else stands as it is.
pub open spec fn escape_char(c: char) -> Seq<char> {
    if c == '{' {
        seq!['×', '{']
    } else if c == '}' {
        seq!['×', '}']
    } else {
        seq![c]
    }
}

/// A line of literal text with every brace escaped.
pub open spec fn escape_line(line: Seq<char>) -> Seq<char>
    decreases line.len(),
{
    if line.len() == 0 {
        Seq::empty()
    } else {
        escape_line(line.drop_last()) + escape_char(line.last())
    }
}

/// `n` closing braces, one per open command.
pub open spec fn closes(n: nat) -> Seq<char> {
    Seq::new(n, |i: int| '}')
}

/// One output line: the opening commands of the stack, the escaped text,
/// and a closing brace per command.
pub open spec fn line_out(line: Seq<char>, styles: Seq<Style>) -> Seq<char> {
    commands_of(styles) + escape_line(line) + closes(styles.len())
}

/// The literal text of one segment, split on newlines, each line wrapped
/// independently in the full stack so no command spans a line break.
pub open spec fn emit_lines(text: Seq<char>, styles: Seq<Style>) -> Seq<char>
    decreases text.len(),
    via emit_lines_decreases
{
    let k = find_from(text, '\n', 0);
    if k == text.len() {
        line_out(text, styles)
    } else {
        line_out(text.subrange(0, k), styles) + seq!['\n'] + emit_lines(
            text.subrange(k + 1, text.len() as int),
            styles,
        )
    }
}

#[via_fn]
proof fn emit_lines_decreases(text: Seq<char>, styles: Seq<Style>) {
    lemma_find_from(text, '\n', 0);
}

/// Appends the opening command for one attribute.
fn push_command(out: &mut Vec<char>, s: Style)
    ensures
        final(out)@ == old(out)@ + command_of(s),
{
    match s {
        Style::Bold => {
            out.push('×');
            out.push('t');
            out.push('e');
            out.push('x');
            out.push('t');
            out.push('b');
            out.push('f');
            out.push('{');
            proof {
                assert(out@ =~= old(out)@ + command_of(s));
            }
        },
        Style::Italic => {
            out.push('×');
            out.push('t');
            out.push('e');
            out.push('x');
            out.push('t');
            out.push('i');
            out.push('t');
            out.push('{');
            proof {
                assert(out@ =~= old(out)@ + command_of(s));
            }
        },
        Style::Underline => {
            out.push('×');
            out.push('u');
            out.push('l');
            out.push('i');
            out.push('n');
            out.push('e');
            out.push('{');
            proof {
                assert(out@ =~= old(out)@ + command_of(s));
            }
        },
        Style::ForegroundColor(c) => {
            out.push('×');
            out.push('t');
            out.push('e');
            out.push('x');
            out.push('t');
            out.push('c');
            out.push('o');
            out.push('l');
            out.push('o');
            out.push('r');
            out.push('[');
            out.push('H');
            out.push('T');
            out.push('M');
            out.push('L');
            out.push(']');
            out.push('{');
            push_color_hex(out, c);
            out.push('}');
            out.push('{');
            proof {
                assert(out@ =~= old(out)@ + command_of(s));
            }
        },
        Style::BackgroundColor(c) => {
            out.push('×');
            out.push('c');
            out.push('o');
            out.push('l');
            out.push('o');
            out.push('r');
            out.push('b');
            out.push('o');
            out.push('x');
            out.push('[');
            out.push('H');
            out.push('T');
            out.push('M');
            out.push('L');
            out.push(']');
            out.push('{');
            push_color_hex(out, c);
            out.push('}');
            out.push('{');
            proof {
                assert(out@ =~= old(out)@ + command_of(s));
            }
        },
    }
}

/// Appends the six hex digits naming a color.
fn push_color_hex(out: &mut Vec<char>, c: Color)
    ensures
        final(out)@ == old(out)@ + color_hex(c),
{
    match c {
        Color::Indexed(i) => {
            let rgb = palette_rgb_exec(i);
            push_hex6(out, rgb.0, rgb.1, rgb.2);
        },
        Color::Rgb(r, g, b) => {
            push_hex6(out, r, g, b);
        },
    }
}

/// Appends the opening commands of the whole stack, in stack order.
fn push_commands(out: &mut Vec<char>, styles: &Vec<Style>)
    ensures
        final(out)@ == old(out)@ + commands_of(styles@),
{
    let n = styles.len();
    let mut i: usize = 0;
    proof {
        assert(styles@.take(0) =~= Seq::<Style>::empty());
        assert(out@ + commands_of(styles@.take(0)) =~= out@);
    }
    while i < n
        invariant
            i <= n,
            n == styles@.len(),
            out@ == old(out)@ + commands_of(styles@.take(i as int)),
        decreases n - i,
    {
        proof {
            assert(styles@.take(i + 1).drop_last() =~= styles@.take(i as int));
            assert(styles@.take(i + 1).last() == styles@[i as int]);
        }
        push_command(out, styles[i]);
        i = i + 1;
    }
    proof {
        assert(styles@.take(n as int) =~= styles@);
    }
}

/// Appends one line of literal text with every brace escaped.
fn push_escaped(out: &mut Vec<char>, line: &[char])
    ensures
        final(out)@ == old(out)@ + escape_line(line@),
{
    let n = line.len();
    let mut i: usize = 0;
    proof {
        assert(line@.take(0) =~= Seq::<char>::empty());
        assert(out@ + escape_line(line@.take(0)) =~= out@);
    }
    while i < n
        invariant
            i <= n,
            n == line@.len(),
            out@ == old(out)@ + escape_line(line@.take(i as int)),
        decreases n - i,
    {
        proof {
            assert(line@.take(i + 1).drop_last() =~= line@.take(i as int));
            assert(line@.take(i + 1).last() == line@[i as int]);
        }
        let c = line[i];
        if c == '{' {
            out.push('×');
            out.push('{');
        } else if c == '}' {
            out.push('×');
            out.push('}');
        } else {
            out.push(c);
        }
        proof {
            assert(out@ =~= old(out)@ + escape_line(line@.take(i + 1)));
        }
        i = i + 1;
    }
    proof {
        assert(line@.take(n as int) =~= line@);
    }
}

/// Appends one closing brace per open command.
fn push_closes(out: &mut Vec<char>, n: usize)
    ensures
        final(out)@ == old(out)@ + closes(n as nat),
{
    let mut i: usize = 0;
    proof {
        assert(out@ + closes(0) =~= out@);
    }
    while i < n
        invariant
            i <= n,
            out@ == old(out)@ + closes(i as nat),
        decreases n - i,
    {
        out.push('}');
        proof {
            assert(out@ =~= old(out)@ + closes((i + 1) as nat));
        }
        i = i + 1;
    }
}

/// Appends the literal text of one segment, each line wrapped
/// independently in the current stack.
pub fn emit_text(out: &mut Vec<char>, text: &[char], styles: &Vec<Style>)
    ensures
        final(out)@ == old(out)@ + emit_lines(text@, styles@),
{
    let mut p: usize = 0;
    proof {
        assert(text@.subrange(0, text@.len() as int) =~= text@);
    }
    loop
        invariant_except_break
            p <= text@.len(),
            out@ + emit_lines(text@.subrange(p as int, text@.len() as int), styles@) == old(out)@
                + emit_lines(text@, styles@),
        ensures
            out@ == old(out)@ + emit_lines(text@, styles@),
        decreases text@.len() - p,
    {
        let rem = vstd::slice::slice_subrange(text, p, text.len());
        let k = find_char(rem, '\n', 0);
        let line = vstd::slice::slice_subrange(rem, 0, k);
        let ghost out_before = out@;
        push_commands(out, styles);
        push_escaped(out, line);
        push_closes(out, styles.len());
        proof {
            assert(out@ =~= out_before + line_out(rem@.subrange(0, k as int), styles@));
        }
        if k == rem.len() {
            proof {
                assert(rem@.subrange(0, k as int) =~= rem@);
            }
            break;
        }
        out.push('\n');
        proof {
            assert(rem@.subrange(k + 1, rem@.len() as int) =~= text@.subrange(
                p + k + 1,
                text@.len() as int,
            ));
            assert(out@ =~= out_before + (line_out(rem@.subrange(0, k as int), styles@)
                + seq!['\n']));
        }
        p = p + k + 1;
    }
}

} // verus!
