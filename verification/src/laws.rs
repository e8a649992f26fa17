//! General properties of the conversion, stated and proved once over all
//! inputs.

use vstd::prelude::*;

use crate::emit::{closes, commands_of, emit_lines, escape_line, line_out};
use crate::params::{apply_params, apply_simple, digits_val, numeral_digits, parse_u8};
use crate::scan::{find_from, lemma_find_from_absent, lemma_find_from_at, split_on};
use crate::style::{lemma_without_kind_removes_all, without_kind, Style, StyleKind};
use crate::{segment_out, spec_parse, ESCAPE};

verus! {

/// Input that holds no escape byte is returned unchanged.
pub proof fn lemma_plain_text_unchanged(input: Seq<char>)
    requires
        forall|i: int| 0 <= i < input.len() ==> input[i] != ESCAPE,
    ensures
        spec_parse(input) == input,
{
    lemma_find_from_absent(input, ESCAPE, 0);
}

/// A parameter list of a single `0`, and one of a single empty token,
/// each clear the whole style stack, whatever it held.
pub proof fn lemma_reset_clears_stack(styles: Seq<Style>)
    ensures
        apply_params(split_on(seq!['0'], ';'), styles) == Seq::<Style>::empty(),
        apply_params(split_on(Seq::<char>::empty(), ';'), styles) == Seq::<Style>::empty(),
{
    reveal_with_fuel(find_from, 3);
    reveal_with_fuel(digits_val, 2);
    reveal_with_fuel(apply_params, 2);
    let zero = seq!['0'];
    assert(find_from(zero, ';', 0) == 1);
    assert(split_on(zero, ';') =~~= seq![zero]);
    assert(numeral_digits(zero) == zero);
    assert(zero.drop_last() =~= Seq::<char>::empty());
    assert(digits_val(zero) == 0);
    assert(parse_u8(zero) == Some(0u8));
    assert(seq![zero].skip(1) =~~= Seq::<Seq<char>>::empty());
    assert(apply_params(seq![zero], styles) == Seq::<Style>::empty());

    let none = Seq::<char>::empty();
    assert(find_from(none, ';', 0) == 0);
    assert(split_on(none, ';') =~~= seq![none]);
    assert(seq![none].skip(1) =~~= Seq::<Seq<char>>::empty());
    assert(apply_params(seq![none], styles) == Seq::<Style>::empty());
}

/// Under an empty stack a single line of text is emitted with no wrapping
/// commands: only its braces are escaped.
pub proof fn lemma_empty_stack_no_commands(text: Seq<char>)
    requires
        forall|i: int| 0 <= i < text.len() ==> text[i] != '\n',
    ensures
        emit_lines(text, Seq::empty()) == escape_line(text),
{
    lemma_find_from_absent(text, '\n', 0);
    assert(commands_of(Seq::empty()) =~= Seq::<char>::empty());
    assert(closes(0) =~= Seq::<char>::empty());
    assert(line_out(text, Seq::empty()) =~= escape_line(text));
}

/// Styled text spanning a line break is wrapped anew on each line: both
/// lines carry the full set of opening and closing commands, so no command
/// is left open across the break.
pub proof fn lemma_lines_wrapped_independently(a: Seq<char>, b: Seq<char>, styles: Seq<Style>)
    requires
        forall|i: int| 0 <= i < a.len() ==> a[i] != '\n',
        forall|i: int| 0 <= i < b.len() ==> b[i] != '\n',
    ensures
        emit_lines(a + seq!['\n'] + b, styles) == line_out(a, styles) + seq!['\n'] + line_out(
            b,
            styles,
        ),
{
    let t = a + seq!['\n'] + b;
    assert(t[a.len() as int] == '\n');
    assert forall|j: int| 0 <= j < a.len() implies t[j] != '\n' by {
        assert(t[j] == a[j]);
    }
    lemma_find_from_at(t, '\n', 0, a.len() as int);
    assert(t.subrange(0, a.len() as int) =~= a);
    assert(t.subrange(a.len() as int + 1, t.len() as int) =~= b);
    lemma_find_from_absent(b, '\n', 0);
    assert(emit_lines(b, styles) == line_out(b, styles));
}

/// A segment that opens a control sequence but never terminates it is
/// passed through byte for byte, escape byte included, and leaves the
/// stack alone.
pub proof fn lemma_incomplete_sequence_passthrough(part: Seq<char>, styles: Seq<Style>)
    requires
        part.len() > 0,
        part[0] == '[',
        forall|i: int| 0 <= i < part.len() ==> part[i] != 'm',
    ensures
        segment_out(part, styles).0 == seq![ESCAPE] + part,
        segment_out(part, styles).1 == styles,
{
    lemma_find_from_absent(part, 'm', 0);
}

/// A segment that does not open a control sequence is passed through
/// byte for byte, escape byte included, and leaves the stack alone.
pub proof fn lemma_unrecognized_passthrough(part: Seq<char>, styles: Seq<Style>)
    requires
        part.len() == 0 || part[0] != '[',
    ensures
        segment_out(part, styles).0 == seq![ESCAPE] + part,
        segment_out(part, styles).1 == styles,
{
}

/// Every brace in escaped text stands right after the escape marker, so
/// no literal brace can be read as a markup delimiter.
pub proof fn lemma_braces_escaped(line: Seq<char>)
    ensures
        forall|j: int|
            0 <= j < escape_line(line).len() && (#[trigger] escape_line(line)[j] == '{'
                || escape_line(line)[j] == '}') ==> j > 0 && escape_line(line)[j - 1] == '×',
    decreases line.len(),
{
    if line.len() > 0 {
        lemma_braces_escaped(line.drop_last());
        let pre = escape_line(line.drop_last());
        let out = escape_line(line);
        assert forall|j: int|
            0 <= j < out.len() && (#[trigger] out[j] == '{' || out[j] == '}') implies j > 0
            && out[j - 1] == '×' by {
            if j < pre.len() {
                assert(out[j] == pre[j]);
                assert(out[j - 1] == pre[j - 1]);
            } else {
                let c = line.last();
                if c == '{' || c == '}' {
                    assert(out[pre.len() as int] == '×');
                    assert(j == pre.len() + 1);
                } else {
                    assert(out[j] == c);
                }
            }
        }
    }
}

/// Text without braces is carried into the output unchanged.
pub proof fn lemma_no_braces_unchanged(line: Seq<char>)
    requires
        forall|i: int| 0 <= i < line.len() ==> line[i] != '{' && line[i] != '}',
    ensures
        escape_line(line) == line,
    decreases line.len(),
{
    if line.len() > 0 {
        lemma_no_braces_unchanged(line.drop_last());
        assert(escape_line(line.drop_last()).push(line.last()) =~= line);
    }
}

/// Disabling bold removes every bold entry from the stack, not just the
/// most recent one; the other attributes keep their order.
pub proof fn lemma_disable_bold_removes_all(styles: Seq<Style>)
    ensures
        apply_simple(22, styles) == without_kind(styles, StyleKind::Bold),
        forall|i: int|
            0 <= i < apply_simple(22, styles).len() ==> !(#[trigger] apply_simple(22, styles)[i]
                is Bold),
{
    lemma_without_kind_removes_all(styles, StyleKind::Bold);
}

/// Whether no character of `s` is the escape byte.
pub open spec fn escape_free(s: Seq<char>) -> bool {
    forall|i: int| 0 <= i < s.len() ==> s[i] != ESCAPE
}

/// Whether every segment of `t` (the input after one escape byte) opens
/// with `[` and reaches a terminating `m`.
pub open spec fn all_sequences_complete(t: Seq<char>) -> bool
    decreases t.len(),
    via all_sequences_complete_decreases
{
    let e = find_from(t, ESCAPE, 0);
    let part = t.subrange(0, e);
    &&& part.len() > 0
    &&& part[0] == '['
    &&& find_from(part, 'm', 0) < part.len()
    &&& (e == t.len() || all_sequences_complete(t.subrange(e + 1, t.len() as int)))
}

#[via_fn]
proof fn all_sequences_complete_decreases(t: Seq<char>) {
    crate::scan::lemma_find_from(t, ESCAPE, 0);
}

/// Whether every control sequence of `input` is complete.
pub open spec fn input_sequences_complete(input: Seq<char>) -> bool {
    let e = find_from(input, ESCAPE, 0);
    e == input.len() || all_sequences_complete(
        input.subrange(e + 1, input.len() as int),
    )
}

proof fn lemma_hex2_escape_free(n: int)
    ensures
        escape_free(crate::palette::hex2(n)),
{
    assert forall|i: int| 0 <= i < crate::palette::hex2(n).len() implies crate::palette::hex2(
        n,
    )[i] != ESCAPE by {
        if i == 0 {
            assert(crate::palette::hex2(n)[0] == crate::palette::hex_char(n / 16));
        } else {
            assert(crate::palette::hex2(n)[1] == crate::palette::hex_char(n % 16));
        }
    }
}

proof fn lemma_hex6_escape_free(r: int, g: int, b: int)
    ensures
        escape_free(crate::palette::hex6(r, g, b)),
{
    lemma_hex2_escape_free(r);
    lemma_hex2_escape_free(g);
    lemma_hex2_escape_free(b);
}

proof fn lemma_command_escape_free(s: Style)
    ensures
        escape_free(crate::emit::command_of(s)),
{
    match s {
        Style::ForegroundColor(c) => {
            match c {
                crate::style::Color::Indexed(i) => {
                    let rgb = crate::palette::palette_rgb(i as int);
                    lemma_hex6_escape_free(rgb.0, rgb.1, rgb.2);
                },
                crate::style::Color::Rgb(r, g, b) => {
                    lemma_hex6_escape_free(r as int, g as int, b as int);
                },
            }
        },
        Style::BackgroundColor(c) => {
            match c {
                crate::style::Color::Indexed(i) => {
                    let rgb = crate::palette::palette_rgb(i as int);
                    lemma_hex6_escape_free(rgb.0, rgb.1, rgb.2);
                },
                crate::style::Color::Rgb(r, g, b) => {
                    lemma_hex6_escape_free(r as int, g as int, b as int);
                },
            }
        },
        _ => {},
    }
}

proof fn lemma_commands_escape_free(styles: Seq<Style>)
    ensures
        escape_free(commands_of(styles)),
    decreases styles.len(),
{
    if styles.len() > 0 {
        lemma_commands_escape_free(styles.drop_last());
        lemma_command_escape_free(styles.last());
    }
}

proof fn lemma_escape_line_escape_free(line: Seq<char>)
    requires
        escape_free(line),
    ensures
        escape_free(escape_line(line)),
    decreases line.len(),
{
    if line.len() > 0 {
        lemma_escape_line_escape_free(line.drop_last());
    }
}

proof fn lemma_emit_lines_escape_free(text: Seq<char>, styles: Seq<Style>)
    requires
        escape_free(text),
    ensures
        escape_free(emit_lines(text, styles)),
    decreases text.len(),
{
    crate::scan::lemma_find_from(text, '\n', 0);
    let k = find_from(text, '\n', 0);
    lemma_commands_escape_free(styles);
    lemma_escape_line_escape_free(text.subrange(0, k));
    assert(text.subrange(0, k) =~= text.subrange(0, k));
    if k == text.len() {
        assert(text.subrange(0, k) =~= text);
    } else {
        lemma_emit_lines_escape_free(text.subrange(k + 1, text.len() as int), styles);
    }
}

proof fn lemma_rest_out_escape_free(t: Seq<char>, styles: Seq<Style>)
    requires
        all_sequences_complete(t),
    ensures
        escape_free(crate::rest_out(t, styles)),
    decreases t.len(),
{
    crate::scan::lemma_find_from(t, ESCAPE, 0);
    let e = find_from(t, ESCAPE, 0);
    let part = t.subrange(0, e);
    let m = find_from(part, 'm', 0);
    crate::scan::lemma_find_from(part, 'm', 0);
    let styles2 = apply_params(split_on(part.subrange(1, m), ';'), styles);
    lemma_emit_lines_escape_free(part.subrange(m + 1, part.len() as int), styles2);
    if e != t.len() {
        lemma_rest_out_escape_free(t.subrange(e + 1, t.len() as int), styles2);
    }
}

/// When every control sequence of the input is complete, the output holds
/// no raw escape byte.
pub proof fn lemma_complete_input_no_raw_escape(input: Seq<char>)
    requires
        input_sequences_complete(input),
    ensures
        escape_free(spec_parse(input)),
{
    crate::scan::lemma_find_from(input, ESCAPE, 0);
    let e = find_from(input, ESCAPE, 0);
    if e == input.len() {
        assert(spec_parse(input) == input);
    } else {
        lemma_rest_out_escape_free(input.subrange(e + 1, input.len() as int), Seq::empty());
    }
}

} // verus!
