//! Converts text holding ANSI SGR escape sequences into equivalent
//! typeset-markup text: each run of styled characters is wrapped in nested
//! formatting commands that reproduce the active bold / italic / underline /
//! color attributes, line by line.
//!
//! The conversion is total: a malformed or incomplete sequence is passed
//! through unchanged and a malformed parameter is ignored, so no input text
//! is ever lost.

use vstd::prelude::*;

pub mod emit;
pub mod laws;
pub mod palette;
pub mod params;
pub mod scan;
pub mod style;

use crate::emit::{emit_lines, emit_text};
use crate::params::{apply_args, apply_params};
use crate::scan::{find_char, find_from, lemma_find_from, split_on};
use crate::style::Style;
use vstd::std_specs::iter::IteratorSpec;

verus! {

broadcast use vstd::string::group_string_axioms;

/// The escape byte that introduces an ANSI control sequence.
pub const ESCAPE: char = '\u{1b}';

/// Output text and resulting style stack for one segment: `part` is the
/// text that follows one escape byte, up to the next one. A segment that
/// does not begin a complete SGR sequence is passed through behind its
/// escape byte; otherwise its parameters update the stack and its literal
/// text is emitted under the updated stack.
pub open spec fn segment_out(part: Seq<char>, styles: Seq<Style>) -> (Seq<char>, Seq<Style>) {
    if part.len() == 0 || part[0] != '[' {
        (seq![ESCAPE] + part, styles)
    } else {
        let m = find_from(part, 'm', 0);
        if m == part.len() {
            (seq![ESCAPE] + part, styles)
        } else {
            let styles2 = apply_params(split_on(part.subrange(1, m), ';'), styles);
            (emit_lines(part.subrange(m + 1, part.len() as int), styles2), styles2)
        }
    }
}

/// Output for `t`, the remainder of the input after one escape byte, with
/// `styles` the stack carried in from the segments before it.
pub open spec fn rest_out(t: Seq<char>, styles: Seq<Style>) -> Seq<char>
    decreases t.len(),
    via rest_out_decreases
{
    let e = find_from(t, ESCAPE, 0);
    let part = t.subrange(0, e);
    if e == t.len() {
        segment_out(part, styles).0
    } else {
        segment_out(part, styles).0 + rest_out(
            t.subrange(e + 1, t.len() as int),
            segment_out(part, styles).1,
        )
    }
}

#[via_fn]
proof fn rest_out_decreases(t: Seq<char>, styles: Seq<Style>) {
    lemma_find_from(t, ESCAPE, 0);
}

/// The whole output for `input`: the text before the first escape byte is
/// copied verbatim, and each following segment is interpreted with the
/// style stack carried across segments, starting empty.
pub open spec fn spec_parse(input: Seq<char>) -> Seq<char> {
    let e = find_from(input, ESCAPE, 0);
    if e == input.len() {
        input
    } else {
        input.subrange(0, e) + rest_out(input.subrange(e + 1, input.len() as int), Seq::empty())
    }
}

/// Interprets one segment: appends its output text and updates the stack.
fn process_segment(part: &[char], styles: &mut Vec<Style>, out: &mut Vec<char>)
    ensures
        final(out)@ == old(out)@ + segment_out(part@, old(styles)@).0,
        final(styles)@ == segment_out(part@, old(styles)@).1,
{
    if part.len() == 0 || part[0] != '[' {
        out.push(ESCAPE);
        out.extend_from_slice(part);
        proof {
            assert(out@ =~= old(out)@ + (seq![ESCAPE] + part@));
        }
        return;
    }
    let m = find_char(part, 'm', 0);
    if m == part.len() {
        out.push(ESCAPE);
        out.extend_from_slice(part);
        proof {
            assert(out@ =~= old(out)@ + (seq![ESCAPE] + part@));
        }
        return;
    }
    let args = vstd::slice::slice_subrange(part, 1, m);
    let text = vstd::slice::slice_subrange(part, m + 1, part.len());
    apply_args(args, styles);
    emit_text(out, text, styles);
}

/// Converts `input`, given as its sequence of characters.
pub fn parse_chars(input: &[char]) -> (out: Vec<char>)
    ensures
        out@ == spec_parse(input@),
{
    let n = input.len();
    let mut out: Vec<char> = Vec::new();
    let e0 = find_char(input, ESCAPE, 0);
    out.extend_from_slice(vstd::slice::slice_subrange(input, 0, e0));
    if e0 == n {
        proof {
            assert(input@.subrange(0, e0 as int) =~= input@);
        }
        return out;
    }
    let mut styles: Vec<Style> = Vec::new();
    let mut p = e0 + 1;
    loop
        invariant_except_break
            p <= n,
            n == input@.len(),
            out@ + rest_out(input@.subrange(p as int, n as int), styles@) == spec_parse(input@),
        ensures
            out@ == spec_parse(input@),
        decreases n - p,
    {
        let rem = vstd::slice::slice_subrange(input, p, n);
        let e = find_char(rem, ESCAPE, 0);
        let part = vstd::slice::slice_subrange(rem, 0, e);
        let ghost styles_before = styles@;
        process_segment(part, &mut styles, &mut out);
        if e == rem.len() {
            proof {
                assert(rem@.subrange(0, e as int) =~= rem@);
            }
            break;
        }
        proof {
            assert(rem@.subrange(e + 1, rem@.len() as int) =~= input@.subrange(
                p + e + 1,
                n as int,
            ));
        }
        p = p + e + 1;
    }
    out
}

/// The characters of `s`, in order.
fn chars_of(s: &str) -> (v: Vec<char>)
    ensures
        v@ == s@,
{
    let mut it = s.chars();
    let mut v: Vec<char> = Vec::new();
    proof {
        assert(vstd::string::spec_iter(s).remaining() == s@);
    }
    loop
        invariant_except_break
            it.decrease() is Some,
            v@ + it.remaining() == s@,
        ensures
            v@ == s@,
        decreases it.decrease()->0,
    {
        match it.next() {
            Some(c) => {
                v.push(c);
                proof {
                    assert(v@ + it.remaining() =~= s@);
                }
            },
            None => {
                proof {
                    assert(v@ =~= s@);
                }
                break;
            },
        }
    }
    v
}

/// The string holding the characters of `v`, in order.
///
/// Relies on `String`'s `FromIterator<char>` implementation: collecting an
/// iterator of characters yields the string of exactly those characters.
#[verifier::external_body]
fn string_from_chars(v: Vec<char>) -> (s: String)
    ensures
        s@ == v@,
{
    v.into_iter().collect()
}

/// Converts text holding ANSI SGR escape sequences into the equivalent
/// typeset-markup text. Total over all inputs: malformed sequences are
/// passed through and malformed parameters ignored, never an error.
pub fn parse(input: String) -> (out: String)
    ensures
        out@ == spec_parse(input@),
{
    let chars = chars_of(input.as_str());
    let result = parse_chars(chars.as_slice());
    string_from_chars(result)
}

} // verus!
