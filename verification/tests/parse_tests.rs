use ansi_markup::parse;

fn conv(s: &str) -> String {
    parse(s.to_string())
}

#[test]
fn plain_text_unchanged() {
    assert_eq!(conv("hello world"), "hello world");
    assert_eq!(conv(""), "");
    assert_eq!(conv("line one\nline two"), "line one\nline two");
}

#[test]
fn plain_text_with_braces_before_any_sequence_unchanged() {
    assert_eq!(conv("a{b}c"), "a{b}c");
}

#[test]
fn reset_clears_all_styles() {
    assert_eq!(conv("\x1b[1mA\x1b[0mB"), "×textbf{A}B");
    assert_eq!(conv("\x1b[1;3mA\x1b[mB"), "×textbf{×textit{A}}B");
}

#[test]
fn empty_parameter_clears_like_zero() {
    assert_eq!(conv("\x1b[mB"), "B");
}

#[test]
fn bold_run_wrapped_exactly() {
    assert_eq!(conv("\x1b[1mBOLD more\x1b[0m rest"), "×textbf{BOLD more} rest");
}

#[test]
fn styled_text_across_newline_rewrapped_per_line() {
    assert_eq!(conv("\x1b[1mab\ncd\x1b[0m"), "×textbf{ab}\n×textbf{cd}");
}

#[test]
fn truecolor_missing_channels_abandoned() {
    assert_eq!(conv("\x1b[38;2;255mRED"), "RED");
    assert_eq!(conv("\x1b[38;2;255;0mRED"), "RED");
    assert_eq!(conv("\x1b[38;2mRED"), "RED");
}

#[test]
fn truecolor_unparseable_channel_abandoned() {
    assert_eq!(conv("\x1b[38;2;255;x;0mRED"), "RED");
}

#[test]
fn palette_foreground_color() {
    assert_eq!(conv("\x1b[38;5;196mX"), "×textcolor[HTML]{ff0000}{X}");
}

#[test]
fn palette_grayscale_colors() {
    assert_eq!(conv("\x1b[38;5;232mX\x1b[0m"), "×textcolor[HTML]{080808}{X}");
    assert_eq!(conv("\x1b[38;5;255mX\x1b[0m"), "×textcolor[HTML]{eeeeee}{X}");
}

#[test]
fn incomplete_sequence_passed_through() {
    assert_eq!(conv("\x1b[1"), "\x1b[1");
    assert_eq!(conv("A\x1b[31"), "A\x1b[31");
}

#[test]
fn unrecognized_sequence_passed_through() {
    assert_eq!(conv("A\x1bBC"), "A\x1bBC");
    assert_eq!(conv("A\x1b"), "A\x1b");
}

#[test]
fn braces_escaped_in_text_after_a_sequence() {
    assert_eq!(conv("\x1b[0m{x}"), "×{x×}");
    assert_eq!(conv("\x1b[1m{a}\x1b[0m"), "×textbf{×{a×}}");
}

#[test]
fn disabling_bold_removes_every_bold_entry() {
    assert_eq!(conv("\x1b[1mA\x1b[1mB\x1b[22mC"), "×textbf{A}×textbf{×textbf{B}}C");
}

#[test]
fn truecolor_foreground() {
    assert_eq!(conv("\x1b[38;2;255;0;0mR\x1b[0m"), "×textcolor[HTML]{ff0000}{R}");
}

#[test]
fn truecolor_background_uses_hex_triple() {
    assert_eq!(conv("\x1b[48;2;1;2;3mX\x1b[0m"), "×colorbox[HTML]{010203}{X}");
}

#[test]
fn basic_background_color() {
    assert_eq!(conv("\x1b[41mX\x1b[0m"), "×colorbox[HTML]{800000}{X}");
}

#[test]
fn bright_foreground_maps_to_upper_palette() {
    assert_eq!(conv("\x1b[90mX\x1b[0m"), "×textcolor[HTML]{808080}{X}");
    assert_eq!(conv("\x1b[97mX\x1b[0m"), "×textcolor[HTML]{ffffff}{X}");
}

#[test]
fn bright_background_maps_to_upper_palette() {
    assert_eq!(conv("\x1b[100mX\x1b[0m"), "×colorbox[HTML]{808080}{X}");
}

#[test]
fn italic_and_underline_nested_in_order() {
    assert_eq!(conv("\x1b[3;4mX\x1b[0m"), "×textit{×uline{X}}");
}

#[test]
fn disabling_foreground_keeps_other_styles() {
    assert_eq!(
        conv("\x1b[31;1mA\x1b[39mB"),
        "×textcolor[HTML]{800000}{×textbf{A}}×textbf{B}"
    );
}

#[test]
fn disabling_italic_and_underline() {
    assert_eq!(conv("\x1b[3;4mA\x1b[23mB\x1b[24mC"), "×textit{×uline{A}}×uline{B}C");
}

#[test]
fn unknown_parameters_ignored() {
    assert_eq!(conv("\x1b[99mX"), "X");
    assert_eq!(conv("\x1b[256mX"), "X");
    assert_eq!(conv("\x1b[xyzmX"), "X");
}

#[test]
fn unknown_extended_mode_abandons_color_but_reads_on() {
    assert_eq!(conv("\x1b[38;7;1mX"), "×textbf{X}");
    assert_eq!(conv("\x1b[38;7mX"), "X");
}

#[test]
fn only_the_literal_spelling_38_selects_the_foreground_form() {
    assert_eq!(conv("\x1b[038;5;196mX\x1b[0m"), "×colorbox[HTML]{ff0000}{X}");
    assert_eq!(conv("\x1b[+38;5;196mX\x1b[0m"), "×colorbox[HTML]{ff0000}{X}");
}

#[test]
fn numeral_with_plus_sign_accepted() {
    assert_eq!(conv("\x1b[+1mX\x1b[0m"), "×textbf{X}");
}

#[test]
fn negative_numeral_ignored() {
    assert_eq!(conv("\x1b[-1mX"), "X");
}

#[test]
fn sequence_with_no_text_emits_empty_wrap() {
    assert_eq!(conv("\x1b[1m"), "×textbf{}");
}

#[test]
fn empty_stack_multiline_text() {
    assert_eq!(conv("\x1b[0ma\nb"), "a\nb");
}

#[test]
fn unparseable_palette_index_abandoned() {
    assert_eq!(conv("\x1b[38;5;xmX"), "X");
}

#[test]
fn color_cube_corner_values() {
    assert_eq!(conv("\x1b[38;5;16mX\x1b[0m"), "×textcolor[HTML]{000000}{X}");
    assert_eq!(conv("\x1b[38;5;231mX\x1b[0m"), "×textcolor[HTML]{ffffff}{X}");
    assert_eq!(conv("\x1b[38;5;21mX\x1b[0m"), "×textcolor[HTML]{0000ff}{X}");
}

#[test]
fn stack_carries_across_segments() {
    assert_eq!(conv("\x1b[1mA\x1b[3mB\x1b[0mC"), "×textbf{A}×textbf{×textit{B}}C");
}
