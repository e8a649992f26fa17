//! The style model: one active attribute, its color payload, and the
//! operations SGR parameters perform on the ordered stack of attributes.

use vstd::prelude::*;

verus! {

/// A color: an index into the fixed 256-entry palette, or a direct
/// 24-bit value.
#[derive(Clone, Copy, PartialEq, Eq, Structural, Debug)]
pub enum Color {
    Indexed(u8),
    Rgb(u8, u8, u8),
}

/// One active styling attribute.
#[derive(Clone, Copy, PartialEq, Eq, Structural, Debug)]
pub enum Style {
    Bold,
    Italic,
    Underline,
    ForegroundColor(Color),
    BackgroundColor(Color),
}

/// The attribute families that cancellation parameters remove wholesale.
#[derive(Clone, Copy, PartialEq, Eq, Structural, Debug)]
pub enum StyleKind {
    Bold,
    Italic,
    Underline,
    Foreground,
    Background,
}

/// Whether the attribute `s` belongs to the family `k`.
pub open spec fn has_kind(s: Style, k: StyleKind) -> bool {
    match s {
        Style::Bold => k is Bold,
        Style::Italic => k is Italic,
        Style::Underline => k is Underline,
        Style::ForegroundColor(_) => k is Foreground,
        Style::BackgroundColor(_) => k is Background,
    }
}

/// The stack with every attribute of family `k` removed; the order of the
/// remaining attributes is kept.
pub open spec fn without_kind(styles: Seq<Style>, k: StyleKind) -> Seq<Style>
    decreases styles.len(),
{
    if styles.len() == 0 {
        Seq::empty()
    } else {
        let rest = without_kind(styles.drop_last(), k);
        if has_kind(styles.last(), k) {
            rest
        } else {
            rest.push(styles.last())
        }
    }
}

/// Removal leaves no attribute of the removed family behind, however many
/// entries of it the stack holds.
pub proof fn lemma_without_kind_removes_all(styles: Seq<Style>, k: StyleKind)
    ensures
        forall|i: int|
            0 <= i < without_kind(styles, k).len() ==> !has_kind(
                #[trigger] without_kind(styles, k)[i],
                k,
            ),
    decreases styles.len(),
{
    if styles.len() > 0 {
        lemma_without_kind_removes_all(styles.drop_last(), k);
        let rest = without_kind(styles.drop_last(), k);
        assert forall|i: int| 0 <= i < without_kind(styles, k).len() implies !has_kind(
            #[trigger] without_kind(styles, k)[i],
            k,
        ) by {
            if i < rest.len() {
                assert(without_kind(styles, k)[i] == rest[i]);
            } else {
                assert(without_kind(styles, k)[i] == styles.last());
            }
        }
    }
}

/// Whether the attribute `s` belongs to the family `k`.
pub fn style_has_kind(s: Style, k: StyleKind) -> (b: bool)
    ensures
        b == has_kind(s, k),
{
    match s {
        Style::Bold => matches!(k, StyleKind::Bold),
        Style::Italic => matches!(k, StyleKind::Italic),
        Style::Underline => matches!(k, StyleKind::Underline),
        Style::ForegroundColor(_) => matches!(k, StyleKind::Foreground),
        Style::BackgroundColor(_) => matches!(k, StyleKind::Background),
    }
}

/// Removes every attribute of family `k` from the stack, keeping the order
/// of the rest.
pub fn remove_kind(styles: &mut Vec<Style>, k: StyleKind)
    ensures
        final(styles)@ == without_kind(old(styles)@, k),
{
    let n = styles.len();
    let mut kept: Vec<Style> = Vec::new();
    let mut i: usize = 0;
    proof {
        assert(styles@.take(0) =~= Seq::<Style>::empty());
    }
    while i < n
        invariant
            i <= n,
            n == styles@.len(),
            styles@ == old(styles)@,
            kept@ == without_kind(styles@.take(i as int), k),
        decreases n - i,
    {
        let s = styles[i];
        proof {
            assert(styles@.take(i + 1).drop_last() =~= styles@.take(i as int));
            assert(styles@.take(i + 1).last() == s);
        }
        if !style_has_kind(s, k) {
            kept.push(s);
        }
        i = i + 1;
    }
    proof {
        assert(styles@.take(n as int) =~= styles@);
    }
    *styles = kept;
}

} // verus!
