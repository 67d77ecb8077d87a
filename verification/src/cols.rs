//! The display-column model: how many terminal columns a character or a line
//! of characters occupies. Alignment is stated and proved over this measure,
//! which sums per-character column counts.

use vstd::prelude::*;

verus! {

/// Display-column count of a character outside the printable ASCII range,
/// as `unicode_width` measures it. Left abstract: the value is a pure
/// function of the character, fixed by the Unicode tables the crate carries.
pub uninterp spec fn wide_char_cols(c: char) -> nat;

/// Display-column count of a single character. Printable ASCII characters
/// occupy exactly one column; all others are measured by `unicode_width`.
pub open spec fn char_cols(c: char) -> nat {
    if 0x20 <= (c as u32) && (c as u32) <= 0x7E {
        1
    } else {
        wide_char_cols(c)
    }
}

/// Display-column count of a line: the sum of its characters' columns.
pub open spec fn line_cols(s: Seq<char>) -> nat
    decreases s.len(),
{
    if s.len() == 0 {
        0
    } else {
        char_cols(s[0]) + line_cols(s.drop_first())
    }
}

/// A line of `n` copies of the character `c`.
pub open spec fn filled(c: char, n: nat) -> Seq<char> {
    Seq::new(n, |i: int| c)
}

/// A line all of whose characters are a single column wide.
pub open spec fn row_narrow(l: Seq<char>) -> bool {
    forall|j: int| 0 <= j < l.len() ==> char_cols(#[trigger] l[j]) == 1
}

/// Relies on `unicode_width::UnicodeWidthChar::width`: the result is a pure
/// function of the character alone; its tables assign exactly 1 column to
/// printable ASCII (U+0020..=U+007E) and at most 3 columns to any character.
/// Control characters, for which the crate returns `None`, count as 0 here.
#[verifier::external_body]
pub(crate) fn char_display_width(c: char) -> (r: usize)
    ensures
        r == char_cols(c),
        !(0x20 <= (c as u32) && (c as u32) <= 0x7E) ==> r == wide_char_cols(c),
        r <= 3,
{
    unicode_width::UnicodeWidthChar::width(c).unwrap_or(0)
}

/// The column count of a concatenation is the sum of the column counts.
pub proof fn lemma_line_cols_concat(a: Seq<char>, b: Seq<char>)
    ensures
        line_cols(a + b) == line_cols(a) + line_cols(b),
    decreases a.len(),
{
    if a.len() == 0 {
        assert(a + b =~= b);
    } else {
        assert((a + b).drop_first() =~= a.drop_first() + b);
        lemma_line_cols_concat(a.drop_first(), b);
    }
}

/// A run of one character occupies `n` times that character's columns.
pub proof fn lemma_line_cols_filled(c: char, n: nat)
    ensures
        line_cols(filled(c, n)) == n * char_cols(c),
    decreases n,
{
    if n == 0 {
    } else {
        assert(filled(c, n).drop_first() =~= filled(c, (n - 1) as nat));
        lemma_line_cols_filled(c, (n - 1) as nat);
        assert(n * char_cols(c) == char_cols(c) + (n - 1) * char_cols(c)) by (nonlinear_arith);
    }
}

/// Extending a prefix by one character adds that character's columns.
pub proof fn lemma_line_cols_take_step(s: Seq<char>, i: int)
    requires
        0 <= i < s.len(),
    ensures
        line_cols(s.take(i + 1)) == line_cols(s.take(i)) + char_cols(s[i]),
{
    assert(s.take(i + 1) =~= s.take(i) + seq![s[i]]);
    lemma_line_cols_concat(s.take(i), seq![s[i]]);
    assert(line_cols(seq![s[i]]) == char_cols(s[i]) + line_cols(Seq::<char>::empty())) by {
        assert(seq![s[i]].drop_first() =~= Seq::<char>::empty());
    }
}

/// On a line of single-column characters, columns and character count agree.
pub proof fn lemma_narrow_line_cols(l: Seq<char>)
    requires
        row_narrow(l),
    ensures
        line_cols(l) == l.len(),
    decreases l.len(),
{
    if l.len() > 0 {
        lemma_narrow_line_cols(l.drop_first());
    }
}

} // verus!
