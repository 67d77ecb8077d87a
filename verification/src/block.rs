//! The block algebra: an immutable rectangle of text and the combinators
//! that pad, align, join and overlay such rectangles.

use vstd::prelude::*;

use crate::cols::char_cols;
use crate::cols::char_display_width;
use crate::cols::filled;
use crate::cols::lemma_line_cols_concat;
use crate::cols::lemma_line_cols_filled;
use crate::cols::lemma_line_cols_take_step;
use crate::cols::lemma_narrow_line_cols;
use crate::cols::line_cols;
use crate::cols::row_narrow;
use crate::text::is_trim_white;
use crate::text::text_chars;

verus! {

/// The larger of two sizes.
pub open spec fn nat_max(a: nat, b: nat) -> nat {
    if a >= b {
        a
    } else {
        b
    }
}

/// `a - b`, clamped to zero.
pub open spec fn sub0(a: nat, b: nat) -> nat {
    if a >= b {
        (a - b) as nat
    } else {
        0
    }
}

/// `n` rows, each a run of `n_cols` copies of `c`.
pub open spec fn rows_of(c: char, n_cols: nat, n: nat) -> Seq<Seq<char>> {
    Seq::new(n, |i: int| filled(c, n_cols))
}

/// Every row extended on the right by a run of `n` copies of `c`.
pub open spec fn rows_plus_right(ls: Seq<Seq<char>>, c: char, n: nat) -> Seq<Seq<char>> {
    Seq::new(ls.len(), |i: int| ls[i] + filled(c, n))
}

/// Every row extended on the left by a run of `n` copies of `c`.
pub open spec fn rows_plus_left(ls: Seq<Seq<char>>, c: char, n: nat) -> Seq<Seq<char>> {
    Seq::new(ls.len(), |i: int| filled(c, n) + ls[i])
}

/// Rows joined pairwise, left to right. Meaningful when both sides have the
/// same number of rows.
pub open spec fn rows_beside(a: Seq<Seq<char>>, b: Seq<Seq<char>>) -> Seq<Seq<char>> {
    Seq::new(a.len(), |i: int| a[i] + b[i])
}

/// Represents a block, i.e. a rectangle, of some width and height containing
/// text.
///
/// A block pairs a declared width, counted in display columns, with a list
/// of lines. Blocks are immutable: every operation takes blocks by reference
/// and returns a new block. The combinators join blocks horizontally or
/// vertically, pad them, and overlay them.
#[derive(Clone, Debug, PartialEq, Eq, Hash)]
pub struct Block {
    width: usize,
    lines: Vec<Vec<char>>,
}

impl Block {
    /// The declared width of the block, in display columns.
    pub closed spec fn spec_width(&self) -> nat {
        self.width as nat
    }

    /// The block's lines, as sequences of characters.
    pub closed spec fn spec_lines(&self) -> Seq<Seq<char>> {
        self.lines@.map_values(|l: Vec<char>| l@)
    }

    /// The number of lines.
    pub open spec fn spec_height(&self) -> nat {
        self.spec_lines().len()
    }

    /// Rectangularity: every line occupies exactly the declared width.
    pub open spec fn wf(&self) -> bool {
        forall|i: int|
            0 <= i < self.spec_lines().len() ==> line_cols(#[trigger] self.spec_lines()[i])
                == self.spec_width()
    }

    /// Every character of the block is a single column wide.
    pub open spec fn all_narrow(&self) -> bool {
        forall|i: int|
            0 <= i < self.spec_lines().len() ==> row_narrow(#[trigger] self.spec_lines()[i])
    }

    /// No cell of the block holds the character `c`.
    pub open spec fn free_of(&self, c: char) -> bool {
        forall|i: int, j: int|
            0 <= i < self.spec_lines().len() && 0 <= j < self.spec_lines()[i].len()
                ==> #[trigger] self.spec_lines()[i][j] != c
    }
}

/// The smaller of two sizes.
pub open spec fn nat_min(a: nat, b: nat) -> nat {
    if a <= b {
        a
    } else {
        b
    }
}

/// The overlay of one row upon another: at each position the front
/// character shows, unless it is the transparency character, in which case
/// the back character shows. The row ends where the shorter row ends.
pub open spec fn merge_row(f: Seq<char>, b: Seq<char>, t: char) -> Seq<char> {
    Seq::new(nat_min(f.len(), b.len()), |j: int| if f[j] == t { b[j] } else { f[j] })
}

/// Rows overlaid pairwise. Meaningful when both sides have the same number
/// of rows.
pub open spec fn overlay_rows(fr: Seq<Seq<char>>, bk: Seq<Seq<char>>, t: char) -> Seq<Seq<char>> {
    Seq::new(fr.len(), |i: int| merge_row(fr[i], bk[i], t))
}

/// A line with its trailing whitespace removed.
pub open spec fn trimmed(l: Seq<char>) -> Seq<char>
    decreases l.len(),
{
    if l.len() == 0 {
        l
    } else if is_trim_white(l.last()) {
        trimmed(l.drop_last())
    } else {
        l
    }
}

/// The rendered form of a list of lines: each line trimmed on the right,
/// joined by single line breaks.
pub open spec fn rendered(ls: Seq<Seq<char>>) -> Seq<char>
    decreases ls.len(),
{
    if ls.len() == 0 {
        Seq::empty()
    } else if ls.len() == 1 {
        trimmed(ls[0])
    } else {
        rendered(ls.drop_last()) + seq!['\n'] + trimmed(ls.last())
    }
}

/// The width of the widest of the given lines.
pub open spec fn max_cols(ts: Seq<Seq<char>>) -> nat
    decreases ts.len(),
{
    if ts.len() == 0 {
        0
    } else {
        nat_max(max_cols(ts.drop_last()), line_cols(ts.last()))
    }
}

/// No line is wider than the widest line.
proof fn lemma_max_cols_bound(ts: Seq<Seq<char>>, j: int)
    requires
        0 <= j < ts.len(),
    ensures
        line_cols(ts[j]) <= max_cols(ts),
    decreases ts.len(),
{
    if j < ts.len() - 1 {
        lemma_max_cols_bound(ts.drop_last(), j);
    }
}

/// The smaller half of a padding amount split in two.
pub open spec fn half_lo(p: nat) -> nat {
    p / 2
}

/// The larger half of a padding amount split in two.
pub open spec fn half_hi(p: nat) -> nat {
    (p - p / 2) as nat
}

/// Join two blocks vertically, requiring blocks to have same width.
fn stack_same_width(top: &Block, bottom: &Block) -> (r: Block)
    requires
        top.spec_width() == bottom.spec_width(),
    ensures
        r.spec_width() == top.spec_width(),
        r.spec_height() == top.spec_height() + bottom.spec_height(),
        r.spec_lines() == top.spec_lines() + bottom.spec_lines(),
        top.wf() && bottom.wf() ==> r.wf(),
{
    let mut lines: Vec<Vec<char>> = Vec::new();
    let mut i: usize = 0;
    while i < top.lines.len()
        invariant
            i <= top.lines@.len(),
            lines@.len() == i,
            forall|k: int| 0 <= k < i ==> #[trigger] lines@[k]@ == top.lines@[k]@,
        decreases top.lines@.len() - i,
    {
        let l = copy_row(&top.lines[i]);
        lines.push(l);
        i += 1;
    }
    let mut j: usize = 0;
    while j < bottom.lines.len()
        invariant
            j <= bottom.lines@.len(),
            lines@.len() == top.lines@.len() + j,
            forall|k: int| 0 <= k < top.lines@.len() ==> #[trigger] lines@[k]@ == top.lines@[k]@,
            forall|k: int|
                top.lines@.len() <= k < lines@.len() ==> #[trigger] lines@[k]@ == bottom.lines@[k
                    - top.lines@.len()]@,
        decreases bottom.lines@.len() - j,
    {
        let l = copy_row(&bottom.lines[j]);
        lines.push(l);
        j += 1;
    }
    let r = Block { width: top.width, lines };
    proof {
        assert(r.spec_lines() =~= top.spec_lines() + bottom.spec_lines());
    }
    r
}

/// Join two blocks horizontally, requiring blocks to have same height.
fn beside_same_height(left: &Block, right: &Block) -> (r: Block)
    requires
        left.spec_height() == right.spec_height(),
        left.spec_width() + right.spec_width() <= usize::MAX,
    ensures
        r.spec_width() == left.spec_width() + right.spec_width(),
        r.spec_height() == left.spec_height(),
        r.spec_lines() == rows_beside(left.spec_lines(), right.spec_lines()),
        left.wf() && right.wf() ==> r.wf(),
{
    let mut lines: Vec<Vec<char>> = Vec::new();
    let mut i: usize = 0;
    while i < left.lines.len()
        invariant
            i <= left.lines@.len(),
            left.lines@.len() == right.lines@.len(),
            lines@.len() == i,
            forall|k: int|
                0 <= k < i ==> #[trigger] lines@[k]@ == left.lines@[k]@ + right.lines@[k]@,
        decreases left.lines@.len() - i,
    {
        let l = concat_row(&left.lines[i], &right.lines[i]);
        lines.push(l);
        i += 1;
    }
    let r = Block { width: left.width + right.width, lines };
    proof {
        assert(r.spec_lines() =~= rows_beside(left.spec_lines(), right.spec_lines()));
        if left.wf() && right.wf() {
            assert forall|i: int| 0 <= i < r.spec_lines().len() implies line_cols(
                #[trigger] r.spec_lines()[i],
            ) == r.spec_width() by {
                lemma_line_cols_concat(left.spec_lines()[i], right.spec_lines()[i]);
            }
        }
    }
    r
}

/// The length a row keeps when its trailing whitespace is removed.
fn trim_len(row: &Vec<char>) -> (k: usize)
    ensures
        k <= row@.len(),
        trimmed(row@) == row@.take(k as int),
{
    let mut k: usize = row.len();
    proof {
        assert(row@.take(row@.len() as int) =~= row@);
    }
    while k > 0 && row[k - 1].is_whitespace()
        invariant
            k <= row@.len(),
            trimmed(row@) == trimmed(row@.take(k as int)),
        decreases k,
    {
        proof {
            assert(row@.take(k as int).drop_last() =~= row@.take(k - 1));
        }
        k -= 1;
    }
    proof {
        if k == 0 {
            assert(row@.take(0) =~= Seq::<char>::empty());
        }
    }
    k
}

/// Repeat a character a given amount of times.
fn repeat(c: char, times: usize) -> (r: Vec<char>)
    ensures
        r@ == filled(c, times as nat),
{
    let mut r: Vec<char> = Vec::new();
    let mut i: usize = 0;
    while i < times
        invariant
            i <= times,
            r@ =~= filled(c, i as nat),
        decreases times - i,
    {
        r.push(c);
        i += 1;
    }
    proof {
        assert(r@ =~= filled(c, times as nat));
    }
    r
}

/// Subtract usizes and clamp to non-negative results.
fn subtract_or_zero(a: usize, b: usize) -> (r: usize)
    ensures
        r == sub0(a as nat, b as nat),
{
    if a > b {
        a - b
    } else {
        0
    }
}

/// A fresh copy of a row of characters.
fn copy_row(v: &Vec<char>) -> (r: Vec<char>)
    ensures
        r@ == v@,
{
    let mut r: Vec<char> = Vec::new();
    let mut i: usize = 0;
    while i < v.len()
        invariant
            i <= v@.len(),
            r@ =~= v@.take(i as int),
        decreases v@.len() - i,
    {
        r.push(v[i]);
        i += 1;
    }
    proof {
        assert(r@ =~= v@);
    }
    r
}

/// One row followed by another.
fn concat_row(a: &Vec<char>, b: &Vec<char>) -> (r: Vec<char>)
    ensures
        r@ == a@ + b@,
{
    let mut r = copy_row(a);
    let mut i: usize = 0;
    while i < b.len()
        invariant
            i <= b@.len(),
            r@ =~= a@ + b@.take(i as int),
        decreases b@.len() - i,
    {
        r.push(b[i]);
        i += 1;
    }
    proof {
        assert(r@ =~= a@ + b@);
    }
    r
}

impl Block {
    /// Create empty block with width and height zero.
    pub fn empty() -> (r: Self)
        ensures
            r.spec_width() == 0,
            r.spec_height() == 0,
            r.spec_lines() == Seq::<Seq<char>>::empty(),
            r.wf(),
    {
        let r = Block { width: 0, lines: Vec::new() };
        proof {
            assert(r.spec_lines() =~= Seq::<Seq<char>>::empty());
        }
        r
    }

    /// Return height of block.
    pub fn height(&self) -> (h: usize)
        ensures
            h == self.spec_height(),
    {
        self.lines.len()
    }

    /// Return width of block.
    pub fn width(&self) -> (w: usize)
        ensures
            w == self.spec_width(),
    {
        self.width
    }

    /// Fill right side of block with given number of the filler character.
    /// The declared width grows by the number of columns added, so the block
    /// stays rectangular whenever the filler is a single-column character.
    pub fn fill_right(&self, width: usize, filler: char) -> (r: Self)
        requires
            self.spec_width() + width <= usize::MAX,
        ensures
            r.spec_width() == self.spec_width() + width,
            r.spec_height() == self.spec_height(),
            r.spec_lines() == rows_plus_right(self.spec_lines(), filler, width as nat),
            self.wf() && char_cols(filler) == 1 ==> r.wf(),
    {
        let suffix = repeat(filler, width);
        let mut lines: Vec<Vec<char>> = Vec::new();
        let mut i: usize = 0;
        while i < self.lines.len()
            invariant
                i <= self.lines@.len(),
                lines@.len() == i,
                suffix@ == filled(filler, width as nat),
                forall|k: int| 0 <= k < i ==> #[trigger] lines@[k]@ == self.lines@[k]@ + filled(
                    filler,
                    width as nat,
                ),
            decreases self.lines@.len() - i,
        {
            let l = concat_row(&self.lines[i], &suffix);
            lines.push(l);
            i += 1;
        }
        let r = Block { width: self.width + width, lines };
        proof {
            assert(r.spec_lines() =~= rows_plus_right(self.spec_lines(), filler, width as nat));
            if self.wf() && char_cols(filler) == 1 {
                assert forall|i: int| 0 <= i < r.spec_lines().len() implies line_cols(
                    #[trigger] r.spec_lines()[i],
                ) == r.spec_width() by {
                    lemma_line_cols_concat(self.spec_lines()[i], filled(filler, width as nat));
                    lemma_line_cols_filled(filler, width as nat);
                }
            }
        }
        r
    }

    /// Pad right side of block with given number of spaces.
    pub fn pad_right(&self, width: usize) -> (r: Self)
        requires
            self.spec_width() + width <= usize::MAX,
        ensures
            r.spec_width() == self.spec_width() + width,
            r.spec_height() == self.spec_height(),
            r.spec_lines() == rows_plus_right(self.spec_lines(), ' ', width as nat),
            self.wf() ==> r.wf(),
    {
        self.fill_right(width, ' ')
    }

    /// Create block of given width and height 0.
    pub fn of_width(width: usize) -> (r: Self)
        ensures
            r.spec_width() == width,
            r.spec_height() == 0,
            r.spec_lines() == Seq::<Seq<char>>::empty(),
            r.wf(),
    {
        let r = Block::empty().pad_right(width);
        proof {
            assert(r.spec_lines() =~= Seq::<Seq<char>>::empty());
        }
        r
    }

    /// Fill bottom side of block with given number of rows of the filler
    /// character, each as wide as the block.
    pub fn fill_bottom(&self, height: usize, filler: char) -> (r: Self)
        ensures
            r.spec_width() == self.spec_width(),
            r.spec_height() == self.spec_height() + height,
            r.spec_lines() == self.spec_lines() + rows_of(
                filler,
                self.spec_width(),
                height as nat,
            ),
            self.wf() && char_cols(filler) == 1 ==> r.wf(),
    {
        let mut lines: Vec<Vec<char>> = Vec::new();
        let mut i: usize = 0;
        while i < self.lines.len()
            invariant
                i <= self.lines@.len(),
                lines@.len() == i,
                forall|k: int| 0 <= k < i ==> #[trigger] lines@[k]@ == self.lines@[k]@,
            decreases self.lines@.len() - i,
        {
            let l = copy_row(&self.lines[i]);
            lines.push(l);
            i += 1;
        }
        let mut j: usize = 0;
        while j < height
            invariant
                j <= height,
                lines@.len() == self.lines@.len() + j,
                forall|k: int|
                    0 <= k < self.lines@.len() ==> #[trigger] lines@[k]@ == self.lines@[k]@,
                forall|k: int|
                    self.lines@.len() <= k < lines@.len() ==> #[trigger] lines@[k]@ == filled(
                        filler,
                        self.spec_width(),
                    ),
            decreases height - j,
        {
            let pad = repeat(filler, self.width);
            lines.push(pad);
            j += 1;
        }
        let r = Block { width: self.width, lines };
        proof {
            assert(r.spec_lines() =~= self.spec_lines() + rows_of(
                filler,
                self.spec_width(),
                height as nat,
            ));
            if self.wf() && char_cols(filler) == 1 {
                assert forall|i: int| 0 <= i < r.spec_lines().len() implies line_cols(
                    #[trigger] r.spec_lines()[i],
                ) == r.spec_width() by {
                    if i >= self.spec_height() {
                        lemma_line_cols_filled(filler, self.spec_width());
                    }
                }
            }
        }
        r
    }

    /// Pad bottom side of block with given number of blank lines.
    pub fn pad_bottom(&self, height: usize) -> (r: Self)
        ensures
            r.spec_width() == self.spec_width(),
            r.spec_height() == self.spec_height() + height,
            r.spec_lines() == self.spec_lines() + rows_of(' ', self.spec_width(), height as nat),
            self.wf() ==> r.wf(),
    {
        self.fill_bottom(height, ' ')
    }

    /// Pad bottom so given height is reached. Higher block is untouched.
    pub fn pad_to_height_bottom(&self, height: usize) -> (r: Self)
        ensures
            r.spec_width() == self.spec_width(),
            r.spec_height() == nat_max(self.spec_height(), height as nat),
            r.spec_lines() == self.spec_lines() + rows_of(
                ' ',
                self.spec_width(),
                sub0(height as nat, self.spec_height()),
            ),
            height <= self.spec_height() ==> r.spec_lines() == self.spec_lines(),
            self.wf() ==> r.wf(),
    {
        let h = self.lines.len();
        let r = self.pad_bottom(subtract_or_zero(height, h));
        proof {
            if height <= self.spec_height() {
                assert(r.spec_lines() =~= self.spec_lines());
            }
        }
        r
    }

    /// Create block of given height and width 0.
    pub fn of_height(height: usize) -> (r: Self)
        ensures
            r.spec_width() == 0,
            r.spec_height() == height,
            r.spec_lines() == rows_of(' ', 0, height as nat),
            r.wf(),
    {
        let r = Block::empty().pad_to_height_bottom(height);
        proof {
            assert(r.spec_lines() =~= rows_of(' ', 0, height as nat));
        }
        r
    }

    /// Create block of given text. Uses the text's display width and
    /// height 1.
    fn of_string(text: &str) -> (r: Self)
        ensures
            r.spec_width() == line_cols(text@),
            r.spec_height() == 1,
            r.spec_lines() == seq![text@],
            r.wf(),
    {
        let cs = text_chars(text);
        let mut w: usize = 0;
        let mut i: usize = 0;
        while i < cs.len()
            invariant
                i <= cs@.len(),
                cs@.len() <= usize::MAX / 4,
                w == line_cols(cs@.take(i as int)),
                w <= 3 * i,
            decreases cs@.len() - i,
        {
            let cw = char_display_width(cs[i]);
            proof {
                lemma_line_cols_take_step(cs@, i as int);
            }
            w = w + cw;
            i += 1;
        }
        proof {
            assert(cs@.take(cs@.len() as int) =~= cs@);
        }
        let mut lines: Vec<Vec<char>> = Vec::new();
        lines.push(cs);
        let r = Block { width: w, lines };
        proof {
            assert(r.spec_lines() =~= seq![text@]);
        }
        r
    }

    /// Creates a block of any argument with a textual representation. Uses
    /// the argument's display string as the block's single line.
    pub fn of<T: core::fmt::Display>(t: T) -> (r: Self)
        ensures
            r.spec_height() == 1,
            r.spec_width() == line_cols(r.spec_lines()[0]),
            r.wf(),
    {
        let s = t.to_string();
        Self::of_string(s.as_str())
    }

    /// Create block containing given text. Gets width of the text and
    /// height 1.
    pub fn of_text(text: &str) -> (r: Self)
        ensures
            r.spec_width() == line_cols(text@),
            r.spec_height() == 1,
            r.spec_lines() == seq![text@],
            r.wf(),
    {
        Self::of_string(text)
    }

    /// Add given text at bottom of block, incrementing the height. Width of
    /// block will be increased if needed for the added line to fit.
    pub fn add_text(&self, text: &str) -> (r: Self)
        ensures
            r.spec_width() == nat_max(self.spec_width(), line_cols(text@)),
            r.spec_height() == self.spec_height() + 1,
            r.spec_lines() == rows_plus_right(
                self.spec_lines(),
                ' ',
                sub0(line_cols(text@), self.spec_width()),
            ) + rows_plus_right(seq![text@], ' ', sub0(self.spec_width(), line_cols(text@))),
            self.wf() ==> r.wf(),
    {
        self.stack_left(&Block::of_string(text))
    }

    /// Add given text lines at bottom of block, incrementing the height
    /// accordingly. Width of block will be increased if needed.
    pub fn add_multiple_texts(&self, texts: &[String]) -> (r: Self)
        ensures
            r.spec_width() == nat_max(self.spec_width(), max_cols(texts.deep_view())),
            r.spec_height() == self.spec_height() + texts.deep_view().len(),
            forall|i: int|
                0 <= i < self.spec_height() ==> r.spec_lines()[i] == self.spec_lines()[i] + filled(
                    ' ',
                    sub0(max_cols(texts.deep_view()), self.spec_width()),
                ),
            forall|k: int|
                0 <= k < texts.deep_view().len() ==> r.spec_lines()[self.spec_height() + k]
                    == texts.deep_view()[k] + filled(
                    ' ',
                    sub0(
                        nat_max(self.spec_width(), max_cols(texts.deep_view())),
                        line_cols(texts.deep_view()[k]),
                    ),
                ),
            self.wf() ==> r.wf(),
    {
        let ghost tv = texts.deep_view();
        let mut addition = Block::empty();
        let mut k: usize = 0;
        while k < texts.len()
            invariant
                k <= tv.len(),
                tv =~= texts.deep_view(),
                tv.len() == texts@.len(),
                forall|j: int| 0 <= j < tv.len() ==> #[trigger] tv[j] == texts@[j]@,
                addition.spec_width() == max_cols(tv.take(k as int)),
                addition.spec_height() == k,
                addition.wf(),
                forall|j: int|
                    0 <= j < k ==> #[trigger] addition.spec_lines()[j] == tv[j] + filled(
                        ' ',
                        sub0(addition.spec_width(), line_cols(tv[j])),
                    ),
            decreases texts@.len() - k,
        {
            let ghost old_addition = addition;
            addition = addition.add_text(texts[k].as_str());
            proof {
                assert(tv.take(k + 1).drop_last() =~= tv.take(k as int));
                assert(tv.take(k + 1).last() == tv[k as int]);
                assert forall|j: int| 0 <= j < k + 1 implies #[trigger] addition.spec_lines()[j]
                    == tv[j] + filled(
                    ' ',
                    sub0(addition.spec_width(), line_cols(tv[j])),
                ) by {
                    if j < k {
                        lemma_max_cols_bound(tv.take(k as int), j);
                        assert(tv.take(k as int)[j] == tv[j]);
                        assert((tv[j] + filled(
                            ' ',
                            sub0(old_addition.spec_width(), line_cols(tv[j])),
                        )) + filled(' ', sub0(line_cols(tv[k as int]), old_addition.spec_width()))
                            =~= tv[j] + filled(' ', sub0(addition.spec_width(), line_cols(tv[j]))));
                    } else {
                        assert(addition.spec_lines()[j] == tv[j] + filled(
                            ' ',
                            sub0(old_addition.spec_width(), line_cols(tv[j])),
                        ));
                        assert(tv[j] + filled(
                            ' ',
                            sub0(old_addition.spec_width(), line_cols(tv[j])),
                        ) =~= tv[j] + filled(' ', sub0(addition.spec_width(), line_cols(tv[j]))));
                    }
                }
            }
            k += 1;
        }
        proof {
            assert(tv.take(tv.len() as int) =~= tv);
        }
        let r = self.stack_left(&addition);
        proof {
            assert forall|i: int| 0 <= i < self.spec_height() implies r.spec_lines()[i]
                == self.spec_lines()[i] + filled(
                ' ',
                sub0(max_cols(tv), self.spec_width()),
            ) by {
                assert(r.spec_lines()[i] == rows_plus_right(
                    self.spec_lines(),
                    ' ',
                    sub0(addition.spec_width(), self.spec_width()),
                )[i]);
            }
            assert forall|k: int| 0 <= k < tv.len() implies r.spec_lines()[self.spec_height() + k]
                == tv[k] + filled(
                ' ',
                sub0(nat_max(self.spec_width(), max_cols(tv)), line_cols(tv[k])),
            ) by {
                assert(r.spec_lines()[self.spec_height() + k] == rows_plus_right(
                    addition.spec_lines(),
                    ' ',
                    sub0(self.spec_width(), addition.spec_width()),
                )[k]);
                lemma_max_cols_bound(tv, k);
                assert((tv[k] + filled(' ', sub0(addition.spec_width(), line_cols(tv[k]))))
                    + filled(' ', sub0(self.spec_width(), addition.spec_width())) =~= tv[k]
                    + filled(
                    ' ',
                    sub0(nat_max(self.spec_width(), max_cols(tv)), line_cols(tv[k])),
                ));
            }
        }
        r
    }

    /// Join two blocks horizontally, self to the left and the given
    /// block to the right, aligning the top side of the blocks.
    /// A spacer of width and height zero on the left leaves the right
    /// block unchanged.
    pub fn beside_top(&self, right: &Block) -> (r: Self)
        requires
            self.spec_width() + right.spec_width() <= usize::MAX,
        ensures
            r.spec_width() == self.spec_width() + right.spec_width(),
            r.spec_height() == nat_max(self.spec_height(), right.spec_height()),
            r.spec_lines() == rows_beside(
                self.spec_lines() + rows_of(
                    ' ',
                    self.spec_width(),
                    sub0(right.spec_height(), self.spec_height()),
                ),
                right.spec_lines() + rows_of(
                    ' ',
                    right.spec_width(),
                    sub0(self.spec_height(), right.spec_height()),
                ),
            ),
            self.wf() && right.wf() ==> r.wf(),
            self.spec_width() == 0 && self.spec_height() == 0 ==> r.spec_width()
                == right.spec_width() && r.spec_lines() == right.spec_lines(),
    {
        let r = beside_same_height(
            &self.pad_to_height_bottom(right.height()),
            &right.pad_to_height_bottom(self.height()),
        );
        proof {
            if self.spec_width() == 0 && self.spec_height() == 0 {
                assert forall|i: int| 0 <= i < r.spec_lines().len() implies r.spec_lines()[i]
                    == right.spec_lines()[i] by {
                    assert(right.spec_lines() + rows_of(' ', right.spec_width(), 0)
                        =~= right.spec_lines());
                    assert(filled(' ', 0) + right.spec_lines()[i] =~= right.spec_lines()[i]);
                }
                assert(r.spec_lines() =~= right.spec_lines());
            }
        }
        r
    }

    /// Join two blocks horizontally, self to the left and the given
    /// block to the right, aligning the bottom side of the blocks.
    pub fn beside_bottom(&self, right: &Block) -> (r: Self)
        requires
            self.spec_width() + right.spec_width() <= usize::MAX,
        ensures
            r.spec_width() == self.spec_width() + right.spec_width(),
            r.spec_height() == nat_max(self.spec_height(), right.spec_height()),
            r.spec_lines() == rows_beside(
                rows_of(' ', self.spec_width(), sub0(right.spec_height(), self.spec_height()))
                    + self.spec_lines(),
                rows_of(' ', right.spec_width(), sub0(self.spec_height(), right.spec_height()))
                    + right.spec_lines(),
            ),
            self.wf() && right.wf() ==> r.wf(),
    {
        beside_same_height(
            &self.pad_to_height_top(right.height()),
            &right.pad_to_height_top(self.height()),
        )
    }

    /// Pad left side of block with given number of spaces.
    pub fn pad_left(&self, width: usize) -> (r: Self)
        requires
            width + self.spec_width() <= usize::MAX,
        ensures
            r.spec_width() == width + self.spec_width(),
            r.spec_height() == self.spec_height(),
            r.spec_lines() == rows_plus_left(self.spec_lines(), ' ', width as nat),
            self.wf() ==> r.wf(),
    {
        let r = Block::of_width(width).beside_top(self);
        proof {
            assert(self.spec_lines() + rows_of(' ', self.spec_width(), 0) =~= self.spec_lines());
            assert(r.spec_lines() =~= rows_plus_left(self.spec_lines(), ' ', width as nat));
        }
        r
    }

    /// Pad top side of block with given number of blank lines.
    pub fn pad_top(&self, height: usize) -> (r: Self)
        ensures
            r.spec_width() == self.spec_width(),
            r.spec_height() == self.spec_height() + height,
            r.spec_lines() == rows_of(' ', self.spec_width(), height as nat) + self.spec_lines(),
            self.wf() ==> r.wf(),
    {
        let r = Block::of_height(height).stack_left(self);
        proof {
            assert forall|k: int| 0 <= k < r.spec_lines().len() implies r.spec_lines()[k] == (
            rows_of(' ', self.spec_width(), height as nat) + self.spec_lines())[k] by {
                if k < height {
                    assert(filled(' ', 0) + filled(' ', self.spec_width()) =~= filled(
                        ' ',
                        self.spec_width(),
                    ));
                } else {
                    assert(self.spec_lines()[k - height] + filled(' ', 0) =~= self.spec_lines()[k
                        - height]);
                }
            }
            assert(r.spec_lines() =~= rows_of(' ', self.spec_width(), height as nat)
                + self.spec_lines());
        }
        r
    }

    /// Pad right so given width is reached. Wider block is untouched.
    pub fn pad_to_width_right(&self, width: usize) -> (r: Self)
        ensures
            r.spec_width() == nat_max(self.spec_width(), width as nat),
            r.spec_height() == self.spec_height(),
            r.spec_lines() == rows_plus_right(
                self.spec_lines(),
                ' ',
                sub0(width as nat, self.spec_width()),
            ),
            width <= self.spec_width() ==> r.spec_lines() == self.spec_lines(),
            self.wf() ==> r.wf(),
    {
        let w = self.width;
        let r = self.pad_right(subtract_or_zero(width, w));
        proof {
            if width <= self.spec_width() {
                assert forall|k: int| 0 <= k < r.spec_lines().len() implies r.spec_lines()[k]
                    == self.spec_lines()[k] by {
                    assert(self.spec_lines()[k] + filled(' ', 0) =~= self.spec_lines()[k]);
                }
                assert(r.spec_lines() =~= self.spec_lines());
            }
        }
        r
    }

    /// Pad left so given width is reached. Wider block is untouched.
    pub fn pad_to_width_left(&self, width: usize) -> (r: Self)
        ensures
            r.spec_width() == nat_max(self.spec_width(), width as nat),
            r.spec_height() == self.spec_height(),
            r.spec_lines() == rows_plus_left(
                self.spec_lines(),
                ' ',
                sub0(width as nat, self.spec_width()),
            ),
            width <= self.spec_width() ==> r.spec_lines() == self.spec_lines(),
            self.wf() ==> r.wf(),
    {
        let w = self.width;
        let r = self.pad_left(subtract_or_zero(width, w));
        proof {
            if width <= self.spec_width() {
                assert forall|k: int| 0 <= k < r.spec_lines().len() implies r.spec_lines()[k]
                    == self.spec_lines()[k] by {
                    assert(filled(' ', 0) + self.spec_lines()[k] =~= self.spec_lines()[k]);
                }
                assert(r.spec_lines() =~= self.spec_lines());
            }
        }
        r
    }

    /// Pad top so given height is reached. Higher block is untouched.
    pub fn pad_to_height_top(&self, height: usize) -> (r: Self)
        ensures
            r.spec_width() == self.spec_width(),
            r.spec_height() == nat_max(self.spec_height(), height as nat),
            r.spec_lines() == rows_of(
                ' ',
                self.spec_width(),
                sub0(height as nat, self.spec_height()),
            ) + self.spec_lines(),
            height <= self.spec_height() ==> r.spec_lines() == self.spec_lines(),
            self.wf() ==> r.wf(),
    {
        let h = self.lines.len();
        let r = self.pad_top(subtract_or_zero(height, h));
        proof {
            if height <= self.spec_height() {
                assert(r.spec_lines() =~= self.spec_lines());
            }
        }
        r
    }

    /// Pad both sides so given width is reached. Wider block is untouched.
    /// If padding needs to be uneven, there will be more padding on the
    /// right side: the left gets the rounded-down half.
    pub fn pad_to_width_center_right(&self, width: usize) -> (r: Self)
        ensures
            r.spec_width() == nat_max(self.spec_width(), width as nat),
            r.spec_height() == self.spec_height(),
            r.spec_lines() == rows_plus_right(
                rows_plus_left(self.spec_lines(), ' ', half_lo(sub0(width as nat, self.spec_width()))),
                ' ',
                half_hi(sub0(width as nat, self.spec_width())),
            ),
            width <= self.spec_width() ==> r.spec_lines() == self.spec_lines(),
            self.wf() ==> r.wf(),
    {
        let padding = subtract_or_zero(width, self.width);
        let padding_left = padding / 2;
        let padding_right = padding - padding_left;
        let r = self.pad_left(padding_left).pad_right(padding_right);
        proof {
            assert(r.spec_lines() =~= rows_plus_right(
                rows_plus_left(self.spec_lines(), ' ', half_lo(sub0(width as nat, self.spec_width()))),
                ' ',
                half_hi(sub0(width as nat, self.spec_width())),
            ));
            if width <= self.spec_width() {
                assert forall|k: int| 0 <= k < r.spec_lines().len() implies r.spec_lines()[k]
                    == self.spec_lines()[k] by {
                    assert((filled(' ', 0) + self.spec_lines()[k]) + filled(' ', 0)
                        =~= self.spec_lines()[k]);
                }
                assert(r.spec_lines() =~= self.spec_lines());
            }
        }
        r
    }

    /// Pad both sides so given width is reached. Wider block is untouched.
    /// If padding needs to be uneven, there will be more padding on the
    /// left side: the right gets the rounded-down half.
    pub fn pad_to_width_center_left(&self, width: usize) -> (r: Self)
        ensures
            r.spec_width() == nat_max(self.spec_width(), width as nat),
            r.spec_height() == self.spec_height(),
            r.spec_lines() == rows_plus_right(
                rows_plus_left(self.spec_lines(), ' ', half_hi(sub0(width as nat, self.spec_width()))),
                ' ',
                half_lo(sub0(width as nat, self.spec_width())),
            ),
            width <= self.spec_width() ==> r.spec_lines() == self.spec_lines(),
            self.wf() ==> r.wf(),
    {
        let padding = subtract_or_zero(width, self.width);
        let padding_right = padding / 2;
        let padding_left = padding - padding_right;
        let r = self.pad_left(padding_left).pad_right(padding_right);
        proof {
            assert(r.spec_lines() =~= rows_plus_right(
                rows_plus_left(self.spec_lines(), ' ', half_hi(sub0(width as nat, self.spec_width()))),
                ' ',
                half_lo(sub0(width as nat, self.spec_width())),
            ));
            if width <= self.spec_width() {
                assert forall|k: int| 0 <= k < r.spec_lines().len() implies r.spec_lines()[k]
                    == self.spec_lines()[k] by {
                    assert((filled(' ', 0) + self.spec_lines()[k]) + filled(' ', 0)
                        =~= self.spec_lines()[k]);
                }
                assert(r.spec_lines() =~= self.spec_lines());
            }
        }
        r
    }

    /// Pad both top and bottom so given height is reached. Higher block is
    /// untouched. If padding needs to be uneven, there will be more padding
    /// on the top side: the bottom gets the rounded-down half.
    pub fn pad_to_height_center_top(&self, height: usize) -> (r: Self)
        ensures
            r.spec_width() == self.spec_width(),
            r.spec_height() == nat_max(self.spec_height(), height as nat),
            r.spec_lines() == rows_of(
                ' ',
                self.spec_width(),
                half_hi(sub0(height as nat, self.spec_height())),
            ) + self.spec_lines() + rows_of(
                ' ',
                self.spec_width(),
                half_lo(sub0(height as nat, self.spec_height())),
            ),
            height <= self.spec_height() ==> r.spec_lines() == self.spec_lines(),
            self.wf() ==> r.wf(),
    {
        let h = self.lines.len();
        let padding = subtract_or_zero(height, h);
        let padding_bottom = padding / 2;
        let padding_top = padding - padding_bottom;
        let r = self.pad_bottom(padding_bottom).pad_top(padding_top);
        proof {
            assert(r.spec_lines() =~= rows_of(
                ' ',
                self.spec_width(),
                half_hi(sub0(height as nat, self.spec_height())),
            ) + self.spec_lines() + rows_of(
                ' ',
                self.spec_width(),
                half_lo(sub0(height as nat, self.spec_height())),
            ));
            if height <= self.spec_height() {
                assert(r.spec_lines() =~= self.spec_lines());
            }
        }
        r
    }

    /// Pad both top and bottom so given height is reached. Higher block is
    /// untouched. If padding needs to be uneven, there will be more padding
    /// on the bottom side: the top gets the rounded-down half.
    pub fn pad_to_height_center_bottom(&self, height: usize) -> (r: Self)
        ensures
            r.spec_width() == self.spec_width(),
            r.spec_height() == nat_max(self.spec_height(), height as nat),
            r.spec_lines() == rows_of(
                ' ',
                self.spec_width(),
                half_lo(sub0(height as nat, self.spec_height())),
            ) + self.spec_lines() + rows_of(
                ' ',
                self.spec_width(),
                half_hi(sub0(height as nat, self.spec_height())),
            ),
            height <= self.spec_height() ==> r.spec_lines() == self.spec_lines(),
            self.wf() ==> r.wf(),
    {
        let h = self.lines.len();
        let padding = subtract_or_zero(height, h);
        let padding_top = padding / 2;
        let padding_bottom = padding - padding_top;
        let r = self.pad_bottom(padding_bottom).pad_top(padding_top);
        proof {
            assert(r.spec_lines() =~= rows_of(
                ' ',
                self.spec_width(),
                half_lo(sub0(height as nat, self.spec_height())),
            ) + self.spec_lines() + rows_of(
                ' ',
                self.spec_width(),
                half_hi(sub0(height as nat, self.spec_height())),
            ));
            if height <= self.spec_height() {
                assert(r.spec_lines() =~= self.spec_lines());
            }
        }
        r
    }

    /// Join two blocks horizontally, self to the left and the given
    /// block to the right, aligning the center of the blocks.
    /// If padding needs to be uneven, there will be more padding on the
    /// top side.
    pub fn beside_center_bottom(&self, right: &Block) -> (r: Self)
        requires
            self.spec_width() + right.spec_width() <= usize::MAX,
        ensures
            r.spec_width() == self.spec_width() + right.spec_width(),
            r.spec_height() == nat_max(self.spec_height(), right.spec_height()),
            r.spec_lines() == rows_beside(
                rows_of(
                    ' ',
                    self.spec_width(),
                    half_hi(sub0(right.spec_height(), self.spec_height())),
                ) + self.spec_lines() + rows_of(
                    ' ',
                    self.spec_width(),
                    half_lo(sub0(right.spec_height(), self.spec_height())),
                ),
                rows_of(
                    ' ',
                    right.spec_width(),
                    half_hi(sub0(self.spec_height(), right.spec_height())),
                ) + right.spec_lines() + rows_of(
                    ' ',
                    right.spec_width(),
                    half_lo(sub0(self.spec_height(), right.spec_height())),
                ),
            ),
            self.wf() && right.wf() ==> r.wf(),
    {
        beside_same_height(
            &self.pad_to_height_center_top(right.height()),
            &right.pad_to_height_center_top(self.height()),
        )
    }

    /// Join two blocks horizontally, self to the left and the given
    /// block to the right, aligning the center of the blocks.
    /// If padding needs to be uneven, there will be more padding on the
    /// bottom side.
    pub fn beside_center_top(&self, right: &Block) -> (r: Self)
        requires
            self.spec_width() + right.spec_width() <= usize::MAX,
        ensures
            r.spec_width() == self.spec_width() + right.spec_width(),
            r.spec_height() == nat_max(self.spec_height(), right.spec_height()),
            r.spec_lines() == rows_beside(
                rows_of(
                    ' ',
                    self.spec_width(),
                    half_lo(sub0(right.spec_height(), self.spec_height())),
                ) + self.spec_lines() + rows_of(
                    ' ',
                    self.spec_width(),
                    half_hi(sub0(right.spec_height(), self.spec_height())),
                ),
                rows_of(
                    ' ',
                    right.spec_width(),
                    half_lo(sub0(self.spec_height(), right.spec_height())),
                ) + right.spec_lines() + rows_of(
                    ' ',
                    right.spec_width(),
                    half_hi(sub0(self.spec_height(), right.spec_height())),
                ),
            ),
            self.wf() && right.wf() ==> r.wf(),
    {
        beside_same_height(
            &self.pad_to_height_center_bottom(right.height()),
            &right.pad_to_height_center_bottom(self.height()),
        )
    }

    /// Join two blocks vertically, self on the top and the given
    /// block on the bottom, aligning the left side of the blocks.
    pub fn stack_left(&self, bottom: &Block) -> (r: Self)
        ensures
            r.spec_width() == nat_max(self.spec_width(), bottom.spec_width()),
            r.spec_height() == self.spec_height() + bottom.spec_height(),
            r.spec_lines() == rows_plus_right(
                self.spec_lines(),
                ' ',
                sub0(bottom.spec_width(), self.spec_width()),
            ) + rows_plus_right(
                bottom.spec_lines(),
                ' ',
                sub0(self.spec_width(), bottom.spec_width()),
            ),
            self.wf() && bottom.wf() ==> r.wf(),
    {
        stack_same_width(
            &self.pad_to_width_right(bottom.width()),
            &bottom.pad_to_width_right(self.width()),
        )
    }

    /// Join two blocks vertically, self on the top and the given
    /// block on the bottom, aligning the right side of the blocks.
    pub fn stack_right(&self, bottom: &Block) -> (r: Self)
        ensures
            r.spec_width() == nat_max(self.spec_width(), bottom.spec_width()),
            r.spec_height() == self.spec_height() + bottom.spec_height(),
            r.spec_lines() == rows_plus_left(
                self.spec_lines(),
                ' ',
                sub0(bottom.spec_width(), self.spec_width()),
            ) + rows_plus_left(
                bottom.spec_lines(),
                ' ',
                sub0(self.spec_width(), bottom.spec_width()),
            ),
            self.wf() && bottom.wf() ==> r.wf(),
    {
        stack_same_width(
            &self.pad_to_width_left(bottom.width()),
            &bottom.pad_to_width_left(self.width()),
        )
    }

    /// Join two blocks vertically, self on the top and the given
    /// block on the bottom, aligning the center of the blocks.
    /// If padding needs to be uneven, there will be more padding on the
    /// right side.
    pub fn stack_center_left(&self, bottom: &Block) -> (r: Self)
        ensures
            r.spec_width() == nat_max(self.spec_width(), bottom.spec_width()),
            r.spec_height() == self.spec_height() + bottom.spec_height(),
            r.spec_lines() == rows_plus_right(
                rows_plus_left(
                    self.spec_lines(),
                    ' ',
                    half_lo(sub0(bottom.spec_width(), self.spec_width())),
                ),
                ' ',
                half_hi(sub0(bottom.spec_width(), self.spec_width())),
            ) + rows_plus_right(
                rows_plus_left(
                    bottom.spec_lines(),
                    ' ',
                    half_lo(sub0(self.spec_width(), bottom.spec_width())),
                ),
                ' ',
                half_hi(sub0(self.spec_width(), bottom.spec_width())),
            ),
            self.wf() && bottom.wf() ==> r.wf(),
    {
        stack_same_width(
            &self.pad_to_width_center_right(bottom.width()),
            &bottom.pad_to_width_center_right(self.width()),
        )
    }

    /// Join two blocks vertically, self on the top and the given
    /// block on the bottom, aligning the center of the blocks.
    /// If padding needs to be uneven, there will be more padding on the
    /// left side.
    pub fn stack_center_right(&self, bottom: &Block) -> (r: Self)
        ensures
            r.spec_width() == nat_max(self.spec_width(), bottom.spec_width()),
            r.spec_height() == self.spec_height() + bottom.spec_height(),
            r.spec_lines() == rows_plus_right(
                rows_plus_left(
                    self.spec_lines(),
                    ' ',
                    half_hi(sub0(bottom.spec_width(), self.spec_width())),
                ),
                ' ',
                half_lo(sub0(bottom.spec_width(), self.spec_width())),
            ) + rows_plus_right(
                rows_plus_left(
                    bottom.spec_lines(),
                    ' ',
                    half_hi(sub0(self.spec_width(), bottom.spec_width())),
                ),
                ' ',
                half_lo(sub0(self.spec_width(), bottom.spec_width())),
            ),
            self.wf() && bottom.wf() ==> r.wf(),
    {
        stack_same_width(
            &self.pad_to_width_center_left(bottom.width()),
            &bottom.pad_to_width_center_left(self.width()),
        )
    }

    /// Overlays self in front of given block. Treats spaces as transparent
    /// characters.
    pub fn in_front_of(&self, behind: &Block) -> (r: Self)
        ensures
            r.spec_width() == nat_max(self.spec_width(), behind.spec_width()),
            r.spec_height() == nat_max(self.spec_height(), behind.spec_height()),
            r.spec_lines() == overlay_rows(
                rows_plus_right(
                    self.spec_lines(),
                    ' ',
                    sub0(behind.spec_width(), self.spec_width()),
                ) + rows_of(
                    ' ',
                    nat_max(self.spec_width(), behind.spec_width()),
                    sub0(behind.spec_height(), self.spec_height()),
                ),
                rows_plus_right(
                    behind.spec_lines(),
                    ' ',
                    sub0(self.spec_width(), behind.spec_width()),
                ) + rows_of(
                    ' ',
                    nat_max(self.spec_width(), behind.spec_width()),
                    sub0(self.spec_height(), behind.spec_height()),
                ),
                ' ',
            ),
            self.wf() && behind.wf() && self.all_narrow() && behind.all_narrow() ==> r.wf()
                && r.all_narrow(),
            self.wf() && behind.wf() && self.all_narrow() && behind.all_narrow()
                && self.free_of(' ') && self.spec_width() >= behind.spec_width()
                && self.spec_height() >= behind.spec_height() ==> r.spec_width()
                == self.spec_width() && r.spec_lines() == self.spec_lines(),
    {
        self.in_front_of_with_transparency(behind, ' ')
    }

    /// Overlays self in front of given block, showing content of the block
    /// behind on the characters defined as transparent. The result covers
    /// the union of both extents: self grows by transparency fill, the
    /// block behind by space padding, and then, cell by cell, the front
    /// character shows unless it is the transparency character.
    ///
    /// When the blocks hold only single-column characters and the front is
    /// fully opaque and at least as large as the back in both directions,
    /// the overlay reproduces the front exactly.
    pub fn in_front_of_with_transparency(&self, behind: &Block, transparency: char) -> (r: Self)
        ensures
            r.spec_width() == nat_max(self.spec_width(), behind.spec_width()),
            r.spec_height() == nat_max(self.spec_height(), behind.spec_height()),
            r.spec_lines() == overlay_rows(
                rows_plus_right(
                    self.spec_lines(),
                    transparency,
                    sub0(behind.spec_width(), self.spec_width()),
                ) + rows_of(
                    transparency,
                    nat_max(self.spec_width(), behind.spec_width()),
                    sub0(behind.spec_height(), self.spec_height()),
                ),
                rows_plus_right(
                    behind.spec_lines(),
                    ' ',
                    sub0(self.spec_width(), behind.spec_width()),
                ) + rows_of(
                    ' ',
                    nat_max(self.spec_width(), behind.spec_width()),
                    sub0(self.spec_height(), behind.spec_height()),
                ),
                transparency,
            ),
            self.wf() && behind.wf() && self.all_narrow() && behind.all_narrow() && char_cols(
                transparency,
            ) == 1 ==> r.wf() && r.all_narrow(),
            self.wf() && behind.wf() && self.all_narrow() && behind.all_narrow() && char_cols(
                transparency,
            ) == 1 && self.free_of(transparency) && self.spec_width() >= behind.spec_width()
                && self.spec_height() >= behind.spec_height() ==> r.spec_width()
                == self.spec_width() && r.spec_lines() == self.spec_lines(),
    {
        let front = self.fill_right(
            subtract_or_zero(behind.width, self.width),
            transparency,
        ).fill_bottom(subtract_or_zero(behind.lines.len(), self.lines.len()), transparency);
        let back = behind.pad_to_width_right(self.width).pad_to_height_bottom(self.lines.len());
        let ghost fr = front.spec_lines();
        let ghost bk = back.spec_lines();
        let mut lines: Vec<Vec<char>> = Vec::new();
        let mut i: usize = 0;
        while i < front.lines.len()
            invariant
                front.spec_height() == back.spec_height(),
                fr == front.spec_lines(),
                bk == back.spec_lines(),
                i <= front.lines@.len(),
                lines@.len() == i,
                forall|k: int|
                    0 <= k < i ==> #[trigger] lines@[k]@ == merge_row(fr[k], bk[k], transparency),
            decreases front.lines@.len() - i,
        {
            let fl = &front.lines[i];
            let bl = &back.lines[i];
            let n = if fl.len() <= bl.len() {
                fl.len()
            } else {
                bl.len()
            };
            let mut row: Vec<char> = Vec::new();
            let mut j: usize = 0;
            while j < n
                invariant
                    n == nat_min(fl@.len(), bl@.len()),
                    j <= n,
                    row@.len() == j,
                    forall|m: int|
                        0 <= m < j ==> #[trigger] row@[m] == (if fl@[m] == transparency {
                            bl@[m]
                        } else {
                            fl@[m]
                        }),
                decreases n - j,
            {
                let fc = fl[j];
                let bc = bl[j];
                row.push(if fc == transparency { bc } else { fc });
                j += 1;
            }
            proof {
                assert(row@ =~= merge_row(fl@, bl@, transparency));
                assert(fl@ == fr[i as int] && bl@ == bk[i as int]);
            }
            lines.push(row);
            i += 1;
        }
        let r = Block { width: front.width, lines };
        proof {
            assert(r.spec_lines() =~= overlay_rows(fr, bk, transparency));
            let sw = self.spec_width();
            let bw = behind.spec_width();
            let sh = self.spec_height();
            let bh = behind.spec_height();
            let wide = nat_max(sw, bw);
            if self.wf() && behind.wf() && self.all_narrow() && behind.all_narrow() && char_cols(
                transparency,
            ) == 1 {
                assert forall|i: int| 0 <= i < r.spec_lines().len() implies line_cols(
                    #[trigger] r.spec_lines()[i],
                ) == r.spec_width() && row_narrow(r.spec_lines()[i]) by {
                    let f = fr[i];
                    let b = bk[i];
                    if i < sh {
                        lemma_narrow_line_cols(self.spec_lines()[i]);
                        assert(f == self.spec_lines()[i] + filled(transparency, sub0(bw, sw)));
                    } else {
                        assert(f == filled(transparency, wide));
                    }
                    assert(f.len() == wide);
                    assert(row_narrow(f));
                    if i < bh {
                        lemma_narrow_line_cols(behind.spec_lines()[i]);
                        assert(b == behind.spec_lines()[i] + filled(' ', sub0(sw, bw)));
                    } else {
                        assert(b == filled(' ', wide));
                    }
                    assert(b.len() == wide);
                    assert(row_narrow(b));
                    assert(r.spec_lines()[i] == merge_row(f, b, transparency));
                    assert(row_narrow(merge_row(f, b, transparency)));
                    lemma_narrow_line_cols(merge_row(f, b, transparency));
                }
            }
            if self.wf() && behind.wf() && self.all_narrow() && behind.all_narrow() && char_cols(
                transparency,
            ) == 1 && self.free_of(transparency) && sw >= bw && sh >= bh {
                assert forall|i: int| 0 <= i < r.spec_lines().len() implies r.spec_lines()[i]
                    == self.spec_lines()[i] by {
                    let f = fr[i];
                    let b = bk[i];
                    assert(f == self.spec_lines()[i] + filled(transparency, 0));
                    assert(self.spec_lines()[i] + filled(transparency, 0)
                        =~= self.spec_lines()[i]);
                    lemma_narrow_line_cols(self.spec_lines()[i]);
                    if i < bh {
                        lemma_narrow_line_cols(behind.spec_lines()[i]);
                        assert(b == behind.spec_lines()[i] + filled(' ', sub0(sw, bw)));
                    } else {
                        assert(b == filled(' ', wide));
                    }
                    assert(b.len() == wide);
                    assert(merge_row(self.spec_lines()[i], b, transparency)
                        =~= self.spec_lines()[i]);
                }
                assert(r.spec_lines() =~= self.spec_lines());
            }
        }
        r
    }

    /// Render a string from a block using a line break as separator between
    /// lines. Trims away whitespace on the right side of each line, just to
    /// save on final string length.
    pub fn render(&self) -> (out: String)
        ensures
            out@ == rendered(self.spec_lines()),
    {
        let mut out = String::new();
        let mut i: usize = 0;
        while i < self.lines.len()
            invariant
                i <= self.lines@.len(),
                out@ == rendered(self.spec_lines().take(i as int)),
            decreases self.lines@.len() - i,
        {
            if i > 0 {
                out.push('\n');
            }
            let ghost base = out@;
            let row = &self.lines[i];
            let k = trim_len(row);
            let mut j: usize = 0;
            while j < k
                invariant
                    j <= k,
                    k <= row@.len(),
                    out@ == base + row@.take(j as int),
                decreases k - j,
            {
                proof {
                    assert(base + row@.take(j + 1) =~= (base + row@.take(j as int)).push(
                        row@[j as int],
                    ));
                }
                out.push(row[j]);
                j += 1;
            }
            proof {
                let pre = self.spec_lines().take(i as int);
                let cur = self.spec_lines().take(i + 1);
                assert(cur.drop_last() =~= pre);
                assert(cur.last() == self.spec_lines()[i as int]);
                assert(row@ == self.spec_lines()[i as int]);
                if i == 0 {
                    assert(rendered(pre) =~= Seq::<char>::empty());
                    assert(out@ =~= rendered(cur));
                } else {
                    assert(base =~= rendered(pre) + seq!['\n']);
                    assert(out@ =~= rendered(pre) + seq!['\n'] + trimmed(cur.last()));
                }
            }
            i += 1;
        }
        proof {
            assert(self.spec_lines().take(self.spec_height() as int) =~= self.spec_lines());
        }
        out
    }
}

} // verus!
