use text_blocks::Block;

fn two_by_one() -> Block {
    Block::of("ab")
}

fn three_by_two() -> Block {
    Block::of("cde").add_text("fgh")
}

#[test]
fn beside_width_adds_and_height_is_max() {
    let a = two_by_one();
    let b = three_by_two();
    for joined in [
        a.beside_top(&b),
        a.beside_bottom(&b),
        a.beside_center_bottom(&b),
        a.beside_center_top(&b),
    ] {
        assert_eq!(5, joined.width());
        assert_eq!(2, joined.height());
    }
}

#[test]
fn stack_height_adds_and_width_is_max() {
    let a = two_by_one();
    let b = three_by_two();
    for stacked in [
        a.stack_left(&b),
        a.stack_right(&b),
        a.stack_center_left(&b),
        a.stack_center_right(&b),
    ] {
        assert_eq!(3, stacked.width());
        assert_eq!(3, stacked.height());
    }
}

#[test]
fn beside_alignment_variants() {
    let a = two_by_one();
    let b = three_by_two();
    assert_eq!("abcde\n  fgh", a.beside_top(&b).render());
    assert_eq!("  cde\nabfgh", a.beside_bottom(&b).render());
}

#[test]
fn stack_alignment_variants() {
    let a = two_by_one();
    let b = three_by_two();
    assert_eq!("ab\ncde\nfgh", a.stack_left(&b).render());
    assert_eq!(" ab\ncde\nfgh", a.stack_right(&b).render());
}

#[test]
fn beside_center_tie_breaks() {
    let one = Block::of("x");
    let four = Block::of("1").add_text("2").add_text("3").add_text("4");
    // Three rows of padding: center_bottom leans content toward the bottom,
    // so two blank rows go on top; center_top mirrors that.
    assert_eq!(" 1\n 2\nx3\n 4", one.beside_center_bottom(&four).render());
    assert_eq!(" 1\nx2\n 3\n 4", one.beside_center_top(&four).render());
}

#[test]
fn stack_center_tie_breaks() {
    let one = Block::of("x");
    let four = Block::of("1234");
    // Three columns of padding, marked visible by a bordering column.
    let centered_left = one.stack_center_left(&four).beside_top(&Block::of("|"));
    assert_eq!(" x  |\n1234", centered_left.render());
    let centered_right = one.stack_center_right(&four).beside_top(&Block::of("|"));
    assert_eq!("  x |\n1234", centered_right.render());
}

#[test]
fn pad_to_width_is_noop_when_wide_enough() {
    let b = Block::of("abc").add_text("d");
    assert_eq!("abc\nd", b.pad_to_width_right(2).render());
    assert_eq!(3, b.pad_to_width_right(2).width());
    assert_eq!("abc\nd", b.pad_to_width_left(3).render());
    assert_eq!(3, b.pad_to_width_left(3).width());
    assert_eq!("abc\nd", b.pad_to_width_center_left(0).render());
    assert_eq!("abc\nd", b.pad_to_width_center_right(1).render());
}

#[test]
fn pad_to_height_is_noop_when_high_enough() {
    let b = Block::of("abc").add_text("d");
    assert_eq!("abc\nd", b.pad_to_height_top(2).render());
    assert_eq!("abc\nd", b.pad_to_height_bottom(1).render());
    assert_eq!("abc\nd", b.pad_to_height_center_top(0).render());
    assert_eq!("abc\nd", b.pad_to_height_center_bottom(2).render());
}

#[test]
fn pad_to_width_center_puts_extra_padding_on_named_side() {
    let a = Block::of("a");
    // Three columns of padding split 2/1: the named side gets the extra one.
    let left = a.pad_to_width_center_left(4).beside_top(&Block::of("|"));
    assert_eq!("  a |", left.render());
    let right = a.pad_to_width_center_right(4).beside_top(&Block::of("|"));
    assert_eq!(" a  |", right.render());
}

#[test]
fn pad_to_height_center_puts_extra_padding_on_named_side() {
    let a = Block::of("a");
    assert_eq!("\n\na\n", a.pad_to_height_center_top(4).render());
    assert_eq!("\na\n\n", a.pad_to_height_center_bottom(4).render());
}

#[test]
fn fill_uses_the_given_character() {
    assert_eq!("ab--", Block::of("ab").fill_right(2, '-').render());
    assert_eq!("ab\n--", Block::of("ab").fill_bottom(1, '-').render());
}

#[test]
fn pad_directions() {
    let b = Block::of("x");
    assert_eq!("  x", b.pad_left(2).render());
    assert_eq!(3, b.pad_right(2).width());
    assert_eq!("x", b.pad_right(2).render());
    assert_eq!("\nx", b.pad_top(1).render());
    assert_eq!("x\n", b.pad_bottom(1).render());
}

#[test]
fn beside_top_with_empty_spacer_is_identity() {
    let x = Block::of("ab").add_text("cde");
    let joined = Block::of_width(0).beside_top(&x);
    assert_eq!(x.width(), joined.width());
    assert_eq!(x.height(), joined.height());
    assert_eq!(x.render(), joined.render());
}

#[test]
fn overlay_opaque_front_covers_back() {
    let front = Block::of("XX").add_text("XX");
    let back = Block::of("ab").add_text("cd");
    assert_eq!("XX\nXX", front.in_front_of(&back).render());
}

#[test]
fn overlay_shows_back_beyond_front_extent() {
    let front = Block::of("XX");
    let back = Block::of("abc").add_text("def");
    assert_eq!("XXc\ndef", front.in_front_of(&back).render());
}

#[test]
fn overlay_with_custom_transparency() {
    let front = Block::of("X.X");
    let back = Block::of("abc");
    assert_eq!("XbX", front.in_front_of_with_transparency(&back, '.').render());
    // With space transparency the dot is opaque instead.
    assert_eq!("X.X", front.in_front_of(&back).render());
}

fn bordered_square(interior: char) -> Block {
    let middle: String = ['#', interior, interior, interior, '#'].iter().collect();
    Block::of("#####")
        .add_text(middle.as_str())
        .add_text(middle.as_str())
        .add_text(middle.as_str())
        .add_text("#####")
}

#[test]
fn overlay_offset_squares() {
    // A dot-filled square shifted two cells right and down, in front of a
    // space-filled square: the front's border and interior cover the back;
    // the shift padding is transparent, so the back shows through it.
    let front = bordered_square('.').pad_left(2).pad_top(2);
    let back = bordered_square(' ');
    let merged = front.in_front_of(&back);
    assert_eq!(7, merged.width());
    assert_eq!(7, merged.height());
    assert_eq!(
        "#####\n#   #\n# #####\n# #...#\n###...#\n  #...#\n  #####",
        merged.render()
    );
}
