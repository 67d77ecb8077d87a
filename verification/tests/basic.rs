use std::fmt::Display;

use text_blocks::Block;

#[test]
fn above() {
    let a = Block::of("aaa");
    let b = Block::of("b").add_text("b").pad_left(1);

    assert_eq!("aaa", a.render());
    assert_eq!(" b\n b", b.render());
    assert_eq!("aaa\n b\n b", a.stack_left(&b).render());
}

#[test]
fn trim_right_side_of_lines() {
    // Do not trim whitespace at left or middle of line
    let b = Block::of(" a a   ")
        // After trimming, these lines has other width than first line
        .add_text("bbbbb  ")
        .add_text("c  ")
        // These two empty lines should be trimmed down to zero length
        .pad_bottom(2);

    assert_eq!(" a a\nbbbbb\nc\n\n", b.render());
}

#[test]
fn from_numbers() {
    assert_eq!("2.56", Block::of(2.56_f64).render());
    assert_eq!("2.58", Block::of(2.58_f32).render());
    assert_eq!("99", Block::of(99).render());
    assert_eq!("99", Block::of(99_i32).render());
    assert_eq!("99", Block::of(99_u128).render());
}

#[test]
fn from_boolean() {
    assert_eq!("true", Block::of(true).render());
    assert_eq!("false", Block::of(false).render());
}

enum SomeEnum {
    Alfa,
    Beta,
}

impl Display for SomeEnum {
    fn fmt(&self, f: &mut std::fmt::Formatter<'_>) -> std::fmt::Result {
        let text = match self {
            SomeEnum::Alfa => "aaa",
            SomeEnum::Beta => "BbBbB",
        };
        f.write_str(text)
    }
}

#[test]
fn from_display_trait() {
    assert_eq!("BbBbB", Block::of(SomeEnum::Beta).render());
    assert_eq!("aaa", Block::of(SomeEnum::Alfa).render());
}

#[test]
fn from_text_keeps_text_verbatim() {
    let b = Block::of_text(" a b ");
    assert_eq!(5, b.width());
    assert_eq!(1, b.height());
    assert_eq!(" a b", b.render());
}

#[test]
fn wide_characters_take_two_columns() {
    assert_eq!(2, Block::of("\u{65E5}").width());
    assert_eq!(4, Block::of("\u{65E5}\u{672C}").width());
    assert_eq!(3, Block::of("a\u{65E5}").width());
}

#[test]
fn control_characters_take_no_columns() {
    let b = Block::of("a\t");
    assert_eq!(1, b.width());
    assert_eq!("a", b.render());
}

#[test]
fn render_trims_unicode_whitespace() {
    // A trailing no-break space is whitespace too; a leading one is kept.
    let b = Block::of("a\u{A0}");
    assert_eq!(2, b.width());
    assert_eq!("a", b.render());
    assert_eq!("\u{A0}a", Block::of("\u{A0}a").render());
}

#[test]
fn empty_block_renders_empty() {
    assert_eq!(0, Block::empty().width());
    assert_eq!(0, Block::empty().height());
    assert_eq!("", Block::empty().render());
}

#[test]
fn spacer_blocks() {
    let w = Block::of_width(4);
    assert_eq!(4, w.width());
    assert_eq!(0, w.height());
    let h = Block::of_height(3);
    assert_eq!(0, h.width());
    assert_eq!(3, h.height());
    assert_eq!("\n\n", h.render());
}

#[test]
fn add_multiple_texts_grows_width_and_height() {
    let b = Block::of("a").add_multiple_texts(&[String::from("bb"), String::from("cccc")]);
    assert_eq!(4, b.width());
    assert_eq!(3, b.height());
    assert_eq!("a\nbb\ncccc", b.render());
}
