use candy::width::{Indentation, SinglelineWidth, StringWidth, Width};

fn single(w: usize) -> Width {
    Width::Singleline(SinglelineWidth(w))
}

fn multi(first: Option<usize>, last: Option<usize>) -> Width {
    Width::multiline(first.map(SinglelineWidth), last.map(SinglelineWidth))
}

#[test]
fn indentation_width_and_levels() {
    let indentation = Indentation(2);
    assert_eq!(indentation.width(), SinglelineWidth(4));
    assert!(indentation.is_indented());
    assert!(!Indentation::default().is_indented());
    assert_eq!(indentation.with_indent(), Indentation(3));
    assert_eq!(indentation.with_dedent(), Indentation(1));
    assert_eq!(Indentation::from(5), Indentation(5));
}

#[test]
fn indentation_is_written_as_two_spaces_per_level() {
    assert_eq!(Indentation(3).to_string(), "      ");
    assert_eq!(Indentation(0).to_string(), "");
}

#[test]
fn singleline_width_arithmetic() {
    assert_eq!(SinglelineWidth::new_const(7), SinglelineWidth(7));
    assert!(SinglelineWidth::default().is_empty());
    assert!(!SinglelineWidth(1).is_empty());
    assert_eq!(SinglelineWidth(3) + SinglelineWidth(4), SinglelineWidth(7));
    assert_eq!(SinglelineWidth(9) - SinglelineWidth(4), SinglelineWidth(5));
    assert_eq!(SinglelineWidth::space(), SinglelineWidth(1));
    assert_eq!(SinglelineWidth::percent(), SinglelineWidth(1));
    assert_eq!(SinglelineWidth(3) + single(4), single(7));
}

#[test]
fn conversions_cap_at_the_maximum_width() {
    assert_eq!(Width::max(), SinglelineWidth(100));
    assert_eq!(Width::from(100usize), single(100));
    assert_eq!(Width::from(101usize), multi(None, None));
    assert_eq!(Width::from(SinglelineWidth(42)), single(42));
    assert_eq!(Width::from_width_and_max(SinglelineWidth(10), SinglelineWidth(5)), multi(None, None));
    assert_eq!(Width::from_width_and_max(SinglelineWidth(5), SinglelineWidth(5)), single(5));
    assert_eq!(Width::default(), single(0));
    assert_eq!(Width::newline(), multi(Some(0), Some(0)));
}

#[test]
fn width_queries() {
    assert!(single(0).is_empty());
    assert!(!single(1).is_empty());
    assert!(!multi(Some(0), Some(0)).is_empty());
    assert!(single(3).is_singleline());
    assert!(!multi(None, None).is_singleline());
    assert_eq!(single(3).first_line_width(), Some(SinglelineWidth(3)));
    assert_eq!(multi(Some(4), Some(5)).first_line_width(), Some(SinglelineWidth(4)));
    assert_eq!(multi(Some(4), Some(5)).without_first_line_width(), multi(None, Some(5)));
    assert_eq!(single(4).without_first_line_width(), single(4));
}

#[test]
fn fitting_on_a_line() {
    assert!(single(96).fits(Indentation(2)));
    assert!(!single(97).fits(Indentation(2)));
    assert!(!multi(Some(1), Some(1)).fits(Indentation(0)));
    assert!(single(10).fits_in(SinglelineWidth(10)));
    assert!(!single(11).fits_in(SinglelineWidth(10)));
    assert!(single(90).last_line_fits(Indentation(1), single(8)));
    assert!(!single(90).last_line_fits(Indentation(1), single(9)));
    assert!(multi(None, Some(95)).last_line_fits(Indentation(7), single(5)));
    assert!(!multi(None, Some(95)).last_line_fits(Indentation(0), single(6)));
    assert!(!single(1).last_line_fits(Indentation(0), multi(Some(1), Some(1))));
}

#[test]
fn adding_widths() {
    assert_eq!(single(60) + single(40), single(100));
    assert_eq!(single(60) + single(50), multi(None, None));
    assert_eq!(single(10) + multi(Some(5), Some(7)), multi(Some(15), Some(7)));
    assert_eq!(single(10) + multi(Some(95), Some(7)), multi(None, Some(7)));
    assert_eq!(multi(Some(5), Some(95)) + single(10), multi(Some(5), None));
    assert_eq!(multi(Some(5), Some(90)) + single(10), multi(Some(5), Some(100)));
    assert_eq!(multi(Some(1), Some(2)) + multi(Some(3), Some(4)), multi(Some(1), Some(4)));
    assert_eq!(single(3) + SinglelineWidth(4), single(7));
}

#[test]
fn adding_widths_is_associative_and_the_empty_width_is_neutral() {
    let (a, b, c) = (single(30), multi(Some(20), Some(80)), single(15));
    assert_eq!((a + b) + c, a + (b + c));
    assert_eq!((a + b) + c, multi(Some(50), Some(95)));
    let (d, e, f) = (single(70), single(40), multi(Some(1), Some(1)));
    assert_eq!((d + e) + f, d + (e + f));
    assert_eq!(Width::default() + b, b);
    assert_eq!(b + Width::default(), b);
}

#[test]
fn summing_widths() {
    assert_eq!(Width::sum(&[]), single(0));
    assert_eq!(Width::sum(&[single(3), single(4), single(5)]), single(12));
    assert_eq!(Width::sum(&[single(3), Width::newline(), single(5)]), multi(Some(3), Some(5)));
}

#[test]
fn text_widths_are_display_widths() {
    assert_eq!("hello".width(), single(5));
    // The heart is two columns wide, so this is not the number of characters.
    assert_eq!("I💖Candy".width(), single(8));
    assert_eq!("ab\ncde\nf".width(), multi(Some(2), Some(1)));
    assert_eq!("💖\nxy".width(), multi(Some(2), Some(2)));
    assert_eq!("abc\n".width(), multi(Some(3), Some(0)));
    assert_eq!("".width(), single(0));
}

#[test]
fn indenting_undoes_dedenting() {
    let i = Indentation(4);
    assert_eq!(i.with_dedent().with_indent(), i);
    assert_eq!(i.with_indent().with_dedent(), i);
    assert_eq!(i.with_dedent().width().0 + 2, i.width().0);
    assert_eq!(i.with_indent().width(), SinglelineWidth(10));
}
