//! Tests of the property value model: typed accessors over token lists, the
//! rectangle shorthand, and color parsing.

use ecss::colors::{parse_hex_color, parse_named_color, Color};
use ecss::property::{Num, PropertyToken, PropertyValues, UiRect, Val};

fn num(mantissa: u64, scale: u32) -> Num {
    Num { negative: false, mantissa, scale }
}

fn rgb(red: u8, green: u8, blue: u8) -> Color {
    Color { red, green, blue, alpha: 255 }
}

#[test]
fn identifier_takes_first_nonempty_identifier() {
    let values = PropertyValues(vec![
        PropertyToken::Quoted("skip".to_string()),
        PropertyToken::Identifier("".to_string()),
        PropertyToken::Identifier("center".to_string()),
    ]);
    assert_eq!(values.identifier(), Some("center".to_string()));
    let none = PropertyValues(vec![PropertyToken::Quoted("only".to_string())]);
    assert_eq!(none.identifier(), None);
}

#[test]
fn string_takes_first_nonempty_quoted() {
    let values = PropertyValues(vec![
        PropertyToken::Identifier("skip".to_string()),
        PropertyToken::Quoted("".to_string()),
        PropertyToken::Quoted("some value".to_string()),
    ]);
    assert_eq!(values.string(), Some("some value".to_string()));
}

#[test]
fn number_takes_first_numeric_token() {
    let values = PropertyValues(vec![
        PropertyToken::Identifier("x".to_string()),
        PropertyToken::Percentage(num(42, 0)),
        PropertyToken::Number(num(7, 0)),
    ]);
    assert_eq!(values.number(), Some(num(42, 0)));
    let none = PropertyValues(vec![PropertyToken::Identifier("x".to_string())]);
    assert_eq!(none.number(), None);
}

#[test]
fn option_number_reads_none_keyword() {
    let keyword = PropertyValues(vec![PropertyToken::Identifier("none".to_string())]);
    assert_eq!(keyword.option_number(), Some(None));
    let numeric = PropertyValues(vec![PropertyToken::Number(num(5, 0))]);
    assert_eq!(numeric.option_number(), Some(Some(num(5, 0))));
    let invalid = PropertyValues(vec![PropertyToken::Identifier("nope".to_string())]);
    assert_eq!(invalid.option_number(), None);
}

#[test]
fn val_reads_lengths_and_auto() {
    let px = PropertyValues(vec![PropertyToken::Dimension(num(10, 0))]);
    assert_eq!(px.val(), Some(Val::Px(num(10, 0))));
    let pct = PropertyValues(vec![PropertyToken::Percentage(num(50, 0))]);
    assert_eq!(pct.val(), Some(Val::Percent(num(50, 0))));
    let auto = PropertyValues(vec![PropertyToken::Identifier("auto".to_string())]);
    assert_eq!(auto.val(), Some(Val::Auto));
    let plain_number = PropertyValues(vec![PropertyToken::Number(num(4, 0))]);
    assert_eq!(plain_number.val(), None);
}

#[test]
fn rect_mirrors_two_value_shorthand() {
    let values = PropertyValues(vec![
        PropertyToken::Dimension(num(153, 1)),
        PropertyToken::Percentage(num(3, 0)),
    ]);
    let rect = values.rect().expect("two lengths make a rectangle");
    assert_eq!(
        rect,
        UiRect {
            top: Val::Px(num(153, 1)),
            right: Val::Percent(num(3, 0)),
            bottom: Val::Px(num(153, 1)),
            left: Val::Percent(num(3, 0)),
        }
    );
}

#[test]
fn rect_covers_all_shorthand_arities() {
    let one = PropertyValues(vec![PropertyToken::Dimension(num(5, 0))]);
    assert_eq!(one.rect(), Some(UiRect::all(Val::Px(num(5, 0)))));

    let three = PropertyValues(vec![
        PropertyToken::Dimension(num(1, 0)),
        PropertyToken::Dimension(num(2, 0)),
        PropertyToken::Dimension(num(3, 0)),
    ]);
    assert_eq!(
        three.rect(),
        Some(UiRect {
            top: Val::Px(num(1, 0)),
            right: Val::Px(num(2, 0)),
            bottom: Val::Px(num(3, 0)),
            left: Val::Px(num(2, 0)),
        })
    );

    let four = PropertyValues(vec![
        PropertyToken::Dimension(num(1, 0)),
        PropertyToken::Dimension(num(2, 0)),
        PropertyToken::Dimension(num(3, 0)),
        PropertyToken::Dimension(num(4, 0)),
    ]);
    assert_eq!(
        four.rect(),
        Some(UiRect {
            top: Val::Px(num(1, 0)),
            right: Val::Px(num(2, 0)),
            bottom: Val::Px(num(3, 0)),
            left: Val::Px(num(4, 0)),
        })
    );

    let none = PropertyValues(vec![PropertyToken::Identifier("x".to_string())]);
    assert_eq!(none.rect(), None);
}

#[test]
fn hex_colors_parse_in_all_four_widths() {
    assert_eq!(parse_hex_color("f00"), Some(rgb(255, 0, 0)));
    assert_eq!(parse_hex_color("f00a"), Some(Color { red: 255, green: 0, blue: 0, alpha: 170 }));
    assert_eq!(parse_hex_color("001122"), Some(rgb(0, 17, 34)));
    assert_eq!(
        parse_hex_color("00112233"),
        Some(Color { red: 0, green: 17, blue: 34, alpha: 51 })
    );
    assert_eq!(parse_hex_color("f0"), None);
    assert_eq!(parse_hex_color("gggggg"), None);
}

#[test]
fn named_colors_come_from_the_css_table() {
    assert_eq!(parse_named_color("red"), Some(rgb(255, 0, 0)));
    assert_eq!(parse_named_color("rebeccapurple"), Some(rgb(102, 51, 153)));
    assert_eq!(parse_named_color("yellowgreen"), Some(rgb(154, 205, 50)));
    assert_eq!(
        parse_named_color("transparent"),
        Some(Color { red: 0, green: 0, blue: 0, alpha: 0 })
    );
    assert_eq!(parse_named_color("not-a-color"), None);
}

#[test]
fn color_accessor_needs_exactly_one_token() {
    let named = PropertyValues(vec![PropertyToken::Identifier("silver".to_string())]);
    assert_eq!(named.color(), Some(rgb(192, 192, 192)));
    let hex = PropertyValues(vec![PropertyToken::Hash("ff0000".to_string())]);
    assert_eq!(hex.color(), Some(rgb(255, 0, 0)));
    let too_many = PropertyValues(vec![
        PropertyToken::Identifier("red".to_string()),
        PropertyToken::Identifier("blue".to_string()),
    ]);
    assert_eq!(too_many.color(), None);
}

#[test]
fn negative_and_fractional_numbers_keep_their_digits() {
    let rules = ecss::parser::StyleSheetParser::parse("a { m: -12.5px; n: .5; }");
    assert_eq!(rules.len(), 1);
    match rules[0].properties.get("m").unwrap().get(0) {
        PropertyToken::Dimension(n) => {
            assert_eq!(*n, Num { negative: true, mantissa: 125, scale: 1 })
        },
        other => panic!("expected a dimension, got {:?}", other),
    }
    match rules[0].properties.get("n").unwrap().get(0) {
        PropertyToken::Number(n) => {
            assert_eq!(*n, Num { negative: false, mantissa: 5, scale: 1 })
        },
        other => panic!("expected a number, got {:?}", other),
    }
}
