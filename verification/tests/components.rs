//! Tests of the host-facing components: the class list and the stylesheet
//! reference.

use ecss::component::{Class, StyleSheet};
use ecss::stylesheet::StyleSheetLoaderError;
use ecss::EcssError;

#[test]
fn modify_class() {
    let mut class = Class::new("yellow-button");
    assert!(class.add_class("enabled"));
    assert_eq!(class.as_str(), "yellow-button enabled");

    assert!(!class.add_class("enabled"));
    assert_eq!(class.as_str(), "yellow-button enabled");

    assert!(!class.remove_class("disabled"));
    assert_eq!(class.as_str(), "yellow-button enabled");

    assert!(class.remove_class("enabled"));
    assert_eq!(class.as_str(), "yellow-button");

    assert!(class.set_class("blue-button enabled"));
    assert_eq!(class.as_str(), "blue-button enabled");

    assert!(!class.set_class("blue-button enabled"));
    assert_eq!(class.as_str(), "blue-button enabled");
}

#[test]
fn class_matches_any_listed_name() {
    let class = Class::new("yellow-button enabled");
    assert!(class.matches("yellow-button"));
    assert!(class.matches("enabled"));
    assert!(!class.matches("yellow"));
    assert!(!class.matches(""));
}

#[test]
fn add_class_to_empty_list() {
    let mut class = Class::new("");
    assert!(class.add_class("solo"));
    assert_eq!(class.as_str(), "solo");
}

#[test]
fn stylesheet_reference_lifecycle() {
    let mut sheet = StyleSheet::new(7);
    assert_eq!(sheet.handle(), 7);
    assert_eq!(sheet.handles().as_slice(), &[7]);
    assert!(sheet.references(7));
    assert!(!sheet.references(8));

    // Creation marks the reference changed; consuming clears the flag.
    assert!(sheet.take_changed());
    assert!(!sheet.take_changed());

    sheet.refresh();
    assert!(sheet.take_changed());

    sheet.set(9);
    assert_eq!(sheet.handle(), 9);
    assert!(sheet.take_changed());

    sheet.set_handles(vec![1, 2, 3]);
    assert_eq!(sheet.handles().as_slice(), &[1, 2, 3]);
    assert!(sheet.take_changed());

    let other = StyleSheet::from_handles(vec![1, 2, 3]);
    assert!(sheet == other);
    let third = StyleSheet::new(1);
    assert!(sheet != third);
}

#[test]
fn error_messages_name_their_subject() {
    assert_eq!(
        EcssError::UnsupportedSelector.message(),
        "Unsupported selector"
    );
    assert_eq!(
        EcssError::UnsupportedProperty("q".to_string()).message(),
        "Unsupported property: q"
    );
    assert_eq!(
        EcssError::InvalidPropertyValue("width".to_string()).message(),
        "Invalid property value: width"
    );
    assert_eq!(EcssError::InvalidSelector.message(), "Invalid selector");
    assert_eq!(
        EcssError::UnexpectedToken("$".to_string()).message(),
        "Unexpected token: $"
    );
}

#[test]
fn loader_errors_name_their_subject() {
    assert_eq!(
        StyleSheetLoaderError::Io("gone.css".to_string()).message(),
        "File not found: gone.css"
    );
    assert_eq!(
        StyleSheetLoaderError::Utf8("bad byte".to_string()).message(),
        "Invalid file format: bad byte"
    );
}
