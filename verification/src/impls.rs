//! Built-in property handlers: the typed readings of the common layout
//! properties, each one a [`Property`] whose parse projects the declared
//! value tokens through the matching accessor.

use crate::cache::Property;
use crate::colors::{spec_color_of_tokens, Color};
use crate::property::{
    first_number_from, first_val_from, spec_rect, Num, PropertyValues, UiRect, Val,
};
use crate::EcssError;
use crate::ErrV;
use vstd::prelude::*;
use vstd::string::*;

verus! {

/// Applies the `width` property: a single length value.
pub struct WidthProperty;

impl Property for WidthProperty {
    type Cache = Val;

    open spec fn spec_name() -> Seq<char> {
        "width"@
    }

    fn name() -> (r: &'static str) {
        "width"
    }

    fn parse(values: &PropertyValues) -> (r: Result<Val, EcssError>)
        ensures
            match r {
                Ok(v) => first_val_from(values.deep_view(), 0) == Some(v),
                Err(e) => first_val_from(values.deep_view(), 0) is None && e.deep_view()
                    == ErrV::InvalidPropertyValue("width"@),
            },
    {
        match values.val() {
            Some(v) => Ok(v),
            None => Err(EcssError::InvalidPropertyValue("width".to_owned())),
        }
    }
}

/// Applies the `height` property: a single length value.
pub struct HeightProperty;

impl Property for HeightProperty {
    type Cache = Val;

    open spec fn spec_name() -> Seq<char> {
        "height"@
    }

    fn name() -> (r: &'static str) {
        "height"
    }

    fn parse(values: &PropertyValues) -> (r: Result<Val, EcssError>)
        ensures
            match r {
                Ok(v) => first_val_from(values.deep_view(), 0) == Some(v),
                Err(e) => first_val_from(values.deep_view(), 0) is None && e.deep_view()
                    == ErrV::InvalidPropertyValue("height"@),
            },
    {
        match values.val() {
            Some(v) => Ok(v),
            None => Err(EcssError::InvalidPropertyValue("height".to_owned())),
        }
    }
}

/// Applies the `margin` property: a rectangle read by the CSS shorthand
/// rule.
pub struct MarginProperty;

impl Property for MarginProperty {
    type Cache = UiRect;

    open spec fn spec_name() -> Seq<char> {
        "margin"@
    }

    fn name() -> (r: &'static str) {
        "margin"
    }

    fn parse(values: &PropertyValues) -> (r: Result<UiRect, EcssError>)
        ensures
            match r {
                Ok(v) => spec_rect(values.deep_view()) == Some(v),
                Err(e) => spec_rect(values.deep_view()) is None && e.deep_view()
                    == ErrV::InvalidPropertyValue("margin"@),
            },
    {
        match values.rect() {
            Some(v) => Ok(v),
            None => Err(EcssError::InvalidPropertyValue("margin".to_owned())),
        }
    }
}

/// Applies the `background-color` property: a hex or named color.
pub struct BackgroundColorProperty;

impl Property for BackgroundColorProperty {
    type Cache = Color;

    open spec fn spec_name() -> Seq<char> {
        "background-color"@
    }

    fn name() -> (r: &'static str) {
        "background-color"
    }

    fn parse(values: &PropertyValues) -> (r: Result<Color, EcssError>)
        ensures
            match r {
                Ok(v) => spec_color_of_tokens(values.deep_view()) == Some(v),
                Err(e) => spec_color_of_tokens(values.deep_view()) is None && e.deep_view()
                    == ErrV::InvalidPropertyValue("background-color"@),
            },
    {
        match values.color() {
            Some(v) => Ok(v),
            None => Err(EcssError::InvalidPropertyValue("background-color".to_owned())),
        }
    }
}

/// Applies the `font-size` property: a single numeric value.
pub struct FontSizeProperty;

impl Property for FontSizeProperty {
    type Cache = Num;

    open spec fn spec_name() -> Seq<char> {
        "font-size"@
    }

    fn name() -> (r: &'static str) {
        "font-size"
    }

    fn parse(values: &PropertyValues) -> (r: Result<Num, EcssError>)
        ensures
            match r {
                Ok(v) => first_number_from(values.deep_view(), 0) == Some(v),
                Err(e) => first_number_from(values.deep_view(), 0) is None && e.deep_view()
                    == ErrV::InvalidPropertyValue("font-size"@),
            },
    {
        match values.number() {
            Some(v) => Ok(v),
            None => Err(EcssError::InvalidPropertyValue("font-size".to_owned())),
        }
    }
}

} // verus!
