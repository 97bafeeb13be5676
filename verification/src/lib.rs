//! A CSS-subset styling engine for entity trees.
//!
//! Stylesheet text is parsed into rules (a selector plus a map from property
//! names to value tokens); selectors are matched against a scene tree of
//! nodes with names, classes, component tags and interaction state; matched
//! node sets are ordered by selector specificity; parsed property values are
//! cached per stylesheet version so each rule is parsed at most once; and a
//! change-tracking pass decides when matching must re-run.

pub mod text;

pub mod cache;
pub mod colors;
pub mod component;
pub mod impls;
pub mod parser;
pub mod prelude;
pub mod property;
pub mod selector;
pub mod stylesheet;
pub mod system;
pub mod tree;

pub use cache::Property;
pub use component::{Class, StyleSheet};
pub use property::{PropertyToken, PropertyValues};
pub use selector::{Selector, SelectorElement};
pub use stylesheet::{StyleRule, StyleSheetAsset};

use vstd::prelude::*;
use vstd::string::*;

verus! {

/// Errors raised while parsing stylesheet text into selectors or while
/// resolving property values. Each error concerns one rule or one
/// declaration; parsing as a whole never fails.
#[derive(Debug)]
pub enum EcssError {
    /// An unsupported selector was found on a style sheet rule.
    UnsupportedSelector,
    /// An unsupported property was found on a style sheet rule.
    UnsupportedProperty(String),
    /// An invalid property value was found on a style sheet rule.
    InvalidPropertyValue(String),
    /// An invalid selector was found on a style sheet rule.
    InvalidSelector,
    /// An unexpected token was found on a style sheet rule.
    UnexpectedToken(String),
}

impl Clone for EcssError {
    fn clone(&self) -> (r: Self)
        ensures
            r.deep_view() == self.deep_view(),
    {
        match self {
            EcssError::UnsupportedSelector => EcssError::UnsupportedSelector,
            EcssError::UnsupportedProperty(p) => EcssError::UnsupportedProperty(p.clone()),
            EcssError::InvalidPropertyValue(p) => EcssError::InvalidPropertyValue(p.clone()),
            EcssError::InvalidSelector => EcssError::InvalidSelector,
            EcssError::UnexpectedToken(t) => EcssError::UnexpectedToken(t.clone()),
        }
    }
}

impl EcssError {
    /// A human-readable description of the error, for diagnostics.
    pub fn message(&self) -> (r: String)
        ensures
            r@ == self.spec_message(),
    {
        match self {
            EcssError::UnsupportedSelector => "Unsupported selector".to_owned(),
            EcssError::UnsupportedProperty(p) => {
                "Unsupported property: ".to_owned().concat(p.as_str())
            },
            EcssError::InvalidPropertyValue(p) => {
                "Invalid property value: ".to_owned().concat(p.as_str())
            },
            EcssError::InvalidSelector => "Invalid selector".to_owned(),
            EcssError::UnexpectedToken(t) => "Unexpected token: ".to_owned().concat(t.as_str()),
        }
    }

    /// The description `message` returns, as a sequence of characters.
    #[verifier::inline]
    pub open spec fn spec_message(&self) -> Seq<char> {
        match self {
            EcssError::UnsupportedSelector => "Unsupported selector"@,
            EcssError::UnsupportedProperty(p) => "Unsupported property: "@ + p@,
            EcssError::InvalidPropertyValue(p) => "Invalid property value: "@ + p@,
            EcssError::InvalidSelector => "Invalid selector"@,
            EcssError::UnexpectedToken(t) => "Unexpected token: "@ + t@,
        }
    }
}

/// The mathematical shape of an [`EcssError`].
pub enum ErrV {
    UnsupportedSelector,
    UnsupportedProperty(Seq<char>),
    InvalidPropertyValue(Seq<char>),
    InvalidSelector,
    UnexpectedToken(Seq<char>),
}

impl DeepView for EcssError {
    type V = ErrV;

    open spec fn deep_view(&self) -> ErrV {
        match self {
            EcssError::UnsupportedSelector => ErrV::UnsupportedSelector,
            EcssError::UnsupportedProperty(p) => ErrV::UnsupportedProperty(p@),
            EcssError::InvalidPropertyValue(p) => ErrV::InvalidPropertyValue(p@),
            EcssError::InvalidSelector => ErrV::InvalidSelector,
            EcssError::UnexpectedToken(t) => ErrV::UnexpectedToken(t@),
        }
    }
}

/// The engine's phases within one tick: internal state is prepared, the
/// property passes apply values, and consumed state is cleaned up.
#[derive(Debug, Clone, Copy, PartialEq, Eq, Structural)]
pub enum EcssSet {
    /// Prepares the internal state before the apply passes run.
    Prepare,
    /// All property application passes run in this phase.
    Apply,
    /// Clears the consumed per-tick state after application.
    Cleanup,
}

/// The engine's host-facing settings: whether hot-reloaded stylesheet
/// assets re-trigger matching.
#[derive(Debug)]
pub struct EcssPlugin {
    hot_reload: bool,
}

impl EcssPlugin {
    /// Whether hot reload is enabled.
    pub closed spec fn spec_hot_reload(&self) -> bool {
        self.hot_reload
    }

    /// Settings with hot reload enabled.
    pub fn with_hot_reload() -> (r: EcssPlugin)
        ensures
            r.spec_hot_reload(),
    {
        EcssPlugin { hot_reload: true }
    }

    /// Reads whether hot reload is enabled.
    pub fn hot_reload(&self) -> (r: bool)
        ensures
            r == self.spec_hot_reload(),
    {
        self.hot_reload
    }
}

impl Default for EcssPlugin {
    /// The default settings: hot reload disabled.
    fn default() -> (r: Self)
        ensures
            !r.spec_hot_reload(),
    {
        EcssPlugin { hot_reload: false }
    }
}

} // verus!
