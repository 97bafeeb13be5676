//! The property value model: the typed tokens that follow one `name: ...;`
//! declaration, and the read-only accessors that project them onto single
//! identifiers, strings, numbers, lengths, rectangles and colors.

use crate::colors::{self, Color};
use crate::text::str_eq;
use vstd::prelude::*;
use vstd::string::*;

verus! {

/// An exact decimal number parsed from stylesheet text.
///
/// The denoted value is `mantissa / 10^scale`, negated when `negative` is
/// set. The mantissa keeps the digits exactly as written ("12.9" has
/// mantissa 129 and scale 1); a literal with more digits than a `u64` can
/// hold saturates the mantissa. Equality is representational: "1.0" and
/// "1.00" parse to different values.
#[derive(Debug, Clone, Copy, PartialEq, Eq, Structural)]
pub struct Num {
    pub negative: bool,
    pub mantissa: u64,
    pub scale: u32,
}

/// A property value token parsed from a CSS declaration.
#[derive(Debug)]
pub enum PropertyToken {
    /// A percentage value, like `100%` or `73.23%`; the number is kept as
    /// written, already scaled to the 0–100 range.
    Percentage(Num),
    /// A dimension value, like `10px` or `35em`; unit distinctions are not
    /// modeled, only the numeric magnitude is kept.
    Dimension(Num),
    /// A plain numeric value, like `31.1` or `43`.
    Number(Num),
    /// A plain identifier, like `none` or `center`.
    Identifier(String),
    /// An identifier prefixed by a hash, like `#001122`.
    Hash(String),
    /// A quoted string, like `"some value"`.
    Quoted(String),
}

/// The mathematical shape of a [`PropertyToken`].
pub enum PropertyTokenV {
    Percentage(Num),
    Dimension(Num),
    Number(Num),
    Identifier(Seq<char>),
    Hash(Seq<char>),
    Quoted(Seq<char>),
}

impl DeepView for PropertyToken {
    type V = PropertyTokenV;

    open spec fn deep_view(&self) -> PropertyTokenV {
        match self {
            PropertyToken::Percentage(n) => PropertyTokenV::Percentage(*n),
            PropertyToken::Dimension(n) => PropertyTokenV::Dimension(*n),
            PropertyToken::Number(n) => PropertyTokenV::Number(*n),
            PropertyToken::Identifier(s) => PropertyTokenV::Identifier(s@),
            PropertyToken::Hash(s) => PropertyTokenV::Hash(s@),
            PropertyToken::Quoted(s) => PropertyTokenV::Quoted(s@),
        }
    }
}

impl Clone for PropertyToken {
    fn clone(&self) -> (r: Self)
        ensures
            r == *self,
    {
        match self {
            PropertyToken::Percentage(n) => PropertyToken::Percentage(*n),
            PropertyToken::Dimension(n) => PropertyToken::Dimension(*n),
            PropertyToken::Number(n) => PropertyToken::Number(*n),
            PropertyToken::Identifier(s) => PropertyToken::Identifier(s.clone()),
            PropertyToken::Hash(s) => PropertyToken::Hash(s.clone()),
            PropertyToken::Quoted(s) => PropertyToken::Quoted(s.clone()),
        }
    }
}

/// Compares two property tokens by content.
pub fn token_eq(x: &PropertyToken, y: &PropertyToken) -> (r: bool)
    ensures
        r == (x.deep_view() == y.deep_view()),
{
    match (x, y) {
        (PropertyToken::Percentage(a), PropertyToken::Percentage(b)) => *a == *b,
        (PropertyToken::Dimension(a), PropertyToken::Dimension(b)) => *a == *b,
        (PropertyToken::Number(a), PropertyToken::Number(b)) => *a == *b,
        (PropertyToken::Identifier(a), PropertyToken::Identifier(b)) => str_eq(
            a.as_str(),
            b.as_str(),
        ),
        (PropertyToken::Hash(a), PropertyToken::Hash(b)) => str_eq(a.as_str(), b.as_str()),
        (PropertyToken::Quoted(a), PropertyToken::Quoted(b)) => str_eq(a.as_str(), b.as_str()),
        _ => false,
    }
}

impl PartialEq for PropertyToken {
    fn eq(&self, other: &Self) -> bool {
        token_eq(self, other)
    }
}

impl vstd::std_specs::cmp::PartialEqSpecImpl for PropertyToken {
    open spec fn obeys_eq_spec() -> bool {
        true
    }

    open spec fn eq_spec(&self, other: &Self) -> bool {
        self.deep_view() == other.deep_view()
    }
}

/// A length value resolved from a property token: an absolute length in
/// pixels, a percentage, or the `auto` keyword.
#[derive(Debug, Clone, Copy, PartialEq, Eq, Structural)]
pub enum Val {
    Px(Num),
    Percent(Num),
    Auto,
}

/// A rectangle of four length values, one per side.
#[derive(Debug, Clone, Copy, PartialEq, Eq, Structural)]
pub struct UiRect {
    pub top: Val,
    pub right: Val,
    pub bottom: Val,
    pub left: Val,
}

impl UiRect {
    /// A rectangle with the same value on all four sides.
    pub open spec fn spec_all(v: Val) -> UiRect {
        UiRect { top: v, right: v, bottom: v, left: v }
    }

    /// Builds a rectangle with the same value on all four sides.
    #[verifier::allow_in_spec]
    pub fn all(v: Val) -> UiRect
        returns
            UiRect::spec_all(v),
    {
        UiRect { top: v, right: v, bottom: v, left: v }
    }
}

/// The ordered token list following one `name: ...;` declaration. Order is
/// preserved, because some properties assign tokens by position.
#[derive(Debug)]
pub struct PropertyValues(pub Vec<PropertyToken>);

impl DeepView for PropertyValues {
    type V = Seq<PropertyTokenV>;

    open spec fn deep_view(&self) -> Seq<PropertyTokenV> {
        self.0.deep_view()
    }
}

impl Clone for PropertyValues {
    fn clone(&self) -> (r: Self)
        ensures
            r.deep_view() == self.deep_view(),
    {
        let mut tokens: Vec<PropertyToken> = Vec::new();
        let mut i: usize = 0;
        while i < self.0.len()
            invariant
                i <= self.0.len(),
                tokens@ == self.0@.subrange(0, i as int),
            decreases self.0.len() - i,
        {
            tokens.push(self.0[i].clone());
            i = i + 1;
            proof {
                assert(tokens@ =~= self.0@.subrange(0, i as int));
            }
        }
        proof {
            assert(tokens@ =~= self.0@);
            assert(tokens.deep_view() =~= self.0.deep_view());
        }
        PropertyValues(tokens)
    }
}

// ---------------------------------------------------------------------------
// Accessor specifications
// ---------------------------------------------------------------------------

/// First non-empty quoted string at or after position `i`.
pub open spec fn first_string_from(s: Seq<PropertyTokenV>, i: nat) -> Option<Seq<char>>
    decreases s.len() - i,
{
    if i >= s.len() {
        None
    } else {
        match s[i as int] {
            PropertyTokenV::Quoted(q) => if q.len() > 0 {
                Some(q)
            } else {
                first_string_from(s, i + 1)
            },
            _ => first_string_from(s, i + 1),
        }
    }
}

/// First non-empty identifier at or after position `i`.
pub open spec fn first_identifier_from(s: Seq<PropertyTokenV>, i: nat) -> Option<Seq<char>>
    decreases s.len() - i,
{
    if i >= s.len() {
        None
    } else {
        match s[i as int] {
            PropertyTokenV::Identifier(id) => if id.len() > 0 {
                Some(id)
            } else {
                first_identifier_from(s, i + 1)
            },
            _ => first_identifier_from(s, i + 1),
        }
    }
}

/// First numeric token at or after position `i`: a percentage, dimension or
/// plain number.
pub open spec fn first_number_from(s: Seq<PropertyTokenV>, i: nat) -> Option<Num>
    decreases s.len() - i,
{
    if i >= s.len() {
        None
    } else {
        match s[i as int] {
            PropertyTokenV::Percentage(n) => Some(n),
            PropertyTokenV::Dimension(n) => Some(n),
            PropertyTokenV::Number(n) => Some(n),
            _ => first_number_from(s, i + 1),
        }
    }
}

/// First numeric-or-`none` reading at or after position `i`: a numeric token
/// yields `Some(Some(n))`, the identifier `none` yields `Some(None)`, and
/// everything else is skipped.
pub open spec fn first_option_number_from(s: Seq<PropertyTokenV>, i: nat) -> Option<Option<Num>>
    decreases s.len() - i,
{
    if i >= s.len() {
        None
    } else {
        match s[i as int] {
            PropertyTokenV::Percentage(n) => Some(Some(n)),
            PropertyTokenV::Dimension(n) => Some(Some(n)),
            PropertyTokenV::Number(n) => Some(Some(n)),
            PropertyTokenV::Identifier(id) => if id == "none"@ {
                Some(None)
            } else {
                first_option_number_from(s, i + 1)
            },
            _ => first_option_number_from(s, i + 1),
        }
    }
}

/// The length value a single token denotes, if any: percentages become
/// percent lengths, dimensions become pixel lengths, and the identifier
/// `auto` becomes the automatic length.
pub open spec fn val_of_token(t: PropertyTokenV) -> Option<Val> {
    match t {
        PropertyTokenV::Percentage(n) => Some(Val::Percent(n)),
        PropertyTokenV::Dimension(n) => Some(Val::Px(n)),
        PropertyTokenV::Identifier(id) => if id == "auto"@ {
            Some(Val::Auto)
        } else {
            None
        },
        _ => None,
    }
}

/// First length value at or after position `i`.
pub open spec fn first_val_from(s: Seq<PropertyTokenV>, i: nat) -> Option<Val>
    decreases s.len() - i,
{
    if i >= s.len() {
        None
    } else {
        match val_of_token(s[i as int]) {
            Some(v) => Some(v),
            None => first_val_from(s, i + 1),
        }
    }
}

/// All length values among the tokens from position `i` on, in order.
pub open spec fn vals_from(s: Seq<PropertyTokenV>, i: nat) -> Seq<Val>
    decreases s.len() - i,
{
    if i >= s.len() {
        Seq::empty()
    } else {
        match val_of_token(s[i as int]) {
            Some(v) => seq![v] + vals_from(s, i + 1),
            None => vals_from(s, i + 1),
        }
    }
}

/// The rectangle a token list denotes: its length values are assigned by the
/// CSS shorthand rule. One value covers all four sides; with two, the second
/// covers left and right; with three, the third covers the bottom; four
/// cover top, right, bottom, left in that order. Extra values are ignored,
/// and a list without length values denotes no rectangle.
pub open spec fn spec_rect(s: Seq<PropertyTokenV>) -> Option<UiRect> {
    let vs = vals_from(s, 0);
    if vs.len() == 0 {
        None
    } else if vs.len() == 1 {
        Some(UiRect::spec_all(vs[0]))
    } else if vs.len() == 2 {
        Some(UiRect { top: vs[0], right: vs[1], bottom: vs[0], left: vs[1] })
    } else if vs.len() == 3 {
        Some(UiRect { top: vs[0], right: vs[1], bottom: vs[2], left: vs[1] })
    } else {
        Some(UiRect { top: vs[0], right: vs[1], bottom: vs[2], left: vs[3] })
    }
}

// ---------------------------------------------------------------------------
// Accessors
// ---------------------------------------------------------------------------

impl PropertyValues {
    /// How many tokens the list holds.
    #[verifier::allow_in_spec]
    pub fn len(&self) -> usize
        returns
            self.0.len(),
    {
        self.0.len()
    }

    /// Whether the list holds no token.
    #[verifier::allow_in_spec]
    pub fn is_empty(&self) -> bool
        returns
            self.0.len() == 0,
    {
        self.0.len() == 0
    }

    /// Reads the token at the given position.
    pub fn get(&self, i: usize) -> (r: &PropertyToken)
        requires
            i < self.0.len(),
        ensures
            r.deep_view() == self.deep_view()[i as int],
    {
        &self.0[i]
    }

    /// The first non-empty quoted string among the tokens, if any.
    pub fn string(&self) -> (r: Option<String>)
        ensures
            r.deep_view() == first_string_from(self.deep_view(), 0),
    {
        let ghost s = self.deep_view();
        let mut i: usize = 0;
        while i < self.0.len()
            invariant
                i <= self.0.len(),
                first_string_from(s, i as nat) == first_string_from(s, 0),
                s == self.deep_view(),
            decreases self.0.len() - i,
        {
            match &self.0[i] {
                PropertyToken::Quoted(q) => {
                    if q.as_str().unicode_len() > 0 {
                        return Some(q.clone());
                    }
                },
                _ => {},
            }
            i = i + 1;
        }
        None
    }

    /// The first non-empty identifier among the tokens, if any.
    pub fn identifier(&self) -> (r: Option<String>)
        ensures
            r.deep_view() == first_identifier_from(self.deep_view(), 0),
    {
        let ghost s = self.deep_view();
        let mut i: usize = 0;
        while i < self.0.len()
            invariant
                i <= self.0.len(),
                first_identifier_from(s, i as nat) == first_identifier_from(s, 0),
                s == self.deep_view(),
            decreases self.0.len() - i,
        {
            match &self.0[i] {
                PropertyToken::Identifier(id) => {
                    if id.as_str().unicode_len() > 0 {
                        return Some(id.clone());
                    }
                },
                _ => {},
            }
            i = i + 1;
        }
        None
    }

    /// The first numeric token among the tokens, if any. Percentages keep
    /// their written 0–100 magnitude; dimensions lose their unit.
    pub fn number(&self) -> (r: Option<Num>)
        ensures
            r == first_number_from(self.deep_view(), 0),
    {
        let ghost s = self.deep_view();
        let mut i: usize = 0;
        while i < self.0.len()
            invariant
                i <= self.0.len(),
                first_number_from(s, i as nat) == first_number_from(s, 0),
                s == self.deep_view(),
            decreases self.0.len() - i,
        {
            match &self.0[i] {
                PropertyToken::Percentage(n) => {
                    return Some(*n);
                },
                PropertyToken::Dimension(n) => {
                    return Some(*n);
                },
                PropertyToken::Number(n) => {
                    return Some(*n);
                },
                _ => {},
            }
            i = i + 1;
        }
        None
    }

    /// The first numeric-or-`none` reading among the tokens: `Some(Some(n))`
    /// for a numeric token, `Some(None)` for the identifier `none`, `None`
    /// when neither occurs.
    pub fn option_number(&self) -> (r: Option<Option<Num>>)
        ensures
            r == first_option_number_from(self.deep_view(), 0),
    {
        let ghost s = self.deep_view();
        let mut i: usize = 0;
        while i < self.0.len()
            invariant
                i <= self.0.len(),
                first_option_number_from(s, i as nat) == first_option_number_from(s, 0),
                s == self.deep_view(),
            decreases self.0.len() - i,
        {
            match &self.0[i] {
                PropertyToken::Percentage(n) => {
                    return Some(Some(*n));
                },
                PropertyToken::Dimension(n) => {
                    return Some(Some(*n));
                },
                PropertyToken::Number(n) => {
                    return Some(Some(*n));
                },
                PropertyToken::Identifier(id) => {
                    if str_eq(id.as_str(), "none") {
                        return Some(None);
                    }
                },
                _ => {},
            }
            i = i + 1;
        }
        None
    }

    /// The first length value among the tokens, if any.
    pub fn val(&self) -> (r: Option<Val>)
        ensures
            r == first_val_from(self.deep_view(), 0),
    {
        let ghost s = self.deep_view();
        let mut i: usize = 0;
        while i < self.0.len()
            invariant
                i <= self.0.len(),
                first_val_from(s, i as nat) == first_val_from(s, 0),
                s == self.deep_view(),
            decreases self.0.len() - i,
        {
            match val_of_token_exec(&self.0[i]) {
                Some(v) => {
                    return Some(v);
                },
                None => {},
            }
            i = i + 1;
        }
        None
    }

    /// The rectangle the tokens denote under the CSS shorthand rule, if they
    /// hold any length value. See [`spec_rect`].
    pub fn rect(&self) -> (r: Option<UiRect>)
        ensures
            r == spec_rect(self.deep_view()),
    {
        let ghost s = self.deep_view();
        let mut vs: Vec<Val> = Vec::new();
        let mut i: usize = 0;
        while i < self.0.len()
            invariant
                i <= self.0.len(),
                vs@ + vals_from(s, i as nat) == vals_from(s, 0),
                s == self.deep_view(),
            decreases self.0.len() - i,
        {
            match val_of_token_exec(&self.0[i]) {
                Some(v) => {
                    vs.push(v);
                    proof {
                        assert(vs@ + vals_from(s, (i + 1) as nat) =~= vals_from(s, 0));
                    }
                },
                None => {},
            }
            i = i + 1;
        }
        proof {
            assert(vs@ + vals_from(s, self.0.len() as nat) =~= vs@);
            assert(vs@ =~= vals_from(s, 0));
        }
        if vs.len() == 0 {
            None
        } else if vs.len() == 1 {
            Some(UiRect::all(vs[0]))
        } else if vs.len() == 2 {
            Some(UiRect { top: vs[0], right: vs[1], bottom: vs[0], left: vs[1] })
        } else if vs.len() == 3 {
            Some(UiRect { top: vs[0], right: vs[1], bottom: vs[2], left: vs[1] })
        } else {
            Some(UiRect { top: vs[0], right: vs[1], bottom: vs[2], left: vs[3] })
        }
    }

    /// The color the tokens denote: a single hash token read as a hex color,
    /// or a single identifier read as a CSS named color. Any other shape
    /// denotes no color.
    pub fn color(&self) -> (r: Option<Color>)
        ensures
            r == colors::spec_color_of_tokens(self.deep_view()),
    {
        if self.0.len() == 1 {
            match &self.0[0] {
                PropertyToken::Identifier(name) => colors::parse_named_color(name.as_str()),
                PropertyToken::Hash(hash) => colors::parse_hex_color(hash.as_str()),
                _ => None,
            }
        } else {
            None
        }
    }
}

/// The length value one token denotes, if any.
pub fn val_of_token_exec(t: &PropertyToken) -> (r: Option<Val>)
    ensures
        r == val_of_token(t.deep_view()),
{
    match t {
        PropertyToken::Percentage(n) => Some(Val::Percent(*n)),
        PropertyToken::Dimension(n) => Some(Val::Px(*n)),
        PropertyToken::Identifier(id) => {
            if str_eq(id.as_str(), "auto") {
                Some(Val::Auto)
            } else {
                None
            }
        },
        _ => None,
    }
}

} // verus!
