//! The stylesheet parser: a tokenizer for the CSS subset the engine
//! understands, and the rule parser that turns stylesheet text into style
//! rules. Parsing is total: it never fails as a whole, and rules or
//! declarations outside the grammar are dropped one by one.

use crate::property::{Num, PropertyToken, PropertyTokenV, PropertyValues};
use crate::selector::{normalize, ElemV, PseudoClassElement, Selector, SelectorElement};
use crate::stylesheet::{insert_prop, PropEntryV, Props, RuleV, StyleRule};
use crate::text::{
    is_digit, is_digit_char, is_ident, is_ident_char, is_ident_start, is_ident_start_char,
    is_space, is_space_char,
};
use crate::{EcssError, ErrV};
use vstd::arithmetic::div_mod::lemma_fundamental_div_mod;
use vstd::prelude::*;
use vstd::string::*;

verus! {

// ---------------------------------------------------------------------------
// Scanning
// ---------------------------------------------------------------------------

/// First position at or after `i` that does not hold whitespace.
pub open spec fn scan_ws(s: Seq<char>, i: nat) -> nat
    decreases s.len() - i,
{
    if i < s.len() && is_space_char(s[i as int]) {
        scan_ws(s, i + 1)
    } else {
        i
    }
}

/// First position at or after `i` that does not hold an identifier
/// character.
pub open spec fn scan_ident(s: Seq<char>, i: nat) -> nat
    decreases s.len() - i,
{
    if i < s.len() && is_ident_char(s[i as int]) {
        scan_ident(s, i + 1)
    } else {
        i
    }
}

/// First position at or after `i` that does not hold a digit.
pub open spec fn scan_digits(s: Seq<char>, i: nat) -> nat
    decreases s.len() - i,
{
    if i < s.len() && is_digit_char(s[i as int]) {
        scan_digits(s, i + 1)
    } else {
        i
    }
}

/// Position just after the `*/` that closes a comment open at `i`, or the
/// end of the text when the comment never closes.
pub open spec fn scan_comment_end(s: Seq<char>, i: nat) -> nat
    decreases s.len() - i,
{
    if i >= s.len() {
        s.len()
    } else if s[i as int] == '*' && i + 1 < s.len() && s[i as int + 1] == '/' {
        i + 2
    } else {
        scan_comment_end(s, i + 1)
    }
}

/// First position at or after `i` holding the closing quote or a line
/// break, or the end of the text.
pub open spec fn scan_quote_end(s: Seq<char>, i: nat, q: char) -> nat
    decreases s.len() - i,
{
    if i >= s.len() {
        s.len()
    } else if s[i as int] == q || s[i as int] == '\n' {
        i
    } else {
        scan_quote_end(s, i + 1, q)
    }
}

proof fn lemma_scan_ws_bounds(s: Seq<char>, i: nat)
    requires
        i <= s.len(),
    ensures
        i <= scan_ws(s, i) <= s.len(),
    decreases s.len() - i,
{
    if i < s.len() && is_space_char(s[i as int]) {
        lemma_scan_ws_bounds(s, i + 1);
    }
}

proof fn lemma_scan_ident_bounds(s: Seq<char>, i: nat)
    requires
        i <= s.len(),
    ensures
        i <= scan_ident(s, i) <= s.len(),
    decreases s.len() - i,
{
    if i < s.len() && is_ident_char(s[i as int]) {
        lemma_scan_ident_bounds(s, i + 1);
    }
}

proof fn lemma_scan_digits_bounds(s: Seq<char>, i: nat)
    requires
        i <= s.len(),
    ensures
        i <= scan_digits(s, i) <= s.len(),
    decreases s.len() - i,
{
    if i < s.len() && is_digit_char(s[i as int]) {
        lemma_scan_digits_bounds(s, i + 1);
    }
}

proof fn lemma_scan_comment_bounds(s: Seq<char>, i: nat)
    requires
        i <= s.len(),
    ensures
        i <= scan_comment_end(s, i) <= s.len(),
    decreases s.len() - i,
{
    if i >= s.len() {
    } else if s[i as int] == '*' && i + 1 < s.len() && s[i as int + 1] == '/' {
    } else {
        lemma_scan_comment_bounds(s, i + 1);
    }
}

proof fn lemma_scan_quote_bounds(s: Seq<char>, i: nat, q: char)
    requires
        i <= s.len(),
    ensures
        i <= scan_quote_end(s, i, q) <= s.len(),
    decreases s.len() - i,
{
    if i >= s.len() {
    } else if s[i as int] == q || s[i as int] == '\n' {
    } else {
        lemma_scan_quote_bounds(s, i + 1, q);
    }
}

fn scan_ws_exec(s: &str, i: usize) -> (r: usize)
    requires
        i <= s@.len() <= usize::MAX,
    ensures
        r == scan_ws(s@, i as nat),
        i <= r <= s@.len(),
    decreases s@.len() - i,
{
    proof {
        lemma_scan_ws_bounds(s@, i as nat);
    }
    let n = s.unicode_len();
    if i < n && is_space(s.get_char(i)) {
        scan_ws_exec(s, i + 1)
    } else {
        i
    }
}

fn scan_ident_exec(s: &str, i: usize) -> (r: usize)
    requires
        i <= s@.len() <= usize::MAX,
    ensures
        r == scan_ident(s@, i as nat),
        i <= r <= s@.len(),
    decreases s@.len() - i,
{
    proof {
        lemma_scan_ident_bounds(s@, i as nat);
    }
    let n = s.unicode_len();
    if i < n && is_ident(s.get_char(i)) {
        scan_ident_exec(s, i + 1)
    } else {
        i
    }
}

fn scan_digits_exec(s: &str, i: usize) -> (r: usize)
    requires
        i <= s@.len() <= usize::MAX,
    ensures
        r == scan_digits(s@, i as nat),
        i <= r <= s@.len(),
    decreases s@.len() - i,
{
    proof {
        lemma_scan_digits_bounds(s@, i as nat);
    }
    let n = s.unicode_len();
    if i < n && is_digit(s.get_char(i)) {
        scan_digits_exec(s, i + 1)
    } else {
        i
    }
}

fn scan_comment_end_exec(s: &str, i: usize) -> (r: usize)
    requires
        i <= s@.len() <= usize::MAX,
    ensures
        r == scan_comment_end(s@, i as nat),
        i <= r <= s@.len(),
    decreases s@.len() - i,
{
    proof {
        lemma_scan_comment_bounds(s@, i as nat);
    }
    let n = s.unicode_len();
    if i >= n {
        n
    } else if s.get_char(i) == '*' && i + 1 < n && s.get_char(i + 1) == '/' {
        i + 2
    } else {
        scan_comment_end_exec(s, i + 1)
    }
}

fn scan_quote_end_exec(s: &str, i: usize, q: char) -> (r: usize)
    requires
        i <= s@.len() <= usize::MAX,
    ensures
        r == scan_quote_end(s@, i as nat, q),
        i <= r <= s@.len(),
    decreases s@.len() - i,
{
    proof {
        lemma_scan_quote_bounds(s@, i as nat, q);
    }
    let n = s.unicode_len();
    if i >= n {
        n
    } else if s.get_char(i) == q || s.get_char(i) == '\n' {
        i
    } else {
        scan_quote_end_exec(s, i + 1, q)
    }
}

// ---------------------------------------------------------------------------
// Numbers
// ---------------------------------------------------------------------------

/// The numeric value of a digit character; other characters count as zero.
pub open spec fn digit_of(c: char) -> nat {
    if is_digit_char(c) {
        (c as u32 - 48) as nat
    } else {
        0
    }
}

/// The value of a digit sequence read in base ten.
pub open spec fn seq_dec_val(d: Seq<char>) -> nat
    decreases d.len(),
{
    if d.len() == 0 {
        0
    } else {
        seq_dec_val(d.drop_last()) * 10 + digit_of(d.last())
    }
}

/// `n`, stopped at the largest `u64`.
pub open spec fn sat64(n: nat) -> u64 {
    if n > u64::MAX {
        u64::MAX
    } else {
        n as u64
    }
}

/// `n`, stopped at the largest `u32`.
pub open spec fn sat32(n: nat) -> u32 {
    if n > u32::MAX {
        u32::MAX
    } else {
        n as u32
    }
}

/// Position after the sign of a number starting at `i`.
pub open spec fn num_sign_end(s: Seq<char>, i: nat) -> nat {
    if i < s.len() && (s[i as int] == '-' || s[i as int] == '+') {
        i + 1
    } else {
        i
    }
}

/// Whether the number starting at `i` is negative.
pub open spec fn num_is_neg(s: Seq<char>, i: nat) -> bool {
    i < s.len() && s[i as int] == '-'
}

/// Whether a fraction part follows the integer digits ending at `d1`.
pub open spec fn num_has_frac(s: Seq<char>, d1: nat) -> bool {
    d1 + 1 < s.len() && s[d1 as int] == '.' && is_digit_char(s[d1 as int + 1])
}

/// The digit characters of the number starting at `i`: integer digits and,
/// after a decimal point, fraction digits.
pub open spec fn num_digits(s: Seq<char>, i: nat) -> Seq<char> {
    let d0 = num_sign_end(s, i);
    let d1 = scan_digits(s, d0);
    if num_has_frac(s, d1) {
        s.subrange(d0 as int, d1 as int) + s.subrange(d1 as int + 1, scan_digits(s, (d1 + 1) as nat) as int)
    } else {
        s.subrange(d0 as int, d1 as int)
    }
}

/// Position after the number starting at `i` (sign, integer digits and
/// fraction), before any unit or percent sign.
pub open spec fn num_end(s: Seq<char>, i: nat) -> nat {
    let d0 = num_sign_end(s, i);
    let d1 = scan_digits(s, d0);
    if num_has_frac(s, d1) {
        scan_digits(s, (d1 + 1) as nat)
    } else {
        d1
    }
}

/// How many fraction digits the number starting at `i` has.
pub open spec fn num_scale(s: Seq<char>, i: nat) -> nat {
    let d1 = scan_digits(s, num_sign_end(s, i));
    if num_has_frac(s, d1) {
        (scan_digits(s, (d1 + 1) as nat) - (d1 + 1)) as nat
    } else {
        0
    }
}

/// The number starting at `i`: its digits read in base ten (stopped at the
/// largest `u64`), its fraction length, and its sign.
pub open spec fn spec_num_at(s: Seq<char>, i: nat) -> Num {
    Num {
        negative: num_is_neg(s, i),
        mantissa: sat64(seq_dec_val(num_digits(s, i))),
        scale: sat32(num_scale(s, i)),
    }
}

/// Whether a number token starts at `i`: a digit, a point followed by a
/// digit, or a sign followed by either.
pub open spec fn starts_number(s: Seq<char>, i: nat) -> bool {
    i < s.len() && (is_digit_char(s[i as int]) || (s[i as int] == '.' && i + 1 < s.len()
        && is_digit_char(s[i as int + 1])) || ((s[i as int] == '-' || s[i as int] == '+') && i + 1
        < s.len() && (is_digit_char(s[i as int + 1]) || (s[i as int + 1] == '.' && i + 2 < s.len()
        && is_digit_char(s[i as int + 2])))))
}

/// Whether an identifier starts at `i`: a letter or underscore, or a hyphen
/// followed by one. Checked after [`starts_number`], so `-5` stays a number.
pub open spec fn starts_ident(s: Seq<char>, i: nat) -> bool {
    i < s.len() && (is_ident_start_char(s[i as int]) || (s[i as int] == '-' && i + 1 < s.len()
        && is_ident_start_char(s[i as int + 1])))
}

/// Folds one more digit into a saturating base-ten accumulator.
fn sat_push(m: u64, d: u64, Ghost(v): Ghost<nat>) -> (r: u64)
    requires
        d <= 9,
        m == sat64(v),
    ensures
        r == sat64((v * 10 + d) as nat),
{
    let q = (u64::MAX - d) / 10;
    proof {
        lemma_fundamental_div_mod((u64::MAX - d) as int, 10);
    }
    if m <= q {
        proof {
            assert(m * 10 + d <= u64::MAX) by (nonlinear_arith)
                requires
                    m <= q,
                    10 * q <= u64::MAX - d,
                    d <= 9,
            ;
            assert(v <= u64::MAX);
            assert(v == m);
        }
        m * 10 + d
    } else {
        proof {
            if v <= u64::MAX {
                assert(v == m);
                assert(v * 10 + d > u64::MAX) by (nonlinear_arith)
                    requires
                        v > q,
                        10 * q + ((u64::MAX - d) as int % 10) == u64::MAX - d,
                        (u64::MAX - d) as int % 10 < 10,
                ;
            } else {
                assert(v * 10 + d > u64::MAX) by (nonlinear_arith)
                    requires
                        v > u64::MAX,
                ;
            }
        }
        u64::MAX
    }
}

/// Folds the digits of `s[a..b)` into the accumulator `m0`, which already
/// holds the value of the digits `d0`.
fn fold_digits(s: &str, a: usize, b: usize, m0: u64, Ghost(d0): Ghost<Seq<char>>) -> (r: u64)
    requires
        a <= b <= s@.len() <= usize::MAX,
        m0 == sat64(seq_dec_val(d0)),
    ensures
        r == sat64(seq_dec_val(d0 + s@.subrange(a as int, b as int))),
{
    let mut m = m0;
    let mut k = a;
    proof {
        assert(d0 + s@.subrange(a as int, a as int) =~= d0);
    }
    while k < b
        invariant
            a <= k <= b <= s@.len() <= usize::MAX,
            m == sat64(seq_dec_val(d0 + s@.subrange(a as int, k as int))),
        decreases b - k,
    {
        let u = s.get_char(k) as u32;
        let d: u64 = if 48 <= u && u <= 57 {
            (u - 48) as u64
        } else {
            0
        };
        proof {
            assert(d == digit_of(s@[k as int]));
            assert((d0 + s@.subrange(a as int, (k + 1) as int)).drop_last() =~= d0 + s@.subrange(
                a as int,
                k as int,
            ));
            assert((d0 + s@.subrange(a as int, (k + 1) as int)).last() == s@[k as int]);
        }
        m = sat_push(m, d, Ghost(seq_dec_val(d0 + s@.subrange(a as int, k as int))));
        k = k + 1;
    }
    m
}

/// Reads the number starting at `i`; returns it with the position after its
/// digits.
fn scan_number(s: &str, i: usize) -> (r: (Num, usize))
    requires
        i < s@.len() <= usize::MAX,
        starts_number(s@, i as nat),
    ensures
        r.0 == spec_num_at(s@, i as nat),
        r.1 == num_end(s@, i as nat),
        i < r.1 <= s@.len(),
{
    proof {
        lemma_num_end_bounds(s@, i as nat);
    }
    let n = s.unicode_len();
    let c = s.get_char(i);
    let negative = c == '-';
    let d0 = if c == '-' || c == '+' {
        i + 1
    } else {
        i
    };
    let d1 = scan_digits_exec(s, d0);
    let has_frac = d1 < n && d1 + 1 < n && s.get_char(d1) == '.' && is_digit(s.get_char(d1 + 1));
    proof {
        assert(has_frac == num_has_frac(s@, d1 as nat));
    }
    let m_int = fold_digits(s, d0, d1, 0, Ghost(Seq::empty()));
    proof {
        assert(Seq::<char>::empty() + s@.subrange(d0 as int, d1 as int) =~= s@.subrange(
            d0 as int,
            d1 as int,
        ));
    }
    if has_frac {
        let d2 = scan_digits_exec(s, d1 + 1);
        let m = fold_digits(s, d1 + 1, d2, m_int, Ghost(s@.subrange(d0 as int, d1 as int)));
        let frac_len = d2 - (d1 + 1);
        let scale: u32 = if frac_len <= u32::MAX as usize {
            frac_len as u32
        } else {
            u32::MAX
        };
        (Num { negative, mantissa: m, scale }, d2)
    } else {
        (Num { negative, mantissa: m_int, scale: 0 }, d1)
    }
}

// ---------------------------------------------------------------------------
// Tokens
// ---------------------------------------------------------------------------

/// One token of stylesheet text.
#[derive(Debug)]
pub enum CssToken {
    /// An identifier, like `button` or `flex-grow`.
    Ident(String),
    /// `#` followed by a name that does not start with a digit.
    IdHash(String),
    /// `#` followed by a name starting with a digit.
    NumHash(String),
    /// A quoted string, without its quotes.
    Quoted(String),
    /// A plain number.
    Number(Num),
    /// A number followed by `%`.
    Percentage(Num),
    /// A number followed by a unit identifier; the unit is not kept.
    Dimension(Num),
    /// A run of whitespace.
    Space,
    /// A comment; dropped before parsing.
    Comment,
    Colon,
    Semicolon,
    OpenBrace,
    CloseBrace,
    /// Any other single character.
    Delim(char),
}

/// The mathematical shape of a [`CssToken`].
pub enum CssTokenV {
    Ident(Seq<char>),
    IdHash(Seq<char>),
    NumHash(Seq<char>),
    Quoted(Seq<char>),
    Number(Num),
    Percentage(Num),
    Dimension(Num),
    Space,
    Comment,
    Colon,
    Semicolon,
    OpenBrace,
    CloseBrace,
    Delim(char),
}

impl DeepView for CssToken {
    type V = CssTokenV;

    open spec fn deep_view(&self) -> CssTokenV {
        match self {
            CssToken::Ident(s) => CssTokenV::Ident(s@),
            CssToken::IdHash(s) => CssTokenV::IdHash(s@),
            CssToken::NumHash(s) => CssTokenV::NumHash(s@),
            CssToken::Quoted(s) => CssTokenV::Quoted(s@),
            CssToken::Number(n) => CssTokenV::Number(*n),
            CssToken::Percentage(n) => CssTokenV::Percentage(*n),
            CssToken::Dimension(n) => CssTokenV::Dimension(*n),
            CssToken::Space => CssTokenV::Space,
            CssToken::Comment => CssTokenV::Comment,
            CssToken::Colon => CssTokenV::Colon,
            CssToken::Semicolon => CssTokenV::Semicolon,
            CssToken::OpenBrace => CssTokenV::OpenBrace,
            CssToken::CloseBrace => CssTokenV::CloseBrace,
            CssToken::Delim(c) => CssTokenV::Delim(*c),
        }
    }
}

/// A token with the source span it was read from.
#[derive(Debug)]
pub struct Tok {
    pub kind: CssToken,
    pub start: usize,
    pub end: usize,
}

/// The mathematical shape of a [`Tok`].
pub struct TokV {
    pub kind: CssTokenV,
    pub start: int,
    pub end: int,
}

impl DeepView for Tok {
    type V = TokV;

    open spec fn deep_view(&self) -> TokV {
        TokV { kind: self.kind.deep_view(), start: self.start as int, end: self.end as int }
    }
}

/// The token starting at position `i` and the position after it.
pub open spec fn spec_next_token(s: Seq<char>, i: nat) -> (CssTokenV, nat)
    recommends
        i < s.len(),
{
    let c = s[i as int];
    if is_space_char(c) {
        (CssTokenV::Space, scan_ws(s, i))
    } else if c == '/' && i + 1 < s.len() && s[i as int + 1] == '*' {
        (CssTokenV::Comment, scan_comment_end(s, i + 2))
    } else if starts_number(s, i) {
        let n = spec_num_at(s, i);
        let e = num_end(s, i);
        if e < s.len() && s[e as int] == '%' {
            (CssTokenV::Percentage(n), e + 1)
        } else if e < s.len() && is_ident_start_char(s[e as int]) {
            (CssTokenV::Dimension(n), scan_ident(s, e))
        } else {
            (CssTokenV::Number(n), e)
        }
    } else if starts_ident(s, i) {
        (CssTokenV::Ident(s.subrange(i as int, scan_ident(s, i) as int)), scan_ident(s, i))
    } else if c == '#' {
        if i + 1 < s.len() && is_ident_char(s[i as int + 1]) {
            let j = scan_ident(s, i + 1);
            let name = s.subrange(i as int + 1, j as int);
            if is_digit_char(s[i as int + 1]) {
                (CssTokenV::NumHash(name), j)
            } else {
                (CssTokenV::IdHash(name), j)
            }
        } else {
            (CssTokenV::Delim('#'), i + 1)
        }
    } else if c == '"' || c == '\'' {
        let j = scan_quote_end(s, i + 1, c);
        (
            CssTokenV::Quoted(s.subrange(i as int + 1, j as int)),
            if j < s.len() && s[j as int] == c {
                j + 1
            } else {
                j
            },
        )
    } else if c == ':' {
        (CssTokenV::Colon, i + 1)
    } else if c == ';' {
        (CssTokenV::Semicolon, i + 1)
    } else if c == '{' {
        (CssTokenV::OpenBrace, i + 1)
    } else if c == '}' {
        (CssTokenV::CloseBrace, i + 1)
    } else {
        (CssTokenV::Delim(c), i + 1)
    }
}

/// Reading one token always advances and stays within the text.
pub proof fn lemma_next_token_advances(s: Seq<char>, i: nat)
    requires
        i < s.len(),
    ensures
        i < spec_next_token(s, i).1 <= s.len(),
{
    let c = s[i as int];
    if is_space_char(c) {
        lemma_scan_ws_bounds(s, i + 1);
    } else if c == '/' && i + 1 < s.len() && s[i as int + 1] == '*' {
        lemma_scan_comment_bounds(s, i + 2);
    } else if starts_number(s, i) {
        lemma_num_end_bounds(s, i);
        let e = num_end(s, i);
        if e < s.len() && s[e as int] == '%' {
        } else if e < s.len() && is_ident_start_char(s[e as int]) {
            lemma_scan_ident_bounds(s, e);
        }
    } else if starts_ident(s, i) {
        lemma_scan_ident_bounds(s, i + 1);
    } else if c == '#' {
        if i + 1 < s.len() && is_ident_char(s[i as int + 1]) {
            lemma_scan_ident_bounds(s, i + 2);
        }
    } else if c == '"' || c == '\'' {
        lemma_scan_quote_bounds(s, i + 1, c);
    }
}

/// A number's digits end after its start and within the text.
proof fn lemma_num_end_bounds(s: Seq<char>, i: nat)
    requires
        starts_number(s, i),
    ensures
        i < num_end(s, i) <= s.len(),
{
    let d0 = num_sign_end(s, i);
    lemma_scan_digits_bounds(s, d0);
    let d1 = scan_digits(s, d0);
    assert(d0 == i || d0 == i + 1);
    assert(is_digit_char(s[d0 as int]) || (d0 + 1 < s.len() && s[d0 as int] == '.'
        && is_digit_char(s[d0 as int + 1])));
    if is_digit_char(s[d0 as int]) {
        assert(scan_digits(s, d0) == scan_digits(s, d0 + 1));
        lemma_scan_digits_bounds(s, d0 + 1);
    } else {
        assert(scan_digits(s, d0) == d0);
        assert(num_has_frac(s, d1));
    }
    if num_has_frac(s, d1) {
        assert(scan_digits(s, d1 + 1) == scan_digits(s, d1 + 2));
        lemma_scan_digits_bounds(s, d1 + 2);
    }
}

/// The tokens of the text from position `i` on, comments included.
pub open spec fn spec_tokenize_from(s: Seq<char>, i: nat) -> Seq<TokV>
    decreases s.len() - i,
        when i <= s.len()
        via spec_tokenize_dec
{
    if i >= s.len() {
        Seq::empty()
    } else {
        let (k, j) = spec_next_token(s, i);
        seq![TokV { kind: k, start: i as int, end: j as int }] + spec_tokenize_from(s, j)
    }
}

#[via_fn]
proof fn spec_tokenize_dec(s: Seq<char>, i: nat) {
    if i < s.len() {
        lemma_next_token_advances(s, i);
    }
}

/// The tokens with the comments dropped.
pub open spec fn strip_comments(t: Seq<TokV>) -> Seq<TokV>
    decreases t.len(),
{
    if t.len() == 0 {
        Seq::empty()
    } else if t[0].kind is Comment {
        strip_comments(t.drop_first())
    } else {
        seq![t[0]] + strip_comments(t.drop_first())
    }
}

/// The token stream of a stylesheet text: its tokens without comments.
pub open spec fn spec_tokens(src: Seq<char>) -> Seq<TokV> {
    strip_comments(spec_tokenize_from(src, 0))
}

/// All spans lie within a text of length `n`, in order.
pub open spec fn tok_spans_ok(t: Seq<TokV>, n: int) -> bool {
    forall|k: int| 0 <= k < t.len() ==> 0 <= (#[trigger] t[k]).start < t[k].end <= n
}

proof fn lemma_tokenize_spans(s: Seq<char>, i: nat)
    requires
        i <= s.len(),
    ensures
        tok_spans_ok(spec_tokenize_from(s, i), s.len() as int),
    decreases s.len() - i,
{
    if i < s.len() {
        lemma_next_token_advances(s, i);
        let (k, j) = spec_next_token(s, i);
        lemma_tokenize_spans(s, j);
        let t = spec_tokenize_from(s, i);
        let rest = spec_tokenize_from(s, j);
        assert forall|k2: int| 0 <= k2 < t.len() implies 0 <= (#[trigger] t[k2]).start < t[k2].end
            <= s.len() by {
            if k2 > 0 {
                assert(t[k2] == rest[k2 - 1]);
            }
        }
    }
}

proof fn lemma_strip_comments_spans(t: Seq<TokV>, n: int)
    requires
        tok_spans_ok(t, n),
    ensures
        tok_spans_ok(strip_comments(t), n),
    decreases t.len(),
{
    if t.len() > 0 {
        assert(forall|k: int|
            0 <= k < t.drop_first().len() ==> 0 <= (#[trigger] t.drop_first()[k]).start
                < t.drop_first()[k].end <= n);
        lemma_strip_comments_spans(t.drop_first(), n);
        let r = strip_comments(t);
        let rr = strip_comments(t.drop_first());
        if !(t[0].kind is Comment) {
            assert forall|k: int| 0 <= k < r.len() implies 0 <= (#[trigger] r[k]).start < r[k].end
                <= n by {
                if k > 0 {
                    assert(r[k] == rr[k - 1]);
                }
            }
        }
    }
}

/// Reads the token starting at `i`; returns it with the position after it.
fn next_token(s: &str, i: usize) -> (r: (CssToken, usize))
    requires
        i < s@.len() <= usize::MAX,
    ensures
        r.0.deep_view() == spec_next_token(s@, i as nat).0,
        r.1 == spec_next_token(s@, i as nat).1,
        i < r.1 <= s@.len(),
{
    proof {
        lemma_next_token_advances(s@, i as nat);
    }
    let n = s.unicode_len();
    let c = s.get_char(i);
    if is_space(c) {
        (CssToken::Space, scan_ws_exec(s, i))
    } else if c == '/' && i + 1 < n && s.get_char(i + 1) == '*' {
        (CssToken::Comment, scan_comment_end_exec(s, i + 2))
    } else if starts_number_exec(s, i) {
        let (num, e) = scan_number(s, i);
        if e < n && s.get_char(e) == '%' {
            (CssToken::Percentage(num), e + 1)
        } else if e < n && is_ident_start(s.get_char(e)) {
            (CssToken::Dimension(num), scan_ident_exec(s, e))
        } else {
            (CssToken::Number(num), e)
        }
    } else if starts_ident_exec(s, i) {
        let j = scan_ident_exec(s, i);
        (CssToken::Ident(s.substring_char(i, j).to_owned()), j)
    } else if c == '#' {
        if i + 1 < n && is_ident(s.get_char(i + 1)) {
            let j = scan_ident_exec(s, i + 1);
            let name = s.substring_char(i + 1, j).to_owned();
            if is_digit(s.get_char(i + 1)) {
                (CssToken::NumHash(name), j)
            } else {
                (CssToken::IdHash(name), j)
            }
        } else {
            (CssToken::Delim('#'), i + 1)
        }
    } else if c == '"' || c == '\'' {
        let j = scan_quote_end_exec(s, i + 1, c);
        let content = s.substring_char(i + 1, j).to_owned();
        let next = if j < n && s.get_char(j) == c {
            j + 1
        } else {
            j
        };
        (CssToken::Quoted(content), next)
    } else if c == ':' {
        (CssToken::Colon, i + 1)
    } else if c == ';' {
        (CssToken::Semicolon, i + 1)
    } else if c == '{' {
        (CssToken::OpenBrace, i + 1)
    } else if c == '}' {
        (CssToken::CloseBrace, i + 1)
    } else {
        (CssToken::Delim(c), i + 1)
    }
}

/// Tests [`starts_number`] at position `i`.
fn starts_number_exec(s: &str, i: usize) -> (r: bool)
    requires
        i < s@.len() <= usize::MAX,
    ensures
        r == starts_number(s@, i as nat),
{
    let n = s.unicode_len();
    let c = s.get_char(i);
    if is_digit(c) {
        true
    } else if c == '.' {
        i + 1 < n && is_digit(s.get_char(i + 1))
    } else if c == '-' || c == '+' {
        if i + 1 < n {
            let c1 = s.get_char(i + 1);
            if is_digit(c1) {
                true
            } else if c1 == '.' {
                i + 2 < n && is_digit(s.get_char(i + 2))
            } else {
                false
            }
        } else {
            false
        }
    } else {
        false
    }
}

/// Tests [`starts_ident`] at position `i`.
fn starts_ident_exec(s: &str, i: usize) -> (r: bool)
    requires
        i < s@.len() <= usize::MAX,
    ensures
        r == starts_ident(s@, i as nat),
{
    let n = s.unicode_len();
    let c = s.get_char(i);
    if is_ident_start(c) {
        true
    } else if c == '-' {
        i + 1 < n && is_ident_start(s.get_char(i + 1))
    } else {
        false
    }
}

/// Tokenizes a stylesheet text, dropping comments.
pub fn tokenize(s: &str) -> (r: Vec<Tok>)
    requires
        s@.len() <= usize::MAX,
    ensures
        r.deep_view() == spec_tokens(s@),
        tok_spans_ok(r.deep_view(), s@.len() as int),
{
    let n = s.unicode_len();
    let mut r: Vec<Tok> = Vec::new();
    let mut i: usize = 0;
    proof {
        assert(r.deep_view() =~= Seq::<TokV>::empty());
        assert(r.deep_view() + spec_tokens(s@) =~= spec_tokens(s@));
    }
    while i < n
        invariant
            i <= n,
            n == s@.len() <= usize::MAX,
            r.deep_view() + strip_comments(spec_tokenize_from(s@, i as nat)) == spec_tokens(s@),
        decreases n - i,
    {
        let ghost pre = r.deep_view();
        let (kind, j) = next_token(s, i);
        let ghost stream = spec_tokenize_from(s@, i as nat);
        let ghost tv = TokV {
            kind: kind.deep_view(),
            start: i as int,
            end: j as int,
        };
        proof {
            assert(stream == seq![tv] + spec_tokenize_from(s@, j as nat));
            assert(stream[0] == tv);
            assert(stream.drop_first() =~= spec_tokenize_from(s@, j as nat));
        }
        let is_comment = match &kind {
            CssToken::Comment => true,
            _ => false,
        };
        if !is_comment {
            r.push(Tok { kind, start: i, end: j });
            proof {
                assert(r.deep_view() =~= pre.push(tv));
                assert(pre.push(tv) + strip_comments(spec_tokenize_from(s@, j as nat)) =~= pre + (
                seq![tv] + strip_comments(spec_tokenize_from(s@, j as nat))));
                assert(strip_comments(stream) =~= seq![tv] + strip_comments(
                    spec_tokenize_from(s@, j as nat),
                ));
            }
        } else {
            proof {
                assert(strip_comments(stream) =~= strip_comments(spec_tokenize_from(s@, j as nat)));
            }
        }
        i = j;
    }
    proof {
        assert(spec_tokenize_from(s@, i as nat) =~= Seq::<TokV>::empty());
        assert(strip_comments(Seq::<TokV>::empty()) =~= Seq::<TokV>::empty());
        assert(r.deep_view() + Seq::<TokV>::empty() =~= r.deep_view());
        lemma_tokenize_spans(s@, 0);
        lemma_strip_comments_spans(spec_tokenize_from(s@, 0), s@.len() as int);
    }
    r
}

// ---------------------------------------------------------------------------
// Rules
// ---------------------------------------------------------------------------

/// First position at or after `i` whose token is not whitespace.
pub open spec fn skip_spaces_tok(t: Seq<TokV>, i: nat) -> nat
    decreases t.len() - i,
{
    if i < t.len() && t[i as int].kind is Space {
        skip_spaces_tok(t, i + 1)
    } else {
        i
    }
}

/// First position at or after `i` whose token opens a block, or the end.
pub open spec fn prelude_end(t: Seq<TokV>, i: nat) -> nat
    decreases t.len() - i,
{
    if i >= t.len() {
        t.len()
    } else if t[i as int].kind is OpenBrace {
        i
    } else {
        prelude_end(t, i + 1)
    }
}

/// First position at or after `i` whose token ends a declaration: a
/// semicolon or a closing brace, or the end.
pub open spec fn decl_stop(t: Seq<TokV>, i: nat) -> nat
    decreases t.len() - i,
{
    if i >= t.len() {
        t.len()
    } else if t[i as int].kind is Semicolon || t[i as int].kind is CloseBrace {
        i
    } else {
        decl_stop(t, i + 1)
    }
}

proof fn lemma_skip_spaces_bounds(t: Seq<TokV>, i: nat)
    requires
        i <= t.len(),
    ensures
        i <= skip_spaces_tok(t, i) <= t.len(),
    decreases t.len() - i,
{
    if i < t.len() && t[i as int].kind is Space {
        lemma_skip_spaces_bounds(t, i + 1);
    }
}

proof fn lemma_prelude_end_bounds(t: Seq<TokV>, i: nat)
    requires
        i <= t.len(),
    ensures
        i <= prelude_end(t, i) <= t.len(),
    decreases t.len() - i,
{
    if i >= t.len() {
    } else if t[i as int].kind is OpenBrace {
    } else {
        lemma_prelude_end_bounds(t, i + 1);
    }
}

proof fn lemma_decl_stop_bounds(t: Seq<TokV>, i: nat)
    requires
        i <= t.len(),
    ensures
        i <= decl_stop(t, i) <= t.len(),
    decreases t.len() - i,
{
    if i >= t.len() {
    } else if t[i as int].kind is Semicolon || t[i as int].kind is CloseBrace {
    } else {
        lemma_decl_stop_bounds(t, i + 1);
    }
}

fn skip_spaces_tok_exec(t: &Vec<Tok>, i: usize) -> (r: usize)
    requires
        i <= t@.len(),
    ensures
        r == skip_spaces_tok(t.deep_view(), i as nat),
        i <= r <= t@.len(),
    decreases t@.len() - i,
{
    proof {
        lemma_skip_spaces_bounds(t.deep_view(), i as nat);
    }
    if i < t.len() {
        match &t[i].kind {
            CssToken::Space => skip_spaces_tok_exec(t, i + 1),
            _ => i,
        }
    } else {
        i
    }
}

fn prelude_end_exec(t: &Vec<Tok>, i: usize) -> (r: usize)
    requires
        i <= t@.len(),
    ensures
        r == prelude_end(t.deep_view(), i as nat),
        i <= r <= t@.len(),
    decreases t@.len() - i,
{
    proof {
        lemma_prelude_end_bounds(t.deep_view(), i as nat);
    }
    if i >= t.len() {
        t.len()
    } else {
        match &t[i].kind {
            CssToken::OpenBrace => i,
            _ => prelude_end_exec(t, i + 1),
        }
    }
}

fn decl_stop_exec(t: &Vec<Tok>, i: usize) -> (r: usize)
    requires
        i <= t@.len(),
    ensures
        r == decl_stop(t.deep_view(), i as nat),
        i <= r <= t@.len(),
    decreases t@.len() - i,
{
    proof {
        lemma_decl_stop_bounds(t.deep_view(), i as nat);
    }
    if i >= t.len() {
        t.len()
    } else {
        match &t[i].kind {
            CssToken::Semicolon => i,
            CssToken::CloseBrace => i,
            _ => decl_stop_exec(t, i + 1),
        }
    }
}

/// The property token a stylesheet token converts to, if any: identifiers,
/// hashes, quoted strings and numeric tokens convert; whitespace and
/// punctuation do not.
pub open spec fn prop_token_of(k: CssTokenV) -> Option<PropertyTokenV> {
    match k {
        CssTokenV::Ident(v) => Some(PropertyTokenV::Identifier(v)),
        CssTokenV::IdHash(v) => Some(PropertyTokenV::Hash(v)),
        CssTokenV::NumHash(v) => Some(PropertyTokenV::Hash(v)),
        CssTokenV::Quoted(v) => Some(PropertyTokenV::Quoted(v)),
        CssTokenV::Number(n) => Some(PropertyTokenV::Number(n)),
        CssTokenV::Percentage(n) => Some(PropertyTokenV::Percentage(n)),
        CssTokenV::Dimension(n) => Some(PropertyTokenV::Dimension(n)),
        _ => None,
    }
}

/// The value tokens of one declaration: the tokens of `t[i..end)` that
/// convert, in order; the rest are dropped silently.
pub open spec fn convert_values(t: Seq<TokV>, i: nat, end: nat) -> Seq<PropertyTokenV>
    decreases end - i,
{
    if i >= end || i >= t.len() {
        Seq::empty()
    } else {
        match prop_token_of(t[i as int].kind) {
            Some(p) => seq![p] + convert_values(t, i + 1, end),
            None => convert_values(t, i + 1, end),
        }
    }
}

/// Converts one stylesheet token to a property token, if it converts.
fn prop_token_of_exec(k: &CssToken) -> (r: Option<PropertyToken>)
    ensures
        match r {
            Some(p) => prop_token_of(k.deep_view()) == Some(p.deep_view()),
            None => prop_token_of(k.deep_view()) is None,
        },
{
    match k {
        CssToken::Ident(v) => Some(PropertyToken::Identifier(v.clone())),
        CssToken::IdHash(v) => Some(PropertyToken::Hash(v.clone())),
        CssToken::NumHash(v) => Some(PropertyToken::Hash(v.clone())),
        CssToken::Quoted(v) => Some(PropertyToken::Quoted(v.clone())),
        CssToken::Number(n) => Some(PropertyToken::Number(*n)),
        CssToken::Percentage(n) => Some(PropertyToken::Percentage(*n)),
        CssToken::Dimension(n) => Some(PropertyToken::Dimension(*n)),
        _ => None,
    }
}

/// Converts the tokens of one declaration's value into property tokens.
fn convert_values_exec(t: &Vec<Tok>, i: usize, end: usize) -> (r: PropertyValues)
    requires
        i <= end <= t@.len(),
    ensures
        r.deep_view() == convert_values(t.deep_view(), i as nat, end as nat),
{
    let ghost tv = t.deep_view();
    let mut out: Vec<PropertyToken> = Vec::new();
    let mut k = i;
    proof {
        assert(out.deep_view() =~= Seq::<PropertyTokenV>::empty());
        assert(out.deep_view() + convert_values(tv, i as nat, end as nat) =~= convert_values(
            tv,
            i as nat,
            end as nat,
        ));
    }
    while k < end
        invariant
            i <= k <= end <= t@.len(),
            tv == t.deep_view(),
            out.deep_view() + convert_values(tv, k as nat, end as nat) == convert_values(
                tv,
                i as nat,
                end as nat,
            ),
        decreases end - k,
    {
        let ghost pre = out.deep_view();
        match prop_token_of_exec(&t[k].kind) {
            Some(p) => {
                let ghost pv = p.deep_view();
                out.push(p);
                proof {
                    assert(out.deep_view() =~= pre.push(pv));
                    assert(pre.push(pv) + convert_values(tv, (k + 1) as nat, end as nat) =~= pre + (
                    seq![pv] + convert_values(tv, (k + 1) as nat, end as nat)));
                }
            },
            None => {},
        }
        k = k + 1;
    }
    proof {
        assert(convert_values(tv, end as nat, end as nat) =~= Seq::<PropertyTokenV>::empty());
        assert(out.deep_view() + Seq::<PropertyTokenV>::empty() =~= out.deep_view());
    }
    PropertyValues(out)
}

/// The declarations of one block, accumulated into `acc`, and the position
/// after the block's closing brace (or the end of the tokens). A declaration
/// is an identifier, a colon, and value tokens up to a semicolon or the
/// closing brace; anything else is skipped up to the next semicolon.
pub open spec fn block_props(t: Seq<TokV>, i: nat, acc: Seq<PropEntryV>) -> (Seq<PropEntryV>, nat)
    decreases t.len() - i,
        when i <= t.len()
        via block_props_dec
{
    if i >= t.len() {
        (acc, t.len())
    } else {
        match t[i as int].kind {
            CssTokenV::Space => block_props(t, i + 1, acc),
            CssTokenV::Semicolon => block_props(t, i + 1, acc),
            CssTokenV::CloseBrace => (acc, i + 1),
            CssTokenV::Ident(name) => {
                let j = skip_spaces_tok(t, i + 1);
                if j < t.len() && t[j as int].kind is Colon {
                    let ve = decl_stop(t, j + 1);
                    block_props(t, ve, insert_prop(acc, name, convert_values(t, j + 1, ve)))
                } else {
                    block_props(t, decl_stop(t, i + 1), acc)
                }
            },
            _ => block_props(t, decl_stop(t, i + 1), acc),
        }
    }
}

#[via_fn]
proof fn block_props_dec(t: Seq<TokV>, i: nat, acc: Seq<PropEntryV>) {
    if i < t.len() {
        lemma_skip_spaces_bounds(t, i + 1);
        let j = skip_spaces_tok(t, i + 1);
        if j + 1 <= t.len() {
            lemma_decl_stop_bounds(t, j + 1);
        }
        lemma_decl_stop_bounds(t, i + 1);
    }
}

/// The block's end index never lies before its start and never passes the
/// end of the tokens.
proof fn lemma_block_props_bounds(t: Seq<TokV>, i: nat, acc: Seq<PropEntryV>)
    requires
        i <= t.len(),
    ensures
        i <= block_props(t, i, acc).1 <= t.len(),
    decreases t.len() - i,
{
    if i < t.len() {
        match t[i as int].kind {
            CssTokenV::Space => lemma_block_props_bounds(t, i + 1, acc),
            CssTokenV::Semicolon => lemma_block_props_bounds(t, i + 1, acc),
            CssTokenV::CloseBrace => {},
            CssTokenV::Ident(name) => {
                lemma_skip_spaces_bounds(t, i + 1);
                let j = skip_spaces_tok(t, i + 1);
                if j < t.len() && t[j as int].kind is Colon {
                    lemma_decl_stop_bounds(t, j + 1);
                    let ve = decl_stop(t, j + 1);
                    lemma_block_props_bounds(t, ve, insert_prop(acc, name, convert_values(t, j + 1, ve)));
                } else {
                    lemma_decl_stop_bounds(t, i + 1);
                    lemma_block_props_bounds(t, decl_stop(t, i + 1), acc);
                }
            },
            _ => {
                lemma_decl_stop_bounds(t, i + 1);
                lemma_block_props_bounds(t, decl_stop(t, i + 1), acc);
            },
        }
    }
}

/// Parses the declarations of one block, starting just after its opening
/// brace; returns the property map and the position after the block.
fn parse_block(t: &Vec<Tok>, start: usize) -> (r: (Props, usize))
    requires
        start <= t@.len(),
    ensures
        r.0@ == block_props(t.deep_view(), start as nat, Seq::<PropEntryV>::empty()).0,
        r.1 == block_props(t.deep_view(), start as nat, Seq::<PropEntryV>::empty()).1,
        r.0.wf(),
        start <= r.1 <= t@.len(),
{
    let ghost tv = t.deep_view();
    proof {
        lemma_block_props_bounds(tv, start as nat, Seq::<PropEntryV>::empty());
    }
    let mut props = Props::new();
    let mut i = start;
    loop
        invariant
            start <= i <= t@.len(),
            tv == t.deep_view(),
            props.wf(),
            block_props(tv, i as nat, props@) == block_props(
                tv,
                start as nat,
                Seq::<PropEntryV>::empty(),
            ),
        decreases t@.len() - i,
    {
        if i >= t.len() {
            return (props, t.len());
        }
        match &t[i].kind {
            CssToken::Space => {
                i = i + 1;
            },
            CssToken::Semicolon => {
                i = i + 1;
            },
            CssToken::CloseBrace => {
                return (props, i + 1);
            },
            CssToken::Ident(nm) => {
                let j = skip_spaces_tok_exec(t, i + 1);
                let is_colon = if j < t.len() {
                    match &t[j].kind {
                        CssToken::Colon => true,
                        _ => false,
                    }
                } else {
                    false
                };
                if is_colon {
                    let ve = decl_stop_exec(t, j + 1);
                    let vals = convert_values_exec(t, j + 1, ve);
                    let name = nm.clone();
                    props.insert(name, vals);
                    i = ve;
                } else {
                    i = decl_stop_exec(t, i + 1);
                }
            },
            _ => {
                i = decl_stop_exec(t, i + 1);
            },
        }
    }
}

/// The pending prefix while reading a selector prelude: a bare element, one
/// announced by a class dot, or one announced by a pseudo-class colon.
#[derive(Debug, Clone, Copy, PartialEq, Eq, Structural)]
pub enum Prefix {
    Bare,
    DotClass,
    ColonPseudo,
}

/// The selector elements a prelude denotes, or the error that rejects it.
/// Identifiers become components, classes or pseudo-classes as announced;
/// `#name` hashes become id elements; whitespace becomes a descendant
/// separator; `*` becomes the universal element; anything else rejects the
/// prelude. An empty prelude is rejected as an invalid selector.
pub open spec fn prelude_elems(
    src: Seq<char>,
    t: Seq<TokV>,
    i: nat,
    end: nat,
    state: Prefix,
    acc: Seq<ElemV>,
) -> Result<Seq<ElemV>, ErrV>
    decreases end - i,
{
    if i >= end || i >= t.len() {
        if acc.len() == 0 {
            Err(ErrV::InvalidSelector)
        } else {
            Ok(acc)
        }
    } else {
        match t[i as int].kind {
            CssTokenV::Ident(v) => {
                let e = match state {
                    Prefix::Bare => ElemV::Component(v),
                    Prefix::DotClass => ElemV::Class(v),
                    Prefix::ColonPseudo => ElemV::PseudoClass(
                        PseudoClassElement::spec_from_name(v),
                    ),
                };
                prelude_elems(src, t, i + 1, end, Prefix::Bare, acc.push(e))
            },
            CssTokenV::IdHash(v) => prelude_elems(src, t, i + 1, end, state, acc.push(ElemV::Name(v))),
            CssTokenV::Space => prelude_elems(src, t, i + 1, end, state, acc.push(ElemV::Child)),
            CssTokenV::Colon => prelude_elems(src, t, i + 1, end, Prefix::ColonPseudo, acc),
            CssTokenV::Delim(c) => {
                if c == '.' {
                    prelude_elems(src, t, i + 1, end, Prefix::DotClass, acc)
                } else if c == '*' {
                    prelude_elems(src, t, i + 1, end, state, acc.push(ElemV::Any))
                } else {
                    Err(ErrV::UnexpectedToken(src.subrange(t[i as int].start, t[i as int].end)))
                }
            },
            _ => Err(ErrV::UnexpectedToken(src.subrange(t[i as int].start, t[i as int].end))),
        }
    }
}

/// Renders the source text of the token at position `i`.
fn span_text(src: &str, t: &Vec<Tok>, i: usize) -> (r: String)
    requires
        i < t@.len(),
        tok_spans_ok(t.deep_view(), src@.len() as int),
        src@.len() <= usize::MAX,
    ensures
        r@ == src@.subrange(t.deep_view()[i as int].start, t.deep_view()[i as int].end),
{
    proof {
        assert(0 <= t.deep_view()[i as int].start < t.deep_view()[i as int].end <= src@.len());
    }
    src.substring_char(t[i].start, t[i].end).to_owned()
}

/// Parses a selector prelude from the tokens `t[i0..end)`: the selector the
/// prelude denotes, in normal form, or the error that rejects it.
fn parse_prelude(src: &str, t: &Vec<Tok>, i0: usize, end: usize) -> (r: Result<
    Selector,
    EcssError,
>)
    requires
        i0 <= end <= t@.len(),
        tok_spans_ok(t.deep_view(), src@.len() as int),
        src@.len() <= usize::MAX,
    ensures
        match r {
            Ok(sel) => prelude_elems(
                src@,
                t.deep_view(),
                i0 as nat,
                end as nat,
                Prefix::Bare,
                Seq::empty(),
            ) matches Ok(elems) && sel@ == normalize(elems) && sel.wf(),
            Err(e) => prelude_elems(
                src@,
                t.deep_view(),
                i0 as nat,
                end as nat,
                Prefix::Bare,
                Seq::empty(),
            ) matches Err(ev) && e.deep_view() == ev,
        },
{
    let ghost tv = t.deep_view();
    let mut acc: Vec<SelectorElement> = Vec::new();
    let mut state = Prefix::Bare;
    let mut i = i0;
    proof {
        assert(acc.deep_view() =~= Seq::<ElemV>::empty());
    }
    while i < end
        invariant
            i0 <= i <= end <= t@.len(),
            tv == t.deep_view(),
            tok_spans_ok(tv, src@.len() as int),
            src@.len() <= usize::MAX,
            prelude_elems(src@, tv, i as nat, end as nat, state, acc.deep_view()) == prelude_elems(
                src@,
                tv,
                i0 as nat,
                end as nat,
                Prefix::Bare,
                Seq::empty(),
            ),
        decreases end - i,
    {
        let ghost pre = acc.deep_view();
        match &t[i].kind {
            CssToken::Ident(v) => {
                let e = match state {
                    Prefix::Bare => SelectorElement::Component(v.clone()),
                    Prefix::DotClass => SelectorElement::Class(v.clone()),
                    Prefix::ColonPseudo => SelectorElement::PseudoClass(
                        PseudoClassElement::from_name(v.as_str()),
                    ),
                };
                let ghost ev = e.deep_view();
                acc.push(e);
                state = Prefix::Bare;
                proof {
                    assert(acc.deep_view() =~= pre.push(ev));
                }
            },
            CssToken::IdHash(v) => {
                acc.push(SelectorElement::Name(v.clone()));
                proof {
                    assert(acc.deep_view() =~= pre.push(ElemV::Name(v@)));
                }
            },
            CssToken::Space => {
                acc.push(SelectorElement::Child);
                proof {
                    assert(acc.deep_view() =~= pre.push(ElemV::Child));
                }
            },
            CssToken::Colon => {
                state = Prefix::ColonPseudo;
            },
            CssToken::Delim(c) => {
                if *c == '.' {
                    state = Prefix::DotClass;
                } else if *c == '*' {
                    acc.push(SelectorElement::Any);
                    proof {
                        assert(acc.deep_view() =~= pre.push(ElemV::Any));
                    }
                } else {
                    return Err(EcssError::UnexpectedToken(span_text(src, t, i)));
                }
            },
            _ => {
                return Err(EcssError::UnexpectedToken(span_text(src, t, i)));
            },
        }
        i = i + 1;
    }
    if acc.len() == 0 {
        Err(EcssError::InvalidSelector)
    } else {
        Ok(Selector::new(acc))
    }
}

/// The rules a token stream denotes: each rule is a selector prelude and a
/// declaration block; a rule whose prelude is rejected is dropped, its block
/// consumed. Trailing text that never opens a block yields no rule.
pub open spec fn spec_rules_from(src: Seq<char>, t: Seq<TokV>, i: nat) -> Seq<RuleV>
    decreases t.len() - i,
        when i <= t.len()
        via spec_rules_from_dec
{
    let i0 = skip_spaces_tok(t, i);
    if i0 >= t.len() {
        Seq::empty()
    } else {
        let pe = prelude_end(t, i0);
        if pe >= t.len() {
            Seq::empty()
        } else {
            let bp = block_props(t, (pe + 1) as nat, Seq::empty());
            let rest = spec_rules_from(src, t, bp.1);
            match prelude_elems(src, t, i0, pe, Prefix::Bare, Seq::empty()) {
                Ok(elems) => seq![RuleV { selector: normalize(elems), props: bp.0 }] + rest,
                Err(_) => rest,
            }
        }
    }
}

#[via_fn]
proof fn spec_rules_from_dec(src: Seq<char>, t: Seq<TokV>, i: nat) {
    lemma_skip_spaces_bounds(t, i);
    let i0 = skip_spaces_tok(t, i);
    if i0 < t.len() {
        lemma_prelude_end_bounds(t, i0);
        let pe = prelude_end(t, i0);
        if pe < t.len() {
            lemma_block_props_bounds(t, (pe + 1) as nat, Seq::empty());
        }
    }
}

/// The rules a stylesheet text denotes.
pub open spec fn spec_parse(src: Seq<char>) -> Seq<RuleV> {
    spec_rules_from(src, spec_tokens(src), 0)
}

/// Parses stylesheet text into a list of style rules.
pub struct StyleSheetParser;

impl StyleSheetParser {
    /// Parses stylesheet text into its rules. Parsing terminates on every
    /// input and never fails as a whole: each rule or declaration that does
    /// not fit the grammar is dropped, and the rest is kept.
    pub fn parse(content: &str) -> (r: Vec<StyleRule>)
        ensures
            r.deep_view() == spec_parse(content@),
            forall|k: int| 0 <= k < r@.len() ==> (#[trigger] r@[k]).wf(),
    {
        let n = content.unicode_len();
        proof {
            assert(content@.len() <= usize::MAX);
        }
        let toks = tokenize(content);
        let ghost tv = toks.deep_view();
        let ghost src = content@;
        let mut rules: Vec<StyleRule> = Vec::new();
        let mut i: usize = 0;
        proof {
            assert(rules.deep_view() =~= Seq::<RuleV>::empty());
            assert(rules.deep_view() + spec_rules_from(src, tv, 0) =~= spec_rules_from(src, tv, 0));
        }
        loop
            invariant
                i <= toks.len(),
                tv == toks.deep_view(),
                tv == spec_tokens(src),
                src == content@,
                src.len() <= usize::MAX,
                tok_spans_ok(tv, src.len() as int),
                rules.deep_view() + spec_rules_from(src, tv, i as nat) == spec_rules_from(
                    src,
                    tv,
                    0,
                ),
                forall|k: int| 0 <= k < rules@.len() ==> (#[trigger] rules@[k]).wf(),
            decreases toks.len() - i,
        {
            let i0 = skip_spaces_tok_exec(&toks, i);
            if i0 >= toks.len() {
                proof {
                    assert(spec_rules_from(src, tv, i as nat) =~= Seq::<RuleV>::empty());
                    assert(rules.deep_view() + Seq::<RuleV>::empty() =~= rules.deep_view());
                }
                return rules;
            }
            let pe = prelude_end_exec(&toks, i0);
            if pe >= toks.len() {
                proof {
                    assert(spec_rules_from(src, tv, i as nat) =~= Seq::<RuleV>::empty());
                    assert(rules.deep_view() + Seq::<RuleV>::empty() =~= rules.deep_view());
                }
                return rules;
            }
            let (props, next) = parse_block(&toks, pe + 1);
            let ghost pre = rules.deep_view();
            match parse_prelude(content, &toks, i0, pe) {
                Ok(selector) => {
                    let ghost rv = RuleV { selector: selector@, props: props@ };
                    let rule = StyleRule { selector, properties: props };
                    proof {
                        assert(rule.wf());
                    }
                    rules.push(rule);
                    proof {
                        assert(rules.deep_view() =~= pre.push(rv));
                        assert(pre.push(rv) + spec_rules_from(src, tv, next as nat) =~= pre + (
                        seq![rv] + spec_rules_from(src, tv, next as nat)));
                    }
                },
                Err(_) => {},
            }
            i = next;
        }
    }
}

} // verus!
