//! The selector model: match elements, pseudo-classes, and selectors with a
//! precomputed content hash and specificity weight.
//!
//! A selector is an ordered list of [`SelectorElement`]s, logically grouped
//! into segments by [`SelectorElement::Child`] separators. Two selectors are
//! considered equal exactly when their content hashes are equal; this is a
//! deliberate design decision of the engine, not an approximation.

use crate::text::{fnv_chars, fnv_step, fnv_step_exec, fnv_str, str_eq, FNV_OFFSET};
use vstd::prelude::*;
use vstd::string::*;

verus! {

/// A pseudo-class in a selector, such as `button:hover`. Unrecognized
/// pseudo-class names are kept as [`PseudoClassElement::Unsupported`], which
/// never restricts a match but does not fail parsing either.
#[derive(Debug, Clone, Copy, PartialEq, Eq, Structural)]
pub enum PseudoClassElement {
    Hover,
    Active,
    Unsupported,
}

impl PseudoClassElement {
    /// The specificity contribution of this pseudo-class.
    pub open spec fn spec_weight(self) -> u32 {
        match self {
            PseudoClassElement::Hover => 10,
            PseudoClassElement::Active => 10,
            PseudoClassElement::Unsupported => 0,
        }
    }

    /// Computes the specificity contribution of this pseudo-class.
    #[verifier::allow_in_spec]
    pub fn weight(&self) -> u32
        returns
            self.spec_weight(),
    {
        match self {
            PseudoClassElement::Hover => 10,
            PseudoClassElement::Active => 10,
            PseudoClassElement::Unsupported => 0,
        }
    }

    /// The canonical textual name of this pseudo-class.
    pub open spec fn spec_name(self) -> Seq<char> {
        match self {
            PseudoClassElement::Hover => "hover"@,
            PseudoClassElement::Active => "active"@,
            PseudoClassElement::Unsupported => "unsupported"@,
        }
    }

    /// Renders the canonical textual name of this pseudo-class.
    pub fn name(&self) -> (r: &'static str)
        ensures
            r@ == self.spec_name(),
    {
        match self {
            PseudoClassElement::Hover => "hover",
            PseudoClassElement::Active => "active",
            PseudoClassElement::Unsupported => "unsupported",
        }
    }

    /// The pseudo-class a parsed name denotes.
    pub open spec fn spec_from_name(s: Seq<char>) -> PseudoClassElement {
        if s == "hover"@ {
            PseudoClassElement::Hover
        } else if s == "active"@ {
            PseudoClassElement::Active
        } else {
            PseudoClassElement::Unsupported
        }
    }

    /// Maps a parsed pseudo-class name to its element; unknown names map to
    /// [`PseudoClassElement::Unsupported`].
    pub fn from_name(value: &str) -> (r: PseudoClassElement)
        ensures
            r == PseudoClassElement::spec_from_name(value@),
    {
        if str_eq(value, "hover") {
            PseudoClassElement::Hover
        } else if str_eq(value, "active") {
            PseudoClassElement::Active
        } else {
            PseudoClassElement::Unsupported
        }
    }

    /// Tag folded into a selector's content hash for this pseudo-class.
    pub open spec fn spec_tag(self) -> u64 {
        match self {
            PseudoClassElement::Hover => 7,
            PseudoClassElement::Active => 8,
            PseudoClassElement::Unsupported => 9,
        }
    }

    #[verifier::allow_in_spec]
    fn tag(&self) -> u64
        returns
            self.spec_tag(),
    {
        match self {
            PseudoClassElement::Hover => 7,
            PseudoClassElement::Active => 8,
            PseudoClassElement::Unsupported => 9,
        }
    }
}

/// One element of a selector.
#[derive(Debug)]
pub enum SelectorElement {
    /// An id selector, like `#score-window`.
    Name(String),
    /// A component selector, like `window` or `button`.
    Component(String),
    /// A class selector, like `.border`.
    Class(String),
    /// The universal selector `*`.
    Any,
    /// The descendant separator between two segments, written as whitespace.
    Child,
    /// A pseudo-class selector, like `:hover`.
    PseudoClass(PseudoClassElement),
}

/// The mathematical shape of a [`SelectorElement`]: the same variants over
/// character sequences.
pub enum ElemV {
    Name(Seq<char>),
    Component(Seq<char>),
    Class(Seq<char>),
    Any,
    Child,
    PseudoClass(PseudoClassElement),
}

impl DeepView for SelectorElement {
    type V = ElemV;

    open spec fn deep_view(&self) -> ElemV {
        match self {
            SelectorElement::Name(s) => ElemV::Name(s@),
            SelectorElement::Component(s) => ElemV::Component(s@),
            SelectorElement::Class(s) => ElemV::Class(s@),
            SelectorElement::Any => ElemV::Any,
            SelectorElement::Child => ElemV::Child,
            SelectorElement::PseudoClass(p) => ElemV::PseudoClass(*p),
        }
    }
}

impl Clone for SelectorElement {
    fn clone(&self) -> (r: Self)
        ensures
            r == *self,
    {
        match self {
            SelectorElement::Name(s) => SelectorElement::Name(s.clone()),
            SelectorElement::Component(s) => SelectorElement::Component(s.clone()),
            SelectorElement::Class(s) => SelectorElement::Class(s.clone()),
            SelectorElement::Any => SelectorElement::Any,
            SelectorElement::Child => SelectorElement::Child,
            SelectorElement::PseudoClass(p) => SelectorElement::PseudoClass(*p),
        }
    }
}

/// Compares two elements by content.
pub fn elem_eq(x: &SelectorElement, y: &SelectorElement) -> (r: bool)
    ensures
        r == (x.deep_view() == y.deep_view()),
{
    match (x, y) {
        (SelectorElement::Name(a), SelectorElement::Name(b)) => str_eq(a.as_str(), b.as_str()),
        (SelectorElement::Component(a), SelectorElement::Component(b)) => str_eq(
            a.as_str(),
            b.as_str(),
        ),
        (SelectorElement::Class(a), SelectorElement::Class(b)) => str_eq(a.as_str(), b.as_str()),
        (SelectorElement::Any, SelectorElement::Any) => true,
        (SelectorElement::Child, SelectorElement::Child) => true,
        (SelectorElement::PseudoClass(a), SelectorElement::PseudoClass(b)) => match (a, b) {
            (PseudoClassElement::Hover, PseudoClassElement::Hover) => true,
            (PseudoClassElement::Active, PseudoClassElement::Active) => true,
            (PseudoClassElement::Unsupported, PseudoClassElement::Unsupported) => true,
            _ => false,
        },
        _ => false,
    }
}

impl PartialEq for SelectorElement {
    fn eq(&self, other: &Self) -> bool {
        elem_eq(self, other)
    }
}

impl vstd::std_specs::cmp::PartialEqSpecImpl for SelectorElement {
    open spec fn obeys_eq_spec() -> bool {
        true
    }

    open spec fn eq_spec(&self, other: &Self) -> bool {
        self.deep_view() == other.deep_view()
    }
}

/// The specificity contribution of one element: ids weigh 100, classes 10,
/// pseudo-classes their own weight, components 1, and the universal selector
/// and the descendant separator 0.
pub open spec fn elem_weight(e: ElemV) -> u32 {
    match e {
        ElemV::Name(_) => 100,
        ElemV::Component(_) => 1,
        ElemV::Class(_) => 10,
        ElemV::Any => 0,
        ElemV::Child => 0,
        ElemV::PseudoClass(p) => p.spec_weight(),
    }
}

/// Addition on `u32` that stops at the largest value instead of wrapping.
pub open spec fn sat_add_u32(a: u32, b: u32) -> u32 {
    if a + b > u32::MAX {
        u32::MAX
    } else {
        (a + b) as u32
    }
}

/// Weight accumulated over `s` from position `i` on, starting from `acc`.
pub open spec fn weight_from(s: Seq<ElemV>, i: nat, acc: u32) -> u32
    decreases s.len() - i,
{
    if i >= s.len() {
        acc
    } else {
        weight_from(s, i + 1, sat_add_u32(acc, elem_weight(s[i as int])))
    }
}

/// The specificity weight of a selector: the (saturating) sum of its
/// elements' weights.
pub open spec fn selector_weight(s: Seq<ElemV>) -> u32 {
    weight_from(s, 0, 0)
}

/// Hash state after folding in one element.
pub open spec fn elem_hash_state(h: u64, e: ElemV) -> u64 {
    match e {
        ElemV::Name(s) => fnv_chars(s, fnv_step(h, 1)),
        ElemV::Component(s) => fnv_chars(s, fnv_step(h, 2)),
        ElemV::Class(s) => fnv_chars(s, fnv_step(h, 3)),
        ElemV::Any => fnv_step(h, 4),
        ElemV::Child => fnv_step(h, 5),
        ElemV::PseudoClass(p) => fnv_step(fnv_step(h, 6), p.spec_tag()),
    }
}

/// Hash state after folding in the elements of `s` from position `i` on.
pub open spec fn elems_hash_from(s: Seq<ElemV>, i: nat, h: u64) -> u64
    decreases s.len() - i,
{
    if i >= s.len() {
        h
    } else {
        elems_hash_from(s, i + 1, elem_hash_state(h, s[i as int]))
    }
}

/// The content hash of a selector: a pure function of its ordered elements.
pub open spec fn selector_hash(s: Seq<ElemV>) -> u64 {
    elems_hash_from(s, 0, FNV_OFFSET)
}

/// Whether an element sequence is in normal form: no descendant separator at
/// either end and no two adjacent separators. Parsed selectors always are.
pub open spec fn is_normal(s: Seq<ElemV>) -> bool {
    &&& s.len() > 0 ==> !(s[0] is Child) && !(s.last() is Child)
    &&& forall|i: int| #![trigger s[i]] 0 < i < s.len() ==> !((s[i - 1] is Child) && (s[i] is Child))
}

/// Elements accumulated by normalization: separators are dropped when they
/// would stand first or repeat, and one trailing separator is dropped at the
/// end.
pub open spec fn strip_collapse(s: Seq<ElemV>, i: nat, acc: Seq<ElemV>) -> Seq<ElemV>
    decreases s.len() - i,
{
    if i >= s.len() {
        if acc.len() > 0 && acc.last() is Child {
            acc.drop_last()
        } else {
            acc
        }
    } else if s[i as int] is Child {
        if acc.len() == 0 || acc.last() is Child {
            strip_collapse(s, i + 1, acc)
        } else {
            strip_collapse(s, i + 1, acc.push(ElemV::Child))
        }
    } else {
        strip_collapse(s, i + 1, acc.push(s[i as int]))
    }
}

/// Normal form of an element sequence: collapse runs of descendant
/// separators and strip them from both ends.
pub open spec fn normalize(s: Seq<ElemV>) -> Seq<ElemV> {
    strip_collapse(s, 0, Seq::empty())
}

/// An accumulator that no normalization step can spoil: no separator first
/// and no two adjacent ones.
spec fn acc_ok(acc: Seq<ElemV>) -> bool {
    &&& acc.len() > 0 ==> !(acc[0] is Child)
    &&& forall|i: int| #![trigger acc[i]] 0 < i < acc.len() ==> !((acc[i - 1] is Child) && (acc[i] is Child))
}

proof fn lemma_strip_collapse_normal(s: Seq<ElemV>, i: nat, acc: Seq<ElemV>)
    requires
        acc_ok(acc),
    ensures
        is_normal(strip_collapse(s, i, acc)),
    decreases s.len() - i,
{
    if i >= s.len() {
        let r = strip_collapse(s, i, acc);
        if acc.len() > 0 && acc.last() is Child {
            assert(r =~= acc.drop_last());
        }
    } else if s[i as int] is Child {
        if acc.len() == 0 || acc.last() is Child {
            lemma_strip_collapse_normal(s, i + 1, acc);
        } else {
            lemma_strip_collapse_normal(s, i + 1, acc.push(ElemV::Child));
        }
    } else {
        lemma_strip_collapse_normal(s, i + 1, acc.push(s[i as int]));
    }
}

/// The normal form of any element sequence satisfies [`is_normal`].
pub proof fn lemma_normalize_is_normal(s: Seq<ElemV>)
    ensures
        is_normal(normalize(s)),
{
    lemma_strip_collapse_normal(s, 0, Seq::empty());
}

/// Segments accumulated while splitting on descendant separators; empty
/// segments are dropped.
pub open spec fn segments_from(
    s: Seq<ElemV>,
    i: nat,
    cur: Seq<ElemV>,
    acc: Seq<Seq<ElemV>>,
) -> Seq<Seq<ElemV>>
    decreases s.len() - i,
{
    if i >= s.len() {
        if cur.len() > 0 {
            acc.push(cur)
        } else {
            acc
        }
    } else if s[i as int] is Child {
        if cur.len() > 0 {
            segments_from(s, i + 1, Seq::empty(), acc.push(cur))
        } else {
            segments_from(s, i + 1, cur, acc)
        }
    } else {
        segments_from(s, i + 1, cur.push(s[i as int]), acc)
    }
}

/// The segments of a selector: maximal runs of non-separator elements, in
/// order. A selector in normal form with `k` separators has `k + 1`
/// segments, each non-empty.
pub open spec fn spec_segments(s: Seq<ElemV>) -> Seq<Seq<ElemV>> {
    segments_from(s, 0, Seq::empty(), Seq::empty())
}

/// A selector parsed from stylesheet text. The content hash and the
/// specificity weight are computed once, at construction.
#[derive(Debug)]
pub struct Selector {
    hash: u64,
    elements: Vec<SelectorElement>,
    weight: u32,
}

impl View for Selector {
    type V = Seq<ElemV>;

    closed spec fn view(&self) -> Seq<ElemV> {
        self.elements.deep_view()
    }
}

impl DeepView for Selector {
    type V = Seq<ElemV>;

    open spec fn deep_view(&self) -> Seq<ElemV> {
        self.view()
    }
}

impl Clone for Selector {
    fn clone(&self) -> (r: Self)
        ensures
            r@ == self@,
            r.spec_hash() == self.spec_hash(),
            r.spec_weight() == self.spec_weight(),
            r.wf() == self.wf(),
    {
        let mut elements: Vec<SelectorElement> = Vec::new();
        let mut i: usize = 0;
        while i < self.elements.len()
            invariant
                i <= self.elements.len(),
                elements@ == self.elements@.subrange(0, i as int),
            decreases self.elements.len() - i,
        {
            elements.push(self.elements[i].clone());
            i = i + 1;
            proof {
                assert(elements@ =~= self.elements@.subrange(0, i as int));
            }
        }
        proof {
            assert(elements@ =~= self.elements@);
            assert(elements.deep_view() =~= self.elements.deep_view());
        }
        Selector { hash: self.hash, elements, weight: self.weight }
    }
}

impl Selector {
    /// The stored content hash.
    pub closed spec fn spec_hash(&self) -> u64 {
        self.hash
    }

    /// The stored specificity weight.
    pub closed spec fn spec_weight(&self) -> u32 {
        self.weight
    }

    /// A well-formed selector: elements in normal form, hash and weight
    /// agreeing with their content.
    pub open spec fn wf(&self) -> bool {
        &&& self.spec_hash() == selector_hash(self@)
        &&& self.spec_weight() == selector_weight(self@)
        &&& is_normal(self@)
    }

    /// Builds a selector from the given elements. Runs of descendant
    /// separators are collapsed and separators are stripped from both ends;
    /// the content hash and specificity weight are computed and frozen here.
    pub fn new(elements: Vec<SelectorElement>) -> (r: Selector)
        ensures
            r@ == normalize(elements.deep_view()),
            r.wf(),
    {
        let ghost input_view = elements.deep_view();
        let elements = normalize_elements(elements);
        let hash = hash_elements(&elements);
        let weight = weight_elements(&elements);
        proof {
            lemma_normalize_is_normal(input_view);
        }
        Selector { hash, elements, weight }
    }

    /// Reads the content hash frozen at construction.
    #[verifier::allow_in_spec]
    pub fn hash(&self) -> u64
        returns
            self.spec_hash(),
    {
        self.hash
    }

    /// Reads the specificity weight frozen at construction.
    #[verifier::allow_in_spec]
    pub fn weight(&self) -> u32
        returns
            self.spec_weight(),
    {
        self.weight
    }

    /// Splits the selector into its segments: each returned list holds the
    /// elements of one compound selector, and consecutive lists are related
    /// as ancestor to descendant.
    pub fn get_parent_tree(&self) -> (r: Vec<Vec<SelectorElement>>)
        ensures
            r.deep_view() == spec_segments(self@),
    {
        let mut tree: Vec<Vec<SelectorElement>> = Vec::new();
        let mut current: Vec<SelectorElement> = Vec::new();
        proof {
            assert(current.deep_view() =~= Seq::<ElemV>::empty());
            assert(tree.deep_view() =~= Seq::<Seq<ElemV>>::empty());
        }
        let mut i: usize = 0;
        while i < self.elements.len()
            invariant
                i <= self.elements.len(),
                segments_from(
                    self.elements.deep_view(),
                    i as nat,
                    current.deep_view(),
                    tree.deep_view(),
                ) == spec_segments(self@),
            decreases self.elements.len() - i,
        {
            let ghost cur_pre = current.deep_view();
            let ghost tree_pre = tree.deep_view();
            match &self.elements[i] {
                SelectorElement::Child => {
                    if current.len() > 0 {
                        tree.push(current);
                        current = Vec::new();
                        proof {
                            assert(tree.deep_view() =~= tree_pre.push(cur_pre));
                            assert(current.deep_view() =~= Seq::<ElemV>::empty());
                        }
                    }
                },
                _ => {
                    current.push(self.elements[i].clone());
                    proof {
                        assert(current.deep_view() =~= cur_pre.push(
                            self.elements@[i as int].deep_view(),
                        ));
                    }
                },
            }
            i = i + 1;
        }
        if current.len() > 0 {
            let ghost tree_pre = tree.deep_view();
            let ghost cur_pre = current.deep_view();
            tree.push(current);
            proof {
                assert(tree.deep_view() =~= tree_pre.push(cur_pre));
            }
        }
        tree
    }

    /// Renders the canonical textual form of the selector: `#id`, bare
    /// `component`, `.class`, `*`, `:pseudo`, and a single space between
    /// segments.
    pub fn render(&self) -> (r: String)
        ensures
            r@ == render_from(self@, 0, Seq::empty()),
    {
        let mut out = String::new();
        let mut i: usize = 0;
        while i < self.elements.len()
            invariant
                i <= self.elements.len(),
                render_from(self.elements.deep_view(), i as nat, out@) == render_from(
                    self.elements.deep_view(),
                    0,
                    Seq::empty(),
                ),
            decreases self.elements.len() - i,
        {
            let ghost pre = out@;
            match &self.elements[i] {
                SelectorElement::Name(n) => {
                    out.append("#");
                    out.append(n.as_str());
                },
                SelectorElement::Component(c) => {
                    out.append(c.as_str());
                },
                SelectorElement::Class(c) => {
                    out.append(".");
                    out.append(c.as_str());
                },
                SelectorElement::Any => {
                    out.append("*");
                },
                SelectorElement::Child => {
                    out.append(" ");
                },
                SelectorElement::PseudoClass(p) => {
                    out.append(":");
                    out.append(p.name());
                },
            }
            proof {
                assert(out@ =~= pre + elem_render(self.elements@[i as int].deep_view()));
            }
            i = i + 1;
        }
        out
    }
}

/// The canonical text of one element.
pub open spec fn elem_render(e: ElemV) -> Seq<char> {
    match e {
        ElemV::Name(s) => "#"@ + s,
        ElemV::Component(s) => s,
        ElemV::Class(s) => "."@ + s,
        ElemV::Any => "*"@,
        ElemV::Child => " "@,
        ElemV::PseudoClass(p) => ":"@ + p.spec_name(),
    }
}

/// Canonical text accumulated over `s` from position `i` on.
pub open spec fn render_from(s: Seq<ElemV>, i: nat, acc: Seq<char>) -> Seq<char>
    decreases s.len() - i,
{
    if i >= s.len() {
        acc
    } else {
        render_from(s, i + 1, acc + elem_render(s[i as int]))
    }
}

impl PartialEq for Selector {
    fn eq(&self, other: &Self) -> bool {
        self.hash == other.hash
    }
}

impl vstd::std_specs::cmp::PartialEqSpecImpl for Selector {
    open spec fn obeys_eq_spec() -> bool {
        true
    }

    open spec fn eq_spec(&self, other: &Self) -> bool {
        self.spec_hash() == other.spec_hash()
    }
}

/// Normalizes an element list: collapses runs of descendant separators and
/// strips them from both ends.
fn normalize_elements(input: Vec<SelectorElement>) -> (r: Vec<SelectorElement>)
    ensures
        r.deep_view() == normalize(input.deep_view()),
{
    let mut acc: Vec<SelectorElement> = Vec::new();
    proof {
        assert(acc.deep_view() =~= Seq::<ElemV>::empty());
    }
    let mut i: usize = 0;
    while i < input.len()
        invariant
            i <= input.len(),
            strip_collapse(input.deep_view(), i as nat, acc.deep_view()) == normalize(
                input.deep_view(),
            ),
        decreases input.len() - i,
    {
        let ghost pre = acc.deep_view();
        match &input[i] {
            SelectorElement::Child => {
                let push_it = if acc.len() == 0 {
                    false
                } else {
                    match &acc[acc.len() - 1] {
                        SelectorElement::Child => false,
                        _ => true,
                    }
                };
                proof {
                    assert(push_it == !(pre.len() == 0 || pre.last() is Child));
                }
                if push_it {
                    acc.push(SelectorElement::Child);
                    proof {
                        assert(acc.deep_view() =~= pre.push(ElemV::Child));
                    }
                }
            },
            _ => {
                acc.push(input[i].clone());
                proof {
                    assert(acc.deep_view() =~= pre.push(input@[i as int].deep_view()));
                }
            },
        }
        i = i + 1;
    }
    if acc.len() > 0 {
        let ghost pre = acc.deep_view();
        let is_child = match &acc[acc.len() - 1] {
            SelectorElement::Child => true,
            _ => false,
        };
        if is_child {
            let _ = acc.pop();
            proof {
                assert(acc.deep_view() =~= pre.drop_last());
            }
        }
    }
    acc
}

/// Computes the content hash of an element list.
fn hash_elements(elements: &Vec<SelectorElement>) -> (r: u64)
    ensures
        r == selector_hash(elements.deep_view()),
{
    let mut h: u64 = FNV_OFFSET;
    let mut i: usize = 0;
    while i < elements.len()
        invariant
            i <= elements.len(),
            elems_hash_from(elements.deep_view(), i as nat, h) == selector_hash(
                elements.deep_view(),
            ),
        decreases elements.len() - i,
    {
        match &elements[i] {
            SelectorElement::Name(s) => {
                h = fnv_step_exec(h, 1);
                h = fnv_str(s.as_str(), h);
            },
            SelectorElement::Component(s) => {
                h = fnv_step_exec(h, 2);
                h = fnv_str(s.as_str(), h);
            },
            SelectorElement::Class(s) => {
                h = fnv_step_exec(h, 3);
                h = fnv_str(s.as_str(), h);
            },
            SelectorElement::Any => {
                h = fnv_step_exec(h, 4);
            },
            SelectorElement::Child => {
                h = fnv_step_exec(h, 5);
            },
            SelectorElement::PseudoClass(p) => {
                h = fnv_step_exec(h, 6);
                h = fnv_step_exec(h, p.tag());
            },
        }
        i = i + 1;
    }
    h
}

/// Computes the specificity weight of an element list.
fn weight_elements(elements: &Vec<SelectorElement>) -> (r: u32)
    ensures
        r == selector_weight(elements.deep_view()),
{
    let mut w: u32 = 0;
    let mut i: usize = 0;
    while i < elements.len()
        invariant
            i <= elements.len(),
            weight_from(elements.deep_view(), i as nat, w) == selector_weight(
                elements.deep_view(),
            ),
        decreases elements.len() - i,
    {
        let ew: u32 = match &elements[i] {
            SelectorElement::Name(_) => 100,
            SelectorElement::Component(_) => 1,
            SelectorElement::Class(_) => 10,
            SelectorElement::Any => 0,
            SelectorElement::Child => 0,
            SelectorElement::PseudoClass(p) => p.weight(),
        };
        if w <= u32::MAX - ew {
            w = w + ew;
        } else {
            w = u32::MAX;
        }
        i = i + 1;
    }
    w
}

/// The elements a plain list of raw name tokens denotes, from position `i`
/// on: a standalone `.` announces that the next token is a class, a token
/// prefixed by `#` is an id, anything else is a component; empty tokens are
/// skipped.
pub open spec fn elems_of_tokens(parts: Seq<Seq<char>>, i: nat, next_is_class: bool) -> Seq<ElemV>
    decreases parts.len() - i,
{
    if i >= parts.len() {
        Seq::empty()
    } else {
        let tok = parts[i as int];
        if tok.len() == 0 {
            elems_of_tokens(parts, i + 1, next_is_class)
        } else if tok == "."@ {
            elems_of_tokens(parts, i + 1, true)
        } else if tok[0] == '#' {
            seq![ElemV::Name(tok.skip(1))] + elems_of_tokens(parts, i + 1, false)
        } else if next_is_class {
            seq![ElemV::Class(tok)] + elems_of_tokens(parts, i + 1, false)
        } else {
            seq![ElemV::Component(tok)] + elems_of_tokens(parts, i + 1, false)
        }
    }
}

impl Selector {
    /// Builds a selector from a plain list of raw name tokens, the
    /// simplified entry path: a standalone `.` token makes the next token a
    /// class, a `#`-prefixed token is an id, and anything else is a
    /// component.
    pub fn from_tokens(input: Vec<String>) -> (r: Selector)
        ensures
            r@ == normalize(elems_of_tokens(input.deep_view(), 0, false)),
            r.wf(),
    {
        let ghost parts = input.deep_view();
        let mut elements: Vec<SelectorElement> = Vec::new();
        let mut next_is_class = false;
        let mut i: usize = 0;
        proof {
            assert(elements.deep_view() =~= Seq::<ElemV>::empty());
            assert(elements.deep_view() + elems_of_tokens(parts, 0, false) =~= elems_of_tokens(
                parts,
                0,
                false,
            ));
        }
        while i < input.len()
            invariant
                i <= input@.len(),
                parts == input.deep_view(),
                parts.len() == input@.len(),
                elements.deep_view() + elems_of_tokens(parts, i as nat, next_is_class)
                    == elems_of_tokens(parts, 0, false),
            decreases input@.len() - i,
        {
            let ghost pre = elements.deep_view();
            let tok = &input[i];
            let n = tok.as_str().unicode_len();
            if n == 0 {
            } else if str_eq(tok.as_str(), ".") {
                next_is_class = true;
            } else if tok.as_str().get_char(0) == '#' {
                let name = tok.as_str().substring_char(1, n).to_owned();
                proof {
                    assert(name@ =~= parts[i as int].skip(1));
                }
                elements.push(SelectorElement::Name(name));
                next_is_class = false;
                proof {
                    assert(elements.deep_view() =~= pre.push(ElemV::Name(parts[i as int].skip(1))));
                    assert(pre.push(ElemV::Name(parts[i as int].skip(1))) + elems_of_tokens(
                        parts,
                        (i + 1) as nat,
                        false,
                    ) =~= pre + (seq![ElemV::Name(parts[i as int].skip(1))] + elems_of_tokens(
                        parts,
                        (i + 1) as nat,
                        false,
                    )));
                    assert(parts[i as int] != "."@) by {
                        reveal_strlit(".");
                        assert(parts[i as int][0] == '#');
                    }
                }
            } else if next_is_class {
                elements.push(SelectorElement::Class(tok.clone()));
                next_is_class = false;
                proof {
                    assert(elements.deep_view() =~= pre.push(ElemV::Class(parts[i as int])));
                    assert(pre.push(ElemV::Class(parts[i as int])) + elems_of_tokens(
                        parts,
                        (i + 1) as nat,
                        false,
                    ) =~= pre + (seq![ElemV::Class(parts[i as int])] + elems_of_tokens(
                        parts,
                        (i + 1) as nat,
                        false,
                    )));
                }
            } else {
                elements.push(SelectorElement::Component(tok.clone()));
                proof {
                    assert(elements.deep_view() =~= pre.push(ElemV::Component(parts[i as int])));
                    assert(pre.push(ElemV::Component(parts[i as int])) + elems_of_tokens(
                        parts,
                        (i + 1) as nat,
                        false,
                    ) =~= pre + (seq![ElemV::Component(parts[i as int])] + elems_of_tokens(
                        parts,
                        (i + 1) as nat,
                        false,
                    )));
                }
            }
            i = i + 1;
        }
        proof {
            assert(elems_of_tokens(parts, parts.len(), next_is_class) =~= Seq::<ElemV>::empty());
            assert(elements.deep_view() + Seq::<ElemV>::empty() =~= elements.deep_view());
        }
        Selector::new(elements)
    }
}

} // verus!
