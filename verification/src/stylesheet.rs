//! Parsed stylesheets: rules pairing a selector with a property map, and the
//! stylesheet asset that owns the rule list of one source together with its
//! content hash.

use crate::parser::StyleSheetParser;
use crate::property::{PropertyTokenV, PropertyValues};
use crate::selector::{ElemV, Selector};
use crate::text::{fnv_chars, fnv_str, str_eq, FNV_OFFSET};
use vstd::prelude::*;
use vstd::string::*;

verus! {

/// One entry of a property map: a property name and its value tokens.
pub type PropEntryV = (Seq<char>, Seq<PropertyTokenV>);

/// The value tokens stored under `name`, if any: the first entry with that
/// name decides.
pub open spec fn find_prop(s: Seq<PropEntryV>, name: Seq<char>) -> Option<Seq<PropertyTokenV>>
    decreases s.len(),
{
    if s.len() == 0 {
        None
    } else if s[0].0 == name {
        Some(s[0].1)
    } else {
        find_prop(s.drop_first(), name)
    }
}

/// The entries after writing `vals` under `name`: an existing entry is
/// replaced in place, a fresh name is appended.
pub open spec fn insert_prop(s: Seq<PropEntryV>, name: Seq<char>, vals: Seq<PropertyTokenV>) -> Seq<
    PropEntryV,
>
    decreases s.len(),
{
    if s.len() == 0 {
        seq![(name, vals)]
    } else if s[0].0 == name {
        seq![(name, vals)] + s.drop_first()
    } else {
        seq![s[0]] + insert_prop(s.drop_first(), name, vals)
    }
}

/// Property names are unique within one map.
pub open spec fn unique_names(s: Seq<PropEntryV>) -> bool {
    forall|i: int, j: int| 0 <= i < j < s.len() ==> (#[trigger] s[i]).0 != (#[trigger] s[j]).0
}

/// The map from property names to value tokens inside one rule. Names are
/// unique; writing an existing name replaces its tokens (last write wins).
#[derive(Debug)]
pub struct Props {
    entries: Vec<(String, PropertyValues)>,
}

impl View for Props {
    type V = Seq<PropEntryV>;

    closed spec fn view(&self) -> Seq<PropEntryV> {
        self.entries.deep_view()
    }
}

impl DeepView for Props {
    type V = Seq<PropEntryV>;

    open spec fn deep_view(&self) -> Seq<PropEntryV> {
        self.view()
    }
}

impl Props {
    /// A well-formed map holds each property name once.
    pub open spec fn wf(&self) -> bool {
        unique_names(self@)
    }

    /// Creates an empty property map.
    pub fn new() -> (r: Props)
        ensures
            r@ == Seq::<PropEntryV>::empty(),
            r.wf(),
    {
        let r = Props { entries: Vec::new() };
        proof {
            assert(r@ =~= Seq::<PropEntryV>::empty());
        }
        r
    }

    /// How many properties the map holds.
    pub fn len(&self) -> (r: usize)
        ensures
            r == self@.len(),
    {
        self.entries.len()
    }

    /// Whether the map holds no property.
    pub fn is_empty(&self) -> (r: bool)
        ensures
            r == (self@.len() == 0),
    {
        self.entries.len() == 0
    }

    /// Reads the entry at the given position, in insertion order.
    pub fn entry_at(&self, i: usize) -> (r: (&String, &PropertyValues))
        requires
            i < self@.len(),
        ensures
            (r.0@, r.1.deep_view()) == self@[i as int],
    {
        let e = &self.entries[i];
        (&e.0, &e.1)
    }

    /// Writes `values` under `name`; an earlier value under the same name is
    /// replaced.
    #[verifier::loop_isolation(false)]
    pub fn insert(&mut self, name: String, values: PropertyValues)
        ensures
            final(self)@ == insert_prop(old(self)@, name@, values.deep_view()),
            old(self).wf() ==> final(self).wf(),
    {
        proof {
            if self.wf() {
                lemma_insert_prop_unique(self@, name@, values.deep_view());
            }
        }
        let ghost pre = self@;
        let n = self.entries.len();
        let mut j: usize = 0;
        while j < n
            invariant
                n == self.entries.len(),
                j <= n,
                self@ == pre,
                forall|k: int| 0 <= k < j ==> pre[k].0 != name@,
            decreases n - j,
        {
            if str_eq(self.entries[j].0.as_str(), name.as_str()) {
                let ghost tup = (name@, values.deep_view());
                let ghost pe = self.entries@;
                self.entries.remove(j);
                self.entries.insert(j, (name, values));
                proof {
                    assert(pre[j as int].0 == name@);
                    lemma_insert_prop_at(pre, j as int, name@, values.deep_view());
                    assert(self.entries@ =~= pe.update(j as int, self.entries@[j as int]));
                    assert(self.entries@[j as int].deep_view() == tup);
                    let target = pre.subrange(0, j as int) + seq![tup] + pre.subrange(
                        j + 1,
                        pre.len() as int,
                    );
                    assert forall|k: int| 0 <= k < pre.len() implies self@[k] == target[k] by {
                        if k < j {
                            assert(self.entries@[k] == pe[k]);
                        } else if k > j {
                            assert(self.entries@[k] == pe[k]);
                        }
                    }
                    assert(self@ =~= target);
                }
                return ;
            }
            j = j + 1;
        }
        self.entries.push((name, values));
        proof {
            lemma_insert_prop_fresh(pre, name@, values.deep_view());
            assert(self@ =~= pre.push((name@, values.deep_view())));
        }
    }

    /// Whether the map holds a property of the given name.
    pub fn contains_key(&self, name: &str) -> (r: bool)
        ensures
            r == (find_prop(self@, name@) is Some),
    {
        let mut j: usize = 0;
        let ghost s = self@;
        proof {
            assert(s.skip(0) =~= s);
            assert(s.len() == self.entries.len());
        }
        while j < self.entries.len()
            invariant
                j <= self.entries.len(),
                s == self@,
                s.len() == self.entries.len(),
                find_prop(s.skip(j as int), name@) == find_prop(s, name@),
            decreases self.entries.len() - j,
        {
            proof {
                assert(s.skip(j as int).drop_first() =~= s.skip(j + 1));
            }
            if str_eq(self.entries[j].0.as_str(), name) {
                proof {
                    assert(s.skip(j as int)[0] == s[j as int]);
                }
                return true;
            }
            j = j + 1;
        }
        proof {
            assert(s.skip(self.entries.len() as int) =~= Seq::<PropEntryV>::empty());
        }
        false
    }

    /// Reads the value tokens stored under `name`, if any.
    pub fn get(&self, name: &str) -> (r: Option<&PropertyValues>)
        ensures
            match r {
                Some(v) => find_prop(self@, name@) == Some(v.deep_view()),
                None => find_prop(self@, name@) is None,
            },
    {
        let mut j: usize = 0;
        let ghost s = self@;
        proof {
            assert(s.skip(0) =~= s);
            assert(s.len() == self.entries.len());
        }
        while j < self.entries.len()
            invariant
                j <= self.entries.len(),
                s == self@,
                s.len() == self.entries.len(),
                find_prop(s.skip(j as int), name@) == find_prop(s, name@),
            decreases self.entries.len() - j,
        {
            proof {
                assert(s.skip(j as int).drop_first() =~= s.skip(j + 1));
            }
            if str_eq(self.entries[j].0.as_str(), name) {
                proof {
                    assert(s.skip(j as int)[0] == s[j as int]);
                }
                return Some(&self.entries[j].1);
            }
            j = j + 1;
        }
        proof {
            assert(s.skip(self.entries.len() as int) =~= Seq::<PropEntryV>::empty());
        }
        None
    }
}

/// Replacing the first entry named `name` at position `j` is what
/// [`insert_prop`] does when the earlier entries carry other names.
proof fn lemma_insert_prop_at(s: Seq<PropEntryV>, j: int, name: Seq<char>, vals: Seq<
    PropertyTokenV,
>)
    requires
        0 <= j < s.len(),
        s[j].0 == name,
        forall|k: int| 0 <= k < j ==> s[k].0 != name,
    ensures
        insert_prop(s, name, vals) == s.subrange(0, j) + seq![(name, vals)] + s.subrange(
            j + 1,
            s.len() as int,
        ),
    decreases j,
{
    if j == 0 {
        assert(insert_prop(s, name, vals) =~= s.subrange(0, 0) + seq![(name, vals)] + s.subrange(
            1,
            s.len() as int,
        ));
    } else {
        lemma_insert_prop_at(s.drop_first(), j - 1, name, vals);
        assert(s.drop_first().subrange(0, j - 1) =~= s.subrange(1, j));
        assert(s.drop_first().subrange(j, s.len() - 1) =~= s.subrange(j + 1, s.len() as int));
        assert(insert_prop(s, name, vals) =~= s.subrange(0, j) + seq![(name, vals)] + s.subrange(
            j + 1,
            s.len() as int,
        ));
    }
}

/// Appending is what [`insert_prop`] does when no entry carries `name`.
proof fn lemma_insert_prop_fresh(s: Seq<PropEntryV>, name: Seq<char>, vals: Seq<PropertyTokenV>)
    requires
        forall|k: int| 0 <= k < s.len() ==> (#[trigger] s[k]).0 != name,
    ensures
        insert_prop(s, name, vals) == s.push((name, vals)),
    decreases s.len(),
{
    if s.len() == 0 {
        assert(insert_prop(s, name, vals) =~= s.push((name, vals)));
    } else {
        assert(forall|k: int|
            0 <= k < s.drop_first().len() ==> (#[trigger] s.drop_first()[k]).0 != name);
        lemma_insert_prop_fresh(s.drop_first(), name, vals);
        assert(insert_prop(s, name, vals) =~= s.push((name, vals)));
    }
}

/// Writing a property map keeps its names unique.
pub proof fn lemma_insert_prop_unique(s: Seq<PropEntryV>, name: Seq<char>, vals: Seq<
    PropertyTokenV,
>)
    requires
        unique_names(s),
    ensures
        unique_names(insert_prop(s, name, vals)),
    decreases s.len(),
{
    if s.len() == 0 {
    } else if s[0].0 == name {
        let r = insert_prop(s, name, vals);
        assert(r =~= seq![(name, vals)] + s.drop_first());
        assert forall|i: int, j: int| 0 <= i < j < r.len() implies (#[trigger] r[i]).0
            != (#[trigger] r[j]).0 by {
            if i == 0 {
                assert(r[j] == s[j]);
                assert(s[0].0 != s[j].0);
            } else {
                assert(r[i] == s[i] && r[j] == s[j]);
            }
        }
    } else {
        assert(forall|i: int, j: int|
            0 <= i < j < s.drop_first().len() ==> (#[trigger] s.drop_first()[i]).0
                != (#[trigger] s.drop_first()[j]).0);
        lemma_insert_prop_unique(s.drop_first(), name, vals);
        let r = insert_prop(s, name, vals);
        let rr = insert_prop(s.drop_first(), name, vals);
        assert(r =~= seq![s[0]] + rr);
        lemma_insert_prop_names(s.drop_first(), name, vals);
        assert forall|i: int, j: int| 0 <= i < j < r.len() implies (#[trigger] r[i]).0
            != (#[trigger] r[j]).0 by {
            if i == 0 {
                assert(rr[j - 1].0 == name || exists|k: int|
                    0 <= k < s.drop_first().len() && rr[j - 1].0 == (
                    #[trigger] s.drop_first()[k]).0);
                if rr[j - 1].0 != name {
                    let k = choose|k: int|
                        0 <= k < s.drop_first().len() && rr[j - 1].0 == (
                        #[trigger] s.drop_first()[k]).0;
                    assert(s[0].0 != s[k + 1].0);
                }
            } else {
                assert(r[i] == rr[i - 1] && r[j] == rr[j - 1]);
            }
        }
    }
}

/// Every name in a written map is the written name or one already present.
proof fn lemma_insert_prop_names(s: Seq<PropEntryV>, name: Seq<char>, vals: Seq<PropertyTokenV>)
    ensures
        forall|j: int|
            0 <= j < insert_prop(s, name, vals).len() ==> ((#[trigger] insert_prop(s, name, vals)[j]).0
                == name || exists|k: int| 0 <= k < s.len() && insert_prop(s, name, vals)[j].0 == (
            #[trigger] s[k]).0),
    decreases s.len(),
{
    if s.len() == 0 {
    } else if s[0].0 == name {
        let r = insert_prop(s, name, vals);
        assert forall|j: int| 0 <= j < r.len() implies ((#[trigger] r[j]).0 == name || exists|k: int|
            0 <= k < s.len() && r[j].0 == (#[trigger] s[k]).0) by {
            if j > 0 {
                assert(r[j] == s[j]);
            }
        }
    } else {
        lemma_insert_prop_names(s.drop_first(), name, vals);
        let r = insert_prop(s, name, vals);
        let rr = insert_prop(s.drop_first(), name, vals);
        assert forall|j: int| 0 <= j < r.len() implies ((#[trigger] r[j]).0 == name || exists|k: int|
            0 <= k < s.len() && r[j].0 == (#[trigger] s[k]).0) by {
            if j == 0 {
                assert(r[0] == s[0]);
                assert(r[0].0 == s[0].0);
            } else {
                assert(r[j] == rr[j - 1]);
                if rr[j - 1].0 != name {
                    let k = choose|k: int|
                        0 <= k < s.drop_first().len() && rr[j - 1].0 == (
                        #[trigger] s.drop_first()[k]).0;
                    assert(s.drop_first()[k] == s[k + 1]);
                }
            }
        }
    }
}

/// The mathematical shape of one style rule.
pub struct RuleV {
    pub selector: Seq<ElemV>,
    pub props: Seq<PropEntryV>,
}

/// A single rule inside a stylesheet: a selector deciding which nodes are
/// addressed, and the property values to apply to them.
#[derive(Debug)]
pub struct StyleRule {
    /// Selector used to match nodes.
    pub selector: Selector,
    /// Property values to be applied on matched nodes.
    pub properties: Props,
}

impl DeepView for StyleRule {
    type V = RuleV;

    open spec fn deep_view(&self) -> RuleV {
        RuleV { selector: self.selector@, props: self.properties@ }
    }
}

impl StyleRule {
    /// A well-formed rule: its selector's frozen hash and weight agree with
    /// its elements, and its property names are unique.
    pub open spec fn wf(&self) -> bool {
        self.selector.wf() && self.properties.wf()
    }
}

/// A parsed stylesheet: the rules of one source text, its content hash, and
/// the path it was loaded from (kept for diagnostics only).
#[derive(Debug)]
pub struct StyleSheetAsset {
    path: String,
    hash: u64,
    rules: Vec<StyleRule>,
}

impl DeepView for StyleSheetAsset {
    type V = Seq<RuleV>;

    open spec fn deep_view(&self) -> Seq<RuleV> {
        self.spec_rules()
    }
}

impl StyleSheetAsset {
    /// The stored rules, by content.
    pub closed spec fn spec_rules(&self) -> Seq<RuleV> {
        self.rules.deep_view()
    }

    /// The stored content hash.
    pub closed spec fn spec_hash(&self) -> u64 {
        self.hash
    }

    /// The stored source path.
    pub closed spec fn spec_path(&self) -> Seq<char> {
        self.path@
    }

    /// Whether the rule at position `i` is well-formed.
    pub closed spec fn rule_wf(&self, i: int) -> bool {
        0 <= i < self.rules.len() && self.rules[i].wf()
    }

    /// A well-formed asset: every rule it holds is well-formed.
    pub open spec fn wf(&self) -> bool {
        forall|i: int| 0 <= i < self.spec_rules().len() ==> (#[trigger] self.rule_wf(i))
    }

    /// Parses stylesheet text into an asset: the rule list of the text, its
    /// content hash, and the path it came from. Parsing never fails; rules
    /// or declarations that do not fit the grammar are dropped.
    pub fn parse(path: &str, content: &str) -> (r: StyleSheetAsset)
        ensures
            r.spec_rules() == crate::parser::spec_parse(content@),
            r.spec_hash() == fnv_chars(content@, FNV_OFFSET),
            r.spec_path() == path@,
            r.wf(),
    {
        let rules = StyleSheetParser::parse(content);
        let hash = fnv_str(content, FNV_OFFSET);
        let r = StyleSheetAsset { path: path.to_owned(), hash, rules };
        proof {
            assert forall|i: int| 0 <= i < r.spec_rules().len() implies #[trigger] r.rule_wf(
                i,
            ) by {
                assert(r.rules[i].wf());
            }
        }
        r
    }

    /// The value tokens declared under `name` by the first rule whose
    /// selector has the same content hash as `selector`; nothing when no
    /// such rule declares the property.
    pub fn get_properties(&self, selector: &Selector, name: &str) -> (r: Option<&PropertyValues>)
        requires
            self.wf(),
        ensures
            match r {
                Some(v) => spec_get_properties(self.spec_rules(), selector.spec_hash(), name@)
                    == Some(v.deep_view()),
                None => spec_get_properties(self.spec_rules(), selector.spec_hash(), name@)
                    is None,
            },
    {
        let ghost s = self.spec_rules();
        let mut i: usize = 0;
        proof {
            assert(s.skip(0) =~= s);
        }
        while i < self.rules.len()
            invariant
                i <= self.rules.len(),
                self.wf(),
                s == self.spec_rules(),
                s.len() == self.rules.len(),
                spec_get_properties(s.skip(i as int), selector.spec_hash(), name@)
                    == spec_get_properties(s, selector.spec_hash(), name@),
                forall|k: int| 0 <= k < s.len() ==> s[k] == self.rules[k].deep_view(),
            decreases self.rules.len() - i,
        {
            proof {
                assert(s.skip(i as int).drop_first() =~= s.skip(i + 1));
                assert(s.skip(i as int)[0] == s[i as int]);
                assert(self.rule_wf(i as int));
            }
            if self.rules[i].selector.hash() == selector.hash() {
                return self.rules[i].properties.get(name);
            }
            i = i + 1;
        }
        proof {
            assert(s.skip(self.rules.len() as int) =~= Seq::<RuleV>::empty());
        }
        None
    }

    /// How many rules the asset holds.
    pub fn len(&self) -> (r: usize)
        ensures
            r == self.spec_rules().len(),
    {
        self.rules.len()
    }

    /// Whether the asset holds no rule.
    pub fn is_empty(&self) -> (r: bool)
        ensures
            r == (self.spec_rules().len() == 0),
    {
        self.rules.len() == 0
    }

    /// Reads the rule at the given position.
    pub fn rule_at(&self, i: usize) -> (r: &StyleRule)
        requires
            i < self.spec_rules().len(),
        ensures
            r.deep_view() == self.spec_rules()[i as int],
            self.wf() ==> r.wf(),
    {
        proof {
            if self.wf() {
                assert(self.rule_wf(i as int));
            }
        }
        &self.rules[i]
    }

    /// Whether any rule declares a property of the given name.
    pub fn has_property(&self, name: &str) -> (r: bool)
        ensures
            r == spec_has_property(self.spec_rules(), name@),
    {
        let ghost s = self.spec_rules();
        let mut i: usize = 0;
        proof {
            assert(s.skip(0) =~= s);
        }
        while i < self.rules.len()
            invariant
                i <= self.rules.len(),
                s == self.spec_rules(),
                s.len() == self.rules.len(),
                spec_has_property(s.skip(i as int), name@) == spec_has_property(s, name@),
                forall|k: int| 0 <= k < s.len() ==> s[k] == self.rules[k].deep_view(),
            decreases self.rules.len() - i,
        {
            proof {
                assert(s.skip(i as int).drop_first() =~= s.skip(i + 1));
                assert(s.skip(i as int)[0] == s[i as int]);
            }
            if self.rules[i].properties.contains_key(name) {
                return true;
            }
            i = i + 1;
        }
        proof {
            assert(s.skip(self.rules.len() as int) =~= Seq::<RuleV>::empty());
        }
        false
    }

    /// Reads the content hash, the cache-epoch key of this asset: reparsing
    /// changed text changes it, reparsing identical text keeps it.
    #[verifier::allow_in_spec]
    pub fn hash(&self) -> u64
        returns
            self.spec_hash(),
    {
        self.hash
    }

    /// Reads the source path, for diagnostics only.
    pub fn path(&self) -> (r: &str)
        ensures
            r@ == self.spec_path(),
    {
        self.path.as_str()
    }
}

/// The value tokens under `name` in the first rule whose selector hashes to
/// `sel_hash`.
pub open spec fn spec_get_properties(rules: Seq<RuleV>, sel_hash: u64, name: Seq<char>) -> Option<
    Seq<PropertyTokenV>,
>
    decreases rules.len(),
{
    if rules.len() == 0 {
        None
    } else if crate::selector::selector_hash(rules[0].selector) == sel_hash {
        find_prop(rules[0].props, name)
    } else {
        spec_get_properties(rules.drop_first(), sel_hash, name)
    }
}

/// Whether any rule declares a property named `name`.
pub open spec fn spec_has_property(rules: Seq<RuleV>, name: Seq<char>) -> bool
    decreases rules.len(),
{
    if rules.len() == 0 {
        false
    } else if find_prop(rules[0].props, name) is Some {
        true
    } else {
        spec_has_property(rules.drop_first(), name)
    }
}

/// Errors of the stylesheet loading edge: what went wrong while bringing
/// stylesheet text in from a source, rendered as text. The host's loader
/// maps its I/O and encoding failures into this type.
#[derive(Debug)]
pub enum StyleSheetLoaderError {
    /// The source could not be read; carries the rendered failure.
    Io(String),
    /// The source was not valid text; carries the rendered failure.
    Utf8(String),
}

impl StyleSheetLoaderError {
    /// A human-readable description of the failure.
    pub fn message(&self) -> (r: String)
        ensures
            r@ == self.spec_message(),
    {
        match self {
            StyleSheetLoaderError::Io(d) => "File not found: ".to_owned().concat(d.as_str()),
            StyleSheetLoaderError::Utf8(d) => "Invalid file format: ".to_owned().concat(
                d.as_str(),
            ),
        }
    }

    /// The description `message` returns, as a sequence of characters.
    pub open spec fn spec_message(&self) -> Seq<char> {
        match self {
            StyleSheetLoaderError::Io(d) => "File not found: "@ + d@,
            StyleSheetLoaderError::Utf8(d) => "Invalid file format: "@ + d@,
        }
    }
}

} // verus!
