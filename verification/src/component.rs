//! Host-facing components: the class list a node carries, and the
//! stylesheet reference whose changes drive re-matching.

use crate::text::{
    remove_word, spec_join_ws, spec_split_ws, split_ws, str_eq, join_ws,
};
use vstd::prelude::*;
use vstd::string::*;

verus! {

/// The classes of a node, to be matched by class selectors. As in CSS, a
/// single class name can be given, or several separated by spaces.
#[derive(Debug)]
pub struct Class {
    value: String,
}

impl View for Class {
    type V = Seq<char>;

    closed spec fn view(&self) -> Seq<char> {
        self.value@
    }
}

impl DeepView for Class {
    type V = Seq<char>;

    open spec fn deep_view(&self) -> Seq<char> {
        self.view()
    }
}

impl Clone for Class {
    fn clone(&self) -> (r: Self)
        ensures
            r@ == self@,
    {
        Class { value: self.value.clone() }
    }
}

impl Class {
    /// Creates a class list with the given class names, separated by
    /// spaces.
    pub fn new(class: &str) -> (r: Class)
        ensures
            r@ == class@,
    {
        Class { value: class.to_owned() }
    }

    /// Reads the class list as text.
    pub fn as_str(&self) -> (r: &str)
        ensures
            r@ == self@,
    {
        self.value.as_str()
    }

    /// Whether any of the class names matches the given one.
    pub fn matches(&self, class: &str) -> (r: bool)
        ensures
            r == spec_split_ws(self@).contains(class@),
    {
        let words = split_ws(self.value.as_str());
        let ghost ws = spec_split_ws(self@);
        let mut k: usize = 0;
        while k < words.len()
            invariant
                k <= words.len(),
                words.deep_view() == ws,
                ws == spec_split_ws(self@),
                forall|j: int| 0 <= j < k ==> ws[j] != class@,
            decreases words.len() - k,
        {
            if str_eq(words[k].as_str(), class) {
                proof {
                    assert(ws[k as int] == class@);
                    assert(ws.contains(class@)) by {
                        assert(0 <= k < ws.len() && ws[k as int] == class@);
                    }
                }
                return true;
            }
            k = k + 1;
        }
        proof {
            assert forall|j: int| 0 <= j < ws.len() implies ws[j] != class@ by {}
            if ws.contains(class@) {
                let j = choose|j: int| 0 <= j < ws.len() && ws[j] == class@;
                assert(false);
            }
        }
        false
    }

    /// Appends a class name unless it is already present. Returns whether
    /// the list changed; a change does not by itself re-apply any style
    /// sheet — use [`StyleSheet::refresh`] for that.
    pub fn add_class(&mut self, class: &str) -> (r: bool)
        ensures
            r == !spec_split_ws(old(self)@).contains(class@),
            r ==> final(self)@ == (if old(self)@.len() == 0 {
                class@
            } else {
                old(self)@ + seq![' '] + class@
            }),
            !r ==> final(self)@ == old(self)@,
    {
        if self.matches(class) {
            return false;
        }
        if self.value.as_str().unicode_len() == 0 {
            self.value = class.to_owned();
        } else {
            self.value.append(" ");
            self.value.append(class);
            proof {
                assert(" "@ =~= seq![' ']) by {
                    reveal_strlit(" ");
                }
            }
        }
        true
    }

    /// Removes a class name if it is present. Returns whether the list
    /// changed; the remaining names are re-joined with single spaces.
    pub fn remove_class(&mut self, class: &str) -> (r: bool)
        ensures
            r == spec_split_ws(old(self)@).contains(class@),
            r ==> final(self)@ == spec_join_ws(remove_word(spec_split_ws(old(self)@), class@)),
            !r ==> final(self)@ == old(self)@,
    {
        if !self.matches(class) {
            return false;
        }
        let words = split_ws(self.value.as_str());
        let ghost ws = spec_split_ws(self@);
        let mut kept: Vec<String> = Vec::new();
        let mut k: usize = 0;
        proof {
            assert(kept.deep_view() =~= Seq::<Seq<char>>::empty());
            assert(ws.skip(0) =~= ws);
            assert(kept.deep_view() + remove_word(ws.skip(0), class@) =~= remove_word(ws, class@));
        }
        while k < words.len()
            invariant
                k <= words.len(),
                words.deep_view() == ws,
                kept.deep_view() + remove_word(ws.skip(k as int), class@) == remove_word(
                    ws,
                    class@,
                ),
            decreases words.len() - k,
        {
            proof {
                assert(ws.skip(k as int)[0] == ws[k as int]);
                assert(ws.skip(k as int).drop_first() =~= ws.skip(k + 1));
            }
            let ghost pre = kept.deep_view();
            if !str_eq(words[k].as_str(), class) {
                kept.push(words[k].clone());
                proof {
                    assert(kept.deep_view() =~= pre.push(ws[k as int]));
                    assert(pre.push(ws[k as int]) + remove_word(ws.skip(k + 1), class@) =~= pre + (
                    seq![ws[k as int]] + remove_word(ws.skip(k + 1), class@)));
                }
            }
            k = k + 1;
        }
        proof {
            assert(ws.skip(words.len() as int) =~= Seq::<Seq<char>>::empty());
            assert(remove_word(Seq::<Seq<char>>::empty(), class@) =~= Seq::<Seq<char>>::empty());
            assert(kept.deep_view() + Seq::<Seq<char>>::empty() =~= kept.deep_view());
        }
        self.value = join_ws(&kept, 0);
        true
    }

    /// Replaces the whole class list, as if the component were created
    /// anew. Returns whether the list changed.
    pub fn set_class(&mut self, class: &str) -> (r: bool)
        ensures
            r == (old(self)@ != class@),
            r ==> final(self)@ == class@,
            !r ==> final(self)@ == old(self)@,
    {
        if str_eq(self.value.as_str(), class) {
            return false;
        }
        self.value = class.to_owned();
        true
    }
}

/// Attaches stylesheet assets (by their asset ids) to a node: the rules of
/// those sheets are applied to the node and its whole subtree. The
/// component carries an explicit changed flag that the host consumes each
/// tick; it is set on creation and whenever the reference is touched.
#[derive(Debug)]
pub struct StyleSheet {
    sheets: Vec<u64>,
    changed: bool,
}

impl StyleSheet {
    /// The attached asset ids.
    pub closed spec fn spec_sheets(&self) -> Seq<u64> {
        self.sheets@
    }

    /// Whether a re-match is pending.
    pub closed spec fn spec_changed(&self) -> bool {
        self.changed
    }

    /// Creates a reference to a single stylesheet asset.
    pub fn new(handle: u64) -> (r: StyleSheet)
        ensures
            r.spec_sheets() == seq![handle],
            r.spec_changed(),
    {
        let r = StyleSheet { sheets: vec![handle], changed: true };
        proof {
            assert(r.spec_sheets() =~= seq![handle]);
        }
        r
    }

    /// Creates a reference to several stylesheet assets.
    pub fn from_handles(handles: Vec<u64>) -> (r: StyleSheet)
        ensures
            r.spec_sheets() == handles@,
            r.spec_changed(),
    {
        StyleSheet { sheets: handles, changed: true }
    }

    /// Asks for the style sheet to be re-applied on the node and its whole
    /// subtree at the next tick.
    pub fn refresh(&mut self)
        ensures
            final(self).spec_sheets() == old(self).spec_sheets(),
            final(self).spec_changed(),
    {
        self.changed = true;
    }

    /// The attached asset id, for references holding exactly one.
    pub fn handle(&self) -> (r: u64)
        requires
            self.spec_sheets().len() == 1,
        ensures
            r == self.spec_sheets()[0],
    {
        self.sheets[0]
    }

    /// The attached asset ids.
    pub fn handles(&self) -> (r: &Vec<u64>)
        ensures
            r@ == self.spec_sheets(),
    {
        &self.sheets
    }

    /// Replaces the attached asset, for references holding exactly one;
    /// the style sheet is re-applied at the next tick.
    pub fn set(&mut self, handle: u64)
        requires
            old(self).spec_sheets().len() == 1,
        ensures
            final(self).spec_sheets() == seq![handle],
            final(self).spec_changed(),
    {
        self.sheets = vec![handle];
        self.changed = true;
        proof {
            assert(self.spec_sheets() =~= seq![handle]);
        }
    }

    /// Replaces the attached asset list; the style sheets are re-applied at
    /// the next tick.
    pub fn set_handles(&mut self, handles: Vec<u64>)
        ensures
            final(self).spec_sheets() == handles@,
            final(self).spec_changed(),
    {
        self.sheets = handles;
        self.changed = true;
    }

    /// Consumes the changed flag: returns whether a re-match was pending
    /// and clears it.
    pub fn take_changed(&mut self) -> (r: bool)
        ensures
            r == old(self).spec_changed(),
            final(self).spec_sheets() == old(self).spec_sheets(),
            !final(self).spec_changed(),
    {
        let r = self.changed;
        self.changed = false;
        r
    }

    /// Whether the reference names the given asset.
    pub fn references(&self, id: u64) -> (r: bool)
        ensures
            r == self.spec_sheets().contains(id),
    {
        let mut k: usize = 0;
        while k < self.sheets.len()
            invariant
                k <= self.sheets.len(),
                forall|j: int| 0 <= j < k ==> self.spec_sheets()[j] != id,
            decreases self.sheets.len() - k,
        {
            if self.sheets[k] == id {
                return true;
            }
            k = k + 1;
        }
        proof {
            if self.spec_sheets().contains(id) {
                let j = choose|j: int|
                    0 <= j < self.spec_sheets().len() && self.spec_sheets()[j] == id;
                assert(false);
            }
        }
        false
    }
}

impl PartialEq for StyleSheet {
    fn eq(&self, other: &Self) -> bool {
        let ghost a = self.spec_sheets();
        let ghost b = other.spec_sheets();
        if self.sheets.len() != other.sheets.len() {
            proof {
                assert(a != b);
            }
            return false;
        }
        let mut k: usize = 0;
        while k < self.sheets.len()
            invariant
                k <= self.sheets.len(),
                a == self.spec_sheets(),
                b == other.spec_sheets(),
                a.len() == b.len() == self.sheets.len(),
                forall|j: int| 0 <= j < k ==> a[j] == b[j],
            decreases self.sheets.len() - k,
        {
            if self.sheets[k] != other.sheets[k] {
                proof {
                    assert(a[k as int] != b[k as int]);
                }
                return false;
            }
            k = k + 1;
        }
        proof {
            assert(a =~= b);
        }
        true
    }
}

impl vstd::std_specs::cmp::PartialEqSpecImpl for StyleSheet {
    open spec fn obeys_eq_spec() -> bool {
        true
    }

    open spec fn eq_spec(&self, other: &Self) -> bool {
        self.spec_sheets() == other.spec_sheets()
    }
}

} // verus!
