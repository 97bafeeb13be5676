//! The property resolution cache and the application pass: per stylesheet
//! content hash and selector, the typed value of a property is parsed once
//! and cached — also when parsing failed — and the application pass writes
//! resolved values onto matched nodes in ascending specificity order, so
//! more specific rules win.

use crate::property::PropertyValues;
use crate::selector::Selector;
use crate::stylesheet::{spec_get_properties, StyleSheetAsset};
use crate::system::{SelectedV, StateEntryV, StyleSheetState};
use crate::EcssError;
use vstd::prelude::*;
use vstd::string::*;

verus! {

/// The cache slot of one (stylesheet version, selector, property) triple.
#[derive(Debug)]
pub enum CacheState<T> {
    /// The sheet declares no such property for this selector.
    NotTried,
    /// Parsing succeeded; the value is reused on every application.
    Resolved(T),
    /// Parsing failed; the failure is remembered so it is not retried.
    Failed,
}

/// The per-selector cache bucket of one stylesheet version.
#[derive(Debug)]
pub struct CachedProperties<T> {
    entries: Vec<(u64, CacheState<T>)>,
}

impl<T> View for CachedProperties<T> {
    type V = Seq<(u64, CacheState<T>)>;

    closed spec fn view(&self) -> Seq<(u64, CacheState<T>)> {
        self.entries@
    }
}

/// The first cached state under selector hash `sh`, if any.
pub open spec fn lookup_state<T>(s: Seq<(u64, CacheState<T>)>, sh: u64) -> Option<CacheState<T>>
    decreases s.len(),
{
    if s.len() == 0 {
        None
    } else if s[0].0 == sh {
        Some(s[0].1)
    } else {
        lookup_state(s.drop_first(), sh)
    }
}

impl<T> CachedProperties<T> {
    /// Creates an empty bucket.
    pub fn new() -> (r: CachedProperties<T>)
        ensures
            r@ == Seq::<(u64, CacheState<T>)>::empty(),
    {
        let r = CachedProperties { entries: Vec::new() };
        proof {
            assert(r@ =~= Seq::<(u64, CacheState<T>)>::empty());
        }
        r
    }

    /// Reads the first state cached under the given selector hash.
    pub fn get_state(&self, sh: u64) -> (r: Option<&CacheState<T>>)
        ensures
            match r {
                Some(st) => lookup_state(self@, sh) == Some(*st),
                None => lookup_state(self@, sh) is None,
            },
    {
        let ghost s = self@;
        let mut j: usize = 0;
        proof {
            assert(s.skip(0) =~= s);
        }
        while j < self.entries.len()
            invariant
                j <= self.entries.len(),
                s == self@,
                s.len() == self.entries.len(),
                lookup_state(s.skip(j as int), sh) == lookup_state(s, sh),
            decreases self.entries.len() - j,
        {
            proof {
                assert(s.skip(j as int)[0] == s[j as int]);
                assert(s.skip(j as int).drop_first() =~= s.skip(j + 1));
            }
            if self.entries[j].0 == sh {
                return Some(&self.entries[j].1);
            }
            j = j + 1;
        }
        proof {
            assert(s.skip(s.len() as int) =~= Seq::<(u64, CacheState<T>)>::empty());
        }
        None
    }

    /// Appends one state.
    pub fn push_state(&mut self, sh: u64, st: CacheState<T>)
        ensures
            final(self)@ == old(self)@.push((sh, st)),
    {
        self.entries.push((sh, st));
    }
}

/// The mathematical shape of a property's cache: per stylesheet content
/// hash, per selector hash, the cached state.
pub type MetaV<T> = Seq<(u64, Seq<(u64, CacheState<T>)>)>;

/// The cache of one property: stylesheet content hash to bucket. A bucket
/// of a superseded content hash is simply never consulted again.
#[derive(Debug)]
pub struct PropertyMeta<T> {
    buckets: Vec<(u64, CachedProperties<T>)>,
}

impl<T> View for PropertyMeta<T> {
    type V = MetaV<T>;

    closed spec fn view(&self) -> MetaV<T> {
        Seq::new(self.buckets@.len(), |i: int| (self.buckets@[i].0, self.buckets@[i].1@))
    }
}

/// The cached state of `(h, sh)`, if any: the first bucket of hash `h`
/// decides.
pub open spec fn meta_lookup<T>(m: MetaV<T>, h: u64, sh: u64) -> Option<CacheState<T>>
    decreases m.len(),
{
    if m.len() == 0 {
        None
    } else if m[0].0 == h {
        lookup_state(m[0].1, sh)
    } else {
        meta_lookup(m.drop_first(), h, sh)
    }
}

/// The cache after storing `st` under `(h, sh)`: appended to the first
/// bucket of hash `h`, or in a fresh bucket at the end.
pub open spec fn meta_store<T>(m: MetaV<T>, h: u64, sh: u64, st: CacheState<T>) -> MetaV<T>
    decreases m.len(),
{
    if m.len() == 0 {
        seq![(h, seq![(sh, st)])]
    } else if m[0].0 == h {
        seq![(h, m[0].1.push((sh, st)))] + m.drop_first()
    } else {
        seq![m[0]] + meta_store(m.drop_first(), h, sh, st)
    }
}

/// Storing never disturbs an existing entry: every pair already cached
/// reads the same afterwards.
pub proof fn lemma_store_preserves<T>(m: MetaV<T>, h: u64, sh: u64, st: CacheState<T>, h2: u64, sh2: u64)
    requires
        meta_lookup(m, h2, sh2) is Some,
    ensures
        meta_lookup(meta_store(m, h, sh, st), h2, sh2) == meta_lookup(m, h2, sh2),
    decreases m.len(),
{
    if m.len() == 0 {
    } else if m[0].0 == h {
        let r = meta_store(m, h, sh, st);
        assert(r[0] == (h, m[0].1.push((sh, st))));
        assert(r.drop_first() =~= m.drop_first());
        if h2 == h {
            lemma_lookup_state_push(m[0].1, sh, st, sh2);
        }
    } else {
        let r = meta_store(m, h, sh, st);
        assert(r[0] == m[0]);
        assert(r.drop_first() =~= meta_store(m.drop_first(), h, sh, st));
        if h2 != m[0].0 {
            lemma_store_preserves(m.drop_first(), h, sh, st, h2, sh2);
        }
    }
}

/// Appending to a bucket keeps every existing first match.
proof fn lemma_lookup_state_push<T>(s: Seq<(u64, CacheState<T>)>, sh: u64, st: CacheState<T>, sh2: u64)
    requires
        lookup_state(s, sh2) is Some,
    ensures
        lookup_state(s.push((sh, st)), sh2) == lookup_state(s, sh2),
    decreases s.len(),
{
    if s.len() == 0 {
    } else if s[0].0 == sh2 {
        assert(s.push((sh, st))[0] == s[0]);
    } else {
        assert(s.push((sh, st)).drop_first() =~= s.drop_first().push((sh, st)));
        lemma_lookup_state_push(s.drop_first(), sh, st, sh2);
    }
}

/// Storing a missing entry makes it readable.
pub proof fn lemma_store_lookup<T>(m: MetaV<T>, h: u64, sh: u64, st: CacheState<T>)
    requires
        meta_lookup(m, h, sh) is None,
    ensures
        meta_lookup(meta_store(m, h, sh, st), h, sh) == Some(st),
    decreases m.len(),
{
    if m.len() == 0 {
        let r = meta_store(m, h, sh, st);
        assert(r[0] == (h, seq![(sh, st)]));
        assert(lookup_state(seq![(sh, st)], sh) == Some(st));
    } else if m[0].0 == h {
        let r = meta_store(m, h, sh, st);
        assert(r[0] == (h, m[0].1.push((sh, st))));
        lemma_lookup_state_push_missing(m[0].1, sh, st);
    } else {
        let r = meta_store(m, h, sh, st);
        assert(r[0] == m[0]);
        assert(r.drop_first() =~= meta_store(m.drop_first(), h, sh, st));
        lemma_store_lookup(m.drop_first(), h, sh, st);
    }
}

/// Appending a missing key makes it the first match.
proof fn lemma_lookup_state_push_missing<T>(s: Seq<(u64, CacheState<T>)>, sh: u64, st: CacheState<T>)
    requires
        lookup_state(s, sh) is None,
    ensures
        lookup_state(s.push((sh, st)), sh) == Some(st),
    decreases s.len(),
{
    if s.len() == 0 {
        assert(s.push((sh, st))[0] == (sh, st));
    } else {
        assert(s.push((sh, st))[0] == s[0]);
        assert(s.push((sh, st)).drop_first() =~= s.drop_first().push((sh, st)));
        lemma_lookup_state_push_missing(s.drop_first(), sh, st);
    }
}

/// Cache `m2` extends `m1`: every pair cached in `m1` reads the same in
/// `m2`.
pub open spec fn meta_extends<T>(m1: MetaV<T>, m2: MetaV<T>) -> bool {
    forall|h: u64, sh: u64|
        (#[trigger] meta_lookup(m1, h, sh)) is Some ==> meta_lookup(m2, h, sh) == meta_lookup(
            m1,
            h,
            sh,
        )
}

/// Extension is transitive.
pub proof fn lemma_extends_trans<T>(m1: MetaV<T>, m2: MetaV<T>, m3: MetaV<T>)
    requires
        meta_extends(m1, m2),
        meta_extends(m2, m3),
    ensures
        meta_extends(m1, m3),
{
    assert forall|h: u64, sh: u64| (#[trigger] meta_lookup(m1, h, sh)) is Some implies meta_lookup(
        m3,
        h,
        sh,
    ) == meta_lookup(m1, h, sh) by {
        assert(meta_lookup(m2, h, sh) == meta_lookup(m1, h, sh));
    }
}

/// A store extends the cache.
pub proof fn lemma_store_extends<T>(m: MetaV<T>, h: u64, sh: u64, st: CacheState<T>)
    ensures
        meta_extends(m, meta_store(m, h, sh, st)),
{
    assert forall|h2: u64, sh2: u64| (#[trigger] meta_lookup(m, h2, sh2)) is Some implies
        meta_lookup(meta_store(m, h, sh, st), h2, sh2) == meta_lookup(m, h2, sh2) by {
        lemma_store_preserves(m, h, sh, st, h2, sh2);
    }
}

impl<T> PropertyMeta<T> {
    /// Creates an empty cache.
    pub fn new() -> (r: PropertyMeta<T>)
        ensures
            r@ == Seq::<(u64, Seq<(u64, CacheState<T>)>)>::empty(),
    {
        let r = PropertyMeta { buckets: Vec::new() };
        proof {
            assert(r@ =~= Seq::<(u64, Seq<(u64, CacheState<T>)>)>::empty());
        }
        r
    }

    /// Reads the cached state of `(h, sh)`, if any.
    pub fn lookup(&self, h: u64, sh: u64) -> (r: Option<&CacheState<T>>)
        ensures
            match r {
                Some(st) => meta_lookup(self@, h, sh) == Some(*st),
                None => meta_lookup(self@, h, sh) is None,
            },
    {
        let ghost m = self@;
        let mut j: usize = 0;
        proof {
            assert(m.skip(0) =~= m);
        }
        while j < self.buckets.len()
            invariant
                j <= self.buckets.len(),
                m == self@,
                m.len() == self.buckets@.len(),
                meta_lookup(m.skip(j as int), h, sh) == meta_lookup(m, h, sh),
            decreases self.buckets.len() - j,
        {
            proof {
                assert(m.skip(j as int)[0] == m[j as int]);
                assert(m.skip(j as int).drop_first() =~= m.skip(j + 1));
            }
            if self.buckets[j].0 == h {
                proof {
                    assert(m[j as int].1 == self.buckets@[j as int].1@);
                }
                return self.buckets[j].1.get_state(sh);
            }
            j = j + 1;
        }
        proof {
            assert(m.skip(m.len() as int) =~= Seq::<(u64, Seq<(u64, CacheState<T>)>)>::empty());
        }
        None
    }

    /// Stores `st` under `(h, sh)`.
    #[verifier::loop_isolation(false)]
    fn store(&mut self, h: u64, sh: u64, st: CacheState<T>)
        ensures
            final(self)@ == meta_store(old(self)@, h, sh, st),
    {
        let ghost pre = self@;
        let n = self.buckets.len();
        let mut j: usize = 0;
        while j < n
            invariant
                n == self.buckets.len(),
                j <= n,
                self@ == pre,
                forall|k: int| 0 <= k < j ==> pre[k].0 != h,
            decreases n - j,
        {
            if self.buckets[j].0 == h {
                let ghost pb = self.buckets@;
                let mut entry = self.buckets.remove(j);
                let ghost bucket_pre = entry.1@;
                entry.1.push_state(sh, st);
                self.buckets.insert(j, entry);
                proof {
                    assert(pre[j as int].0 == h);
                    lemma_meta_store_at(pre, j as int, h, sh, st);
                    assert(self.buckets@ =~= pb.update(j as int, self.buckets@[j as int]));
                    assert(self.buckets@[j as int].1@ == bucket_pre.push((sh, st)));
                    assert(bucket_pre == pre[j as int].1);
                    let target = pre.subrange(0, j as int) + seq![
                        (h, pre[j as int].1.push((sh, st))),
                    ] + pre.subrange(j + 1, pre.len() as int);
                    assert forall|k: int| 0 <= k < pre.len() implies self@[k] == target[k] by {
                        if k < j {
                            assert(self.buckets@[k] == pb[k]);
                        } else if k > j {
                            assert(self.buckets@[k] == pb[k]);
                        }
                    }
                    assert(self@ =~= target);
                }
                return ;
            }
            j = j + 1;
        }
        let mut bucket: CachedProperties<T> = CachedProperties::new();
        bucket.push_state(sh, st);
        let ghost bv = bucket@;
        let ghost pb = self.buckets@;
        self.buckets.push((h, bucket));
        proof {
            assert(bv =~= seq![(sh, st)]);
            lemma_meta_store_fresh(pre, h, sh, st);
            assert(self.buckets@[pre.len() as int].1@ == bv);
            assert forall|k: int| 0 <= k < self@.len() implies self@[k] == pre.push(
                (h, seq![(sh, st)]),
            )[k] by {
                if k < pre.len() {
                    assert(self.buckets@[k] == pb[k]);
                }
            }
            assert(self@ =~= pre.push((h, seq![(sh, st)])));
        }
    }
}

/// Replacing the first bucket of hash `h` at position `j` is what
/// [`meta_store`] does when the earlier buckets carry other hashes.
proof fn lemma_meta_store_at<T>(m: MetaV<T>, j: int, h: u64, sh: u64, st: CacheState<T>)
    requires
        0 <= j < m.len(),
        m[j].0 == h,
        forall|k: int| 0 <= k < j ==> m[k].0 != h,
    ensures
        meta_store(m, h, sh, st) == m.subrange(0, j) + seq![(h, m[j].1.push((sh, st)))]
            + m.subrange(j + 1, m.len() as int),
    decreases j,
{
    if j == 0 {
        assert(meta_store(m, h, sh, st) =~= m.subrange(0, 0) + seq![(h, m[0].1.push((sh, st)))]
            + m.subrange(1, m.len() as int));
    } else {
        lemma_meta_store_at(m.drop_first(), j - 1, h, sh, st);
        assert(m.drop_first().subrange(0, j - 1) =~= m.subrange(1, j));
        assert(m.drop_first().subrange(j, m.len() - 1) =~= m.subrange(j + 1, m.len() as int));
        assert(m.drop_first()[j - 1] == m[j]);
        assert(meta_store(m, h, sh, st) =~= m.subrange(0, j) + seq![(h, m[j].1.push((sh, st)))]
            + m.subrange(j + 1, m.len() as int));
    }
}

/// Appending a fresh bucket is what [`meta_store`] does when no bucket
/// carries the hash.
proof fn lemma_meta_store_fresh<T>(m: MetaV<T>, h: u64, sh: u64, st: CacheState<T>)
    requires
        forall|k: int| 0 <= k < m.len() ==> (#[trigger] m[k]).0 != h,
    ensures
        meta_store(m, h, sh, st) == m.push((h, seq![(sh, st)])),
    decreases m.len(),
{
    if m.len() == 0 {
        assert(meta_store(m, h, sh, st) =~= m.push((h, seq![(sh, st)])));
    } else {
        assert(forall|k: int|
            0 <= k < m.drop_first().len() ==> (#[trigger] m.drop_first()[k]).0 != h);
        lemma_meta_store_fresh(m.drop_first(), h, sh, st);
        assert(meta_store(m, h, sh, st) =~= m.push((h, seq![(sh, st)])));
    }
}

/// A property handler: the property name it answers to, and how its raw
/// value tokens parse into the typed value the host applies. Hosts
/// implement this trait once per supported property.
pub trait Property {
    /// The parsed, cached value type.
    type Cache;

    /// The property name, as a character sequence. Verified handlers
    /// override it to match their `name`; it defaults to the empty name.
    open spec fn spec_name() -> Seq<char> {
        Seq::empty()
    }

    /// The property name matched against declarations; lower-case and
    /// kebab-case by convention.
    fn name() -> (r: &'static str)
        ensures
            r@ == Self::spec_name(),
    ;

    /// Parses the declared value tokens into the cached value, or fails.
    fn parse(values: &PropertyValues) -> Result<Self::Cache, EcssError>;
}

/// Resolves the cached state of one (stylesheet version, selector) pair
/// for property `P`, parsing on first use.
///
/// Resolution happens at most once per pair: when the cache already holds
/// an entry, the cache is left untouched and `P::parse` is not consulted —
/// in particular, a handler whose parse always fails is invoked at most
/// once per pair within one content-hash epoch. When the entry is missing,
/// exactly one state is stored: [`CacheState::NotTried`] exactly when the
/// sheet has no such declaration, otherwise the parse outcome.
pub fn get_or_parse<P: Property>(
    meta: &mut PropertyMeta<P::Cache>,
    sheet: &StyleSheetAsset,
    selector: &Selector,
)
    requires
        sheet.wf(),
    ensures
        meta_lookup(old(meta)@, sheet.spec_hash(), selector.spec_hash()) is Some ==> final(meta)@
            == old(meta)@,
        meta_lookup(old(meta)@, sheet.spec_hash(), selector.spec_hash()) is None ==> exists|
            st: CacheState<P::Cache>,
        |
            {
                &&& final(meta)@ == meta_store(
                    old(meta)@,
                    sheet.spec_hash(),
                    selector.spec_hash(),
                    st,
                )
                &&& (spec_get_properties(
                    sheet.spec_rules(),
                    selector.spec_hash(),
                    P::spec_name(),
                ) is None <==> st is NotTried)
                &&& (st matches CacheState::Resolved(v) ==> exists|vals: PropertyValues|
                    Some(vals.deep_view()) == spec_get_properties(
                        sheet.spec_rules(),
                        selector.spec_hash(),
                        P::spec_name(),
                    ) && #[trigger] call_ensures(P::parse, (&vals,), Ok(v)))
                &&& (st is Failed ==> exists|vals: PropertyValues, e: EcssError|
                    Some(vals.deep_view()) == spec_get_properties(
                        sheet.spec_rules(),
                        selector.spec_hash(),
                        P::spec_name(),
                    ) && #[trigger] call_ensures(P::parse, (&vals,), Err(e)))
            },
        meta_lookup(final(meta)@, sheet.spec_hash(), selector.spec_hash()) is Some,
        meta_extends(old(meta)@, final(meta)@),
{
    let h = sheet.hash();
    let sh = selector.hash();
    let present = match meta.lookup(h, sh) {
        Some(_) => true,
        None => false,
    };
    if present {
        proof {
            assert(meta_extends(meta@, meta@));
        }
        return ;
    }
    let ghost pre = meta@;
    let ghost rules_props = spec_get_properties(
        sheet.spec_rules(),
        selector.spec_hash(),
        P::spec_name(),
    );
    match sheet.get_properties(selector, P::name()) {
        Some(values) => {
            let ghost vv = *values;
            let outcome = P::parse(values);
            let ghost oc = outcome;
            let st: CacheState<P::Cache> = match outcome {
                Ok(c) => CacheState::Resolved(c),
                Err(_) => CacheState::Failed,
            };
            let ghost stv = st;
            meta.store(h, sh, st);
            proof {
                lemma_store_lookup(pre, h, sh, stv);
                lemma_store_extends(pre, h, sh, stv);
                assert(call_ensures(P::parse, (&vv,), oc));
                assert(Some(vv.deep_view()) == rules_props);
                match stv {
                    CacheState::Resolved(v) => {
                        assert(oc == Ok::<P::Cache, EcssError>(v));
                        assert(call_ensures(P::parse, (&vv,), Ok::<P::Cache, EcssError>(v)));
                    },
                    CacheState::Failed => {
                        assert(oc is Err);
                    },
                    CacheState::NotTried => {
                        assert(false);
                    },
                }
            }
        },
        None => {
            let st: CacheState<P::Cache> = CacheState::NotTried;
            let ghost stv = st;
            meta.store(h, sh, st);
            proof {
                lemma_store_lookup(pre, h, sh, stv);
                lemma_store_extends(pre, h, sh, stv);
            }
        },
    }
}

// ---------------------------------------------------------------------------
// Applied values
// ---------------------------------------------------------------------------

/// The map after writing `v` under node `id`: an existing entry is replaced
/// in place, a fresh node is appended.
pub open spec fn set_applied<T>(s: Seq<(u64, T)>, id: u64, v: T) -> Seq<(u64, T)>
    decreases s.len(),
{
    if s.len() == 0 {
        seq![(id, v)]
    } else if s[0].0 == id {
        seq![(id, v)] + s.drop_first()
    } else {
        seq![s[0]] + set_applied(s.drop_first(), id, v)
    }
}

/// The value written under node `id`, if any: the first entry decides.
pub open spec fn lookup_applied<T>(s: Seq<(u64, T)>, id: u64) -> Option<T>
    decreases s.len(),
{
    if s.len() == 0 {
        None
    } else if s[0].0 == id {
        Some(s[0].1)
    } else {
        lookup_applied(s.drop_first(), id)
    }
}

/// The sink of one property's application pass: per node, the value that
/// ended up applied. The host consumes it after each tick.
#[derive(Debug)]
pub struct AppliedValues<T> {
    entries: Vec<(u64, T)>,
}

impl<T> View for AppliedValues<T> {
    type V = Seq<(u64, T)>;

    closed spec fn view(&self) -> Seq<(u64, T)> {
        self.entries@
    }
}

impl<T> AppliedValues<T> {
    /// Creates an empty sink.
    pub fn new() -> (r: AppliedValues<T>)
        ensures
            r@ == Seq::<(u64, T)>::empty(),
    {
        let r = AppliedValues { entries: Vec::new() };
        proof {
            assert(r@ =~= Seq::<(u64, T)>::empty());
        }
        r
    }

    /// How many nodes have applied values.
    pub fn len(&self) -> (r: usize)
        ensures
            r == self@.len(),
    {
        self.entries.len()
    }

    /// Reads the value applied to the given node, if any.
    pub fn get(&self, id: u64) -> (r: Option<&T>)
        ensures
            match r {
                Some(v) => lookup_applied(self@, id) == Some(*v),
                None => lookup_applied(self@, id) is None,
            },
    {
        let ghost s = self@;
        let mut j: usize = 0;
        proof {
            assert(s.skip(0) =~= s);
        }
        while j < self.entries.len()
            invariant
                j <= self.entries.len(),
                s == self@,
                s.len() == self.entries.len(),
                lookup_applied(s.skip(j as int), id) == lookup_applied(s, id),
            decreases self.entries.len() - j,
        {
            proof {
                assert(s.skip(j as int)[0] == s[j as int]);
                assert(s.skip(j as int).drop_first() =~= s.skip(j + 1));
            }
            if self.entries[j].0 == id {
                return Some(&self.entries[j].1);
            }
            j = j + 1;
        }
        proof {
            assert(s.skip(s.len() as int) =~= Seq::<(u64, T)>::empty());
        }
        None
    }

    /// Writes `v` under node `id`, replacing an earlier value.
    #[verifier::loop_isolation(false)]
    pub fn set(&mut self, id: u64, v: T)
        ensures
            final(self)@ == set_applied(old(self)@, id, v),
    {
        let ghost pre = self@;
        let n = self.entries.len();
        let mut j: usize = 0;
        while j < n
            invariant
                n == self.entries.len(),
                j <= n,
                self@ == pre,
                forall|k: int| 0 <= k < j ==> pre[k].0 != id,
            decreases n - j,
        {
            if self.entries[j].0 == id {
                let ghost pe = self.entries@;
                self.entries.remove(j);
                self.entries.insert(j, (id, v));
                proof {
                    lemma_set_applied_at(pre, j as int, id, self.entries@[j as int].1);
                    let target = pre.subrange(0, j as int) + seq![self.entries@[j as int]]
                        + pre.subrange(j + 1, pre.len() as int);
                    assert forall|k: int| 0 <= k < pre.len() implies self@[k] == target[k] by {
                        if k < j {
                            assert(self.entries@[k] == pe[k]);
                        } else if k > j {
                            assert(self.entries@[k] == pe[k]);
                        }
                    }
                    assert(self@ =~= target);
                }
                return ;
            }
            j = j + 1;
        }
        self.entries.push((id, v));
        proof {
            lemma_set_applied_fresh(pre, id, self.entries@[pre.len() as int].1);
            assert(self@ =~= pre.push(self.entries@[pre.len() as int]));
        }
    }
}

/// Replacing the entry of node `id` at position `j` is what [`set_applied`]
/// does when the earlier entries concern other nodes.
proof fn lemma_set_applied_at<T>(s: Seq<(u64, T)>, j: int, id: u64, v: T)
    requires
        0 <= j < s.len(),
        s[j].0 == id,
        forall|k: int| 0 <= k < j ==> s[k].0 != id,
    ensures
        set_applied(s, id, v) == s.subrange(0, j) + seq![(id, v)] + s.subrange(
            j + 1,
            s.len() as int,
        ),
    decreases j,
{
    if j == 0 {
        assert(set_applied(s, id, v) =~= s.subrange(0, 0) + seq![(id, v)] + s.subrange(
            1,
            s.len() as int,
        ));
    } else {
        lemma_set_applied_at(s.drop_first(), j - 1, id, v);
        assert(s.drop_first().subrange(0, j - 1) =~= s.subrange(1, j));
        assert(s.drop_first().subrange(j, s.len() - 1) =~= s.subrange(j + 1, s.len() as int));
        assert(set_applied(s, id, v) =~= s.subrange(0, j) + seq![(id, v)] + s.subrange(
            j + 1,
            s.len() as int,
        ));
    }
}

/// Appending is what [`set_applied`] does when no entry concerns the node.
proof fn lemma_set_applied_fresh<T>(s: Seq<(u64, T)>, id: u64, v: T)
    requires
        forall|k: int| 0 <= k < s.len() ==> (#[trigger] s[k]).0 != id,
    ensures
        set_applied(s, id, v) == s.push((id, v)),
    decreases s.len(),
{
    if s.len() == 0 {
        assert(set_applied(s, id, v) =~= s.push((id, v)));
    } else {
        assert(forall|k: int|
            0 <= k < s.drop_first().len() ==> (#[trigger] s.drop_first()[k]).0 != id);
        lemma_set_applied_fresh(s.drop_first(), id, v);
        assert(set_applied(s, id, v) =~= s.push((id, v)));
    }
}

// ---------------------------------------------------------------------------
// Application
// ---------------------------------------------------------------------------

/// The sink after writing `v` onto the nodes of `ids`, from position `j`
/// on.
pub open spec fn apply_ids<T>(ids: Seq<u64>, j: nat, v: T, out: Seq<(u64, T)>) -> Seq<(u64, T)>
    decreases ids.len() - j,
{
    if j >= ids.len() {
        out
    } else {
        apply_ids(ids, j + 1, v, set_applied(out, ids[j as int], v))
    }
}

/// The sink after applying the selection entries of one sheet from position
/// `k` on, reading the property's cache `M` under the sheet's content hash
/// `h`: each entry whose selector resolved to a value writes that value
/// onto all its matched nodes; later entries overwrite earlier ones.
pub open spec fn spec_apply_selected<T>(
    M: MetaV<T>,
    h: u64,
    sel: SelectedV,
    k: nat,
    out: Seq<(u64, T)>,
) -> Seq<(u64, T)>
    decreases sel.len() - k,
{
    if k >= sel.len() {
        out
    } else {
        let out2 = match meta_lookup(M, h, crate::system::selector_hash_of(sel[k as int].0)) {
            Some(st) => match st {
                CacheState::Resolved(v) => apply_ids(sel[k as int].1, 0, v, out),
                _ => out,
            },
            None => out,
        };
        spec_apply_selected(M, h, sel, k + 1, out2)
    }
}

/// The first asset with the given id, if any.
pub open spec fn spec_find_asset(assets: Seq<(u64, StyleSheetAsset)>, id: u64) -> Option<
    StyleSheetAsset,
>
    decreases assets.len(),
{
    if assets.len() == 0 {
        None
    } else if assets[0].0 == id {
        Some(assets[0].1)
    } else {
        spec_find_asset(assets.drop_first(), id)
    }
}

/// The sink after applying every state entry from position `k` on: each
/// entry whose sheet is found among the assets applies its selection list
/// under that sheet's content hash.
pub open spec fn spec_apply_state<T>(
    M: MetaV<T>,
    assets: Seq<(u64, StyleSheetAsset)>,
    state: Seq<StateEntryV>,
    k: nat,
    out: Seq<(u64, T)>,
) -> Seq<(u64, T)>
    decreases state.len() - k,
{
    if k >= state.len() {
        out
    } else {
        let out2 = match spec_find_asset(assets, state[k as int].0) {
            Some(a) => spec_apply_selected(M, a.spec_hash(), state[k as int].2, 0, out),
            None => out,
        };
        spec_apply_state(M, assets, state, k + 1, out2)
    }
}

/// Every selector of every found state entry before position `k` has a
/// cache entry in `M`.
pub open spec fn state_resolved<T>(
    M: MetaV<T>,
    assets: Seq<(u64, StyleSheetAsset)>,
    state: Seq<StateEntryV>,
    k: nat,
) -> bool {
    forall|k2: int|
        0 <= k2 < k <= state.len() ==> (match spec_find_asset(assets, (#[trigger] state[k2]).0) {
            Some(a) => forall|j: int|
                0 <= j < state[k2].2.len() ==> meta_lookup(
                    M,
                    a.spec_hash(),
                    crate::system::selector_hash_of((#[trigger] state[k2].2[j]).0),
                ) is Some,
            None => true,
        })
}

/// Resolution status survives cache extension.
proof fn lemma_state_resolved_extends<T>(
    m1: MetaV<T>,
    m2: MetaV<T>,
    assets: Seq<(u64, StyleSheetAsset)>,
    state: Seq<StateEntryV>,
    k: nat,
)
    requires
        meta_extends(m1, m2),
        state_resolved(m1, assets, state, k),
    ensures
        state_resolved(m2, assets, state, k),
{
    assert forall|k2: int| 0 <= k2 < k <= state.len() implies (match spec_find_asset(
        assets,
        (#[trigger] state[k2]).0,
    ) {
        Some(a) => forall|j: int|
            0 <= j < state[k2].2.len() ==> meta_lookup(
                m2,
                a.spec_hash(),
                crate::system::selector_hash_of((#[trigger] state[k2].2[j]).0),
            ) is Some,
        None => true,
    }) by {
        match spec_find_asset(assets, state[k2].0) {
            Some(a) => {
                assert forall|j: int| 0 <= j < state[k2].2.len() implies meta_lookup(
                    m2,
                    a.spec_hash(),
                    crate::system::selector_hash_of((#[trigger] state[k2].2[j]).0),
                ) is Some by {
                    assert(meta_lookup(
                        m1,
                        a.spec_hash(),
                        crate::system::selector_hash_of(state[k2].2[j].0),
                    ) is Some);
                }
            },
            None => {},
        }
    }
}

/// Finds the first asset with the given id.
fn find_asset<'a>(assets: &'a Vec<(u64, StyleSheetAsset)>, id: u64) -> (r: Option<
    &'a StyleSheetAsset,
>)
    ensures
        match r {
            Some(a) => spec_find_asset(assets@, id) == Some(*a),
            None => spec_find_asset(assets@, id) is None,
        },
        (forall|i: int| 0 <= i < assets@.len() ==> (#[trigger] assets@[i]).1.wf()) ==> (
        r matches Some(a) ==> a.wf()),
{
    let ghost av = assets@;
    let mut k: usize = 0;
    proof {
        assert(av.skip(0) =~= av);
    }
    while k < assets.len()
        invariant
            k <= assets.len(),
            av == assets@,
            spec_find_asset(av.skip(k as int), id) == spec_find_asset(av, id),
        decreases assets.len() - k,
    {
        proof {
            assert(av.skip(k as int)[0] == av[k as int]);
            assert(av.skip(k as int).drop_first() =~= av.skip(k + 1));
        }
        if assets[k].0 == id {
            return Some(&assets[k].1);
        }
        k = k + 1;
    }
    proof {
        assert(av.skip(av.len() as int) =~= Seq::<(u64, StyleSheetAsset)>::empty());
    }
    None
}

/// One property's application pass over the whole engine state: resolves
/// the property once per (sheet version, selector) pair, then writes every
/// resolved value onto its matched nodes, entry by entry and — inside one
/// entry — in ascending specificity order, so more specific rules
/// overwrite less specific ones.
#[verifier::loop_isolation(false)]
pub fn apply_property_system<P: Property>(
    meta: &mut PropertyMeta<P::Cache>,
    assets: &Vec<(u64, StyleSheetAsset)>,
    state: &StyleSheetState,
    out: &mut AppliedValues<P::Cache>,
) where P::Cache: Copy
    requires
        state.wf(),
        forall|i: int| 0 <= i < assets@.len() ==> (#[trigger] assets@[i]).1.wf(),
    ensures
        meta_extends(old(meta)@, final(meta)@),
        state_resolved(final(meta)@, assets@, state@, state@.len()),
        final(out)@ == spec_apply_state(final(meta)@, assets@, state@, 0, old(out)@),
{
    let ghost sv = state@;
    let n = state.len();
    // First pass: resolve every (sheet, selector) pair once.
    let mut k: usize = 0;
    proof {
        assert(meta_extends(meta@, meta@));
    }
    while k < n
        invariant
            k <= n,
            n == sv.len(),
            meta_extends(old(meta)@, meta@),
            state_resolved(meta@, assets@, sv, k as nat),
        decreases n - k,
    {
        let (id, _watched, selected) = state.entry_at(k);
        match find_asset(assets, id) {
            Some(sheet) => {
                let ns = selected.len();
                let mut j: usize = 0;
                while j < ns
                    invariant
                        j <= ns,
                        k < n,
                        n == sv.len(),
                        ns == sv[k as int].2.len(),
                        selected.wf(),
                        selected@ == sv[k as int].2,
                        sheet.wf(),
                        spec_find_asset(assets@, sv[k as int].0) == Some(*sheet),
                        meta_extends(old(meta)@, meta@),
                        state_resolved(meta@, assets@, sv, k as nat),
                        forall|j2: int|
                            0 <= j2 < j ==> meta_lookup(
                                meta@,
                                sheet.spec_hash(),
                                crate::system::selector_hash_of(
                                    (#[trigger] sv[k as int].2[j2]).0,
                                ),
                            ) is Some,
                    decreases ns - j,
                {
                    let ghost m_pre = meta@;
                    let (sel, _ids) = selected.entry_at(j);
                    get_or_parse::<P>(meta, sheet, sel);
                    proof {
                        lemma_extends_trans(old(meta)@, m_pre, meta@);
                        lemma_state_resolved_extends(m_pre, meta@, assets@, sv, k as nat);
                        assert forall|j2: int| 0 <= j2 < j + 1 implies meta_lookup(
                            meta@,
                            sheet.spec_hash(),
                            crate::system::selector_hash_of((#[trigger] sv[k as int].2[j2]).0),
                        ) is Some by {
                            if j2 < j {
                                assert(meta_lookup(
                                    m_pre,
                                    sheet.spec_hash(),
                                    crate::system::selector_hash_of(sv[k as int].2[j2].0),
                                ) is Some);
                            } else {
                                assert(sel.spec_hash() == crate::system::selector_hash_of(
                                    sv[k as int].2[j2].0,
                                ));
                            }
                        }
                    }
                    j = j + 1;
                }
                proof {
                    assert(state_resolved(meta@, assets@, sv, (k + 1) as nat));
                }
            },
            None => {
                proof {
                    assert(state_resolved(meta@, assets@, sv, (k + 1) as nat));
                }
            },
        }
        k = k + 1;
    }
    // Second pass: the cache is complete; write the resolved values out.
    let ghost m_final = meta@;
    let mut k2: usize = 0;
    proof {
        assert(spec_apply_state(m_final, assets@, sv, 0, out@) == spec_apply_state(
            m_final,
            assets@,
            sv,
            0,
            old(out)@,
        ));
    }
    while k2 < n
        invariant
            k2 <= n,
            n == sv.len(),
            meta@ == m_final,
            spec_apply_state(m_final, assets@, sv, k2 as nat, out@) == spec_apply_state(
                m_final,
                assets@,
                sv,
                0,
                old(out)@,
            ),
        decreases n - k2,
    {
        let (id, _watched, selected) = state.entry_at(k2);
        match find_asset(assets, id) {
            Some(sheet) => {
                let h = sheet.hash();
                let ghost out_entry = out@;
                let ghost selv = sv[k2 as int].2;
                let ns = selected.len();
                let mut j: usize = 0;
                while j < ns
                    invariant
                        j <= ns,
                        k2 < n,
                        n == sv.len(),
                        ns == selv.len(),
                        selv == sv[k2 as int].2,
                        selected.wf(),
                        selected@ == selv,
                        meta@ == m_final,
                        h == sheet.spec_hash(),
                        spec_apply_selected(m_final, h, selv, j as nat, out@)
                            == spec_apply_selected(m_final, h, selv, 0, out_entry),
                    decreases ns - j,
                {
                    let (sel, ids) = selected.entry_at(j);
                    let ghost out_j = out@;
                    match meta.lookup(h, sel.hash()) {
                        Some(st) => match st {
                            CacheState::Resolved(v) => {
                                let value = *v;
                                let ghost ids_v = selv[j as int].1;
                                proof {
                                    assert(ids@ == ids_v);
                                }
                                let nq = ids.len();
                                let mut q: usize = 0;
                                while q < nq
                                    invariant
                                        q <= nq,
                                        nq == ids_v.len(),
                                        ids@ == ids_v,
                                        apply_ids(ids_v, q as nat, value, out@) == apply_ids(
                                            ids_v,
                                            0,
                                            value,
                                            out_j,
                                        ),
                                    decreases nq - q,
                                {
                                    out.set(ids[q], value);
                                    q = q + 1;
                                }
                            },
                            _ => {},
                        },
                        None => {},
                    }
                    j = j + 1;
                }
            },
            None => {},
        }
        k2 = k2 + 1;
    }
    proof {
        assert(spec_apply_state(m_final, assets@, sv, sv.len(), out@) == out@);
    }
}

// ---------------------------------------------------------------------------
// Laws of application order
// ---------------------------------------------------------------------------

/// Whether entry `k` of a selection list writes node `n`: its selector
/// resolved to a value and its matched set holds `n`.
pub open spec fn writes_node<T>(M: MetaV<T>, h: u64, sel: SelectedV, k: int, n: u64) -> bool {
    &&& 0 <= k < sel.len()
    &&& meta_lookup(M, h, crate::system::selector_hash_of(sel[k].0)) matches Some(st) && st
        is Resolved
    &&& sel[k].1.contains(n)
}

/// Writing a map changes exactly the written node.
proof fn lemma_lookup_set_applied<T>(s: Seq<(u64, T)>, id: u64, v: T, id2: u64)
    ensures
        lookup_applied(set_applied(s, id, v), id2) == (if id2 == id {
            Some(v)
        } else {
            lookup_applied(s, id2)
        }),
    decreases s.len(),
{
    if s.len() == 0 {
        let r = set_applied(s, id, v);
        assert(r =~= seq![(id, v)]);
        assert(r[0] == (id, v));
        assert(r.len() == 1);
        if id2 == id {
            assert(lookup_applied(r, id2) == Some(v));
        } else {
            assert(r.drop_first() =~= Seq::<(u64, T)>::empty());
            assert(lookup_applied(r, id2) == lookup_applied(
                Seq::<(u64, T)>::empty(),
                id2,
            ));
        }
    } else if s[0].0 == id {
        let r = set_applied(s, id, v);
        assert(r[0] == (id, v));
        assert(r.drop_first() =~= s.drop_first());
    } else {
        let r = set_applied(s, id, v);
        assert(r[0] == s[0]);
        assert(r.drop_first() =~= set_applied(s.drop_first(), id, v));
        lemma_lookup_set_applied(s.drop_first(), id, v, id2);
    }
}

/// Writing one value onto a list of nodes gives that value to exactly the
/// listed nodes.
proof fn lemma_apply_ids_lookup<T>(ids: Seq<u64>, j: nat, v: T, out: Seq<(u64, T)>, n: u64)
    requires
        j <= ids.len(),
    ensures
        lookup_applied(apply_ids(ids, j, v, out), n) == (if ids.subrange(
            j as int,
            ids.len() as int,
        ).contains(n) {
            Some(v)
        } else {
            lookup_applied(out, n)
        }),
    decreases ids.len() - j,
{
    if j >= ids.len() {
        assert(!ids.subrange(j as int, ids.len() as int).contains(n));
    } else {
        let out2 = set_applied(out, ids[j as int], v);
        lemma_apply_ids_lookup(ids, j + 1, v, out2, n);
        lemma_lookup_set_applied(out, ids[j as int], v, n);
        let suffix = ids.subrange(j as int, ids.len() as int);
        let suffix2 = ids.subrange(j as int + 1, ids.len() as int);
        assert(suffix.drop_first() =~= suffix2);
        if suffix.contains(n) {
            let q = choose|q: int| 0 <= q < suffix.len() && suffix[q] == n;
            if q == 0 {
                assert(ids[j as int] == n);
                if !suffix2.contains(n) {
                    assert(lookup_applied(apply_ids(ids, j + 1, v, out2), n) == lookup_applied(
                        out2,
                        n,
                    ));
                }
            } else {
                assert(suffix2[q - 1] == n);
                assert(suffix2.contains(n));
            }
        } else {
            assert(!suffix2.contains(n)) by {
                if suffix2.contains(n) {
                    let q = choose|q: int| 0 <= q < suffix2.len() && suffix2[q] == n;
                    assert(suffix[q + 1] == n);
                }
            }
            assert(ids[j as int] != n) by {
                assert(suffix[0] == ids[j as int]);
                if ids[j as int] == n {
                    assert(suffix.contains(n));
                }
            }
        }
    }
}

/// When no entry from position `k` on writes node `n`, the application pass
/// leaves `n` as it stands.
proof fn lemma_apply_selected_no_writer<T>(
    M: MetaV<T>,
    h: u64,
    sel: SelectedV,
    k: nat,
    out: Seq<(u64, T)>,
    n: u64,
)
    requires
        forall|k2: int| k <= k2 < sel.len() ==> !writes_node(M, h, sel, k2, n),
    ensures
        lookup_applied(spec_apply_selected(M, h, sel, k, out), n) == lookup_applied(out, n),
    decreases sel.len() - k,
{
    if k < sel.len() {
        let st = meta_lookup(M, h, crate::system::selector_hash_of(sel[k as int].0));
        match st {
            Some(cs) => match cs {
                CacheState::Resolved(v) => {
                    assert(!writes_node(M, h, sel, k as int, n));
                    assert(!sel[k as int].1.contains(n));
                    lemma_apply_ids_lookup(sel[k as int].1, 0, v, out, n);
                    assert(sel[k as int].1.subrange(0, sel[k as int].1.len() as int) =~= sel[k as int].1);
                    lemma_apply_selected_no_writer(
                        M,
                        h,
                        sel,
                        k + 1,
                        apply_ids(sel[k as int].1, 0, v, out),
                        n,
                    );
                },
                _ => {
                    lemma_apply_selected_no_writer(M, h, sel, k + 1, out, n);
                },
            },
            None => {
                lemma_apply_selected_no_writer(M, h, sel, k + 1, out, n);
            },
        }
    }
}

/// Law (specificity ordering): the last entry that writes a node decides
/// its applied value. Since selection lists stand in ascending specificity
/// order — see [`insert_by_weight`] — a more specific rule that matches the
/// same node and resolves the same property always overwrites a less
/// specific one.
pub proof fn lemma_last_writer_wins<T>(
    M: MetaV<T>,
    h: u64,
    sel: SelectedV,
    k: nat,
    out: Seq<(u64, T)>,
    n: u64,
    kw: int,
    v: T,
)
    requires
        k <= kw < sel.len(),
        meta_lookup(M, h, crate::system::selector_hash_of(sel[kw].0)) == Some(
            CacheState::Resolved(v),
        ),
        sel[kw].1.contains(n),
        forall|k2: int| kw < k2 < sel.len() ==> !writes_node(M, h, sel, k2, n),
    ensures
        lookup_applied(spec_apply_selected(M, h, sel, k, out), n) == Some(v),
    decreases kw - k,
{
    let st = meta_lookup(M, h, crate::system::selector_hash_of(sel[k as int].0));
    let out2 = match st {
        Some(cs) => match cs {
            CacheState::Resolved(v2) => apply_ids(sel[k as int].1, 0, v2, out),
            _ => out,
        },
        None => out,
    };
    if k == kw {
        match st {
            Some(cs) => match cs {
                CacheState::Resolved(v2) => {
                    assert(v2 == v);
                    lemma_apply_ids_lookup(sel[k as int].1, 0, v, out, n);
                    assert(sel[k as int].1.subrange(0, sel[k as int].1.len() as int) =~= sel[k as int].1);
                    assert(lookup_applied(out2, n) == Some(v));
                    lemma_apply_selected_no_writer(M, h, sel, k + 1, out2, n);
                },
                _ => {
                    assert(false);
                },
            },
            None => {
                assert(false);
            },
        }
    } else {
        lemma_last_writer_wins(M, h, sel, k + 1, out2, n, kw, v);
    }
}

} // verus!
