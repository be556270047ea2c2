//! A schema registry front: caches raw schema texts and expanded schemas per
//! subject and version, and decides what to fetch while resolving references.
//! The caller performs the fetches and the parsing that the decisions ask for.

use std::rc::Rc;
use vstd::prelude::*;
use crate::schema::{NameKey, Schema, SchemaView, name_key};
use crate::client::{Subject, bare_subject, strip_value_suffix};
use crate::registry::{RegistryError, SchemaMap, register_schema, expand_within};

verus! {

/// A subject and one of its versions.
#[derive(Debug, Clone, PartialEq)]
pub struct SchemaKey {
    pub subject: String,
    pub version: i32,
}

pub type KeyView = (Seq<char>, i32);

pub open spec fn key_of(k: SchemaKey) -> KeyView {
    (k.subject@, k.version)
}

impl SchemaKey {
    pub fn duplicate(&self) -> (r: SchemaKey)
        ensures
            key_of(r) == key_of(*self),
    {
        SchemaKey { subject: self.subject.clone(), version: self.version }
    }
}

fn same_key(a: &SchemaKey, subject: &str, version: i32) -> (r: bool)
    ensures
        r == (key_of(*a) == (subject@, version)),
{
    if a.version != version {
        return false;
    }
    let n = a.subject.as_str().unicode_len();
    if n != subject.unicode_len() {
        return false;
    }
    let mut i: usize = 0;
    while i < n
        invariant
            0 <= i <= n,
            n == a.subject@.len(),
            n == subject@.len(),
            forall|j: int| 0 <= j < i ==> a.subject@[j] == subject@[j],
        decreases n - i,
    {
        if a.subject.as_str().get_char(i) != subject.get_char(i) {
            return false;
        }
        i = i + 1;
    }
    assert(a.subject@ =~= subject@);
    true
}

pub open spec fn raw_of(es: Seq<(SchemaKey, String)>) -> Map<KeyView, Seq<char>>
    decreases es.len(),
{
    if es.len() == 0 {
        Map::empty()
    } else {
        raw_of(es.drop_last()).insert(key_of(es.last().0), es.last().1@)
    }
}

pub open spec fn expanded_of(es: Seq<(SchemaKey, Rc<Schema>)>) -> Map<KeyView, SchemaView>
    decreases es.len(),
{
    if es.len() == 0 {
        Map::empty()
    } else {
        expanded_of(es.drop_last()).insert(key_of(es.last().0), (*es.last().1)@)
    }
}

proof fn lemma_raw_found(es: Seq<(SchemaKey, String)>, i: int, k: KeyView)
    requires
        0 <= i < es.len(),
        key_of(es[i].0) == k,
        forall|j: int| i < j < es.len() ==> key_of(#[trigger] es[j].0) != k,
    ensures
        raw_of(es).contains_key(k),
        raw_of(es)[k] == es[i].1@,
    decreases es.len(),
{
    if i < es.len() - 1 {
        let init = es.drop_last();
        assert forall|j: int| i < j < init.len() implies key_of(#[trigger] init[j].0) != k by {
            assert(init[j] == es[j]);
        }
        lemma_raw_found(init, i, k);
    }
}

proof fn lemma_raw_absent(es: Seq<(SchemaKey, String)>, k: KeyView)
    requires
        forall|j: int| 0 <= j < es.len() ==> key_of(#[trigger] es[j].0) != k,
    ensures
        !raw_of(es).contains_key(k),
    decreases es.len(),
{
    if es.len() > 0 {
        let init = es.drop_last();
        assert forall|j: int| 0 <= j < init.len() implies key_of(#[trigger] init[j].0) != k by {
            assert(init[j] == es[j]);
        }
        lemma_raw_absent(init, k);
    }
}

proof fn lemma_expanded_found(es: Seq<(SchemaKey, Rc<Schema>)>, i: int, k: KeyView)
    requires
        0 <= i < es.len(),
        key_of(es[i].0) == k,
        forall|j: int| i < j < es.len() ==> key_of(#[trigger] es[j].0) != k,
    ensures
        expanded_of(es).contains_key(k),
        expanded_of(es)[k] == (*es[i].1)@,
    decreases es.len(),
{
    if i < es.len() - 1 {
        let init = es.drop_last();
        assert forall|j: int| i < j < init.len() implies key_of(#[trigger] init[j].0) != k by {
            assert(init[j] == es[j]);
        }
        lemma_expanded_found(init, i, k);
    }
}

proof fn lemma_expanded_absent(es: Seq<(SchemaKey, Rc<Schema>)>, k: KeyView)
    requires
        forall|j: int| 0 <= j < es.len() ==> key_of(#[trigger] es[j].0) != k,
    ensures
        !expanded_of(es).contains_key(k),
    decreases es.len(),
{
    if es.len() > 0 {
        let init = es.drop_last();
        assert forall|j: int| 0 <= j < init.len() implies key_of(#[trigger] init[j].0) != k by {
            assert(init[j] == es[j]);
        }
        lemma_expanded_absent(init, k);
    }
}

/// Relies on `Rc::clone`: another handle to the same shared value.
#[verifier::external_body]
fn share(s: &Rc<Schema>) -> (r: Rc<Schema>)
    ensures
        r == *s,
{
    Rc::clone(s)
}

/// Caches, per subject and version, the raw schema text as fetched and the
/// expanded schema shared with callers. A later entry overrides an earlier one.
pub struct AvroRegistry {
    pub cache: Vec<(SchemaKey, Rc<Schema>)>,
    pub cache_raw: Vec<(SchemaKey, String)>,
}

/// The state of one resolution: the requested key, the keys still to visit,
/// and the (key, raw text) pairs collected so far, in visiting order.
pub struct Resolution {
    pub requested: SchemaKey,
    pub stack: Vec<SchemaKey>,
    pub collected: Vec<(SchemaKey, String)>,
}

pub open spec fn keys_of(s: Seq<SchemaKey>) -> Seq<KeyView> {
    s.map_values(|k: SchemaKey| key_of(k))
}

pub open spec fn pairs_of(s: Seq<(SchemaKey, String)>) -> Seq<(KeyView, Seq<char>)> {
    s.map_values(|p: (SchemaKey, String)| (key_of(p.0), p.1@))
}

/// Pops keys off the stack; each already in the raw cache is collected with
/// its cached text, and the first that is not is handed out to be fetched.
/// Gives the key to fetch (if any), the remaining stack and the collection.
pub open spec fn drain(raw: Map<KeyView, Seq<char>>, stack: Seq<KeyView>, collected: Seq<(KeyView, Seq<char>)>) -> (Option<KeyView>, Seq<KeyView>, Seq<(KeyView, Seq<char>)>)
    decreases stack.len(),
{
    if stack.len() == 0 {
        (None, stack, collected)
    } else if raw.contains_key(stack.last()) {
        drain(raw, stack.drop_last(), collected.push((stack.last(), raw[stack.last()])))
    } else {
        (Some(stack.last()), stack.drop_last(), collected)
    }
}

/// The keys that a fetched subject's references add to the stack, in order,
/// each subject without its `-value` suffix.
pub open spec fn reference_keys(s: Subject) -> Seq<KeyView> {
    match s.references {
        Some(refs) => refs@.map_values(|r: crate::client::Reference| (bare_subject(r.subject@), r.version)),
        None => Seq::empty(),
    }
}

impl AvroRegistry {
    pub open spec fn raw_view(&self) -> Map<KeyView, Seq<char>> {
        raw_of(self.cache_raw@)
    }

    pub open spec fn expanded_view(&self) -> Map<KeyView, SchemaView> {
        expanded_of(self.cache@)
    }

    pub fn new() -> (r: AvroRegistry)
        ensures
            r.raw_view() == Map::<KeyView, Seq<char>>::empty(),
            r.expanded_view() == Map::<KeyView, SchemaView>::empty(),
    {
        AvroRegistry { cache: Vec::new(), cache_raw: Vec::new() }
    }

    /// The expanded schema cached for a subject and version, shared.
    pub fn get_cached(&self, subject: &str, version: i32) -> (r: Option<Rc<Schema>>)
        ensures
            match r {
                Some(s) => self.expanded_view().contains_key((subject@, version))
                    && (*s)@ == self.expanded_view()[(subject@, version)],
                None => !self.expanded_view().contains_key((subject@, version)),
            },
    {
        let mut i: usize = self.cache.len();
        while i > 0
            invariant
                0 <= i <= self.cache.len(),
                forall|j: int| i <= j < self.cache.len() ==> key_of(#[trigger] self.cache@[j].0) != (subject@, version),
            decreases i,
        {
            i = i - 1;
            if same_key(&self.cache[i].0, subject, version) {
                proof {
                    lemma_expanded_found(self.cache@, i as int, (subject@, version));
                }
                return Some(share(&self.cache[i].1));
            }
        }
        proof {
            lemma_expanded_absent(self.cache@, (subject@, version));
        }
        None
    }

    fn get_raw(&self, key: &SchemaKey) -> (r: Option<String>)
        ensures
            match r {
                Some(t) => self.raw_view().contains_key(key_of(*key)) && t@ == self.raw_view()[key_of(*key)],
                None => !self.raw_view().contains_key(key_of(*key)),
            },
    {
        let mut i: usize = self.cache_raw.len();
        while i > 0
            invariant
                0 <= i <= self.cache_raw.len(),
                forall|j: int| i <= j < self.cache_raw.len() ==> key_of(#[trigger] self.cache_raw@[j].0) != key_of(*key),
            decreases i,
        {
            i = i - 1;
            if same_key(&self.cache_raw[i].0, key.subject.as_str(), key.version) {
                proof {
                    lemma_raw_found(self.cache_raw@, i as int, key_of(*key));
                }
                return Some(self.cache_raw[i].1.clone());
            }
        }
        proof {
            lemma_raw_absent(self.cache_raw@, key_of(*key));
        }
        None
    }
}

proof fn lemma_keys_push(s: Seq<SchemaKey>, k: SchemaKey)
    ensures
        keys_of(s.push(k)) == keys_of(s).push(key_of(k)),
{
    assert(keys_of(s.push(k)) =~= keys_of(s).push(key_of(k)));
}

proof fn lemma_pairs_push(s: Seq<(SchemaKey, String)>, p: (SchemaKey, String))
    ensures
        pairs_of(s.push(p)) == pairs_of(s).push((key_of(p.0), p.1@)),
{
    assert(pairs_of(s.push(p)) =~= pairs_of(s).push((key_of(p.0), p.1@)));
}

impl Resolution {
    /// A resolution of one subject and version: only that key is to visit.
    pub fn begin(subject: &str, version: i32) -> (r: Resolution)
        ensures
            key_of(r.requested) == (subject@, version),
            keys_of(r.stack@) == seq![(subject@, version)],
            r.collected@.len() == 0,
    {
        let requested = SchemaKey { subject: subject.to_string(), version };
        let mut stack: Vec<SchemaKey> = Vec::new();
        stack.push(SchemaKey { subject: subject.to_string(), version });
        assert(keys_of(stack@) =~= seq![(subject@, version)]);
        Resolution { requested, stack, collected: Vec::new() }
    }

    /// Visits keys until one must be fetched; see `drain`.
    pub fn next_fetch(&mut self, registry: &AvroRegistry) -> (r: Option<SchemaKey>)
        ensures
            (match r {
                Some(k) => Some(key_of(k)),
                None => None,
            }, keys_of(final(self).stack@), pairs_of(final(self).collected@))
                == drain(registry.raw_view(), keys_of(old(self).stack@), pairs_of(old(self).collected@)),
            final(self).requested == old(self).requested,
    {
        let ghost raw = registry.raw_view();
        loop
            invariant
                raw == registry.raw_view(),
                self.requested == old(self).requested,
                drain(raw, keys_of(self.stack@), pairs_of(self.collected@))
                    == drain(raw, keys_of(old(self).stack@), pairs_of(old(self).collected@)),
            decreases self.stack.len(),
        {
            let ghost st = self.stack@;
            match self.stack.pop() {
                None => {
                    proof {
                        assert(keys_of(self.stack@) =~= Seq::<KeyView>::empty());
                    }
                    return None;
                },
                Some(key) => {
                    proof {
                        assert(st =~= self.stack@.push(key));
                        lemma_keys_push(self.stack@, key);
                        assert(keys_of(st).drop_last() =~= keys_of(self.stack@));
                    }
                    match registry.get_raw(&key) {
                        Some(text) => {
                            let pair = (key, text);
                            proof {
                                lemma_pairs_push(self.collected@, pair);
                            }
                            self.collected.push(pair);
                        },
                        None => {
                            return Some(key);
                        },
                    }
                },
            }
        }
    }

    /// The raw texts collected, in visiting order, for parsing as one batch.
    pub fn texts(&self) -> (r: Vec<String>)
        ensures
            r@.len() == self.collected@.len(),
            forall|i: int| 0 <= i < r@.len() ==> #[trigger] r@[i]@ == self.collected@[i].1@,
    {
        let mut out: Vec<String> = Vec::new();
        let mut i: usize = 0;
        while i < self.collected.len()
            invariant
                0 <= i <= self.collected.len(),
                out@.len() == i,
                forall|j: int| 0 <= j < i ==> #[trigger] out@[j]@ == self.collected@[j].1@,
            decreases self.collected.len() - i,
        {
            out.push(self.collected[i].1.clone());
            i = i + 1;
        }
        out
    }
}

impl AvroRegistry {
    /// Takes in what the registry answered for `key`: its text goes to the raw
    /// cache and to the collection, and its references, each subject without
    /// its `-value` suffix, go on the stack in order.
    pub fn record_fetch(&mut self, res: &mut Resolution, key: SchemaKey, subject: &Subject)
        ensures
            final(self).raw_view() == old(self).raw_view().insert(key_of(key), subject.schema@),
            final(self).expanded_view() == old(self).expanded_view(),
            pairs_of(final(res).collected@) == pairs_of(old(res).collected@).push((key_of(key), subject.schema@)),
            keys_of(final(res).stack@) == keys_of(old(res).stack@) + reference_keys(*subject),
            final(res).requested == old(res).requested,
    {
        let ghost raw0 = self.cache_raw@;
        let k2 = key.duplicate();
        self.cache_raw.push((k2, subject.schema.clone()));
        proof {
            assert(self.cache_raw@.drop_last() =~= raw0);
        }
        let pair = (key, subject.schema.clone());
        proof {
            lemma_pairs_push(res.collected@, pair);
        }
        res.collected.push(pair);
        let ghost stack0 = keys_of(res.stack@);
        let ghost collected1 = pairs_of(res.collected@);
        match &subject.references {
            Some(refs) => {
                let mut i: usize = 0;
                while i < refs.len()
                    invariant
                        0 <= i <= refs.len(),
                        subject.references == Some(*refs),
                        keys_of(res.stack@) == stack0 + reference_keys(*subject).take(i as int),
                        pairs_of(res.collected@) == collected1,
                        res.requested == old(res).requested,
                    decreases refs.len() - i,
                {
                    let k = SchemaKey { subject: strip_value_suffix(refs[i].subject.as_str()), version: refs[i].version };
                    proof {
                        lemma_keys_push(res.stack@, k);
                        assert(reference_keys(*subject).take(i + 1) =~= reference_keys(*subject).take(i as int).push(key_of(k)));
                    }
                    res.stack.push(k);
                    i = i + 1;
                }
                proof {
                    assert(reference_keys(*subject).take(i as int) =~= reference_keys(*subject));
                }
            },
            None => {
                proof {
                    assert(stack0 + reference_keys(*subject) =~= stack0);
                }
            },
        }
    }
}

/// The name map of a parsed batch: each record under its qualified name, a
/// later one overriding an earlier one.
pub open spec fn batch_map(ps: Seq<Schema>) -> Map<NameKey, SchemaView>
    decreases ps.len(),
{
    if ps.len() == 0 {
        Map::empty()
    } else {
        batch_map(ps.drop_last()).insert(name_key(ps.last()->Record_name), ps.last()@)
    }
}

pub open spec fn all_records(ps: Seq<Schema>) -> bool {
    forall|i: int| 0 <= i < ps.len() ==> (#[trigger] ps[i]) is Record
}

/// Every schema of the batch expands, against the batch's names, following at
/// most `fuel` references along a path.
pub open spec fn all_expand(ps: Seq<Schema>, m: Map<NameKey, SchemaView>, fuel: nat) -> bool {
    forall|i: int| 0 <= i < ps.len() ==> crate::registry::expand_spec((#[trigger] ps[i])@, m, fuel) matches Some(Ok(_))
}

/// The expanded cache after storing each schema's expansion under its key, in order.
pub open spec fn store_all(cache: Map<KeyView, SchemaView>, keys: Seq<KeyView>, ps: Seq<Schema>, m: Map<NameKey, SchemaView>, fuel: nat) -> Map<KeyView, SchemaView>
    decreases ps.len(),
{
    if ps.len() == 0 {
        cache
    } else {
        store_all(cache, keys, ps.drop_last(), m, fuel).insert(
            keys[ps.len() - 1],
            crate::registry::expand_spec(ps.last()@, m, fuel)->Some_0->Ok_0,
        )
    }
}

pub open spec fn collected_keys(res: Resolution) -> Seq<KeyView> {
    res.collected@.map_values(|p: (SchemaKey, String)| key_of(p.0))
}

/// When `complete` succeeds: one parsed schema per collected text, all records,
/// all expanding (within as many references along a path as there are
/// schemas), and the requested key among those stored.
pub open spec fn completes(cache: Map<KeyView, SchemaView>, res: Resolution, ps: Seq<Schema>) -> bool {
    &&& ps.len() == res.collected@.len()
    &&& all_records(ps)
    &&& all_expand(ps, batch_map(ps), ps.len() as nat)
    &&& store_all(cache, collected_keys(res), ps, batch_map(ps), ps.len() as nat).contains_key(key_of(res.requested))
}

proof fn lemma_batch_step(ps: Seq<Schema>, i: int)
    requires
        0 <= i < ps.len(),
    ensures
        batch_map(ps.take(i + 1)) == batch_map(ps.take(i)).insert(name_key(ps[i]->Record_name), ps[i]@),
{
    assert(ps.take(i + 1).drop_last() =~= ps.take(i));
}

proof fn lemma_store_step(cache: Map<KeyView, SchemaView>, keys: Seq<KeyView>, ps: Seq<Schema>, m: Map<NameKey, SchemaView>, fuel: nat, i: int)
    requires
        0 <= i < ps.len(),
    ensures
        store_all(cache, keys, ps.take(i + 1), m, fuel) == store_all(cache, keys, ps.take(i), m, fuel).insert(
            keys[i],
            crate::registry::expand_spec(ps[i]@, m, fuel)->Some_0->Ok_0,
        ),
{
    assert(ps.take(i + 1).drop_last() =~= ps.take(i));
}

impl AvroRegistry {
    /// Finishes a resolution once its texts are parsed (in the order `texts`
    /// gave them): registers every record by name, expands each against those
    /// names, caches each expansion under its key, and gives the requested one.
    pub fn complete(&mut self, res: &Resolution, parsed: &Vec<Schema>) -> (r: Result<Rc<Schema>, RegistryError>)
        ensures
            r is Ok <==> completes(old(self).expanded_view(), *res, parsed@),
            r is Ok ==> final(self).expanded_view()
                == store_all(old(self).expanded_view(), collected_keys(*res), parsed@, batch_map(parsed@), parsed@.len() as nat),
            r matches Ok(s) ==> (*s)@ == final(self).expanded_view()[key_of(res.requested)],
            final(self).raw_view() == old(self).raw_view(),
    {
        let ghost cache0 = self.expanded_view();
        let ghost ps = parsed@;
        let ghost keys = collected_keys(*res);
        if parsed.len() != res.collected.len() {
            return Err(RegistryError::DeserializationFailed("schema count differs from text count".to_string()));
        }
        let mut names = SchemaMap::new();
        let mut i: usize = 0;
        proof {
            assert(ps.take(0) =~= Seq::<Schema>::empty());
        }
        while i < parsed.len()
            invariant
                0 <= i <= parsed.len(),
                ps == parsed@,
                names@ == batch_map(ps.take(i as int)),
                forall|j: int| 0 <= j < i ==> (#[trigger] ps[j]) is Record,
                self.expanded_view() == cache0,
                self.raw_view() == old(self).raw_view(),
            decreases parsed.len() - i,
        {
            proof {
                lemma_batch_step(ps, i as int);
            }
            match register_schema(&parsed[i], &mut names) {
                Ok(()) => {},
                Err(e) => {
                    return Err(e);
                },
            }
            i = i + 1;
        }
        proof {
            assert(ps.take(i as int) =~= ps);
        }
        let fuel = parsed.len();
        let ghost m = batch_map(ps);
        let mut i: usize = 0;
        while i < parsed.len()
            invariant
                0 <= i <= parsed.len(),
                ps == parsed@,
                parsed.len() == res.collected.len(),
                keys == collected_keys(*res),
                fuel == ps.len(),
                names@ == m,
                m == batch_map(ps),
                all_records(ps),
                forall|j: int| 0 <= j < i ==> crate::registry::expand_spec((#[trigger] ps[j])@, m, fuel as nat) matches Some(Ok(_)),
                self.expanded_view() == store_all(cache0, keys, ps.take(i as int), m, fuel as nat),
                self.raw_view() == old(self).raw_view(),
            decreases parsed.len() - i,
        {
            proof {
                lemma_store_step(cache0, keys, ps, m, fuel as nat, i as int);
            }
            let e = match expand_within(&parsed[i], &names, fuel) {
                Ok(e) => e,
                Err(err) => {
                    return Err(err);
                },
            };
            let key = res.collected[i].0.duplicate();
            let ghost es = self.cache@;
            self.cache.push((key, Rc::new(e)));
            proof {
                assert(self.cache@.drop_last() =~= es);
            }
            i = i + 1;
        }
        proof {
            assert(ps.take(i as int) =~= ps);
        }
        match self.get_cached(res.requested.subject.as_str(), res.requested.version) {
            Some(s) => Ok(s),
            None => Err(RegistryError::ResolutionFailed(res.requested.subject.clone())),
        }
    }
}

/// Resolution only ever asks to fetch a key that the raw cache lacks.
pub proof fn lemma_drain_skips_cached(raw: Map<KeyView, Seq<char>>, stack: Seq<KeyView>, collected: Seq<(KeyView, Seq<char>)>)
    ensures
        drain(raw, stack, collected).0 matches Some(k) ==> !raw.contains_key(k),
    decreases stack.len(),
{
    if stack.len() > 0 && raw.contains_key(stack.last()) {
        lemma_drain_skips_cached(raw, stack.drop_last(), collected.push((stack.last(), raw[stack.last()])));
    }
}

/// A key is fetched at most once: after its answer is recorded, no later
/// resolution step, on any stack, asks for it again.
pub proof fn lemma_fetch_at_most_once(
    raw: Map<KeyView, Seq<char>>,
    k: KeyView,
    text: Seq<char>,
    stack: Seq<KeyView>,
    collected: Seq<(KeyView, Seq<char>)>,
)
    ensures
        drain(raw.insert(k, text), stack, collected).0 != Some(k),
{
    lemma_drain_skips_cached(raw.insert(k, text), stack, collected);
}

} // verus!
