//! Per-machine usage statistics for insights.
//!
//! How often this machine retrieved an insight, how often it surfaced in this
//! machine's searches, and when it was last touched here. These describe a
//! machine's relationship to an insight rather than the insight itself, so
//! they live in a store of their own, keyed by `<topic>/<name>` lowercased.

use vstd::prelude::*;
use crate::text::{all_ascii, ascii_lower_char, ascii_lowered, chars_of, extend, lowercase, string_of, to_lowercase, chars_eq};
use crate::timestamp::{Timestamp, later, later_exec, now, ts_le};

verus! {

/// What one machine has done with one insight.
#[derive(Debug, Clone, Copy, PartialEq, Eq, Structural)]
pub struct Usage {
    pub retrieval_count: u32,
    pub search_hit_count: u32,
    pub last_accessed: Option<Timestamp>,
}

impl Usage {
    /// An insight this machine has never touched.
    pub open spec fn zero_spec() -> Usage {
        Usage { retrieval_count: 0, search_hit_count: 0, last_accessed: None }
    }

    /// An insight this machine has never touched.
    pub fn zero() -> (r: Usage)
        ensures
            r == Usage::zero_spec(),
    {
        Usage { retrieval_count: 0, search_hit_count: 0, last_accessed: None }
    }
}

/// Why an insight was reached, which decides the counter that moves.
#[derive(Debug, Clone, Copy, PartialEq, Eq, Structural)]
pub enum AccessType {
    /// The operator asked for this insight by name.
    Retrieval,
    /// The insight came back among a search's results.
    SearchHit,
}

/// The key an insight is stored under: `lowercase(topic) + "/" + lowercase(name)`.
pub open spec fn key_spec(topic: Seq<char>, name: Seq<char>) -> Seq<char> {
    lowercase(topic) + seq!['/'] + lowercase(name)
}

/// The key of an insight whose topic and name are ASCII: both with their
/// capitals lowered.
pub open spec fn ascii_key(topic: Seq<char>, name: Seq<char>) -> Seq<char> {
    ascii_lowered(topic) + seq!['/'] + ascii_lowered(name)
}

/// The key an insight is stored under.
///
/// `key("Rust", "Async-Patterns")` -> `"rust/async-patterns"`
pub fn key(topic: &str, name: &str) -> (r: String)
    ensures
        r@ == key_spec(topic@, name@),
        all_ascii(topic@) && all_ascii(name@) ==> r@ == ascii_key(topic@, name@),
{
    let t = to_lowercase(topic);
    let n = to_lowercase(name);
    let mut out = chars_of(t.as_str());
    out.push('/');
    extend(&mut out, chars_of(n.as_str()).as_slice());
    string_of(out.as_slice())
}

/// A counter moved on by one access: the counter `access_type` names, one up.
pub open spec fn counted(usage: Usage, access_type: AccessType) -> Usage {
    match access_type {
        AccessType::Retrieval => Usage { retrieval_count: (usage.retrieval_count + 1) as u32, ..usage },
        AccessType::SearchHit => Usage { search_hit_count: (usage.search_hit_count + 1) as u32, ..usage },
    }
}

/// Whether a counter has room for one more access.
pub open spec fn can_count(usage: Usage, access_type: AccessType) -> bool {
    match access_type {
        AccessType::Retrieval => usage.retrieval_count < u32::MAX,
        AccessType::SearchHit => usage.search_hit_count < u32::MAX,
    }
}

/// Counts one access of an insight.
pub fn count_access(usage: &mut Usage, access_type: AccessType)
    requires
        can_count(*old(usage), access_type),
    ensures
        *final(usage) == counted(*old(usage), access_type),
{
    match access_type {
        AccessType::Retrieval => usage.retrieval_count = usage.retrieval_count + 1,
        AccessType::SearchHit => usage.search_hit_count = usage.search_hit_count + 1,
    }
}

/// One insight's entry in the store.
pub struct UsageEntry {
    pub key: String,
    pub usage: Usage,
}

/// Every insight this machine has touched, each under its key once.
pub struct UsageStore {
    pub entries: Vec<UsageEntry>,
}

impl UsageStore {
    /// The keys, in the order the entries hold them.
    pub open spec fn keys(&self) -> Seq<Seq<char>> {
        self.entries@.map_values(|e: UsageEntry| e.key@)
    }

    /// No key appears twice.
    pub open spec fn wf(&self) -> bool {
        forall|i: int, j: int|
            0 <= i < j < self.entries@.len() ==> #[trigger] self.entries@[i].key@
                != #[trigger] self.entries@[j].key@
    }

    /// The store as a map from key to usage.
    pub open spec fn view_map(&self) -> Map<Seq<char>, Usage> {
        Map::new(
            |k: Seq<char>| exists|i: int| 0 <= i < self.entries@.len() && self.entries@[i].key@ == k,
            |k: Seq<char>|
                self.entries@[choose|i: int|
                    0 <= i < self.entries@.len() && self.entries@[i].key@ == k].usage,
        )
    }

    /// What the store holds under `k`, zeroes when nothing.
    pub open spec fn usage_of(&self, k: Seq<char>) -> Usage {
        if self.view_map().dom().contains(k) {
            self.view_map()[k]
        } else {
            Usage::zero_spec()
        }
    }

    /// An empty store.
    pub fn new() -> (r: UsageStore)
        ensures
            r.wf(),
            r.view_map() == Map::<Seq<char>, Usage>::empty(),
    {
        let r = UsageStore { entries: Vec::new() };
        assert(r.view_map() =~= Map::<Seq<char>, Usage>::empty());
        r
    }
}

proof fn lemma_usage_at(store: &UsageStore, i: int)
    requires
        store.wf(),
        0 <= i < store.entries@.len(),
    ensures
        store.view_map().dom().contains(store.entries@[i].key@),
        store.usage_of(store.entries@[i].key@) == store.entries@[i].usage,
{
    let k = store.entries@[i].key@;
    assert(store.view_map().dom().contains(k));
    let j = choose|j: int| 0 <= j < store.entries@.len() && store.entries@[j].key@ == k;
    if j != i {
        if i < j {
            assert(store.entries@[i].key@ != store.entries@[j].key@);
        } else {
            assert(store.entries@[j].key@ != store.entries@[i].key@);
        }
    }
}

/// The index of the entry under `k`, if there is one.
fn position(store: &UsageStore, k: &str) -> (r: Option<usize>)
    requires
        store.wf(),
    ensures
        match r {
            Some(i) => i < store.entries@.len() && store.entries@[i as int].key@ == k@,
            None => !store.view_map().dom().contains(k@),
        },
{
    let kc = chars_of(k);
    let mut i: usize = 0;
    while i < store.entries.len()
        invariant
            i <= store.entries@.len(),
            kc@ == k@,
            forall|j: int| 0 <= j < i ==> store.entries@[j].key@ != k@,
        decreases store.entries@.len() - i,
    {
        let ec = chars_of(store.entries[i].key.as_str());
        if chars_eq(ec.as_slice(), kc.as_slice()) {
            return Some(i);
        }
        i = i + 1;
    }
    None
}

/// Reads what this machine has done with one insight: zeroes for one it has
/// never touched.
pub fn get(store: &UsageStore, topic: &str, name: &str) -> (r: Usage)
    requires
        store.wf(),
    ensures
        r == store.usage_of(key_spec(topic@, name@)),
        all_ascii(topic@) && all_ascii(name@) ==> r == store.usage_of(ascii_key(topic@, name@)),
{
    let k = key(topic, name);
    match position(store, k.as_str()) {
        Some(i) => {
            proof {
                lemma_usage_at(store, i as int);
            }
            store.entries[i].usage
        },
        None => Usage::zero(),
    }
}

/// Sets the usage stored under `k`, adding an entry for a new key.
fn put(store: &mut UsageStore, k: String, usage: Usage)
    requires
        old(store).wf(),
    ensures
        final(store).wf(),
        final(store).view_map() == old(store).view_map().insert(k@, usage),
{
    match position(store, k.as_str()) {
        Some(i) => {
            let ghost kv = k@;
            store.entries.set(i, UsageEntry { key: k, usage });
            proof {
                assert forall|a: int, b: int|
                    0 <= a < b < store.entries@.len() implies #[trigger] store.entries@[a].key@
                    != #[trigger] store.entries@[b].key@ by {
                    assert(old(store).entries@[a].key@ != old(store).entries@[b].key@);
                }
                lemma_map_after_set(old(store), store, i as int, kv, usage);
            }
        },
        None => {
            let ghost kv = k@;
            store.entries.push(UsageEntry { key: k, usage });
            proof {
                assert forall|a: int, b: int|
                    0 <= a < b < store.entries@.len() implies #[trigger] store.entries@[a].key@
                    != #[trigger] store.entries@[b].key@ by {
                    if b == store.entries@.len() - 1 {
                        if store.entries@[a].key@ == kv {
                            assert(old(store).entries@[a].key@ == kv);
                            assert(old(store).view_map().dom().contains(kv));
                        }
                    } else {
                        assert(old(store).entries@[a].key@ != old(store).entries@[b].key@);
                    }
                }
                lemma_map_after_push(old(store), store, kv, usage);
            }
        },
    }
}

proof fn lemma_map_after_set(a: &UsageStore, b: &UsageStore, i: int, k: Seq<char>, u: Usage)
    requires
        a.wf(),
        b.wf(),
        0 <= i < a.entries@.len(),
        a.entries@[i].key@ == k,
        b.entries@.len() == a.entries@.len(),
        b.entries@[i].key@ == k,
        b.entries@[i].usage == u,
        forall|j: int| 0 <= j < a.entries@.len() && j != i ==> b.entries@[j] == a.entries@[j],
    ensures
        b.view_map() == a.view_map().insert(k, u),
{
    let m = a.view_map().insert(k, u);
    assert forall|key: Seq<char>| #[trigger] b.view_map().dom().contains(key) == m.dom().contains(key) by {
        if b.view_map().dom().contains(key) {
            let j = choose|j: int| 0 <= j < b.entries@.len() && b.entries@[j].key@ == key;
            if j != i {
                assert(a.entries@[j].key@ == key);
            }
        }
        if a.view_map().dom().contains(key) {
            let j = choose|j: int| 0 <= j < a.entries@.len() && a.entries@[j].key@ == key;
            if j != i {
                assert(b.entries@[j].key@ == key);
            }
        }
    }
    assert forall|key: Seq<char>| #[trigger] b.view_map().dom().contains(key) implies b.view_map()[key]
        == m[key] by {
        let j = choose|j: int| 0 <= j < b.entries@.len() && b.entries@[j].key@ == key;
        lemma_usage_at(b, j);
        if j != i {
            assert(a.entries@[j] == b.entries@[j]);
            lemma_usage_at(a, j);
        }
    }
    assert(b.view_map() =~= m);
}

proof fn lemma_map_after_push(a: &UsageStore, b: &UsageStore, k: Seq<char>, u: Usage)
    requires
        a.wf(),
        b.wf(),
        !a.view_map().dom().contains(k),
        b.entries@ == a.entries@.push(UsageEntry { key: b.entries@.last().key, usage: u }),
        b.entries@.last().key@ == k,
    ensures
        b.view_map() == a.view_map().insert(k, u),
{
    let m = a.view_map().insert(k, u);
    let n = a.entries@.len() as int;
    assert forall|key: Seq<char>| #[trigger] b.view_map().dom().contains(key) == m.dom().contains(key) by {
        if b.view_map().dom().contains(key) {
            let j = choose|j: int| 0 <= j < b.entries@.len() && b.entries@[j].key@ == key;
            if j != n {
                assert(a.entries@[j].key@ == key);
            }
        }
        if a.view_map().dom().contains(key) {
            let j = choose|j: int| 0 <= j < a.entries@.len() && a.entries@[j].key@ == key;
            assert(b.entries@[j].key@ == key);
        }
        if key == k {
            assert(b.entries@[n].key@ == key);
        }
    }
    assert forall|key: Seq<char>| #[trigger] b.view_map().dom().contains(key) implies b.view_map()[key]
        == m[key] by {
        let j = choose|j: int| 0 <= j < b.entries@.len() && b.entries@[j].key@ == key;
        lemma_usage_at(b, j);
        if j != n {
            assert(a.entries@[j] == b.entries@[j]);
            lemma_usage_at(a, j);
        }
    }
    assert(b.view_map() =~= m);
}

/// What the map holds under `k`, zeroes when nothing.
pub open spec fn usage_in(m: Map<Seq<char>, Usage>, k: Seq<char>) -> Usage {
    if m.dom().contains(k) {
        m[k]
    } else {
        Usage::zero_spec()
    }
}

/// The usage under `k` once one more access at `now` is counted.
pub open spec fn touched(u: Usage, access_type: AccessType, now: Timestamp) -> Usage {
    Usage { last_accessed: Some(now), ..counted(u, access_type) }
}

/// The store once each key of `ks`, in order, has one access counted.
pub open spec fn recorded(
    m: Map<Seq<char>, Usage>,
    ks: Seq<Seq<char>>,
    access_type: AccessType,
    now: Timestamp,
) -> Map<Seq<char>, Usage>
    decreases ks.len(),
{
    if ks.len() == 0 {
        m
    } else {
        recorded(
            m.insert(ks[0], touched(usage_in(m, ks[0]), access_type, now)),
            ks.drop_first(),
            access_type,
            now,
        )
    }
}

/// Whether counting each key of `ks`, in order, keeps every counter in range.
pub open spec fn fits(m: Map<Seq<char>, Usage>, ks: Seq<Seq<char>>, access_type: AccessType) -> bool
    decreases ks.len(),
{
    ks.len() == 0 || (can_count(usage_in(m, ks[0]), access_type) && fits(
        m.insert(ks[0], counted(usage_in(m, ks[0]), access_type)),
        ks.drop_first(),
        access_type,
    ))
}

proof fn lemma_fits_ignores_time(
    m: Map<Seq<char>, Usage>,
    m2: Map<Seq<char>, Usage>,
    ks: Seq<Seq<char>>,
    access_type: AccessType,
)
    requires
        fits(m, ks, access_type),
        forall|k: Seq<char>|
            #![trigger usage_in(m2, k)]
            usage_in(m2, k).retrieval_count == usage_in(m, k).retrieval_count && usage_in(
                m2,
                k,
            ).search_hit_count == usage_in(m, k).search_hit_count,
    ensures
        fits(m2, ks, access_type),
    decreases ks.len(),
{
    if ks.len() > 0 {
        let k0 = ks[0];
        let n1 = m.insert(k0, counted(usage_in(m, k0), access_type));
        let n2 = m2.insert(k0, counted(usage_in(m2, k0), access_type));
        assert(usage_in(m2, k0).retrieval_count == usage_in(m, k0).retrieval_count);
        assert forall|k: Seq<char>| #![trigger usage_in(n2, k)]
            usage_in(n2, k).retrieval_count == usage_in(n1, k).retrieval_count && usage_in(
                n2,
                k,
            ).search_hit_count == usage_in(n1, k).search_hit_count by {
            if k != k0 {
                assert(usage_in(m2, k).retrieval_count == usage_in(m, k).retrieval_count);
            }
        }
        lemma_fits_ignores_time(n1, n2, ks.drop_first(), access_type);
    }
}

/// The keys of the given (topic, name) pairs.
pub open spec fn keys_of(insights: Seq<(String, String)>) -> Seq<Seq<char>> {
    insights.map_values(|p: (String, String)| key_spec(p.0@, p.1@))
}

/// Whether counting an access of each of `insights` keeps every counter of
/// the store in range.
pub fn record_fits(store: &UsageStore, insights: &[(String, String)], access_type: AccessType) -> (r: bool)
    requires
        store.wf(),
    ensures
        r == fits(store.view_map(), keys_of(insights@), access_type),
{
    let mut counts = UsageStore { entries: Vec::new() };
    copy_counts(store, &mut counts);
    let ghost ks = keys_of(insights@);
    proof { assert(ks.skip(0) =~= ks); }
    let mut i: usize = 0;
    while i < insights.len()
        invariant
            i <= insights@.len(),
            ks == keys_of(insights@),
            counts.wf(),
            fits(store.view_map(), ks, access_type) == fits(counts.view_map(), ks.skip(i as int), access_type),
        decreases insights@.len() - i,
    {
        let k = key(insights[i].0.as_str(), insights[i].1.as_str());
        let ghost kv = k@;
        let u = match position(&counts, k.as_str()) {
            Some(j) => {
                proof { lemma_usage_at(&counts, j as int); }
                counts.entries[j].usage
            },
            None => Usage::zero(),
        };
        proof {
            assert(kv == ks[i as int]);
            assert(u == usage_in(counts.view_map(), kv));
            assert(ks.skip(i as int)[0] == kv);
            assert(ks.skip(i as int).drop_first() =~= ks.skip(i + 1));
        }
        let ok = match access_type {
            AccessType::Retrieval => u.retrieval_count < u32::MAX,
            AccessType::SearchHit => u.search_hit_count < u32::MAX,
        };
        if !ok {
            return false;
        }
        let mut next = u;
        count_access(&mut next, access_type);
        put(&mut counts, k, next);
        i = i + 1;
    }
    proof {
        assert(ks.skip(insights@.len() as int).len() == 0);
    }
    true
}

/// A copy of the store's entries, for trying counts out on.
fn copy_counts(store: &UsageStore, out: &mut UsageStore)
    requires
        store.wf(),
        old(out).entries@.len() == 0,
    ensures
        final(out).wf(),
        final(out).view_map() == store.view_map(),
{
    let mut i: usize = 0;
    while i < store.entries.len()
        invariant
            store.wf(),
            i <= store.entries@.len(),
            out.entries@.len() == i,
            forall|j: int| 0 <= j < i ==> #[trigger] out.entries@[j].key@ == store.entries@[j].key@
                && out.entries@[j].usage == store.entries@[j].usage,
        decreases store.entries@.len() - i,
    {
        let kc = chars_of(store.entries[i].key.as_str());
        out.entries.push(UsageEntry { key: string_of(kc.as_slice()), usage: store.entries[i].usage });
        i = i + 1;
    }
    proof {
        assert forall|a: int, b: int|
            0 <= a < b < out.entries@.len() implies #[trigger] out.entries@[a].key@
            != #[trigger] out.entries@[b].key@ by {
            assert(store.entries@[a].key@ != store.entries@[b].key@);
        }
        let m = store.view_map();
        assert forall|k: Seq<char>| #[trigger] out.view_map().dom().contains(k) == m.dom().contains(k) by {
            if out.view_map().dom().contains(k) {
                let j = choose|j: int| 0 <= j < out.entries@.len() && out.entries@[j].key@ == k;
                assert(store.entries@[j].key@ == k);
            }
            if m.dom().contains(k) {
                let j = choose|j: int| 0 <= j < store.entries@.len() && store.entries@[j].key@ == k;
                assert(out.entries@[j].key@ == k);
            }
        }
        assert forall|k: Seq<char>| #[trigger] out.view_map().dom().contains(k) implies out.view_map()[k]
            == m[k] by {
            let j = choose|j: int| 0 <= j < out.entries@.len() && out.entries@[j].key@ == k;
            lemma_usage_at(out, j);
            lemma_usage_at(store, j);
        }
        assert(out.view_map() =~= m);
    }
}

/// Counts one access at `now` of each insight in `insights`, in a single pass
/// over the store.
pub fn record_many_at(
    store: &mut UsageStore,
    insights: &[(String, String)],
    access_type: AccessType,
    now: Timestamp,
)
    requires
        old(store).wf(),
        fits(old(store).view_map(), keys_of(insights@), access_type),
    ensures
        final(store).wf(),
        final(store).view_map() == recorded(old(store).view_map(), keys_of(insights@), access_type, now),
        forall|j: int|
            0 <= j < insights@.len() && all_ascii(insights@[j].0@) && all_ascii(insights@[j].1@) ==> #[trigger] key_spec(
                insights@[j].0@,
                insights@[j].1@,
            ) == ascii_key(insights@[j].0@, insights@[j].1@),
{
    let ghost ks = keys_of(insights@);
    let ghost target = recorded(old(store).view_map(), ks, access_type, now);
    proof { assert(ks.skip(0) =~= ks); }
    let mut i: usize = 0;
    while i < insights.len()
        invariant
            i <= insights@.len(),
            ks == keys_of(insights@),
            store.wf(),
            target == recorded(store.view_map(), ks.skip(i as int), access_type, now),
            fits(store.view_map(), ks.skip(i as int), access_type),
            forall|j: int|
                0 <= j < i && all_ascii(insights@[j].0@) && all_ascii(insights@[j].1@) ==> #[trigger] key_spec(
                    insights@[j].0@,
                    insights@[j].1@,
                ) == ascii_key(insights@[j].0@, insights@[j].1@),
        decreases insights@.len() - i,
    {
        let k = key(insights[i].0.as_str(), insights[i].1.as_str());
        let ghost kv = k@;
        let ghost before = store.view_map();
        let mut u = match position(store, k.as_str()) {
            Some(j) => {
                proof { lemma_usage_at(store, j as int); }
                store.entries[j].usage
            },
            None => Usage::zero(),
        };
        proof {
            assert(kv == ks[i as int]);
            assert(u == usage_in(before, kv));
            assert(ks.skip(i as int)[0] == kv);
            assert(ks.skip(i as int).drop_first() =~= ks.skip(i + 1));
        }
        count_access(&mut u, access_type);
        u.last_accessed = Some(now);
        put(store, k, u);
        proof {
            let counted_map = before.insert(kv, counted(usage_in(before, kv), access_type));
            assert forall|k2: Seq<char>| #![trigger usage_in(store.view_map(), k2)]
                usage_in(store.view_map(), k2).retrieval_count == usage_in(counted_map, k2).retrieval_count
                && usage_in(store.view_map(), k2).search_hit_count == usage_in(counted_map, k2).search_hit_count by {
            }
            lemma_fits_ignores_time(counted_map, store.view_map(), ks.skip(i + 1), access_type);
        }
        i = i + 1;
    }
    proof {
        assert(ks.skip(insights@.len() as int).len() == 0);
    }
}

/// Counts one access, now, of each insight in `insights`.
///
/// A search records a hit for every result it returns; going through the
/// store once keeps that from costing one pass per result.
pub fn record_many(store: &mut UsageStore, insights: &[(String, String)], access_type: AccessType)
    requires
        old(store).wf(),
        fits(old(store).view_map(), keys_of(insights@), access_type),
    ensures
        final(store).wf(),
        exists|now: Timestamp| final(store).view_map() == recorded(old(store).view_map(), keys_of(insights@), access_type, now),
{
    let t = now();
    record_many_at(store, insights, access_type, t);
}

/// Counts one access, now, of one insight.
pub fn record(store: &mut UsageStore, topic: &str, name: &str, access_type: AccessType)
    requires
        old(store).wf(),
        can_count(old(store).usage_of(key_spec(topic@, name@)), access_type),
    ensures
        final(store).wf(),
        all_ascii(topic@) && all_ascii(name@) ==> key_spec(topic@, name@) == ascii_key(topic@, name@),
        exists|now: Timestamp| final(store).view_map() == old(store).view_map().insert(
            key_spec(topic@, name@),
            touched(old(store).usage_of(key_spec(topic@, name@)), access_type, now),
        ),
{
    let t = now();
    let one = vec![(topic.to_string(), name.to_string())];
    let ghost k = key_spec(topic@, name@);
    proof {
        assert(keys_of(one@) =~= seq![k]);
        let m0 = old(store).view_map();
        assert(seq![k].drop_first() =~= Seq::<Seq<char>>::empty());
        assert(seq![k][0] == k);
        assert(fits(m0.insert(k, counted(usage_in(m0, k), access_type)), seq![k].drop_first(), access_type));
        assert(fits(m0, seq![k], access_type));
    }
    record_many_at(store, one.as_slice(), access_type, t);
    proof {
        assert(one@[0].0@ == topic@ && one@[0].1@ == name@);
        if all_ascii(topic@) && all_ascii(name@) {
            assert(key_spec(one@[0].0@, one@[0].1@) == ascii_key(one@[0].0@, one@[0].1@));
        }
        let m0 = old(store).view_map();
        let m1 = m0.insert(k, touched(usage_in(m0, k), access_type, t));
        assert(seq![k].drop_first() =~= Seq::<Seq<char>>::empty());
        assert(recorded(m1, seq![k].drop_first(), access_type, t) == m1);
        assert(recorded(m0, seq![k], access_type, t) == m1);
    }
}

/// The usage kept when a file's counters meet the store's: each counter the
/// higher of the two, and the later last access.
pub open spec fn adopted(held: Usage, from_file: Usage) -> Usage {
    Usage {
        retrieval_count: if held.retrieval_count >= from_file.retrieval_count {
            held.retrieval_count
        } else {
            from_file.retrieval_count
        },
        search_hit_count: if held.search_hit_count >= from_file.search_hit_count {
            held.search_hit_count
        } else {
            from_file.search_hit_count
        },
        last_accessed: later(held.last_accessed, from_file.last_accessed),
    }
}

/// The key and usage of one found (topic, name, usage).
pub open spec fn found_entries(found: Seq<(String, String, Usage)>) -> Seq<(Seq<char>, Usage)> {
    found.map_values(|f: (String, String, Usage)| (key_spec(f.0@, f.1@), f.2))
}

/// The store once each found usage, in order, has been adopted.
pub open spec fn adopted_all(m: Map<Seq<char>, Usage>, fs: Seq<(Seq<char>, Usage)>) -> Map<Seq<char>, Usage>
    decreases fs.len(),
{
    if fs.len() == 0 {
        m
    } else {
        adopted_all(m.insert(fs[0].0, adopted(usage_in(m, fs[0].0), fs[0].1)), fs.drop_first())
    }
}

/// Adopts usage counters found in insight files, keeping whichever count is
/// higher.
///
/// Counters only ever climb, so the higher of the two is the one that has seen
/// more: neither the store nor the file loses.
pub fn adopt_counts(store: &mut UsageStore, found: Vec<(String, String, Usage)>)
    requires
        old(store).wf(),
    ensures
        final(store).wf(),
        final(store).view_map() == adopted_all(old(store).view_map(), found_entries(found@)),
{
    let ghost fs = found_entries(found@);
    let ghost target = adopted_all(old(store).view_map(), fs);
    proof { assert(fs.skip(0) =~= fs); }
    let mut i: usize = 0;
    while i < found.len()
        invariant
            i <= found@.len(),
            fs == found_entries(found@),
            store.wf(),
            target == adopted_all(store.view_map(), fs.skip(i as int)),
        decreases found@.len() - i,
    {
        let k = key(found[i].0.as_str(), found[i].1.as_str());
        let from_file = found[i].2;
        let ghost kv = k@;
        let held = match position(store, k.as_str()) {
            Some(j) => {
                proof { lemma_usage_at(store, j as int); }
                store.entries[j].usage
            },
            None => Usage::zero(),
        };
        proof {
            assert(fs.skip(i as int)[0] == (kv, from_file));
            assert(fs.skip(i as int).drop_first() =~= fs.skip(i + 1));
        }
        let u = Usage {
            retrieval_count: if held.retrieval_count >= from_file.retrieval_count {
                held.retrieval_count
            } else {
                from_file.retrieval_count
            },
            search_hit_count: if held.search_hit_count >= from_file.search_hit_count {
                held.search_hit_count
            } else {
                from_file.search_hit_count
            },
            last_accessed: later_exec(held.last_accessed, from_file.last_accessed),
        };
        put(store, k, u);
        i = i + 1;
    }
    proof {
        assert(fs.skip(found@.len() as int).len() == 0);
    }
}

/// How many times `k` appears in `ks`.
pub open spec fn occurrences(ks: Seq<Seq<char>>, k: Seq<char>) -> nat
    decreases ks.len(),
{
    if ks.len() == 0 {
        0
    } else {
        (if ks[0] == k { 1nat } else { 0nat }) + occurrences(ks.drop_first(), k)
    }
}

/// The counter an access type moves.
pub open spec fn count_of(u: Usage, access_type: AccessType) -> u32 {
    match access_type {
        AccessType::Retrieval => u.retrieval_count,
        AccessType::SearchHit => u.search_hit_count,
    }
}

/// The counter an access type leaves alone.
pub open spec fn other_count_of(u: Usage, access_type: AccessType) -> u32 {
    match access_type {
        AccessType::Retrieval => u.search_hit_count,
        AccessType::SearchHit => u.retrieval_count,
    }
}

/// Recording counts every access: after accesses to the keys `ks`, each key's
/// counter for that kind of access has risen by exactly the number of times
/// the key appears in `ks`, its other counter is unchanged, and a key that
/// does not appear is left exactly as it was.
pub proof fn law_record_counts_every_access(
    m: Map<Seq<char>, Usage>,
    ks: Seq<Seq<char>>,
    access_type: AccessType,
    now: Timestamp,
    k: Seq<char>,
)
    requires
        fits(m, ks, access_type),
    ensures
        count_of(usage_in(recorded(m, ks, access_type, now), k), access_type) == count_of(
            usage_in(m, k),
            access_type,
        ) + occurrences(ks, k),
        other_count_of(usage_in(recorded(m, ks, access_type, now), k), access_type)
            == other_count_of(usage_in(m, k), access_type),
        occurrences(ks, k) == 0 ==> usage_in(recorded(m, ks, access_type, now), k) == usage_in(m, k),
        occurrences(ks, k) > 0 ==> usage_in(recorded(m, ks, access_type, now), k).last_accessed == Some(now),
    decreases ks.len(),
{
    if ks.len() > 0 {
        let m1 = m.insert(ks[0], touched(usage_in(m, ks[0]), access_type, now));
        let c1 = m.insert(ks[0], counted(usage_in(m, ks[0]), access_type));
        assert forall|k2: Seq<char>| #![trigger usage_in(m1, k2)]
            usage_in(m1, k2).retrieval_count == usage_in(c1, k2).retrieval_count && usage_in(
                m1,
                k2,
            ).search_hit_count == usage_in(c1, k2).search_hit_count by {}
        lemma_fits_ignores_time(c1, m1, ks.drop_first(), access_type);
        law_record_counts_every_access(m1, ks.drop_first(), access_type, now, k);
    }
}

/// Adopting counters never lowers one: after adopting the found usages, every
/// key's counters are at least what the store held and at least what each
/// found usage for that key carried.
pub proof fn law_adopting_never_lowers(
    m: Map<Seq<char>, Usage>,
    fs: Seq<(Seq<char>, Usage)>,
    k: Seq<char>,
)
    ensures
        usage_in(adopted_all(m, fs), k).retrieval_count >= usage_in(m, k).retrieval_count,
        usage_in(adopted_all(m, fs), k).search_hit_count >= usage_in(m, k).search_hit_count,
        forall|i: int|
            0 <= i < fs.len() && (#[trigger] fs[i]).0 == k ==> usage_in(adopted_all(m, fs), k).retrieval_count
                >= fs[i].1.retrieval_count && usage_in(adopted_all(m, fs), k).search_hit_count
                >= fs[i].1.search_hit_count,
    decreases fs.len(),
{
    if fs.len() > 0 {
        let m1 = m.insert(fs[0].0, adopted(usage_in(m, fs[0].0), fs[0].1));
        law_adopting_never_lowers(m1, fs.drop_first(), k);
        assert forall|i: int|
            0 <= i < fs.len() && (#[trigger] fs[i]).0 == k implies usage_in(adopted_all(m, fs), k).retrieval_count
                >= fs[i].1.retrieval_count && usage_in(adopted_all(m, fs), k).search_hit_count
                >= fs[i].1.search_hit_count by {
            if i > 0 {
                assert(fs.drop_first()[i - 1] == fs[i]);
            }
        }
    }
}

/// Case does not split usage entries: two ASCII spellings of a topic and a
/// name that differ only in the case of their letters name one entry.
pub proof fn law_case_does_not_split_entries(t1: Seq<char>, n1: Seq<char>, t2: Seq<char>, n2: Seq<char>)
    requires
        t1.len() == t2.len(),
        n1.len() == n2.len(),
        forall|i: int| 0 <= i < t1.len() ==> ascii_lower_char(#[trigger] t1[i]) == ascii_lower_char(t2[i]),
        forall|i: int| 0 <= i < n1.len() ==> ascii_lower_char(#[trigger] n1[i]) == ascii_lower_char(n2[i]),
    ensures
        ascii_key(t1, n1) == ascii_key(t2, n2),
{
    assert(ascii_lowered(t1) =~= ascii_lowered(t2));
    assert(ascii_lowered(n1) =~= ascii_lowered(n2));
}

/// Whether optional instant `a` is no later than `b`, nothing coming before
/// every instant.
pub open spec fn opt_no_later(a: Option<Timestamp>, b: Option<Timestamp>) -> bool {
    match (a, b) {
        (None, _) => true,
        (Some(_), None) => false,
        (Some(x), Some(y)) => ts_le(x, y),
    }
}

/// Adopting takes the field-wise maximum: under each key, every counter ends
/// as the highest of what the store held and what the found usages for that
/// key carried, and the last access as the latest of them; a key no found
/// usage names is left exactly as it was.
pub proof fn law_adopting_takes_the_maximum(
    m: Map<Seq<char>, Usage>,
    fs: Seq<(Seq<char>, Usage)>,
    k: Seq<char>,
)
    ensures
        ({
            let r = usage_in(adopted_all(m, fs), k);
            &&& r.retrieval_count >= usage_in(m, k).retrieval_count
            &&& r.search_hit_count >= usage_in(m, k).search_hit_count
            &&& opt_no_later(usage_in(m, k).last_accessed, r.last_accessed)
            &&& forall|i: int|
                0 <= i < fs.len() && (#[trigger] fs[i]).0 == k ==> r.retrieval_count >= fs[i].1.retrieval_count
                    && r.search_hit_count >= fs[i].1.search_hit_count
                    && opt_no_later(fs[i].1.last_accessed, r.last_accessed)
            &&& (r.retrieval_count == usage_in(m, k).retrieval_count || exists|i: int|
                0 <= i < fs.len() && (#[trigger] fs[i]).0 == k && r.retrieval_count == fs[i].1.retrieval_count)
            &&& (r.search_hit_count == usage_in(m, k).search_hit_count || exists|i: int|
                0 <= i < fs.len() && (#[trigger] fs[i]).0 == k && r.search_hit_count == fs[i].1.search_hit_count)
            &&& (r.last_accessed == usage_in(m, k).last_accessed || exists|i: int|
                0 <= i < fs.len() && (#[trigger] fs[i]).0 == k && r.last_accessed == fs[i].1.last_accessed)
            &&& (forall|i: int| 0 <= i < fs.len() ==> (#[trigger] fs[i]).0 != k) ==> r == usage_in(m, k)
        }),
    decreases fs.len(),
{
    if fs.len() > 0 {
        let m1 = m.insert(fs[0].0, adopted(usage_in(m, fs[0].0), fs[0].1));
        let rest = fs.drop_first();
        law_adopting_takes_the_maximum(m1, rest, k);
        let r = usage_in(adopted_all(m, fs), k);
        assert(adopted_all(m, fs) == adopted_all(m1, rest));
        assert forall|i: int| 0 < i < fs.len() implies #[trigger] fs[i] == rest[i - 1] by {}
        assert forall|i: int|
            0 <= i < fs.len() && (#[trigger] fs[i]).0 == k implies r.retrieval_count >= fs[i].1.retrieval_count
                && r.search_hit_count >= fs[i].1.search_hit_count
                && opt_no_later(fs[i].1.last_accessed, r.last_accessed) by {
            if i > 0 {
                assert(rest[i - 1] == fs[i]);
            }
        }
        if r.retrieval_count != usage_in(m, k).retrieval_count {
            if r.retrieval_count == usage_in(m1, k).retrieval_count {
                assert(fs[0].0 == k && r.retrieval_count == fs[0].1.retrieval_count);
            } else {
                let j = choose|j: int| 0 <= j < rest.len() && (#[trigger] rest[j]).0 == k && r.retrieval_count == rest[j].1.retrieval_count;
                assert(fs[j + 1] == rest[j]);
            }
        }
        if r.search_hit_count != usage_in(m, k).search_hit_count {
            if r.search_hit_count == usage_in(m1, k).search_hit_count {
                assert(fs[0].0 == k && r.search_hit_count == fs[0].1.search_hit_count);
            } else {
                let j = choose|j: int| 0 <= j < rest.len() && (#[trigger] rest[j]).0 == k && r.search_hit_count == rest[j].1.search_hit_count;
                assert(fs[j + 1] == rest[j]);
            }
        }
        if r.last_accessed != usage_in(m, k).last_accessed {
            if r.last_accessed == usage_in(m1, k).last_accessed {
                assert(fs[0].0 == k && r.last_accessed == fs[0].1.last_accessed);
            } else {
                let j = choose|j: int| 0 <= j < rest.len() && (#[trigger] rest[j]).0 == k && r.last_accessed == rest[j].1.last_accessed;
                assert(fs[j + 1] == rest[j]);
            }
        }
        if forall|i: int| 0 <= i < fs.len() ==> (#[trigger] fs[i]).0 != k {
            assert(fs[0].0 != k);
            assert forall|i: int| 0 <= i < rest.len() implies (#[trigger] rest[i]).0 != k by {
                assert(fs[i + 1] == rest[i]);
            }
        }
    }
}

} // verus!
