//! Observations of transaction signatures on endpoints, and the table that
//! aggregates them: per signature and endpoint, the earliest sighting and how
//! many further sightings followed.

use vstd::prelude::*;
use crate::config::Protocol;
use crate::text::{text_lt, text_less, lemma_text_lt_irreflexive, lemma_text_lt_transitive,
    lemma_text_lt_connected, lemma_text_lt_asymmetric};

verus! {

/// Identifies an endpoint: its protocol name and its alias.
#[derive(Debug)]
pub struct EndpointKey {
    pub protocol: String,
    pub alias: String,
}

impl Clone for EndpointKey {
    fn clone(&self) -> (res: Self)
        ensures
            res@ == self@,
    {
        EndpointKey { protocol: self.protocol.clone(), alias: self.alias.clone() }
    }
}

/// The mathematical content of an [`EndpointKey`]: protocol name, alias.
pub type KeyView = (Seq<char>, Seq<char>);

impl View for EndpointKey {
    type V = KeyView;

    open spec fn view(&self) -> KeyView {
        (self.protocol@, self.alias@)
    }
}

/// The order of endpoint keys: by protocol name, then by alias.
pub open spec fn key_lt(a: KeyView, b: KeyView) -> bool {
    text_lt(a.0, b.0) || (a.0 == b.0 && text_lt(a.1, b.1))
}

/// `key_lt` is a strict total order.
pub proof fn lemma_key_lt_order(a: KeyView, b: KeyView, c: KeyView)
    ensures
        !key_lt(a, a),
        key_lt(a, b) && key_lt(b, c) ==> key_lt(a, c),
        a != b ==> key_lt(a, b) || key_lt(b, a),
        key_lt(a, b) ==> !key_lt(b, a),
{
    lemma_text_lt_irreflexive(a.0);
    lemma_text_lt_irreflexive(a.1);
    lemma_text_lt_connected(a.0, b.0);
    lemma_text_lt_connected(a.1, b.1);
    lemma_text_lt_asymmetric(a.0, b.0);
    lemma_text_lt_asymmetric(a.1, b.1);
    if key_lt(a, b) && key_lt(b, c) {
        if text_lt(a.0, b.0) && text_lt(b.0, c.0) {
            lemma_text_lt_transitive(a.0, b.0, c.0);
        }
        if text_lt(a.1, b.1) && text_lt(b.1, c.1) {
            lemma_text_lt_transitive(a.1, b.1, c.1);
        }
    }
}

impl EndpointKey {
    /// The key of the endpoint `alias` speaking `protocol`.
    pub fn new(protocol: Protocol, alias: String) -> (res: Self)
        ensures
            res@ == (protocol.name(), alias@),
    {
        EndpointKey { protocol: String::from_str(protocol.as_str()), alias }
    }

    /// Whether two keys name the same endpoint.
    pub fn same(&self, other: &EndpointKey) -> (res: bool)
        ensures
            res == (self@ == other@),
    {
        self.protocol == other.protocol && self.alias == other.alias
    }

    /// Whether `self` sorts before `other`.
    pub fn less(&self, other: &EndpointKey) -> (res: bool)
        ensures
            res == key_lt(self@, other@),
    {
        if text_less(self.protocol.as_str(), other.protocol.as_str()) {
            true
        } else if self.protocol == other.protocol {
            text_less(self.alias.as_str(), other.alias.as_str())
        } else {
            false
        }
    }
}

/// When a transaction was received, in microseconds.
#[derive(Debug, Clone, Copy, PartialEq, Eq)]
pub struct Timing {
    /// Monotonic timestamp used for all latency and ordering calculations.
    pub received_at_us: i64,
    /// Wall-clock timestamp (since the Unix epoch), kept only for the
    /// report's first and last sightings.
    pub received_at_utc_us: i64,
    /// Monotonic timestamp of when the containing batch was received, for batched streams.
    pub batch_received_at_us: Option<i64>,
    /// Zero-based transaction position in the containing stream batch.
    pub batch_position: Option<usize>,
}

impl Timing {
    /// A timing from its parts.
    pub fn at(
        received_at_us: i64,
        received_at_utc_us: i64,
        batch_received_at_us: Option<i64>,
        batch_position: Option<usize>,
    ) -> (res: Self)
        ensures
            res.received_at_us == received_at_us,
            res.received_at_utc_us == received_at_utc_us,
            res.batch_received_at_us == batch_received_at_us,
            res.batch_position == batch_position,
    {
        Timing { received_at_us, received_at_utc_us, batch_received_at_us, batch_position }
    }
}

/// What one endpoint delivered of one signature: its earliest sighting and
/// the number of further sightings.
#[derive(Debug, Clone, Copy)]
pub struct EndpointObservation {
    pub first: Timing,
    pub duplicates: u64,
}

/// The sightings of one signature, one per endpoint.
#[derive(Debug, Clone)]
pub struct TxObservation {
    pub endpoints: Vec<(EndpointKey, EndpointObservation)>,
}

/// The sightings of one signature as keys with their observations.
pub type TxView = Seq<(KeyView, EndpointObservation)>;

impl View for TxObservation {
    type V = TxView;

    open spec fn view(&self) -> TxView {
        self.endpoints@.map_values(|e: (EndpointKey, EndpointObservation)| (e.0@, e.1))
    }
}

/// No endpoint occurs twice among a signature's sightings.
pub open spec fn keys_distinct(t: TxView) -> bool {
    forall|i: int, j: int| 0 <= i < t.len() && 0 <= j < t.len() && i != j ==> #[trigger] t[i].0 != #[trigger] t[j].0
}

/// Whether endpoint `k` delivered the signature.
pub open spec fn has_key(t: TxView, k: KeyView) -> bool {
    exists|i: int| 0 <= i < t.len() && #[trigger] t[i].0 == k
}

/// What endpoint `k` delivered of the signature (meaningful when `has_key`).
pub open spec fn obs_of(t: TxView, k: KeyView) -> EndpointObservation {
    t[choose|i: int| 0 <= i < t.len() && #[trigger] t[i].0 == k].1
}

/// With distinct keys, the sighting at index `i` is that of its key.
pub proof fn lemma_obs_of_index(t: TxView, i: int)
    requires
        keys_distinct(t),
        0 <= i < t.len(),
    ensures
        has_key(t, t[i].0),
        obs_of(t, t[i].0) == t[i].1,
{
    assert(t[i].0 == t[i].0);
    let j = choose|j: int| 0 <= j < t.len() && #[trigger] t[j].0 == t[i].0;
    assert(t[j].0 == t[i].0);
}

/// Finds the sighting of `key` in `t`.
pub fn find_key(t: &Vec<(EndpointKey, EndpointObservation)>, key: &EndpointKey) -> (res: Option<usize>)
    ensures
        match res {
            Some(i) => i < t@.len() && t@[i as int].0@ == key@,
            None => !has_key(t@.map_values(|e: (EndpointKey, EndpointObservation)| (e.0@, e.1)), key@),
        },
{
    let ghost tv = t@.map_values(|e: (EndpointKey, EndpointObservation)| (e.0@, e.1));
    for i in 0..t.len()
        invariant
            tv == t@.map_values(|e: (EndpointKey, EndpointObservation)| (e.0@, e.1)),
            forall|j: int| 0 <= j < i ==> tv[j].0 != key@,
    {
        if t[i].0.same(key) {
            return Some(i);
        }
    }
    assert forall|j: int| 0 <= j < tv.len() implies #[trigger] tv[j].0 != key@ by {}
    None
}

/// The phase of a benchmark run.
#[derive(Debug, Clone, Copy, PartialEq, Eq, Structural)]
pub enum RunPhase {
    Warmup,
    Measure,
}

/// The phase a run is in: measuring once the measurement window has
/// opened, warming up before.
pub fn phase_of(measuring: bool) -> (res: RunPhase)
    ensures
        res == (if measuring { RunPhase::Measure } else { RunPhase::Warmup }),
{
    if measuring {
        RunPhase::Measure
    } else {
        RunPhase::Warmup
    }
}

/// Whether an observation made in `phase` is kept: warmup observations are
/// dropped, measured ones kept.
pub fn admits(phase: RunPhase) -> (res: bool)
    ensures
        res == (phase == RunPhase::Measure),
{
    match phase {
        RunPhase::Warmup => false,
        RunPhase::Measure => true,
    }
}

/// The sightings of one signature as a map from endpoint to observation.
pub open spec fn tx_map(t: TxView) -> Map<KeyView, EndpointObservation> {
    Map::new(|k: KeyView| has_key(t, k), |k: KeyView| obs_of(t, k))
}

/// What an endpoint's record of a signature becomes when it delivers it
/// (again) at `timing`: a first delivery counts no duplicate; a later one
/// keeps the earliest sighting and counts one more duplicate; an earlier one
/// replaces the sighting and keeps the count.
pub open spec fn merged(prev: Option<EndpointObservation>, timing: Timing) -> EndpointObservation {
    match prev {
        None => EndpointObservation { first: timing, duplicates: 0 },
        Some(o) => if timing.received_at_us < o.first.received_at_us {
            EndpointObservation { first: timing, duplicates: o.duplicates }
        } else {
            EndpointObservation { first: o.first, duplicates: (o.duplicates + 1) as u64 }
        },
    }
}

/// The value a map holds at `k`, if any.
pub open spec fn map_get<K, V>(m: Map<K, V>, k: K) -> Option<V> {
    if m.contains_key(k) {
        Some(m[k])
    } else {
        None
    }
}

/// The record of `signature` on `endpoint` in a table's content, if any.
pub open spec fn lookup(
    view: Map<Seq<char>, Map<KeyView, EndpointObservation>>,
    signature: Seq<char>,
    endpoint: KeyView,
) -> Option<EndpointObservation> {
    if view.contains_key(signature) {
        map_get(view[signature], endpoint)
    } else {
        None
    }
}

/// A table's content once a sighting made in `phase` is recorded: unchanged
/// during warmup; while measuring, the endpoint's record of the signature
/// becomes `merged(previous, timing)`.
pub open spec fn recorded(
    view: Map<Seq<char>, Map<KeyView, EndpointObservation>>,
    phase: RunPhase,
    signature: Seq<char>,
    endpoint: KeyView,
    timing: Timing,
) -> Map<Seq<char>, Map<KeyView, EndpointObservation>> {
    if phase == RunPhase::Measure {
        view.insert(
            signature,
            (if view.contains_key(signature) { view[signature] } else { Map::empty() }).insert(
                endpoint,
                merged(lookup(view, signature, endpoint), timing),
            ),
        )
    } else {
        view
    }
}

/// Whether recording `timing` would push a duplicate count past `u64::MAX`.
pub open spec fn would_overflow(prev: Option<EndpointObservation>, timing: Timing) -> bool {
    match prev {
        Some(o) => !(timing.received_at_us < o.first.received_at_us) && o.duplicates == u64::MAX,
        None => false,
    }
}

/// The observations of a benchmark run: per signature, per endpoint, the
/// earliest sighting and the count of further sightings.
#[derive(Debug)]
pub struct ObservationTable {
    entries: Vec<(String, TxObservation)>,
}

/// The signatures of the table's entries.
pub open spec fn entry_has_sig(es: Seq<(String, TxObservation)>, s: Seq<char>) -> bool {
    exists|i: int| 0 <= i < es.len() && #[trigger] es[i].0@ == s
}

/// The entry of signature `s`.
pub open spec fn entry_of(es: Seq<(String, TxObservation)>, s: Seq<char>) -> TxView {
    es[choose|i: int| 0 <= i < es.len() && #[trigger] es[i].0@ == s].1@
}

proof fn lemma_entry_of_index(es: Seq<(String, TxObservation)>, i: int)
    requires
        0 <= i < es.len(),
        forall|a: int, b: int| 0 <= a < es.len() && 0 <= b < es.len() && a != b ==> #[trigger] es[a].0@ != #[trigger] es[b].0@,
    ensures
        entry_has_sig(es, es[i].0@),
        entry_of(es, es[i].0@) == es[i].1@,
{
    assert(es[i].0@ == es[i].0@);
    let j = choose|j: int| 0 <= j < es.len() && #[trigger] es[j].0@ == es[i].0@;
    assert(es[j].0@ == es[i].0@);
}

/// With distinct keys, updating the sighting at `j` updates its key's entry.
proof fn lemma_tx_map_update(t: TxView, j: int, o: EndpointObservation)
    requires
        keys_distinct(t),
        0 <= j < t.len(),
    ensures
        keys_distinct(t.update(j, (t[j].0, o))),
        tx_map(t.update(j, (t[j].0, o))) == tx_map(t).insert(t[j].0, o),
{
    let u = t.update(j, (t[j].0, o));
    assert forall|a: int, b: int| 0 <= a < u.len() && 0 <= b < u.len() && a != b implies #[trigger] u[a].0 != #[trigger] u[b].0 by {
        assert(u[a].0 == t[a].0 && u[b].0 == t[b].0);
    }
    assert forall|k: KeyView| #[trigger] has_key(u, k) == has_key(t, k) || k == t[j].0 by {
        if has_key(t, k) {
            let m = choose|m: int| 0 <= m < t.len() && #[trigger] t[m].0 == k;
            assert(u[m].0 == k);
        }
        if has_key(u, k) {
            let m = choose|m: int| 0 <= m < u.len() && #[trigger] u[m].0 == k;
            assert(t[m].0 == k);
        }
    }
    assert forall|k: KeyView| has_key(u, k) implies #[trigger] obs_of(u, k) == if k == t[j].0 { o } else { obs_of(t, k) } by {
        let m = choose|m: int| 0 <= m < u.len() && #[trigger] u[m].0 == k;
        lemma_obs_of_index(u, m);
        if m == j {
            assert(u[m].1 == o);
        } else {
            assert(t[m].0 == k);
            lemma_obs_of_index(t, m);
        }
    }
    assert(tx_map(u) =~= tx_map(t).insert(t[j].0, o)) by {
        assert(has_key(u, t[j].0)) by {
            assert(u[j].0 == t[j].0);
        }
    }
}

/// Appending a sighting of a new key adds its entry.
proof fn lemma_tx_map_push(t: TxView, k: KeyView, o: EndpointObservation)
    requires
        keys_distinct(t),
        !has_key(t, k),
    ensures
        keys_distinct(t.push((k, o))),
        tx_map(t.push((k, o))) == tx_map(t).insert(k, o),
{
    let u = t.push((k, o));
    assert forall|a: int, b: int| 0 <= a < u.len() && 0 <= b < u.len() && a != b implies #[trigger] u[a].0 != #[trigger] u[b].0 by {
        if a < t.len() && b < t.len() {
            assert(u[a].0 == t[a].0 && u[b].0 == t[b].0);
        } else if a < t.len() {
            assert(u[a].0 == t[a].0);
        } else {
            assert(u[b].0 == t[b].0);
        }
    }
    assert forall|x: KeyView| #[trigger] has_key(u, x) == (has_key(t, x) || x == k) by {
        if has_key(t, x) {
            let m = choose|m: int| 0 <= m < t.len() && #[trigger] t[m].0 == x;
            assert(u[m].0 == x);
        }
        if x == k {
            assert(u[t.len() as int].0 == x);
        }
        if has_key(u, x) && x != k {
            let m = choose|m: int| 0 <= m < u.len() && #[trigger] u[m].0 == x;
            assert(t[m].0 == x);
        }
    }
    assert forall|x: KeyView| has_key(u, x) implies #[trigger] obs_of(u, x) == if x == k { o } else { obs_of(t, x) } by {
        let m = choose|m: int| 0 <= m < u.len() && #[trigger] u[m].0 == x;
        lemma_obs_of_index(u, m);
        if m < t.len() {
            assert(t[m].0 == x);
            lemma_obs_of_index(t, m);
        }
    }
    assert(tx_map(u) =~= tx_map(t).insert(k, o));
}

impl ObservationTable {
    /// The table's content: per signature, per endpoint, the record.
    pub closed spec fn view(&self) -> Map<Seq<char>, Map<KeyView, EndpointObservation>> {
        Map::new(
            |s: Seq<char>| entry_has_sig(self.entries@, s),
            |s: Seq<char>| tx_map(entry_of(self.entries@, s)),
        )
    }

    /// Signatures occur once, and so do the endpoints of each signature.
    pub closed spec fn wf(&self) -> bool {
        &&& forall|a: int, b: int|
            0 <= a < self.entries@.len() && 0 <= b < self.entries@.len() && a != b
                ==> #[trigger] self.entries@[a].0@ != #[trigger] self.entries@[b].0@
        &&& forall|i: int| 0 <= i < self.entries@.len() ==> keys_distinct(#[trigger] self.entries@[i].1@)
    }

    /// The empty table.
    pub fn new() -> (res: Self)
        ensures
            res.wf(),
            res.view() == Map::<Seq<char>, Map<KeyView, EndpointObservation>>::empty(),
    {
        let res = ObservationTable { entries: Vec::new() };
        assert(res.view() =~= Map::<Seq<char>, Map<KeyView, EndpointObservation>>::empty());
        res
    }

    /// The record of `signature` on `endpoint`, if any.
    pub open spec fn record_of(&self, signature: Seq<char>, endpoint: KeyView) -> Option<EndpointObservation> {
        if self.view().contains_key(signature) {
            map_get(self.view()[signature], endpoint)
        } else {
            None
        }
    }

    /// Whether recording a sighting now would overflow a duplicate count.
    pub fn at_duplicate_limit(&self, signature: &String, endpoint: &EndpointKey, timing: Timing) -> (res: bool)
        requires
            self.wf(),
        ensures
            res == would_overflow(self.record_of(signature@, endpoint@), timing),
    {
        match self.find_signature(signature) {
            None => false,
            Some(i) => {
                let tx = &self.entries[i].1;
                proof { lemma_entry_of_index(self.entries@, i as int); }
                match find_key(&tx.endpoints, endpoint) {
                    None => false,
                    Some(j) => {
                        proof { lemma_obs_of_index(tx@, j as int); }
                        let o = tx.endpoints[j].1;
                        !(timing.received_at_us < o.first.received_at_us) && o.duplicates == u64::MAX
                    },
                }
            },
        }
    }

    fn find_signature(&self, signature: &String) -> (res: Option<usize>)
        ensures
            match res {
                Some(i) => i < self.entries@.len() && self.entries@[i as int].0@ == signature@,
                None => !entry_has_sig(self.entries@, signature@),
            },
    {
        for i in 0..self.entries.len()
            invariant
                forall|j: int| 0 <= j < i ==> #[trigger] self.entries@[j].0@ != signature@,
        {
            if self.entries[i].0 == *signature {
                return Some(i);
            }
        }
        None
    }

    /// Records that `endpoint` delivered `signature` at `timing`.  The
    /// endpoint's record of the signature becomes `merged(previous, timing)`;
    /// everything else is unchanged.
    pub fn apply(&mut self, signature: String, endpoint: EndpointKey, timing: Timing)
        requires
            old(self).wf(),
            !would_overflow(old(self).record_of(signature@, endpoint@), timing),
        ensures
            final(self).wf(),
            final(self).view() == old(self).view().insert(
                signature@,
                (if old(self).view().contains_key(signature@) {
                    old(self).view()[signature@]
                } else {
                    Map::empty()
                }).insert(endpoint@, merged(old(self).record_of(signature@, endpoint@), timing)),
            ),
    {
        let ghost old_es = self.entries@;
        let ghost prev = self.record_of(signature@, endpoint@);
        let ghost old_view = self.view();
        match self.find_signature(&signature) {
            None => {
                let ghost k = endpoint@;
                let mut endpoints: Vec<(EndpointKey, EndpointObservation)> = Vec::new();
                endpoints.push((endpoint, EndpointObservation { first: timing, duplicates: 0 }));
                let tx = TxObservation { endpoints };
                proof {
                    let t0: TxView = Seq::empty();
                    assert(tx@ == t0.push((k, EndpointObservation { first: timing, duplicates: 0 })));
                    lemma_tx_map_push(t0, k, EndpointObservation { first: timing, duplicates: 0 });
                    assert(tx_map(t0) =~= Map::empty());
                }
                self.entries.push((signature, tx));
                proof {
                    let es = self.entries@;
                    assert forall|a: int, b: int| 0 <= a < es.len() && 0 <= b < es.len() && a != b implies #[trigger] es[a].0@ != #[trigger] es[b].0@ by {
                        if a < old_es.len() && b < old_es.len() {
                            assert(es[a] == old_es[a] && es[b] == old_es[b]);
                        } else if a < old_es.len() {
                            assert(es[a] == old_es[a]);
                        } else {
                            assert(es[b] == old_es[b]);
                        }
                    }
                    assert forall|i: int| 0 <= i < es.len() implies keys_distinct(#[trigger] es[i].1@) by {
                        if i < old_es.len() {
                            assert(es[i] == old_es[i]);
                        }
                    }
                    self.lemma_view_after_push(old_es);
                }
            },
            Some(i) => {
                proof { lemma_entry_of_index(old_es, i as int); }
                let (sig, mut tx) = self.entries.remove(i);
                let ghost t = tx@;
                match find_key(&tx.endpoints, &endpoint) {
                    None => {
                        let o = EndpointObservation { first: timing, duplicates: 0 };
                        let ghost k = endpoint@;
                        tx.endpoints.push((endpoint, o));
                        proof {
                            assert(tx@ == t.push((k, o)));
                            lemma_tx_map_push(t, k, o);
                        }
                    },
                    Some(j) => {
                        proof { lemma_obs_of_index(t, j as int); }
                        let (key, o) = tx.endpoints.remove(j);
                        let updated = if timing.received_at_us < o.first.received_at_us {
                            EndpointObservation { first: timing, duplicates: o.duplicates }
                        } else {
                            EndpointObservation { first: o.first, duplicates: o.duplicates + 1 }
                        };
                        let ghost kv = key@;
                        tx.endpoints.insert(j, (key, updated));
                        proof {
                            assert(tx@ =~= t.update(j as int, (t[j as int].0, updated)));
                            lemma_tx_map_update(t, j as int, updated);
                        }
                    },
                }
                self.entries.insert(i, (sig, tx));
                proof {
                    let es = self.entries@;
                    assert(es =~= old_es.update(i as int, (old_es[i as int].0, tx)));
                    assert forall|a: int, b: int| 0 <= a < es.len() && 0 <= b < es.len() && a != b implies #[trigger] es[a].0@ != #[trigger] es[b].0@ by {
                        assert(es[a].0 == old_es[a].0 && es[b].0 == old_es[b].0);
                    }
                    assert forall|m: int| 0 <= m < es.len() implies keys_distinct(#[trigger] es[m].1@) by {
                        if m != i {
                            assert(es[m] == old_es[m]);
                        }
                    }
                    self.lemma_view_after_update(old_es, i as int);
                }
            },
        }
    }

    proof fn lemma_view_after_push(&self, old_es: Seq<(String, TxObservation)>)
        requires
            self.entries@.len() == old_es.len() + 1,
            forall|i: int| 0 <= i < old_es.len() ==> #[trigger] self.entries@[i] == old_es[i],
            self.wf(),
        ensures
            self.view() == Map::new(
                |s: Seq<char>| entry_has_sig(old_es, s),
                |s: Seq<char>| tx_map(entry_of(old_es, s)),
            ).insert(self.entries@.last().0@, tx_map(self.entries@.last().1@)),
    {
        let es = self.entries@;
        let n = old_es.len() as int;
        lemma_entry_of_index(es, n);
        assert forall|s: Seq<char>| #[trigger] entry_has_sig(es, s) == (entry_has_sig(old_es, s) || s == es[n].0@) by {
            if entry_has_sig(old_es, s) {
                let m = choose|m: int| 0 <= m < old_es.len() && #[trigger] old_es[m].0@ == s;
                assert(es[m].0@ == s);
            }
            if entry_has_sig(es, s) && s != es[n].0@ {
                let m = choose|m: int| 0 <= m < es.len() && #[trigger] es[m].0@ == s;
                assert(old_es[m].0@ == s);
            }
        }
        assert forall|s: Seq<char>| entry_has_sig(old_es, s) && s != es[n].0@ implies #[trigger] entry_of(es, s) == entry_of(old_es, s) by {
            let m = choose|m: int| 0 <= m < old_es.len() && #[trigger] old_es[m].0@ == s;
            assert(es[m].0@ == s);
            lemma_entry_of_index(es, m);
            let m2 = choose|m2: int| 0 <= m2 < old_es.len() && #[trigger] old_es[m2].0@ == s;
            assert(es[m2].0@ == s);
            lemma_entry_of_index(es, m2);
        }
        assert(self.view() =~= Map::new(
            |s: Seq<char>| entry_has_sig(old_es, s),
            |s: Seq<char>| tx_map(entry_of(old_es, s)),
        ).insert(es[n].0@, tx_map(es[n].1@)));
    }

    proof fn lemma_view_after_update(&self, old_es: Seq<(String, TxObservation)>, i: int)
        requires
            0 <= i < old_es.len(),
            self.entries@.len() == old_es.len(),
            forall|m: int| 0 <= m < old_es.len() && m != i ==> #[trigger] self.entries@[m] == old_es[m],
            self.entries@[i].0 == old_es[i].0,
            self.wf(),
        ensures
            self.view() == Map::new(
                |s: Seq<char>| entry_has_sig(old_es, s),
                |s: Seq<char>| tx_map(entry_of(old_es, s)),
            ).insert(self.entries@[i].0@, tx_map(self.entries@[i].1@)),
    {
        let es = self.entries@;
        lemma_entry_of_index(es, i);
        assert forall|s: Seq<char>| #[trigger] entry_has_sig(es, s) == entry_has_sig(old_es, s) by {
            if entry_has_sig(old_es, s) {
                let m = choose|m: int| 0 <= m < old_es.len() && #[trigger] old_es[m].0@ == s;
                assert(es[m].0@ == s);
            }
            if entry_has_sig(es, s) {
                let m = choose|m: int| 0 <= m < es.len() && #[trigger] es[m].0@ == s;
                assert(old_es[m].0@ == s);
            }
        }
        assert forall|s: Seq<char>| entry_has_sig(es, s) && s != es[i].0@ implies #[trigger] entry_of(es, s) == entry_of(old_es, s) by {
            let m = choose|m: int| 0 <= m < es.len() && #[trigger] es[m].0@ == s;
            assert(m != i);
            lemma_entry_of_index(es, m);
            assert(old_es[m].0@ == s);
            // old entries are distinct too
            assert forall|a: int, b: int| 0 <= a < old_es.len() && 0 <= b < old_es.len() && a != b implies #[trigger] old_es[a].0@ != #[trigger] old_es[b].0@ by {
                assert(es[a].0 == old_es[a].0 && es[b].0 == old_es[b].0);
            }
            lemma_entry_of_index(old_es, m);
        }
        assert(self.view() =~= Map::new(
            |s: Seq<char>| entry_has_sig(old_es, s),
            |s: Seq<char>| tx_map(entry_of(old_es, s)),
        ).insert(es[i].0@, tx_map(es[i].1@)));
    }

    /// Records a sighting made in `phase`: dropped during warmup, applied
    /// as `apply` does while measuring. Tells whether it was kept.
    pub fn record(&mut self, phase: RunPhase, signature: String, endpoint: EndpointKey, timing: Timing) -> (kept: bool)
        requires
            old(self).wf(),
            phase == RunPhase::Measure ==> !would_overflow(old(self).record_of(signature@, endpoint@), timing),
        ensures
            final(self).wf(),
            kept == (phase == RunPhase::Measure),
            !kept ==> final(self).view() == old(self).view(),
            kept ==> final(self).view() == old(self).view().insert(
                signature@,
                (if old(self).view().contains_key(signature@) {
                    old(self).view()[signature@]
                } else {
                    Map::empty()
                }).insert(endpoint@, merged(old(self).record_of(signature@, endpoint@), timing)),
            ),
            final(self).view() == recorded(old(self).view(), phase, signature@, endpoint@, timing),
    {
        if !admits(phase) {
            return false;
        }
        self.apply(signature, endpoint, timing);
        true
    }

    /// The recorded signatures with their sightings.
    pub fn entries(&self) -> (res: &Vec<(String, TxObservation)>)
        requires
            self.wf(),
        ensures
            forall|i: int| 0 <= i < res@.len() ==> keys_distinct(#[trigger] res@[i].1@),
            forall|a: int, b: int| 0 <= a < res@.len() && 0 <= b < res@.len() && a != b ==> #[trigger] res@[a].0@ != #[trigger] res@[b].0@,
            forall|s: Seq<char>| #[trigger] self.view().contains_key(s) <==> exists|i: int| 0 <= i < res@.len() && #[trigger] res@[i].0@ == s,
            forall|i: int| 0 <= i < res@.len() ==> #[trigger] self.view()[res@[i].0@] == tx_map(res@[i].1@),
    {
        proof {
            assert forall|i: int| 0 <= i < self.entries@.len() implies #[trigger] self.view()[self.entries@[i].0@] == tx_map(self.entries@[i].1@) by {
                lemma_entry_of_index(self.entries@, i);
            }
        }
        &self.entries
    }
}

} // verus!
