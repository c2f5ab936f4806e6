//! The record store.
//!
//! A [`TraceStore`] maps 64-bit span identifiers to [`SpanRecord`]s and
//! preserves insertion order.  Identifier `0` always denotes the
//! sentinel "root" record, present from creation and never evicted,
//! which is the home for events with no enclosing span.
//!
//! Wall-clock timestamps are milliseconds since the Unix epoch;
//! timing-machine readings are nanoseconds of a monotonic clock.
//!
//! Eviction bounds only how long *closed* records linger: a record
//! that is created but never closed keeps accumulating events with no
//! independent cap.  That is a deliberate gap left visible rather than
//! papered over; callers who never close their spans grow the store.

use vstd::prelude::*;

use crate::timing_layer::Timing;
use crate::timing_layer::mono_now_ns;

verus! {

/// Severity of a span or event, ordered from `Trace` up to `Error`.
#[derive(Debug, Clone, Copy, PartialEq, Eq, Structural)]
pub enum Level {
    Trace,
    Debug,
    Info,
    Warn,
    Error,
}

/// An instantaneous structured notification captured within a span.
///
/// `fields` maps field names to their rendered string values, in
/// insertion order; names are unique within one event.
#[derive(Debug, Clone)]
pub struct EventRecord {
    /// Capture time, in wall-clock milliseconds.
    pub time: i64,
    /// Severity of the event.
    pub level: Level,
    /// Field name and rendered value pairs, in capture order.
    pub fields: Vec<(String, String)>,
}

/// The mathematical value of an [`EventRecord`].
pub struct EventModel {
    pub time_ms: i64,
    pub level: Level,
    pub fields: Seq<(Seq<char>, Seq<char>)>,
}

impl EventRecord {
    /// The mathematical value this record holds.
    pub open spec fn model(self) -> EventModel {
        EventModel {
            time_ms: self.time,
            level: self.level,
            fields: self.fields@.map_values(|p: (String, String)| (p.0@, p.1@)),
        }
    }
}

/// One span's stored state: metadata, timing snapshot and events.
#[derive(Debug, Clone)]
pub struct SpanRecord {
    /// Creation time, in wall-clock milliseconds.
    pub start_time: i64,
    /// Close time, in wall-clock milliseconds; `None` while open.  Once
    /// set it is never cleared or changed, and is at least `start_time`.
    pub close_time: Option<i64>,
    /// The span's timing snapshot.
    pub timing: Timing,
    /// Severity of the span.
    pub level: Level,
    /// The span's name.
    pub name: String,
    /// The span's logical module or category.
    pub target: String,
    /// Events captured within this span, in capture order.
    pub events: Vec<EventRecord>,
}

/// The mathematical value of a [`SpanRecord`].
#[verifier::ext_equal]
pub struct SpanModel {
    pub start_ms: i64,
    pub close_ms: Option<i64>,
    pub timing: Timing,
    pub level: Level,
    pub name: Seq<char>,
    pub target: Seq<char>,
    pub events: Seq<EventModel>,
}

impl SpanModel {
    /// Record well-formedness: the timing snapshot is well formed, and
    /// the close time, when set, is no earlier than the start time.
    pub open spec fn wf(self) -> bool {
        &&& self.timing.inv()
        &&& match self.close_ms {
            Some(c) => c >= self.start_ms,
            None => true,
        }
    }
}

impl SpanRecord {
    /// The mathematical value this record holds.
    pub open spec fn model(self) -> SpanModel {
        SpanModel {
            start_ms: self.start_time,
            close_ms: self.close_time,
            timing: self.timing,
            level: self.level,
            name: self.name@,
            target: self.target@,
            events: self.events@.map_values(|e: EventRecord| e.model()),
        }
    }

    /// Create an open record with a fresh timing snapshot, no events,
    /// and the given metadata.
    pub fn new_at(level: Level, name: String, target: String, start_ms: i64, mono_now: u64) -> (r:
        SpanRecord)
        ensures
            r.model() == fresh_span(level, name@, target@, start_ms, mono_now),
            r.model().wf(),
    {
        let r = SpanRecord {
            start_time: start_ms,
            close_time: None,
            timing: Timing::new_at(mono_now),
            level,
            name,
            target,
            events: Vec::new(),
        };
        proof {
            assert(r.model() =~= fresh_span(level, name@, target@, start_ms, mono_now));
        }
        r
    }
}

/// The record a span-created notification produces: open, no events,
/// fresh timing.
pub open spec fn fresh_span(
    level: Level,
    name: Seq<char>,
    target: Seq<char>,
    start_ms: i64,
    mono_now: u64,
) -> SpanModel {
    SpanModel {
        start_ms,
        close_ms: None,
        timing: Timing::spec_new(mono_now),
        level,
        name,
        target,
        events: Seq::empty(),
    }
}

/// The contents of the sentinel root record at creation.
pub open spec fn root_span(start_ms: i64, mono_now: u64) -> SpanModel {
    fresh_span(Level::Info, "root"@, "root"@, start_ms, mono_now)
}

/// What an indexmap holds: its key and value pairs, in order.  Relies
/// on indexmap's documented ordering: the pairs stand in insertion
/// order, updates keep a key's position, and eviction keeps the
/// relative order of the survivors.
pub uninterp spec fn span_entries(m: indexmap::IndexMap<u64, SpanRecord>) -> Seq<(u64, SpanModel)>;

#[verifier::external_type_specification]
#[verifier::external_body]
#[verifier::reject_recursive_types(K)]
#[verifier::reject_recursive_types(V)]
#[verifier::reject_recursive_types(S)]
pub struct ExIndexMap<K, V, S>(indexmap::IndexMap<K, V, S>);

/// Whether some entry carries the identifier.
pub open spec fn has_id(s: Seq<(u64, SpanModel)>, id: u64) -> bool {
    exists|i: int| 0 <= i < s.len() && (#[trigger] s[i]).0 == id
}

/// The position of the entry carrying the identifier.
pub open spec fn index_of(s: Seq<(u64, SpanModel)>, id: u64) -> int {
    choose|i: int| 0 <= i < s.len() && (#[trigger] s[i]).0 == id
}

/// No two entries carry the same identifier.
pub open spec fn keys_distinct(s: Seq<(u64, SpanModel)>) -> bool {
    forall|i: int, j: int|
        0 <= i < j < s.len() ==> (#[trigger] s[i]).0 != (#[trigger] s[j]).0
}

/// Insert the pair at the key's existing position, or append it.
pub open spec fn spec_upsert(s: Seq<(u64, SpanModel)>, id: u64, m: SpanModel) -> Seq<
    (u64, SpanModel),
> {
    if has_id(s, id) {
        s.update(index_of(s, id), (id, m))
    } else {
        s.push((id, m))
    }
}

/// Relies on indexmap's `IndexMap::new`: the new map is empty.
#[verifier::external_body]
fn map_new() -> (m: indexmap::IndexMap<u64, SpanRecord>)
    ensures
        span_entries(m) == Seq::<(u64, SpanModel)>::empty(),
{
    indexmap::IndexMap::new()
}

/// Relies on indexmap's `IndexMap::insert`: an existing key keeps its
/// position and gets the new value; a new key is appended last.
#[verifier::external_body]
fn map_insert(m: &mut indexmap::IndexMap<u64, SpanRecord>, id: u64, rec: SpanRecord)
    ensures
        span_entries(*final(m)) == spec_upsert(span_entries(*old(m)), id, rec.model()),
{
    m.insert(id, rec);
}

/// Relies on indexmap's `IndexMap::contains_key`.
#[verifier::external_body]
fn map_contains(m: &indexmap::IndexMap<u64, SpanRecord>, id: u64) -> (b: bool)
    ensures
        b == has_id(span_entries(*m), id),
{
    m.contains_key(&id)
}

/// Relies on indexmap's `IndexMap::get`, and on the record's derived
/// `Clone` producing a record of the same value.
#[verifier::external_body]
fn map_get_cloned(m: &indexmap::IndexMap<u64, SpanRecord>, id: u64) -> (r: Option<SpanRecord>)
    ensures
        (r is Some) == has_id(span_entries(*m), id),
        r matches Some(rec) ==> rec.model() == span_entries(*m)[index_of(span_entries(*m), id)].1,
{
    m.get(&id).cloned()
}

/// Relies on indexmap's `IndexMap::values`, and on the record's derived
/// `Clone` producing records of the same values.
#[verifier::external_body]
fn map_values_cloned(m: &indexmap::IndexMap<u64, SpanRecord>) -> (r: Vec<SpanRecord>)
    ensures
        r@.len() == span_entries(*m).len(),
        forall|i: int|
            0 <= i < r@.len() ==> (#[trigger] r@[i]).model() == span_entries(*m)[i].1,
{
    m.values().cloned().collect()
}

impl Default for TraceStore {
    /// A store created at the current wall-clock and monotonic times,
    /// holding exactly the sentinel root record.
    fn default() -> (s: TraceStore)
        ensures
            s.wf(),
            exists|start_ms: i64, mono_now: u64|
                s.entries() == seq![(0u64, #[trigger] root_span(start_ms, mono_now))],
    {
        let start_ms = wall_now_ms();
        let mono_now = mono_now_ns();
        TraceStore::new_at(start_ms, mono_now)
    }
}

/// Relies on chrono's `Local::now` and `DateTime::timestamp_millis`:
/// the current wall-clock time in milliseconds since the Unix epoch.
#[verifier::external_body]
fn wall_now_ms() -> i64 {
    chrono::Local::now().timestamp_millis()
}

/// Whether `remove_expired` retains an entry: the sentinel root and
/// open records are always kept; a closed record is kept while no more
/// than the threshold has passed since its close time.
pub open spec fn keep_span(id: u64, m: SpanModel, now_ms: i64, threshold_ms: i64) -> bool {
    ||| id == 0
    ||| match m.close_ms {
        None => true,
        Some(c) => now_ms - c <= threshold_ms,
    }
}

/// Decide [`keep_span`] on a record.
fn keep_record(id: u64, rec: &SpanRecord, now_ms: i64, threshold_ms: i64) -> (b: bool)
    ensures
        b == keep_span(id, rec.model(), now_ms, threshold_ms),
{
    if id == 0 {
        true
    } else {
        match rec.close_time {
            None => true,
            Some(c) => (now_ms as i128) - (c as i128) <= (threshold_ms as i128),
        }
    }
}

/// The entries that survive an eviction sweep, in their old order.
pub open spec fn kept_entries(s: Seq<(u64, SpanModel)>, now_ms: i64, threshold_ms: i64) -> Seq<
    (u64, SpanModel),
>
    decreases s.len(),
{
    if s.len() == 0 {
        Seq::empty()
    } else {
        let rest = kept_entries(s.drop_first(), now_ms, threshold_ms);
        if keep_span(s[0].0, s[0].1, now_ms, threshold_ms) {
            seq![s[0]] + rest
        } else {
            rest
        }
    }
}

/// Relies on indexmap's `IndexMap::retain`: entries are visited in
/// order, the kept ones keep their relative order, and the rest are
/// dropped.  The closure only calls the verified `keep_record`.
#[verifier::external_body]
fn map_retain_recent(m: &mut indexmap::IndexMap<u64, SpanRecord>, now_ms: i64, threshold_ms: i64)
    ensures
        span_entries(*final(m)) == kept_entries(span_entries(*old(m)), now_ms, threshold_ms),
{
    m.retain(|id, rec| keep_record(*id, rec, now_ms, threshold_ms));
}

/// Store-contents well-formedness: identifiers are unique, the sentinel
/// root stands first under identifier `0`, and every record is well
/// formed.
pub open spec fn entries_wf(s: Seq<(u64, SpanModel)>) -> bool {
    &&& keys_distinct(s)
    &&& s.len() >= 1
    &&& s[0].0 == 0
    &&& forall|i: int| 0 <= i < s.len() ==> (#[trigger] s[i]).1.wf()
}

/// Inserting a well-formed record keeps the store contents well formed.
proof fn lemma_upsert_wf(s: Seq<(u64, SpanModel)>, id: u64, m: SpanModel)
    requires
        entries_wf(s),
        m.wf(),
    ensures
        entries_wf(spec_upsert(s, id, m)),
        has_id(spec_upsert(s, id, m), id),
{
    let t = spec_upsert(s, id, m);
    if has_id(s, id) {
        let i = index_of(s, id);
        assert(0 <= i < s.len() && s[i].0 == id);
        assert forall|a: int| 0 <= a < t.len() implies (#[trigger] t[a]).0 == s[a].0 by {}
        assert forall|a: int, b: int| 0 <= a < b < t.len() implies (#[trigger] t[a]).0 != (
        #[trigger] t[b]).0 by {
            assert(s[a].0 != s[b].0);
        }
        assert forall|j: int| 0 <= j < t.len() implies (#[trigger] t[j]).1.wf() by {
            if j != i {
                assert(s[j].1.wf());
            }
        }
        assert(0 <= i < t.len() && t[i].0 == id);
    } else {
        assert forall|a: int, b: int| 0 <= a < b < t.len() implies (#[trigger] t[a]).0 != (
        #[trigger] t[b]).0 by {
            if b < s.len() {
                assert(s[a].0 != s[b].0);
            } else {
                assert(s[a].0 != id);
            }
        }
        assert forall|j: int| 0 <= j < t.len() implies (#[trigger] t[j]).1.wf() by {
            if j < s.len() {
                assert(s[j].1.wf());
            }
        }
        assert(0 <= s.len() < t.len() && t[s.len() as int].0 == id);
    }
}

/// An eviction sweep keeps unique identifiers unique, keeps only
/// records of the input, and keeps a retained first entry first.
proof fn lemma_kept_entries_shape(s: Seq<(u64, SpanModel)>, now_ms: i64, threshold_ms: i64)
    requires
        keys_distinct(s),
        forall|i: int| 0 <= i < s.len() ==> (#[trigger] s[i]).1.wf(),
    ensures
        keys_distinct(kept_entries(s, now_ms, threshold_ms)),
        forall|i: int|
            0 <= i < kept_entries(s, now_ms, threshold_ms).len() ==> (#[trigger] kept_entries(
                s,
                now_ms,
                threshold_ms,
            )[i]).1.wf(),
        forall|id: u64|
            #[trigger] has_id(kept_entries(s, now_ms, threshold_ms), id) ==> has_id(s, id),
        s.len() >= 1 && keep_span(s[0].0, s[0].1, now_ms, threshold_ms) ==> (kept_entries(
            s,
            now_ms,
            threshold_ms,
        ).len() >= 1 && kept_entries(s, now_ms, threshold_ms)[0] == s[0]),
    decreases s.len(),
{
    if s.len() > 0 {
        let rest = s.drop_first();
        let kept_rest = kept_entries(rest, now_ms, threshold_ms);
        assert forall|a: int, b: int| 0 <= a < b < rest.len() implies (#[trigger] rest[a]).0 != (
        #[trigger] rest[b]).0 by {
            assert(s[a + 1].0 != s[b + 1].0);
        }
        assert forall|i: int| 0 <= i < rest.len() implies (#[trigger] rest[i]).1.wf() by {
            assert(s[i + 1].1.wf());
        }
        lemma_kept_entries_shape(rest, now_ms, threshold_ms);
        let k = kept_entries(s, now_ms, threshold_ms);
        if keep_span(s[0].0, s[0].1, now_ms, threshold_ms) {
            assert(k == seq![s[0]] + kept_rest);
            assert(!has_id(rest, s[0].0)) by {
                assert forall|i: int| 0 <= i < rest.len() implies (#[trigger] rest[i]).0 != s[0].0
                by {
                    assert(s[0].0 != s[i + 1].0);
                }
            }
            assert(!has_id(kept_rest, s[0].0));
            assert forall|a: int, b: int| 0 <= a < b < k.len() implies (#[trigger] k[a]).0 != (
            #[trigger] k[b]).0 by {
                if a == 0 {
                    assert(k[b] == kept_rest[b - 1]);
                    assert(has_id(kept_rest, kept_rest[b - 1].0)) by {
                        assert(0 <= b - 1 < kept_rest.len() && kept_rest[b - 1].0 == kept_rest[b
                            - 1].0);
                    }
                } else {
                    assert(kept_rest[a - 1].0 != kept_rest[b - 1].0);
                }
            }
            assert forall|j: int| 0 <= j < k.len() implies (#[trigger] k[j]).1.wf() by {
                if j > 0 {
                    assert(kept_rest[j - 1].1.wf());
                }
            }
            assert forall|id: u64| #[trigger] has_id(k, id) implies has_id(s, id) by {
                let w = choose|i: int| 0 <= i < k.len() && (#[trigger] k[i]).0 == id;
                if w == 0 {
                    assert(0 <= 0 < s.len() && s[0].0 == id);
                } else {
                    assert(0 <= w - 1 < kept_rest.len() && kept_rest[w - 1].0 == id);
                    assert(has_id(kept_rest, id));
                    assert(has_id(rest, id));
                    let v = choose|i: int| 0 <= i < rest.len() && (#[trigger] rest[i]).0 == id;
                    assert(0 <= v + 1 < s.len() && s[v + 1].0 == id);
                }
            }
        } else {
            assert(k == kept_rest);
            assert forall|id: u64| #[trigger] has_id(k, id) implies has_id(s, id) by {
                assert(has_id(kept_rest, id));
                assert(has_id(rest, id));
                let v = choose|i: int| 0 <= i < rest.len() && (#[trigger] rest[i]).0 == id;
                assert(0 <= v + 1 < s.len() && s[v + 1].0 == id);
            }
        }
    }
}

/// An eviction sweep keeps the store contents well formed: the sentinel
/// root is retained unconditionally and stays first.
proof fn lemma_kept_entries_wf(s: Seq<(u64, SpanModel)>, now_ms: i64, threshold_ms: i64)
    requires
        entries_wf(s),
    ensures
        entries_wf(kept_entries(s, now_ms, threshold_ms)),
        kept_entries(s, now_ms, threshold_ms)[0] == s[0],
{
    lemma_kept_entries_shape(s, now_ms, threshold_ms);
}

/// Every identifier found after an eviction sweep was present before
/// it.
proof fn lemma_kept_id_comes_from(
    s: Seq<(u64, SpanModel)>,
    now_ms: i64,
    threshold_ms: i64,
    id: u64,
)
    requires
        has_id(kept_entries(s, now_ms, threshold_ms), id),
    ensures
        has_id(s, id),
    decreases s.len(),
{
    if s.len() > 0 {
        let rest = s.drop_first();
        let kept_rest = kept_entries(rest, now_ms, threshold_ms);
        let k = kept_entries(s, now_ms, threshold_ms);
        let w = choose|i: int| 0 <= i < k.len() && (#[trigger] k[i]).0 == id;
        if keep_span(s[0].0, s[0].1, now_ms, threshold_ms) {
            assert(k == seq![s[0]] + kept_rest);
            if w == 0 {
                assert(0 <= 0 < s.len() && s[0].0 == id);
            } else {
                assert(0 <= w - 1 < kept_rest.len() && kept_rest[w - 1].0 == id);
                assert(has_id(kept_rest, id));
                lemma_kept_id_comes_from(rest, now_ms, threshold_ms, id);
                let v = choose|i: int| 0 <= i < rest.len() && (#[trigger] rest[i]).0 == id;
                assert(0 <= v + 1 < s.len() && s[v + 1].0 == id);
            }
        } else {
            assert(k == kept_rest);
            assert(0 <= w < kept_rest.len() && kept_rest[w].0 == id);
            assert(has_id(kept_rest, id));
            lemma_kept_id_comes_from(rest, now_ms, threshold_ms, id);
            let v = choose|i: int| 0 <= i < rest.len() && (#[trigger] rest[i]).0 == id;
            assert(0 <= v + 1 < s.len() && s[v + 1].0 == id);
        }
    }
}

/// The eviction sweep removes exactly the expired: an entry survives
/// `remove_expired` when it is the sentinel root, when it is still
/// open, or when no more than the threshold has passed since its close
/// time; otherwise it is removed.  A surviving record is unchanged.
pub proof fn lemma_eviction_policy(
    s: Seq<(u64, SpanModel)>,
    id: u64,
    m: SpanModel,
    now_ms: i64,
    threshold_ms: i64,
)
    requires
        keys_distinct(s),
        s.contains((id, m)),
    ensures
        kept_entries(s, now_ms, threshold_ms).contains((id, m)) == keep_span(
            id,
            m,
            now_ms,
            threshold_ms,
        ),
    decreases s.len(),
{
    let k = kept_entries(s, now_ms, threshold_ms);
    let rest = s.drop_first();
    let kept_rest = kept_entries(rest, now_ms, threshold_ms);
    let w = choose|i: int| 0 <= i < s.len() && #[trigger] s[i] == (id, m);
    assert forall|a: int, b: int| 0 <= a < b < rest.len() implies (#[trigger] rest[a]).0 != (
    #[trigger] rest[b]).0 by {
        assert(s[a + 1].0 != s[b + 1].0);
    }
    if w == 0 {
        assert(s[0] == (id, m));
        if keep_span(id, m, now_ms, threshold_ms) {
            assert(k == seq![s[0]] + kept_rest);
            assert(k[0] == (id, m));
            assert(k.contains((id, m)));
        } else {
            assert(k == kept_rest);
            assert(!has_id(rest, id)) by {
                assert forall|i: int| 0 <= i < rest.len() implies (#[trigger] rest[i]).0 != id by {
                    assert(s[i + 1].0 != s[0].0);
                }
            }
            if k.contains((id, m)) {
                let v = choose|i: int| 0 <= i < k.len() && #[trigger] k[i] == (id, m);
                assert(0 <= v < kept_rest.len() && kept_rest[v].0 == id);
                assert(has_id(kept_rest, id));
                lemma_kept_id_comes_from(rest, now_ms, threshold_ms, id);
            }
        }
    } else {
        assert(rest[w - 1] == (id, m));
        assert(rest.contains((id, m)));
        lemma_eviction_policy(rest, id, m, now_ms, threshold_ms);
        assert(s[0].0 != s[w].0);
        if keep_span(s[0].0, s[0].1, now_ms, threshold_ms) {
            assert(k == seq![s[0]] + kept_rest);
            if keep_span(id, m, now_ms, threshold_ms) {
                assert(kept_rest.contains((id, m)));
                let v = choose|i: int| 0 <= i < kept_rest.len() && #[trigger] kept_rest[i] == (
                id,
                m,
                );
                assert(k[v + 1] == (id, m));
                assert(k.contains((id, m)));
            } else {
                assert(!kept_rest.contains((id, m)));
                if k.contains((id, m)) {
                    let v = choose|i: int| 0 <= i < k.len() && #[trigger] k[i] == (id, m);
                    if v == 0 {
                        assert(s[0] == (id, m));
                    } else {
                        assert(kept_rest[v - 1] == (id, m));
                        assert(kept_rest.contains((id, m)));
                    }
                }
            }
        } else {
            assert(k == kept_rest);
        }
    }
}

/// A record with its timing snapshot replaced.
pub open spec fn spec_with_timing(r: SpanModel, t: Timing) -> SpanModel {
    SpanModel { timing: t, ..r }
}

/// A record with one more event appended.
pub open spec fn spec_with_event(r: SpanModel, e: EventModel) -> SpanModel {
    SpanModel { events: r.events.push(e), ..r }
}

/// A record as a close notification leaves it: its timing flushed and
/// closed, and its close time set now (never overwriting an earlier
/// close time, and never before its start time).
pub open spec fn spec_close_record(r: SpanModel, now_ms: i64, mono_now: u64) -> SpanModel {
    SpanModel {
        close_ms: match r.close_ms {
            Some(c) => Some(c),
            None => Some(
                if now_ms >= r.start_ms {
                    now_ms
                } else {
                    r.start_ms
                },
            ),
        },
        timing: r.timing.spec_close(mono_now),
        ..r
    }
}

/// A close time, once set, is never cleared or changed by a later
/// close, and a close time set now is never before the start time.
pub proof fn lemma_close_time_stable(r: SpanModel, now_ms: i64, mono_now: u64)
    ensures
        r.close_ms is Some ==> spec_close_record(r, now_ms, mono_now).close_ms == r.close_ms,
        r.close_ms is None ==> (match spec_close_record(r, now_ms, mono_now).close_ms {
            Some(c) => c >= r.start_ms && c >= now_ms,
            None => false,
        }),
{
}

/// The identifier an event is filed under: its enclosing span's, or the
/// sentinel root's when it has none.
pub open spec fn resolve_id(span_id: Option<u64>) -> u64 {
    match span_id {
        Some(i) => i,
        None => 0,
    }
}

/// The record store: span records keyed by identifier, in insertion
/// order, with the sentinel root record first.
#[derive(Debug)]
pub struct TraceStore {
    spans: indexmap::IndexMap<u64, SpanRecord>,
}

impl TraceStore {
    /// The store's contents: its identifier and record pairs, in order.
    pub closed spec fn entries(self) -> Seq<(u64, SpanModel)> {
        span_entries(self.spans)
    }

    /// Store well-formedness; true from creation and preserved by every
    /// operation.
    pub open spec fn wf(self) -> bool {
        entries_wf(self.entries())
    }

    /// Create a store holding exactly the sentinel root record, with
    /// the given creation timestamps.
    pub fn new_at(start_ms: i64, mono_now: u64) -> (s: TraceStore)
        ensures
            s.wf(),
            s.entries() == seq![(0u64, root_span(start_ms, mono_now))],
    {
        let mut m = map_new();
        let root = SpanRecord::new_at(Level::Info, "root".to_owned(), "root".to_owned(), start_ms,
            mono_now);
        map_insert(&mut m, 0, root);
        let s = TraceStore { spans: m };
        proof {
            assert(s.entries() =~= seq![(0u64, root_span(start_ms, mono_now))]);
            assert forall|j: int| 0 <= j < s.entries().len() implies (#[trigger] s.entries()[j]).1.wf()
            by {}
        }
        s
    }

    /// A point-in-time copy of every current record, in insertion
    /// order; always at least the sentinel root.
    pub fn spans(&self) -> (r: Vec<SpanRecord>)
        ensures
            r@.len() == self.entries().len(),
            forall|i: int| 0 <= i < r@.len() ==> (#[trigger] r@[i]).model() == self.entries()[i].1,
    {
        map_values_cloned(&self.spans)
    }

    /// Whether a record with this identifier is present.
    pub fn contains(&self, id: u64) -> (b: bool)
        ensures
            b == has_id(self.entries(), id),
    {
        map_contains(&self.spans, id)
    }

    /// Insert or overwrite the record at `id`.
    pub fn insert_span(&mut self, id: u64, span: SpanRecord)
        requires
            old(self).wf(),
            span.model().wf(),
        ensures
            final(self).wf(),
            final(self).entries() == spec_upsert(old(self).entries(), id, span.model()),
            has_id(final(self).entries(), id),
    {
        proof {
            lemma_upsert_wf(self.entries(), id, span.model());
        }
        map_insert(&mut self.spans, id, span);
    }

    /// Append `event` to the record at `span_id` if one is present;
    /// otherwise do nothing at all.
    pub fn insert_event(&mut self, span_id: u64, event: EventRecord)
        requires
            old(self).wf(),
        ensures
            final(self).wf(),
            !has_id(old(self).entries(), span_id) ==> final(self).entries() == old(self).entries(),
            has_id(old(self).entries(), span_id) ==> final(self).entries() == spec_upsert(
                old(self).entries(),
                span_id,
                spec_with_event(
                    old(self).entries()[index_of(old(self).entries(), span_id)].1,
                    event.model(),
                ),
            ),
    {
        match map_get_cloned(&self.spans, span_id) {
            None => {}
            Some(mut rec) => {
                let ghost m0 = rec.model();
                rec.events.push(event);
                proof {
                    assert(rec.model().events =~= m0.events.push(event.model()));
                    assert(rec.model() =~= spec_with_event(m0, event.model()));
                    assert(m0.wf()) by {
                        assert(old(self).entries()[index_of(old(self).entries(), span_id)].1.wf());
                    }
                    lemma_upsert_wf(self.entries(), span_id, rec.model());
                }
                map_insert(&mut self.spans, span_id, rec);
            }
        }
    }

    /// Overwrite the stored timing snapshot for `id`; a no-op if no
    /// record is present (a timing update may race a removal).
    pub(crate) fn update_timing(&mut self, id: u64, timing: &Timing)
        requires
            old(self).wf(),
            timing.inv(),
        ensures
            final(self).wf(),
            !has_id(old(self).entries(), id) ==> final(self).entries() == old(self).entries(),
            has_id(old(self).entries(), id) ==> final(self).entries() == spec_upsert(
                old(self).entries(),
                id,
                spec_with_timing(old(self).entries()[index_of(old(self).entries(), id)].1, *timing),
            ),
    {
        match map_get_cloned(&self.spans, id) {
            None => {}
            Some(mut rec) => {
                let ghost m0 = rec.model();
                rec.timing = *timing;
                proof {
                    assert(rec.model() =~= spec_with_timing(m0, *timing));
                    assert(m0.wf()) by {
                        assert(old(self).entries()[index_of(old(self).entries(), id)].1.wf());
                    }
                    lemma_upsert_wf(self.entries(), id, rec.model());
                }
                map_insert(&mut self.spans, id, rec);
            }
        }
    }

    /// Close the record at `id` at the given times: set its close time
    /// and close its timing.  The caller must know the record exists;
    /// the host guarantees a close always follows its creation.
    pub fn close_span_at(&mut self, id: u64, now_ms: i64, mono_now: u64)
        requires
            old(self).wf(),
            has_id(old(self).entries(), id),
        ensures
            final(self).wf(),
            final(self).entries() == spec_upsert(
                old(self).entries(),
                id,
                spec_close_record(
                    old(self).entries()[index_of(old(self).entries(), id)].1,
                    now_ms,
                    mono_now,
                ),
            ),
    {
        match map_get_cloned(&self.spans, id) {
            None => {}
            Some(mut rec) => {
                let ghost m0 = rec.model();
                proof {
                    assert(m0.wf()) by {
                        assert(old(self).entries()[index_of(old(self).entries(), id)].1.wf());
                    }
                }
                rec.timing.close_at(mono_now);
                rec.close_time = match rec.close_time {
                    Some(c) => Some(c),
                    None => Some(
                        if now_ms >= rec.start_time {
                            now_ms
                        } else {
                            rec.start_time
                        },
                    ),
                };
                proof {
                    assert(rec.model() =~= spec_close_record(m0, now_ms, mono_now));
                    lemma_upsert_wf(self.entries(), id, rec.model());
                }
                map_insert(&mut self.spans, id, rec);
            }
        }
    }

    /// Close the record at `id` at the current wall-clock and monotonic
    /// times.
    pub fn close_span(&mut self, id: u64)
        requires
            old(self).wf(),
            has_id(old(self).entries(), id),
        ensures
            final(self).wf(),
            exists|now_ms: i64, mono_now: u64|
                final(self).entries() == spec_upsert(
                    old(self).entries(),
                    id,
                    #[trigger] spec_close_record(
                        old(self).entries()[index_of(old(self).entries(), id)].1,
                        now_ms,
                        mono_now,
                    ),
                ),
    {
        let now_ms = wall_now_ms();
        let mono_now = mono_now_ns();
        self.close_span_at(id, now_ms, mono_now);
    }

    /// Remove every record whose close time lies more than
    /// `threshold_ms` before `now_ms`.  Open records and the sentinel
    /// root are retained unconditionally.
    pub fn remove_expired_at(&mut self, now_ms: i64, threshold_ms: i64)
        requires
            old(self).wf(),
        ensures
            final(self).wf(),
            final(self).entries() == kept_entries(old(self).entries(), now_ms, threshold_ms),
    {
        proof {
            lemma_kept_entries_wf(self.entries(), now_ms, threshold_ms);
        }
        map_retain_recent(&mut self.spans, now_ms, threshold_ms);
    }

    /// Handle a span-created notification at the given times: insert a
    /// fresh open record with the given metadata under `id`.
    pub fn on_span_created_at(
        &mut self,
        id: u64,
        level: Level,
        name: String,
        target: String,
        start_ms: i64,
        mono_now: u64,
    )
        requires
            old(self).wf(),
        ensures
            final(self).wf(),
            final(self).entries() == spec_upsert(
                old(self).entries(),
                id,
                fresh_span(level, name@, target@, start_ms, mono_now),
            ),
            has_id(final(self).entries(), id),
    {
        let rec = SpanRecord::new_at(level, name, target, start_ms, mono_now);
        self.insert_span(id, rec);
    }

    /// Handle a span-created notification at the current wall-clock and
    /// monotonic times.
    pub fn on_span_created(&mut self, id: u64, level: Level, name: String, target: String)
        requires
            old(self).wf(),
        ensures
            final(self).wf(),
            has_id(final(self).entries(), id),
            exists|start_ms: i64, mono_now: u64|
                final(self).entries() == spec_upsert(
                    old(self).entries(),
                    id,
                    #[trigger] fresh_span(level, name@, target@, start_ms, mono_now),
                ),
    {
        let start_ms = wall_now_ms();
        let mono_now = mono_now_ns();
        self.on_span_created_at(id, level, name, target, start_ms, mono_now);
    }

    /// Handle a span-entered notification at the given monotonic time:
    /// apply `enter` to the record's timing and store the new snapshot.
    /// A missing record is a benign race and leaves the store unchanged.
    pub fn on_span_entered_at(&mut self, id: u64, mono_now: u64)
        requires
            old(self).wf(),
        ensures
            final(self).wf(),
            !has_id(old(self).entries(), id) ==> final(self).entries() == old(self).entries(),
            has_id(old(self).entries(), id) ==> final(self).entries() == spec_upsert(
                old(self).entries(),
                id,
                spec_with_timing(
                    old(self).entries()[index_of(old(self).entries(), id)].1,
                    old(self).entries()[index_of(old(self).entries(), id)].1.timing.spec_enter(
                        mono_now,
                    ),
                ),
            ),
    {
        match map_get_cloned(&self.spans, id) {
            None => {}
            Some(rec) => {
                let mut t = rec.timing;
                proof {
                    assert(old(self).entries()[index_of(old(self).entries(), id)].1.wf());
                }
                t.enter_at(mono_now);
                self.update_timing(id, &t);
            }
        }
    }

    /// Handle a span-entered notification at the current monotonic
    /// time.
    pub fn on_span_entered(&mut self, id: u64)
        requires
            old(self).wf(),
        ensures
            final(self).wf(),
            !has_id(old(self).entries(), id) ==> final(self).entries() == old(self).entries(),
            has_id(old(self).entries(), id) ==> exists|mono_now: u64|
                final(self).entries() == spec_upsert(
                    old(self).entries(),
                    id,
                    spec_with_timing(
                        old(self).entries()[index_of(old(self).entries(), id)].1,
                        #[trigger] old(self).entries()[index_of(
                            old(self).entries(),
                            id,
                        )].1.timing.spec_enter(mono_now),
                    ),
                ),
    {
        let mono_now = mono_now_ns();
        self.on_span_entered_at(id, mono_now);
    }

    /// Handle a span-exited notification at the given monotonic time:
    /// apply `exit` to the record's timing and store the new snapshot.
    /// A missing record is a benign race and leaves the store unchanged.
    pub fn on_span_exited_at(&mut self, id: u64, mono_now: u64)
        requires
            old(self).wf(),
        ensures
            final(self).wf(),
            !has_id(old(self).entries(), id) ==> final(self).entries() == old(self).entries(),
            has_id(old(self).entries(), id) ==> final(self).entries() == spec_upsert(
                old(self).entries(),
                id,
                spec_with_timing(
                    old(self).entries()[index_of(old(self).entries(), id)].1,
                    old(self).entries()[index_of(old(self).entries(), id)].1.timing.spec_exit(
                        mono_now,
                    ),
                ),
            ),
    {
        match map_get_cloned(&self.spans, id) {
            None => {}
            Some(rec) => {
                let mut t = rec.timing;
                proof {
                    assert(old(self).entries()[index_of(old(self).entries(), id)].1.wf());
                }
                t.exit_at(mono_now);
                self.update_timing(id, &t);
            }
        }
    }

    /// Handle a span-exited notification at the current monotonic time.
    pub fn on_span_exited(&mut self, id: u64)
        requires
            old(self).wf(),
        ensures
            final(self).wf(),
            !has_id(old(self).entries(), id) ==> final(self).entries() == old(self).entries(),
            has_id(old(self).entries(), id) ==> exists|mono_now: u64|
                final(self).entries() == spec_upsert(
                    old(self).entries(),
                    id,
                    spec_with_timing(
                        old(self).entries()[index_of(old(self).entries(), id)].1,
                        #[trigger] old(self).entries()[index_of(
                            old(self).entries(),
                            id,
                        )].1.timing.spec_exit(mono_now),
                    ),
                ),
    {
        let mono_now = mono_now_ns();
        self.on_span_exited_at(id, mono_now);
    }

    /// Handle an event notification captured at the given wall-clock
    /// time: build the event record and file it under the enclosing
    /// span's identifier, or under the sentinel root when there is
    /// none.  An unknown identifier leaves the store unchanged.
    pub fn on_event_at(
        &mut self,
        span_id: Option<u64>,
        level: Level,
        fields: Vec<(String, String)>,
        time_ms: i64,
    )
        requires
            old(self).wf(),
        ensures
            final(self).wf(),
            !has_id(old(self).entries(), resolve_id(span_id)) ==> final(self).entries() == old(
                self,
            ).entries(),
            has_id(old(self).entries(), resolve_id(span_id)) ==> final(self).entries()
                == spec_upsert(
                old(self).entries(),
                resolve_id(span_id),
                spec_with_event(
                    old(self).entries()[index_of(old(self).entries(), resolve_id(span_id))].1,
                    (EventRecord { time: time_ms, level, fields }).model(),
                ),
            ),
    {
        let id = match span_id {
            Some(i) => i,
            None => 0,
        };
        let ev = EventRecord { time: time_ms, level, fields };
        self.insert_event(id, ev);
    }

    /// Handle an event notification at the current wall-clock time.
    pub fn on_event(&mut self, span_id: Option<u64>, level: Level, fields: Vec<(String, String)>)
        requires
            old(self).wf(),
        ensures
            final(self).wf(),
            !has_id(old(self).entries(), resolve_id(span_id)) ==> final(self).entries() == old(
                self,
            ).entries(),
            has_id(old(self).entries(), resolve_id(span_id)) ==> exists|time_ms: i64|
                final(self).entries() == spec_upsert(
                    old(self).entries(),
                    resolve_id(span_id),
                    #[trigger] spec_with_event(
                        old(self).entries()[index_of(old(self).entries(), resolve_id(span_id))].1,
                        (EventRecord { time: time_ms, level, fields }).model(),
                    ),
                ),
    {
        let time_ms = wall_now_ms();
        self.on_event_at(span_id, level, fields, time_ms);
    }

    /// Remove every record closed more than `threshold_ms` before the
    /// current wall-clock time.
    pub fn remove_expired(&mut self, threshold_ms: i64)
        requires
            old(self).wf(),
        ensures
            final(self).wf(),
            exists|now_ms: i64|
                final(self).entries() == #[trigger] kept_entries(
                    old(self).entries(),
                    now_ms,
                    threshold_ms,
                ),
    {
        let now_ms = wall_now_ms();
        self.remove_expired_at(now_ms, threshold_ms);
    }
}

} // verus!
