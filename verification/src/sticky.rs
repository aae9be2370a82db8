//! Sticky sessions: which backend a client's affinity key is bound to, and for how long.
//!
//! Times are nanoseconds of a monotonic clock that the caller reads.

use std::collections::hash_map::DefaultHasher;
use std::hash::Hasher;

use vstd::prelude::*;
use vstd::std_specs::hash::*;
use vstd::string::*;

use crate::lb::{BackendSet, TransportKind};
use crate::table::{RowFilter, Table, TableKey};
use crate::text;

pub mod laws;

verus! {

/// The number of shards over which the entries are spread.
pub const STICKY_SHARD_COUNT: usize = 64;

/// The length of the longest affinity key that a request may bring, in bytes.
pub const MAX_AFFINITY_KEY_LEN: usize = 256;

/// A shard asks for a cleanup every that many operations.
pub const CLEANUP_INTERVAL: u64 = 128;

/// Nanoseconds in a millisecond.
pub const NANOS_PER_MS: u64 = 1_000_000;

/// How sticky sessions behave.
#[derive(Debug, Clone)]
pub struct StickySessionConfig {
    pub enabled: bool,
    /// The cookie that carries the affinity key.
    pub cookie_name: String,
    /// The header that carries the affinity key when no cookie does.
    pub header_name: String,
    /// How long a binding lives after its last use, in milliseconds.
    pub ttl_ms: u32,
    /// How many bindings are kept at most.
    pub max_entries: usize,
    /// Whether the cookie is marked `Secure`.
    pub cookie_secure: bool,
}

impl StickySessionConfig {
    /// How long a binding lives after its last use, in nanoseconds.
    pub open spec fn ttl(self) -> int {
        self.ttl_ms * NANOS_PER_MS
    }
}

/// What a binding is found by.
#[derive(Debug)]
pub struct AffinityMapKey {
    pub app_name: String,
    pub transport: TransportKind,
    pub affinity_key: String,
}

/// The mathematical form of an [`AffinityMapKey`].
pub struct AffinityKeyView {
    pub app_name: Seq<char>,
    pub transport: TransportKind,
    pub affinity_key: Seq<char>,
}

impl View for AffinityMapKey {
    type V = AffinityKeyView;

    open spec fn view(&self) -> AffinityKeyView {
        AffinityKeyView {
            app_name: self.app_name@,
            transport: self.transport,
            affinity_key: self.affinity_key@,
        }
    }
}

impl TableKey for AffinityMapKey {
    type Query = AffinityMapKey;

    fn answers(&self, query: &AffinityMapKey) -> (r: bool) {
        self.transport == query.transport && self.app_name == query.app_name && self.affinity_key
            == query.affinity_key
    }

    fn as_query(&self) -> (r: &AffinityMapKey) {
        self
    }
}

impl AffinityMapKey {
    /// The key made of these parts.
    pub fn new(app_name: &str, transport: TransportKind, affinity_key: &str) -> (r: Self)
        ensures
            r@ == affinity(app_name@, transport, affinity_key@),
    {
        AffinityMapKey {
            app_name: app_name.to_owned(),
            transport,
            affinity_key: affinity_key.to_owned(),
        }
    }

    fn duplicate(&self) -> (r: Self)
        ensures
            r == *self,
    {
        AffinityMapKey {
            app_name: self.app_name.clone(),
            transport: self.transport,
            affinity_key: self.affinity_key.clone(),
        }
    }
}

/// The key made of these parts.
pub open spec fn affinity(
    app_name: Seq<char>,
    transport: TransportKind,
    affinity_key: Seq<char>,
) -> AffinityKeyView {
    AffinityKeyView { app_name, transport, affinity_key }
}

/// A binding: the backend, and the time from which on it no longer counts.
#[derive(Debug)]
pub struct AffinityEntry {
    pub backend: String,
    pub expires_at: u64,
}

/// A note that `key` was given the expiry time `expires_at`.
#[derive(Debug)]
pub struct EvictionItem {
    pub expires_at: u64,
    pub sequence: u64,
    pub shard_index: usize,
    pub key: AffinityMapKey,
}

/// The mathematical form of an [`EvictionItem`].
pub struct Note {
    pub expires_at: u64,
    pub sequence: u64,
    pub shard_index: int,
    pub key: AffinityKeyView,
}

impl View for EvictionItem {
    type V = Note;

    open spec fn view(&self) -> Note {
        Note {
            expires_at: self.expires_at,
            sequence: self.sequence,
            shard_index: self.shard_index as int,
            key: self.key@,
        }
    }
}

impl Note {
    /// Whether this note is taken no later than `other`: the sooner expiry first, and of equal
    /// ones the one that was made first.
    pub open spec fn le(self, other: Self) -> bool {
        self.expires_at < other.expires_at || (self.expires_at == other.expires_at && self.sequence
            <= other.sequence)
    }
}

/// The notes that a list of items stands for.
spec fn notes_of(items: Seq<EvictionItem>) -> Seq<Note> {
    Seq::new(items.len(), |i: int| items[i]@)
}

impl EvictionItem {
    fn precedes(&self, other: &Self) -> (r: bool)
        ensures
            r == self@.le(other@),
    {
        self.expires_at < other.expires_at || (self.expires_at == other.expires_at && self.sequence
            <= other.sequence)
    }
}

/// A part of the bindings, with the number of operations that it has seen.
pub struct StickyShard {
    entries: Table<AffinityMapKey, AffinityEntry>,
    op_counter: u64,
}

/// The bindings of all applications.
pub struct StickySessionState {
    config: StickySessionConfig,
    shards: Vec<StickyShard>,
    eviction_index: Vec<EvictionItem>,
    key_counter: u64,
    eviction_counter: u64,
}

/// The mathematical form of a [`StickySessionState`].
#[verifier::ext_equal]
pub struct StickyModel {
    /// The bindings.
    pub entries: Map<AffinityKeyView, AffinityEntry>,
    /// The notes from which evictions are taken, in the order in which they are taken.
    pub index: Seq<Note>,
    /// How many operations each shard has seen.
    pub ops: Seq<u64>,
    /// The sequence number of the next note.
    pub next_sequence: u64,
    /// The number in the next generated affinity key.
    pub next_key: u64,
}

/// The counter value behind `x`.
pub open spec fn next(x: u64) -> u64 {
    if x == u64::MAX {
        0
    } else {
        (x + 1) as u64
    }
}

fn step(x: u64) -> (r: u64)
    ensures
        r == next(x),
{
    if x == u64::MAX {
        0
    } else {
        x + 1
    }
}

/// A number for each transport.
pub open spec fn transport_number(transport: TransportKind) -> u8 {
    match transport {
        TransportKind::Http1 => 0,
        TransportKind::Http2 => 1,
        TransportKind::Ws => 2,
    }
}

/// The writes by which a key is hashed: each text closed by a byte that no text holds, and the
/// transport's number in eight bytes between them.
pub open spec fn hashed_bytes(key: AffinityKeyView) -> Seq<Seq<u8>> {
    seq![
        vstd::utf8::encode_utf8(key.app_name),
        seq![255u8],
        seq![transport_number(key.transport), 0, 0, 0, 0, 0, 0, 0],
        vstd::utf8::encode_utf8(key.affinity_key),
        seq![255u8],
    ]
}

/// The shard that keeps `key`.
pub open spec fn shard_of(key: AffinityKeyView) -> int {
    (DefaultHasher::spec_finish(hashed_bytes(key)) as usize) as int % STICKY_SHARD_COUNT as int
}

/// Whether the shards keep each binding where [`shard_of`] says.
spec fn placed(shards: Seq<StickyShard>) -> bool {
    &&& shards.len() == STICKY_SHARD_COUNT
    &&& forall|s: int, k: AffinityKeyView|
        0 <= s < shards.len() && #[trigger] shards[s].entries@.contains_key(k) ==> shard_of(k) == s
}

spec fn entries_of(shards: Seq<StickyShard>) -> Map<AffinityKeyView, AffinityEntry> {
    Map::new(
        |k: AffinityKeyView| shards[shard_of(k)].entries@.contains_key(k),
        |k: AffinityKeyView| shards[shard_of(k)].entries@[k],
    )
}

/// Whether the notes stand in the order in which evictions are taken from them.
pub open spec fn in_order(index: Seq<Note>) -> bool {
    forall|i: int, j: int| 0 <= i < j < index.len() ==> (#[trigger] index[i]).le(#[trigger] index[j])
}

/// Whether `item` notes that `key` expires at `expires_at`.
pub open spec fn notes(item: Note, key: AffinityKeyView, expires_at: u64) -> bool {
    item.key == key && item.expires_at == expires_at && item.shard_index == shard_of(key)
}

/// Whether every binding has a note of its present expiry time.
pub open spec fn all_noted(
    entries: Map<AffinityKeyView, AffinityEntry>,
    index: Seq<Note>,
) -> bool {
    forall|k: AffinityKeyView| #[trigger]
        entries.contains_key(k) ==> exists|j: int|
            0 <= j < index.len() && notes(#[trigger] index[j], k, entries[k].expires_at)
}

/// Where a new note goes among the first `n`: behind the last one that is evicted before it.
pub open spec fn slot(index: Seq<Note>, item: Note, n: int) -> int
    decreases n,
{
    if n <= 0 {
        0
    } else if index[n - 1].le(item) {
        n
    } else {
        slot(index, item, n - 1)
    }
}

/// `index` with a new note.
pub open spec fn with_note(index: Seq<Note>, item: Note) -> Seq<Note> {
    index.insert(slot(index, item, index.len() as int), item)
}

/// A new note goes behind those that are taken no later, and before those that are taken later.
pub proof fn lemma_slot(index: Seq<Note>, item: Note, n: int)
    requires
        in_order(index),
        0 <= n <= index.len(),
    ensures
        0 <= slot(index, item, n) <= n,
        forall|i: int| 0 <= i < slot(index, item, n) ==> (#[trigger] index[i]).le(item),
        forall|i: int| slot(index, item, n) <= i < n ==> item.le(#[trigger] index[i]),
    decreases n,
{
    if n > 0 {
        lemma_slot(index, item, n - 1);
        if index[n - 1].le(item) {
            assert forall|i: int| 0 <= i < n implies (#[trigger] index[i]).le(item) by {
                if i < n - 1 {
                    assert(index[i].le(index[n - 1]));
                }
            }
        }
    }
}

/// A new note keeps the index in order, and the bindings noted.
pub proof fn lemma_with_note(
    entries: Map<AffinityKeyView, AffinityEntry>,
    index: Seq<Note>,
    item: Note,
)
    requires
        in_order(index),
        all_noted(entries, index),
    ensures
        in_order(with_note(index, item)),
        all_noted(entries, with_note(index, item)),
        with_note(index, item).contains(item),
{
    let p = slot(index, item, index.len() as int);
    lemma_slot(index, item, index.len() as int);
    let out = with_note(index, item);
    assert(out[p] == item);
    assert forall|i: int, j: int| 0 <= i < j < out.len() implies (#[trigger] out[i]).le(
        #[trigger] out[j],
    ) by {
        let a = if i < p { i } else { i - 1 };
        let b = if j < p { j } else { j - 1 };
        if i != p {
            assert(out[i] == index[a]);
        }
        if j != p {
            assert(out[j] == index[b]);
        }
    }
    assert forall|k: AffinityKeyView| #[trigger] entries.contains_key(k) implies exists|j: int|
        0 <= j < out.len() && notes(#[trigger] out[j], k, entries[k].expires_at) by {
        let j = choose|j: int|
            0 <= j < index.len() && notes(#[trigger] index[j], k, entries[k].expires_at);
        let b = if j < p { j } else { j + 1 };
        assert(out[b] == index[j]);
    }
}

proof fn lemma_removed(shards: Seq<StickyShard>, after: Seq<StickyShard>, k: AffinityKeyView)
    requires
        placed(shards),
        after.len() == shards.len(),
        forall|s: int|
            0 <= s < shards.len() && s != shard_of(k) ==> (#[trigger] after[s]).entries@
                == shards[s].entries@,
        after[shard_of(k)].entries@ == shards[shard_of(k)].entries@.remove(k),
    ensures
        placed(after),
        entries_of(after) == entries_of(shards).remove(k),
{
    assert forall|x: AffinityKeyView| true implies 0 <= #[trigger] shard_of(x)
        < STICKY_SHARD_COUNT by {
        lemma_shard_range(x);
    }
    assert(entries_of(after) =~= entries_of(shards).remove(k));
}

proof fn lemma_inserted(
    shards: Seq<StickyShard>,
    after: Seq<StickyShard>,
    k: AffinityKeyView,
    e: AffinityEntry,
)
    requires
        placed(shards),
        after.len() == shards.len(),
        forall|s: int|
            0 <= s < shards.len() && s != shard_of(k) ==> (#[trigger] after[s]).entries@
                == shards[s].entries@,
        after[shard_of(k)].entries@ == shards[shard_of(k)].entries@.insert(k, e),
    ensures
        placed(after),
        entries_of(after) == entries_of(shards).insert(k, e),
{
    assert forall|x: AffinityKeyView| true implies 0 <= #[trigger] shard_of(x)
        < STICKY_SHARD_COUNT by {
        lemma_shard_range(x);
    }
    assert(entries_of(after) =~= entries_of(shards).insert(k, e));
}

/// Whether a binding still counts at `now`.
pub open spec fn counts(entry: AffinityEntry, now: u64) -> bool {
    now < entry.expires_at
}

/// Chooses the bindings that still count at `now`.
struct Counting {
    now: u64,
}

impl RowFilter<AffinityEntry> for Counting {
    closed spec fn accepts(&self, entry: AffinityEntry) -> bool {
        counts(entry, self.now)
    }

    fn accept(&self, entry: &AffinityEntry) -> (r: bool) {
        self.now < entry.expires_at
    }
}

/// The bindings that still count at `now`.
pub open spec fn live(entries: Map<AffinityKeyView, AffinityEntry>, now: u64) -> Map<
    AffinityKeyView,
    AffinityEntry,
> {
    Map::new(
        |k: AffinityKeyView| entries.contains_key(k) && counts(entries[k], now),
        |k: AffinityKeyView| entries[k],
    )
}

/// Whether `item` notes the present expiry time of a binding.
pub open spec fn is_current(
    entries: Map<AffinityKeyView, AffinityEntry>,
    item: Note,
) -> bool {
    &&& entries.contains_key(item.key)
    &&& notes(item, item.key, entries[item.key].expires_at)
}

/// Takes notes off the front until `n` bindings are evicted or no note is left. A note that is not
/// current evicts nothing.
pub open spec fn evict(
    entries: Map<AffinityKeyView, AffinityEntry>,
    index: Seq<Note>,
    n: nat,
) -> (Map<AffinityKeyView, AffinityEntry>, Seq<Note>)
    decreases index.len(),
{
    if n == 0 || index.len() == 0 {
        (entries, index)
    } else if is_current(entries, index[0]) {
        evict(entries.remove(index[0].key), index.drop_first(), (n - 1) as nat)
    } else {
        evict(entries, index.drop_first(), n)
    }
}

/// A note that is taken off evicts its binding or is not current, so what is left is still noted.
pub proof fn lemma_notes_left(
    entries: Map<AffinityKeyView, AffinityEntry>,
    index: Seq<Note>,
)
    requires
        all_noted(entries, index),
        index.len() > 0,
    ensures
        is_current(entries, index[0]) ==> all_noted(
            entries.remove(index[0].key),
            index.drop_first(),
        ),
        !is_current(entries, index[0]) ==> all_noted(entries, index.drop_first()),
{
    let rest = index.drop_first();
    assert forall|k: AffinityKeyView| #[trigger]
        entries.contains_key(k) && !(is_current(entries, index[0]) && k
            == index[0].key) implies exists|j: int|
        0 <= j < rest.len() && notes(#[trigger] rest[j], k, entries[k].expires_at) by {
        let j = choose|j: int|
            0 <= j < index.len() && notes(#[trigger] index[j], k, entries[k].expires_at);
        if j == 0 {
            assert(false);
        }
        assert(rest[j - 1] == index[j]);
    }
}

impl StickyModel {
    /// What a cleanup at `now` leaves: the bindings that still count, less those that are over
    /// `max_entries`, which are evicted in the order of the notes.
    pub open spec fn cleaned(self, now: u64, max_entries: usize) -> StickyModel {
        let kept = live(self.entries, now);
        if kept.len() <= max_entries {
            StickyModel { entries: kept, ..self }
        } else {
            let (entries, index) = evict(kept, self.index, (kept.len() - max_entries) as nat);
            StickyModel { entries, index, ..self }
        }
    }

    /// With one more operation counted for `shard`.
    pub open spec fn counted(self, shard: int) -> StickyModel {
        StickyModel { ops: self.ops.update(shard, next(self.ops[shard])), ..self }
    }

    /// Whether the next operation of `shard` brings a cleanup.
    pub open spec fn cleanup_due(self, shard: int) -> bool {
        self.ops[shard] % CLEANUP_INTERVAL == 0
    }

    /// With `key` bound to a backend up to a time, and a note of that time.
    pub open spec fn bound(self, key: AffinityKeyView, entry: AffinityEntry) -> StickyModel {
        StickyModel {
            entries: self.entries.insert(key, entry),
            index: with_note(
                self.index,
                Note {
                    expires_at: entry.expires_at,
                    sequence: self.next_sequence,
                    shard_index: shard_of(key),
                    key,
                },
            ),
            next_sequence: next(self.next_sequence),
            ..self
        }
    }

    /// With the binding of `key` removed.
    pub open spec fn unbound(self, key: AffinityKeyView) -> StickyModel {
        StickyModel { entries: self.entries.remove(key), ..self }
    }

    /// With an operation on `key` counted, and the cleanup that it brings.
    pub open spec fn visited(
        self,
        key: AffinityKeyView,
        now: u64,
        max_entries: usize,
    ) -> StickyModel {
        if self.cleanup_due(shard_of(key)) {
            self.counted(shard_of(key)).cleaned(now, max_entries)
        } else {
            self.counted(shard_of(key))
        }
    }

    /// With `key` bound and the operation counted. A cleanup follows when it is due, and also when
    /// the bindings are over the limit.
    pub open spec fn bound_within(
        self,
        key: AffinityKeyView,
        entry: AffinityEntry,
        now: u64,
        max_entries: usize,
    ) -> StickyModel {
        let m = self.bound(key, entry).counted(shard_of(key));
        if self.cleanup_due(shard_of(key)) || m.entries.len() > max_entries {
            m.cleaned(now, max_entries)
        } else {
            m
        }
    }

    /// The binding that a lookup of `key` finds, if it finds one.
    pub open spec fn found(
        self,
        key: AffinityKeyView,
        allowed: Set<Seq<char>>,
        now: u64,
        max_entries: usize,
    ) -> Option<AffinityEntry> {
        let m = self.visited(key, now, max_entries);
        if m.hits(key, now, allowed) {
            Some(m.entries[key])
        } else {
            None
        }
    }

    /// After a lookup of `key`: what it finds is bound for a full time to live from now, and what
    /// does not count or is not allowed is dropped.
    pub open spec fn looked_up(
        self,
        key: AffinityKeyView,
        allowed: Set<Seq<char>>,
        now: u64,
        config: StickySessionConfig,
    ) -> StickyModel {
        let m = self.visited(key, now, config.max_entries);
        match self.found(key, allowed, now, config.max_entries) {
            Some(entry) => m.bound(
                key,
                AffinityEntry {
                    backend: entry.backend,
                    expires_at: (now + config.ttl()) as u64,
                },
            ),
            None => m.unbound(key),
        }
    }

    /// Whether `key` is bound at `now` to a backend that is allowed.
    pub open spec fn hits(self, key: AffinityKeyView, now: u64, allowed: Set<Seq<char>>) -> bool {
        &&& self.entries.contains_key(key)
        &&& counts(self.entries[key], now)
        &&& allowed.contains(self.entries[key].backend@)
    }

    /// The model before anything was bound.
    pub open spec fn initial() -> StickyModel {
        StickyModel {
            entries: Map::empty(),
            index: Seq::empty(),
            ops: Seq::new(STICKY_SHARD_COUNT as nat, |s: int| 0),
            next_sequence: 1,
            next_key: 1,
        }
    }
}

/// The affinity key that is made up at `now_nanos` with the number `tick`.
pub open spec fn generated_key(now_nanos: u128, tick: u64) -> Seq<char> {
    text::numeral(now_nanos as nat, 16) + text::numeral(tick as nat, 16)
}

/// The cookie that hands `affinity_key` to a client.
pub open spec fn set_cookie(config: StickySessionConfig, affinity_key: Seq<char>) -> Seq<char> {
    let seconds = config.ttl_ms as nat / 1000;
    let max_age: nat = if seconds < 1 {
        1
    } else {
        seconds
    };
    let cookie = config.cookie_name@ + "="@ + affinity_key + "; Max-Age="@ + text::numeral(
        max_age,
        10,
    ) + "; Path=/; HttpOnly; SameSite=Lax"@;
    if config.cookie_secure {
        cookie + "; Secure"@
    } else {
        cookie
    }
}

spec fn total_upto(shards: Seq<StickyShard>, n: int) -> nat
    decreases n,
{
    if n <= 0 {
        0
    } else {
        total_upto(shards, n - 1) + shards[n - 1].entries@.len()
    }
}

proof fn lemma_total_same(a: Seq<StickyShard>, b: Seq<StickyShard>, n: int)
    requires
        0 <= n <= a.len() == b.len(),
        forall|s: int| 0 <= s < n ==> (#[trigger] a[s]).entries@ == b[s].entries@,
    ensures
        total_upto(a, n) == total_upto(b, n),
    decreases n,
{
    if n > 0 {
        lemma_total_same(a, b, n - 1);
    }
}

proof fn lemma_entries_finite(shards: Seq<StickyShard>)
    requires
        placed(shards),
    ensures
        entries_of(shards).dom().finite(),
        entries_of(shards).len() == total_upto(shards, STICKY_SHARD_COUNT as int),
{
    assert forall|s: int| 0 <= s < shards.len() implies (
    #[trigger] shards[s]).entries@.dom().finite() by {
        shards[s].entries.lemma_finite();
    }
    lemma_total(shards, STICKY_SHARD_COUNT as int);
    assert forall|k: AffinityKeyView| true implies 0 <= #[trigger] shard_of(k)
        < STICKY_SHARD_COUNT by {
        lemma_shard_range(k);
    }
    assert(entries_of(shards).dom() =~= keys_upto(shards, STICKY_SHARD_COUNT as int));
}

proof fn lemma_total(shards: Seq<StickyShard>, n: int)
    requires
        placed(shards),
        0 <= n <= shards.len(),
        forall|s: int| 0 <= s < shards.len() ==> (#[trigger] shards[s]).entries@.dom().finite(),
    ensures
        keys_upto(shards, n).finite(),
        keys_upto(shards, n).len() == total_upto(shards, n),
    decreases n,
{
    if n <= 0 {
        assert(keys_upto(shards, n) =~= Set::empty());
    } else {
        lemma_total(shards, n - 1);
        let a = keys_upto(shards, n - 1);
        let b = shards[n - 1].entries@.dom();
        assert(keys_upto(shards, n) =~= a + b);
        assert(a.disjoint(b));
        vstd::set_lib::lemma_set_disjoint_lens(a, b);
    }
}

spec fn keys_upto(shards: Seq<StickyShard>, n: int) -> Set<AffinityKeyView> {
    Set::new(
        |k: AffinityKeyView|
            0 <= shard_of(k) < n && shards[shard_of(k)].entries@.contains_key(k),
    )
}

/// The shards are numbered from zero.
pub proof fn lemma_shard_range(k: AffinityKeyView)
    ensures
        0 <= shard_of(k) < STICKY_SHARD_COUNT,
{
}

impl StickySessionState {
    /// The mathematical form of the bindings.
    pub closed spec fn model(self) -> StickyModel {
        StickyModel {
            entries: entries_of(self.shards@),
            index: notes_of(self.eviction_index@),
            ops: Seq::new(self.shards@.len(), |s: int| self.shards@[s].op_counter),
            next_sequence: self.eviction_counter,
            next_key: self.key_counter,
        }
    }

    /// How the sessions behave.
    pub closed spec fn settings(self) -> StickySessionConfig {
        self.config
    }

    /// Each binding stands in its shard, and has a note of its expiry time in the index, which is
    /// in order.
    spec fn kept_in_order(self) -> bool {
        &&& placed(self.shards@)
        &&& in_order(notes_of(self.eviction_index@))
        &&& all_noted(entries_of(self.shards@), notes_of(self.eviction_index@))
    }

    /// The bindings are kept in order, and are no more than the limit.
    pub closed spec fn wf(self) -> bool {
        &&& self.kept_in_order()
        &&& entries_of(self.shards@).len() <= self.config.max_entries
    }

    /// Sessions without any binding.
    pub fn new(config: StickySessionConfig) -> (r: Self)
        ensures
            r.wf(),
            r.settings() == config,
            r.model() == StickyModel::initial(),
    {
        let mut shards: Vec<StickyShard> = Vec::new();
        let mut s: usize = 0;
        while s < STICKY_SHARD_COUNT
            invariant
                s <= STICKY_SHARD_COUNT,
                shards@.len() == s,
                forall|j: int|
                    0 <= j < s ==> (#[trigger] shards@[j]).entries@ == Map::<
                        AffinityKeyView,
                        AffinityEntry,
                    >::empty() && shards@[j].op_counter == 0,
            decreases STICKY_SHARD_COUNT - s,
        {
            shards.push(StickyShard { entries: Table::new(), op_counter: 0 });
            s += 1;
        }
        let r = StickySessionState {
            config,
            shards,
            eviction_index: Vec::new(),
            key_counter: 1,
            eviction_counter: 1,
        };
        proof {
            assert forall|k: AffinityKeyView| true implies 0 <= #[trigger] shard_of(k)
                < STICKY_SHARD_COUNT by {
                lemma_shard_range(k);
            }
            assert(r.model() =~= StickyModel::initial());
        }
        r
    }

    /// How the sessions behave.
    pub fn config(&self) -> (r: &StickySessionConfig)
        ensures
            *r == self.settings(),
    {
        &self.config
    }

    /// The backend that a key is bound to, if it is one of `allowed_backends`.
    ///
    /// A hit extends the binding to a full time to live from now. A binding that no longer counts,
    /// or whose backend is not allowed, is dropped.
    pub fn lookup(
        &mut self,
        app_name: &str,
        transport: TransportKind,
        affinity_key: &str,
        allowed_backends: &BackendSet,
        now: u64,
    ) -> (r: Option<String>)
        requires
            old(self).wf(),
            now + old(self).settings().ttl() <= u64::MAX,
        ensures
            final(self).wf(),
            final(self).settings() == old(self).settings(),
            ({
                let key = affinity(app_name@, transport, affinity_key@);
                let found = old(self).model().found(
                    key,
                    allowed_backends@,
                    now,
                    old(self).settings().max_entries,
                );
                &&& r == (match found {
                    Some(entry) => Some(entry.backend),
                    None => None,
                })
                &&& final(self).model() == old(self).model().looked_up(
                    key,
                    allowed_backends@,
                    now,
                    old(self).settings(),
                )
            }),
    {
        let key = AffinityMapKey::new(app_name, transport, affinity_key);
        let shard_index = self.shard_index_for_key(&key);
        if self.should_cleanup(shard_index) {
            self.cleanup_global(now);
        }
        let ghost m = self.model();
        assert(m =~= old(self).model().visited(key@, now, old(self).settings().max_entries));
        let found: Option<String> = match self.shards[shard_index].entries.get(&key) {
            Some(entry) => if now < entry.expires_at && allowed_backends.contains(
                entry.backend.as_str(),
            ) {
                Some(entry.backend.clone())
            } else {
                None
            },
            None => None,
        };
        match found {
            Some(backend) => {
                let expires_at: u64 = now + self.config.ttl_ms as u64 * NANOS_PER_MS;
                proof {
                    lemma_entries_finite(self.shards@);
                }
                self.write_binding(shard_index, key, backend.clone(), expires_at);
                Some(backend)
            },
            None => {
                proof {
                    lemma_entries_finite(self.shards@);
                }
                self.drop_binding(shard_index, &key);
                None
            },
        }
    }

    /// Binds a key to a backend for a full time to live from now. Where the bindings would be over
    /// the limit, those that expire soonest make room.
    pub fn bind(
        &mut self,
        app_name: &str,
        transport: TransportKind,
        affinity_key: &str,
        backend: String,
        now: u64,
    )
        requires
            old(self).wf(),
            now + old(self).settings().ttl() <= u64::MAX,
        ensures
            final(self).wf(),
            final(self).settings() == old(self).settings(),
            ({
                let key = affinity(app_name@, transport, affinity_key@);
                final(self).model() == old(self).model().bound_within(
                    key,
                    (AffinityEntry {
                        backend,
                        expires_at: (now + old(self).settings().ttl()) as u64,
                    }),
                    now,
                    old(self).settings().max_entries,
                )
            }),
            final(self).model().entries.len() <= final(self).settings().max_entries,
    {
        let key = AffinityMapKey::new(app_name, transport, affinity_key);
        let shard_index = self.shard_index_for_key(&key);
        let expires_at: u64 = now + self.config.ttl_ms as u64 * NANOS_PER_MS;
        let ghost k = key@;
        let due = self.should_cleanup(shard_index);
        self.write_binding(shard_index, key, backend, expires_at);
        assert(self.model() =~= old(self).model().bound(
            k,
            AffinityEntry { backend, expires_at },
        ).counted(shard_of(k)));
        if due || self.entry_count() > self.config.max_entries as u128 {
            self.cleanup(now);
        }
    }

    /// Drops the binding of a key.
    pub fn remove(&mut self, app_name: &str, transport: TransportKind, affinity_key: &str)
        requires
            old(self).wf(),
        ensures
            final(self).wf(),
            final(self).settings() == old(self).settings(),
            final(self).model() == old(self).model().unbound(
                affinity(app_name@, transport, affinity_key@),
            ),
    {
        let key = AffinityMapKey::new(app_name, transport, affinity_key);
        let shard_index = self.shard_index_for_key(&key);
        proof {
            lemma_entries_finite(self.shards@);
        }
        self.drop_binding(shard_index, &key);
    }

    fn entry_count(&self) -> (r: u128)
        requires
            self.kept_in_order(),
        ensures
            r == self.model().entries.len(),
            self.model().entries.dom().finite(),
    {
        let mut total: u128 = 0;
        let mut s: usize = 0;
        while s < STICKY_SHARD_COUNT
            invariant
                s <= STICKY_SHARD_COUNT == self.shards@.len(),
                total <= s * 0x1_0000_0000_0000_0000,
                total == total_upto(self.shards@, s as int),
            decreases STICKY_SHARD_COUNT - s,
        {
            total = total + self.shards[s].entries.len() as u128;
            s += 1;
        }
        proof {
            lemma_entries_finite(self.shards@);
        }
        total
    }

    fn write_binding(
        &mut self,
        shard_index: usize,
        key: AffinityMapKey,
        backend: String,
        expires_at: u64,
    )
        requires
            old(self).kept_in_order(),
            shard_index == shard_of(key@),
        ensures
            final(self).kept_in_order(),
            final(self).settings() == old(self).settings(),
            final(self).model() == old(self).model().bound(
                key@,
                (AffinityEntry { backend, expires_at }),
            ),
    {
        proof {
            lemma_shard_range(key@);
        }
        self.note(shard_index, &key, expires_at);
        let ghost m = self.model();
        let ghost shards0 = self.shards@;
        let ghost k = key@;
        let entry = AffinityEntry { backend, expires_at };
        self.shards[shard_index].entries.insert(key, entry);
        proof {
            lemma_inserted(shards0, self.shards@, k, entry);
            let note = Note {
                expires_at,
                sequence: old(self).model().next_sequence,
                shard_index: shard_index as int,
                key: k,
            };
            lemma_with_note(old(self).model().entries, old(self).model().index, note);
            let j = choose|j: int| 0 <= j < m.index.len() && m.index[j] == note;
            assert(notes(m.index[j], k, expires_at));
            assert(self.model().ops =~= old(self).model().ops);
            assert(self.model() =~= old(self).model().bound(k, entry));
        }
    }

    fn drop_binding(&mut self, shard_index: usize, key: &AffinityMapKey)
        requires
            old(self).kept_in_order(),
            shard_index == shard_of(key@),
        ensures
            final(self).kept_in_order(),
            final(self).settings() == old(self).settings(),
            final(self).model() == old(self).model().unbound(key@),
    {
        proof {
            lemma_shard_range(key@);
        }
        let ghost shards0 = self.shards@;
        self.shards[shard_index].entries.remove(key);
        proof {
            lemma_removed(shards0, self.shards@, key@);
            assert(self.model().ops =~= old(self).model().ops);
            assert(self.model() =~= old(self).model().unbound(key@));
        }
    }

    /// Makes up an affinity key out of the wall clock and a counter.
    pub fn generate_affinity_key(&mut self, now_nanos: u128) -> (r: String)
        requires
            old(self).wf(),
        ensures
            final(self).wf(),
            final(self).settings() == old(self).settings(),
            r@ == generated_key(now_nanos, old(self).model().next_key),
            final(self).model() == (StickyModel {
                next_key: next(old(self).model().next_key),
                ..old(self).model()
            }),
    {
        let tick = self.key_counter;
        self.key_counter = step(tick);
        let mut r = text::to_numeral(now_nanos, 16);
        r.append(text::to_numeral(tick as u128, 16).as_str());
        r
    }

    /// The cookie that hands an affinity key to a client.
    pub fn cookie_header_value(&self, affinity_key: &str) -> (r: String)
        ensures
            r@ == set_cookie(self.settings(), affinity_key@),
    {
        let seconds: u32 = self.config.ttl_ms / 1000;
        let max_age: u32 = if seconds < 1 {
            1
        } else {
            seconds
        };
        let mut r = self.config.cookie_name.clone();
        r.append("=");
        r.append(affinity_key);
        r.append("; Max-Age=");
        r.append(text::to_numeral(max_age as u128, 10).as_str());
        r.append("; Path=/; HttpOnly; SameSite=Lax");
        if self.config.cookie_secure {
            r.append("; Secure");
        }
        r
    }

    /// The shard that keeps `key`.
    pub fn shard_index_for_key(&self, key: &AffinityMapKey) -> (r: usize)
        ensures
            r == shard_of(key@),
            r < STICKY_SHARD_COUNT,
    {
        let number: u8 = match key.transport {
            TransportKind::Http1 => 0,
            TransportKind::Http2 => 1,
            TransportKind::Ws => 2,
        };
        let mut hasher = DefaultHasher::new();
        hasher.write(key.app_name.as_str().as_bytes());
        hasher.write(&[255u8]);
        hasher.write(&[number, 0, 0, 0, 0, 0, 0, 0]);
        hasher.write(key.affinity_key.as_str().as_bytes());
        hasher.write(&[255u8]);
        proof {
            assert([255u8]@ =~= seq![255u8]);
            assert([number, 0, 0, 0, 0, 0, 0, 0]@ =~= seq![number, 0u8, 0, 0, 0, 0, 0, 0]);
            assert(hasher@ =~= hashed_bytes(key@));
        }
        (hasher.finish() as usize) % STICKY_SHARD_COUNT
    }

    /// Counts an operation of a shard, and tells whether a cleanup is due with it.
    pub fn should_cleanup(&mut self, shard_index: usize) -> (r: bool)
        requires
            old(self).wf(),
            shard_index < STICKY_SHARD_COUNT,
        ensures
            final(self).wf(),
            final(self).settings() == old(self).settings(),
            r == (old(self).model().ops[shard_index as int] % CLEANUP_INTERVAL == 0),
            final(self).model() == (StickyModel {
                ops: old(self).model().ops.update(
                    shard_index as int,
                    next(old(self).model().ops[shard_index as int]),
                ),
                ..old(self).model()
            }),
    {
        let count = self.shards[shard_index].op_counter;
        self.shards[shard_index].op_counter = step(count);
        proof {
            assert forall|k: AffinityKeyView| true implies 0 <= #[trigger] shard_of(k)
                < STICKY_SHARD_COUNT by {
                lemma_shard_range(k);
            }
            assert(entries_of(self.shards@) =~= entries_of(old(self).shards@));
            assert(self.model().ops =~= old(self).model().ops.update(
                shard_index as int,
                next(old(self).model().ops[shard_index as int]),
            ));
        }
        count % CLEANUP_INTERVAL == 0
    }

    /// Notes that `key` was given the expiry time `expires_at`.
    pub fn record_eviction_candidate(
        &mut self,
        shard_index: usize,
        key: &AffinityMapKey,
        expires_at: u64,
    )
        requires
            old(self).wf(),
        ensures
            final(self).wf(),
            final(self).settings() == old(self).settings(),
            final(self).model() == (StickyModel {
                index: with_note(
                    old(self).model().index,
                    Note {
                        expires_at,
                        sequence: old(self).model().next_sequence,
                        shard_index: shard_index as int,
                        key: key@,
                    },
                ),
                next_sequence: next(old(self).model().next_sequence),
                ..old(self).model()
            }),
    {
        self.note(shard_index, key, expires_at);
    }

    fn note(
        &mut self,
        shard_index: usize,
        key: &AffinityMapKey,
        expires_at: u64,
    )
        requires
            old(self).kept_in_order(),
        ensures
            final(self).kept_in_order(),
            final(self).settings() == old(self).settings(),
            final(self).model() == (StickyModel {
                index: with_note(
                    old(self).model().index,
                    Note {
                        expires_at,
                        sequence: old(self).model().next_sequence,
                        shard_index: shard_index as int,
                        key: key@,
                    },
                ),
                next_sequence: next(old(self).model().next_sequence),
                ..old(self).model()
            }),
    {
        let ghost index0 = notes_of(self.eviction_index@);
        let item = EvictionItem {
            expires_at,
            sequence: self.eviction_counter,
            shard_index,
            key: key.duplicate(),
        };
        proof {
            lemma_with_note(entries_of(self.shards@), index0, item@);
            lemma_slot(index0, item@, index0.len() as int);
        }
        let mut at: usize = self.eviction_index.len();
        while at > 0 && !self.eviction_index[at - 1].precedes(&item)
            invariant
                at <= self.eviction_index@.len(),
                index0 == notes_of(self.eviction_index@),
                slot(index0, item@, at as int) == slot(index0, item@, index0.len() as int),
            decreases at,
        {
            at -= 1;
        }
        self.eviction_index.insert(at, item);
        assert(notes_of(self.eviction_index@) =~= with_note(index0, item@));
        self.eviction_counter = step(self.eviction_counter);
    }

    /// Drops the bindings that no longer count at `now`, and evicts those that are over the limit.
    ///
    /// The index notes every binding, so it never runs out before the limit is met.
    pub fn cleanup_global(&mut self, now: u64)
        requires
            old(self).wf(),
        ensures
            final(self).wf(),
            final(self).settings() == old(self).settings(),
            final(self).model() == old(self).model().cleaned(
                now,
                old(self).settings().max_entries,
            ),
    {
        self.cleanup(now);
    }

    fn cleanup(&mut self, now: u64)
        requires
            old(self).kept_in_order(),
        ensures
            final(self).wf(),
            final(self).settings() == old(self).settings(),
            final(self).model() == old(self).model().cleaned(
                now,
                old(self).settings().max_entries,
            ),
    {
        let ghost shards0 = self.shards@;
        let ghost items0 = self.eviction_index@;
        let ghost index0 = notes_of(self.eviction_index@);
        let ghost config0 = self.config;
        let mut total: u128 = 0;
        let mut s: usize = 0;
        while s < STICKY_SHARD_COUNT
            invariant
                s <= STICKY_SHARD_COUNT,
                placed(shards0),
                self.shards@.len() == shards0.len(),
                self.eviction_index@ == items0,
                index0 == notes_of(items0),
                self.config == config0,
                self.eviction_counter == old(self).eviction_counter,
                self.key_counter == old(self).key_counter,
                total <= s * 0x1_0000_0000_0000_0000,
                total == total_upto(self.shards@, s as int),
                forall|j: int|
                    0 <= j < shards0.len() ==> (#[trigger] self.shards@[j]).op_counter
                        == shards0[j].op_counter,
                forall|j: int|
                    s <= j < shards0.len() ==> (#[trigger] self.shards@[j]).entries@
                        == shards0[j].entries@,
                forall|j: int|
                    0 <= j < s ==> (#[trigger] self.shards@[j]).entries@ == live(
                        shards0[j].entries@,
                        now,
                    ) && self.shards@[j].entries@.dom().finite(),
            decreases STICKY_SHARD_COUNT - s,
        {
            let ghost shards1 = self.shards@;
            self.shards[s].entries.retain(&Counting { now });
            assert(self.shards@[s as int].entries@ =~= live(shards0[s as int].entries@, now));
            let count = self.shards[s].entries.len();
            proof {
                lemma_total_same(shards1, self.shards@, s as int);
            }
            total = total + count as u128;
            s += 1;
        }
        let ghost shards2 = self.shards@;
        let ghost kept = live(entries_of(shards0), now);
        proof {
            assert forall|x: AffinityKeyView| true implies 0 <= #[trigger] shard_of(x)
                < STICKY_SHARD_COUNT by {
                lemma_shard_range(x);
            }
            assert(placed(shards2));
            assert(entries_of(shards2) =~= kept);
            lemma_total(shards2, STICKY_SHARD_COUNT as int);
            assert(keys_upto(shards2, STICKY_SHARD_COUNT as int) =~= kept.dom());
            assert(all_noted(kept, index0));
        }
        if total <= self.config.max_entries as u128 {
            assert(self.model() =~= old(self).model().cleaned(now, config0.max_entries));
            return;
        }
        let overflow: u128 = total - self.config.max_entries as u128;
        let mut removed: u128 = 0;
        let mut i: usize = 0;
        assert(index0.skip(0) =~= index0);
        while removed < overflow && i < self.eviction_index.len()
            invariant
                i <= index0.len(),
                removed <= overflow,
                overflow <= kept.len(),
                self.eviction_index@ == items0,
                index0 == notes_of(items0),
                self.config == config0,
                self.eviction_counter == old(self).eviction_counter,
                self.key_counter == old(self).key_counter,
                placed(self.shards@),
                self.shards@.len() == shards2.len(),
                forall|j: int|
                    0 <= j < shards2.len() ==> (#[trigger] self.shards@[j]).op_counter
                        == shards2[j].op_counter,
                entries_of(self.shards@).dom().finite(),
                entries_of(self.shards@).len() + removed == kept.len(),
                all_noted(entries_of(self.shards@), index0.skip(i as int)),
                evict(kept, index0, overflow as nat) == evict(
                    entries_of(self.shards@),
                    index0.skip(i as int),
                    (overflow - removed) as nat,
                ),
            decreases index0.len() - i,
        {
            let ghost shards3 = self.shards@;
            let ghost before = entries_of(self.shards@);
            let item = &self.eviction_index[i];
            let ghost key = item.key@;
            let ghost rest = index0.skip(i as int);
            assert(rest[0] == items0[i as int]@);
            assert(rest.drop_first() =~= index0.skip(i + 1));
            let shard_index = item.shard_index;
            proof {
                lemma_shard_range(key);
            }
            let mut current = false;
            if shard_index < STICKY_SHARD_COUNT {
                if let Some(entry) = self.shards[shard_index].entries.get(&item.key) {
                    current = entry.expires_at == item.expires_at;
                }
            }
            assert(current == is_current(before, rest[0]));
            if current {
                self.shards[shard_index].entries.remove(&self.eviction_index[i].key);
                proof {
                    lemma_removed(shards3, self.shards@, key);
                }
                removed = removed + 1;
            }
            proof {
                lemma_notes_left(before, rest);
            }
            i += 1;
        }
        assert(removed == overflow) by {
            if removed < overflow {
                let left = entries_of(self.shards@);
                assert(left.dom() =~= Set::empty()) by {
                    assert forall|k: AffinityKeyView| !left.dom().contains(k) by {
                        if left.contains_key(k) {
                            assert(index0.skip(i as int).len() == 0);
                        }
                    }
                }
            }
        }
        let rest = self.eviction_index.split_off(i);
        self.eviction_index = rest;
        proof {
            assert(notes_of(self.eviction_index@) =~= index0.skip(i as int));
            assert(self.model().ops =~= old(self).model().ops);
            assert(self.model() =~= old(self).model().cleaned(now, config0.max_entries));
        }
    }
}

impl StickyModel {
    /// What holds of the model of every state: see [`StickySessionState::wf`].
    pub open spec fn valid(self) -> bool {
        &&& self.ops.len() == STICKY_SHARD_COUNT
        &&& self.entries.dom().finite()
        &&& in_order(self.index)
        &&& all_noted(self.entries, self.index)
    }
}

impl StickySessionState {
    /// The bindings of every state are no more than the limit, and are noted in an index that is in
    /// order.
    pub proof fn law_models_are_valid(self)
        requires
            self.wf(),
        ensures
            self.model().valid(),
            self.model().entries.len() <= self.settings().max_entries,
    {
        lemma_entries_finite(self.shards@);
    }
}

} // verus!
