//! What holds of sticky sessions whatever is bound.

use std::collections::hash_map::DefaultHasher;

use vstd::prelude::*;
use vstd::std_specs::hash::*;

use super::{
    all_noted, counts, evict, generated_key, in_order, is_current, lemma_notes_left,
    lemma_shard_range, lemma_slot, lemma_with_note, live, notes, shard_of, slot, AffinityEntry,
    AffinityKeyView, AffinityMapKey, Note, StickyModel, StickySessionConfig, StickySessionState,
    CLEANUP_INTERVAL, MAX_AFFINITY_KEY_LEN, STICKY_SHARD_COUNT,
};
use crate::headers::laws::{key_fits, law_generated_keys_are_accepted};
use crate::lb::{BackendSet, TransportKind};
use crate::text;
use crate::text::laws::{law_numerals, law_trims_to, number_read};

verus! {

/// Evicting `n` of at least `n` bindings leaves exactly the others, untouched, and takes those
/// that expire soonest.
proof fn lemma_evict(
    entries: Map<AffinityKeyView, AffinityEntry>,
    index: Seq<Note>,
    n: nat,
)
    requires
        entries.dom().finite(),
        in_order(index),
        all_noted(entries, index),
        n <= entries.len(),
    ensures
        ({
            let kept = evict(entries, index, n).0;
            &&& kept.submap_of(entries)
            &&& kept.dom().finite()
            &&& kept.len() == entries.len() - n
            &&& forall|x: AffinityKeyView, y: AffinityKeyView|
                #![trigger entries.contains_key(x), kept.contains_key(y)]
                entries.contains_key(x) && !kept.contains_key(x) && kept.contains_key(y)
                    ==> entries[x].expires_at <= entries[y].expires_at
        }),
    decreases index.len(),
{
    let kept = evict(entries, index, n).0;
    if n == 0 {
    } else if index.len() == 0 {
        assert(entries.dom() =~= Set::empty()) by {
            assert forall|k: AffinityKeyView| !entries.dom().contains(k) by {
                if entries.contains_key(k) {
                    let j = choose|j: int|
                        0 <= j < index.len() && notes(
                            #[trigger] index[j],
                            k,
                            entries[k].expires_at,
                        );
                }
            }
        }
    } else {
        let rest = index.drop_first();
        assert(in_order(rest)) by {
            assert forall|i: int, j: int| 0 <= i < j < rest.len() implies (#[trigger] rest[i]).le(
                #[trigger] rest[j],
            ) by {
                assert(rest[i] == index[i + 1]);
                assert(rest[j] == index[j + 1]);
            }
        }
        lemma_notes_left(entries, index);
        if is_current(entries, index[0]) {
            let first = index[0].key;
            let others = entries.remove(first);
            lemma_evict(others, rest, (n - 1) as nat);
            assert forall|x: AffinityKeyView, y: AffinityKeyView|
                #![trigger entries.contains_key(x), kept.contains_key(y)]
                entries.contains_key(x) && !kept.contains_key(x) && kept.contains_key(
                    y,
                ) implies entries[x].expires_at <= entries[y].expires_at by {
                assert(others.contains_key(y));
                if x == first {
                    let j = choose|j: int|
                        0 <= j < index.len() && notes(
                            #[trigger] index[j],
                            y,
                            entries[y].expires_at,
                        );
                    assert(j == 0 || index[0].le(index[j]));
                } else {
                    assert(others.contains_key(x));
                }
            }
        } else {
            lemma_evict(entries, rest, n);
        }
    }
}

/// A cleanup leaves only bindings that still count, unchanged, and no more than the limit; if it
/// evicts any, it fills the limit, and evicts those that expire soonest.
pub proof fn law_cleanup(m: StickyModel, now: u64, max_entries: usize)
    requires
        m.valid(),
    ensures
        m.cleaned(now, max_entries).entries.submap_of(live(m.entries, now)),
        m.cleaned(now, max_entries).entries.dom().finite(),
        m.cleaned(now, max_entries).entries.len() == (if live(m.entries, now).len()
            <= max_entries {
            live(m.entries, now).len()
        } else {
            max_entries as nat
        }),
        forall|x: AffinityKeyView, y: AffinityKeyView|
            #![trigger live(m.entries, now).contains_key(x), m.cleaned(
                now,
                max_entries,
            ).entries.contains_key(y)]
            live(m.entries, now).contains_key(x) && !m.cleaned(
                now,
                max_entries,
            ).entries.contains_key(x) && m.cleaned(now, max_entries).entries.contains_key(y)
                ==> m.entries[x].expires_at <= m.entries[y].expires_at,
{
    let kept = live(m.entries, now);
    assert(kept.dom().subset_of(m.entries.dom()));
    vstd::set_lib::lemma_len_subset(kept.dom(), m.entries.dom());
    assert(all_noted(kept, m.index));
    if kept.len() > max_entries {
        lemma_evict(kept, m.index, (kept.len() - max_entries) as nat);
    }
}

proof fn lemma_bound_valid(m: StickyModel, key: AffinityKeyView, entry: AffinityEntry)
    requires
        m.valid(),
    ensures
        m.bound(key, entry).valid(),
{
    let note = Note {
        expires_at: entry.expires_at,
        sequence: m.next_sequence,
        shard_index: shard_of(key),
        key,
    };
    lemma_with_note(m.entries, m.index, note);
    let index = m.bound(key, entry).index;
    let j = choose|j: int| 0 <= j < index.len() && index[j] == note;
    assert(notes(index[j], key, entry.expires_at));
}

proof fn lemma_evict_rest(
    entries: Map<AffinityKeyView, AffinityEntry>,
    index: Seq<Note>,
    n: nat,
)
    requires
        in_order(index),
        all_noted(entries, index),
    ensures
        in_order(evict(entries, index, n).1),
        all_noted(evict(entries, index, n).0, evict(entries, index, n).1),
    decreases index.len(),
{
    if n > 0 && index.len() > 0 {
        let rest = index.drop_first();
        assert(in_order(rest)) by {
            assert forall|i: int, j: int| 0 <= i < j < rest.len() implies (#[trigger] rest[i]).le(
                #[trigger] rest[j],
            ) by {
                assert(rest[i] == index[i + 1]);
                assert(rest[j] == index[j + 1]);
            }
        }
        lemma_notes_left(entries, index);
        if is_current(entries, index[0]) {
            lemma_evict_rest(entries.remove(index[0].key), rest, (n - 1) as nat);
        } else {
            lemma_evict_rest(entries, rest, n);
        }
    }
}

proof fn lemma_cleaned_valid(m: StickyModel, now: u64, max_entries: usize)
    requires
        m.valid(),
    ensures
        m.cleaned(now, max_entries).valid(),
{
    law_cleanup(m, now, max_entries);
    let kept = live(m.entries, now);
    assert(all_noted(kept, m.index));
    if kept.len() > max_entries {
        lemma_evict_rest(kept, m.index, (kept.len() - max_entries) as nat);
    }
}

proof fn lemma_visited_valid(m: StickyModel, key: AffinityKeyView, now: u64, max_entries: usize)
    requires
        m.valid(),
    ensures
        m.visited(key, now, max_entries).valid(),
        m.visited(key, now, max_entries).entries.submap_of(m.entries),
{
    lemma_shard_range(key);
    let counted = m.counted(shard_of(key));
    assert(counted.valid());
    if m.cleanup_due(shard_of(key)) {
        lemma_cleaned_valid(counted, now, max_entries);
        law_cleanup(counted, now, max_entries);
        let kept = counted.cleaned(now, max_entries).entries;
        assert forall|k: AffinityKeyView| #[trigger]
            kept.dom().contains(k) implies m.entries.dom().contains(k) && kept[k]
            == m.entries[k] by {
            assert(live(counted.entries, now).dom().contains(k));
        }
    }
}

/// A cleanup of no more bindings than the limit keeps all that count.
proof fn lemma_cleaned_within_limit(m: StickyModel, now: u64, max_entries: usize)
    requires
        m.valid(),
        m.entries.len() <= max_entries,
    ensures
        m.cleaned(now, max_entries).entries == live(m.entries, now),
        m.cleaned(now, max_entries).index == m.index,
{
    assert(live(m.entries, now).dom().subset_of(m.entries.dom()));
    vstd::set_lib::lemma_len_subset(live(m.entries, now).dom(), m.entries.dom());
}

/// What an operation on a key leaves of no more bindings than the limit: all that count at `now`,
/// or all there are.
proof fn lemma_visited_within_limit(
    m: StickyModel,
    key: AffinityKeyView,
    now: u64,
    max_entries: usize,
)
    requires
        m.valid(),
        m.entries.len() <= max_entries,
    ensures
        m.visited(key, now, max_entries).entries == m.entries || m.visited(
            key,
            now,
            max_entries,
        ).entries == live(m.entries, now),
        m.visited(key, now, max_entries).index == m.index,
        m.visited(key, now, max_entries).next_sequence == m.next_sequence,
        m.visited(key, now, max_entries).valid(),
        m.visited(key, now, max_entries).entries.len() <= max_entries,
{
    lemma_shard_range(key);
    let counted = m.counted(shard_of(key));
    assert(counted.valid());
    lemma_cleaned_within_limit(counted, now, max_entries);
    lemma_visited_valid(m, key, now, max_entries);
    assert(live(m.entries, now).dom().subset_of(m.entries.dom()));
    vstd::set_lib::lemma_len_subset(live(m.entries, now).dom(), m.entries.dom());
}

/// The binding that the notes evict first.
pub open spec fn first_evicted(
    entries: Map<AffinityKeyView, AffinityEntry>,
    index: Seq<Note>,
) -> Option<AffinityKeyView>
    decreases index.len(),
{
    if index.len() == 0 {
        None
    } else if is_current(entries, index[0]) {
        Some(index[0].key)
    } else {
        first_evicted(entries, index.drop_first())
    }
}

impl StickyModel {
    /// Whether no binding expires later than `latest`, as is so while the clock does not go back.
    pub open spec fn expires_by(self, latest: int) -> bool {
        forall|k: AffinityKeyView| #[trigger]
            self.entries.contains_key(k) ==> self.entries[k].expires_at <= latest
    }

    /// Whether the next note gets a number above all others, as is so until the numbers run out.
    pub open spec fn numbered(self) -> bool {
        forall|i: int|
            0 <= i < self.index.len() ==> (#[trigger] self.index[i]).sequence < self.next_sequence
    }

    /// Whether a binding of `key` at `now` gives way at once: those that count are then over the
    /// limit, and the notes evict it first.
    pub open spec fn gives_way(
        self,
        key: AffinityKeyView,
        entry: AffinityEntry,
        now: u64,
        max_entries: usize,
    ) -> bool {
        let bound = self.bound(key, entry);
        let kept = live(bound.entries, now);
        kept.len() > max_entries && first_evicted(kept, bound.index) == Some(key)
    }

    /// Whether the bindings that count at `now` are at the limit without one of `key`, and an older
    /// note of `key`, with the expiry time of `entry`, is the first that would evict one of them or
    /// `key`. So it is when a key was bound and removed at one reading of the clock, before all
    /// others.
    pub open spec fn older_note_first(
        self,
        key: AffinityKeyView,
        entry: AffinityEntry,
        now: u64,
        max_entries: usize,
    ) -> bool {
        &&& !self.entries.contains_key(key)
        &&& live(self.entries, now).len() >= max_entries
        &&& first_evicted(live(self.entries.insert(key, entry), now), self.index) == Some(key)
    }
}

/// A single eviction takes the binding that the notes evict first, and no other.
proof fn lemma_evict_one(
    entries: Map<AffinityKeyView, AffinityEntry>,
    index: Seq<Note>,
    key: AffinityKeyView,
)
    requires
        entries.contains_key(key),
    ensures
        evict(entries, index, 1).0.contains_key(key) <==> first_evicted(entries, index) != Some(
            key,
        ),
        evict(entries, index, 1).0.contains_key(key) ==> evict(entries, index, 1).0[key]
            == entries[key],
    decreases index.len(),
{
    if index.len() > 0 {
        let rest = index.drop_first();
        if is_current(entries, index[0]) {
            assert(evict(entries.remove(index[0].key), rest, 0).0 == entries.remove(index[0].key));
        } else {
            lemma_evict_one(entries, rest, key);
        }
    }
}

/// A note behind one that evicts makes no difference to what is evicted first.
proof fn lemma_first_evicted_before(
    entries: Map<AffinityKeyView, AffinityEntry>,
    index: Seq<Note>,
    note: Note,
    j: int,
    p: int,
)
    requires
        0 <= j < p <= index.len(),
        is_current(entries, index[j]),
    ensures
        first_evicted(entries, index.insert(p, note)) == first_evicted(entries, index),
    decreases j,
{
    let longer = index.insert(p, note);
    assert(longer[0] == index[0]);
    if !is_current(entries, index[0]) {
        let rest = index.drop_first();
        assert(rest[j - 1] == index[j]);
        assert(longer.drop_first() =~= rest.insert(p - 1, note));
        lemma_first_evicted_before(entries, rest, note, j - 1, p - 1);
    }
}

/// Binding takes at most one binding more than there were.
proof fn lemma_bound_count(m: StickyModel, key: AffinityKeyView, entry: AffinityEntry, now: u64)
    requires
        m.valid(),
        counts(entry, now),
    ensures
        ({
            let kept = live(m.bound(key, entry).entries, now);
            &&& kept.dom().finite()
            &&& kept.contains_key(key) && kept[key] == entry
            &&& kept.len() <= m.bound(key, entry).entries.len()
            &&& m.bound(key, entry).entries.len() == m.entries.len() + (
            if m.entries.contains_key(key) {
                0int
            } else {
                1int
            })
            &&& !m.entries.contains_key(key) ==> kept.len() == live(m.entries, now).len() + 1
        }),
{
    let bound = m.bound(key, entry).entries;
    let kept = live(bound, now);
    assert(kept.dom().subset_of(bound.dom()));
    vstd::set_lib::lemma_len_subset(kept.dom(), bound.dom());
    let before = live(m.entries, now);
    assert(before.dom().subset_of(m.entries.dom()));
    vstd::set_lib::lemma_len_subset(before.dom(), m.entries.dom());
    if !m.entries.contains_key(key) {
        assert(kept.dom() =~= before.dom().insert(key));
    }
}

/// The newest binding is kept: binding a key leaves it bound, exactly unless it gives way at once.
pub proof fn law_newest_binding_is_kept(
    m: StickyModel,
    key: AffinityKeyView,
    entry: AffinityEntry,
    now: u64,
    max_entries: usize,
)
    requires
        m.valid(),
        m.entries.len() <= max_entries,
        counts(entry, now),
    ensures
        m.bound_within(key, entry, now, max_entries).entries.contains_key(key) <==> !m.gives_way(
            key,
            entry,
            now,
            max_entries,
        ),
        !m.gives_way(key, entry, now, max_entries) ==> m.bound_within(
            key,
            entry,
            now,
            max_entries,
        ).entries[key] == entry,
{
    lemma_bound_count(m, key, entry, now);
    let bound = m.bound(key, entry);
    let kept = live(bound.entries, now);
    lemma_evict_one(kept, bound.index, key);
}

/// While the clock does not go back and the numbers of the notes have not run out, a new binding
/// gives way in one case only: the bindings are at the limit, and an older note of the same key and
/// the same expiry time comes first. It never gives way to make room for bindings that are older.
pub proof fn law_newest_gives_way_only_to_its_older_note(
    m: StickyModel,
    key: AffinityKeyView,
    entry: AffinityEntry,
    now: u64,
    max_entries: usize,
)
    requires
        m.valid(),
        m.numbered(),
        m.entries.len() <= max_entries,
        max_entries > 0,
        m.expires_by(entry.expires_at as int),
        counts(entry, now),
    ensures
        m.gives_way(key, entry, now, max_entries) <==> m.older_note_first(
            key,
            entry,
            now,
            max_entries,
        ),
{
    lemma_bound_count(m, key, entry, now);
    let kept = live(m.bound(key, entry).entries, now);
    if kept.len() > max_entries {
        assert(!m.entries.contains_key(key));
        let others = kept.dom().remove(key);
        assert(others.len() > 0);
        let x = others.choose();
        assert(others.contains(x));
        assert(kept.contains_key(x) && x != key);
        assert(m.entries.contains_key(x));
        let note = Note {
            expires_at: entry.expires_at,
            sequence: m.next_sequence,
            shard_index: shard_of(key),
            key,
        };
        let p = slot(m.index, note, m.index.len() as int);
        lemma_slot(m.index, note, m.index.len() as int);
        let j = choose|j: int|
            0 <= j < m.index.len() && notes(#[trigger] m.index[j], x, m.entries[x].expires_at);
        assert(j < p) by {
            if j >= p {
                assert(note.le(m.index[j]));
            }
        }
        assert(is_current(kept, m.index[j]));
        lemma_first_evicted_before(kept, m.index, note, j, p);
    }
}

/// Binding keeps the bindings within the limit.
proof fn lemma_bound_within(
    m: StickyModel,
    key: AffinityKeyView,
    entry: AffinityEntry,
    now: u64,
    max_entries: usize,
)
    requires
        m.valid(),
    ensures
        m.bound_within(key, entry, now, max_entries).valid(),
        m.bound_within(key, entry, now, max_entries).entries.len() <= max_entries,
        m.bound_within(key, entry, now, max_entries).entries.submap_of(
            m.entries.insert(key, entry),
        ),
{
    lemma_shard_range(key);
    lemma_bound_valid(m, key, entry);
    let bound = m.bound(key, entry).counted(shard_of(key));
    assert(bound.valid());
    lemma_cleaned_valid(bound, now, max_entries);
    law_cleanup(bound, now, max_entries);
    let kept = bound.cleaned(now, max_entries).entries;
    assert forall|k: AffinityKeyView| #[trigger] kept.dom().contains(k) implies bound.entries.dom().contains(
        k,
    ) && kept[k] == bound.entries[k] by {
        assert(live(bound.entries, now).dom().contains(k));
    }
}

/// What is bound is found again: from [`StickySessionState::bind`](super::StickySessionState::bind)
/// on until its time to live has passed, a lookup of the same application, transport and affinity
/// key gives the backend exactly when that backend is allowed.
///
/// Left out is a binding that gives way at once, which [`law_newest_binding_is_kept`] shows to be
/// lost.
pub proof fn law_bound_key_is_found(
    m: StickyModel,
    key: AffinityKeyView,
    entry: AffinityEntry,
    bound_at: u64,
    now: u64,
    max_entries: usize,
    allowed: Set<Seq<char>>,
)
    requires
        m.valid(),
        m.entries.len() <= max_entries,
        bound_at <= now,
        counts(entry, now),
        !m.gives_way(key, entry, bound_at, max_entries),
    ensures
        m.bound_within(key, entry, bound_at, max_entries).found(key, allowed, now, max_entries) == (
        if allowed.contains(entry.backend@) {
            Some(entry)
        } else {
            None
        }),
{
    law_newest_binding_is_kept(m, key, entry, bound_at, max_entries);
    lemma_bound_within(m, key, entry, bound_at, max_entries);
    let bound = m.bound_within(key, entry, bound_at, max_entries);
    lemma_visited_within_limit(bound, key, now, max_entries);
    assert(live(bound.entries, now).contains_key(key));
}

/// A lookup that finds a binding binds the key to the same backend for a full time to live from
/// now. One that finds none leaves the key unbound. Either way no other binding that counts
/// changes, and none is added.
pub proof fn law_lookups_change_one_binding(
    m: StickyModel,
    key: AffinityKeyView,
    allowed: Set<Seq<char>>,
    now: u64,
    config: StickySessionConfig,
    other: AffinityKeyView,
)
    requires
        m.valid(),
        m.entries.len() <= config.max_entries,
        other != key,
    ensures
        ({
            let after = m.looked_up(key, allowed, now, config).entries;
            &&& (match m.found(key, allowed, now, config.max_entries) {
                Some(entry) => after.contains_key(key) && after[key].backend == entry.backend
                    && after[key].expires_at == (now + config.ttl()) as u64 && m.entries.contains_key(
                    key,
                ) && m.entries[key] == entry,
                None => !after.contains_key(key),
            })
            &&& m.entries.contains_key(other) && counts(m.entries[other], now)
                ==> after.contains_key(other)
            &&& after.contains_key(other) ==> m.entries.contains_key(other) && after[other]
                == m.entries[other]
        }),
{
    lemma_visited_within_limit(m, key, now, config.max_entries);
    assert(live(m.entries, now).contains_key(other) <==> m.entries.contains_key(other) && counts(
        m.entries[other],
        now,
    ));
}

/// Expiration slides: a binding that a lookup finds is found again until a full time to live from
/// then on, as long as its backend is allowed.
pub proof fn law_found_bindings_live_on(
    m: StickyModel,
    key: AffinityKeyView,
    allowed: Set<Seq<char>>,
    found_at: u64,
    config: StickySessionConfig,
    allowed_later: Set<Seq<char>>,
    now: u64,
)
    requires
        m.valid(),
        m.entries.len() <= config.max_entries,
        found_at + config.ttl() <= u64::MAX,
        now < found_at + config.ttl(),
        m.found(key, allowed, found_at, config.max_entries) is Some,
        allowed_later.contains(
            m.found(key, allowed, found_at, config.max_entries)->0.backend@,
        ),
    ensures
        ({
            let later = m.looked_up(key, allowed, found_at, config).found(
                key,
                allowed_later,
                now,
                config.max_entries,
            );
            later is Some && later->0.backend == m.found(
                key,
                allowed,
                found_at,
                config.max_entries,
            )->0.backend
        }),
{
    lemma_visited_within_limit(m, key, found_at, config.max_entries);
    let m1 = m.visited(key, found_at, config.max_entries);
    let m2 = m.looked_up(key, allowed, found_at, config);
    lemma_bound_valid(m1, key, m2.entries[key]);
    assert(m2.entries.dom() =~= m1.entries.dom());
    lemma_visited_within_limit(m2, key, now, config.max_entries);
    assert(live(m2.entries, now).contains_key(key));
}

/// A call of the sticky sessions.
pub enum Call {
    Bind { key: AffinityKeyView, backend: String, now: u64 },
    Lookup { key: AffinityKeyView, allowed: Set<Seq<char>>, now: u64 },
    Remove { key: AffinityKeyView },
}

impl StickyModel {
    /// After a call.
    pub open spec fn called(self, call: Call, config: StickySessionConfig) -> StickyModel {
        match call {
            Call::Bind { key, backend, now } => self.bound_within(
                key,
                AffinityEntry { backend, expires_at: (now + config.ttl()) as u64 },
                now,
                config.max_entries,
            ),
            Call::Lookup { key, allowed, now } => self.looked_up(key, allowed, now, config),
            Call::Remove { key } => self.unbound(key),
        }
    }

    /// After a sequence of calls.
    pub open spec fn after_calls(self, calls: Seq<Call>, config: StickySessionConfig) -> StickyModel
        decreases calls.len(),
    {
        if calls.len() == 0 {
            self
        } else {
            self.after_calls(calls.drop_last(), config).called(calls.last(), config)
        }
    }
}

proof fn lemma_called(m: StickyModel, call: Call, config: StickySessionConfig)
    requires
        m.valid(),
        m.entries.len() <= config.max_entries,
    ensures
        m.called(call, config).valid(),
        m.called(call, config).entries.len() <= config.max_entries,
{
    match call {
        Call::Bind { key, backend, now } => {
            let entry = AffinityEntry { backend, expires_at: (now + config.ttl()) as u64 };
            lemma_bound_within(m, key, entry, now, config.max_entries);
        },
        Call::Lookup { key, allowed, now } => {
            lemma_visited_within_limit(m, key, now, config.max_entries);
            let m1 = m.visited(key, now, config.max_entries);
            let m2 = m.called(call, config);
            if m.found(key, allowed, now, config.max_entries) is Some {
                lemma_bound_valid(m1, key, m2.entries[key]);
                assert(m2.entries.dom() =~= m1.entries.dom());
            } else {
                assert(all_noted(m2.entries, m2.index));
            }
        },
        Call::Remove { key } => {
            assert(all_noted(m.unbound(key).entries, m.index));
        },
    }
}

/// The limit is never exceeded: whatever sequence of calls came before, there are no more bindings
/// than the configured maximum.
pub proof fn law_limit_is_kept(calls: Seq<Call>, config: StickySessionConfig)
    ensures
        StickyModel::initial().after_calls(calls, config).valid(),
        StickyModel::initial().after_calls(calls, config).entries.len() <= config.max_entries,
    decreases calls.len(),
{
    if calls.len() > 0 {
        law_limit_is_kept(calls.drop_last(), config);
        lemma_called(
            StickyModel::initial().after_calls(calls.drop_last(), config),
            calls.last(),
            config,
        );
    }
}

/// A key that is not bound stays so, and lookups find nothing for it, until it is bound again.
pub proof fn law_missing_keys_stay_missing(
    m: StickyModel,
    key: AffinityKeyView,
    calls: Seq<Call>,
    config: StickySessionConfig,
    allowed: Set<Seq<char>>,
    now: u64,
)
    requires
        m.valid(),
        m.entries.len() <= config.max_entries,
        !m.entries.contains_key(key),
        forall|i: int|
            0 <= i < calls.len() ==> !((#[trigger] calls[i]) is Bind && calls[i]->Bind_key == key),
    ensures
        !m.after_calls(calls, config).entries.contains_key(key),
        m.after_calls(calls, config).found(key, allowed, now, config.max_entries) is None,
        m.after_calls(calls, config).valid(),
        m.after_calls(calls, config).entries.len() <= config.max_entries,
    decreases calls.len(),
{
    if calls.len() > 0 {
        let before = m.after_calls(calls.drop_last(), config);
        let call = calls.last();
        law_missing_keys_stay_missing(m, key, calls.drop_last(), config, allowed, now);
        lemma_called(before, call, config);
        assert(!(calls[calls.len() - 1] is Bind && calls[calls.len() - 1]->Bind_key == key));
        let after = before.called(call, config).entries;
        match call {
            Call::Bind { key: bound, backend, now } => {
                let entry = AffinityEntry { backend, expires_at: (now + config.ttl()) as u64 };
                lemma_bound_within(before, bound, entry, now, config.max_entries);
                assert(after.dom().contains(key) ==> before.entries.insert(
                    bound,
                    entry,
                ).dom().contains(key));
            },
            Call::Lookup { key: asked, allowed, now } => {
                lemma_visited_within_limit(before, asked, now, config.max_entries);
            },
            Call::Remove { .. } => {},
        }
    }
    lemma_visited_within_limit(m.after_calls(calls, config), key, now, config.max_entries);
}

/// The reading of the clock with which a call was made, if it took one.
pub open spec fn call_time(call: Call) -> Option<u64> {
    match call {
        Call::Bind { now, .. } => Some(now),
        Call::Lookup { now, .. } => Some(now),
        Call::Remove { .. } => None,
    }
}

/// Whether no call was made with a later reading of the clock than one behind it or than `now`.
pub open spec fn clock_moves_on(calls: Seq<Call>, now: u64) -> bool
    decreases calls.len(),
{
    if calls.len() == 0 {
        true
    } else {
        match call_time(calls.last()) {
            Some(t) => t <= now && clock_moves_on(calls.drop_last(), t),
            None => clock_moves_on(calls.drop_last(), now),
        }
    }
}

proof fn lemma_evict_is_suffix(
    entries: Map<AffinityKeyView, AffinityEntry>,
    index: Seq<Note>,
    n: nat,
)
    ensures
        forall|i: int|
            0 <= i < evict(entries, index, n).1.len() ==> index.contains(
                #[trigger] evict(entries, index, n).1[i],
            ),
    decreases index.len(),
{
    let left = evict(entries, index, n).1;
    if n > 0 && index.len() > 0 {
        let rest = index.drop_first();
        if is_current(entries, index[0]) {
            lemma_evict_is_suffix(entries.remove(index[0].key), rest, (n - 1) as nat);
            assert(left == evict(entries.remove(index[0].key), rest, (n - 1) as nat).1);
        } else {
            lemma_evict_is_suffix(entries, rest, n);
            assert(left == evict(entries, rest, n).1);
        }
        assert forall|i: int| 0 <= i < left.len() implies index.contains(#[trigger] left[i]) by {
            assert(rest.contains(left[i]));
            let j = choose|j: int| 0 <= j < rest.len() && rest[j] == left[i];
            assert(index[j + 1] == left[i]);
        }
    } else {
        assert(left == index);
        assert forall|i: int| 0 <= i < left.len() implies index.contains(#[trigger] left[i]) by {
            assert(index[i] == left[i]);
        }
    }
}

proof fn lemma_bound_numbered(m: StickyModel, key: AffinityKeyView, entry: AffinityEntry)
    requires
        m.valid(),
        m.numbered(),
        m.next_sequence < u64::MAX,
    ensures
        m.bound(key, entry).numbered(),
        m.bound(key, entry).next_sequence == m.next_sequence + 1,
{
    let note = Note {
        expires_at: entry.expires_at,
        sequence: m.next_sequence,
        shard_index: shard_of(key),
        key,
    };
    let p = slot(m.index, note, m.index.len() as int);
    lemma_slot(m.index, note, m.index.len() as int);
    let after = m.bound(key, entry);
    assert forall|i: int| 0 <= i < after.index.len() implies (#[trigger] after.index[i]).sequence
        < after.next_sequence by {
        if i < p {
            assert(after.index[i] == m.index[i]);
        } else if i > p {
            assert(after.index[i] == m.index[i - 1]);
        }
    }
}

proof fn lemma_cleaned_numbered(m: StickyModel, now: u64, max_entries: usize)
    requires
        m.numbered(),
    ensures
        m.cleaned(now, max_entries).numbered(),
        m.cleaned(now, max_entries).next_sequence == m.next_sequence,
{
    let kept = live(m.entries, now);
    if kept.len() > max_entries {
        lemma_evict_is_suffix(kept, m.index, (kept.len() - max_entries) as nat);
    }
}

/// After a sequence of calls by a clock that does not go back, no binding expires later than one
/// that is bound now would, and the next note gets a number above all others.
proof fn lemma_calls_in_turn(calls: Seq<Call>, config: StickySessionConfig, now: u64)
    requires
        clock_moves_on(calls, now),
        now + config.ttl() <= u64::MAX,
        calls.len() < u64::MAX - 1,
    ensures
        StickyModel::initial().after_calls(calls, config).expires_by(now + config.ttl()),
        StickyModel::initial().after_calls(calls, config).numbered(),
        StickyModel::initial().after_calls(calls, config).next_sequence <= calls.len() + 1,
    decreases calls.len(),
{
    if calls.len() > 0 {
        let m = StickyModel::initial().after_calls(calls.drop_last(), config);
        let call = calls.last();
        let t = match call_time(call) {
            Some(t) => t,
            None => now,
        };
        lemma_calls_in_turn(calls.drop_last(), config, t);
        law_limit_is_kept(calls.drop_last(), config);
        let after = m.called(call, config);
        match call {
            Call::Bind { key, backend, now: bound_at } => {
                let entry = AffinityEntry { backend, expires_at: (bound_at + config.ttl()) as u64 };
                lemma_bound_numbered(m, key, entry);
                lemma_bound_within(m, key, entry, bound_at, config.max_entries);
                let bound = m.bound(key, entry).counted(shard_of(key));
                assert(bound.numbered());
                lemma_cleaned_numbered(bound, bound_at, config.max_entries);
                assert forall|k: AffinityKeyView| #[trigger]
                    after.entries.contains_key(k) implies after.entries[k].expires_at <= now
                    + config.ttl() by {
                    assert(after.entries.dom().contains(k));
                    assert(m.entries.insert(key, entry).dom().contains(k));
                }
            },
            Call::Lookup { key, allowed, now: asked_at } => {
                lemma_visited_within_limit(m, key, asked_at, config.max_entries);
                let m1 = m.visited(key, asked_at, config.max_entries);
                assert(m1.numbered());
                if m.found(key, allowed, asked_at, config.max_entries) is Some {
                    lemma_bound_numbered(m1, key, after.entries[key]);
                }
                assert forall|k: AffinityKeyView| #[trigger]
                    after.entries.contains_key(k) implies after.entries[k].expires_at <= now
                    + config.ttl() by {
                    if k != key {
                        assert(m.entries.contains_key(k));
                    }
                }
            },
            Call::Remove { key } => {},
        }
    }
}

/// The last bind wins: after any sequence of calls by a clock that does not go back, a key that is
/// bound is found with that backend until its time to live has passed, exactly when the backend is
/// allowed. The machine's limit is on the number of calls, which are counted in 64 bits.
///
/// Left out is the one case of [`law_newest_gives_way_only_to_its_older_note`], in which the binding
/// is lost.
pub proof fn law_last_bind_wins(
    calls: Seq<Call>,
    config: StickySessionConfig,
    key: AffinityKeyView,
    backend: String,
    bound_at: u64,
    now: u64,
    allowed: Set<Seq<char>>,
)
    requires
        config.max_entries > 0,
        clock_moves_on(calls, bound_at),
        calls.len() < u64::MAX - 1,
        bound_at + config.ttl() <= u64::MAX,
        bound_at <= now < bound_at + config.ttl(),
        ({
            let m = StickyModel::initial().after_calls(calls, config);
            let entry = AffinityEntry { backend, expires_at: (bound_at + config.ttl()) as u64 };
            !m.older_note_first(key, entry, bound_at, config.max_entries)
        }),
    ensures
        ({
            let entry = AffinityEntry { backend, expires_at: (bound_at + config.ttl()) as u64 };
            StickyModel::initial().after_calls(
                calls.push(Call::Bind { key, backend, now: bound_at }),
                config,
            ).found(key, allowed, now, config.max_entries) == (if allowed.contains(backend@) {
                Some(entry)
            } else {
                None
            })
        }),
{
    let m = StickyModel::initial().after_calls(calls, config);
    let entry = AffinityEntry { backend, expires_at: (bound_at + config.ttl()) as u64 };
    law_limit_is_kept(calls, config);
    lemma_calls_in_turn(calls, config, bound_at);
    law_newest_gives_way_only_to_its_older_note(m, key, entry, bound_at, config.max_entries);
    law_bound_key_is_found(m, key, entry, bound_at, now, config.max_entries, allowed);
    let all = calls.push(Call::Bind { key, backend, now: bound_at });
    assert(all.drop_last() =~= calls);
}

/// A binding whose time to live has passed is not found.
pub proof fn law_expired_bindings_are_not_found(
    m: StickyModel,
    key: AffinityKeyView,
    now: u64,
    max_entries: usize,
    allowed: Set<Seq<char>>,
)
    requires
        m.valid(),
        m.entries.contains_key(key),
        m.entries[key].expires_at <= now,
    ensures
        !m.visited(key, now, max_entries).hits(key, now, allowed),
{
    lemma_visited_valid(m, key, now, max_entries);
    let after = m.visited(key, now, max_entries).entries;
    if after.contains_key(key) {
        assert(after.dom().contains(key));
        assert(after[key] == m.entries[key]);
    }
}

/// What was removed is not found.
pub proof fn law_removed_key_is_not_found(
    m: StickyModel,
    key: AffinityKeyView,
    now: u64,
    max_entries: usize,
    allowed: Set<Seq<char>>,
)
    requires
        m.valid(),
    ensures
        !m.unbound(key).visited(key, now, max_entries).hits(key, now, allowed),
{
    lemma_shard_range(key);
    let m1 = m.unbound(key).counted(shard_of(key));
    assert(m1.valid()) by {
        assert(all_noted(m1.entries, m1.index));
    }
    law_cleanup(m1, now, max_entries);
    let cleaned = m1.cleaned(now, max_entries).entries;
    if cleaned.contains_key(key) {
        assert(cleaned.dom().contains(key));
        assert(live(m1.entries, now).contains_key(key));
    }
}

/// A binding is of one application, one transport and one affinity key: binding another key leaves
/// it as it is.
pub proof fn law_bindings_are_separate(
    m: StickyModel,
    key: AffinityKeyView,
    other: AffinityKeyView,
    entry: AffinityEntry,
)
    requires
        key.app_name != other.app_name || key.transport != other.transport || key.affinity_key
            != other.affinity_key,
    ensures
        m.bound(other, entry).entries.contains_key(key) == m.entries.contains_key(key),
        m.entries.contains_key(key) ==> m.bound(other, entry).entries[key] == m.entries[key],
{
}

/// Affinity keys that are made up at one reading of the clock with different numbers differ.
pub proof fn law_generated_keys_differ(now_nanos: u128, a: u64, b: u64)
    requires
        a != b,
    ensures
        generated_key(now_nanos, a) != generated_key(now_nanos, b),
{
    let prefix = text::numeral(now_nanos as nat, 16);
    let x = text::numeral(a as nat, 16);
    let y = text::numeral(b as nat, 16);
    if prefix + x == prefix + y {
        let n = prefix.len() as int;
        assert((prefix + x).skip(n) =~= x);
        assert((prefix + y).skip(n) =~= y);
        text::lemma_numeral_injective(a as nat, b as nat, 16);
    }
}

/// What a binding is found by: an application, a transport and an affinity key.
pub open spec fn bound_by(
    app_name: &str,
    transport: TransportKind,
    affinity_key: &str,
) -> AffinityKeyView {
    AffinityKeyView { app_name: app_name@, transport, affinity_key: affinity_key@ }
}

/// A time to live is counted in milliseconds, each a million nanoseconds.
pub proof fn law_time_to_live(config: StickySessionConfig)
    ensures
        config.ttl() == config.ttl_ms * 1000000,
{
}

/// How long an affinity key may be, how many operations there are between two cleanups of a shard,
/// and how many shards there are.
pub proof fn law_sizes()
    ensures
        MAX_AFFINITY_KEY_LEN == 256,
        CLEANUP_INTERVAL == 128,
        STICKY_SHARD_COUNT == 64,
{
}

/// A key is made of the parts that it is given.
pub proof fn law_keys_hold_their_parts(
    app_name: &str,
    transport: TransportKind,
    affinity_key: &str,
    r: AffinityMapKey,
)
    requires
        call_ensures(AffinityMapKey::new, (app_name, transport, affinity_key), r),
    ensures
        r.app_name@ == app_name@,
        r.transport == transport,
        r.affinity_key@ == affinity_key@,
{
    assert(r@ == bound_by(app_name, transport, affinity_key));
}

/// New sessions behave as they are told to, and hold no binding.
pub proof fn law_new_sessions(
    config: StickySessionConfig,
    r: StickySessionState,
    told: &StickySessionConfig,
)
    requires
        call_ensures(StickySessionState::new, (config,), r),
        call_ensures(StickySessionState::config, (&r,), told),
    ensures
        *told == config,
        r.settings() == config,
        r.wf(),
        r.model().entries == Map::<AffinityKeyView, AffinityEntry>::empty(),
{
}

/// A key that is bound is found from then on for the configured time to live, and no longer: with
/// the backend that it was bound to, exactly while that backend is allowed. Times are nanoseconds,
/// of which a millisecond has a million.
///
/// The binding must not have made room at once, which it does only where the bindings are at the
/// limit: see [`law_binding_takes_place`].
pub proof fn law_bound_for_the_time_to_live(
    s: &mut StickySessionState,
    app_name: &str,
    transport: TransportKind,
    affinity_key: &str,
    backend: String,
    bound_at: u64,
    later: &mut StickySessionState,
    allowed: &BackendSet,
    now: u64,
    r: Option<String>,
)
    requires
        old(s).wf(),
        bound_at + old(s).settings().ttl_ms * 1000000 <= u64::MAX,
        now + old(s).settings().ttl_ms * 1000000 <= u64::MAX,
        call_ensures(
            StickySessionState::bind,
            (s, app_name, transport, affinity_key, backend, bound_at),
            (),
        ),
        final(s).model().entries.contains_key(bound_by(app_name, transport, affinity_key)),
        *old(later) == *final(s),
        call_ensures(
            StickySessionState::lookup,
            (later, app_name, transport, affinity_key, allowed, now),
            r,
        ),
    ensures
        final(s).settings() == old(s).settings(),
        final(later).settings() == old(s).settings(),
        bound_at <= now < bound_at + old(s).settings().ttl_ms * 1000000 && allowed@.contains(
            backend@,
        ) ==> r is Some && r->0@ == backend@,
        now >= bound_at + old(s).settings().ttl_ms * 1000000 ==> r is None,
        !allowed@.contains(backend@) ==> r is None,
{
    let config = old(s).settings();
    let key = bound_by(app_name, transport, affinity_key);
    let entry = AffinityEntry { backend, expires_at: (bound_at + config.ttl()) as u64 };
    let m = old(s).model();
    old(s).law_models_are_valid();
    final(s).law_models_are_valid();
    lemma_bound_within(m, key, entry, bound_at, config.max_entries);
    let bound = final(s).model();
    assert(bound.entries.dom().contains(key));
    assert(bound.entries[key] == m.entries.insert(key, entry)[key]);
    lemma_visited_within_limit(bound, key, now, config.max_entries);
}

/// A key that is found is found again for the configured time to live from then on, and no longer:
/// expiration slides.
pub proof fn law_found_for_the_time_to_live(
    s: &mut StickySessionState,
    app_name: &str,
    transport: TransportKind,
    affinity_key: &str,
    allowed: &BackendSet,
    found_at: u64,
    found: String,
    later: &mut StickySessionState,
    still_allowed: &BackendSet,
    now: u64,
    r: Option<String>,
)
    requires
        old(s).wf(),
        found_at + old(s).settings().ttl_ms * 1000000 <= u64::MAX,
        now + old(s).settings().ttl_ms * 1000000 <= u64::MAX,
        call_ensures(
            StickySessionState::lookup,
            (s, app_name, transport, affinity_key, allowed, found_at),
            Some(found),
        ),
        *old(later) == *final(s),
        call_ensures(
            StickySessionState::lookup,
            (later, app_name, transport, affinity_key, still_allowed, now),
            r,
        ),
    ensures
        allowed@.contains(found@),
        now < found_at + old(s).settings().ttl_ms * 1000000 && still_allowed@.contains(found@)
            ==> r is Some && r->0@ == found@,
        now >= found_at + old(s).settings().ttl_ms * 1000000 ==> r is None,
        !still_allowed@.contains(found@) ==> r is None,
{
    let config = old(s).settings();
    let key = bound_by(app_name, transport, affinity_key);
    let m = old(s).model();
    old(s).law_models_are_valid();
    final(s).law_models_are_valid();
    lemma_visited_within_limit(m, key, found_at, config.max_entries);
    let after = final(s).model();
    lemma_visited_within_limit(after, key, now, config.max_entries);
}

/// A lookup that finds nothing leaves nothing: the next one finds nothing either, whatever is
/// allowed and whenever it is made.
pub proof fn law_what_is_not_found_is_gone(
    s: &mut StickySessionState,
    app_name: &str,
    transport: TransportKind,
    affinity_key: &str,
    allowed: &BackendSet,
    asked_at: u64,
    later: &mut StickySessionState,
    then_allowed: &BackendSet,
    now: u64,
    r: Option<String>,
)
    requires
        old(s).wf(),
        call_ensures(
            StickySessionState::lookup,
            (s, app_name, transport, affinity_key, allowed, asked_at),
            None,
        ),
        *old(later) == *final(s),
        call_ensures(
            StickySessionState::lookup,
            (later, app_name, transport, affinity_key, then_allowed, now),
            r,
        ),
    ensures
        r is None,
{
    let config = old(s).settings();
    let key = bound_by(app_name, transport, affinity_key);
    old(s).law_models_are_valid();
    final(s).law_models_are_valid();
    lemma_visited_within_limit(old(s).model(), key, asked_at, config.max_entries);
    lemma_visited_within_limit(final(s).model(), key, now, config.max_entries);
}

/// A key whose binding was dropped is not found.
pub proof fn law_dropped_keys_are_not_found(
    s: &mut StickySessionState,
    app_name: &str,
    transport: TransportKind,
    affinity_key: &str,
    later: &mut StickySessionState,
    allowed: &BackendSet,
    now: u64,
    r: Option<String>,
    other: AffinityKeyView,
)
    requires
        old(s).wf(),
        call_ensures(StickySessionState::remove, (s, app_name, transport, affinity_key), ()),
        *old(later) == *final(s),
        call_ensures(
            StickySessionState::lookup,
            (later, app_name, transport, affinity_key, allowed, now),
            r,
        ),
        other != bound_by(app_name, transport, affinity_key),
    ensures
        r is None,
        final(s).model().entries.contains_key(other) == old(s).model().entries.contains_key(other),
        old(s).model().entries.contains_key(other) ==> final(s).model().entries[other]
            == old(s).model().entries[other],
{
    let config = old(s).settings();
    let key = bound_by(app_name, transport, affinity_key);
    final(s).law_models_are_valid();
    lemma_visited_within_limit(final(s).model(), key, now, config.max_entries);
}

/// Binding takes place: the key is bound to the backend, until the time to live has passed. There
/// are no more bindings than the limit. Below the limit nothing gives way; at the limit, what gives
/// way expires no later than what stays; and what stays is unchanged.
pub proof fn law_binding_takes_place(
    s: &mut StickySessionState,
    app_name: &str,
    transport: TransportKind,
    affinity_key: &str,
    backend: String,
    now: u64,
    other: AffinityKeyView,
    third: AffinityKeyView,
)
    requires
        old(s).wf(),
        now + old(s).settings().ttl_ms * 1000000 <= u64::MAX,
        old(s).settings().ttl_ms > 0,
        call_ensures(
            StickySessionState::bind,
            (s, app_name, transport, affinity_key, backend, now),
            (),
        ),
        other != bound_by(app_name, transport, affinity_key),
    ensures
        ({
            let key = bound_by(app_name, transport, affinity_key);
            let before = old(s).model().entries;
            let after = final(s).model().entries;
            let room = before.len() < old(s).settings().max_entries || (before.contains_key(key));
            &&& final(s).wf()
            &&& final(s).settings() == old(s).settings()
            &&& after.len() <= old(s).settings().max_entries
            &&& room ==> after.contains_key(key)
            &&& after.contains_key(key) ==> after[key].backend@ == backend@ && after[key].expires_at
                == now + old(s).settings().ttl_ms * 1000000
            &&& room && before.contains_key(other) && now < before[other].expires_at
                ==> after.contains_key(other)
            &&& after.contains_key(other) ==> before.contains_key(other) && after[other]
                == before[other]
            &&& before.contains_key(other) && !after.contains_key(other) && now
                < before[other].expires_at && after.contains_key(third) && third != key
                ==> before[other].expires_at <= after[third].expires_at
        }),
{
    let config = old(s).settings();
    let key = bound_by(app_name, transport, affinity_key);
    let entry = AffinityEntry { backend, expires_at: (now + config.ttl()) as u64 };
    let m = old(s).model();
    old(s).law_models_are_valid();
    lemma_bound_within(m, key, entry, now, config.max_entries);
    lemma_bound_count(m, key, entry, now);
    lemma_bound_valid(m, key, entry);
    lemma_shard_range(key);
    let bound = m.bound(key, entry).counted(shard_of(key));
    assert(bound.valid());
    law_cleanup(bound, now, config.max_entries);
    let after = final(s).model().entries;
    assert(after.dom().contains(other) ==> m.entries.insert(key, entry).dom().contains(other));
    assert(after.dom().contains(key) ==> after[key] == m.entries.insert(key, entry)[key]);
    if third != key {
        assert(after.dom().contains(third) ==> m.entries.insert(key, entry).dom().contains(third));
    }
    assert(live(bound.entries, now).contains_key(other) <==> m.entries.contains_key(other) && now
        < m.entries[other].expires_at);
    let kept = live(bound.entries, now);
    if kept.len() <= config.max_entries {
        assert(bound.cleaned(now, config.max_entries).entries == kept);
    }
}

/// Keys that differ in application, transport or affinity key have nothing to do with each other:
/// one that was not bound is not found after another was bound.
pub proof fn law_bound_keys_are_separate(
    s: &mut StickySessionState,
    app_name: &str,
    transport: TransportKind,
    affinity_key: &str,
    backend: String,
    bound_at: u64,
    later: &mut StickySessionState,
    other_app: &str,
    other_transport: TransportKind,
    other_key: &str,
    allowed: &BackendSet,
    now: u64,
    r: Option<String>,
)
    requires
        old(s).wf(),
        app_name@ != other_app@ || transport != other_transport || affinity_key@ != other_key@,
        !old(s).model().entries.contains_key(bound_by(other_app, other_transport, other_key)),
        call_ensures(
            StickySessionState::bind,
            (s, app_name, transport, affinity_key, backend, bound_at),
            (),
        ),
        *old(later) == *final(s),
        call_ensures(
            StickySessionState::lookup,
            (later, other_app, other_transport, other_key, allowed, now),
            r,
        ),
    ensures
        r is None,
{
    let config = old(s).settings();
    let key = bound_by(app_name, transport, affinity_key);
    let other = bound_by(other_app, other_transport, other_key);
    let entry = AffinityEntry { backend, expires_at: (bound_at + config.ttl()) as u64 };
    let m = old(s).model();
    old(s).law_models_are_valid();
    final(s).law_models_are_valid();
    lemma_bound_within(m, key, entry, bound_at, config.max_entries);
    let after = final(s).model();
    assert(after.entries.dom().contains(other) ==> m.entries.insert(
        key,
        entry,
    ).dom().contains(other));
    lemma_visited_within_limit(after, other, now, config.max_entries);
}

/// A lookup of one key leaves the bindings of the others that count as they are.
pub proof fn law_lookups_leave_others(
    s: &mut StickySessionState,
    app_name: &str,
    transport: TransportKind,
    affinity_key: &str,
    allowed: &BackendSet,
    now: u64,
    r: Option<String>,
    other: AffinityKeyView,
)
    requires
        old(s).wf(),
        call_ensures(
            StickySessionState::lookup,
            (s, app_name, transport, affinity_key, allowed, now),
            r,
        ),
        other != bound_by(app_name, transport, affinity_key),
    ensures
        ({
            let before = old(s).model().entries;
            let after = final(s).model().entries;
            &&& before.contains_key(other) && now < before[other].expires_at
                ==> after.contains_key(other)
            &&& after.contains_key(other) ==> before.contains_key(other) && after[other]
                == before[other]
            &&& r matches Some(found) ==> before.contains_key(
                bound_by(app_name, transport, affinity_key),
            ) && before[bound_by(app_name, transport, affinity_key)].backend@ == found@ && now
                < before[bound_by(app_name, transport, affinity_key)].expires_at
        }),
{
    let key = bound_by(app_name, transport, affinity_key);
    old(s).law_models_are_valid();
    law_lookups_change_one_binding(
        old(s).model(),
        key,
        allowed@,
        now,
        old(s).settings(),
        other,
    );
    lemma_visited_within_limit(old(s).model(), key, now, old(s).settings().max_entries);
}

/// A cleanup drops what no longer counts and what is over the limit, and nothing else.
pub proof fn law_cleanups_keep_what_counts(
    s: &mut StickySessionState,
    now: u64,
    key: AffinityKeyView,
)
    requires
        old(s).wf(),
        call_ensures(StickySessionState::cleanup_global, (s, now), ()),
    ensures
        final(s).model().entries.contains_key(key) <==> old(s).model().entries.contains_key(key)
            && now < old(s).model().entries[key].expires_at,
        final(s).model().entries.contains_key(key) ==> final(s).model().entries[key]
            == old(s).model().entries[key],
{
    old(s).law_models_are_valid();
    lemma_cleaned_within_limit(old(s).model(), now, old(s).settings().max_entries);
}

/// Every shard asks for a cleanup with the first of its operations and with each 128th behind it.
pub proof fn law_cleanups_come_round(s: &mut StickySessionState, shard_index: usize, r: bool)
    requires
        call_ensures(StickySessionState::should_cleanup, (s, shard_index), r),
        0 <= shard_index < 64,
        old(s).model().ops.len() == 64,
    ensures
        r <==> old(s).model().ops[shard_index as int] % 128 == 0,
        old(s).model().ops[shard_index as int] < u64::MAX
            ==> final(s).model().ops[shard_index as int] == old(s).model().ops[shard_index as int]
            + 1,
        final(s).model().entries == old(s).model().entries,
{
}

/// Affinity keys that are made up one after the other differ where the clock reads the same, can be
/// taken up again from a cookie or a header, and cost no binding.
pub proof fn law_keys_are_made_up(
    s: &mut StickySessionState,
    now_nanos: u128,
    one: String,
    later: &mut StickySessionState,
    other: String,
)
    requires
        old(s).wf(),
        call_ensures(StickySessionState::generate_affinity_key, (s, now_nanos), one),
        *old(later) == *final(s),
        call_ensures(StickySessionState::generate_affinity_key, (later, now_nanos), other),
    ensures
        one@ != other@,
        key_fits(one@),
        !one@.contains(';'),
        final(s).model().entries == old(s).model().entries,
        final(s).settings() == old(s).settings(),
{
    let tick = old(s).model().next_key;
    law_generated_keys_are_accepted(now_nanos, tick);
    law_trims_to(one@, one@);
    law_generated_keys_differ(now_nanos, tick, super::next(tick));
}

/// The cookie that hands out an affinity key: its name, the key, how many seconds the client keeps
/// it (the time to live, and at least one), where and how it is sent, and that only secure
/// connections bring it where it is so marked.
pub proof fn law_set_cookie(s: &StickySessionState, affinity_key: &str, r: String)
    requires
        call_ensures(StickySessionState::cookie_header_value, (s, affinity_key), r),
    ensures
        ({
            let config = s.settings();
            let seconds = if config.ttl_ms < 2000 {
                1
            } else {
                config.ttl_ms as nat / 1000
            };
            r@ == config.cookie_name@ + "="@ + affinity_key@ + "; Max-Age="@ + text::numeral(
                seconds,
                10,
            ) + "; Path=/; HttpOnly; SameSite=Lax"@ + (if config.cookie_secure {
                "; Secure"@
            } else {
                Seq::empty()
            })
        }),
{
    let config = s.settings();
    let nothing = Seq::<char>::empty();
    assert(r@ + nothing =~= r@);
}

/// What a lookup sees of a key is what is bound, where that still counts.
pub proof fn lemma_lookup_of_what_counts(
    m: StickyModel,
    key: AffinityKeyView,
    now: u64,
    max_entries: usize,
)
    requires
        m.valid(),
        m.entries.len() <= max_entries,
    ensures
        ({
            let seen = m.visited(key, now, max_entries).entries;
            &&& m.entries.contains_key(key) && now < m.entries[key].expires_at
                ==> seen.contains_key(key)
            &&& seen.contains_key(key) ==> m.entries.contains_key(key) && seen[key]
                == m.entries[key]
        }),
{
    lemma_visited_within_limit(m, key, now, max_entries);
}

/// What a binding is, where it is kept.
pub proof fn lemma_bound_until(
    m: StickyModel,
    key: AffinityKeyView,
    backend: String,
    now: u64,
    config: StickySessionConfig,
)
    requires
        m.valid(),
        m.entries.len() <= config.max_entries,
        now + config.ttl() <= u64::MAX,
    ensures
        ({
            let entry = AffinityEntry { backend, expires_at: (now + config.ttl()) as u64 };
            let after = m.bound_within(key, entry, now, config.max_entries).entries;
            &&& after.contains_key(key) ==> after[key] == entry
            &&& m.entries.len() < config.max_entries && config.ttl_ms > 0 ==> after.contains_key(
                key,
            )
        }),
{
    let entry = AffinityEntry { backend, expires_at: (now + config.ttl()) as u64 };
    lemma_bound_within(m, key, entry, now, config.max_entries);
    let after = m.bound_within(key, entry, now, config.max_entries).entries;
    if after.contains_key(key) {
        let all = m.entries.insert(key, entry);
        assert(after.submap_of(all));
        assert(after.dom().contains(key));
        assert(all.dom().contains(key) && after[key] == all[key]);
    }
    if m.entries.len() < config.max_entries && config.ttl_ms > 0 {
        lemma_bound_count(m, key, entry, now);
        law_newest_binding_is_kept(m, key, entry, now, config.max_entries);
    }
}

/// What binding a key leaves of another: the binding as it was, and gone only where it does not
/// count or where there is no room.
pub proof fn lemma_bound_beside(
    m: StickyModel,
    key: AffinityKeyView,
    entry: AffinityEntry,
    now: u64,
    max_entries: usize,
    other: AffinityKeyView,
)
    requires
        m.valid(),
        m.entries.len() <= max_entries,
        other != key,
    ensures
        ({
            let after = m.bound_within(key, entry, now, max_entries).entries;
            &&& after.contains_key(other) ==> m.entries.contains_key(other) && after[other]
                == m.entries[other]
            &&& m.entries.len() < max_entries && m.entries.contains_key(other) && counts(
                m.entries[other],
                now,
            ) ==> after.contains_key(other)
        }),
{
    lemma_bound_within(m, key, entry, now, max_entries);
    lemma_bound_valid(m, key, entry);
    lemma_shard_range(key);
    let bound = m.bound(key, entry).counted(shard_of(key));
    assert(bound.valid());
    law_cleanup(bound, now, max_entries);
    let after = m.bound_within(key, entry, now, max_entries).entries;
    assert(after.dom().contains(other) ==> m.entries.insert(key, entry).dom().contains(other));
    let kept = live(bound.entries, now);
    assert(kept.contains_key(other) <==> m.entries.contains_key(other) && now
        < m.entries[other].expires_at);
    assert(kept.dom().subset_of(m.entries.dom().insert(key)));
    vstd::set_lib::lemma_len_subset(kept.dom(), m.entries.dom().insert(key));
    if kept.len() <= max_entries {
        assert(bound.cleaned(now, max_entries).entries == kept);
    }
}

/// A note of an expiry time changes no binding, and a key is always kept by the same shard.
pub proof fn law_notes_change_no_binding(
    s: &mut StickySessionState,
    shard_index: usize,
    key: &AffinityMapKey,
    expires_at: u64,
    other: &StickySessionState,
    same: &AffinityMapKey,
    one: usize,
    two: usize,
)
    requires
        call_ensures(
            StickySessionState::record_eviction_candidate,
            (s, shard_index, key, expires_at),
            (),
        ),
        same@ == key@,
        call_ensures(StickySessionState::shard_index_for_key, (other, key), one),
        call_ensures(StickySessionState::shard_index_for_key, (other, same), two),
    ensures
        final(s).model().entries == old(s).model().entries,
        final(s).model().index.len() == old(s).model().index.len() + 1,
        final(s).settings() == old(s).settings(),
        one == two,
        one < 64,
{
    let note = Note {
        expires_at,
        sequence: old(s).model().next_sequence,
        shard_index: shard_index as int,
        key: key@,
    };
    lemma_slot_bounds(old(s).model().index, note, old(s).model().index.len() as int);
}

proof fn lemma_slot_bounds(index: Seq<Note>, item: Note, n: int)
    requires
        0 <= n <= index.len(),
    ensures
        0 <= slot(index, item, n) <= n,
    decreases n,
{
    if n > 0 {
        lemma_slot_bounds(index, item, n - 1);
    }
}

/// A key is kept by the shard that the hash of its parts tells: the application's name and the
/// affinity key, each closed by a byte that no text holds, and between them the number of the
/// transport.
pub proof fn law_shards_are_told_by_the_parts(
    s: &StickySessionState,
    key: &AffinityMapKey,
    number: u8,
    r: usize,
)
    requires
        call_ensures(StickySessionState::shard_index_for_key, (s, key), r),
        key.transport is Http1 ==> number == 0,
        key.transport is Http2 ==> number == 1,
        key.transport is Ws ==> number == 2,
    ensures
        r == (DefaultHasher::spec_finish(
            seq![
                vstd::utf8::encode_utf8(key.app_name@),
                seq![255u8],
                seq![number, 0, 0, 0, 0, 0, 0, 0],
                vstd::utf8::encode_utf8(key.affinity_key@),
                seq![255u8],
            ],
        ) as usize) % 64,
{
}

/// Whether an operation on a key is counted, and no other: for the shard that keeps the key, one
/// more, or none after as many as can be counted.
pub open spec fn counts_one(before: Seq<u64>, after: Seq<u64>, shard: int) -> bool {
    &&& after.len() == before.len()
    &&& after[shard] == (if before[shard] == u64::MAX {
        0
    } else {
        before[shard] + 1
    })
    &&& forall|other: int|
        0 <= other < before.len() && other != shard ==> #[trigger] after[other] == before[other]
}

/// A binding that no longer counts stays until a cleanup. Binding a key brings one when its shard
/// is due, with each 128th operation, and when there are more bindings than the limit.
pub proof fn law_binds_clean_up_when_due(
    s: &mut StickySessionState,
    app_name: &str,
    transport: TransportKind,
    affinity_key: &str,
    backend: String,
    now: u64,
    other: AffinityKeyView,
)
    requires
        old(s).wf(),
        call_ensures(
            StickySessionState::bind,
            (s, app_name, transport, affinity_key, backend, now),
            (),
        ),
        other != bound_by(app_name, transport, affinity_key),
        old(s).model().entries.contains_key(other),
        old(s).model().entries[other].expires_at <= now,
    ensures
        ({
            let key = bound_by(app_name, transport, affinity_key);
            let before = old(s).model();
            let after = final(s).model();
            let due = before.ops[shard_of(key)] % 128 == 0;
            let over = !before.entries.contains_key(key) && before.entries.len()
                >= old(s).settings().max_entries;
            &&& after.entries.contains_key(other) <==> !due && !over
            &&& counts_one(before.ops, after.ops, shard_of(key))
            &&& after.next_key == before.next_key
            &&& !due && !over ==> after.index.len() == before.index.len() + 1
        }),
{
    let config = old(s).settings();
    let key = bound_by(app_name, transport, affinity_key);
    let entry = AffinityEntry { backend, expires_at: (now + config.ttl()) as u64 };
    let m = old(s).model();
    old(s).law_models_are_valid();
    lemma_shard_range(key);
    lemma_bound_valid(m, key, entry);
    let bound = m.bound(key, entry).counted(shard_of(key));
    assert(bound.valid());
    law_cleanup(bound, now, config.max_entries);
    let note = Note {
        expires_at: entry.expires_at,
        sequence: m.next_sequence,
        shard_index: shard_of(key),
        key,
    };
    lemma_slot_bounds(m.index, note, m.index.len() as int);
    let kept = bound.cleaned(now, config.max_entries).entries;
    assert(kept.dom().contains(other) ==> live(bound.entries, now).dom().contains(other));
}

/// A binding that no longer counts stays until a cleanup. Looking up another key brings one when
/// its shard is due, with each 128th operation, and only then.
pub proof fn law_lookups_clean_up_when_due(
    s: &mut StickySessionState,
    app_name: &str,
    transport: TransportKind,
    affinity_key: &str,
    allowed: &BackendSet,
    now: u64,
    r: Option<String>,
    other: AffinityKeyView,
)
    requires
        old(s).wf(),
        call_ensures(
            StickySessionState::lookup,
            (s, app_name, transport, affinity_key, allowed, now),
            r,
        ),
        other != bound_by(app_name, transport, affinity_key),
        old(s).model().entries.contains_key(other),
        old(s).model().entries[other].expires_at <= now,
    ensures
        ({
            let key = bound_by(app_name, transport, affinity_key);
            let before = old(s).model();
            let after = final(s).model();
            &&& after.entries.contains_key(other) <==> before.ops[shard_of(key)] % 128 != 0
            &&& counts_one(before.ops, after.ops, shard_of(key))
            &&& after.next_key == before.next_key
            &&& after.index.len() == before.index.len() + (if r is Some {
                1int
            } else {
                0
            })
        }),
{
    let config = old(s).settings();
    let key = bound_by(app_name, transport, affinity_key);
    let m = old(s).model();
    old(s).law_models_are_valid();
    lemma_shard_range(key);
    lemma_visited_within_limit(m, key, now, config.max_entries);
    let counted = m.counted(shard_of(key));
    assert(counted.valid());
    lemma_cleaned_within_limit(counted, now, config.max_entries);
    let note = Note {
        expires_at: (now + config.ttl()) as u64,
        sequence: m.next_sequence,
        shard_index: shard_of(key),
        key,
    };
    lemma_slot_bounds(m.index, note, m.index.len() as int);
}

/// Dropping a binding, a cleanup within the limit and a made-up key touch nothing else: operations
/// are not counted, notes stay, and only a made-up key moves on to the next.
pub proof fn law_upkeep_is_left(
    dropping: &mut StickySessionState,
    app_name: &str,
    transport: TransportKind,
    affinity_key: &str,
    cleaning: &mut StickySessionState,
    now: u64,
    making: &mut StickySessionState,
    now_nanos: u128,
    made: String,
)
    requires
        call_ensures(
            StickySessionState::remove,
            (dropping, app_name, transport, affinity_key),
            (),
        ),
        old(cleaning).wf(),
        call_ensures(StickySessionState::cleanup_global, (cleaning, now), ()),
        call_ensures(StickySessionState::generate_affinity_key, (making, now_nanos), made),
    ensures
        final(dropping).settings() == old(dropping).settings(),
        final(dropping).model().ops == old(dropping).model().ops,
        final(dropping).model().index == old(dropping).model().index,
        final(dropping).model().next_sequence == old(dropping).model().next_sequence,
        final(dropping).model().next_key == old(dropping).model().next_key,
        final(cleaning).settings() == old(cleaning).settings(),
        final(cleaning).model().ops == old(cleaning).model().ops,
        final(cleaning).model().index == old(cleaning).model().index,
        final(cleaning).model().next_sequence == old(cleaning).model().next_sequence,
        final(cleaning).model().next_key == old(cleaning).model().next_key,
        final(making).model().ops == old(making).model().ops,
        final(making).model().index == old(making).model().index,
        final(making).model().next_sequence == old(making).model().next_sequence,
        final(making).model().next_key == (if old(making).model().next_key == u64::MAX {
            0
        } else {
            old(making).model().next_key + 1
        }),
{
    old(cleaning).law_models_are_valid();
    lemma_cleaned_within_limit(
        old(cleaning).model(),
        now,
        old(cleaning).settings().max_entries,
    );
}

/// A made-up affinity key is the time and then the counter, each in digits of base sixteen.
pub proof fn law_made_up_keys_are_read(
    s: &mut StickySessionState,
    now_nanos: u128,
    made: String,
) -> (n: int)
    requires
        call_ensures(StickySessionState::generate_affinity_key, (s, now_nanos), made),
    ensures
        0 < n < made@.len(),
        number_read(made@.take(n), 16) == now_nanos,
        number_read(made@.skip(n), 16) == old(s).model().next_key,
        now_nanos > 0 ==> made@[0] != '0',
        old(s).model().next_key > 0 ==> made@[n] != '0',
{
    let time = text::numeral(now_nanos as nat, 16);
    let tick = text::numeral(old(s).model().next_key as nat, 16);
    law_numerals(now_nanos as nat, 16);
    law_numerals(old(s).model().next_key as nat, 16);
    assert(made@.take(time.len() as int) =~= time);
    assert(made@.skip(time.len() as int) =~= tick);
    time.len() as int
}

} // verus!
