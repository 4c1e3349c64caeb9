use vstd::prelude::*;
use crate::address::SocketAddress;
use crate::wire::{blobs_fit, byte_views, MAX_BLOB_LEN};

verus! {

/// The period of the eviction sweep, in nanoseconds: thirty seconds. An entry
/// that was last refreshed longer ago than this is stale.
pub const SWEEP_INTERVAL_NANOS: u128 = 30_000_000_000;

/// What a registry entry holds, as mathematical values.
pub struct EntryView {
    /// The address from which the blob was registered: the key of the entry.
    pub source: SocketAddress,
    /// The blob, which the registry never looks into.
    pub payload: Seq<u8>,
    /// When the entry was last registered, in nanoseconds since the epoch.
    pub last_seen: u128,
}

/// Whether an entry last seen at `last_seen` is stale at the time `now`.
pub open spec fn is_stale(last_seen: u128, now: u128) -> bool {
    now - last_seen > SWEEP_INTERVAL_NANOS
}

/// Whether some entry has the given source address.
pub open spec fn holds(entries: Seq<EntryView>, source: SocketAddress) -> bool {
    exists|i: int| 0 <= i < entries.len() && (#[trigger] entries[i]).source == source
}

/// The index of an entry with the given source address, if there is one.
pub open spec fn position(entries: Seq<EntryView>, source: SocketAddress) -> int
    recommends
        holds(entries, source),
{
    choose|i: int| 0 <= i < entries.len() && (#[trigger] entries[i]).source == source
}

/// The entries after `entry` was registered: it takes the place of the entry
/// with the same source address, or the last place if there is none.
pub open spec fn upsert(entries: Seq<EntryView>, entry: EntryView) -> Seq<EntryView> {
    if holds(entries, entry.source) {
        entries.update(position(entries, entry.source), entry)
    } else {
        entries.push(entry)
    }
}

/// The entries that are not stale at the time `now`, in their order.
pub open spec fn fresh(entries: Seq<EntryView>, now: u128) -> Seq<EntryView> {
    entries.filter(|e: EntryView| !is_stale(e.last_seen, now))
}

/// The source addresses of the entries that are stale at the time `now`, in
/// the order of the entries.
pub open spec fn stale_sources(entries: Seq<EntryView>, now: u128) -> Seq<SocketAddress> {
    entries.filter(|e: EntryView| is_stale(e.last_seen, now)).map_values(
        |e: EntryView| e.source,
    )
}

/// The blobs of the entries, in the order of the entries.
pub open spec fn payloads(entries: Seq<EntryView>) -> Seq<Seq<u8>> {
    entries.map_values(|e: EntryView| e.payload)
}

/// No two entries have the same source address.
pub open spec fn distinct_sources(entries: Seq<EntryView>) -> bool {
    forall|i: int, j: int|
        0 <= i < j < entries.len() ==> (#[trigger] entries[i]).source != (
        #[trigger] entries[j]).source
}

/// Every blob is one that a Register datagram can carry.
pub open spec fn payloads_in_range(entries: Seq<EntryView>) -> bool {
    forall|i: int|
        0 <= i < entries.len() ==> 0 < (#[trigger] entries[i]).payload.len() <= MAX_BLOB_LEN
}

/// What holds of the entries of every registry.
pub open spec fn well_formed(entries: Seq<EntryView>) -> bool {
    distinct_sources(entries) && payloads_in_range(entries)
}

/// One registration: the blob that a source address published and the time of
/// its last refresh.
struct RegistryEntry {
    source: SocketAddress,
    payload: Vec<u8>,
    last_seen: u128,
}

impl View for RegistryEntry {
    type V = EntryView;

    closed spec fn view(&self) -> EntryView {
        EntryView { source: self.source, payload: self.payload@, last_seen: self.last_seen }
    }
}

/// The registry of a rendezvous server: at most one entry for each source
/// address, in the order in which the addresses first registered.
pub struct Registry {
    entries: Vec<RegistryEntry>,
}

impl View for Registry {
    type V = Seq<EntryView>;

    closed spec fn view(&self) -> Seq<EntryView> {
        entry_views(self.entries@)
    }
}

/// Whether an entry last seen at `last_seen` is stale at the time `now`.
pub fn stale_at(last_seen: u128, now: u128) -> (stale: bool)
    ensures
        stale == is_stale(last_seen, now),
{
    now > last_seen && now - last_seen > SWEEP_INTERVAL_NANOS
}

impl Registry {
    /// Holds of every registry: its entries are well formed.
    #[verifier::type_invariant]
    pub open spec fn inv(self) -> bool {
        well_formed(self@)
    }

    /// A registry without entries.
    pub fn new() -> (registry: Registry)
        ensures
            registry@ == Seq::<EntryView>::empty(),
    {
        let registry = Registry { entries: Vec::new() };
        registry
    }

    /// The number of entries.
    pub fn len(&self) -> (n: usize)
        ensures
            n == self@.len(),
            well_formed(self@),
    {
        proof {
            use_type_invariant(self);
        }
        self.entries.len()
    }

    /// Registers `payload` for `source` at the time `now`, in place of what the
    /// same source registered before. A payload that is empty or longer than
    /// `MAX_BLOB_LEN` is not stored, and the registry stays as it was.
    pub fn register(
        &mut self,
        source: SocketAddress,
        payload: Vec<u8>,
        now: u128,
    ) -> (stored: bool)
        ensures
            stored == (0 < payload.len() <= MAX_BLOB_LEN),
            stored ==> final(self)@ == upsert(
                old(self)@,
                EntryView { source, payload: payload@, last_seen: now },
            ),
            !stored ==> final(self)@ == old(self)@,
            well_formed(final(self)@),
    {
        proof {
            use_type_invariant(&*self);
        }
        if payload.len() == 0 || payload.len() > MAX_BLOB_LEN {
            return false;
        }
        let mut entries: Vec<RegistryEntry> = Vec::new();
        std::mem::swap(&mut self.entries, &mut entries);
        upsert_entry(&mut entries, RegistryEntry { source, payload, last_seen: now });
        self.entries = entries;
        true
    }

    /// Removes every entry that is stale at the time `now` and returns the
    /// source addresses of the removed entries, in the order of the entries.
    pub fn evict_stale(&mut self, now: u128) -> (removed: Vec<SocketAddress>)
        ensures
            final(self)@ == fresh(old(self)@, now),
            removed@ == stale_sources(old(self)@, now),
            well_formed(final(self)@),
    {
        proof {
            use_type_invariant(&*self);
        }
        let mut entries: Vec<RegistryEntry> = Vec::new();
        std::mem::swap(&mut self.entries, &mut entries);
        let removed = evict_entries(&mut entries, now);
        self.entries = entries;
        removed
    }

    /// The blobs of all entries, in the order of the entries.
    pub fn payloads(&self) -> (blobs: Vec<Vec<u8>>)
        ensures
            byte_views(blobs@) == payloads(self@),
            blobs_fit(payloads(self@)),
    {
        proof {
            use_type_invariant(self);
        }
        let mut blobs: Vec<Vec<u8>> = Vec::new();
        let mut i: usize = 0;
        while i < self.entries.len()
            invariant
                i <= self.entries.len(),
                self@.len() == self.entries.len(),
                byte_views(blobs@) == payloads(self@).take(i as int),
            decreases self.entries.len() - i,
        {
            let ghost before = byte_views(blobs@);
            let blob = self.entries[i].payload.clone();
            blobs.push(blob);
            i += 1;
            assert(byte_views(blobs@) =~= before.push(self@[i - 1].payload));
        }
        blobs
    }
}

/// The views of a sequence of entries.
spec fn entry_views(entries: Seq<RegistryEntry>) -> Seq<EntryView> {
    entries.map_values(|e: RegistryEntry| e@)
}

/// Puts `entry` in the place of the entry with the same source address, or
/// behind the last entry if there is none.
fn upsert_entry(entries: &mut Vec<RegistryEntry>, entry: RegistryEntry)
    requires
        well_formed(entry_views(old(entries)@)),
        0 < entry@.payload.len() <= MAX_BLOB_LEN,
    ensures
        entry_views(final(entries)@) == upsert(entry_views(old(entries)@), entry@),
        well_formed(entry_views(final(entries)@)),
{
    let ghost before = entry_views(entries@);
    let ghost added = entry@;
    let mut i: usize = 0;
    while i < entries.len()
        invariant
            i <= entries.len(),
            before == entry_views(old(entries)@),
            entry_views(entries@) == before,
            well_formed(before),
            entry@ == added,
            0 < added.payload.len() <= MAX_BLOB_LEN,
            forall|j: int| 0 <= j < i ==> (#[trigger] before[j]).source != added.source,
        decreases entries.len() - i,
    {
        if entries[i].source == entry.source {
            proof {
                let p = position(before, added.source);
                assert(p == i) by {
                    if p < i {
                        assert(before[p].source != before[i as int].source);
                    } else if i < p {
                        assert(before[i as int].source != before[p].source);
                    }
                }
                lemma_update_well_formed(before, i as int, added);
            }
            entries.set(i, entry);
            return;
        }
        i += 1;
    }
    proof {
        lemma_push_well_formed(before, added);
    }
    entries.push(entry);
    assert(entry_views(entries@) =~= before.push(added));
}

/// Removes the entries that are stale at the time `now` and returns their
/// source addresses.
fn evict_entries(entries: &mut Vec<RegistryEntry>, now: u128) -> (removed: Vec<SocketAddress>)
    requires
        well_formed(entry_views(old(entries)@)),
    ensures
        entry_views(final(entries)@) == fresh(entry_views(old(entries)@), now),
        removed@ == stale_sources(entry_views(old(entries)@), now),
        well_formed(entry_views(final(entries)@)),
{
    let ghost before = entry_views(entries@);
    let ghost keep = |e: EntryView| !is_stale(e.last_seen, now);
    let ghost drop = |e: EntryView| is_stale(e.last_seen, now);
    let mut removed: Vec<SocketAddress> = Vec::new();
    let mut i: usize = 0;
    let ghost mut seen: int = 0;
    assert(before.skip(0) =~= before);
    while i < entries.len()
        invariant
            0 <= seen <= before.len(),
            before == entry_views(old(entries)@),
            well_formed(before),
            well_formed(entry_views(entries@)),
            keep == |e: EntryView| !is_stale(e.last_seen, now),
            drop == |e: EntryView| is_stale(e.last_seen, now),
            i == before.take(seen).filter(keep).len(),
            entry_views(entries@) == before.take(seen).filter(keep) + before.skip(seen),
            removed@ == before.take(seen).filter(drop).map_values(|e: EntryView| e.source),
        decreases before.len() - seen,
    {
        let ghost current = entry_views(entries@);
        let ghost head = before.take(seen);
        assert(current[i as int] == before.skip(seen)[0]);
        proof {
            assert(before.take(seen + 1) =~= head.push(before[seen]));
            head.lemma_filter_push(before[seen], keep);
            head.lemma_filter_push(before[seen], drop);
        }
        if stale_at(entries[i].last_seen, now) {
            proof {
                lemma_remove_well_formed(current, i as int);
            }
            let entry = entries.remove(i);
            removed.push(entry.source);
            assert(entry_views(entries@) =~= current.remove(i as int));
        } else {
            i += 1;
        }
        proof {
            seen = seen + 1;
        }
    }
    assert(entry_views(entries@).len() == entries.len());
    removed
}

/// Replacing an entry by one with the same source address keeps the entries
/// well formed.
proof fn lemma_update_well_formed(entries: Seq<EntryView>, i: int, entry: EntryView)
    requires
        well_formed(entries),
        0 <= i < entries.len(),
        entries[i].source == entry.source,
        0 < entry.payload.len() <= MAX_BLOB_LEN,
    ensures
        well_formed(entries.update(i, entry)),
{
    let after = entries.update(i, entry);
    assert forall|a: int, b: int| 0 <= a < b < after.len() implies (#[trigger] after[a]).source != (
    #[trigger] after[b]).source by {
        assert(after[a].source == entries[a].source);
    }
}

/// Appending an entry with a source address that no entry has keeps the
/// entries well formed.
proof fn lemma_push_well_formed(entries: Seq<EntryView>, entry: EntryView)
    requires
        well_formed(entries),
        !holds(entries, entry.source),
        0 < entry.payload.len() <= MAX_BLOB_LEN,
    ensures
        well_formed(entries.push(entry)),
{
    let after = entries.push(entry);
    assert forall|a: int, b: int| 0 <= a < b < after.len() implies (#[trigger] after[a]).source != (
    #[trigger] after[b]).source by {
        if b == entries.len() {
            assert(entries[a].source != entry.source);
        } else {
            assert(after[a] == entries[a]);
        }
    }
}

/// Removing an entry keeps the entries well formed.
proof fn lemma_remove_well_formed(entries: Seq<EntryView>, i: int)
    requires
        well_formed(entries),
        0 <= i < entries.len(),
    ensures
        well_formed(entries.remove(i)),
{
    let after = entries.remove(i);
    assert forall|a: int| 0 <= a < after.len() implies 0 < (#[trigger] after[a]).payload.len()
        <= MAX_BLOB_LEN by {
        if a < i {
            assert(after[a] == entries[a]);
        } else {
            assert(after[a] == entries[a + 1]);
        }
    }
    assert forall|a: int, b: int| 0 <= a < b < after.len() implies (#[trigger] after[a]).source != (
    #[trigger] after[b]).source by {
        let x = if a < i { a } else { a + 1 };
        let y = if b < i { b } else { b + 1 };
        assert(after[a] == entries[x]);
        assert(after[b] == entries[y]);
    }
}

/// After a registration the registry is well formed and holds exactly one
/// entry for the source address: the one that was registered.
pub proof fn lemma_upsert(entries: Seq<EntryView>, entry: EntryView)
    requires
        well_formed(entries),
        0 < entry.payload.len() <= MAX_BLOB_LEN,
    ensures
        well_formed(upsert(entries, entry)),
        holds(upsert(entries, entry), entry.source),
        forall|i: int|
            0 <= i < upsert(entries, entry).len() && (#[trigger] upsert(
                entries,
                entry,
            )[i]).source == entry.source ==> upsert(entries, entry)[i] == entry,
        forall|i: int|
            0 <= i < entries.len() && (#[trigger] entries[i]).source != entry.source ==> upsert(
                entries,
                entry,
            )[i] == entries[i],
        upsert(entries, entry).len() == if holds(entries, entry.source) {
            entries.len()
        } else {
            entries.len() + 1
        },
{
    let after = upsert(entries, entry);
    if holds(entries, entry.source) {
        let p = position(entries, entry.source);
        lemma_update_well_formed(entries, p, entry);
        assert(after[p].source == entry.source);
        assert forall|i: int|
            0 <= i < after.len() && (#[trigger] after[i]).source == entry.source implies after[i]
            == entry by {
            if i != p {
                if i < p {
                    assert(entries[i].source != entries[p].source);
                } else {
                    assert(entries[p].source != entries[i].source);
                }
            }
        }
    } else {
        lemma_push_well_formed(entries, entry);
        assert(after[entries.len() as int].source == entry.source);
        assert forall|i: int|
            0 <= i < after.len() && (#[trigger] after[i]).source == entry.source implies after[i]
            == entry by {
            if i < entries.len() {
                assert(entries[i].source == entry.source);
            }
        }
    }
}

/// A second registration from the same source address overwrites the first:
/// the registry is as if the first had never come.
pub proof fn lemma_upsert_overwrites(entries: Seq<EntryView>, first: EntryView, second: EntryView)
    requires
        well_formed(entries),
        0 < first.payload.len() <= MAX_BLOB_LEN,
        first.source == second.source,
    ensures
        upsert(upsert(entries, first), second) == upsert(entries, second),
{
    let between = upsert(entries, first);
    lemma_upsert(entries, first);
    let q = position(between, second.source);
    if holds(entries, first.source) {
        let p = position(entries, first.source);
        assert(q == p) by {
            if q < p {
                assert(between[q].source != between[p].source);
            } else if p < q {
                assert(between[p].source != between[q].source);
            }
        }
    } else {
        let last = entries.len() as int;
        assert(q == last) by {
            if q < last {
                assert(between[q].source != between[last].source);
            }
        }
    }
}

/// What a sweep leaves: a well-formed registry in which no entry is stale and
/// none of the stale entries' source addresses occurs, and which still holds
/// every entry that was not stale.
pub proof fn lemma_fresh(entries: Seq<EntryView>, now: u128)
    requires
        well_formed(entries),
    ensures
        well_formed(fresh(entries, now)),
        forall|i: int|
            0 <= i < fresh(entries, now).len() ==> !is_stale(
                (#[trigger] fresh(entries, now)[i]).last_seen,
                now,
            ) && entries.contains(fresh(entries, now)[i]),
        forall|j: int|
            0 <= j < entries.len() && is_stale((#[trigger] entries[j]).last_seen, now) ==> !holds(
                fresh(entries, now),
                entries[j].source,
            ),
        forall|j: int|
            0 <= j < entries.len() && !is_stale((#[trigger] entries[j]).last_seen, now)
                ==> fresh(entries, now).contains(entries[j]),
    decreases entries.len(),
{
    let keep = |e: EntryView| !is_stale(e.last_seen, now);
    let kept = fresh(entries, now);
    if entries.len() == 0 {
        assert(kept =~= Seq::<EntryView>::empty()) by {
            entries.lemma_filter_len(keep);
        }
    } else {
        let front = entries.drop_last();
        let last = entries.last();
        lemma_fresh(front, now);
        let front_kept = fresh(front, now);
        assert(entries =~= front.push(last));
        front.lemma_filter_push(last, keep);
        assert forall|i: int| 0 <= i < front_kept.len() implies (#[trigger] front_kept[i]).source
            != last.source && entries.contains(front_kept[i]) by {
            let k = choose|k: int| 0 <= k < front.len() && front[k] == front_kept[i];
            assert(entries[k] == front_kept[i]);
        }
        if keep(last) {
            assert forall|a: int, b: int| 0 <= a < b < kept.len() implies (
            #[trigger] kept[a]).source != (#[trigger] kept[b]).source by {
                assert(kept[a] == front_kept[a]);
            }
            assert forall|i: int| 0 <= i < kept.len() implies 0 < (#[trigger] kept[i]).payload.len()
                <= MAX_BLOB_LEN && !is_stale(kept[i].last_seen, now) && entries.contains(
                kept[i],
            ) by {
                if i < front_kept.len() {
                    assert(kept[i] == front_kept[i]);
                } else {
                    assert(kept[i] == entries[entries.len() - 1]);
                }
            }
        } else {
            assert(kept == front_kept);
        }
        assert forall|j: int|
            0 <= j < entries.len() && is_stale(
                (#[trigger] entries[j]).last_seen,
                now,
            ) implies !holds(kept, entries[j].source) by {
            if holds(kept, entries[j].source) {
                // The entry of this source that stayed is not stale, so it is
                // another entry than `entries[j]`, with the same source.
                let i = position(kept, entries[j].source);
                let k = choose|k: int| 0 <= k < entries.len() && entries[k] == kept[i];
                if k < j {
                    assert(entries[k].source != entries[j].source);
                } else {
                    assert(entries[j].source != entries[k].source);
                }
            }
        }
        assert forall|j: int|
            0 <= j < entries.len() && !is_stale(
                (#[trigger] entries[j]).last_seen,
                now,
            ) implies kept.contains(entries[j]) by {
            if j < front.len() {
                let i = choose|i: int| 0 <= i < front_kept.len() && front_kept[i] == front[j];
                assert(kept[i] == entries[j]);
            } else {
                assert(kept[kept.len() - 1] == entries[j]);
            }
        }
    }
}

/// When every entry is stale, a sweep leaves nothing.
pub proof fn lemma_fresh_of_stale(entries: Seq<EntryView>, now: u128)
    requires
        forall|j: int| 0 <= j < entries.len() ==> is_stale((#[trigger] entries[j]).last_seen, now),
    ensures
        fresh(entries, now) == Seq::<EntryView>::empty(),
    decreases entries.len(),
{
    let keep = |e: EntryView| !is_stale(e.last_seen, now);
    if entries.len() == 0 {
        entries.lemma_filter_len(keep);
    } else {
        let front = entries.drop_last();
        assert forall|j: int| 0 <= j < front.len() implies is_stale(
            (#[trigger] front[j]).last_seen,
            now,
        ) by {
            assert(front[j] == entries[j]);
        }
        lemma_fresh_of_stale(front, now);
        assert(entries =~= front.push(entries.last()));
        front.lemma_filter_push(entries.last(), keep);
    }
}

} // verus!
