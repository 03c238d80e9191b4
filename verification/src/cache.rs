//! The hotspot cache: a bounded map from the fingerprint of an expression to how often it
//! ran and, once it was promoted, its compiled code.

use crate::codegen::{ArtifactView, CompiledFunction};
use std::collections::HashMap;
use vstd::prelude::*;

verus! {

/// What the cache knows of one expression.
///
/// An entry is cold until its count reaches the promotion threshold. At that moment
/// compilation is attempted, once: from then on the entry is either compiled, if it holds
/// code, or it is never compiled.
#[derive(Debug, Clone)]
pub struct JitEntry {
    /// The fingerprint of the expression.
    pub expr_hash: u64,
    /// How often the expression was submitted. The count stops at `u64::MAX`.
    pub execution_count: u64,
    /// The compiled code, once the entry was promoted.
    pub compiled_function: Option<CompiledFunction>,
    /// Whether the threshold was reached, so that compilation is not attempted again.
    pub compile_attempted: bool,
}

/// A cache entry as plain values.
pub struct EntryView {
    pub expr_hash: u64,
    pub execution_count: u64,
    pub compile_attempted: bool,
    pub artifact: Option<ArtifactView>,
}

impl View for JitEntry {
    type V = EntryView;

    open spec fn view(&self) -> EntryView {
        EntryView {
            expr_hash: self.expr_hash,
            execution_count: self.execution_count,
            compile_attempted: self.compile_attempted,
            artifact: match self.compiled_function {
                Some(f) => Some(f@),
                None => None,
            },
        }
    }
}

/// The entries of a map as plain values.
pub open spec fn entries_view(m: Map<u64, JitEntry>) -> Map<u64, EntryView> {
    m.map_values(|e: JitEntry| e@)
}

/// What holds of every entry of a cache: it is filed under its own fingerprint, it was
/// submitted at least once, and it holds code only if compilation was attempted.
pub open spec fn well_kept(cache: Map<u64, EntryView>) -> bool {
    &&& cache.dom().finite()
    &&& forall|k: u64| #[trigger]
        cache.contains_key(k) ==> {
            &&& cache[k].expr_hash == k
            &&& cache[k].execution_count >= 1
            &&& cache[k].artifact is Some ==> cache[k].compile_attempted
        }
}

/// The number of entries that a cache with the limit `max_entries` holds at most: the
/// limit, but room for one entry in any case.
pub open spec fn capacity(max_entries: usize) -> nat {
    if max_entries == 0 {
        1
    } else {
        max_entries as nat
    }
}

/// Whether the entry `a` under `ka` leaves the cache no later than the entry `b` under
/// `kb`: the one with the lower count goes first, and of two with the same count the one
/// with the lower fingerprint.
pub open spec fn goes_before(a: EntryView, ka: u64, b: EntryView, kb: u64) -> bool {
    a.execution_count < b.execution_count || (a.execution_count == b.execution_count && ka
        <= kb)
}

/// Whether the entry under `k` is the one to evict: no entry of the cache goes before it.
pub open spec fn is_victim(cache: Map<u64, EntryView>, k: u64) -> bool {
    &&& cache.contains_key(k)
    &&& forall|j: u64| #[trigger] cache.contains_key(j) ==> goes_before(cache[k], k, cache[j], j)
}

/// The fingerprint of the entry to evict from a cache that is not empty.
pub open spec fn victim(cache: Map<u64, EntryView>) -> u64 {
    choose|k: u64| is_victim(cache, k)
}

/// Whether a cache with the limit `max_entries` must drop an entry before it takes a new
/// one.
pub open spec fn is_full(cache: Map<u64, EntryView>, max_entries: usize) -> bool {
    cache.len() >= max_entries && cache.len() > 0
}

/// The cache after it made room for a new entry.
pub open spec fn after_eviction(cache: Map<u64, EntryView>, max_entries: usize) -> Map<
    u64,
    EntryView,
> {
    if is_full(cache, max_entries) {
        cache.remove(victim(cache))
    } else {
        cache
    }
}

/// The count after one more submission.
pub open spec fn bump(count: u64) -> u64 {
    if count < u64::MAX {
        (count + 1) as u64
    } else {
        count
    }
}

/// The entry after one more submission: the count goes up, and compilation counts as
/// attempted from the moment the count reaches the threshold.
pub open spec fn counted(e: EntryView, threshold: u64) -> EntryView {
    EntryView {
        expr_hash: e.expr_hash,
        execution_count: bump(e.execution_count),
        compile_attempted: e.compile_attempted || bump(e.execution_count) >= threshold,
        artifact: e.artifact,
    }
}

/// The entry of an expression that is submitted for the first time.
pub open spec fn fresh(fingerprint: u64, threshold: u64) -> EntryView {
    EntryView {
        expr_hash: fingerprint,
        execution_count: 1,
        compile_attempted: 1 >= threshold,
        artifact: None,
    }
}

/// The cache after one submission of `fingerprint`.
pub open spec fn recorded(
    cache: Map<u64, EntryView>,
    fingerprint: u64,
    threshold: u64,
    max_entries: usize,
) -> Map<u64, EntryView> {
    if cache.contains_key(fingerprint) {
        cache.insert(fingerprint, counted(cache[fingerprint], threshold))
    } else {
        after_eviction(cache, max_entries).insert(fingerprint, fresh(fingerprint, threshold))
    }
}

/// Whether a submission of `fingerprint` is the one that crosses the threshold: the count
/// reaches it and compilation was not attempted before.
pub open spec fn crosses_threshold(
    cache: Map<u64, EntryView>,
    fingerprint: u64,
    threshold: u64,
) -> bool {
    if cache.contains_key(fingerprint) {
        bump(cache[fingerprint].execution_count) >= threshold
            && !cache[fingerprint].compile_attempted
    } else {
        1 >= threshold
    }
}

/// The cache after `artifact` was offered for `fingerprint`: an entry that holds no code
/// takes it; code that is installed is never replaced.
pub open spec fn installed(
    cache: Map<u64, EntryView>,
    fingerprint: u64,
    artifact: ArtifactView,
) -> Map<u64, EntryView> {
    if cache.contains_key(fingerprint) && cache[fingerprint].artifact is None {
        cache.insert(
            fingerprint,
            EntryView {
                expr_hash: cache[fingerprint].expr_hash,
                execution_count: cache[fingerprint].execution_count,
                compile_attempted: true,
                artifact: Some(artifact),
            },
        )
    } else {
        cache
    }
}

/// A cache that is not empty has exactly one entry to evict.
pub proof fn lemma_victim_is_unique(cache: Map<u64, EntryView>, k: u64)
    requires
        is_victim(cache, k),
    ensures
        victim(cache) == k,
{
    let v = victim(cache);
    assert(is_victim(cache, v));
    assert(goes_before(cache[k], k, cache[v], v));
    assert(goes_before(cache[v], v, cache[k], k));
}

/// The invariant of the stored entries.
pub open spec fn stored_well(m: Map<u64, JitEntry>, max_entries: usize) -> bool {
    &&& well_kept(entries_view(m))
    &&& m.len() <= capacity(max_entries)
}

/// The cache sees a stored map through its views: the same keys, as many entries.
pub proof fn lemma_entries_view(m: Map<u64, JitEntry>)
    ensures
        entries_view(m).dom() == m.dom(),
        entries_view(m).len() == m.len(),
        forall|k: u64| #[trigger] m.contains_key(k) ==> entries_view(m)[k] == m[k]@,
{
    assert(entries_view(m).dom() =~= m.dom());
}

/// Storing an entry stores its view.
pub proof fn lemma_entries_view_insert(m: Map<u64, JitEntry>, k: u64, e: JitEntry)
    ensures
        entries_view(m.insert(k, e)) == entries_view(m).insert(k, e@),
{
    assert(entries_view(m.insert(k, e)) =~= entries_view(m).insert(k, e@));
}

/// Dropping an entry drops its view.
pub proof fn lemma_entries_view_remove(m: Map<u64, JitEntry>, k: u64)
    ensures
        entries_view(m.remove(k)) == entries_view(m).remove(k),
{
    assert(entries_view(m.remove(k)) =~= entries_view(m).remove(k));
}

/// The fingerprint of the entry to evict, if there is any entry.
fn find_victim(entries: &HashMap<u64, JitEntry>) -> (found: Option<u64>)
    ensures
        match found {
            Some(k) => is_victim(entries_view(entries@), k),
            None => entries@.len() == 0,
        },
{
    proof {
        lemma_entries_view(entries@);
    }
    let mut best: Option<(u64, u64)> = None;
    for k in it: entries.keys()
        invariant
            forall|j: u64| #[trigger]
                entries@.contains_key(j) ==> entries_view(entries@)[j] == entries@[j]@,
            entries_view(entries@).dom() == entries@.dom(),
            match best {
                Some((bk, bc)) => {
                    &&& entries@.contains_key(bk)
                    &&& entries@[bk].execution_count == bc
                    &&& forall|j: int|
                        0 <= j < it.index() ==> goes_before(
                            entries@[bk]@,
                            bk,
                            entries@[*it.seq()[j]]@,
                            *it.seq()[j],
                        )
                },
                None => it.index() == 0,
            },
    {
        let count = entries.get(k).unwrap().execution_count;
        match best {
            Some((bk, bc)) => {
                if count < bc || (count == bc && *k < bk) {
                    best = Some((*k, count));
                }
            },
            None => {
                best = Some((*k, count));
            },
        }
    }
    match best {
        Some((bk, bc)) => Some(bk),
        None => None,
    }
}

/// Makes room for a new entry: where the limit is reached, the entry that was submitted
/// least often leaves, and of several such the one with the lowest fingerprint.
fn evict_in(entries: &mut HashMap<u64, JitEntry>, max_entries: usize) -> (evicted: Option<u64>)
    requires
        stored_well(old(entries)@, max_entries),
    ensures
        well_kept(entries_view(final(entries)@)),
        entries_view(final(entries)@) == after_eviction(entries_view(old(entries)@), max_entries),
        evicted == if is_full(entries_view(old(entries)@), max_entries) {
            Some(victim(entries_view(old(entries)@)))
        } else {
            None
        },
        final(entries)@.len() < capacity(max_entries),
{
    proof {
        lemma_entries_view(entries@);
    }
    if entries.len() >= max_entries {
        match find_victim(entries) {
            Some(k) => {
                proof {
                    lemma_victim_is_unique(entries_view(entries@), k);
                    lemma_entries_view_remove(entries@, k);
                }
                entries.remove(&k);
                proof {
                    lemma_entries_view(entries@);
                }
                Some(k)
            },
            None => None,
        }
    } else {
        None
    }
}

/// Counts one submission of `fingerprint`. Returns the count, and whether this submission
/// crosses the threshold.
fn record_in(
    entries: &mut HashMap<u64, JitEntry>,
    fingerprint: u64,
    threshold: u64,
    max_entries: usize,
) -> (r: (u64, bool))
    requires
        stored_well(old(entries)@, max_entries),
    ensures
        stored_well(final(entries)@, max_entries),
        entries_view(final(entries)@) == recorded(
            entries_view(old(entries)@),
            fingerprint,
            threshold,
            max_entries,
        ),
        entries_view(final(entries)@).contains_key(fingerprint),
        r.0 == entries_view(final(entries)@)[fingerprint].execution_count,
        r.1 == crosses_threshold(entries_view(old(entries)@), fingerprint, threshold),
{
    proof {
        lemma_entries_view(entries@);
    }
    let ghost before = entries@;
    match entries.remove(&fingerprint) {
        Some(entry) => {
            let mut entry = entry;
            if entry.execution_count < u64::MAX {
                entry.execution_count = entry.execution_count + 1;
            }
            let count = entry.execution_count;
            let promote = count >= threshold && !entry.compile_attempted;
            if promote {
                entry.compile_attempted = true;
            }
            proof {
                lemma_entries_view_insert(before.remove(fingerprint), fingerprint, entry);
                lemma_entries_view_remove(before, fingerprint);
                assert(before.remove(fingerprint).insert(fingerprint, entry) =~= before.insert(
                    fingerprint,
                    entry,
                ));
                lemma_entries_view_insert(before, fingerprint, entry);
                assert(entry@ == counted(before[fingerprint]@, threshold));
                assert(before.insert(fingerprint, entry).dom() =~= before.dom());
            }
            entries.insert(fingerprint, entry);
            proof {
                lemma_entries_view(entries@);
            }
            (count, promote)
        },
        None => {
            assert(entries@ =~= before);
            evict_in(entries, max_entries);
            let promote = 1 >= threshold;
            let entry = JitEntry {
                expr_hash: fingerprint,
                execution_count: 1,
                compiled_function: None,
                compile_attempted: promote,
            };
            proof {
                lemma_entries_view_insert(entries@, fingerprint, entry);
                lemma_entries_view(entries@);
            }
            entries.insert(fingerprint, entry);
            proof {
                lemma_entries_view(entries@);
            }
            (1, promote)
        },
    }
}

/// Offers `artifact` to the entry of `fingerprint`. Returns whether the entry took it.
fn install_in(
    entries: &mut HashMap<u64, JitEntry>,
    fingerprint: u64,
    artifact: CompiledFunction,
    max_entries: usize,
) -> (taken: bool)
    requires
        stored_well(old(entries)@, max_entries),
    ensures
        stored_well(final(entries)@, max_entries),
        entries_view(final(entries)@) == installed(
            entries_view(old(entries)@),
            fingerprint,
            artifact@,
        ),
        taken == (entries_view(old(entries)@).contains_key(fingerprint) && entries_view(
            old(entries)@,
        )[fingerprint].artifact is None),
{
    proof {
        lemma_entries_view(entries@);
    }
    let ghost before = entries@;
    match entries.remove(&fingerprint) {
        Some(entry) => {
            let mut entry = entry;
            let taken = entry.compiled_function.is_none();
            if taken {
                entry.compiled_function = Some(artifact);
                entry.compile_attempted = true;
            }
            proof {
                assert(before.remove(fingerprint).insert(fingerprint, entry) =~= before.insert(
                    fingerprint,
                    entry,
                ));
                lemma_entries_view_insert(before, fingerprint, entry);
                assert(before.insert(fingerprint, entry).dom() =~= before.dom());
                if !taken {
                    assert(entry == before[fingerprint]);
                    assert(before.insert(fingerprint, entry) =~= before);
                }
            }
            entries.insert(fingerprint, entry);
            proof {
                lemma_entries_view(entries@);
            }
            taken
        },
        None => {
            assert(entries@ =~= before);
            false
        },
    }
}

/// The hotspot cache.
pub struct HotspotCache {
    entries: HashMap<u64, JitEntry>,
    max_entries: usize,
    hot_threshold: u64,
}

impl View for HotspotCache {
    type V = Map<u64, EntryView>;

    /// The entries by fingerprint.
    closed spec fn view(&self) -> Map<u64, EntryView> {
        entries_view(self.entries@)
    }
}

impl HotspotCache {
    #[verifier::type_invariant]
    spec fn well_formed(&self) -> bool {
        stored_well(self.entries@, self.max_entries)
    }

    /// The limit on the number of entries.
    pub closed spec fn max_entries(&self) -> usize {
        self.max_entries
    }

    /// The count at which an expression is promoted.
    pub closed spec fn hot_threshold(&self) -> u64 {
        self.hot_threshold
    }

    /// What holds of every cache: its entries are well kept, and they are no more than
    /// its capacity.
    pub open spec fn is_kept(&self) -> bool {
        well_kept(self@) && self@.len() <= capacity(self.max_entries())
    }

    /// An empty cache that promotes an expression at its `hot_threshold`-th submission and
    /// holds `max_entries` entries at most.
    pub fn new(hot_threshold: u64, max_entries: usize) -> (cache: HotspotCache)
        ensures
            cache@ == Map::<u64, EntryView>::empty(),
            cache.hot_threshold() == hot_threshold,
            cache.max_entries() == max_entries,
            cache.is_kept(),
    {
        let entries: HashMap<u64, JitEntry> = HashMap::new();
        proof {
            lemma_entries_view(entries@);
            assert(entries_view(entries@) =~= Map::<u64, EntryView>::empty());
        }
        HotspotCache { entries, max_entries, hot_threshold }
    }

    /// The number of entries. It never exceeds the capacity.
    pub fn len(&self) -> (n: usize)
        ensures
            n == self@.len(),
            n <= capacity(self.max_entries()),
            well_kept(self@),
            self.is_kept(),
    {
        proof {
            use_type_invariant(self);
            lemma_entries_view(self.entries@);
        }
        self.entries.len()
    }

    /// The entry of `fingerprint`, if the cache holds one.
    pub fn lookup(&self, fingerprint: u64) -> (entry: Option<&JitEntry>)
        ensures
            match entry {
                Some(e) => self@.contains_key(fingerprint) && e@ == self@[fingerprint],
                None => !self@.contains_key(fingerprint),
            },
    {
        proof {
            lemma_entries_view(self.entries@);
        }
        self.entries.get(&fingerprint)
    }

    /// Makes room for a new entry where the limit is reached: the entry that was submitted
    /// least often leaves, and of several such the one with the lowest fingerprint.
    /// Returns the fingerprint of the entry that left.
    pub fn evict_if_full(&mut self) -> (evicted: Option<u64>)
        ensures
            final(self)@ == after_eviction(old(self)@, old(self).max_entries()),
            evicted == if is_full(old(self)@, old(self).max_entries()) {
                Some(victim(old(self)@))
            } else {
                None
            },
            final(self).max_entries() == old(self).max_entries(),
            final(self).hot_threshold() == old(self).hot_threshold(),
            final(self).is_kept(),
    {
        proof {
            use_type_invariant(&*self);
        }
        let mut entries: HashMap<u64, JitEntry> = HashMap::new();
        proof {
            lemma_entries_view(entries@);
        }
        core::mem::swap(&mut self.entries, &mut entries);
        let evicted = evict_in(&mut entries, self.max_entries);
        core::mem::swap(&mut self.entries, &mut entries);
        proof {
            lemma_entries_view(self.entries@);
        }
        evicted
    }

    /// Counts one submission of `fingerprint`, for an expression that is `compilable` or
    /// not. A fingerprint that the cache does not hold gets an entry, for which the cache
    /// makes room first. Returns the count, and whether to attempt compilation now: that
    /// is so exactly when this submission is the one that crosses the threshold and the
    /// expression is compilable.
    pub fn record(&mut self, fingerprint: u64, compilable: bool) -> (r: (u64, bool))
        ensures
            final(self)@ == recorded(
                old(self)@,
                fingerprint,
                old(self).hot_threshold(),
                old(self).max_entries(),
            ),
            final(self)@.contains_key(fingerprint),
            r.0 == final(self)@[fingerprint].execution_count,
            r.1 == (compilable && crosses_threshold(
                old(self)@,
                fingerprint,
                old(self).hot_threshold(),
            )),
            final(self).max_entries() == old(self).max_entries(),
            final(self).hot_threshold() == old(self).hot_threshold(),
            final(self).is_kept(),
    {
        proof {
            use_type_invariant(&*self);
        }
        let mut entries: HashMap<u64, JitEntry> = HashMap::new();
        proof {
            lemma_entries_view(entries@);
        }
        core::mem::swap(&mut self.entries, &mut entries);
        let (count, crossed) = record_in(
            &mut entries,
            fingerprint,
            self.hot_threshold,
            self.max_entries,
        );
        core::mem::swap(&mut self.entries, &mut entries);
        proof {
            lemma_entries_view(self.entries@);
        }
        (count, compilable && crossed)
    }

    /// Offers `artifact` to the entry of `fingerprint`. An entry that holds no code takes
    /// it; code that is installed is never replaced. Returns whether the entry took it.
    pub fn install_artifact(&mut self, fingerprint: u64, artifact: CompiledFunction) -> (taken:
        bool)
        ensures
            final(self)@ == installed(old(self)@, fingerprint, artifact@),
            taken == (old(self)@.contains_key(fingerprint) && old(
                self,
            )@[fingerprint].artifact is None),
            final(self).max_entries() == old(self).max_entries(),
            final(self).hot_threshold() == old(self).hot_threshold(),
            final(self).is_kept(),
    {
        proof {
            use_type_invariant(&*self);
        }
        let mut entries: HashMap<u64, JitEntry> = HashMap::new();
        proof {
            lemma_entries_view(entries@);
        }
        core::mem::swap(&mut self.entries, &mut entries);
        let taken = install_in(&mut entries, fingerprint, artifact, self.max_entries);
        core::mem::swap(&mut self.entries, &mut entries);
        proof {
            lemma_entries_view(self.entries@);
        }
        taken
    }

    /// For each entry its fingerprint, its count and whether it is compiled, each entry
    /// once, in no particular order.
    pub fn info(&self) -> (list: Vec<(u64, u64, bool)>)
        ensures
            list@.len() == self@.len(),
            forall|i: int|
                0 <= i < list@.len() ==> {
                    &&& self@.contains_key(#[trigger] list@[i].0)
                    &&& list@[i].1 == self@[list@[i].0].execution_count
                    &&& list@[i].2 == (self@[list@[i].0].artifact is Some)
                },
            forall|i: int, j: int|
                0 <= i < j < list@.len() ==> #[trigger] list@[i].0 != #[trigger] list@[j].0,
    {
        proof {
            lemma_entries_view(self.entries@);
        }
        let mut list: Vec<(u64, u64, bool)> = Vec::new();
        for k in it: self.entries.keys()
            invariant
                forall|j: u64| #[trigger]
                    self.entries@.contains_key(j) ==> entries_view(self.entries@)[j]
                        == self.entries@[j]@,
                entries_view(self.entries@).dom() == self.entries@.dom(),
                list@.len() == it.index(),
                forall|i: int, j: int|
                    0 <= i < j < it.seq().len() ==> *#[trigger] it.seq()[i] != *#[trigger] it.seq()[j],
                forall|i: int|
                    0 <= i < list@.len() ==> {
                        &&& #[trigger] list@[i].0 == *it.seq()[i]
                        &&& self.entries@.contains_key(list@[i].0)
                        &&& list@[i].1 == self.entries@[list@[i].0].execution_count
                        &&& list@[i].2 == (self.entries@[list@[i].0].compiled_function is Some)
                    },
        {
            let entry = self.entries.get(k).unwrap();
            list.push((*k, entry.execution_count, entry.compiled_function.is_some()));
        }
        list
    }

    /// Drops all entries.
    pub fn clear(&mut self)
        ensures
            final(self)@ == Map::<u64, EntryView>::empty(),
            final(self).max_entries() == old(self).max_entries(),
            final(self).hot_threshold() == old(self).hot_threshold(),
            final(self).is_kept(),
    {
        let entries: HashMap<u64, JitEntry> = HashMap::new();
        proof {
            lemma_entries_view(entries@);
            assert(entries_view(entries@) =~= Map::<u64, EntryView>::empty());
        }
        self.entries = entries;
    }
}

} // verus!
