//! What holds of the cache and the dispatcher over any sequence of submissions.

use crate::ast::{ExecutionResult, Expr};
use crate::cache::{
    bump, capacity, fresh, goes_before, is_full, is_victim, lemma_victim_is_unique, recorded,
    victim, well_kept, EntryView,
};
use crate::fingerprint::fingerprint;
use crate::interpreter::EvalError;
use crate::jit::{attempts_compilation, executed, is_compilable, submitted, JitCompiler};
use vstd::prelude::*;

verus! {

/// A cache that is not empty has an entry to evict: none of the others goes before it.
pub proof fn lemma_victim_exists(cache: Map<u64, EntryView>)
    requires
        cache.dom().finite(),
        cache.len() > 0,
    ensures
        is_victim(cache, victim(cache)),
    decreases cache.len(),
{
    let x = cache.dom().choose();
    assert(cache.contains_key(x));
    let rest = cache.remove(x);
    if rest.len() == 0 {
        assert forall|j: u64| #[trigger] cache.contains_key(j) implies goes_before(
            cache[x],
            x,
            cache[j],
            j,
        ) by {
            if j != x {
                assert(rest.contains_key(j));
                assert(rest.dom().len() > 0);
            }
        }
        assert(is_victim(cache, x));
    } else {
        lemma_victim_exists(rest);
        let v = victim(rest);
        assert(rest.contains_key(v));
        if goes_before(cache[x], x, cache[v], v) {
            assert forall|j: u64| #[trigger] cache.contains_key(j) implies goes_before(
                cache[x],
                x,
                cache[j],
                j,
            ) by {
                if j != x {
                    assert(rest.contains_key(j));
                    assert(goes_before(rest[v], v, rest[j], j));
                }
            }
            assert(is_victim(cache, x));
        } else {
            assert forall|j: u64| #[trigger] cache.contains_key(j) implies goes_before(
                cache[v],
                v,
                cache[j],
                j,
            ) by {
                if j != x {
                    assert(rest.contains_key(j));
                    assert(goes_before(rest[v], v, rest[j], j));
                }
            }
            assert(is_victim(cache, v));
        }
    }
}

/// Cache bound: a submission never leaves more entries than the capacity. Where a new
/// fingerprint meets a full cache, exactly one entry leaves and the new one takes its
/// place, so that the number of entries stays the same; the entry that leaves is one that
/// was submitted least often.
pub proof fn lemma_cache_bound(
    cache: Map<u64, EntryView>,
    fp: u64,
    threshold: u64,
    max_entries: usize,
)
    requires
        well_kept(cache),
        cache.len() <= capacity(max_entries),
    ensures
        well_kept(recorded(cache, fp, threshold, max_entries)),
        recorded(cache, fp, threshold, max_entries).len() <= capacity(max_entries),
        recorded(cache, fp, threshold, max_entries).contains_key(fp),
        cache.contains_key(fp) ==> recorded(cache, fp, threshold, max_entries).dom()
            == cache.dom(),
        !cache.contains_key(fp) && !is_full(cache, max_entries) ==> recorded(
            cache,
            fp,
            threshold,
            max_entries,
        ) == cache.insert(fp, fresh(fp, threshold)) && recorded(
            cache,
            fp,
            threshold,
            max_entries,
        ).len() == cache.len() + 1,
        !cache.contains_key(fp) && is_full(cache, max_entries) ==> {
            let v = victim(cache);
            &&& cache.contains_key(v)
            &&& forall|k: u64| #[trigger]
                cache.contains_key(k) ==> cache[v].execution_count <= cache[k].execution_count
            &&& recorded(cache, fp, threshold, max_entries) == cache.remove(v).insert(
                fp,
                fresh(fp, threshold),
            )
            &&& !recorded(cache, fp, threshold, max_entries).contains_key(v)
            &&& recorded(cache, fp, threshold, max_entries).len() == cache.len()
        },
{
    let after = recorded(cache, fp, threshold, max_entries);
    if cache.contains_key(fp) {
        assert(after.dom() =~= cache.dom());
    } else if is_full(cache, max_entries) {
        lemma_victim_exists(cache);
        let v = victim(cache);
        assert(forall|k: u64| #[trigger]
            cache.contains_key(k) ==> goes_before(cache[v], v, cache[k], k));
    } else {
    }
}

/// The cache after the fingerprints `fps` were submitted in order, starting from `cache`.
pub open spec fn recorded_all(
    cache: Map<u64, EntryView>,
    fps: Seq<u64>,
    threshold: u64,
    max_entries: usize,
) -> Map<u64, EntryView>
    decreases fps.len(),
{
    if fps.len() == 0 {
        cache
    } else {
        recorded(
            recorded_all(cache, fps.drop_last(), threshold, max_entries),
            fps.last(),
            threshold,
            max_entries,
        )
    }
}

/// Cache bound, over a run of submissions: after distinct fingerprints were submitted to
/// an empty cache, the cache holds as many entries as there were fingerprints, up to its
/// capacity and no more. So a cache for `N` entries holds exactly `N` after `N + 1`
/// distinct fingerprints.
pub proof fn lemma_cache_holds_capacity(fps: Seq<u64>, threshold: u64, max_entries: usize)
    requires
        fps.no_duplicates(),
    ensures
        well_kept(recorded_all(Map::empty(), fps, threshold, max_entries)),
        recorded_all(Map::empty(), fps, threshold, max_entries).len() == if fps.len()
            <= capacity(max_entries) {
            fps.len()
        } else {
            capacity(max_entries)
        },
        forall|k: u64| #[trigger]
            recorded_all(Map::empty(), fps, threshold, max_entries).contains_key(k)
                ==> fps.contains(k),
    decreases fps.len(),
{
    let empty = Map::<u64, EntryView>::empty();
    if fps.len() == 0 {
        assert(empty.dom() =~= Set::<u64>::empty());
    } else {
        let front = fps.drop_last();
        let before = recorded_all(empty, front, threshold, max_entries);
        lemma_cache_holds_capacity(front, threshold, max_entries);
        lemma_cache_bound(before, fps.last(), threshold, max_entries);
        if before.contains_key(fps.last()) {
            assert(front.contains(fps.last()));
            let i = choose|i: int| 0 <= i < front.len() && front[i] == fps.last();
            assert(fps[i] == fps[fps.len() - 1]);
        }
        let after = recorded(before, fps.last(), threshold, max_entries);
        assert forall|k: u64| #[trigger] after.contains_key(k) implies fps.contains(k) by {
            if k == fps.last() {
                assert(fps[fps.len() - 1] == k);
            } else {
                assert(before.contains_key(k));
                let i = choose|i: int| 0 <= i < front.len() && front[i] == k;
                assert(fps[i] == k);
            }
        }
    }
}

/// Monotonic promotion: once compilation was attempted for an entry, no later submission
/// attempts it again, and what the attempt left, code or none, stays as it is. The
/// entries of other expressions stay as they are as well, unless one is evicted.
pub proof fn lemma_promotion_is_final(
    cache: Map<u64, EntryView>,
    e: Expr,
    threshold: u64,
    max_entries: usize,
)
    requires
        well_kept(cache),
    ensures
        ({
            let fp = fingerprint(e);
            let after = submitted(cache, e, threshold, max_entries);
            &&& after.contains_key(fp)
            &&& cache.contains_key(fp) && cache[fp].compile_attempted ==> {
                &&& !attempts_compilation(cache, e, threshold)
                &&& after[fp].compile_attempted
                &&& after[fp].artifact == cache[fp].artifact
                &&& after[fp].execution_count == bump(cache[fp].execution_count)
                &&& after.dom() == cache.dom()
            }
            &&& attempts_compilation(cache, e, threshold) ==> after[fp].compile_attempted
            &&& forall|k: u64|
                k != fp && #[trigger] after.contains_key(k) ==> cache.contains_key(k)
                    && after[k] == cache[k]
        }),
{
}

/// Monotonic promotion, at the dispatcher: an execution of an expression whose entry is
/// compiled does not call the code generator. The counters of compilations stay as they
/// are, the entry keeps its code, and its count goes up by one, unless it is the largest
/// that a count can be.
pub proof fn lemma_compiled_entry_stays(
    before: JitCompiler,
    after: JitCompiler,
    report: Result<ExecutionResult, EvalError>,
    e: Expr,
)
    requires
        before.is_kept(),
        executed(before, after, report, e),
        before.cache().contains_key(fingerprint(e)),
        before.cache()[fingerprint(e)].artifact is Some,
    ensures
        after.statistics().jit_compilations == before.statistics().jit_compilations,
        after.statistics().total_compilation_time_ns
            == before.statistics().total_compilation_time_ns,
        after.cache()[fingerprint(e)].artifact == before.cache()[fingerprint(e)].artifact,
        after.cache()[fingerprint(e)].execution_count == bump(
            before.cache()[fingerprint(e)].execution_count,
        ),
        after.cache().dom() == before.cache().dom(),
        report is Ok ==> report.unwrap().was_jit_compiled,
{
    lemma_promotion_is_final(
        before.cache(),
        e,
        before.hot_threshold(),
        before.max_cache_size(),
    );
}

/// Cache bound, at the dispatcher: a submission leaves a cache that is well kept and
/// within its capacity. It holds the entries that counting the submission leaves; code
/// is installed in the entry of the expression only. Where the expression is new to a
/// full cache, the number of entries stays the same: the entry that was submitted least
/// often is gone, the new one counts one submission, and all others are as they were.
pub proof fn lemma_submission_keeps_bound(
    cache: Map<u64, EntryView>,
    e: Expr,
    threshold: u64,
    max_entries: usize,
)
    requires
        well_kept(cache),
        cache.len() <= capacity(max_entries),
    ensures
        ({
            let fp = fingerprint(e);
            let after = submitted(cache, e, threshold, max_entries);
            &&& well_kept(after)
            &&& after.len() <= capacity(max_entries)
            &&& after.dom() == recorded(cache, fp, threshold, max_entries).dom()
            &&& !cache.contains_key(fp) ==> after[fp].execution_count == 1
            &&& !cache.contains_key(fp) && threshold > 1 ==> after[fp].artifact is None
            &&& !cache.contains_key(fp) && is_full(cache, max_entries) ==> {
                &&& after.len() == cache.len()
                &&& cache.contains_key(victim(cache))
                &&& !after.contains_key(victim(cache))
                &&& forall|k: u64| #[trigger]
                    cache.contains_key(k) ==> cache[victim(cache)].execution_count
                        <= cache[k].execution_count
                &&& forall|k: u64|
                    k != victim(cache) && #[trigger] cache.contains_key(k) ==> after.contains_key(
                        k,
                    ) && after[k] == cache[k]
            }
        }),
{
    let fp = fingerprint(e);
    lemma_cache_bound(cache, fp, threshold, max_entries);
    let counted = recorded(cache, fp, threshold, max_entries);
    let after = submitted(cache, e, threshold, max_entries);
    assert(after.dom() =~= counted.dom());
}

/// Cache bound, for a cache of two entries that meets a third expression: the colder of
/// the two entries leaves, and of two that ran equally often the one with the lower
/// fingerprint; the other stays as it is, and the newcomer counts one submission.
pub proof fn lemma_third_expression_evicts_the_colder(
    cache: Map<u64, EntryView>,
    first: u64,
    second: u64,
    third: u64,
    threshold: u64,
)
    requires
        well_kept(cache),
        cache.dom() == set![first, second],
        first != second,
        third != first,
        third != second,
    ensures
        ({
            let after = recorded(cache, third, threshold, 2);
            let (leaves, stays) = if goes_before(cache[first], first, cache[second], second) {
                (first, second)
            } else {
                (second, first)
            };
            &&& after.dom() == set![stays, third]
            &&& after.len() == 2
            &&& after[stays] == cache[stays]
            &&& after[third] == fresh(third, threshold)
            &&& cache[leaves].execution_count <= cache[stays].execution_count
        }),
{
    assert(cache.contains_key(first) && cache.contains_key(second));
    assert(cache.dom().len() == 2) by {
        assert(set![first, second] =~= set![first].insert(second));
    }
    let leaves = if goes_before(cache[first], first, cache[second], second) {
        first
    } else {
        second
    };
    let stays = if leaves == first {
        second
    } else {
        first
    };
    assert(is_victim(cache, leaves)) by {
        assert forall|j: u64| #[trigger] cache.contains_key(j) implies goes_before(
            cache[leaves],
            leaves,
            cache[j],
            j,
        ) by {
            assert(j == first || j == second);
        }
    }
    lemma_victim_is_unique(cache, leaves);
    let after = recorded(cache, third, threshold, 2);
    assert(after.dom() =~= set![stays, third]);
    assert(set![stays, third] =~= set![stays].insert(third));
}

/// The cache after `n` submissions of `e` in a row, starting from `cache`.
pub open spec fn resubmitted(
    cache: Map<u64, EntryView>,
    e: Expr,
    threshold: u64,
    max_entries: usize,
    n: nat,
) -> Map<u64, EntryView>
    decreases n,
{
    if n == 0 {
        cache
    } else {
        submitted(
            resubmitted(cache, e, threshold, max_entries, (n - 1) as nat),
            e,
            threshold,
            max_entries,
        )
    }
}

/// The count of an expression that was submitted `n` times.
pub open spec fn count_after(n: nat) -> u64 {
    if n <= u64::MAX {
        n as u64
    } else {
        u64::MAX
    }
}

/// What the entry of an expression looks like after it was submitted `n` times in a row,
/// the first time as a newcomer: it counts `n` submissions, and compilation counts as
/// attempted exactly from the submission that reached the threshold.
pub proof fn lemma_entry_after_submissions(
    cache: Map<u64, EntryView>,
    e: Expr,
    threshold: u64,
    max_entries: usize,
    n: nat,
)
    requires
        well_kept(cache),
        cache.len() <= capacity(max_entries),
        !cache.contains_key(fingerprint(e)),
        n >= 1,
    ensures
        ({
            let after = resubmitted(cache, e, threshold, max_entries, n);
            &&& well_kept(after)
            &&& after.len() <= capacity(max_entries)
            &&& after.contains_key(fingerprint(e))
            &&& after[fingerprint(e)].execution_count == count_after(n)
            &&& after[fingerprint(e)].compile_attempted == (n >= threshold)
        }),
    decreases n,
{
    let fp = fingerprint(e);
    if n == 1 {
        assert(resubmitted(cache, e, threshold, max_entries, 0) == cache);
        lemma_cache_bound(cache, fp, threshold, max_entries);
    } else {
        lemma_entry_after_submissions(cache, e, threshold, max_entries, (n - 1) as nat);
        let before = resubmitted(cache, e, threshold, max_entries, (n - 1) as nat);
        lemma_cache_bound(before, fp, threshold, max_entries);
    }
}

/// Threshold exactness: of the submissions of an expression that is new to the cache,
/// the one that makes the dispatcher call the code generator is the one whose count
/// reaches the threshold, if the expression may be compiled, and no other. With a
/// threshold of five the first four submissions never trigger compilation and the fifth
/// does.
pub proof fn lemma_threshold_is_exact(
    cache: Map<u64, EntryView>,
    e: Expr,
    threshold: u64,
    max_entries: usize,
    i: nat,
)
    requires
        well_kept(cache),
        cache.len() <= capacity(max_entries),
        !cache.contains_key(fingerprint(e)),
        i >= 1,
    ensures
        attempts_compilation(
            resubmitted(cache, e, threshold, max_entries, (i - 1) as nat),
            e,
            threshold,
        ) == (is_compilable(e) && (i == threshold || (i == 1 && threshold == 0))),
{
    if i == 1 {
        assert(resubmitted(cache, e, threshold, max_entries, 0) == cache);
    } else {
        lemma_entry_after_submissions(cache, e, threshold, max_entries, (i - 1) as nat);
    }
}

/// Equivalence: the value of an expression and the bindings it leaves do not depend on
/// whether its cache entry is compiled. Two executions of the same expression under the
/// same bindings report the same value, or fail for the same reason, whatever the caches
/// of the two dispatchers hold.
pub proof fn lemma_paths_agree(
    before_a: JitCompiler,
    after_a: JitCompiler,
    report_a: Result<ExecutionResult, EvalError>,
    before_b: JitCompiler,
    after_b: JitCompiler,
    report_b: Result<ExecutionResult, EvalError>,
    e: Expr,
)
    requires
        executed(before_a, after_a, report_a, e),
        executed(before_b, after_b, report_b, e),
        before_a.bindings() == before_b.bindings(),
    ensures
        after_a.bindings() == after_b.bindings(),
        match (report_a, report_b) {
            (Ok(a), Ok(b)) => a.value == b.value && a.environment@ == b.environment@,
            (Err(a), Err(b)) => a == b,
            _ => false,
        },
{
}

} // verus!
