//! How a follower folds the entries of an `AppendEntries` request into its log.

use vstd::prelude::*;

use crate::log::{Log, LogEntry, Term};

verus! {

/// The term of the last entry of `log`, or 0 for an empty log.
pub open spec fn last_term(log: Seq<LogEntry>) -> Term {
    if log.len() == 0 {
        0
    } else {
        log.last().term
    }
}

/// The `k`-th new entry is already in `log` at position `start + k`, with the same term.
pub open spec fn agrees(log: Seq<LogEntry>, start: int, entries: Seq<LogEntry>, k: int) -> bool {
    &&& start + k < log.len()
    &&& log[start + k].term == entries[k].term
}

/// The least `j >= k` at which the new entries stop agreeing with `log`
/// (or the number of new entries, where all of them from `k` on agree).
pub open spec fn agreeing_from(log: Seq<LogEntry>, start: int, entries: Seq<LogEntry>, k: nat) -> nat
    decreases entries.len() - k,
{
    if k < entries.len() && agrees(log, start, entries, k as int) {
        agreeing_from(log, start, entries, k + 1)
    } else {
        k
    }
}

/// How many leading new entries already stand in `log`.
pub open spec fn agreeing_prefix(log: Seq<LogEntry>, start: int, entries: Seq<LogEntry>) -> nat {
    agreeing_from(log, start, entries, 0)
}

/// The log after `entries` are placed from position `start` on: entries that
/// already stand there (same term) are kept; from the first one that does not,
/// the old log is cut off and the rest of the new entries follow.
pub open spec fn merge_entries(log: Seq<LogEntry>, start: int, entries: Seq<LogEntry>) -> Seq<LogEntry> {
    let m = agreeing_prefix(log, start, entries);
    if m == entries.len() {
        log
    } else {
        log.take(start + m) + entries.skip(m as int)
    }
}

/// `agreeing_from` stops at the first disagreement.
pub proof fn lemma_agreeing_from(log: Seq<LogEntry>, start: int, entries: Seq<LogEntry>, k: nat)
    requires
        k <= entries.len(),
    ensures
        k <= agreeing_from(log, start, entries, k) <= entries.len(),
        forall|j: int|
            k <= j < agreeing_from(log, start, entries, k) ==> #[trigger] agrees(log, start, entries, j),
        agreeing_from(log, start, entries, k) < entries.len() ==> !agrees(
            log,
            start,
            entries,
            agreeing_from(log, start, entries, k) as int,
        ),
    decreases entries.len() - k,
{
    if k < entries.len() && agrees(log, start, entries, k as int) {
        lemma_agreeing_from(log, start, entries, k + 1);
    }
}

/// The leading agreeing entries all stand in the log, and the next one does not.
pub proof fn lemma_agreeing_prefix(log: Seq<LogEntry>, start: int, entries: Seq<LogEntry>)
    ensures
        agreeing_prefix(log, start, entries) <= entries.len(),
        forall|j: int| 0 <= j < agreeing_prefix(log, start, entries) ==> #[trigger] agrees(log, start, entries, j),
        agreeing_prefix(log, start, entries) < entries.len() ==> !agrees(
            log,
            start,
            entries,
            agreeing_prefix(log, start, entries) as int,
        ),
{
    lemma_agreeing_from(log, start, entries, 0);
}

/// After a merge, the log keeps everything before `start`, and each new entry
/// stands at its position with its term.
pub proof fn lemma_merge_places_entries(log: Seq<LogEntry>, start: int, entries: Seq<LogEntry>)
    requires
        0 <= start <= log.len(),
    ensures
        merge_entries(log, start, entries).len() >= start + entries.len(),
        merge_entries(log, start, entries).take(start) == log.take(start),
        forall|j: int| 0 <= j < entries.len() ==> #[trigger] agrees(merge_entries(log, start, entries), start, entries, j),
        forall|j: int|
            agreeing_prefix(log, start, entries) <= j < entries.len()
                ==> merge_entries(log, start, entries)[start + j] == #[trigger] entries[j],
{
    lemma_agreeing_prefix(log, start, entries);
    let m = agreeing_prefix(log, start, entries);
    let r = merge_entries(log, start, entries);
    if m == entries.len() {
        if m > 0 {
            assert(agrees(log, start, entries, m - 1));
        }
        assert forall|j: int| 0 <= j < entries.len() implies #[trigger] agrees(r, start, entries, j) by {
            assert(agrees(log, start, entries, j));
        }
    } else {
        if m > 0 {
            assert(agrees(log, start, entries, m - 1));
        }
        assert(r.take(start) =~= log.take(start));
        assert forall|j: int| 0 <= j < entries.len() implies #[trigger] agrees(r, start, entries, j) by {
            if j < m {
                assert(agrees(log, start, entries, j));
            }
        }
    }
}

/// Places `entries` into `log` from position `start` on.
pub fn merge_into(log: &mut Log, start: usize, entries: &Vec<LogEntry>)
    requires
        start <= old(log).entries@.len(),
    ensures
        final(log).entries@ == merge_entries(old(log).entries@, start as int, entries@),
        final(log).path == old(log).path,
{
    let ghost old_log = log.entries@;
    let ghost m = agreeing_prefix(old_log, start as int, entries@);
    proof {
        lemma_agreeing_prefix(old_log, start as int, entries@);
    }
    let n = entries.len();
    let mut k: usize = 0;
    while k < n
        invariant
            n == entries@.len(),
            k <= n,
            start <= old_log.len(),
            m <= n,
            forall|j: int| 0 <= j < m ==> #[trigger] agrees(old_log, start as int, entries@, j),
            m < n ==> !agrees(old_log, start as int, entries@, m as int),
            k <= m ==> log.entries@ == old_log,
            k > m ==> log.entries@ == old_log.take(start + m) + entries@.subrange(m as int, k as int),
            start + k <= log.entries@.len(),
            k > m ==> log.entries@.len() == start + k,
            log.path == old(log).path,
        decreases n - k,
    {
        let cur_len = log.entries.len();
        let index = start + k;
        proof {
            if k > 0 && k <= m {
                assert(agrees(old_log, start as int, entries@, k - 1));
            }
        }
        if index < log.entries.len() {
            if log.entries[index].term != entries[k].term {
                assert(k == m) by {
                    if k < m {
                        assert(agrees(old_log, start as int, entries@, k as int));
                    }
                }
                log.truncate(index as u128);
                log.append(entries[k].clone());
                assert(log.entries@ =~= old_log.take(start + m) + entries@.subrange(m as int, k + 1));
            } else {
                assert(k < m) by {
                    if k >= m {
                        assert(!agrees(old_log, start as int, entries@, m as int));
                    }
                }
            }
        } else {
            assert(k >= m) by {
                if k < m {
                    assert(agrees(old_log, start as int, entries@, k as int));
                }
            }
            let ghost before = log.entries@;
            log.append(entries[k].clone());
            proof {
                if k == m {
                    assert(old_log.take(start + m) =~= old_log);
                }
            }
            assert(log.entries@ =~= old_log.take(start + m) + entries@.subrange(m as int, k + 1));
        }
        k = k + 1;
    }
    proof {
        if m < n {
            assert(entries@.subrange(m as int, n as int) =~= entries@.skip(m as int));
        }
    }
}

} // verus!
