//! Per-account balance history: one entry per ledger on which the balance
//! changed, and the read of the balance in effect at a past ledger.
use vstd::prelude::*;

verus! {

/// A balance recorded at the ledger on which it changed.
///
/// A proposal records the ledger it was created at, and voting power is read
/// from the balance as of that ledger rather than the live balance.
#[derive(Clone, Copy, Debug, PartialEq, Eq, Structural)]
pub struct Checkpoint {
    pub ledger: u32,
    pub balance: i128,
}

/// Ledgers strictly increase along the history: oldest entry first, and at
/// most one entry per ledger.
pub open spec fn is_ordered(history: Seq<Checkpoint>) -> bool {
    forall|i: int, j: int| 0 <= i < j < history.len() ==> #[trigger] history[i].ledger < #[trigger] history[j].ledger
}

/// No entry of the history was written after `ledger`.
pub open spec fn written_by(history: Seq<Checkpoint>, ledger: u32) -> bool {
    forall|i: int| 0 <= i < history.len() ==> #[trigger] history[i].ledger <= ledger
}

/// The balance in effect at the end of `ledger`: the latest entry recorded at
/// or before it, or 0 when there is none.
pub open spec fn balance_as_of(history: Seq<Checkpoint>, ledger: u32) -> i128
    decreases history.len(),
{
    if history.len() == 0 {
        0
    } else if history.last().ledger <= ledger {
        history.last().balance
    } else {
        balance_as_of(history.drop_last(), ledger)
    }
}

/// The balance of the latest entry, or 0 for an empty history.
pub open spec fn latest_balance(history: Seq<Checkpoint>) -> i128 {
    if history.len() == 0 {
        0
    } else {
        history.last().balance
    }
}

/// The history after `balance` is recorded at `ledger`: an entry already
/// written at that ledger is replaced by the closing balance, otherwise a new
/// entry is appended.
pub open spec fn with_entry(history: Seq<Checkpoint>, ledger: u32, balance: i128) -> Seq<Checkpoint> {
    let entry = Checkpoint { ledger, balance };
    if history.len() > 0 && history.last().ledger == ledger {
        history.update(history.len() - 1, entry)
    } else {
        history.push(entry)
    }
}

/// Records `balance` as the closing balance of `ledger`.
///
/// Several changes can land in one ledger; they collapse so that each ledger
/// keeps exactly one entry, which keeps the search in [`balance_at`]
/// unambiguous.
pub fn record(history: &mut Vec<Checkpoint>, ledger: u32, balance: i128)
    ensures
        final(history)@ == with_entry(old(history)@, ledger, balance),
{
    let len = history.len();
    if len > 0 && history[len - 1].ledger == ledger {
        history.set(len - 1, Checkpoint { ledger, balance });
    } else {
        history.push(Checkpoint { ledger, balance });
    }
}

/// Where the search stops: every entry before `k` is at or before `ledger`
/// and every entry from `k` on is after it.
proof fn lemma_balance_as_of_split(history: Seq<Checkpoint>, ledger: u32, k: int)
    requires
        0 <= k <= history.len(),
        forall|i: int| 0 <= i < k ==> #[trigger] history[i].ledger <= ledger,
        forall|i: int| k <= i < history.len() ==> #[trigger] history[i].ledger > ledger,
    ensures
        balance_as_of(history, ledger) == (if k == 0 { 0 } else { history[k - 1].balance }),
    decreases history.len(),
{
    if history.len() > 0 && k < history.len() {
        let shorter = history.drop_last();
        assert(history[history.len() - 1].ledger > ledger);
        assert forall|i: int| 0 <= i < k implies #[trigger] shorter[i].ledger <= ledger by {
            assert(shorter[i] == history[i]);
        }
        assert forall|i: int| k <= i < shorter.len() implies #[trigger] shorter[i].ledger > ledger by {
            assert(shorter[i] == history[i]);
        }
        lemma_balance_as_of_split(shorter, ledger, k);
    }
}

/// Where the binary search for the first entry recorded after `ledger`
/// stops, searching the index range `low..high` of `history`.
pub open spec fn search_stop(history: Seq<Checkpoint>, ledger: u32, low: int, high: int) -> int
    decreases high - low,
{
    if 0 <= low < high <= history.len() {
        let mid = low + (high - low) / 2;
        if history[mid].ledger <= ledger {
            search_stop(history, ledger, mid + 1, high)
        } else {
            search_stop(history, ledger, low, mid)
        }
    } else {
        low
    }
}

/// The balance the binary search reads for `ledger`: the entry just before
/// where it stops, or 0 when it stops at the start. On an ordered history
/// this is [`balance_as_of`] (see [`lemma_search_reads_balance_as_of`]).
pub open spec fn searched_balance(history: Seq<Checkpoint>, ledger: u32) -> i128 {
    let k = search_stop(history, ledger, 0, history.len() as int);
    if k <= 0 || k > history.len() {
        0
    } else {
        history[k - 1].balance
    }
}

/// On an ordered history the search stops after exactly the entries at or
/// before `ledger`.
proof fn lemma_search_stop_ordered(history: Seq<Checkpoint>, ledger: u32, low: int, high: int)
    requires
        is_ordered(history),
        0 <= low <= high <= history.len(),
        forall|i: int| 0 <= i < low ==> #[trigger] history[i].ledger <= ledger,
        forall|i: int| high <= i < history.len() ==> #[trigger] history[i].ledger > ledger,
    ensures
        ({
            let k = search_stop(history, ledger, low, high);
            &&& 0 <= k <= history.len()
            &&& forall|i: int| 0 <= i < k ==> #[trigger] history[i].ledger <= ledger
            &&& forall|i: int| k <= i < history.len() ==> #[trigger] history[i].ledger > ledger
        }),
    decreases high - low,
{
    if low < high {
        let mid = low + (high - low) / 2;
        if history[mid].ledger <= ledger {
            assert forall|i: int| 0 <= i < mid + 1 implies #[trigger] history[i].ledger <= ledger by {
                if i < mid {
                    assert(history[i].ledger < history[mid].ledger);
                }
            }
            lemma_search_stop_ordered(history, ledger, mid + 1, high);
        } else {
            assert forall|i: int| mid <= i < history.len() implies #[trigger] history[i].ledger > ledger by {
                if i > mid {
                    assert(history[mid].ledger < history[i].ledger);
                }
            }
            lemma_search_stop_ordered(history, ledger, low, mid);
        }
    }
}

/// On an ordered history the binary search reads the latest entry at or
/// before `ledger`, or 0.
pub proof fn lemma_search_reads_balance_as_of(history: Seq<Checkpoint>, ledger: u32)
    requires
        is_ordered(history),
    ensures
        searched_balance(history, ledger) == balance_as_of(history, ledger),
{
    lemma_search_stop_ordered(history, ledger, 0, history.len() as int);
    let k = search_stop(history, ledger, 0, history.len() as int);
    lemma_balance_as_of_split(history, ledger, k);
}

/// Balance read for the end of `ledger` by binary search for the first entry
/// recorded after `ledger`; on an ordered history, the latest entry at or
/// before `ledger`, or 0.
pub fn balance_at(history: &Vec<Checkpoint>, ledger: u32) -> (balance: i128)
    ensures
        balance == searched_balance(history@, ledger),
        is_ordered(history@) ==> balance == balance_as_of(history@, ledger),
{
    let mut low: usize = 0;
    let mut high: usize = history.len();
    while low < high
        invariant
            low <= high <= history.len(),
            search_stop(history@, ledger, low as int, high as int) == search_stop(
                history@,
                ledger,
                0,
                history@.len() as int,
            ),
        decreases high - low,
    {
        let mid = low + (high - low) / 2;
        if history[mid].ledger <= ledger {
            low = mid + 1;
        } else {
            high = mid;
        }
    }
    proof {
        if is_ordered(history@) {
            lemma_search_reads_balance_as_of(history@, ledger);
        }
    }
    if low == 0 {
        0
    } else {
        history[low - 1].balance
    }
}

/// Recording at a ledger no earlier than any entry keeps the history ordered
/// and written by that ledger.
pub proof fn lemma_record_keeps_order(history: Seq<Checkpoint>, ledger: u32, balance: i128)
    requires
        is_ordered(history),
        written_by(history, ledger),
    ensures
        is_ordered(with_entry(history, ledger, balance)),
        written_by(with_entry(history, ledger, balance), ledger),
{
    let h = with_entry(history, ledger, balance);
    if history.len() > 0 && history.last().ledger == ledger {
        assert forall|i: int, j: int| 0 <= i < j < h.len() implies #[trigger] h[i].ledger < #[trigger] h[j].ledger by {
            assert(history[i].ledger < history[j].ledger);
        }
    } else {
        assert forall|i: int, j: int| 0 <= i < j < h.len() implies #[trigger] h[i].ledger < #[trigger] h[j].ledger by {
            if j == history.len() {
                assert(history[i].ledger <= ledger);
                assert(history[history.len() - 1].ledger <= ledger);
                if i < history.len() - 1 {
                    assert(history[i].ledger < history[history.len() - 1].ledger);
                }
            } else {
                assert(history[i].ledger < history[j].ledger);
            }
        }
    }
}

/// Reads after a record: at or after the recording ledger the recorded
/// balance is in effect; before it, the history reads exactly as it did.
pub proof fn lemma_record_then_read(history: Seq<Checkpoint>, ledger: u32, balance: i128, query: u32)
    requires
        written_by(history, ledger),
    ensures
        balance_as_of(with_entry(history, ledger, balance), query)
            == (if query >= ledger { balance } else { balance_as_of(history, query) }),
{
    let h = with_entry(history, ledger, balance);
    if history.len() > 0 && history.last().ledger == ledger {
        assert(h.drop_last() =~= history.drop_last());
    } else {
        assert(h.drop_last() =~= history);
    }
}

/// Once every entry is at or before `ledger`, the read at any later ledger is
/// the read at `ledger`: the latest entry, or 0.
pub proof fn lemma_read_after_last_entry(history: Seq<Checkpoint>, ledger: u32, query: u32)
    requires
        written_by(history, ledger),
        ledger <= query,
    ensures
        balance_as_of(history, query) == balance_as_of(history, ledger),
        balance_as_of(history, query) == (if history.len() == 0 { 0 } else { history.last().balance }),
{
    if history.len() > 0 {
        assert(history[history.len() - 1].ledger <= ledger);
    }
}

/// A history written by `ledger` is written by any later ledger.
pub proof fn lemma_written_by_later(history: Seq<Checkpoint>, ledger: u32, later: u32)
    requires
        written_by(history, ledger),
        ledger <= later,
    ensures
        written_by(history, later),
{
}

/// Changes within one ledger collapse into a single entry: recording adds an
/// entry only when the latest one belongs to an earlier ledger.
pub proof fn lemma_record_collapses(history: Seq<Checkpoint>, ledger: u32, balance: i128)
    ensures
        with_entry(history, ledger, balance).len() == (if history.len() > 0 && history.last().ledger == ledger {
            history.len()
        } else {
            history.len() + 1
        }),
        with_entry(history, ledger, balance).last() == (Checkpoint { ledger, balance }),
        forall|i: int| 0 <= i < with_entry(history, ledger, balance).len() - 1
            ==> #[trigger] with_entry(history, ledger, balance)[i] == history[i],
{
}

} // verus!
