//! The order of a directory listing: directories first, then by name without
//! regard to case.

use vstd::prelude::*;
use crate::text::lowercase_of;

verus! {

/// What the file system says of one entry of a directory.
pub struct Entry {
    pub name: Seq<char>,
    pub path: Seq<char>,
    pub is_directory: bool,
    pub is_symlink: bool,
}

/// How `a[from..]` stands to `b[from..]` in the order of the dictionary, by
/// the code points of their characters: negative before, zero equal, positive
/// after.
pub open spec fn order_from(a: Seq<char>, b: Seq<char>, from: int) -> int
    decreases a.len() - from,
{
    if from < 0 {
        0
    } else if from >= a.len() {
        if from >= b.len() {
            0
        } else {
            -1
        }
    } else if from >= b.len() {
        1
    } else if (a[from] as int) < (b[from] as int) {
        -1
    } else if (a[from] as int) > (b[from] as int) {
        1
    } else {
        order_from(a, b, from + 1)
    }
}

/// How the entry `a` stands to the entry `b` in a listing: a directory before
/// a file, and two of a kind by their names in lower case.
pub open spec fn entry_order(a: Entry, b: Entry) -> int {
    if a.is_directory != b.is_directory {
        if a.is_directory {
            -1
        } else {
            1
        }
    } else {
        order_from(lowercase_of(a.name), lowercase_of(b.name), 0)
    }
}

/// True where `a` has to stand before `b`.
pub open spec fn entry_before(a: Entry, b: Entry) -> bool {
    entry_order(a, b) < 0
}

/// True of a listing in which no entry stands behind one that has to stand
/// after it.
pub open spec fn is_sorted(entries: Seq<Entry>) -> bool {
    forall|i: int, j: int|
        0 <= i < j < entries.len() ==> !entry_before(#[trigger] entries[j], #[trigger] entries[i])
}

/// Where `e` goes into the sorted listing `sorted`: behind every entry that
/// does not have to stand after it.
pub open spec fn insertion_point(sorted: Seq<Entry>, e: Entry) -> nat
    decreases sorted.len(),
{
    if sorted.len() > 0 && entry_before(e, sorted.last()) {
        insertion_point(sorted.drop_last(), e)
    } else {
        sorted.len()
    }
}

/// The listing in order: its entries put one by one, in the order in which
/// they were read, each behind every entry that does not have to stand after
/// it. Entries that the order does not tell apart keep the order in which
/// they were read.
pub open spec fn sorted_entries(entries: Seq<Entry>) -> Seq<Entry>
    decreases entries.len(),
{
    if entries.len() == 0 {
        Seq::empty()
    } else {
        let before = sorted_entries(entries.drop_last());
        before.insert(insertion_point(before, entries.last()) as int, entries.last())
    }
}

/// Turning two texts round turns their order round.
pub proof fn lemma_order_flip(a: Seq<char>, b: Seq<char>, from: int)
    requires
        0 <= from,
    ensures
        order_from(a, b, from) == -order_from(b, a, from),
    decreases a.len() - from,
{
    if from < a.len() && from < b.len() && a[from] == b[from] {
        lemma_order_flip(a, b, from + 1);
    }
}

/// The order of texts is transitive.
pub proof fn lemma_order_chain(a: Seq<char>, b: Seq<char>, c: Seq<char>, from: int)
    requires
        0 <= from,
        order_from(a, b, from) <= 0,
        order_from(b, c, from) <= 0,
    ensures
        order_from(a, c, from) <= 0,
    decreases a.len() - from,
{
    if from < a.len() && from < b.len() && from < c.len() && a[from] == b[from] && b[from]
        == c[from] {
        lemma_order_chain(a, b, c, from + 1);
    }
}

/// Turning two entries round turns their order round.
pub proof fn lemma_entry_flip(a: Entry, b: Entry)
    ensures
        entry_order(a, b) == -entry_order(b, a),
{
    lemma_order_flip(lowercase_of(a.name), lowercase_of(b.name), 0);
}

/// The order of entries is transitive.
pub proof fn lemma_entry_chain(a: Entry, b: Entry, c: Entry)
    requires
        entry_order(a, b) <= 0,
        entry_order(b, c) <= 0,
    ensures
        entry_order(a, c) <= 0,
{
    if a.is_directory == b.is_directory && b.is_directory == c.is_directory {
        lemma_order_chain(lowercase_of(a.name), lowercase_of(b.name), lowercase_of(c.name), 0);
    }
}

/// What the insertion point is: every entry from it on has to stand after
/// `e`, and the one before it has not.
pub proof fn lemma_insertion_point(sorted: Seq<Entry>, e: Entry)
    ensures
        insertion_point(sorted, e) <= sorted.len(),
        forall|k: int|
            insertion_point(sorted, e) <= k < sorted.len() ==> entry_before(
                e,
                #[trigger] sorted[k],
            ),
        insertion_point(sorted, e) > 0 ==> !entry_before(
            e,
            sorted[insertion_point(sorted, e) - 1],
        ),
    decreases sorted.len(),
{
    if sorted.len() > 0 && entry_before(e, sorted.last()) {
        let shorter = sorted.drop_last();
        lemma_insertion_point(shorter, e);
        assert forall|k: int| insertion_point(sorted, e) <= k < sorted.len() implies entry_before(
            e,
            #[trigger] sorted[k],
        ) by {
            if k < shorter.len() {
                assert(sorted[k] == shorter[k]);
            }
        }
        if insertion_point(sorted, e) > 0 {
            assert(sorted[insertion_point(sorted, e) - 1] == shorter[insertion_point(shorter, e)
                - 1]);
        }
    }
}

/// An entry put into a sorted listing at its insertion point leaves the
/// listing sorted.
pub proof fn lemma_insert_keeps_sorted(sorted: Seq<Entry>, e: Entry)
    requires
        is_sorted(sorted),
    ensures
        is_sorted(sorted.insert(insertion_point(sorted, e) as int, e)),
{
    let p = insertion_point(sorted, e) as int;
    let after = sorted.insert(p, e);
    lemma_insertion_point(sorted, e);
    assert forall|i: int, j: int| 0 <= i < j < after.len() implies !entry_before(
        #[trigger] after[j],
        #[trigger] after[i],
    ) by {
        if j == p {
            // after[j] is e, after[i] stands before the insertion point
            lemma_entry_flip(e, sorted[p - 1]);
            if i < p - 1 {
                assert(!entry_before(sorted[p - 1], sorted[i]));
                lemma_entry_flip(sorted[p - 1], sorted[i]);
                lemma_entry_flip(sorted[i], e);
                lemma_entry_chain(sorted[i], sorted[p - 1], e);
            }
            lemma_entry_flip(e, sorted[i]);
        } else if i == p {
            // after[i] is e, after[j] stands from the insertion point on
            assert(after[j] == sorted[j - 1]);
            assert(entry_before(e, sorted[j - 1]));
            lemma_entry_flip(e, sorted[j - 1]);
        } else {
            let oi = if i < p { i } else { i - 1 };
            let oj = if j < p { j } else { j - 1 };
            assert(after[i] == sorted[oi]);
            assert(after[j] == sorted[oj]);
            assert(!entry_before(sorted[oj], sorted[oi]));
        }
    }
}

/// A listing in order is sorted: directories stand before files, and the
/// entries of each kind stand by their names without regard to case.
pub proof fn lemma_sorted_entries_sorted(entries: Seq<Entry>)
    ensures
        is_sorted(sorted_entries(entries)),
        sorted_entries(entries).len() == entries.len(),
    decreases entries.len(),
{
    if entries.len() > 0 {
        let before = sorted_entries(entries.drop_last());
        lemma_sorted_entries_sorted(entries.drop_last());
        lemma_insertion_point(before, entries.last());
        lemma_insert_keeps_sorted(before, entries.last());
    }
}

/// A listing in order holds the entries that were read, each as often as it
/// was read.
pub proof fn lemma_sorted_entries_same(entries: Seq<Entry>)
    ensures
        sorted_entries(entries).to_multiset() == entries.to_multiset(),
    decreases entries.len(),
{
    broadcast use vstd::seq_lib::group_to_multiset_ensures;

    if entries.len() > 0 {
        let before = sorted_entries(entries.drop_last());
        let e = entries.last();
        let p = insertion_point(before, e) as int;
        lemma_sorted_entries_same(entries.drop_last());
        lemma_insertion_point(before, e);
        assert(entries =~= entries.drop_last().push(e));
        assert(before.insert(p, e) =~= before.subrange(0, p).push(e) + before.subrange(
            p,
            before.len() as int,
        ));
        assert(before =~= before.subrange(0, p) + before.subrange(p, before.len() as int));
        vstd::seq_lib::lemma_multiset_commutative(
            before.subrange(0, p).push(e),
            before.subrange(p, before.len() as int),
        );
        vstd::seq_lib::lemma_multiset_commutative(
            before.subrange(0, p),
            before.subrange(p, before.len() as int),
        );
        assert(before.insert(p, e).to_multiset() =~= before.to_multiset().insert(e));
    } else {
        assert(sorted_entries(entries) =~= entries);
    }
}

/// The order of texts tells any two texts apart that differ.
pub proof fn lemma_order_zero(a: Seq<char>, b: Seq<char>, from: int)
    requires
        0 <= from <= a.len(),
        from <= b.len(),
        order_from(a, b, from) == 0,
    ensures
        a.len() == b.len(),
        forall|k: int| from <= k < a.len() ==> a[k] == b[k],
    decreases a.len() - from,
{
    if from < a.len() {
        lemma_order_zero(a, b, from + 1);
    }
}

/// True of a listing in which no two entries have names that are equal
/// without regard to case.
pub open spec fn distinct_names(entries: Seq<Entry>) -> bool {
    forall|i: int, j: int|
        0 <= i < j < entries.len() ==> lowercase_of((#[trigger] entries[i]).name) != lowercase_of(
            (#[trigger] entries[j]).name,
        )
}

/// The order tells two entries apart whose names differ without regard to
/// case.
pub proof fn lemma_entry_order_zero(a: Entry, b: Entry)
    requires
        entry_order(a, b) == 0,
    ensures
        lowercase_of(a.name) == lowercase_of(b.name),
{
    lemma_order_zero(lowercase_of(a.name), lowercase_of(b.name), 0);
    assert(lowercase_of(a.name) =~= lowercase_of(b.name));
}

/// A listing in order has no two names equal without regard to case where the
/// listing as it was read has none.
pub proof fn lemma_sorted_keeps_names_distinct(entries: Seq<Entry>)
    requires
        distinct_names(entries),
    ensures
        distinct_names(sorted_entries(entries)),
    decreases entries.len(),
{
    if entries.len() > 0 {
        let shorter = entries.drop_last();
        let before = sorted_entries(shorter);
        let e = entries.last();
        let p = insertion_point(before, e) as int;
        let after = before.insert(p, e);
        assert forall|i: int, j: int| 0 <= i < j < shorter.len() implies lowercase_of(
            (#[trigger] shorter[i]).name,
        ) != lowercase_of((#[trigger] shorter[j]).name) by {
            assert(shorter[i] == entries[i] && shorter[j] == entries[j]);
        }
        lemma_sorted_keeps_names_distinct(shorter);
        lemma_sorted_entries_same(shorter);
        lemma_sorted_entries_sorted(shorter);
        lemma_insertion_point(before, e);
        assert forall|k: int| 0 <= k < before.len() implies lowercase_of(
            (#[trigger] before[k]).name,
        ) != lowercase_of(e.name) by {
            assert(before.contains(before[k]));
            vstd::seq_lib::to_multiset_contains(before, before[k]);
            vstd::seq_lib::to_multiset_contains(shorter, before[k]);
            let m = choose|m: int| 0 <= m < shorter.len() && shorter[m] == before[k];
            assert(entries[m] == before[k]);
            assert(entries[entries.len() - 1] == e);
        }
        assert forall|i: int, j: int| 0 <= i < j < after.len() implies lowercase_of(
            (#[trigger] after[i]).name,
        ) != lowercase_of((#[trigger] after[j]).name) by {
            let oi = if i < p { i } else { i - 1 };
            let oj = if j < p { j } else { j - 1 };
            if i == p {
                assert(after[j] == before[oj]);
            } else if j == p {
                assert(after[i] == before[oi]);
            } else {
                assert(after[i] == before[oi]);
                assert(after[j] == before[oj]);
            }
        }
    }
}

/// Two sorted listings that hold the same entries are the same listing, where
/// no two of the entries have names equal without regard to case.
pub proof fn lemma_sorted_is_unique(x: Seq<Entry>, y: Seq<Entry>)
    requires
        is_sorted(x),
        is_sorted(y),
        distinct_names(x),
        x.to_multiset() == y.to_multiset(),
    ensures
        x == y,
    decreases x.len(),
{
    vstd::seq_lib::to_multiset_len(x);
    vstd::seq_lib::to_multiset_len(y);
    if x.len() == 0 {
        assert(x =~= y);
    } else {
        let n = x.len() as int;
        let last_x = x[n - 1];
        let last_y = y[n - 1];
        // The last entry of each listing occurs in the other.
        assert(y.contains(last_y));
        vstd::seq_lib::to_multiset_contains(y, last_y);
        vstd::seq_lib::to_multiset_contains(x, last_y);
        let k = choose|k: int| 0 <= k < x.len() && x[k] == last_y;
        assert(x.contains(last_x));
        vstd::seq_lib::to_multiset_contains(x, last_x);
        vstd::seq_lib::to_multiset_contains(y, last_x);
        let m = choose|m: int| 0 <= m < y.len() && y[m] == last_x;
        // Each stands last in its own listing, so neither stands before the other.
        if k < n - 1 {
            assert(!entry_before(x[n - 1], x[k]));
        }
        if m < n - 1 {
            assert(!entry_before(y[n - 1], y[m]));
        }
        lemma_entry_flip(last_x, last_y);
        if k < n - 1 {
            assert(entry_order(x[k], x[n - 1]) == 0);
            lemma_entry_order_zero(x[k], x[n - 1]);
        }
        assert(last_x == last_y);
        let shorter_x = x.drop_last();
        let shorter_y = y.drop_last();
        assert(shorter_x =~= x.remove(n - 1));
        assert(shorter_y =~= y.remove(n - 1));
        vstd::seq_lib::to_multiset_remove(x, n - 1);
        vstd::seq_lib::to_multiset_remove(y, n - 1);
        assert forall|i: int, j: int| 0 <= i < j < shorter_x.len() implies !entry_before(
            #[trigger] shorter_x[j],
            #[trigger] shorter_x[i],
        ) by {
            assert(shorter_x[i] == x[i] && shorter_x[j] == x[j]);
        }
        assert forall|i: int, j: int| 0 <= i < j < shorter_y.len() implies !entry_before(
            #[trigger] shorter_y[j],
            #[trigger] shorter_y[i],
        ) by {
            assert(shorter_y[i] == y[i] && shorter_y[j] == y[j]);
        }
        assert forall|i: int, j: int| 0 <= i < j < shorter_x.len() implies lowercase_of(
            (#[trigger] shorter_x[i]).name,
        ) != lowercase_of((#[trigger] shorter_x[j]).name) by {
            assert(shorter_x[i] == x[i] && shorter_x[j] == x[j]);
        }
        lemma_sorted_is_unique(shorter_x, shorter_y);
        assert(x =~= shorter_x.push(last_x));
        assert(y =~= shorter_y.push(last_y));
    }
}

/// The order of a listing does not depend on the order in which it was read:
/// two listings that hold the same entries, no two of them with names equal
/// without regard to case, are the same listing once they are in order.
pub proof fn lemma_order_does_not_depend_on_reading(a: Seq<Entry>, b: Seq<Entry>)
    requires
        a.to_multiset() == b.to_multiset(),
        distinct_names(a),
    ensures
        sorted_entries(a) == sorted_entries(b),
{
    lemma_sorted_entries_sorted(a);
    lemma_sorted_entries_sorted(b);
    lemma_sorted_entries_same(a);
    lemma_sorted_entries_same(b);
    lemma_sorted_keeps_names_distinct(a);
    lemma_sorted_is_unique(sorted_entries(a), sorted_entries(b));
}

/// Computes how `a` stands to `b` in the order of the dictionary: -1, 0 or 1.
pub fn text_order(a: &Vec<char>, b: &Vec<char>) -> (order: i8)
    ensures
        order == order_from(a@, b@, 0),
{
    let mut i: usize = 0;
    while i < a.len() && i < b.len()
        invariant
            i <= a.len(),
            i <= b.len(),
            order_from(a@, b@, 0) == order_from(a@, b@, i as int),
        decreases a.len() - i,
    {
        if a[i] < b[i] {
            return -1;
        }
        if a[i] > b[i] {
            return 1;
        }
        i += 1;
    }
    if i < b.len() {
        -1
    } else if i < a.len() {
        1
    } else {
        0
    }
}

} // verus!
