//! An ordered map from a currency or timelock key to an amount, as the
//! constrained-value accumulator uses it: entries sorted by key, reads with
//! absence as zero, a tracked total, and in-place draining by index.

use vstd::pervasive::VecAdditionalExecFns;
use vstd::prelude::*;

use crate::amount::Amount;

verus! {

/// Entry keys strictly increase: each key occurs at most once.
pub open spec fn entries_sorted(s: Seq<(u128, Amount)>) -> bool {
    forall|i: int, j: int| 0 <= i < j < s.len() ==> s[i].0 < s[j].0
}

/// The sum of all amounts, as an unbounded integer.
pub open spec fn sum_amounts(s: Seq<(u128, Amount)>) -> int
    decreases s.len(),
{
    if s.len() == 0 {
        0
    } else {
        sum_amounts(s.drop_last()) + s.last().1.atoms()
    }
}

/// The amount stored under a key, with absence read as zero.
pub open spec fn spec_get(s: Seq<(u128, Amount)>, k: u128) -> int
    decreases s.len(),
{
    if s.len() == 0 {
        0
    } else if s.last().0 == k {
        s.last().1.atoms() as int
    } else {
        spec_get(s.drop_last(), k)
    }
}

/// Whether a key has an entry.
pub open spec fn spec_has(s: Seq<(u128, Amount)>, k: u128) -> bool {
    exists|i: int| 0 <= i < s.len() && s[i].0 == k
}

/// An entry at an index pins the value of [`spec_get`] when keys are unique.
pub proof fn lemma_get_at(s: Seq<(u128, Amount)>, k: u128, i: int)
    requires
        entries_sorted(s),
        0 <= i < s.len(),
        s[i].0 == k,
    ensures
        spec_get(s, k) == s[i].1.atoms(),
    decreases s.len(),
{
    if i == s.len() - 1 {
    } else {
        assert(s.last().0 != k);
        assert(s.drop_last()[i] == s[i]);
        lemma_get_at(s.drop_last(), k, i);
    }
}

/// Without an entry, [`spec_get`] reads zero.
pub proof fn lemma_get_absent(s: Seq<(u128, Amount)>, k: u128)
    requires
        !spec_has(s, k),
    ensures
        spec_get(s, k) == 0,
    decreases s.len(),
{
    if s.len() > 0 {
        assert(s[s.len() - 1].0 != k);
        assert(forall|i: int|
            0 <= i < s.drop_last().len() ==> #[trigger] s.drop_last()[i] == s[i]);
        lemma_get_absent(s.drop_last(), k);
    }
}

/// Updating one entry's amount moves the total by the difference and the
/// key's reading to the new amount, touching no other key.
proof fn lemma_update_value(s: Seq<(u128, Amount)>, i: int, v: Amount)
    requires
        entries_sorted(s),
        0 <= i < s.len(),
    ensures
        entries_sorted(s.update(i, (s[i].0, v))),
        sum_amounts(s.update(i, (s[i].0, v))) == sum_amounts(s) - s[i].1.atoms() + v.atoms(),
        spec_get(s.update(i, (s[i].0, v)), s[i].0) == v.atoms(),
        forall|k: u128| k != s[i].0 ==> spec_get(s.update(i, (s[i].0, v)), k) == spec_get(s, k),
        spec_has(s.update(i, (s[i].0, v)), s[i].0),
        forall|k: u128| spec_has(s.update(i, (s[i].0, v)), k) <==> spec_has(s, k),
    decreases s.len(),
{
    assert forall|k: u128| spec_has(s.update(i, (s[i].0, v)), k) <==> spec_has(s, k) by {
        let s2 = s.update(i, (s[i].0, v));
        if spec_has(s2, k) {
            let j = choose|j: int| 0 <= j < s2.len() && s2[j].0 == k;
            assert(s[j].0 == k);
        }
        if spec_has(s, k) {
            let j = choose|j: int| 0 <= j < s.len() && s[j].0 == k;
            assert(s.update(i, (s[i].0, v))[j].0 == k);
        }
    }
    let s2 = s.update(i, (s[i].0, v));
    assert(forall|a: int, b: int| 0 <= a < b < s2.len() ==> s2[a].0 < s2[b].0);
    if i == s.len() - 1 {
        assert(s2.drop_last() =~= s.drop_last());
        assert(s2.last() == (s[i].0, v));
        lemma_get_at(s2, s[i].0, i);
        assert(forall|k: u128|
            k != s[i].0 ==> spec_get(s2, k) == spec_get(s, k));
    } else {
        assert(s2.last() == s.last());
        assert(s2.drop_last() =~= s.drop_last().update(i, (s[i].0, v)));
        assert(s.drop_last()[i] == s[i]);
        lemma_update_value(s.drop_last(), i, v);
        lemma_get_at(s2, s[i].0, i);
        assert forall|k: u128| k != s[i].0 implies spec_get(s2, k) == spec_get(s, k) by {
            if s.last().0 != k {
                assert(spec_get(s2.drop_last(), k) == spec_get(s.drop_last(), k));
            }
        }
    }
}

/// Every reading of an amounts map is non-negative.
pub proof fn lemma_get_nonneg(s: Seq<(u128, Amount)>, k: u128)
    ensures
        spec_get(s, k) >= 0,
    decreases s.len(),
{
    if s.len() > 0 && s.last().0 != k {
        lemma_get_nonneg(s.drop_last(), k);
    }
}

/// No reading of an amounts map exceeds what one entry can store.
proof fn lemma_get_le_max(s: Seq<(u128, Amount)>, k: u128)
    ensures
        spec_get(s, k) <= u128::MAX,
    decreases s.len(),
{
    if s.len() > 0 && s.last().0 != k {
        lemma_get_le_max(s.drop_last(), k);
    }
}

/// No single reading exceeds what one entry can store.
pub proof fn lemma_get_le_max_pub(s: Seq<(u128, Amount)>, k: u128)
    ensures
        spec_get(s, k) <= u128::MAX,
{
    lemma_get_le_max(s, k);
}

/// All readings of an amounts map fit an entry.
pub proof fn lemma_values_le_max(s: Seq<(u128, Amount)>)
    ensures
        forall|k: u128| #[trigger] spec_get(s, k) <= u128::MAX,
{
    assert forall|k: u128| #[trigger] spec_get(s, k) <= u128::MAX by {
        lemma_get_le_max(s, k);
    }
}

/// The total of an amounts map is non-negative.
pub proof fn lemma_sum_nonneg(s: Seq<(u128, Amount)>)
    ensures
        sum_amounts(s) >= 0,
    decreases s.len(),
{
    if s.len() > 0 {
        lemma_sum_nonneg(s.drop_last());
    }
}

/// Inserting a fresh entry adds its amount to the total and its reading,
/// touching no other key.
proof fn lemma_insert_entry(s: Seq<(u128, Amount)>, i: int, e: (u128, Amount))
    requires
        0 <= i <= s.len(),
        !spec_has(s, e.0),
    ensures
        sum_amounts(s.insert(i, e)) == sum_amounts(s) + e.1.atoms(),
        spec_get(s.insert(i, e), e.0) == e.1.atoms(),
        forall|k: u128| k != e.0 ==> spec_get(s.insert(i, e), k) == spec_get(s, k),
        spec_has(s.insert(i, e), e.0),
        forall|k: u128| spec_has(s.insert(i, e), k) <==> spec_has(s, k) || k == e.0,
    decreases s.len(),
{
    let s2 = s.insert(i, e);
    assert(s2[i] == e);
    assert forall|k: u128| spec_has(s2, k) <==> spec_has(s, k) || k == e.0 by {
        if spec_has(s2, k) && k != e.0 {
            let j = choose|j: int| 0 <= j < s2.len() && s2[j].0 == k;
            if j < i {
                assert(s[j].0 == k);
            } else {
                assert(s[j - 1].0 == k);
            }
        }
        if spec_has(s, k) {
            let j = choose|j: int| 0 <= j < s.len() && s[j].0 == k;
            if j < i {
                assert(s2[j].0 == k);
            } else {
                assert(s2[j + 1].0 == k);
            }
        }
    }
    if i == s.len() {
        assert(s2.drop_last() =~= s);
        assert(s2.last() == e);
        lemma_get_absent(s, e.0);
    } else {
        assert(s2.last() == s.last());
        assert(s2.drop_last() =~= s.drop_last().insert(i, e));
        assert(forall|j: int|
            0 <= j < s.drop_last().len() ==> #[trigger] s.drop_last()[j] == s[j]);
        lemma_insert_entry(s.drop_last(), i, e);
        assert(s.last().0 != e.0);
        assert forall|k: u128| k != e.0 implies spec_get(s2, k) == spec_get(s, k) by {
            if s.last().0 != k {
                assert(spec_get(s2.drop_last(), k) == spec_get(s.drop_last(), k));
            }
        }
    }
}

/// A positive reading means the key has an entry.
pub proof fn lemma_get_pos_has(s: Seq<(u128, Amount)>, k: u128)
    requires
        spec_get(s, k) > 0,
    ensures
        spec_has(s, k),
{
    if !spec_has(s, k) {
        lemma_get_absent(s, k);
    }
}

/// Reading a one-longer prefix adds the next entry's amount on its key.
pub proof fn lemma_take_snoc_get(s: Seq<(u128, Amount)>, i: int, k: u128)
    requires
        0 <= i < s.len(),
    ensures
        spec_get(s.take(i + 1), k) == if s[i].0 == k {
            s[i].1.atoms() as int
        } else {
            spec_get(s.take(i), k)
        },
        sum_amounts(s.take(i + 1)) == sum_amounts(s.take(i)) + s[i].1.atoms(),
{
    assert(s.take(i + 1).drop_last() =~= s.take(i));
    assert(s.take(i + 1).last() == s[i]);
}

/// In a sorted map no earlier entry carries a later entry's key.
pub proof fn lemma_sorted_take_absent(s: Seq<(u128, Amount)>, i: int)
    requires
        entries_sorted(s),
        0 <= i < s.len(),
    ensures
        !spec_has(s.take(i), s[i].0),
{
    assert forall|j: int| 0 <= j < i implies s.take(i)[j].0 != s[i].0 by {
        assert(s[j].0 < s[i].0);
    }
}

/// A whole sequence is its own full prefix.
pub proof fn lemma_take_all(s: Seq<(u128, Amount)>)
    ensures
        s.take(s.len() as int) == s,
{
    assert(s.take(s.len() as int) =~= s);
}

/// A prefix of a sum plus the next entry never exceeds the whole sum.
pub proof fn lemma_prefix_plus_entry_le_total(s: Seq<(u128, Amount)>, i: int)
    requires
        0 <= i < s.len(),
    ensures
        sum_amounts(s.take(i)) + s[i].1.atoms() <= sum_amounts(s),
    decreases s.len() - i,
{
    assert(s.take(i + 1).drop_last() =~= s.take(i));
    assert(s.take(i + 1).last() == s[i]);
    lemma_sum_prefix_le(s, i + 1);
}

/// A prefix of a sum never exceeds the whole sum.
pub proof fn lemma_sum_prefix_le(s: Seq<(u128, Amount)>, i: int)
    requires
        0 <= i <= s.len(),
    ensures
        sum_amounts(s.take(i)) <= sum_amounts(s),
    decreases s.len() - i,
{
    if i == s.len() {
        assert(s.take(i) =~= s);
    } else {
        assert(s.take(i + 1).drop_last() =~= s.take(i));
        assert(s.take(i + 1).last() == s[i]);
        lemma_sum_prefix_le(s, i + 1);
    }
}

/// How many leading entries of a sorted list carry keys at most `bound`.
pub open spec fn spec_cut(s: Seq<(u128, Amount)>, bound: u128) -> int
    decreases s.len(),
{
    if s.len() == 0 {
        0
    } else if s.last().0 <= bound {
        s.len() as int
    } else {
        spec_cut(s.drop_last(), bound)
    }
}

/// The boundary a sorted scan finds is the cut.
pub proof fn lemma_cut_is_count(s: Seq<(u128, Amount)>, bound: u128, r: int)
    requires
        entries_sorted(s),
        0 <= r <= s.len(),
        forall|j: int| 0 <= j < r ==> s[j].0 <= bound,
        forall|j: int| r <= j < s.len() ==> s[j].0 > bound,
    ensures
        spec_cut(s, bound) == r,
    decreases s.len(),
{
    if s.len() == 0 {
    } else if s.last().0 <= bound {
        assert(r == s.len());
    } else {
        assert(r < s.len());
        assert(forall|j: int|
            0 <= j < s.drop_last().len() ==> #[trigger] s.drop_last()[j] == s[j]);
        lemma_cut_is_count(s.drop_last(), bound, r);
    }
}

/// The ordered amounts map.
#[derive(Clone, Debug, PartialEq, Eq)]
pub struct AmountsMap {
    pub entries: Vec<(u128, Amount)>,
}

impl AmountsMap {
    pub open spec fn seq(self) -> Seq<(u128, Amount)> {
        self.entries@
    }

    pub open spec fn wf(self) -> bool {
        entries_sorted(self.entries@)
    }

    /// The reading of a key, with absence as zero.
    pub open spec fn spec_value(self, k: u128) -> int {
        spec_get(self.entries@, k)
    }

    /// The total over all keys.
    pub open spec fn spec_total(self) -> int {
        sum_amounts(self.entries@)
    }

    /// An empty map.
    pub fn new() -> (r: AmountsMap)
        ensures
            r.wf(),
            r.seq() == Seq::<(u128, Amount)>::empty(),
            r.spec_total() == 0,
    {
        AmountsMap { entries: Vec::new() }
    }

    /// The index the key sits at, or the index it would be inserted at.
    fn search(&self, k: u128) -> (r: (bool, usize))
        requires
            self.wf(),
        ensures
            r.0 ==> r.1 < self.seq().len() && self.seq()[r.1 as int].0 == k,
            !r.0 ==> r.1 <= self.seq().len() && !spec_has(self.seq(), k) && (forall|j: int|
                0 <= j < r.1 ==> self.seq()[j].0 < k) && (forall|j: int|
                r.1 <= j < self.seq().len() ==> self.seq()[j].0 > k),
    {
        let n = self.entries.len();
        let mut i: usize = 0;
        while i < n
            invariant
                self.wf(),
                i <= n,
                n == self.seq().len(),
                forall|j: int| 0 <= j < i ==> self.seq()[j].0 < k,
            decreases n - i,
        {
            let key = self.entries[i].0;
            if key == k {
                return (true, i);
            }
            if key > k {
                assert(forall|j: int|
                    i <= j < self.seq().len() ==> self.seq()[j].0 >= self.seq()[i as int].0);
                return (false, i);
            }
            i = i + 1;
        }
        (false, n)
    }

    /// Whether the key has an entry, and where it sits or would sit.
    pub fn search_pub(&self, k: u128) -> (r: (bool, usize))
        requires
            self.wf(),
        ensures
            r.0 == spec_has(self.seq(), k),
    {
        let (found, i) = self.search(k);
        proof {
            if found {
                assert(spec_has(self.seq(), k));
            }
        }
        (found, i)
    }

    /// The amount under a key; zero when absent.
    pub fn get(&self, k: u128) -> (r: Amount)
        requires
            self.wf(),
        ensures
            r.atoms() == self.spec_value(k),
    {
        let (found, i) = self.search(k);
        if found {
            proof {
                lemma_get_at(self.entries@, k, i as int);
            }
            self.entries[i].1
        } else {
            proof {
                lemma_get_absent(self.entries@, k);
            }
            Amount::zero()
        }
    }

    /// Adds an amount to a key.  Rejected exactly when the key's new
    /// amount would overflow; the map is then unchanged.
    pub fn insert_or_increase(&mut self, k: u128, amount: Amount) -> (r: Result<(), ()>)
        requires
            old(self).wf(),
        ensures
            final(self).wf(),
            match r {
                Ok(_) => {
                    &&& old(self).spec_value(k) + amount.atoms() <= u128::MAX
                    &&& final(self).spec_value(k) == old(self).spec_value(k) + amount.atoms()
                    &&& forall|k2: u128|
                        k2 != k ==> final(self).spec_value(k2) == old(self).spec_value(k2)
                    &&& final(self).spec_total() == old(self).spec_total() + amount.atoms()
                    &&& spec_has(final(self).seq(), k)
                    &&& forall|k2: u128|
                        spec_has(final(self).seq(), k2) <==> spec_has(old(self).seq(), k2) || k2
                            == k
                },
                Err(_) => {
                    &&& old(self).spec_value(k) + amount.atoms() > u128::MAX
                    &&& *final(self) == *old(self)
                },
            },
    {
        let (found, i) = self.search(k);
        if found {
            let current = self.entries[i].1;
            proof {
                lemma_get_at(self.entries@, k, i as int);
            }
            match current.add(amount) {
                Some(total) => {
                    proof {
                        lemma_update_value(self.entries@, i as int, total);
                    }
                    self.entries.set(i, (k, total));
                    Ok(())
                },
                None => Err(()),
            }
        } else {
            proof {
                lemma_get_absent(self.entries@, k);
                lemma_insert_entry(self.entries@, i as int, (k, amount));
            }
            self.entries.insert(i, (k, amount));
            proof {
                let s2 = self.entries@;
                assert(forall|a: int, b: int| 0 <= a < b < s2.len() ==> s2[a].0 < s2[b].0);
            }
            Ok(())
        }
    }

    /// Takes an amount away from a key.  Rejected exactly when the key
    /// cannot cover it (a zero amount is always covered); the map is then
    /// unchanged.  The entry stays, possibly at zero.
    pub fn decrease_or_err(&mut self, k: u128, amount: Amount) -> (r: Result<(), ()>)
        requires
            old(self).wf(),
        ensures
            final(self).wf(),
            match r {
                Ok(_) => {
                    &&& amount.atoms() == 0 || (spec_has(old(self).seq(), k) && amount.atoms()
                        <= old(self).spec_value(k))
                    &&& amount.atoms() <= old(self).spec_value(k)
                    &&& final(self).spec_value(k) == old(self).spec_value(k) - amount.atoms()
                    &&& forall|k2: u128|
                        k2 != k ==> final(self).spec_value(k2) == old(self).spec_value(k2)
                    &&& final(self).spec_total() == old(self).spec_total() - amount.atoms()
                    &&& forall|k2: u128|
                        spec_has(final(self).seq(), k2) <==> spec_has(old(self).seq(), k2)
                    &&& final(self).seq().len() == old(self).seq().len()
                    &&& forall|p: int|
                        0 <= p < old(self).seq().len() ==> #[trigger] final(self).seq()[p] == (
                        if old(self).seq()[p].0 == k {
                            (
                                k,
                                Amount {
                                    atoms: (old(self).seq()[p].1.atoms() - amount.atoms()) as u128,
                                },
                            )
                        } else {
                            old(self).seq()[p]
                        })
                },
                Err(_) => {
                    &&& amount.atoms() > 0
                    &&& !(spec_has(old(self).seq(), k) && amount.atoms() <= old(
                        self,
                    ).spec_value(k))
                    &&& *final(self) == *old(self)
                },
            },
    {
        if amount.is_zero() {
            proof {
                lemma_get_nonneg(self.entries@, k);
            }
            return Ok(());
        }
        let (found, i) = self.search(k);
        if !found {
            proof {
                lemma_get_absent(self.entries@, k);
            }
            return Err(());
        }
        let current = self.entries[i].1;
        proof {
            lemma_get_at(self.entries@, k, i as int);
        }
        match current.sub(amount) {
            Some(rest) => {
                proof {
                    lemma_update_value(self.entries@, i as int, rest);
                    assert forall|p: int|
                        0 <= p < self.entries@.len() && self.entries@[p].0 == k implies p
                        == i as int by {
                        if p < i as int {
                            assert(self.entries@[p].0 < self.entries@[i as int].0);
                        } else if p > i as int {
                            assert(self.entries@[i as int].0 < self.entries@[p].0);
                        }
                    }
                }
                self.entries.set(i, (k, rest));
                Ok(())
            },
            None => Err(()),
        }
    }

    /// The number of entries.
    pub fn len(&self) -> (r: usize)
        ensures
            r == self.seq().len(),
    {
        self.entries.len()
    }

    /// The key of the entry at an index.
    pub fn key_at(&self, i: usize) -> (r: u128)
        requires
            i < self.seq().len(),
        ensures
            r == self.seq()[i as int].0,
    {
        self.entries[i].0
    }

    /// The amount of the entry at an index.
    pub fn value_at(&self, i: usize) -> (r: Amount)
        requires
            i < self.seq().len(),
        ensures
            r == self.seq()[i as int].1,
    {
        self.entries[i].1
    }

    /// Replaces the amount of the entry at an index.
    pub fn set_value_at(&mut self, i: usize, v: Amount)
        requires
            old(self).wf(),
            i < old(self).seq().len(),
        ensures
            final(self).wf(),
            final(self).seq() == old(self).seq().update(
                i as int,
                (old(self).seq()[i as int].0, v),
            ),
            final(self).spec_total() == old(self).spec_total() - old(
                self,
            ).seq()[i as int].1.atoms() + v.atoms(),
            final(self).spec_value(old(self).seq()[i as int].0) == v.atoms(),
            forall|k2: u128|
                k2 != old(self).seq()[i as int].0 ==> final(self).spec_value(k2) == old(
                    self,
                ).spec_value(k2),
    {
        proof {
            lemma_update_value(self.entries@, i as int, v);
        }
        let k = self.entries[i].0;
        self.entries.set(i, (k, v));
    }

    /// How many entries carry a key at most `bound`: they are exactly the
    /// first `r` entries, the keys being sorted.
    pub fn count_upto(&self, bound: u128) -> (r: usize)
        requires
            self.wf(),
        ensures
            r <= self.seq().len(),
            forall|j: int| 0 <= j < r ==> self.seq()[j].0 <= bound,
            forall|j: int| r <= j < self.seq().len() ==> self.seq()[j].0 > bound,
    {
        let n = self.entries.len();
        let mut i: usize = 0;
        while i < n
            invariant
                self.wf(),
                i <= n,
                n == self.seq().len(),
                forall|j: int| 0 <= j < i ==> self.seq()[j].0 <= bound,
            decreases n - i,
        {
            if self.entries[i].0 > bound {
                assert(forall|j: int|
                    i <= j < self.seq().len() ==> self.seq()[j].0 >= self.seq()[i as int].0);
                return i;
            }
            i = i + 1;
        }
        n
    }
}

} // verus!
