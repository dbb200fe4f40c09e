//! Signed-amount deltas over aggregate balance maps.
//!
//! A balance map holds a strictly positive amount per key (a zero balance is
//! simply absent).  A signed-amount delta is an ordered log of per-key
//! adjustments.  Applying one yields the same kind of undo log the entry
//! deltas use, with the same exactness guarantee; overflow and underflow
//! are typed errors, never wrap-arounds.

use std::collections::BTreeMap;
use vstd::prelude::*;

use crate::amount::{Amount, SignedAmount};
use crate::delta::{lemma_undo_log_unsnoc, undo_data_log, undo_entry, undo_log, AccountingError, UndoEntry};

verus! {

broadcast use {vstd::std_specs::btree::group_btree_axioms, vstd::laws_cmp::group_laws_cmp};

/// An ordered log of per-key balance adjustments, applied first to last.
#[derive(Clone, Debug, PartialEq, Eq)]
pub struct DeltaAmountCollection {
    pub ops: Vec<(u128, SignedAmount)>,
}

/// The undo log of one amount-delta application, applied last record first.
#[derive(Clone, Debug, PartialEq, Eq)]
pub struct AmountUndo {
    pub log: Vec<UndoEntry<Amount>>,
}

/// A balance map never stores a zero: absence is the zero balance.
pub open spec fn balances_wf(m: Map<u128, Amount>) -> bool {
    forall|k: u128| #[trigger] m.contains_key(k) ==> m[k].atoms() != 0
}

/// The balance a key carries, with absence read as zero.
pub open spec fn balance_of(m: Map<u128, Amount>, k: u128) -> int {
    if m.contains_key(k) {
        m[k].atoms() as int
    } else {
        0
    }
}

/// The effect of one adjustment, or `None` when the new balance would
/// leave the representable range.
pub open spec fn apply_amount_op(m: Map<u128, Amount>, k: u128, s: SignedAmount) -> Option<
    Map<u128, Amount>,
> {
    let new = balance_of(m, k) + s.atoms();
    if new < 0 || new > u128::MAX {
        None
    } else if new == 0 {
        Some(m.remove(k))
    } else {
        Some(m.insert(k, Amount { atoms: new as u128 }))
    }
}

/// The effect of a whole amount delta.
pub open spec fn apply_amount_ops(m: Map<u128, Amount>, ops: Seq<(u128, SignedAmount)>) -> Option<
    Map<u128, Amount>,
>
    decreases ops.len(),
{
    if ops.len() == 0 {
        Some(m)
    } else {
        match apply_amount_op(m, ops[0].0, ops[0].1) {
            Some(m1) => apply_amount_ops(m1, ops.drop_first()),
            None => None,
        }
    }
}

/// The undo log an amount-delta application records.
pub open spec fn amount_undo_log_of(m: Map<u128, Amount>, ops: Seq<(u128, SignedAmount)>) -> Seq<
    UndoEntry<Amount>,
>
    decreases ops.len(),
{
    if ops.len() == 0 {
        Seq::empty()
    } else {
        let k = ops[0].0;
        let head: UndoEntry<Amount> = (
            k,
            if m.contains_key(k) {
                Some(m[k])
            } else {
                None
            },
        );
        match apply_amount_op(m, k, ops[0].1) {
            Some(m1) => seq![head] + amount_undo_log_of(m1, ops.drop_first()),
            None => seq![head],
        }
    }
}

/// One adjustment and its undo record cancel exactly.
proof fn lemma_amount_step_then_undo(m: Map<u128, Amount>, k: u128, s: SignedAmount)
    requires
        apply_amount_op(m, k, s) is Some,
    ensures
        undo_entry(
            apply_amount_op(m, k, s).unwrap(),
            (
                k,
                if m.contains_key(k) {
                    Some(m[k])
                } else {
                    None
                },
            ),
        ) == m,
{
    let m1 = apply_amount_op(m, k, s).unwrap();
    if m.contains_key(k) {
        assert(undo_entry(m1, (k, Some(m[k]))) =~= m);
    } else {
        assert(undo_entry(m1, (k, None::<Amount>)) =~= m);
    }
}

/// Undo exactness for aggregate amounts: restoring the recorded undo log
/// returns the balance map exactly.
pub proof fn lemma_amount_merge_then_undo(m: Map<u128, Amount>, ops: Seq<(u128, SignedAmount)>)
    requires
        apply_amount_ops(m, ops) is Some,
    ensures
        undo_log(apply_amount_ops(m, ops).unwrap(), amount_undo_log_of(m, ops)) == m,
    decreases ops.len(),
{
    if ops.len() == 0 {
    } else {
        let k = ops[0].0;
        let m1 = apply_amount_op(m, k, ops[0].1).unwrap();
        lemma_amount_merge_then_undo(m1, ops.drop_first());
        let log = amount_undo_log_of(m, ops);
        assert(log.drop_first() =~= amount_undo_log_of(m1, ops.drop_first()));
        lemma_amount_step_then_undo(m, k, ops[0].1);
    }
}

/// Applying a concatenation is applying the parts in order.
proof fn lemma_apply_amount_ops_app(
    m: Map<u128, Amount>,
    a: Seq<(u128, SignedAmount)>,
    b: Seq<(u128, SignedAmount)>,
)
    ensures
        apply_amount_ops(m, a + b) == (match apply_amount_ops(m, a) {
            Some(m1) => apply_amount_ops(m1, b),
            None => None,
        }),
    decreases a.len(),
{
    if a.len() == 0 {
        assert(a + b =~= b);
    } else {
        assert((a + b)[0] == a[0]);
        match apply_amount_op(m, a[0].0, a[0].1) {
            Some(m1) => {
                assert((a + b).drop_first() =~= a.drop_first() + b);
                lemma_apply_amount_ops_app(m1, a.drop_first(), b);
            },
            None => {},
        }
    }
}

/// The undo log of a concatenation is the concatenation of the undo logs.
proof fn lemma_amount_undo_log_of_app(
    m: Map<u128, Amount>,
    a: Seq<(u128, SignedAmount)>,
    b: Seq<(u128, SignedAmount)>,
)
    requires
        apply_amount_ops(m, a) is Some,
    ensures
        amount_undo_log_of(m, a + b) == amount_undo_log_of(m, a) + amount_undo_log_of(
            apply_amount_ops(m, a).unwrap(),
            b,
        ),
    decreases a.len(),
{
    if a.len() == 0 {
        assert(a + b =~= b);
        assert(amount_undo_log_of(m, a) + amount_undo_log_of(m, b) =~= amount_undo_log_of(m, b));
    } else {
        assert((a + b)[0] == a[0]);
        let m1 = apply_amount_op(m, a[0].0, a[0].1).unwrap();
        assert((a + b).drop_first() =~= a.drop_first() + b);
        lemma_apply_amount_ops_app(m1, a.drop_first(), b);
        lemma_amount_undo_log_of_app(m1, a.drop_first(), b);
        assert(apply_amount_ops(m, a).unwrap() == apply_amount_ops(m1, a.drop_first()).unwrap());
        assert(amount_undo_log_of(m, a + b) =~= amount_undo_log_of(m, a) + amount_undo_log_of(
            apply_amount_ops(m, a).unwrap(),
            b,
        ));
    }
}

/// A one-step amount delta acts as its one adjustment does.
proof fn lemma_amount_ops_one(m: Map<u128, Amount>, k: u128, s: SignedAmount)
    ensures
        apply_amount_ops(m, seq![(k, s)]) == apply_amount_op(m, k, s),
        apply_amount_op(m, k, s) is Some ==> amount_undo_log_of(m, seq![(k, s)]) == seq![
            (
                k,
                if m.contains_key(k) {
                    Some(m[k])
                } else {
                    None
                },
            ),
        ],
{
    let sq = seq![(k, s)];
    assert(sq[0] == (k, s));
    assert(sq.drop_first() =~= Seq::<(u128, SignedAmount)>::empty());
    match apply_amount_op(m, k, s) {
        Some(m1) => {
            assert(apply_amount_ops(m1, sq.drop_first()) == Some(m1));
            assert(amount_undo_log_of(m1, sq.drop_first()) =~= Seq::<UndoEntry<Amount>>::empty());
            assert(amount_undo_log_of(m, sq) =~= seq![
                (
                    k,
                    if m.contains_key(k) {
                        Some(m[k])
                    } else {
                        None
                    },
                ),
            ]);
        },
        None => {},
    }
}

impl DeltaAmountCollection {
    pub open spec fn ops_seq(self) -> Seq<(u128, SignedAmount)> {
        self.ops@
    }

    /// An empty amount delta.
    pub fn new() -> (r: DeltaAmountCollection)
        ensures
            r.ops_seq() == Seq::<(u128, SignedAmount)>::empty(),
    {
        DeltaAmountCollection { ops: Vec::new() }
    }

    /// Records a signed adjustment.
    pub fn add(&mut self, key: u128, amount: SignedAmount)
        ensures
            final(self).ops_seq() == old(self).ops_seq().push((key, amount)),
    {
        self.ops.push((key, amount));
    }

    /// Records an increase; rejected when the amount does not fit a
    /// signed atom count.
    pub fn add_unsigned(&mut self, key: u128, amount: Amount) -> (r: Result<
        (),
        AccountingError,
    >)
        ensures
            match r {
                Ok(_) => amount.atoms() <= i128::MAX && final(self).ops_seq() == old(
                    self,
                ).ops_seq().push((key, SignedAmount { atoms: amount.atoms() as i128 })),
                Err(_) => amount.atoms() > i128::MAX && *final(self) == *old(self),
            },
    {
        let atoms = amount.into_atoms();
        if atoms > i128::MAX as u128 {
            Err(AccountingError::ArithmeticOverflow)
        } else {
            self.ops.push((key, SignedAmount::from_atoms(atoms as i128)));
            Ok(())
        }
    }

    /// Records a decrease; rejected when the amount does not fit a
    /// signed atom count.
    pub fn sub_unsigned(&mut self, key: u128, amount: Amount) -> (r: Result<
        (),
        AccountingError,
    >)
        ensures
            match r {
                Ok(_) => amount.atoms() <= i128::MAX && final(self).ops_seq() == old(
                    self,
                ).ops_seq().push((key, SignedAmount { atoms: ((-(amount.atoms() as int)) as i128) })),
                Err(_) => amount.atoms() > i128::MAX && *final(self) == *old(self),
            },
    {
        let atoms = amount.into_atoms();
        if atoms > i128::MAX as u128 {
            Err(AccountingError::ArithmeticOverflow)
        } else {
            self.ops.push((key, SignedAmount::from_atoms(-(atoms as i128))));
            Ok(())
        }
    }

    /// The number of recorded adjustments.
    pub fn len(&self) -> (r: usize)
        ensures
            r == self.ops_seq().len(),
    {
        self.ops.len()
    }

    /// Appends every adjustment of `other`, in order; the merge is undone
    /// exactly by truncating back to the returned former length.
    pub fn merge_delta_amounts(&mut self, other: DeltaAmountCollection) -> (r: usize)
        ensures
            final(self).ops_seq() == old(self).ops_seq() + other.ops_seq(),
            r == old(self).ops_seq().len(),
    {
        let former_len = self.ops.len();
        let mut rest = other.ops;
        let n = rest.len();
        let mut i: usize = 0;
        let ghost rest0 = rest@;
        while i < n
            invariant
                i <= n,
                n == rest0.len(),
                rest@ == rest0.skip(i as int),
                self.ops@ == old(self).ops@ + rest0.take(i as int),
            decreases n - i,
        {
            let op = rest.remove(0);
            assert(rest0.skip(i as int)[0] == rest0[i as int]);
            self.ops.push(op);
            i = i + 1;
            proof {
                assert(rest@ =~= rest0.skip(i as int));
                assert(rest0.take(i as int) =~= rest0.take(i - 1).push(rest0[i - 1]));
            }
        }
        proof {
            assert(rest0.take(n as int) =~= rest0);
        }
        former_len
    }

    /// Undoes a merge by dropping every adjustment appended since the
    /// delta had `former_len` of them.
    pub fn truncate_to(&mut self, former_len: usize)
        requires
            former_len <= old(self).ops_seq().len(),
        ensures
            final(self).ops_seq() == old(self).ops_seq().take(former_len as int),
    {
        self.ops.truncate(former_len);
    }
}

impl AmountUndo {
    pub open spec fn log_seq(self) -> Seq<UndoEntry<Amount>> {
        self.log@
    }
}

/// Applies an amount delta to a balance map.  On success the returned undo
/// log restores the map exactly; on underflow or overflow the map is first
/// restored and the typed arithmetic error is returned.
pub fn merge_amount_delta(base: &mut BTreeMap<u128, Amount>, delta: DeltaAmountCollection) -> (r:
    Result<AmountUndo, AccountingError>)
    ensures
        match r {
            Ok(u) => {
                &&& Some(final(base)@) == apply_amount_ops(old(base)@, delta.ops_seq())
                &&& u.log_seq() == amount_undo_log_of(old(base)@, delta.ops_seq())
                &&& undo_log(final(base)@, u.log_seq()) == old(base)@
            },
            Err(e) => {
                &&& final(base)@ == old(base)@
                &&& apply_amount_ops(old(base)@, delta.ops_seq()) is None
                &&& (e == AccountingError::ArithmeticOverflow || e
                    == AccountingError::ArithmeticUnderflow)
            },
        },
{
    let ghost m0 = base@;
    let mut rest = delta.ops;
    let n = rest.len();
    let ghost rest0 = rest@;
    let mut log: Vec<UndoEntry<Amount>> = Vec::new();
    let mut i: usize = 0;
    while i < n
        invariant
            i <= n,
            n == rest0.len(),
            rest@ == rest0.skip(i as int),
            m0 == old(base)@,
            rest0 == delta.ops_seq(),
            apply_amount_ops(m0, rest0.take(i as int)) == Some(base@),
            log@ == amount_undo_log_of(m0, rest0.take(i as int)),
            undo_log(base@, log@) == m0,
        decreases n - i,
    {
        let (key, op) = rest.remove(0);
        assert(rest0.skip(i as int)[0] == rest0[i as int]);
        let ghost m_before = base@;
        let prior: Option<Amount> = match base.get(&key) {
            Some(a) => Some(*a),
            None => None,
        };
        let current: u128 = match prior {
            Some(a) => a.into_atoms(),
            None => 0,
        };
        let failed: Option<AccountingError> = if op.into_atoms() >= 0 {
            let inc = op.into_atoms() as u128;
            if current <= u128::MAX - inc {
                let new = current + inc;
                if new == 0 {
                    base.remove(&key);
                } else {
                    base.insert(key, Amount::from_atoms(new));
                }
                None
            } else {
                Some(AccountingError::ArithmeticOverflow)
            }
        } else {
            let a = op.into_atoms();
            let dec = ((-(a + 1)) as u128) + 1;
            assert(dec == -(op.atoms() as int));
            if dec <= current {
                let new = current - dec;
                if new == 0 {
                    base.remove(&key);
                } else {
                    base.insert(key, Amount::from_atoms(new));
                }
                None
            } else {
                Some(AccountingError::ArithmeticUnderflow)
            }
        };
        if let Some(e) = failed {
            proof {
                let gi = i as int;
                assert(apply_amount_op(m_before, rest0[gi].0, rest0[gi].1) is None);
                lemma_amount_ops_one(m_before, rest0[gi].0, rest0[gi].1);
                assert(rest0 =~= rest0.take(gi) + (seq![rest0[gi]] + rest0.skip(gi + 1)));
                lemma_apply_amount_ops_app(m_before, seq![rest0[gi]], rest0.skip(gi + 1));
                lemma_apply_amount_ops_app(m0, rest0.take(gi), seq![rest0[gi]] + rest0.skip(gi + 1));
                assert(apply_amount_ops(m0, rest0) is None);
            }
            undo_data_log(base, log);
            return Err(e);
        }
        let ghost entry: UndoEntry<Amount> = (
            key,
            if m_before.contains_key(key) {
                Some(m_before[key])
            } else {
                None
            },
        );
        proof {
            assert(prior == entry.1);
            assert(Some(base@) == apply_amount_op(m_before, key, rest0[i as int].1));
        }
        let ghost log_before = log@;
        log.push((key, prior));
        i = i + 1;
        proof {
            let gi = i as int - 1;
            assert(rest@ =~= rest0.skip(i as int));
            lemma_amount_ops_one(m_before, key, rest0[gi].1);
            assert(rest0.take(gi + 1) =~= rest0.take(gi) + seq![rest0[gi]]);
            lemma_apply_amount_ops_app(m0, rest0.take(gi), seq![rest0[gi]]);
            lemma_amount_undo_log_of_app(m0, rest0.take(gi), seq![rest0[gi]]);
            assert(log@ =~= log_before + seq![entry]);
            assert(log@ == amount_undo_log_of(m0, rest0.take(gi + 1)));
            assert(log@.last() == entry);
            assert(log@.drop_last() =~= log_before);
            lemma_undo_log_unsnoc(base@, log@);
            lemma_amount_step_then_undo(m_before, key, rest0[gi].1);
            assert(undo_log(base@, log@) == m0);
        }
    }
    proof {
        assert(rest0.take(n as int) =~= rest0);
    }
    Ok(AmountUndo { log })
}

/// Applies an undo produced by [`merge_amount_delta`].
pub fn undo_amount_delta(base: &mut BTreeMap<u128, Amount>, undo: AmountUndo)
    ensures
        final(base)@ == undo_log(old(base)@, undo.log_seq()),
{
    undo_data_log(base, undo.log);
}

} // verus!
