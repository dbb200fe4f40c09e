//! Generic delta/undo accounting.
//!
//! A ledger is a map from a key to an entry (or to an aggregate amount).  A
//! delta is an ordered log of per-key operations.  Applying a delta to a
//! ledger yields an undo log that records, for every touched key, the exact
//! value the key held before the step; applying the undo log (in reverse
//! order) restores the ledger bit for bit.  This module knows nothing of
//! blockchain semantics: it is the transactional primitive every ledger view
//! is built on.

use std::collections::BTreeMap;
use vstd::prelude::*;


verus! {

broadcast use {vstd::std_specs::btree::group_btree_axioms, vstd::laws_cmp::group_laws_cmp};

/// Errors of the accounting primitives.
#[derive(Clone, Copy, Debug, PartialEq, Eq, Structural)]
pub enum AccountingError {
    /// A `Create` hit a key that already holds a live entry.
    DataCreatedMultipleTimes,
    /// A `Modify` hit a key without a live entry (for instance after a
    /// `Delete` earlier in the same delta).
    ModifyNonexistingData,
    /// A `Delete` hit a key without a live entry.
    RemoveNonexistingData,
    /// An aggregate amount left the representable range from above.
    ArithmeticOverflow,
    /// An aggregate amount would have become negative.
    ArithmeticUnderflow,
}

/// One change to the entry of one key.
#[derive(Clone, Debug, PartialEq, Eq)]
pub enum DataDelta<V> {
    /// Create a live entry; the key must not hold one.
    Create(V),
    /// Replace the live entry; the key must hold one.
    Modify(V),
    /// Remove the live entry; the key must hold one.
    Delete,
}

/// An ordered log of entry changes, applied first to last.
#[derive(Clone, Debug, PartialEq, Eq)]
pub struct DeltaDataCollection<V> {
    pub ops: Vec<(u128, DataDelta<V>)>,
}

/// One record of an undo log: the exact entry (or absence) a key held
/// before the step that produced the record.
pub type UndoEntry<V> = (u128, Option<V>);

/// The undo log of one delta application, applied last record first.
#[derive(Clone, Debug, PartialEq, Eq)]
pub struct DataUndo<V> {
    pub log: Vec<UndoEntry<V>>,
}

/// The effect of one entry change on a ledger map, or `None` when the
/// change breaks the rules of the framework.
pub open spec fn apply_op<V>(m: Map<u128, V>, k: u128, d: DataDelta<V>) -> Option<Map<u128, V>> {
    match d {
        DataDelta::Create(v) => if m.contains_key(k) {
            None
        } else {
            Some(m.insert(k, v))
        },
        DataDelta::Modify(v) => if m.contains_key(k) {
            Some(m.insert(k, v))
        } else {
            None
        },
        DataDelta::Delete => if m.contains_key(k) {
            Some(m.remove(k))
        } else {
            None
        },
    }
}

/// The effect of a whole delta, or `None` when any step breaks the rules.
pub open spec fn apply_ops<V>(m: Map<u128, V>, ops: Seq<(u128, DataDelta<V>)>) -> Option<
    Map<u128, V>,
>
    decreases ops.len(),
{
    if ops.len() == 0 {
        Some(m)
    } else {
        match apply_op(m, ops[0].0, ops[0].1) {
            Some(m1) => apply_ops(m1, ops.drop_first()),
            None => None,
        }
    }
}

/// The undo log that applying `ops` to `m` records: for each step, the
/// value its key held just before the step.
pub open spec fn undo_log_of<V>(m: Map<u128, V>, ops: Seq<(u128, DataDelta<V>)>) -> Seq<
    UndoEntry<V>,
>
    decreases ops.len(),
{
    if ops.len() == 0 {
        Seq::empty()
    } else {
        let k = ops[0].0;
        let head: UndoEntry<V> = (
            k,
            if m.contains_key(k) {
                Some(m[k])
            } else {
                None
            },
        );
        match apply_op(m, k, ops[0].1) {
            Some(m1) => seq![head] + undo_log_of(m1, ops.drop_first()),
            None => seq![head],
        }
    }
}

/// Restoring one undo record: put the recorded entry (or absence) back.
pub open spec fn undo_entry<V>(m: Map<u128, V>, e: UndoEntry<V>) -> Map<u128, V> {
    match e.1 {
        Some(v) => m.insert(e.0, v),
        None => m.remove(e.0),
    }
}

/// Restoring a whole undo log: records are put back last to first.
pub open spec fn undo_log<V>(m: Map<u128, V>, log: Seq<UndoEntry<V>>) -> Map<u128, V>
    decreases log.len(),
{
    if log.len() == 0 {
        m
    } else {
        undo_entry(undo_log(m, log.drop_first()), log[0])
    }
}

/// Peeling the last record of an undo log first is the same as peeling it
/// last: both walk the log back to front.
pub proof fn lemma_undo_log_unsnoc<V>(m: Map<u128, V>, log: Seq<UndoEntry<V>>)
    requires
        log.len() > 0,
    ensures
        undo_log(m, log) == undo_log(undo_entry(m, log.last()), log.drop_last()),
    decreases log.len(),
{
    if log.len() == 1 {
        assert(log.drop_first() =~= Seq::<UndoEntry<V>>::empty());
        assert(log.drop_last() =~= Seq::<UndoEntry<V>>::empty());
        assert(undo_log(m, log) == undo_entry(undo_log(m, log.drop_first()), log[0]));
        assert(undo_log(m, log.drop_first()) == m);
        assert(undo_log(undo_entry(m, log.last()), log.drop_last()) == undo_entry(m, log.last()));
        assert(log[0] == log.last());
    } else {
        lemma_undo_log_unsnoc(m, log.drop_first());
        assert(log.drop_first().last() == log.last());
        assert(log.drop_first().drop_last() =~= log.drop_last().drop_first());
        assert(log.drop_last()[0] == log[0]);
        assert(undo_log(m, log) == undo_entry(undo_log(m, log.drop_first()), log[0]));
        assert(undo_log(undo_entry(m, log.last()), log.drop_last()) == undo_entry(
            undo_log(undo_entry(m, log.last()), log.drop_last().drop_first()),
            log.drop_last()[0],
        ));
    }
}

/// One step and its undo record cancel exactly.
proof fn lemma_step_then_undo<V>(m: Map<u128, V>, k: u128, d: DataDelta<V>)
    requires
        apply_op(m, k, d) is Some,
    ensures
        undo_entry(
            apply_op(m, k, d).unwrap(),
            (
                k,
                if m.contains_key(k) {
                    Some(m[k])
                } else {
                    None
                },
            ),
        ) == m,
{
    let m1 = apply_op(m, k, d).unwrap();
    if m.contains_key(k) {
        assert(undo_entry(m1, (k, Some(m[k]))) =~= m);
    } else {
        assert(undo_entry(m1, (k, None::<V>)) =~= m);
    }
}

/// Undo exactness: for every ledger state and every delta the state
/// accepts, restoring the recorded undo log returns the state exactly.
pub proof fn lemma_merge_then_undo<V>(m: Map<u128, V>, ops: Seq<(u128, DataDelta<V>)>)
    requires
        apply_ops(m, ops) is Some,
    ensures
        undo_log(apply_ops(m, ops).unwrap(), undo_log_of(m, ops)) == m,
    decreases ops.len(),
{
    if ops.len() == 0 {
    } else {
        let k = ops[0].0;
        let m1 = apply_op(m, k, ops[0].1).unwrap();
        lemma_merge_then_undo(m1, ops.drop_first());
        let log = undo_log_of(m, ops);
        assert(log.drop_first() =~= undo_log_of(m1, ops.drop_first()));
        lemma_step_then_undo(m, k, ops[0].1);
    }
}

impl<V> DeltaDataCollection<V> {
    pub open spec fn ops_seq(self) -> Seq<(u128, DataDelta<V>)> {
        self.ops@
    }

    /// An empty delta.
    pub fn new() -> (r: DeltaDataCollection<V>)
        ensures
            r.ops_seq() == Seq::<(u128, DataDelta<V>)>::empty(),
    {
        DeltaDataCollection { ops: Vec::new() }
    }

    /// Records one more change at the end of the delta.
    pub fn push_op(&mut self, key: u128, delta: DataDelta<V>)
        ensures
            final(self).ops_seq() == old(self).ops_seq().push((key, delta)),
    {
        self.ops.push((key, delta));
    }

    /// The number of recorded changes.
    pub fn len(&self) -> (r: usize)
        ensures
            r == self.ops_seq().len(),
    {
        self.ops.len()
    }

    /// Appends every change of `other`, in order, to this delta; the merge
    /// is undone exactly by truncating back to the returned former length.
    pub fn merge_with_delta(&mut self, other: DeltaDataCollection<V>) -> (r: usize)
        ensures
            final(self).ops_seq() == old(self).ops_seq() + other.ops_seq(),
            r == old(self).ops_seq().len(),
    {
        let former_len = self.ops.len();
        let mut rest = other.ops;
        let n = rest.len();
        let mut i: usize = 0;
        let ghost rest0 = rest@;
        while i < n
            invariant
                i <= n,
                n == rest0.len(),
                rest@ == rest0.skip(i as int),
                self.ops@ == old(self).ops@ + rest0.take(i as int),
            decreases n - i,
        {
            let op = rest.remove(0);
            assert(rest0.skip(i as int)[0] == rest0[i as int]);
            self.ops.push(op);
            i = i + 1;
            proof {
                assert(rest@ =~= rest0.skip(i as int));
                assert(rest0.take(i as int) =~= rest0.take(i - 1).push(rest0[i - 1]));
            }
        }
        proof {
            assert(rest0.take(n as int) =~= rest0);
        }
        former_len
    }

    /// Undoes a merge by dropping every change appended since the delta
    /// had `former_len` changes.
    pub fn truncate_to(&mut self, former_len: usize)
        requires
            former_len <= old(self).ops_seq().len(),
        ensures
            final(self).ops_seq() == old(self).ops_seq().take(former_len as int),
    {
        self.ops.truncate(former_len);
    }
}

impl<V> DataUndo<V> {
    pub open spec fn log_seq(self) -> Seq<UndoEntry<V>> {
        self.log@
    }
}

/// Applies a delta to a ledger map.  On success the returned undo log
/// restores the map exactly; on any broken rule the map is first restored
/// and the error of the offending step is returned.
pub fn merge_data_delta<V>(base: &mut BTreeMap<u128, V>, delta: DeltaDataCollection<V>) -> (r:
    Result<DataUndo<V>, AccountingError>)
    ensures
        match r {
            Ok(u) => {
                &&& Some(final(base)@) == apply_ops(old(base)@, delta.ops_seq())
                &&& u.log_seq() == undo_log_of(old(base)@, delta.ops_seq())
                &&& undo_log(final(base)@, u.log_seq()) == old(base)@
            },
            Err(_) => {
                &&& final(base)@ == old(base)@
                &&& apply_ops(old(base)@, delta.ops_seq()) is None
            },
        },
{
    let ghost m0 = base@;
    let ghost ops = delta.ops_seq();
    let mut rest = delta.ops;
    let n = rest.len();
    let ghost rest0 = rest@;
    let mut log: Vec<UndoEntry<V>> = Vec::new();
    let mut i: usize = 0;
    let mut failed: Option<AccountingError> = None;
    while i < n
        invariant
            i <= n,
            n == rest0.len(),
            rest@ == rest0.skip(i as int),
            m0 == old(base)@,
            rest0 == delta.ops_seq(),
            failed is None,
            apply_ops(m0, rest0.take(i as int)) == Some(base@),
            log@ == undo_log_of(m0, rest0.take(i as int)),
            undo_log(base@, log@) == m0,
        decreases n - i,
    {
        let (key, op) = rest.remove(0);
        assert(rest0.skip(i as int)[0] == rest0[i as int]);
        let ghost m_before = base@;
        let prior: Option<V> = match op {
            DataDelta::Create(v) => {
                if base.contains_key(&key) {
                    failed = Some(AccountingError::DataCreatedMultipleTimes);
                    None
                } else {
                    base.insert(key, v)
                }
            },
            DataDelta::Modify(v) => {
                if base.contains_key(&key) {
                    base.insert(key, v)
                } else {
                    failed = Some(AccountingError::ModifyNonexistingData);
                    None
                }
            },
            DataDelta::Delete => {
                if base.contains_key(&key) {
                    base.remove(&key)
                } else {
                    failed = Some(AccountingError::RemoveNonexistingData);
                    None
                }
            },
        };
        if let Some(e) = failed {
            proof {
                let gi = i as int;
                assert(apply_op(m_before, rest0[gi].0, rest0[gi].1) is None);
                lemma_ops_one(m_before, rest0[gi].0, rest0[gi].1);
                assert(rest0 =~= rest0.take(gi) + (seq![rest0[gi]] + rest0.skip(gi + 1)));
                lemma_apply_ops_app(m_before, seq![rest0[gi]], rest0.skip(gi + 1));
                lemma_apply_ops_app(m0, rest0.take(gi), seq![rest0[gi]] + rest0.skip(gi + 1));
                assert(apply_ops(m0, rest0) is None);
            }
            undo_data_log(base, log);
            return Err(e);
        }
        let ghost entry: UndoEntry<V> = (
            key,
            if m_before.contains_key(key) {
                Some(m_before[key])
            } else {
                None
            },
        );
        proof {
            assert(prior == entry.1);
            assert(Some(base@) == apply_op(m_before, key, rest0[i as int].1));
        }
        let ghost log_before = log@;
        log.push((key, prior));
        i = i + 1;
        proof {
            let gi = i as int - 1;
            assert(rest@ =~= rest0.skip(i as int));
            lemma_ops_one(m_before, key, rest0[gi].1);
            assert(rest0.take(gi + 1) =~= rest0.take(gi) + seq![rest0[gi]]);
            lemma_apply_ops_app(m0, rest0.take(gi), seq![rest0[gi]]);
            lemma_undo_log_of_app(m0, rest0.take(gi), seq![rest0[gi]]);
            assert(log@ =~= log_before + seq![entry]);
            assert(log@ == undo_log_of(m0, rest0.take(gi + 1)));
            assert(log@.last() == entry);
            assert(log@.drop_last() =~= log_before);
            lemma_undo_log_unsnoc(base@, log@);
            lemma_step_then_undo(m_before, key, rest0[gi].1);
            assert(undo_log(base@, log@) == m0);
        }
    }
    proof {
        assert(rest0.take(n as int) =~= rest0);
    }
    Ok(DataUndo { log })
}

/// Applying a concatenation is applying the parts in order.
proof fn lemma_apply_ops_app<V>(
    m: Map<u128, V>,
    a: Seq<(u128, DataDelta<V>)>,
    b: Seq<(u128, DataDelta<V>)>,
)
    ensures
        apply_ops(m, a + b) == (match apply_ops(m, a) {
            Some(m1) => apply_ops(m1, b),
            None => None,
        }),
    decreases a.len(),
{
    if a.len() == 0 {
        assert(a + b =~= b);
    } else {
        assert((a + b)[0] == a[0]);
        match apply_op(m, a[0].0, a[0].1) {
            Some(m1) => {
                assert((a + b).drop_first() =~= a.drop_first() + b);
                lemma_apply_ops_app(m1, a.drop_first(), b);
            },
            None => {},
        }
    }
}

/// The undo log of a concatenation is the concatenation of the undo logs.
proof fn lemma_undo_log_of_app<V>(
    m: Map<u128, V>,
    a: Seq<(u128, DataDelta<V>)>,
    b: Seq<(u128, DataDelta<V>)>,
)
    requires
        apply_ops(m, a) is Some,
    ensures
        undo_log_of(m, a + b) == undo_log_of(m, a) + undo_log_of(apply_ops(m, a).unwrap(), b),
    decreases a.len(),
{
    if a.len() == 0 {
        assert(a + b =~= b);
        assert(undo_log_of(m, a) + undo_log_of(m, b) =~= undo_log_of(m, b));
    } else {
        assert((a + b)[0] == a[0]);
        let m1 = apply_op(m, a[0].0, a[0].1).unwrap();
        assert((a + b).drop_first() =~= a.drop_first() + b);
        lemma_apply_ops_app(m1, a.drop_first(), b);
        lemma_undo_log_of_app(m1, a.drop_first(), b);
        assert(apply_ops(m, a).unwrap() == apply_ops(m1, a.drop_first()).unwrap());
        assert(undo_log_of(m, a + b) =~= undo_log_of(m, a) + undo_log_of(
            apply_ops(m, a).unwrap(),
            b,
        ));
    }
}

/// A one-step delta acts as its one step does.
proof fn lemma_ops_one<V>(m: Map<u128, V>, k: u128, d: DataDelta<V>)
    ensures
        apply_ops(m, seq![(k, d)]) == apply_op(m, k, d),
        apply_op(m, k, d) is Some ==> undo_log_of(m, seq![(k, d)]) == seq![
            (
                k,
                if m.contains_key(k) {
                    Some(m[k])
                } else {
                    None
                },
            ),
        ],
{
    let s = seq![(k, d)];
    assert(s[0] == (k, d));
    assert(s.drop_first() =~= Seq::<(u128, DataDelta<V>)>::empty());
    match apply_op(m, k, d) {
        Some(m1) => {
            assert(apply_ops(m1, s.drop_first()) == Some(m1));
            assert(undo_log_of(m1, s.drop_first()) =~= Seq::<UndoEntry<V>>::empty());
            assert(undo_log_of(m, s) =~= seq![
                (
                    k,
                    if m.contains_key(k) {
                        Some(m[k])
                    } else {
                        None
                    },
                ),
            ]);
        },
        None => {},
    }
}

/// Restores a ledger map from an undo log, last record first.
pub fn undo_data_log<V>(base: &mut BTreeMap<u128, V>, undo: Vec<UndoEntry<V>>)
    ensures
        final(base)@ == undo_log(old(base)@, undo@),
{
    let ghost m0 = base@;
    let ghost log0 = undo@;
    let mut log = undo;
    while log.len() > 0
        invariant
            log@.len() <= log0.len(),
            log@ == log0.take(log@.len() as int),
            undo_log(base@, log@) == undo_log(m0, log0),
        decreases log@.len(),
    {
        let ghost before = base@;
        let ghost i = log@.len() - 1;
        let (key, prior) = log.pop().unwrap();
        match prior {
            Some(v) => {
                base.insert(key, v);
            },
            None => {
                base.remove(&key);
            },
        }
        proof {
            assert(log0.take(i + 1).last() == log0[i]);
            assert(log0.take(i + 1).drop_last() =~= log0.take(i));
            assert(log@ =~= log0.take(i));
            lemma_undo_log_unsnoc(before, log0.take(i + 1));
            assert(base@ == undo_entry(before, log0[i]));
        }
    }
    proof {
        assert(log0.take(0) =~= Seq::<UndoEntry<V>>::empty());
    }
}

/// A single recorded edit and its record cancel exactly: restoring the
/// prior value of the one key an edit touched returns the map it edited.
pub proof fn lemma_single_edit_undo<V>(
    m1: Map<u128, V>,
    m2: Map<u128, V>,
    k: u128,
    prior: Option<V>,
)
    requires
        prior == (if m1.contains_key(k) {
            Some(m1[k])
        } else {
            None
        }),
        forall|k2: u128|
            k2 != k ==> (#[trigger] m2.contains_key(k2) <==> m1.contains_key(k2)) && (
            m2.contains_key(k2) ==> m2[k2] == m1[k2]),
    ensures
        undo_entry(m2, (k, prior)) == m1,
{
    match prior {
        Some(v) => {
            assert(m2.insert(k, v) =~= m1);
        },
        None => {
            assert(m2.remove(k) =~= m1);
        },
    }
}

/// Applies an undo produced by [`merge_data_delta`].
pub fn undo_data_delta<V>(base: &mut BTreeMap<u128, V>, undo: DataUndo<V>)
    ensures
        final(base)@ == undo_log(old(base)@, undo.log_seq()),
{
    undo_data_log(base, undo.log);
}

} // verus!
