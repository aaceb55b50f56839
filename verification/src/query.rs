//! The read-only query surface over the accumulated data.
//!
//! Every query is specified against the table rows in insertion order;
//! the serving layer evaluates exactly these predicates over the same
//! durable rows.

use vstd::prelude::*;

use crate::accounting::{
    AccountingList, AccountingListGql, AccountingListV, AccountingOperation, AccountingResult,
    acct_fold, batch_views, gql_of,
};
use crate::batch::{Batch, BatchV, Status, opt_string_view};
use crate::db::DataBase;
use crate::errors::QueryError;

verus! {

/// The flag each batch-list query keys on; a null flag never matches.
#[derive(Clone, Copy, Debug, PartialEq, Eq, Structural)]
pub enum FlagCondition {
    /// The proposal transaction was sent by someone other than the
    /// declared coinbase.
    SentByOthers,
    /// The batch was proved by someone other than its proposer.
    ProvedByOthers,
    /// The batch earned less than it cost.
    Unprofitable,
}

pub open spec fn flag_matches(c: FlagCondition, b: BatchV) -> bool {
    match c {
        FlagCondition::SentByOthers => !b.is_sent_by_proposer,
        FlagCondition::ProvedByOthers => b.is_proved_by_proposer == Some(false),
        FlagCondition::Unprofitable => b.is_profitable == Some(false),
    }
}

pub open spec fn opt_int(o: Option<i64>) -> Option<int> {
    match o {
        Some(v) => Some(v as int),
        None => None,
    }
}

/// The row filter of the batch-list queries: the flag condition plus the
/// optional proposer, sender and proposal-time bounds.
pub open spec fn filter_pred(
    c: FlagCondition,
    proposer: Option<Seq<char>>,
    sender: Option<Seq<char>>,
    start: Option<int>,
    end: Option<int>,
    b: BatchV,
) -> bool {
    &&& flag_matches(c, b)
    &&& match proposer {
        Some(p) => b.proposer == p,
        None => true,
    }
    &&& match sender {
        Some(s) => b.sender == s,
        None => true,
    }
    &&& match start {
        Some(t) => b.proposed_at >= t,
        None => true,
    }
    &&& match end {
        Some(t) => b.proposed_at <= t,
        None => true,
    }
}

/// The rows that pass the filter, in table order.
pub open spec fn filtered(
    rows: Seq<BatchV>,
    c: FlagCondition,
    proposer: Option<Seq<char>>,
    sender: Option<Seq<char>>,
    start: Option<int>,
    end: Option<int>,
) -> Seq<BatchV>
    decreases rows.len(),
{
    if rows.len() == 0 {
        Seq::empty()
    } else {
        let pre = filtered(rows.drop_last(), c, proposer, sender, start, end);
        if filter_pred(c, proposer, sender, start, end, rows.last()) {
            pre.push(rows.last())
        } else {
            pre
        }
    }
}

/// Returns copies of the rows that pass the filter, in table order.
pub fn filter_batches(
    db: &DataBase,
    condition: FlagCondition,
    proposer: Option<String>,
    sender: Option<String>,
    start: Option<i64>,
    end: Option<i64>,
) -> (r: Vec<Batch>)
    requires
        db.wf(),
    ensures
        batch_views(r@) == filtered(
            db@.rows,
            condition,
            opt_string_view(proposer),
            opt_string_view(sender),
            opt_int(start),
            opt_int(end),
        ),
{
    let ghost pv = opt_string_view(proposer);
    let ghost sv = opt_string_view(sender);
    let ghost t0 = opt_int(start);
    let ghost t1 = opt_int(end);
    let mut r: Vec<Batch> = Vec::new();
    let n = db.row_count();
    let mut i: usize = 0;
    while i < n
        invariant
            db.wf(),
            pv == opt_string_view(proposer),
            sv == opt_string_view(sender),
            t0 == opt_int(start),
            t1 == opt_int(end),
            0 <= i <= n == db@.rows.len(),
            batch_views(r@) == filtered(db@.rows.take(i as int), condition, pv, sv, t0, t1),
        decreases n - i,
    {
        let b = db.row_at(i);
        let flag_ok = match condition {
            FlagCondition::SentByOthers => !b.is_sent_by_proposer,
            FlagCondition::ProvedByOthers => match b.is_proved_by_proposer {
                Some(v) => !v,
                None => false,
            },
            FlagCondition::Unprofitable => match b.is_profitable {
                Some(v) => !v,
                None => false,
            },
        };
        let proposer_ok = match &proposer {
            Some(p) => b.proposer == *p,
            None => true,
        };
        let sender_ok = match &sender {
            Some(s) => b.sender == *s,
            None => true,
        };
        let start_ok = match start {
            Some(t) => b.proposed_at >= t,
            None => true,
        };
        let end_ok = match end {
            Some(t) => b.proposed_at <= t,
            None => true,
        };
        proof {
            assert(db@.rows.take(i + 1).drop_last() =~= db@.rows.take(i as int));
            assert(db@.rows.take(i + 1).last() == db@.rows[i as int]);
            assert((flag_ok && proposer_ok && sender_ok && start_ok && end_ok) == filter_pred(
                condition,
                pv,
                sv,
                t0,
                t1,
                db@.rows[i as int],
            ));
        }
        if flag_ok && proposer_ok && sender_ok && start_ok && end_ok {
            r.push(b.clone());
            proof {
                assert(batch_views(r@) =~= filtered(db@.rows.take(i + 1), condition, pv, sv, t0, t1));
            }
        } else {
            proof {
                assert(batch_views(r@) =~= filtered(db@.rows.take(i + 1), condition, pv, sv, t0, t1));
            }
        }
        i = i + 1;
    }
    proof {
        assert(db@.rows.take(n as int) =~= db@.rows);
    }
    r
}

/// The accounting selection: which rows one ledger direction books for
/// an address inside an inclusive batch-id range.
pub open spec fn sel_pred(
    op: AccountingOperation,
    address: Seq<char>,
    from: int,
    to: int,
    b: BatchV,
) -> bool {
    &&& match op {
        AccountingOperation::Debit => b.proposer == address && b.coinbase != address,
        AccountingOperation::Credit => b.proposer != address && b.coinbase == address,
    }
    &&& from <= b.batch_id <= to
}

/// The selected rows, in table order.
pub open spec fn selected(
    rows: Seq<BatchV>,
    op: AccountingOperation,
    address: Seq<char>,
    from: int,
    to: int,
) -> Seq<BatchV>
    decreases rows.len(),
{
    if rows.len() == 0 {
        Seq::empty()
    } else {
        let pre = selected(rows.drop_last(), op, address, from, to);
        if sel_pred(op, address, from, to, rows.last()) {
            pre.push(rows.last())
        } else {
            pre
        }
    }
}

/// Selection distributes over concatenation.
pub proof fn lemma_selected_concat(
    a: Seq<BatchV>,
    b: Seq<BatchV>,
    op: AccountingOperation,
    address: Seq<char>,
    from: int,
    to: int,
)
    ensures
        selected(a + b, op, address, from, to) == selected(a, op, address, from, to) + selected(
            b,
            op,
            address,
            from,
            to,
        ),
    decreases b.len(),
{
    if b.len() == 0 {
        assert(a + b =~= a);
        assert(selected(a, op, address, from, to) + selected(b, op, address, from, to) =~= selected(
            a,
            op,
            address,
            from,
            to,
        ));
    } else {
        lemma_selected_concat(a, b.drop_last(), op, address, from, to);
        assert((a + b).drop_last() =~= a + b.drop_last());
        assert((a + b).last() == b.last());
        if sel_pred(op, address, from, to, b.last()) {
            assert(selected(a, op, address, from, to) + selected(b, op, address, from, to)
                =~= (selected(a, op, address, from, to) + selected(
                b.drop_last(),
                op,
                address,
                from,
                to,
            )).push(b.last()));
        }
    }
}

/// A fold that has already failed stays failed under any extension.
pub proof fn lemma_acct_fold_err_app(
    l0: AccountingListV,
    op: AccountingOperation,
    a: Seq<BatchV>,
    b: Seq<BatchV>,
)
    requires
        acct_fold(l0, op, a) is Err,
    ensures
        acct_fold(l0, op, a + b) == acct_fold(l0, op, a),
    decreases b.len(),
{
    if b.len() == 0 {
        assert(a + b =~= a);
    } else {
        lemma_acct_fold_err_app(l0, op, a, b.drop_last());
        assert((a + b).drop_last() =~= a + b.drop_last());
        assert((a + b).len() > 0);
    }
}

pub open spec fn empty_ledger() -> AccountingListV {
    AccountingListV { total_fee: 0, entries: Seq::empty() }
}

/// Books every selected row of the table into one ledger direction, in
/// table order; the result is exactly the ledger fold over the selected
/// rows.
pub fn get_accounting_list(
    db: &DataBase,
    operation: AccountingOperation,
    address: String,
    from: i64,
    to: i64,
) -> (r: Result<AccountingList, QueryError>)
    requires
        db.wf(),
    ensures
        ({
            let sel = selected(db@.rows, operation, address@, from as int, to as int);
            match r {
                Ok(l) => acct_fold(empty_ledger(), operation, sel) == Ok::<
                    AccountingListV,
                    QueryError,
                >(l@) && l.wf() && crate::accounting::ledger_consistent(l@) && l@.total_fee
                    == crate::accounting::sum_fees(sel),
                Err(e) => acct_fold(empty_ledger(), operation, sel) == Err::<
                    AccountingListV,
                    QueryError,
                >(e),
            }
        }),
{
    let mut list = AccountingList::new();
    proof {
        assert(list@.entries =~= empty_ledger().entries);
        assert(list@ == empty_ledger());
    }
    let n = db.row_count();
    let mut i: usize = 0;
    while i < n
        invariant
            db.wf(),
            list.wf(),
            0 <= i <= n == db@.rows.len(),
            acct_fold(
                empty_ledger(),
                operation,
                selected(db@.rows.take(i as int), operation, address@, from as int, to as int),
            ) == Ok::<AccountingListV, QueryError>(list@),
        decreases n - i,
    {
        let b = db.row_at(i);
        let dir_ok = match operation {
            AccountingOperation::Debit => b.proposer == address && !(b.coinbase == address),
            AccountingOperation::Credit => !(b.proposer == address) && b.coinbase == address,
        };
        let range_ok = from <= b.batch_id && b.batch_id <= to;
        let ghost sel_pre = selected(
            db@.rows.take(i as int),
            operation,
            address@,
            from as int,
            to as int,
        );
        proof {
            assert(db@.rows.take(i + 1).drop_last() =~= db@.rows.take(i as int));
            assert(db@.rows.take(i + 1).last() == db@.rows[i as int]);
            assert((dir_ok && range_ok) == sel_pred(
                operation,
                address@,
                from as int,
                to as int,
                db@.rows[i as int],
            ));
        }
        if dir_ok && range_ok {
            let row = b.clone();
            let add_result = list.add_batch(&operation, row);
            proof {
                assert(selected(db@.rows.take(i + 1), operation, address@, from as int, to as int)
                    == sel_pre.push(db@.rows[i as int]));
                assert(sel_pre.push(db@.rows[i as int]).drop_last() =~= sel_pre);
            }
            match add_result {
                Ok(_) => {},
                Err(e) => {
                    proof {
                        let sel_now = selected(
                            db@.rows.take(i + 1),
                            operation,
                            address@,
                            from as int,
                            to as int,
                        );
                        assert(acct_fold(empty_ledger(), operation, sel_now) == Err::<
                            AccountingListV,
                            QueryError,
                        >(e));
                        assert(db@.rows =~= db@.rows.take(i + 1) + db@.rows.skip(i + 1));
                        lemma_selected_concat(
                            db@.rows.take(i + 1),
                            db@.rows.skip(i + 1),
                            operation,
                            address@,
                            from as int,
                            to as int,
                        );
                        lemma_acct_fold_err_app(
                            empty_ledger(),
                            operation,
                            sel_now,
                            selected(
                                db@.rows.skip(i + 1),
                                operation,
                                address@,
                                from as int,
                                to as int,
                            ),
                        );
                    }
                    return Err(e);
                },
            }
        } else {
            proof {
                assert(selected(db@.rows.take(i + 1), operation, address@, from as int, to as int)
                    == sel_pre);
            }
        }
        i = i + 1;
    }
    proof {
        assert(db@.rows.take(n as int) =~= db@.rows);
        assert(crate::accounting::ledger_consistent(empty_ledger()));
        crate::accounting::lemma_acct_fold_consistent(
            empty_ledger(),
            operation,
            selected(db@.rows, operation, address@, from as int, to as int),
        );
    }
    Ok(list)
}

/// How many rows fall in the inclusive batch-id range.
pub open spec fn count_in_range(rows: Seq<BatchV>, from: int, to: int) -> int
    decreases rows.len(),
{
    if rows.len() == 0 {
        0
    } else {
        count_in_range(rows.drop_last(), from, to) + (if from <= rows.last().batch_id
            && rows.last().batch_id <= to {
            1int
        } else {
            0int
        })
    }
}

pub proof fn lemma_count_in_range_bound(rows: Seq<BatchV>, from: int, to: int)
    ensures
        0 <= count_in_range(rows, from, to) <= rows.len(),
    decreases rows.len(),
{
    if rows.len() > 0 {
        lemma_count_in_range_bound(rows.drop_last(), from, to);
    }
}

/// The read-only query surface.
pub struct QueryRoot;

impl QueryRoot {
    /// The checkpoint row, as the server reports it.
    pub fn status(&self, db: &DataBase) -> (r: Status)
        ensures
            r == db@.status,
    {
        db.get_status()
    }

    /// The greatest batch id proposed at or before the cutoff timestamp,
    /// or nothing if no batch qualifies.
    pub fn latest_batch_before_timestamp(&self, db: &DataBase, timestamp: i64) -> (r: Option<i64>)
        requires
            db.wf(),
        ensures
            match r {
                Some(m) => {
                    &&& exists|i: int|
                        0 <= i < db@.rows.len() && (#[trigger] db@.rows[i]).proposed_at
                            <= timestamp && db@.rows[i].batch_id == m
                    &&& forall|i: int|
                        0 <= i < db@.rows.len() && (#[trigger] db@.rows[i]).proposed_at
                            <= timestamp ==> db@.rows[i].batch_id <= m
                },
                None => forall|i: int|
                    0 <= i < db@.rows.len() ==> (#[trigger] db@.rows[i]).proposed_at > timestamp,
            },
    {
        let mut best: Option<i64> = None;
        let n = db.row_count();
        let mut i: usize = 0;
        while i < n
            invariant
                db.wf(),
                0 <= i <= n == db@.rows.len(),
                match best {
                    Some(m) => {
                        &&& exists|k: int|
                            0 <= k < i && (#[trigger] db@.rows[k]).proposed_at <= timestamp
                                && db@.rows[k].batch_id == m
                        &&& forall|k: int|
                            0 <= k < i && (#[trigger] db@.rows[k]).proposed_at <= timestamp
                                ==> db@.rows[k].batch_id <= m
                    },
                    None => forall|k: int|
                        0 <= k < i ==> (#[trigger] db@.rows[k]).proposed_at > timestamp,
                },
            decreases n - i,
        {
            let b = db.row_at(i);
            if b.proposed_at <= timestamp {
                match best {
                    Some(m) => {
                        if b.batch_id > m {
                            best = Some(b.batch_id);
                        }
                    },
                    None => {
                        best = Some(b.batch_id);
                    },
                }
            }
            i = i + 1;
        }
        best
    }

    /// A copy of the row with this batch id, or nothing.
    pub fn batch_by_id(&self, db: &DataBase, id: i64) -> (r: Option<Batch>)
        requires
            db.wf(),
        ensures
            match r {
                Some(b) => crate::db::has_id(db@.rows, id as int) && b@ == db@.rows[crate::db::idx_of(
                    db@.rows,
                    id as int,
                )],
                None => !crate::db::has_id(db@.rows, id as int),
            },
    {
        db.get_batch_by_id(id)
    }

    /// Batches whose proposal transaction was sent by someone other than
    /// the coinbase, optionally narrowed by proposer, sender and
    /// proposal-time range.
    pub fn sent_by_others(
        &self,
        db: &DataBase,
        proposer: Option<String>,
        sender: Option<String>,
        start: Option<i64>,
        end: Option<i64>,
    ) -> (r: Vec<Batch>)
        requires
            db.wf(),
        ensures
            batch_views(r@) == filtered(
                db@.rows,
                FlagCondition::SentByOthers,
                opt_string_view(proposer),
                opt_string_view(sender),
                opt_int(start),
                opt_int(end),
            ),
    {
        filter_batches(db, FlagCondition::SentByOthers, proposer, sender, start, end)
    }

    /// Batches proved by someone other than their proposer.
    pub fn proved_by_others(
        &self,
        db: &DataBase,
        proposer: Option<String>,
        start: Option<i64>,
        end: Option<i64>,
    ) -> (r: Vec<Batch>)
        requires
            db.wf(),
        ensures
            batch_views(r@) == filtered(
                db@.rows,
                FlagCondition::ProvedByOthers,
                opt_string_view(proposer),
                None,
                opt_int(start),
                opt_int(end),
            ),
    {
        filter_batches(db, FlagCondition::ProvedByOthers, proposer, None, start, end)
    }

    /// Batches that earned less than they cost.
    pub fn unprofitable(
        &self,
        db: &DataBase,
        proposer: Option<String>,
        start: Option<i64>,
        end: Option<i64>,
    ) -> (r: Vec<Batch>)
        requires
            db.wf(),
        ensures
            batch_views(r@) == filtered(
                db@.rows,
                FlagCondition::Unprofitable,
                opt_string_view(proposer),
                None,
                opt_int(start),
                opt_int(end),
            ),
    {
        filter_batches(db, FlagCondition::Unprofitable, proposer, None, start, end)
    }

    /// Both ledger directions of the fee accounting for an address over
    /// an inclusive batch-id range: what others owe it (debit) and what
    /// it owes others (credit).  The bounds must satisfy `from < to`;
    /// the optional integrity check demands that the range is fully
    /// contiguous in the table.
    pub fn accounting(
        &self,
        db: &DataBase,
        address: String,
        from: i64,
        to: i64,
        check_integrity: Option<bool>,
    ) -> (r: Result<AccountingResult, QueryError>)
        requires
            db.wf(),
        ensures
            ({
                let rows = db@.rows;
                let integrity = check_integrity == Some(true);
                let cnt = count_in_range(rows, from as int, to as int);
                let debit_fold = acct_fold(
                    empty_ledger(),
                    AccountingOperation::Debit,
                    selected(rows, AccountingOperation::Debit, address@, from as int, to as int),
                );
                let credit_fold = acct_fold(
                    empty_ledger(),
                    AccountingOperation::Credit,
                    selected(rows, AccountingOperation::Credit, address@, from as int, to as int),
                );
                match r {
                    Ok(res) => {
                        &&& from < to
                        &&& integrity ==> cnt != 0 && cnt == to - from + 1
                        &&& debit_fold is Ok
                        &&& credit_fold is Ok
                        &&& res.debit@ == gql_of(debit_fold.unwrap())
                        &&& res.credit@ == gql_of(credit_fold.unwrap())
                    },
                    Err(e) => e == (if from >= to {
                        QueryError::InvalidRange
                    } else if integrity && cnt == 0 {
                        QueryError::NoBatchesInRange
                    } else if integrity && cnt != to - from + 1 {
                        QueryError::IncompleteRange
                    } else if debit_fold is Err {
                        debit_fold->Err_0
                    } else {
                        credit_fold->Err_0
                    }) && (from >= to || (integrity && (cnt == 0 || cnt != to - from + 1))
                        || debit_fold is Err || credit_fold is Err),
                }
            }),
    {
        if from >= to {
            return Err(QueryError::InvalidRange);
        }
        let run_check = match check_integrity {
            Some(c) => c,
            None => false,
        };
        if run_check {
            let batch_count = self.count_batches_in_range(db, from, to);
            proof {
                lemma_count_in_range_bound(db@.rows, from as int, to as int);
            }
            if batch_count == 0 {
                return Err(QueryError::NoBatchesInRange);
            }
            if batch_count as i128 != to as i128 - from as i128 + 1 {
                return Err(QueryError::IncompleteRange);
            }
        }
        let debit = match get_accounting_list(
            db,
            AccountingOperation::Debit,
            address.clone(),
            from,
            to,
        ) {
            Ok(l) => l,
            Err(e) => {
                return Err(e);
            },
        };
        let credit = match get_accounting_list(db, AccountingOperation::Credit, address, from, to) {
            Ok(l) => l,
            Err(e) => {
                return Err(e);
            },
        };
        Ok(
            AccountingResult {
                debit: AccountingListGql::from(debit),
                credit: AccountingListGql::from(credit),
            },
        )
    }

    /// How many table rows fall in the inclusive batch-id range.
    pub fn count_batches_in_range(&self, db: &DataBase, from: i64, to: i64) -> (r: usize)
        requires
            db.wf(),
        ensures
            r == count_in_range(db@.rows, from as int, to as int),
    {
        let n = db.row_count();
        let mut count: usize = 0;
        let mut i: usize = 0;
        while i < n
            invariant
                db.wf(),
                0 <= i <= n == db@.rows.len(),
                count == count_in_range(db@.rows.take(i as int), from as int, to as int),
                count <= i,
            decreases n - i,
        {
            let b = db.row_at(i);
            proof {
                assert(db@.rows.take(i + 1).drop_last() =~= db@.rows.take(i as int));
                assert(db@.rows.take(i + 1).last() == db@.rows[i as int]);
            }
            if from <= b.batch_id && b.batch_id <= to {
                count = count + 1;
            }
            i = i + 1;
        }
        proof {
            assert(db@.rows.take(n as int) =~= db@.rows);
        }
        count
    }
}

} // verus!
