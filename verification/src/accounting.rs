//! Debit/credit aggregation of proposal fees.
//!
//! Fees are summed per counterparty address in the unsigned wide width,
//! never floating point, and rendered as fixed 18-fractional-digit
//! decimal strings only at the presentation boundary.  The accumulator
//! is 128 bits wide — far beyond any realisable sum of chain fees — and
//! a sum that would leave it is reported as an overflow error, never
//! wrapped or truncated.

use vstd::prelude::*;

use crate::batch::{Batch, BatchV};
use crate::decimal::{all_digits, dec_of, pad_of, parse_u128, push_dec, push_dec_padded, val_of};
use crate::errors::QueryError;
use vstd::string::StringExecFns;

verus! {

pub const E18: u128 = 1000000000000000000;

/// A wei amount rendered as an ETH string: the integer part, a dot, the
/// 18 zero-padded fractional digits, and the unit.
pub open spec fn eth_of(n: nat) -> Seq<char> {
    dec_of(n / (E18 as nat)) + seq!['.'] + pad_of(n % (E18 as nat), 18) + " ETH"@
}

/// Renders a wei amount with a fixed 18-digit fractional part.
pub fn wei_to_eth_string(wei: &u128) -> (r: String)
    ensures
        r@ == eth_of(*wei as nat),
{
    let hi = *wei / E18;
    let lo = *wei % E18;
    let mut s = String::new();
    push_dec(&mut s, hi);
    proof {
        reveal_strlit(".");
        assert("."@ =~= seq!['.']);
    }
    s.append(".");
    push_dec_padded(&mut s, lo, 18);
    proof {
        reveal_strlit(" ETH");
    }
    s.append(" ETH");
    proof {
        assert(s@ =~= eth_of(*wei as nat));
    }
    s
}

pub open spec fn batch_views(s: Seq<Batch>) -> Seq<BatchV> {
    Seq::new(s.len(), |i: int| s[i]@)
}

/// The two directions of the fee ledger.
#[derive(Clone, Copy, Debug, PartialEq, Eq, Structural)]
pub enum AccountingOperation {
    /// Fees this side paid while proposing batches for other teams;
    /// keyed by the coinbase.
    Debit,
    /// Fees other teams paid while proposing batches for this side;
    /// keyed by the proposer.
    Credit,
}

/// The ledger key a batch is booked under.
pub open spec fn acct_key(op: AccountingOperation, b: BatchV) -> Seq<char> {
    match op {
        AccountingOperation::Debit => b.coinbase,
        AccountingOperation::Credit => b.proposer,
    }
}

/// One address's share of the ledger.
pub struct AddressInfo {
    pub total_fee: u128,
    pub batches: Vec<Batch>,
}

pub ghost struct AddressInfoV {
    pub total_fee: int,
    pub batches: Seq<BatchV>,
}

impl View for AddressInfo {
    type V = AddressInfoV;

    open spec fn view(&self) -> AddressInfoV {
        AddressInfoV { total_fee: self.total_fee as int, batches: batch_views(self.batches@) }
    }
}

impl AddressInfo {
    /// An empty share: zero fee, no batches.
    pub fn new() -> (r: Self)
        ensures
            r@.total_fee == 0,
            r@.batches.len() == 0,
    {
        let r = AddressInfo { total_fee: 0, batches: Vec::new() };
        proof {
            assert(r@.batches =~= Seq::<BatchV>::empty());
        }
        r
    }

    /// Books one batch and its fee.  Fails, unchanged, exactly when the
    /// accumulated fee would leave the wide width.
    pub fn add_batch(&mut self, fee: u128, batch: Batch) -> (r: Result<(), QueryError>)
        ensures
            if old(self)@.total_fee + fee <= u128::MAX {
                &&& r is Ok
                &&& final(self)@.total_fee == old(self)@.total_fee + fee
                &&& final(self)@.batches == old(self)@.batches.push(batch@)
            } else {
                &&& r == Err::<(), QueryError>(QueryError::FeeOverflow)
                &&& *final(self) == *old(self)
            },
    {
        let ghost bv = batch@;
        match self.total_fee.checked_add(fee) {
            Some(v) => {
                self.total_fee = v;
                self.batches.push(batch);
                proof {
                    assert(self@.batches =~= old(self)@.batches.push(bv));
                }
                Ok(())
            },
            None => Err(QueryError::FeeOverflow),
        }
    }
}

/// One keyed row of the ledger.
pub struct AddressEntry {
    pub address: String,
    pub info: AddressInfo,
}

pub ghost struct AddressEntryV {
    pub address: Seq<char>,
    pub info: AddressInfoV,
}

impl View for AddressEntry {
    type V = AddressEntryV;

    open spec fn view(&self) -> AddressEntryV {
        AddressEntryV { address: self.address@, info: self.info@ }
    }
}

pub open spec fn entry_views(s: Seq<AddressEntry>) -> Seq<AddressEntryV> {
    Seq::new(s.len(), |i: int| s[i]@)
}

pub open spec fn has_key(entries: Seq<AddressEntryV>, key: Seq<char>) -> bool {
    exists|i: int| 0 <= i < entries.len() && (#[trigger] entries[i]).address == key
}

pub open spec fn key_idx(entries: Seq<AddressEntryV>, key: Seq<char>) -> int {
    choose|i: int| 0 <= i < entries.len() && (#[trigger] entries[i]).address == key
}

/// One direction of the ledger: the grand total and the per-address
/// rows, in order of first appearance.
pub struct AccountingList {
    pub total_fee: u128,
    pub addresses: Vec<AddressEntry>,
}

pub ghost struct AccountingListV {
    pub total_fee: int,
    pub entries: Seq<AddressEntryV>,
}

impl View for AccountingList {
    type V = AccountingListV;

    open spec fn view(&self) -> AccountingListV {
        AccountingListV { total_fee: self.total_fee as int, entries: entry_views(self.addresses@) }
    }
}

/// One batch folded into a ledger: its stored fee is parsed, both the
/// grand total and its address's row grow by it, and the batch joins
/// that row.  A malformed fee or an accumulator overflow fails, leaving
/// the ledger unchanged.
pub open spec fn acct_step(
    l: AccountingListV,
    op: AccountingOperation,
    b: BatchV,
) -> Result<AccountingListV, QueryError> {
    if !(b.propose_fee.len() > 0 && all_digits(b.propose_fee)) {
        Err(QueryError::FeeParse)
    } else if val_of(b.propose_fee) > u128::MAX {
        Err(QueryError::FeeOverflow)
    } else {
        let fee = val_of(b.propose_fee) as int;
        let key = acct_key(op, b);
        if l.total_fee + fee > u128::MAX {
            Err(QueryError::FeeOverflow)
        } else if has_key(l.entries, key) {
            let j = key_idx(l.entries, key);
            let e = l.entries[j];
            if e.info.total_fee + fee > u128::MAX {
                Err(QueryError::FeeOverflow)
            } else {
                Ok(
                    AccountingListV {
                        total_fee: l.total_fee + fee,
                        entries: l.entries.update(
                            j,
                            AddressEntryV {
                                address: e.address,
                                info: AddressInfoV {
                                    total_fee: e.info.total_fee + fee,
                                    batches: e.info.batches.push(b),
                                },
                            },
                        ),
                    },
                )
            }
        } else {
            Ok(
                AccountingListV {
                    total_fee: l.total_fee + fee,
                    entries: l.entries.push(
                        AddressEntryV {
                            address: key,
                            info: AddressInfoV { total_fee: fee, batches: seq![b] },
                        },
                    ),
                },
            )
        }
    }
}

/// A whole batch sequence folded into a ledger; the first failure
/// aborts the fold.
pub open spec fn acct_fold(
    l0: AccountingListV,
    op: AccountingOperation,
    s: Seq<BatchV>,
) -> Result<AccountingListV, QueryError>
    decreases s.len(),
{
    if s.len() == 0 {
        Ok(l0)
    } else {
        match acct_fold(l0, op, s.drop_last()) {
            Ok(l) => acct_step(l, op, s.last()),
            Err(e) => Err(e),
        }
    }
}

impl AccountingList {
    /// Ledger keys are unique: one row per address.
    pub open spec fn wf(self) -> bool {
        forall|i: int, j: int|
            0 <= i < j < self@.entries.len() ==> (#[trigger] self@.entries[i]).address != (
            #[trigger] self@.entries[j]).address
    }

    /// The empty ledger.
    pub fn new() -> (r: Self)
        ensures
            r.wf(),
            r@.total_fee == 0,
            r@.entries.len() == 0,
    {
        let r = AccountingList { total_fee: 0, addresses: Vec::new() };
        proof {
            assert(r@.entries =~= Seq::<AddressEntryV>::empty());
        }
        r
    }

    /// Books one batch under the key the operation selects, as the
    /// ledger fold says; on failure the ledger is unchanged.
    pub fn add_batch(&mut self, operation: &AccountingOperation, batch: Batch) -> (r: Result<
        (),
        QueryError,
    >)
        requires
            old(self).wf(),
        ensures
            final(self).wf(),
            match acct_step(old(self)@, *operation, batch@) {
                Ok(l) => r is Ok && final(self)@ == l,
                Err(e) => r == Err::<(), QueryError>(e) && *final(self) == *old(self),
            },
    {
        let ghost bv = batch@;
        let fee = match parse_u128(batch.propose_fee.as_str()) {
            Ok(v) => v,
            Err(e) => {
                return Err(e);
            },
        };
        let new_total = match self.total_fee.checked_add(fee) {
            Some(v) => v,
            None => {
                return Err(QueryError::FeeOverflow);
            },
        };
        let key = match operation {
            AccountingOperation::Debit => batch.coinbase.clone(),
            AccountingOperation::Credit => batch.proposer.clone(),
        };
        let n = self.addresses.len();
        let mut i: usize = 0;
        while i < n
            invariant
                old(self).wf(),
                *self == *old(self),
                bv == batch@,
                key@ == acct_key(*operation, bv),
                bv.propose_fee.len() > 0,
                all_digits(bv.propose_fee),
                fee as nat == val_of(bv.propose_fee),
                old(self)@.total_fee + fee <= u128::MAX,
                new_total == old(self)@.total_fee + fee,
                0 <= i <= n == self@.entries.len(),
                forall|k: int| 0 <= k < i ==> (#[trigger] self@.entries[k]).address != key@,
            decreases n - i,
        {
            if self.addresses[i].address == key {
                assert(self@.entries[i as int].address == key@);
                assert(key_idx(self@.entries, key@) == i) by {
                    let j = key_idx(self@.entries, key@);
                    assert(0 <= j < self@.entries.len() && self@.entries[j].address == key@);
                }
                match self.addresses[i].info.total_fee.checked_add(fee) {
                    Some(_) => {},
                    None => {
                        return Err(QueryError::FeeOverflow);
                    },
                }
                self.total_fee = new_total;
                let mut e = self.addresses.remove(i);
                let add_result = e.info.add_batch(fee, batch);
                match add_result {
                    Ok(_) => {},
                    Err(_) => {
                        proof {
                            assert(false);
                        }
                    },
                }
                self.addresses.insert(i, e);
                proof {
                    let stepped = acct_step(old(self)@, *operation, bv);
                    assert(self@.entries =~= stepped.unwrap().entries);
                    assert(self@ == stepped.unwrap());
                }
                return Ok(());
            }
            i = i + 1;
        }
        self.total_fee = new_total;
        let mut info = AddressInfo::new();
        let add_result = info.add_batch(fee, batch);
        match add_result {
            Ok(_) => {},
            Err(_) => {
                proof {
                    assert(false);
                }
            },
        }
        self.addresses.push(AddressEntry { address: key, info });
        proof {
            let stepped = acct_step(old(self)@, *operation, bv);
            assert(info@.batches =~= seq![bv]);
            assert(self@.entries =~= stepped.unwrap().entries);
            assert(self@ == stepped.unwrap());
        }
        Ok(())
    }
}

/// The sum of the stored proposal fees of a batch sequence.
pub open spec fn sum_fees(s: Seq<BatchV>) -> int
    decreases s.len(),
{
    if s.len() == 0 {
        0
    } else {
        sum_fees(s.drop_last()) + val_of(s.last().propose_fee)
    }
}

/// The sum of the per-address totals of a ledger.
pub open spec fn sum_entry_totals(es: Seq<AddressEntryV>) -> int
    decreases es.len(),
{
    if es.len() == 0 {
        0
    } else {
        sum_entry_totals(es.drop_last()) + es.last().info.total_fee
    }
}

/// The numeric invariant of a ledger: the grand total is the sum of the
/// per-address totals, and each per-address total the sum of the fees of
/// the batches booked under it.
pub open spec fn ledger_consistent(l: AccountingListV) -> bool {
    &&& l.total_fee == sum_entry_totals(l.entries)
    &&& forall|i: int|
        0 <= i < l.entries.len() ==> (#[trigger] l.entries[i]).info.total_fee == sum_fees(
            l.entries[i].info.batches,
        )
}

pub proof fn lemma_sum_entry_totals_update(es: Seq<AddressEntryV>, j: int, e: AddressEntryV)
    requires
        0 <= j < es.len(),
    ensures
        sum_entry_totals(es.update(j, e)) == sum_entry_totals(es) - es[j].info.total_fee
            + e.info.total_fee,
    decreases es.len(),
{
    let up = es.update(j, e);
    if j == es.len() - 1 {
        assert(up.drop_last() =~= es.drop_last());
        assert(up.last() == e);
    } else {
        assert(up.drop_last() =~= es.drop_last().update(j, e));
        assert(up.last() == es.last());
        lemma_sum_entry_totals_update(es.drop_last(), j, e);
    }
}

/// One booking keeps the ledger numerically consistent.
pub proof fn lemma_acct_step_consistent(l: AccountingListV, op: AccountingOperation, b: BatchV)
    requires
        ledger_consistent(l),
        acct_step(l, op, b) is Ok,
    ensures
        ledger_consistent(acct_step(l, op, b).unwrap()),
        acct_step(l, op, b).unwrap().total_fee == l.total_fee + val_of(b.propose_fee),
{
    let fee = val_of(b.propose_fee) as int;
    let key = acct_key(op, b);
    let l2 = acct_step(l, op, b).unwrap();
    if has_key(l.entries, key) {
        let j = key_idx(l.entries, key);
        let e = l.entries[j];
        let e2 = AddressEntryV {
            address: e.address,
            info: AddressInfoV {
                total_fee: e.info.total_fee + fee,
                batches: e.info.batches.push(b),
            },
        };
        lemma_sum_entry_totals_update(l.entries, j, e2);
        assert(e2.info.batches.drop_last() =~= e.info.batches);
        assert forall|i: int| 0 <= i < l2.entries.len() implies (
        #[trigger] l2.entries[i]).info.total_fee == sum_fees(l2.entries[i].info.batches) by {
            if i != j {
                assert(l2.entries[i] == l.entries[i]);
            }
        }
    } else {
        let e2 = AddressEntryV {
            address: key,
            info: AddressInfoV { total_fee: fee, batches: seq![b] },
        };
        assert(l2.entries.drop_last() =~= l.entries);
        assert(l2.entries.last() == e2);
        assert(seq![b].drop_last() =~= Seq::<BatchV>::empty());
        assert(sum_fees(seq![b].drop_last()) == 0);
        assert(sum_fees(seq![b]) == val_of(b.propose_fee));
        assert forall|i: int| 0 <= i < l2.entries.len() implies (
        #[trigger] l2.entries[i]).info.total_fee == sum_fees(l2.entries[i].info.batches) by {
            if i < l.entries.len() {
                assert(l2.entries[i] == l.entries[i]);
            } else {
                assert(l2.entries[i] == e2);
            }
        }
    }
}

/// The aggregation contract of the ledger fold: fees accumulate in the
/// unsigned wide width, the grand total is exactly the sum of the booked
/// batches' stored fees, and the per-address breakdown accounts for
/// every wei of it.
pub proof fn lemma_acct_fold_consistent(
    l0: AccountingListV,
    op: AccountingOperation,
    s: Seq<BatchV>,
)
    requires
        ledger_consistent(l0),
        acct_fold(l0, op, s) is Ok,
    ensures
        ledger_consistent(acct_fold(l0, op, s).unwrap()),
        acct_fold(l0, op, s).unwrap().total_fee == l0.total_fee + sum_fees(s),
    decreases s.len(),
{
    if s.len() > 0 {
        lemma_acct_fold_consistent(l0, op, s.drop_last());
        lemma_acct_step_consistent(acct_fold(l0, op, s.drop_last()).unwrap(), op, s.last());
    }
}

/// One address's share, rendered for the query surface.
pub struct AddressInfoGql {
    pub address: String,
    pub total_fee: String,
    pub batches: Vec<Batch>,
}

pub ghost struct AddressInfoGqlV {
    pub address: Seq<char>,
    pub total_fee: Seq<char>,
    pub batches: Seq<BatchV>,
}

impl View for AddressInfoGql {
    type V = AddressInfoGqlV;

    open spec fn view(&self) -> AddressInfoGqlV {
        AddressInfoGqlV {
            address: self.address@,
            total_fee: self.total_fee@,
            batches: batch_views(self.batches@),
        }
    }
}

/// The rendered form of one ledger row.
pub open spec fn gql_of_entry(e: AddressEntryV) -> AddressInfoGqlV {
    AddressInfoGqlV {
        address: e.address,
        total_fee: eth_of(e.info.total_fee as nat),
        batches: e.info.batches,
    }
}

impl AddressInfoGql {
    /// Renders one address's share: the fee becomes an ETH string.
    pub fn new(address: String, total_fee: u128, batches: Vec<Batch>) -> (r: Self)
        ensures
            r@.address == address@,
            r@.total_fee == eth_of(total_fee as nat),
            r@.batches == batch_views(batches@),
    {
        let total_fee_eth = wei_to_eth_string(&total_fee);
        AddressInfoGql { address, total_fee: total_fee_eth, batches }
    }
}

/// One rendered ledger direction.
pub struct AccountingListGql {
    pub total_fee: String,
    pub addresses: Vec<AddressInfoGql>,
}

pub ghost struct AccountingListGqlV {
    pub total_fee: Seq<char>,
    pub addresses: Seq<AddressInfoGqlV>,
}

impl View for AccountingListGql {
    type V = AccountingListGqlV;

    open spec fn view(&self) -> AccountingListGqlV {
        AccountingListGqlV {
            total_fee: self.total_fee@,
            addresses: Seq::new(self.addresses@.len(), |i: int| self.addresses@[i]@),
        }
    }
}

/// The rendered form of a whole ledger direction.
pub open spec fn gql_of(l: AccountingListV) -> AccountingListGqlV {
    AccountingListGqlV {
        total_fee: eth_of(l.total_fee as nat),
        addresses: Seq::new(l.entries.len(), |i: int| gql_of_entry(l.entries[i])),
    }
}

impl AccountingListGql {
    /// Renders a ledger direction: every fee becomes an ETH string, row
    /// order kept.
    pub fn from(list: AccountingList) -> (r: Self)
        ensures
            r@ == gql_of(list@),
    {
        let total_fee = wei_to_eth_string(&list.total_fee);
        let mut addresses: Vec<AddressInfoGql> = Vec::new();
        let ghost entries0 = list@.entries;
        let mut rem = list.addresses;
        while rem.len() > 0
            invariant
                entry_views(rem@) =~= entries0.skip(entries0.len() - rem@.len()),
                rem@.len() <= entries0.len(),
                addresses@.len() + rem@.len() == entries0.len(),
                forall|k: int|
                    0 <= k < addresses@.len() ==> (#[trigger] addresses@[k])@ == gql_of_entry(
                        entries0[k],
                    ),
            decreases rem@.len(),
        {
            let ghost k = entries0.len() - rem@.len();
            let ghost rem_pre = rem@;
            let e = rem.remove(0);
            proof {
                assert(entry_views(rem_pre)[0] == rem_pre[0]@);
                assert(entries0.skip(k)[0] == entries0[k]);
                assert(e@ == entries0[k]);
                assert(rem@ =~= rem_pre.remove(0));
                assert forall|t: int| 0 <= t < rem@.len() implies entry_views(rem@)[t]
                    == entries0.skip(k + 1)[t] by {
                    assert(entry_views(rem@)[t] == rem@[t]@);
                    assert(rem@[t] == rem_pre[t + 1]);
                    assert(entry_views(rem_pre)[t + 1] == rem_pre[t + 1]@);
                    assert(entries0.skip(k)[t + 1] == entries0[k + 1 + t]);
                    assert(entries0.skip(k + 1)[t] == entries0[k + 1 + t]);
                }
                assert(entry_views(rem@) =~= entries0.skip(k + 1));
            }
            let gql = AddressInfoGql::new(e.address, e.info.total_fee, e.info.batches);
            proof {
                assert(gql@ == gql_of_entry(entries0[k]));
            }
            addresses.push(gql);
        }
        let r = AccountingListGql { total_fee, addresses };
        proof {
            assert(r@.addresses =~= gql_of(list@).addresses);
        }
        r
    }
}

/// The two rendered ledger directions of one accounting request.
pub struct AccountingResult {
    pub debit: AccountingListGql,
    pub credit: AccountingListGql,
}

} // verus!
