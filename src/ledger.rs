//! The local token ledger: balances per identity, USD/token conversion, and
//! the transfer that pays out approved loans.
use crate::identity::{anonymous_bytes, Identity};
use crate::ids::{counter_value, get_next_id};
use crate::store::{balance_entries, counter_entries, BalanceMap, CounterMap};
use vstd::prelude::*;

verus! {

/// Token decimals: one USD is this many token units.
pub const TOKENS_PER_USD: u64 = 100_000_000;

/// Fee of a ledger transfer, in token units.
pub const TRANSFER_FEE: u64 = 100_000;

/// An account of the ledger.
#[derive(Debug)]
pub struct Account {
    pub owner: Identity,
    pub subaccount: Option<Vec<u8>>,
}

/// A request to move tokens out of the treasury.
#[derive(Debug)]
pub struct TransferArgs {
    pub from_subaccount: Option<Vec<u8>>,
    pub to: Account,
    pub amount: u64,
    pub fee: Option<u64>,
    pub memo: Option<Vec<u8>>,
    pub created_at_time: Option<u64>,
}

/// Why the ledger refused a transfer.
#[derive(Debug, PartialEq, Eq)]
pub enum TransferError {
    BadFee { expected_fee: u64 },
    BadBurn { min_burn_amount: u64 },
    InsufficientFunds { balance: u64 },
    TooOld,
    CreatedInFuture { ledger_time: u64 },
    TemporarilyUnavailable,
    Duplicate { duplicate_of: u64 },
    GenericError { error_code: u64, message: String },
}

/// Why a balance operation was refused.
#[derive(Clone, Copy, Debug, PartialEq, Eq, Structural)]
pub enum LedgerError {
    /// The sender holds fewer tokens than the amount.
    InsufficientFunds,
    /// The sender is the anonymous identity.
    AnonymousCaller,
    /// The new balance would not fit in 64 bits.
    Overflow,
}

/// The balance of an identity; zero when it has none.
pub open spec fn balance_in(m: Map<Seq<u8>, u64>, who: Seq<u8>) -> u64 {
    if m.contains_key(who) {
        m[who]
    } else {
        0
    }
}

/// Counter that numbers the ledger's blocks.
pub open spec fn block_counter() -> Seq<char> {
    seq!['b', 'l', 'o', 'c', 'k']
}

/// Converts whole USD into token units.
pub fn usd_to_tokens(usd_amount: u64) -> (r: u64)
    requires
        usd_amount * TOKENS_PER_USD <= u64::MAX,
    ensures
        r == usd_amount * TOKENS_PER_USD,
{
    usd_amount * TOKENS_PER_USD
}

/// Converts token units into whole USD, rounding down.
pub fn tokens_to_usd(token_amount: u64) -> (r: u64)
    ensures
        r == token_amount / TOKENS_PER_USD,
{
    token_amount / TOKENS_PER_USD
}

/// The balance of an identity.
pub fn balance_of(balances: &BalanceMap, who: &Identity) -> (r: u64)
    ensures
        r == balance_in(balance_entries(*balances), who@),
{
    let key = vstd::slice::slice_to_vec(who.as_slice());
    match balances.get(&key) {
        Some(b) => b,
        None => 0,
    }
}

fn set_balance(balances: &mut BalanceMap, who: &Identity, amount: u64)
    ensures
        balance_entries(*final(balances)) == balance_entries(*old(balances)).insert(who@, amount),
{
    let key = vstd::slice::slice_to_vec(who.as_slice());
    balances.insert(key, amount);
}

/// Credits newly issued tokens to an identity.
pub fn mint(balances: &mut BalanceMap, who: &Identity, amount: u64) -> (r: Result<(), LedgerError>)
    ensures
        ({
            let before = balance_in(balance_entries(*old(balances)), who@);
            if before + amount <= u64::MAX {
                &&& r is Ok
                &&& balance_entries(*final(balances)) == balance_entries(*old(balances)).insert(
                    who@,
                    (before + amount) as u64,
                )
            } else {
                &&& r == Err::<(), LedgerError>(LedgerError::Overflow)
                &&& balance_entries(*final(balances)) == balance_entries(*old(balances))
            }
        }),
{
    let current = balance_of(balances, who);
    if current > u64::MAX - amount {
        return Err(LedgerError::Overflow);
    }
    set_balance(balances, who, current + amount);
    Ok(())
}

/// The balances after `amount` moves from `from` to `to`.
pub open spec fn moved(m: Map<Seq<u8>, u64>, from: Seq<u8>, to: Seq<u8>, amount: u64) -> Map<
    Seq<u8>,
    u64,
> {
    let debited = m.insert(from, (balance_in(m, from) - amount) as u64);
    debited.insert(to, (balance_in(debited, to) + amount) as u64)
}

/// Whether `amount` can move from `from` to `to` without an overflow.
pub open spec fn credit_fits(m: Map<Seq<u8>, u64>, from: Seq<u8>, to: Seq<u8>, amount: u64) -> bool {
    let debited = m.insert(from, (balance_in(m, from) - amount) as u64);
    balance_in(debited, to) + amount <= u64::MAX
}

/// Moves tokens between identities; the anonymous identity cannot send.
pub fn transfer(balances: &mut BalanceMap, from: &Identity, to: &Identity, amount: u64) -> (r: Result<
    (),
    LedgerError,
>)
    ensures
        ({
            let m = balance_entries(*old(balances));
            if from@ == anonymous_bytes() {
                r == Err::<(), LedgerError>(LedgerError::AnonymousCaller)
            } else if balance_in(m, from@) < amount {
                r == Err::<(), LedgerError>(LedgerError::InsufficientFunds)
            } else if !credit_fits(m, from@, to@, amount) {
                r == Err::<(), LedgerError>(LedgerError::Overflow)
            } else {
                r is Ok
            }
        }),
        r is Ok ==> balance_entries(*final(balances)) == moved(
            balance_entries(*old(balances)),
            from@,
            to@,
            amount,
        ),
        r is Err ==> balance_entries(*final(balances)) == balance_entries(*old(balances)),
{
    if from.is_anonymous() {
        return Err(LedgerError::AnonymousCaller);
    }
    let sender = balance_of(balances, from);
    if sender < amount {
        return Err(LedgerError::InsufficientFunds);
    }
    let recipient = if from.same_as(to) {
        sender - amount
    } else {
        balance_of(balances, to)
    };
    if recipient > u64::MAX - amount {
        return Err(LedgerError::Overflow);
    }
    set_balance(balances, from, sender - amount);
    set_balance(balances, to, recipient + amount);
    Ok(())
}

/// Whether the treasury can pay `amount` to `to`, debiting `debit`,
/// without the recipient's balance overflowing.
pub open spec fn payout_fits(
    m: Map<Seq<u8>, u64>,
    treasury: Seq<u8>,
    to: Seq<u8>,
    debit: u64,
    amount: u64,
) -> bool {
    let debited = m.insert(treasury, (balance_in(m, treasury) - debit) as u64);
    balance_in(debited, to) + amount <= u64::MAX
}

/// The balances after the treasury is debited `debit` and `to` is credited
/// `amount`.
pub open spec fn paid_from(
    m: Map<Seq<u8>, u64>,
    treasury: Seq<u8>,
    to: Seq<u8>,
    debit: u64,
    amount: u64,
) -> Map<Seq<u8>, u64> {
    let debited = m.insert(treasury, (balance_in(m, treasury) - debit) as u64);
    debited.insert(to, (balance_in(debited, to) + amount) as u64)
}

/// Pays `args.amount` from the treasury to `args.to`, charging the fee to
/// the treasury, and returns the number of the block that records it.
pub fn icrc1_transfer(
    balances: &mut BalanceMap,
    counters: &mut CounterMap,
    treasury: &Identity,
    args: &TransferArgs,
) -> (r: Result<u64, TransferError>)
    ensures
        ({
            let m = balance_entries(*old(balances));
            let fee = match args.fee {
                Some(f) => f,
                None => TRANSFER_FEE,
            };
            let debit = args.amount + fee;
            let bal = balance_in(m, treasury@);
            let blocks = counter_value(counter_entries(*old(counters)), block_counter());
            if debit > u64::MAX || bal < debit {
                &&& r == Err::<u64, TransferError>(TransferError::InsufficientFunds { balance: bal })
                &&& balance_entries(*final(balances)) == m
                &&& counter_entries(*final(counters)) == counter_entries(*old(counters))
            } else if !payout_fits(m, treasury@, args.to.owner@, debit as u64, args.amount) || blocks
                == u64::MAX {
                &&& r is Err
                &&& balance_entries(*final(balances)) == m
                &&& counter_entries(*final(counters)) == counter_entries(*old(counters))
            } else {
                &&& r == Ok::<u64, TransferError>((blocks + 1) as u64)
                &&& balance_entries(*final(balances)) == paid_from(
                    m,
                    treasury@,
                    args.to.owner@,
                    debit as u64,
                    args.amount,
                )
                &&& counter_entries(*final(counters)) == counter_entries(*old(counters)).insert(
                    block_counter(),
                    (blocks + 1) as u64,
                )
            }
        }),
{
    let fee = match args.fee {
        Some(f) => f,
        None => TRANSFER_FEE,
    };
    let balance = balance_of(balances, treasury);
    if args.amount > u64::MAX - fee || balance < args.amount + fee {
        return Err(TransferError::InsufficientFunds { balance });
    }
    let debit = args.amount + fee;
    let recipient = if treasury.same_as(&args.to.owner) {
        balance - debit
    } else {
        balance_of(balances, &args.to.owner)
    };
    if recipient > u64::MAX - args.amount {
        return Err(
            TransferError::GenericError { error_code: 1, message: String::from_str("Invalid amount") },
        );
    }
    proof {
        reveal_strlit("block");
        assert("block"@ =~= block_counter());
    }
    let name = String::from_str("block");
    let blocks = match counters.get(&name) {
        Some(b) => b,
        None => 0,
    };
    if blocks == u64::MAX {
        return Err(TransferError::TemporarilyUnavailable);
    }
    let block = get_next_id(counters, "block");
    set_balance(balances, treasury, balance - debit);
    set_balance(balances, &args.to.owner, recipient + args.amount);
    Ok(block)
}

} // verus!
