//! The account store. An account that is asked for comes into being with a
//! balance and a nonce of zero, and never goes away.

use crate::db::{
    lemma_accounts_map_absent, lemma_accounts_map_push, lemma_accounts_map_row,
    lemma_accounts_map_update, AccountRow, AccountState, Ledger, LedgerView,
};
use crate::models::error::{failure, ServerError};
use crate::models::primitives::{Address, Balance};
use vstd::prelude::*;

verus! {

/// The position of the account with the given address, if it exists.
fn find_account(conn: &Ledger, address: Address) -> (found: Option<usize>)
    requires
        conn.wf(),
    ensures
        match found {
            Some(i) => i < conn.accounts@.len() && conn.accounts@[i as int].address == address
                && conn@.accounts.dom().contains(address) && conn@.accounts[address]
                == (AccountState {
                balance: conn.accounts@[i as int].balance,
                nonce: conn.accounts@[i as int].nonce,
            }),
            None => !conn@.accounts.dom().contains(address) && forall|i: int|
                0 <= i < conn.accounts@.len() ==> (#[trigger] conn.accounts@[i]).address != address,
        },
{
    let mut i: usize = 0;
    while i < conn.accounts.len()
        invariant
            conn.wf(),
            i <= conn.accounts@.len(),
            forall|j: int| 0 <= j < i ==> (#[trigger] conn.accounts@[j]).address != address,
        decreases conn.accounts@.len() - i,
    {
        if conn.accounts[i].address == address {
            proof {
                lemma_accounts_map_row(conn.accounts@, i as int);
            }
            return Some(i);
        }
        i += 1;
    }
    proof {
        lemma_accounts_map_absent(conn.accounts@, address);
    }
    None
}

/// Whether the account with the given address exists.
fn account_exists(conn: &Ledger, address: Address) -> (exists: bool)
    requires
        conn.wf(),
    ensures
        exists == conn@.accounts.dom().contains(address),
        !exists ==> forall|i: int|
            0 <= i < conn.accounts@.len() ==> (#[trigger] conn.accounts@[i]).address != address,
{
    find_account(conn, address).is_some()
}

/// The balance of the account as it stands, 0 where the account does not
/// exist. Nothing changes.
pub fn current_balance(conn: &Ledger, address: Address) -> (balance: Balance)
    requires
        conn.wf(),
    ensures
        balance == conn@.balance_of(address),
{
    match find_account(conn, address) {
        Some(i) => conn.accounts[i].balance,
        None => 0,
    }
}

/// Makes the account exist: a new account holds a balance and a nonce of
/// zero, an existing one stays as it is. Doing this again changes nothing.
pub fn ensure_address_exists(conn: &mut Ledger, address: Address) -> (done: Result<(), ServerError>)
    requires
        old(conn).wf(),
    ensures
        done is Ok,
        final(conn).wf(),
        final(conn)@ == old(conn)@.with_account(address),
{
    if !account_exists(conn, address) {
        proof {
            lemma_accounts_map_push(
                conn.accounts@,
                AccountRow { address, balance: 0, nonce: 0 },
            );
        }
        conn.accounts.push(AccountRow { address, balance: 0, nonce: 0 });
    }
    Ok(())
}

/// The balance of the account, which exists afterwards.
pub fn get_balance(conn: &mut Ledger, address: Address) -> (balance: Result<Balance, ServerError>)
    requires
        old(conn).wf(),
    ensures
        balance matches Ok(b) && b == old(conn)@.balance_of(address),
        final(conn).wf(),
        final(conn)@ == old(conn)@.with_account(address),
{
    let _ = ensure_address_exists(conn, address);
    match find_account(conn, address) {
        Some(i) => Ok(conn.accounts[i].balance),
        None => Ok(0),
    }
}

/// The nonce of the account, which exists afterwards.
pub fn get_nonce(conn: &mut Ledger, address: Address) -> (nonce: Result<u64, ServerError>)
    requires
        old(conn).wf(),
    ensures
        nonce matches Ok(n) && n == old(conn)@.nonce_of(address),
        final(conn).wf(),
        final(conn)@ == old(conn)@.with_account(address),
{
    let _ = ensure_address_exists(conn, address);
    match find_account(conn, address) {
        Some(i) => Ok(conn.accounts[i].nonce),
        None => Ok(0),
    }
}

/// Sets the balance of the account to `amount`, which is a new balance and no
/// difference. The account exists afterwards. A negative amount cannot be
/// stored: it is refused with status 500, and no balance changes.
pub fn update_balance(conn: &mut Ledger, address: Address, amount: i128) -> (done: Result<
    (),
    ServerError,
>)
    requires
        old(conn).wf(),
    ensures
        final(conn).wf(),
        amount >= 0 ==> done is Ok && final(conn)@ == (LedgerView {
            accounts: old(conn)@.accounts.insert(
                address,
                AccountState { balance: amount as u128, nonce: old(conn)@.nonce_of(address) },
            ),
            ..old(conn)@
        }),
        amount < 0 ==> (done matches Err(e) && e@ == failure(
            500,
            "Failed updating balance: negative balance"@,
        )) && final(conn)@ == old(conn)@.with_account(address),
{
    let _ = ensure_address_exists(conn, address);
    if amount < 0 {
        return Err(ServerError::with_text(500, "Failed updating balance: negative balance"));
    }
    match find_account(conn, address) {
        Some(i) => {
            let row = conn.accounts[i];
            let changed = AccountRow { address: row.address, balance: amount as u128, nonce: row.nonce };
            proof {
                lemma_accounts_map_update(conn.accounts@, i as int, changed);
            }
            conn.accounts[i] = changed;
            assert(final(conn)@.accounts =~= old(conn)@.accounts.insert(
                address,
                AccountState { balance: amount as u128, nonce: old(conn)@.nonce_of(address) },
            ));
        },
        None => {},
    }
    Ok(())
}

/// Sets the nonce of the account, which exists afterwards.
pub fn update_nonce(conn: &mut Ledger, address: Address, nonce: u64) -> (done: Result<
    (),
    ServerError,
>)
    requires
        old(conn).wf(),
    ensures
        done is Ok,
        final(conn).wf(),
        final(conn)@ == (LedgerView {
            accounts: old(conn)@.accounts.insert(
                address,
                AccountState { balance: old(conn)@.balance_of(address), nonce },
            ),
            ..old(conn)@
        }),
{
    let _ = ensure_address_exists(conn, address);
    match find_account(conn, address) {
        Some(i) => {
            let row = conn.accounts[i];
            let changed = AccountRow { address: row.address, balance: row.balance, nonce };
            proof {
                lemma_accounts_map_update(conn.accounts@, i as int, changed);
            }
            conn.accounts[i] = changed;
            assert(final(conn)@.accounts =~= old(conn)@.accounts.insert(
                address,
                AccountState { balance: old(conn)@.balance_of(address), nonce },
            ));
        },
        None => {},
    }
    Ok(())
}

} // verus!
