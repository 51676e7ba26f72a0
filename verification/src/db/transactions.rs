//! The transaction store: the mempool of pending transactions, in the order
//! in which they came in, and the confirmed ones.

use crate::db::{transactions_distinct, Ledger, LedgerView, TransactionRow};
use crate::models::error::{failure, ServerError};
use crate::models::primitives::{Address, Id, H256};
use crate::models::{Transaction, TransactionStatus};
use vstd::prelude::*;

verus! {

/// A transaction as it enters the mempool: pending, in no block.
pub open spec fn pending_form(tx: Transaction) -> Transaction {
    Transaction { block_id: None, status: TransactionStatus::Pending, ..tx }
}

/// A row once its transaction stands at `index` in the block `block_id`.
pub open spec fn confirmed_row(row: TransactionRow, block_id: Id, index: Id) -> TransactionRow {
    TransactionRow {
        tx: Transaction {
            block_id: Some(block_id),
            status: TransactionStatus::Confirmed,
            ..row.tx
        },
        index_in_block: Some(index),
    }
}

/// Whether `position` is the first place at which `hash` stands in `hashes`.
pub open spec fn is_first_position(hashes: Seq<H256>, hash: H256, position: int) -> bool {
    &&& 0 <= position < hashes.len()
    &&& hashes[position] == hash
    &&& forall|j: int| 0 <= j < position ==> hashes[j] != hash
}

/// The first place at which `hash` stands in `hashes`, which hold it.
pub open spec fn first_position(hashes: Seq<H256>, hash: H256) -> int {
    choose|position: int| is_first_position(hashes, hash, position)
}

/// The rows after the transactions with the given hashes have been
/// confirmed in the block `block_id`: each of them has the block and, as its
/// position, the first place of its hash in the list. The other rows stay.
pub open spec fn confirm_rows(rows: Seq<TransactionRow>, hashes: Seq<H256>, block_id: Id) -> Seq<
    TransactionRow,
> {
    rows.map_values(
        |row: TransactionRow|
            if hashes.contains(row.tx.hash) {
                confirmed_row(row, block_id, first_position(hashes, row.tx.hash) as Id)
            } else {
                row
            },
    )
}

/// The pending rows, the oldest first.
pub open spec fn pending_rows(rows: Seq<TransactionRow>) -> Seq<TransactionRow> {
    rows.filter(|row: TransactionRow| row.is_pending())
}

/// The transactions of the rows.
pub open spec fn row_transactions(rows: Seq<TransactionRow>) -> Seq<Transaction> {
    rows.map_values(|row: TransactionRow| row.tx)
}

/// The hashes of the transactions.
pub open spec fn transaction_hashes(txs: Seq<Transaction>) -> Seq<H256> {
    txs.map_values(|tx: Transaction| tx.hash)
}

/// The pending transactions among the rows, the oldest first.
pub open spec fn pending_transactions(rows: Seq<TransactionRow>) -> Seq<Transaction> {
    row_transactions(pending_rows(rows))
}

/// The transactions among the rows that the account sends or receives.
pub open spec fn transactions_of(rows: Seq<TransactionRow>, address: Address) -> Seq<Transaction> {
    rows.filter(|row: TransactionRow| row.tx.from == address || row.tx.to == address).map_values(
        |row: TransactionRow| row.tx,
    )
}

/// The first `limit` entries of `list`, or all of it where it has fewer.
pub open spec fn first_n<A>(list: Seq<A>, limit: nat) -> Seq<A> {
    if limit < list.len() {
        list.subrange(0, limit as int)
    } else {
        list
    }
}

/// The pending rows are the pending rows up to the last row, and the last
/// row behind them where it is pending.
pub proof fn lemma_pending_rows_step(rows: Seq<TransactionRow>)
    requires
        rows.len() > 0,
    ensures
        pending_rows(rows) == if rows.last().is_pending() {
            pending_rows(rows.drop_last()).push(rows.last())
        } else {
            pending_rows(rows.drop_last())
        },
{
    reveal(Seq::filter);
}

/// Every pending row of the table is among the pending rows, every one among
/// them is a pending row of the table, and no two of them have the same hash.
pub proof fn lemma_pending_rows_members(rows: Seq<TransactionRow>)
    requires
        transactions_distinct(rows),
    ensures
        forall|j: int|
            0 <= j < rows.len() && (#[trigger] rows[j]).is_pending() ==> pending_rows(rows).contains(
                rows[j],
            ),
        forall|i: int|
            0 <= i < pending_rows(rows).len() ==> (#[trigger] pending_rows(rows)[i]).is_pending()
                && rows.contains(pending_rows(rows)[i]),
        forall|i: int, j: int|
            0 <= i < j < pending_rows(rows).len() ==> (#[trigger] pending_rows(rows)[i]).tx.hash != (
            #[trigger] pending_rows(rows)[j]).tx.hash,
    decreases rows.len(),
{
    if rows.len() > 0 {
        let front = rows.drop_last();
        lemma_pending_rows_step(rows);
        lemma_pending_rows_members(front);
        let found = pending_rows(rows);
        let earlier = pending_rows(front);
        assert forall|j: int| 0 <= j < rows.len() && (#[trigger] rows[j]).is_pending() implies found.contains(
            rows[j],
        ) by {
            if j < rows.len() - 1 {
                assert(front[j] == rows[j]);
                let i = choose|i: int| 0 <= i < earlier.len() && earlier[i] == front[j];
                assert(found[i] == rows[j]);
            } else {
                assert(found[found.len() - 1] == rows[j]);
            }
        }
        assert forall|i: int| 0 <= i < found.len() implies (#[trigger] found[i]).is_pending()
            && rows.contains(found[i]) by {
            if i < earlier.len() {
                assert(found[i] == earlier[i]);
                let j = choose|j: int| 0 <= j < front.len() && front[j] == earlier[i];
                assert(rows[j] == found[i]);
            } else {
                assert(rows[rows.len() - 1] == found[i]);
            }
        }
        assert forall|i: int, j: int| 0 <= i < j < found.len() implies (#[trigger] found[i]).tx.hash != (
        #[trigger] found[j]).tx.hash by {
            if j < earlier.len() {
                assert(found[i] == earlier[i] && found[j] == earlier[j]);
            } else {
                assert(found[i] == earlier[i]);
                let at = choose|at: int| 0 <= at < front.len() && front[at] == earlier[i];
                assert(rows[at] == found[i]);
                assert(rows[rows.len() - 1] == found[j]);
            }
        }
    } else {
        reveal(Seq::filter);
    }
}

/// The first `count` pending rows are the pending rows of a front part of
/// the table, and the other pending rows those of the part behind it.
pub proof fn lemma_pending_rows_cut(rows: Seq<TransactionRow>, count: nat) -> (cut: int)
    requires
        count <= pending_rows(rows).len(),
    ensures
        0 <= cut <= rows.len(),
        pending_rows(rows.subrange(0, cut)) == pending_rows(rows).subrange(0, count as int),
        pending_rows(rows.subrange(cut, rows.len() as int)) == pending_rows(rows).subrange(
            count as int,
            pending_rows(rows).len() as int,
        ),
    decreases rows.len(),
{
    let found = pending_rows(rows);
    if count == found.len() {
        assert(rows.subrange(0, rows.len() as int) =~= rows);
        assert(found.subrange(0, count as int) =~= found);
        assert(rows.subrange(rows.len() as int, rows.len() as int) =~= Seq::empty());
        assert(pending_rows(Seq::<TransactionRow>::empty()) =~= Seq::empty()) by {
            reveal(Seq::filter);
        }
        assert(found.subrange(count as int, found.len() as int) =~= Seq::empty());
        rows.len() as int
    } else {
        assert(rows.len() > 0) by {
            reveal(Seq::filter);
        }
        let front = rows.drop_last();
        lemma_pending_rows_step(rows);
        let cut = lemma_pending_rows_cut(front, count);
        let earlier = pending_rows(front);
        assert(rows.subrange(0, cut) =~= front.subrange(0, cut));
        assert(found.subrange(0, count as int) =~= earlier.subrange(0, count as int));
        let behind = rows.subrange(cut, rows.len() as int);
        assert(behind.drop_last() =~= front.subrange(cut, front.len() as int));
        assert(behind.last() == rows.last());
        lemma_pending_rows_step(behind);
        if rows.last().is_pending() {
            assert(found.subrange(count as int, found.len() as int) =~= earlier.subrange(
                count as int,
                earlier.len() as int,
            ).push(rows.last()));
        } else {
            assert(found.subrange(count as int, found.len() as int) =~= earlier.subrange(
                count as int,
                earlier.len() as int,
            ));
        }
        cut
    }
}

/// Confirming the first `limit` pending transactions of the table, by their
/// hashes, confirms exactly these: each of them then stands in the block at
/// its place in the list, the other rows stay as they were, and the pending
/// transactions that are left are those behind the confirmed ones.
pub proof fn lemma_confirm_oldest_pending(rows: Seq<TransactionRow>, limit: nat, block_id: Id)
    requires
        transactions_distinct(rows),
    ensures
        ({
            let chosen = first_n(pending_rows(rows), limit);
            let hashes = transaction_hashes(row_transactions(chosen));
            let after = confirm_rows(rows, hashes, block_id);
            &&& after.len() == rows.len()
            &&& pending_rows(after) == pending_rows(rows).subrange(
                chosen.len() as int,
                pending_rows(rows).len() as int,
            )
            &&& forall|i: int|
                0 <= i < chosen.len() ==> after.contains(
                    confirmed_row(#[trigger] chosen[i], block_id, i as Id),
                )
            &&& forall|j: int|
                0 <= j < rows.len() ==> (#[trigger] after[j]) == rows[j] || (rows[j].is_pending()
                    && exists|i: int|
                    0 <= i < chosen.len() && chosen[i] == rows[j] && after[j] == confirmed_row(
                        rows[j],
                        block_id,
                        i as Id,
                    ))
        }),
{
    let found = pending_rows(rows);
    let chosen = first_n(found, limit);
    let count = chosen.len();
    let hashes = transaction_hashes(row_transactions(chosen));
    let after = confirm_rows(rows, hashes, block_id);
    let cut = lemma_pending_rows_cut(rows, count);
    let front = rows.subrange(0, cut);
    let behind = rows.subrange(cut, rows.len() as int);
    assert(chosen =~= found.subrange(0, count as int));
    lemma_pending_rows_members(rows);
    assert(transactions_distinct(front));
    lemma_pending_rows_members(front);

    // A hash of the list stands at one place of the list only.
    assert forall|i: int| 0 <= i < count implies is_first_position(hashes, #[trigger] hashes[i], i) by {
        assert forall|k: int| 0 <= k < i implies hashes[k] != hashes[i] by {
            assert(chosen[k] == found[k] && chosen[i] == found[i]);
        }
    }
    assert forall|i: int| 0 <= i < count implies first_position(hashes, #[trigger] hashes[i]) == i by {
        let at = first_position(hashes, hashes[i]);
        assert(is_first_position(hashes, hashes[i], i));
        assert(is_first_position(hashes, hashes[i], at));
    }

    // The rows that are confirmed are the pending rows of the front part.
    assert forall|j: int| 0 <= j < rows.len() implies (#[trigger] after[j]) == rows[j] || (
    rows[j].is_pending() && exists|i: int|
        0 <= i < count && chosen[i] == rows[j] && after[j] == confirmed_row(rows[j], block_id, i as Id)) by {
        if hashes.contains(rows[j].tx.hash) {
            let i = choose|i: int| 0 <= i < hashes.len() && hashes[i] == rows[j].tx.hash;
            assert(chosen[i] == found[i]);
            assert(rows.contains(found[i]));
            let at = choose|at: int| 0 <= at < rows.len() && rows[at] == found[i];
            assert(at == j);
            assert(first_position(hashes, hashes[i]) == i);
        }
    }
    assert forall|i: int| 0 <= i < count implies after.contains(
        confirmed_row(#[trigger] chosen[i], block_id, i as Id),
    ) by {
        assert(chosen[i] == found[i]);
        assert(rows.contains(found[i]));
        let at = choose|at: int| 0 <= at < rows.len() && rows[at] == found[i];
        assert(hashes[i] == rows[at].tx.hash);
        assert(hashes.contains(rows[at].tx.hash));
        assert(first_position(hashes, hashes[i]) == i);
        assert(after[at] == confirmed_row(chosen[i], block_id, i as Id));
    }

    // Behind the cut nothing changes, and in front of it nothing stays pending.
    let after_front = after.subrange(0, cut);
    let after_behind = after.subrange(cut, rows.len() as int);
    assert(after =~= after_front + after_behind);
    assert(after_behind =~= behind) by {
        assert forall|j: int| cut <= j < rows.len() implies after[j] == rows[j] by {
            if after[j] != rows[j] {
                let i = choose|i: int| 0 <= i < count && chosen[i] == rows[j];
                assert(chosen[i] == pending_rows(front)[i]);
                assert(front.contains(pending_rows(front)[i]));
                let at = choose|at: int| 0 <= at < front.len() && front[at] == pending_rows(front)[i];
                assert(rows[at] == rows[j]);
            }
        }
    }
    assert(pending_rows(after_front) =~= Seq::<TransactionRow>::empty()) by {
        assert forall|j: int| 0 <= j < cut implies !(#[trigger] after_front[j]).is_pending() by {
            if rows[j].is_pending() {
                assert(front[j] == rows[j]);
                assert(pending_rows(front).contains(front[j]));
                let i = choose|i: int| 0 <= i < pending_rows(front).len() && pending_rows(front)[i] == front[j];
                assert(chosen[i] == rows[j]);
                assert(hashes[i] == rows[j].tx.hash);
                assert(hashes.contains(rows[j].tx.hash));
            } else {
                assert(after[j] == rows[j]);
            }
        }
        lemma_no_pending_rows(after_front);
    }
    Seq::filter_distributes_over_add(
        after_front,
        after_behind,
        |row: TransactionRow| row.is_pending(),
    );
    assert(pending_rows(after) =~= pending_rows(behind));
}

/// Rows of which none is pending have no pending rows.
pub proof fn lemma_no_pending_rows(rows: Seq<TransactionRow>)
    requires
        forall|j: int| 0 <= j < rows.len() ==> !(#[trigger] rows[j]).is_pending(),
    ensures
        pending_rows(rows).len() == 0,
    decreases rows.len(),
{
    reveal(Seq::filter);
    if rows.len() > 0 {
        lemma_no_pending_rows(rows.drop_last());
    }
}

/// The position of the row with the given hash, if there is one.
fn find_transaction(conn: &Ledger, tx_hash: H256) -> (found: Option<usize>)
    ensures
        match found {
            Some(i) => i < conn.transactions@.len() && conn.transactions@[i as int].tx.hash
                == tx_hash,
            None => forall|i: int|
                0 <= i < conn.transactions@.len() ==> (#[trigger] conn.transactions@[i]).tx.hash
                    != tx_hash,
        },
{
    let mut i: usize = 0;
    while i < conn.transactions.len()
        invariant
            i <= conn.transactions@.len(),
            forall|j: int| 0 <= j < i ==> (#[trigger] conn.transactions@[j]).tx.hash != tx_hash,
        decreases conn.transactions@.len() - i,
    {
        if conn.transactions[i].tx.hash == tx_hash {
            return Some(i);
        }
        i += 1;
    }
    None
}

/// The first place at which `hash` stands in `hashes`, if it stands there.
fn find_hash(hashes: &[H256], hash: H256) -> (found: Option<usize>)
    ensures
        match found {
            Some(i) => is_first_position(hashes@, hash, i as int) && hashes@.contains(hash)
                && first_position(hashes@, hash) == i,
            None => !hashes@.contains(hash),
        },
{
    let mut i: usize = 0;
    while i < hashes.len()
        invariant
            i <= hashes@.len(),
            forall|j: int| 0 <= j < i ==> hashes@[j] != hash,
        decreases hashes@.len() - i,
    {
        if hashes[i] == hash {
            assert(is_first_position(hashes@, hash, i as int));
            return Some(i);
        }
        i += 1;
    }
    None
}

/// Puts a transaction into the mempool: pending, in no block, behind all
/// that came before. A transaction whose hash is already stored is refused
/// with status 500.
pub fn add_pending_transaction(conn: &mut Ledger, tx: Transaction) -> (done: Result<(), ServerError>)
    requires
        old(conn).wf(),
    ensures
        final(conn).wf(),
        match done {
            Ok(_) => {
                &&& forall|i: int|
                    0 <= i < old(conn)@.transactions.len() ==> (#[trigger] old(
                        conn,
                    )@.transactions[i]).tx.hash != tx.hash
                &&& final(conn)@ == (LedgerView {
                    transactions: old(conn)@.transactions.push(
                        TransactionRow { tx: pending_form(tx), index_in_block: None },
                    ),
                    ..old(conn)@
                })
            },
            Err(e) => {
                &&& exists|i: int|
                    0 <= i < old(conn)@.transactions.len() && (#[trigger] old(
                        conn,
                    )@.transactions[i]).tx.hash == tx.hash
                &&& e@ == failure(500, "Failed adding transaction: duplicate hash"@)
                &&& final(conn)@ == old(conn)@
            },
        },
{
    if find_transaction(conn, tx.hash).is_some() {
        return Err(ServerError::with_text(500, "Failed adding transaction: duplicate hash"));
    }
    let row = TransactionRow {
        tx: Transaction {
            hash: tx.hash,
            from: tx.from,
            to: tx.to,
            amount: tx.amount,
            block_id: None,
            nonce: tx.nonce,
            status: TransactionStatus::Pending,
        },
        index_in_block: None,
    };
    conn.transactions.push(row);
    Ok(())
}

/// Confirms the transactions with the given hashes in the block `block_id`,
/// all at once: each gets the block and, as its position in the block, the
/// first place of its hash in the list.
pub fn add_transactions_to_block(conn: &mut Ledger, tx_hashes: &[H256], block_id: u64) -> (done: Result<
    (),
    ServerError,
>)
    requires
        old(conn).wf(),
    ensures
        done is Ok,
        final(conn).wf(),
        final(conn)@ == (LedgerView {
            transactions: confirm_rows(old(conn)@.transactions, tx_hashes@, block_id),
            ..old(conn)@
        }),
{
    let ghost before = conn.transactions@;
    let mut i: usize = 0;
    while i < conn.transactions.len()
        invariant
            i <= conn.transactions@.len() == before.len(),
            conn.accounts == old(conn).accounts,
            conn.blocks == old(conn).blocks,
            conn.merkle_nodes == old(conn).merkle_nodes,
            forall|j: int|
                0 <= j < i ==> (#[trigger] conn.transactions@[j]) == confirm_rows(
                    before,
                    tx_hashes@,
                    block_id,
                )[j],
            forall|j: int| i <= j < before.len() ==> (#[trigger] conn.transactions@[j]) == before[j],
        decreases before.len() - i,
    {
        let row = conn.transactions[i];
        match find_hash(tx_hashes, row.tx.hash) {
            Some(position) => {
                conn.transactions[i] = TransactionRow {
                    tx: Transaction {
                        hash: row.tx.hash,
                        from: row.tx.from,
                        to: row.tx.to,
                        amount: row.tx.amount,
                        block_id: Some(block_id),
                        nonce: row.tx.nonce,
                        status: TransactionStatus::Confirmed,
                    },
                    index_in_block: Some(position as u64),
                };
            },
            None => {},
        }
        i += 1;
    }
    assert(conn.transactions@ =~= confirm_rows(before, tx_hashes@, block_id));
    Ok(())
}

/// The transaction with the given hash, if it is stored.
pub fn get_transaction(conn: &Ledger, tx_hash: H256) -> (found: Result<
    Option<Transaction>,
    ServerError,
>)
    ensures
        match found {
            Ok(Some(tx)) => tx.hash == tx_hash && exists|i: int|
                0 <= i < conn@.transactions.len() && (#[trigger] conn@.transactions[i]).tx == tx,
            Ok(None) => forall|i: int|
                0 <= i < conn@.transactions.len() ==> (#[trigger] conn@.transactions[i]).tx.hash
                    != tx_hash,
            Err(_) => false,
        },
{
    match find_transaction(conn, tx_hash) {
        Some(i) => Ok(Some(conn.transactions[i].tx)),
        None => Ok(None),
    }
}

/// All transactions that the account sends or receives.
pub fn get_transactions(conn: &Ledger, address: Address) -> (found: Result<
    Vec<Transaction>,
    ServerError,
>)
    ensures
        found matches Ok(txs) && txs@ == transactions_of(conn@.transactions, address),
{
    let mut txs: Vec<Transaction> = Vec::new();
    let mut i: usize = 0;
    proof {
        reveal(Seq::filter);
        assert(conn.transactions@.subrange(0, 0) =~= Seq::<TransactionRow>::empty());
    }
    while i < conn.transactions.len()
        invariant
            i <= conn.transactions@.len(),
            txs@ == transactions_of(conn.transactions@.subrange(0, i as int), address),
        decreases conn.transactions@.len() - i,
    {
        let row = conn.transactions[i];
        proof {
            reveal(Seq::filter);
            let next = conn.transactions@.subrange(0, i + 1);
            assert(next.drop_last() =~= conn.transactions@.subrange(0, i as int));
            assert(next.last() == row);
        }
        if row.tx.from == address || row.tx.to == address {
            txs.push(row.tx);
        }
        assert(txs@ =~= transactions_of(conn.transactions@.subrange(0, i + 1), address));
        i += 1;
    }
    assert(conn.transactions@.subrange(0, i as int) =~= conn.transactions@);
    Ok(txs)
}

/// Up to `limit` pending transactions, the oldest first.
pub fn get_pending_transactions(conn: &Ledger, limit: u64) -> (found: Result<
    Vec<Transaction>,
    ServerError,
>)
    ensures
        found matches Ok(txs) && txs@ == first_n(
            pending_transactions(conn@.transactions),
            limit as nat,
        ),
{
    let mut txs: Vec<Transaction> = Vec::new();
    let mut i: usize = 0;
    proof {
        reveal(Seq::filter);
        assert(conn.transactions@.subrange(0, 0) =~= Seq::<TransactionRow>::empty());
    }
    while i < conn.transactions.len()
        invariant
            i <= conn.transactions@.len(),
            txs@.len() <= limit,
            txs@ == first_n(
                pending_transactions(conn.transactions@.subrange(0, i as int)),
                limit as nat,
            ),
            txs@.len() < limit ==> txs@ == pending_transactions(
                conn.transactions@.subrange(0, i as int),
            ),
        decreases conn.transactions@.len() - i,
    {
        let row = conn.transactions[i];
        proof {
            reveal(Seq::filter);
            let next = conn.transactions@.subrange(0, i + 1);
            assert(next.drop_last() =~= conn.transactions@.subrange(0, i as int));
            assert(next.last() == row);
        }
        let ghost earlier = pending_transactions(conn.transactions@.subrange(0, i as int));
        let ghost later = pending_transactions(conn.transactions@.subrange(0, i + 1));
        proof {
            lemma_pending_rows_step(conn.transactions@.subrange(0, i + 1));
        }
        match row.tx.status {
            TransactionStatus::Pending => {
                assert(later =~= earlier.push(row.tx));
                if (txs.len() as u64) < limit {
                    txs.push(row.tx);
                }
                assert(txs@ =~= first_n(later, limit as nat));
            },
            TransactionStatus::Confirmed => {
                assert(later =~= earlier);
            },
        }
        i += 1;
    }
    assert(conn.transactions@.subrange(0, i as int) =~= conn.transactions@);
    Ok(txs)
}

} // verus!
