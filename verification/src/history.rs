//! The dispute index: what an account's history says about a transaction.

use crate::transaction::Transaction;
use vstd::prelude::*;

verus! {

/// The transactions with identifier `id`.
pub open spec fn has_id(id: u32) -> spec_fn(Transaction) -> bool {
    |t: Transaction| t.tx == id
}

/// The disputes that refer to `id`.
pub open spec fn is_dispute_of(id: u32) -> spec_fn(Transaction) -> bool {
    |t: Transaction| t.tx == id && t.transaction_type is Dispute
}

/// The resolutions that refer to `id`.
pub open spec fn is_resolve_of(id: u32) -> spec_fn(Transaction) -> bool {
    |t: Transaction| t.tx == id && t.transaction_type is Resolve
}

/// All disputes.
pub open spec fn is_dispute() -> spec_fn(Transaction) -> bool {
    |t: Transaction| t.transaction_type is Dispute
}

/// All resolutions.
pub open spec fn is_resolve() -> spec_fn(Transaction) -> bool {
    |t: Transaction| t.transaction_type is Resolve
}

/// The first transaction in `history` with identifier `id`.
pub open spec fn find(history: Seq<Transaction>, id: u32) -> Option<Transaction> {
    let matches = history.filter(has_id(id));
    if matches.len() > 0 {
        Some(matches[0])
    } else {
        None
    }
}

/// How many disputes in `history` refer to `id`.
pub open spec fn dispute_count(history: Seq<Transaction>, id: u32) -> nat {
    history.filter(is_dispute_of(id)).len()
}

/// How many resolutions in `history` refer to `id`.
pub open spec fn resolve_count(history: Seq<Transaction>, id: u32) -> nat {
    history.filter(is_resolve_of(id)).len()
}

/// `transaction` is under an open dispute: more disputes than resolutions
/// refer to its identifier. A dispute is itself never disputed.
pub open spec fn is_disputed(history: Seq<Transaction>, transaction: Transaction) -> bool {
    &&& !(transaction.transaction_type is Dispute)
    &&& dispute_count(history, transaction.tx) > resolve_count(history, transaction.tx)
}

/// Some dispute in `history` is open: it holds more disputes than resolutions,
/// whatever they refer to.
pub open spec fn has_unresolved(history: Seq<Transaction>) -> bool {
    history.filter(is_dispute()).len() > history.filter(is_resolve()).len()
}

/// No identifier has been resolved more often than it was disputed.
pub open spec fn resolutions_answer_disputes(history: Seq<Transaction>) -> bool {
    forall|id: u32| resolve_count(history, id) <= #[trigger] dispute_count(history, id)
}

/// Looking at one more transaction: the filter of a prefix grows by that
/// transaction or stays.
pub proof fn lemma_filter_step(
    history: Seq<Transaction>,
    i: int,
    pred: spec_fn(Transaction) -> bool,
)
    requires
        0 <= i < history.len(),
    ensures
        history.take(i + 1).filter(pred) == if pred(history[i]) {
            history.take(i).filter(pred).push(history[i])
        } else {
            history.take(i).filter(pred)
        },
{
    assert(history.take(i + 1) =~= history.take(i).push(history[i]));
    history.take(i).lemma_filter_push(history[i], pred);
}

/// Where no transaction before position `i` has the identifier of the one at
/// `i`, that one is the first match.
pub proof fn lemma_find_at(history: Seq<Transaction>, i: int)
    requires
        0 <= i < history.len(),
        history.take(i).filter(has_id(history[i].tx)).len() == 0,
    ensures
        find(history, history[i].tx) == Some(history[i]),
{
    let pred = has_id(history[i].tx);
    lemma_filter_step(history, i, pred);
    assert(history =~= history.take(i + 1) + history.skip(i + 1));
    Seq::filter_distributes_over_add(history.take(i + 1), history.skip(i + 1), pred);
}

/// Appending a transaction leaves an existing first match in place.
pub proof fn lemma_find_push(history: Seq<Transaction>, t: Transaction, id: u32)
    ensures
        find(history, id) is Some ==> find(history.push(t), id) == find(history, id),
        find(history, id) is None ==> find(history.push(t), id) == if t.tx == id {
            Some(t)
        } else {
            None::<Transaction>
        },
{
    history.lemma_filter_push(t, has_id(id));
}

/// The transaction that an identifier refers to carries that identifier.
pub proof fn lemma_find_has_id(history: Seq<Transaction>, id: u32)
    ensures
        find(history, id) matches Some(t) ==> t.tx == id,
{
    if history.filter(has_id(id)).len() > 0 {
        history.lemma_filter_pred(has_id(id), 0);
    }
}

/// Appending a transaction adds one to the disputes of its identifier if it is
/// a dispute, one to the resolutions if it is a resolution, and leaves all
/// other counts as they were.
pub proof fn lemma_counts_push(history: Seq<Transaction>, t: Transaction)
    ensures
        forall|id: u32| #[trigger]
            dispute_count(history.push(t), id) == dispute_count(history, id) + if t.tx == id
                && t.transaction_type is Dispute {
                1nat
            } else {
                0nat
            },
        forall|id: u32| #[trigger]
            resolve_count(history.push(t), id) == resolve_count(history, id) + if t.tx == id
                && t.transaction_type is Resolve {
                1nat
            } else {
                0nat
            },
{
    assert forall|id: u32| #[trigger]
        dispute_count(history.push(t), id) == dispute_count(history, id) + if t.tx == id
            && t.transaction_type is Dispute {
            1nat
        } else {
            0nat
        } by {
        history.lemma_filter_len_push(is_dispute_of(id), t);
    }
    assert forall|id: u32| #[trigger]
        resolve_count(history.push(t), id) == resolve_count(history, id) + if t.tx == id
            && t.transaction_type is Resolve {
            1nat
        } else {
            0nat
        } by {
        history.lemma_filter_len_push(is_resolve_of(id), t);
    }
}

/// A history with an open dispute is not empty.
pub proof fn lemma_unresolved_nonempty(history: Seq<Transaction>)
    ensures
        has_unresolved(history) ==> history.len() > 0,
{
    history.lemma_filter_len(is_dispute());
}

/// The empty history resolves nothing.
pub proof fn lemma_empty_answers()
    ensures
        resolutions_answer_disputes(Seq::<Transaction>::empty()),
{
    assert forall|id: u32|
        resolve_count(Seq::<Transaction>::empty(), id) <= #[trigger] dispute_count(
            Seq::<Transaction>::empty(),
            id,
        ) by {
        Seq::<Transaction>::empty().lemma_filter_len(is_resolve_of(id));
    }
}

} // verus!
