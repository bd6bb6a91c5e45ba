//! Grouping a stream of transactions by client.
//!
//! The stream is sorted by client with a stable sort and cut into runs of one
//! client each, both by `itertools`. What is proved here is what the two steps
//! amount to: one series per client, clients ascending, each series holding
//! the transactions of its client in the order of the stream.

use crate::transaction::{Transaction, TransactionSet, TransactionSetView};
use itertools::Itertools;
use vstd::prelude::*;

verus! {

/// The transactions of `client`.
pub open spec fn of_client(client: u16) -> spec_fn(Transaction) -> bool {
    |t: Transaction| t.client == client
}

/// The series as values.
pub open spec fn views(sets: Seq<TransactionSet>) -> Seq<TransactionSetView> {
    Seq::new(sets.len(), |i: int| sets[i]@)
}

/// Clients never descend along the sequence.
pub open spec fn sorted_by_client(transactions: Seq<Transaction>) -> bool {
    forall|i: int, j: int|
        0 <= i <= j < transactions.len() ==> transactions[i].client <= transactions[j].client
}

/// `output` is `input` sorted by client, transactions of one client in the
/// order they had.
pub open spec fn is_stable_sort(input: Seq<Transaction>, output: Seq<Transaction>) -> bool {
    &&& sorted_by_client(output)
    &&& forall|client: u16| #[trigger]
        output.filter(of_client(client)) == input.filter(of_client(client))
}

/// The transactions of all groups, one group after the other.
pub open spec fn concat(groups: Seq<TransactionSetView>) -> Seq<Transaction>
    decreases groups.len(),
{
    if groups.len() == 0 {
        Seq::empty()
    } else {
        concat(groups.drop_last()) + groups.last().transactions
    }
}

/// A group is not empty and holds transactions of its own client only.
pub open spec fn uniform(group: TransactionSetView) -> bool {
    &&& group.transactions.len() > 0
    &&& forall|i: int|
        0 <= i < group.transactions.len() ==> (#[trigger] group.transactions[i]).client
            == group.client
}

/// Every group is uniform.
pub open spec fn all_uniform(groups: Seq<TransactionSetView>) -> bool {
    forall|i: int| 0 <= i < groups.len() ==> uniform(#[trigger] groups[i])
}

/// `groups` cuts `input` into its runs: stretches of one client, as long as
/// they can be.
pub open spec fn are_runs(input: Seq<Transaction>, groups: Seq<TransactionSetView>) -> bool {
    &&& concat(groups) == input
    &&& all_uniform(groups)
    &&& forall|i: int|
        0 <= i < groups.len() - 1 ==> (#[trigger] groups[i]).client != groups[i + 1].client
}

/// Clients ascend strictly from group to group.
pub open spec fn ascending(groups: Seq<TransactionSetView>) -> bool {
    forall|i: int, j: int| 0 <= i < j < groups.len() ==> groups[i].client < groups[j].client
}

/// Some group is of `client`.
pub open spec fn has_group(groups: Seq<TransactionSetView>, client: u16) -> bool {
    exists|i: int| 0 <= i < groups.len() && (#[trigger] groups[i]).client == client
}

/// `groups` is `input` grouped by client: one group for each client that
/// occurs, clients ascending, each group the transactions of its client in
/// the order of `input`.
pub open spec fn is_grouping(input: Seq<Transaction>, groups: Seq<TransactionSetView>) -> bool {
    &&& ascending(groups)
    &&& forall|i: int|
        0 <= i < groups.len() ==> (#[trigger] groups[i]).transactions.len() > 0
            && groups[i].transactions == input.filter(of_client(groups[i].client))
    &&& forall|k: int| 0 <= k < input.len() ==> has_group(groups, (#[trigger] input[k]).client)
}

/// A filter keeps a sequence whose elements all pass.
pub proof fn lemma_filter_keeps(s: Seq<Transaction>, pred: spec_fn(Transaction) -> bool)
    requires
        forall|i: int| 0 <= i < s.len() ==> pred(#[trigger] s[i]),
    ensures
        s.filter(pred) == s,
    decreases s.len(),
{
    reveal(Seq::filter);
    if s.len() > 0 {
        lemma_filter_keeps(s.drop_last(), pred);
        assert(s.drop_last().push(s.last()) =~= s);
    }
}

/// A filter empties a sequence whose elements all fail.
pub proof fn lemma_filter_drops(s: Seq<Transaction>, pred: spec_fn(Transaction) -> bool)
    requires
        forall|i: int| 0 <= i < s.len() ==> !pred(#[trigger] s[i]),
    ensures
        s.filter(pred) == Seq::<Transaction>::empty(),
    decreases s.len(),
{
    reveal(Seq::filter);
    if s.len() > 0 {
        lemma_filter_drops(s.drop_last(), pred);
    }
}

/// Where no group is of `client`, the groups hold no transaction of it.
pub proof fn lemma_absent_client(groups: Seq<TransactionSetView>, client: u16)
    requires
        all_uniform(groups),
        forall|i: int| 0 <= i < groups.len() ==> (#[trigger] groups[i]).client != client,
    ensures
        concat(groups).filter(of_client(client)) == Seq::<Transaction>::empty(),
    decreases groups.len(),
{
    if groups.len() > 0 {
        let rest = groups.drop_last();
        let last = groups.last();
        assert forall|i: int| 0 <= i < rest.len() implies uniform(#[trigger] rest[i]) && rest[i].client
            != client by {
            assert(rest[i] == groups[i]);
        }
        lemma_absent_client(rest, client);
        assert(uniform(last));
        lemma_filter_drops(last.transactions, of_client(client));
        Seq::filter_distributes_over_add(concat(rest), last.transactions, of_client(client));
    } else {
        lemma_filter_drops(concat(groups), of_client(client));
    }
}

/// Where clients ascend, the transactions of a group's client are those of
/// the group.
pub proof fn lemma_group_is_filter(groups: Seq<TransactionSetView>, n: int)
    requires
        all_uniform(groups),
        ascending(groups),
        0 <= n < groups.len(),
    ensures
        concat(groups).filter(of_client(groups[n].client)) == groups[n].transactions,
    decreases groups.len(),
{
    let client = groups[n].client;
    let rest = groups.drop_last();
    let last = groups.last();
    assert forall|i: int| 0 <= i < rest.len() implies uniform(#[trigger] rest[i]) by {
        assert(rest[i] == groups[i]);
    }
    assert(ascending(rest)) by {
        assert forall|i: int, j: int| 0 <= i < j < rest.len() implies rest[i].client
            < rest[j].client by {
            assert(rest[i] == groups[i] && rest[j] == groups[j]);
        }
    }
    assert(uniform(last));
    Seq::filter_distributes_over_add(concat(rest), last.transactions, of_client(client));
    if n == groups.len() - 1 {
        assert forall|i: int| 0 <= i < rest.len() implies (#[trigger] rest[i]).client
            != client by {
            assert(rest[i] == groups[i]);
        }
        lemma_absent_client(rest, client);
        lemma_filter_keeps(last.transactions, of_client(client));
        assert(Seq::<Transaction>::empty() + last.transactions =~= last.transactions);
    } else {
        assert(rest[n] == groups[n]);
        lemma_group_is_filter(rest, n);
        lemma_filter_drops(last.transactions, of_client(client));
        assert(rest[n].transactions + Seq::<Transaction>::empty() =~= rest[n].transactions);
    }
}

/// The runs of a sequence ordered by client are of ascending clients.
pub proof fn lemma_runs_ascend(groups: Seq<TransactionSetView>)
    requires
        all_uniform(groups),
        sorted_by_client(concat(groups)),
        forall|i: int|
            0 <= i < groups.len() - 1 ==> (#[trigger] groups[i]).client != groups[i + 1].client,
    ensures
        ascending(groups),
    decreases groups.len(),
{
    if groups.len() > 1 {
        let rest = groups.drop_last();
        let last = groups.last();
        let all = concat(groups);
        assert(all =~= concat(rest) + last.transactions);
        assert forall|i: int| 0 <= i < rest.len() implies uniform(#[trigger] rest[i]) by {
            assert(rest[i] == groups[i]);
        }
        assert forall|i: int| 0 <= i < rest.len() - 1 implies (#[trigger] rest[i]).client
            != rest[i + 1].client by {
            assert(rest[i] == groups[i] && rest[i + 1] == groups[i + 1]);
        }
        assert(sorted_by_client(concat(rest))) by {
            assert forall|i: int, j: int| 0 <= i <= j < concat(rest).len() implies concat(
                rest,
            )[i].client <= concat(rest)[j].client by {
                assert(all[i] == concat(rest)[i] && all[j] == concat(rest)[j]);
            }
        }
        lemma_runs_ascend(rest);
        // The group before the last ends right where the last one begins.
        let before = rest.last();
        assert(before == groups[groups.len() - 2]);
        assert(uniform(before) && uniform(last));
        assert(concat(rest) =~= concat(rest.drop_last()) + before.transactions);
        let p = concat(rest).len() - 1;
        assert(all[p] == before.transactions[before.transactions.len() - 1]);
        assert(all[p + 1] == last.transactions[0]);
        assert(all[p].client <= all[p + 1].client);
        assert(before.client < last.client);
        assert forall|i: int, j: int| 0 <= i < j < groups.len() implies groups[i].client
            < groups[j].client by {
            if j < groups.len() - 1 {
                assert(rest[i] == groups[i] && rest[j] == groups[j]);
            } else if i < groups.len() - 2 {
                assert(rest[i] == groups[i]);
                assert(rest[i].client < rest[rest.len() - 1].client);
            }
        }
    }
}

/// Sorting by client and cutting into runs groups by client.
pub proof fn lemma_sorted_runs_group(
    input: Seq<Transaction>,
    sorted: Seq<Transaction>,
    groups: Seq<TransactionSetView>,
)
    requires
        is_stable_sort(input, sorted),
        are_runs(sorted, groups),
    ensures
        is_grouping(input, groups),
{
    lemma_runs_ascend(groups);
    assert forall|i: int| 0 <= i < groups.len() implies (#[trigger] groups[i]).transactions.len()
        > 0 && groups[i].transactions == input.filter(of_client(groups[i].client)) by {
        assert(uniform(groups[i]));
        lemma_group_is_filter(groups, i);
        assert(sorted.filter(of_client(groups[i].client)) == input.filter(
            of_client(groups[i].client),
        ));
    }
    assert forall|k: int| 0 <= k < input.len() implies has_group(
        groups,
        (#[trigger] input[k]).client,
    ) by {
        let client = input[k].client;
        input.lemma_filter_contains(of_client(client), k);
        assert(sorted.filter(of_client(client)) == input.filter(of_client(client)));
        if forall|i: int| 0 <= i < groups.len() ==> (#[trigger] groups[i]).client != client {
            lemma_absent_client(groups, client);
        }
    }
}

/// Where the transactions of a client are not empty, the client occurs.
pub proof fn lemma_client_occurs(input: Seq<Transaction>, client: u16)
    requires
        input.filter(of_client(client)).len() > 0,
    ensures
        exists|k: int| 0 <= k < input.len() && (#[trigger] input[k]).client == client,
{
    if forall|k: int| 0 <= k < input.len() ==> (#[trigger] input[k]).client != client {
        lemma_filter_drops(input, of_client(client));
    }
}

/// Two groupings of one input have the same clients as far as both reach.
proof fn lemma_groupings_agree(
    input: Seq<Transaction>,
    first: Seq<TransactionSetView>,
    second: Seq<TransactionSetView>,
    n: int,
)
    requires
        is_grouping(input, first),
        is_grouping(input, second),
        0 <= n < first.len(),
        n < second.len(),
    ensures
        first[n].client <= second[n].client,
    decreases n,
{
    // The client of the second grouping at `n` has a group in the first one,
    // and that group cannot stand before `n`.
    let client = second[n].client;
    assert(second[n].transactions.len() > 0);
    lemma_client_occurs(input, client);
    let k = choose|k: int| 0 <= k < input.len() && (#[trigger] input[k]).client == client;
    assert(has_group(first, input[k].client));
    let i = choose|i: int| 0 <= i < first.len() && (#[trigger] first[i]).client == client;
    if i < n {
        lemma_groupings_agree(input, first, second, i);
        lemma_groupings_agree(input, second, first, i);
        assert(second[i].client < second[n].client);
    }
}

/// Grouping by client has one result: two groupings of the same input are
/// equal.
pub proof fn grouping_is_unique(
    input: Seq<Transaction>,
    first: Seq<TransactionSetView>,
    second: Seq<TransactionSetView>,
)
    requires
        is_grouping(input, first),
        is_grouping(input, second),
    ensures
        first == second,
{
    lemma_grouping_length(input, first, second);
    lemma_grouping_length(input, second, first);
    assert forall|i: int| 0 <= i < first.len() implies first[i] == second[i] by {
        lemma_groupings_agree(input, first, second, i);
        lemma_groupings_agree(input, second, first, i);
    }
    assert(first =~= second);
}

/// No grouping of an input is longer than another.
proof fn lemma_grouping_length(
    input: Seq<Transaction>,
    first: Seq<TransactionSetView>,
    second: Seq<TransactionSetView>,
)
    requires
        is_grouping(input, first),
        is_grouping(input, second),
    ensures
        first.len() >= second.len(),
{
    if first.len() < second.len() {
        // The client of the first group beyond the shorter grouping has a
        // group in it all the same.
        let n = first.len() as int;
        let client = second[n].client;
        assert(second[n].transactions.len() > 0);
        lemma_client_occurs(input, client);
        let k = choose|k: int| 0 <= k < input.len() && (#[trigger] input[k]).client == client;
        assert(has_group(first, input[k].client));
        let i = choose|i: int| 0 <= i < first.len() && (#[trigger] first[i]).client == client;
        lemma_groupings_agree(input, first, second, i);
        lemma_groupings_agree(input, second, first, i);
        assert(second[i].client < second[n].client);
    }
}

/// Sorts the transactions by client with `Itertools::sorted_by_key`, which
/// sorts ascending with the stable sort of slices: transactions of one client
/// keep their order.
#[verifier::external_body]
fn sort_by_client(transactions: Vec<Transaction>) -> (sorted: Vec<Transaction>)
    ensures
        is_stable_sort(transactions@, sorted@),
{
    transactions.into_iter().sorted_by_key(|transaction| transaction.client).collect()
}

/// Cuts the transactions into runs of one client with `Itertools::group_by`,
/// which puts consecutive elements of the same key into the same group, and
/// hands each run out under its client.
#[verifier::external_body]
fn runs_by_client(transactions: Vec<Transaction>) -> (sets: Vec<TransactionSet>)
    ensures
        are_runs(transactions@, views(sets@)),
{
    let grouped = transactions.into_iter().group_by(|transaction| transaction.client);
    let mut sets = Vec::new();
    for (key, group) in &grouped {
        sets.push(TransactionSet { transactions: group.collect(), client: key });
    }
    sets
}

/// Groups the transactions by client: one series for each client that occurs,
/// clients ascending, each series in the order of `transactions`.
pub fn group_by_client(transactions: Vec<Transaction>) -> (sets: Vec<TransactionSet>)
    ensures
        is_grouping(transactions@, views(sets@)),
{
    let ghost input = transactions@;
    let sorted = sort_by_client(transactions);
    let ghost ordered = sorted@;
    let sets = runs_by_client(sorted);
    proof {
        lemma_sorted_runs_group(input, ordered, views(sets@));
    }
    sets
}

} // verus!
