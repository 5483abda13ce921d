//! Laws that relate several ledger operations. Each is stated over the same
//! spec functions that the operations' own contracts use, so the contracts
//! and the laws meet in the middle.

use vstd::prelude::*;
use crate::balances::bal_of;
use crate::ledger::TokenSender;
use crate::registry::count_of;
use crate::registry::lemma_count_push;
use crate::registry::lemma_remove_first_count;
use crate::registry::remove_first;

verus! {

/// What a run of successful distributions credits to `name` in total: for
/// each step, the amount of that step times the occurrences of `name` on the
/// recipient list as it stood when the step ran.
pub open spec fn credited_over(
    ledgers: Seq<TokenSender>,
    amounts: Seq<u64>,
    name: Seq<char>,
) -> int
    decreases amounts.len(),
{
    if amounts.len() == 0 {
        0
    } else {
        credited_over(ledgers.drop_last(), amounts.drop_last(), name) + amounts.last() * count_of(
            ledgers[amounts.len() - 1].recipient_names(),
            name,
        )
    }
}

/// Across any run of successful distributions, every account's balance grows
/// by exactly the sum, over the steps, of the step's amount times the
/// account's occurrences on the recipient list at that step. `ledgers[i]` is
/// the ledger before step `i`, so `ledgers` holds one more entry than
/// `amounts`.
pub proof fn lemma_distributions_accumulate(
    ledgers: Seq<TokenSender>,
    amounts: Seq<u64>,
    name: Seq<char>,
)
    requires
        ledgers.len() == amounts.len() + 1,
        forall|i: int|
            0 <= i < amounts.len() ==> TokenSender::sent(
                ledgers[i],
                #[trigger] amounts[i],
                ledgers[i + 1],
            ),
    ensures
        bal_of(ledgers.last().balances@, name) == bal_of(ledgers[0].balances@, name)
            + credited_over(ledgers, amounts, name),
    decreases amounts.len(),
{
    if amounts.len() > 0 {
        let m = amounts.len() as int;
        let l2 = ledgers.drop_last();
        let a2 = amounts.drop_last();
        assert(forall|i: int| 0 <= i < m - 1 ==> #[trigger] a2[i] == amounts[i]);
        assert(forall|i: int| 0 <= i <= m - 1 ==> #[trigger] l2[i] == ledgers[i]);
        lemma_distributions_accumulate(l2, a2, name);
        assert(TokenSender::sent(ledgers[m - 1], amounts[m - 1], ledgers[m]));
        assert(ledgers[m].balance(name) == ledgers[m - 1].balance(name) + amounts[m - 1]
            * count_of(ledgers[m - 1].recipient_names(), name));
    }
}

/// Appending an identifier to the recipient list puts it at the end, and it
/// then occurs exactly once more than before; every other identifier's count
/// is untouched. This is what `add_recipient` followed by `get_recipients`
/// shows: the returned list is the old one with the new identifier last.
pub proof fn lemma_append_recipient_counts(names: Seq<Seq<char>>, added: Seq<char>)
    ensures
        names.push(added).len() == names.len() + 1,
        names.push(added).last() == added,
        count_of(names.push(added), added) == count_of(names, added) + 1,
        forall|other: Seq<char>|
            other != added ==> count_of(names.push(added), other) == count_of(names, other),
{
    lemma_count_push(names, added, added);
    assert forall|other: Seq<char>| other != added implies count_of(names.push(added), other)
        == count_of(names, other) by {
        lemma_count_push(names, added, other);
    }
}

/// Taking an identifier off the recipient list twice in a row: the first
/// removal takes out exactly one occurrence when any is present (and nothing
/// otherwise), and when exactly one occurrence existed, the second removal
/// is a no-op.
pub proof fn lemma_remove_recipient_twice(names: Seq<Seq<char>>, name: Seq<char>)
    ensures
        count_of(names, name) >= 1 ==> count_of(remove_first(names, name), name) == count_of(
            names,
            name,
        ) - 1,
        count_of(names, name) == 0 ==> remove_first(names, name) == names,
        count_of(names, name) == 1 ==> remove_first(remove_first(names, name), name)
            == remove_first(names, name),
{
    lemma_remove_first_count(names, name);
    if count_of(names, name) == 1 {
        lemma_remove_first_count(remove_first(names, name), name);
    }
}

} // verus!
