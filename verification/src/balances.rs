//! The balance table: an association list from account name to the amount
//! ever credited to it. A name that is absent holds balance zero.

use vstd::prelude::*;

verus! {

/// The balance that `entries` assigns to `name`: the value of the first entry
/// whose key is `name`, or zero when no entry has that key.
pub open spec fn bal_of(entries: Seq<(String, u64)>, name: Seq<char>) -> u64
    decreases entries.len(),
{
    if entries.len() == 0 {
        0u64
    } else if entries[0].0@ == name {
        entries[0].1
    } else {
        bal_of(entries.drop_first(), name)
    }
}

/// The sum of every balance in the table.
pub open spec fn sum_of(entries: Seq<(String, u64)>) -> int
    decreases entries.len(),
{
    if entries.len() == 0 {
        0
    } else {
        entries[0].1 + sum_of(entries.drop_first())
    }
}

/// No two entries share a key.
pub open spec fn keys_unique(entries: Seq<(String, u64)>) -> bool {
    forall|i: int, j: int|
        0 <= i < j < entries.len() ==> (#[trigger] entries[i]).0@ != (#[trigger] entries[j]).0@
}

/// Some entry holds the key `name`.
pub open spec fn has_key(entries: Seq<(String, u64)>, name: Seq<char>) -> bool {
    exists|i: int| 0 <= i < entries.len() && (#[trigger] entries[i]).0@ == name
}

pub proof fn lemma_sum_nonneg(entries: Seq<(String, u64)>)
    ensures
        sum_of(entries) >= 0,
    decreases entries.len(),
{
    if entries.len() > 0 {
        lemma_sum_nonneg(entries.drop_first());
    }
}

/// Every single balance is at most the sum of all of them.
pub proof fn lemma_bal_le_sum(entries: Seq<(String, u64)>, name: Seq<char>)
    ensures
        bal_of(entries, name) <= sum_of(entries),
    decreases entries.len(),
{
    if entries.len() > 0 {
        lemma_sum_nonneg(entries.drop_first());
        lemma_bal_le_sum(entries.drop_first(), name);
    }
}

proof fn lemma_update_value(entries: Seq<(String, u64)>, i: int, v: u64)
    requires
        0 <= i < entries.len(),
        forall|j: int| 0 <= j < i ==> (#[trigger] entries[j]).0@ != entries[i].0@,
    ensures
        bal_of(entries.update(i, (entries[i].0, v)), entries[i].0@) == v,
        forall|n: Seq<char>|
            n != entries[i].0@ ==> bal_of(entries.update(i, (entries[i].0, v)), n) == bal_of(
                entries,
                n,
            ),
        sum_of(entries.update(i, (entries[i].0, v))) == sum_of(entries) - entries[i].1 + v,
    decreases i,
{
    let t = entries.update(i, (entries[i].0, v));
    if i == 0 {
        assert(t.drop_first() =~= entries.drop_first());
        assert forall|n: Seq<char>| n != entries[i].0@ implies bal_of(t, n) == bal_of(
            entries,
            n,
        ) by {
            assert(bal_of(t, n) == bal_of(t.drop_first(), n));
            assert(bal_of(entries, n) == bal_of(entries.drop_first(), n));
        }
    } else {
        let e2 = entries.drop_first();
        assert(forall|j: int| 0 <= j < e2.len() ==> #[trigger] e2[j] == entries[j + 1]);
        lemma_update_value(e2, i - 1, v);
        assert(t.drop_first() =~= e2.update(i - 1, (e2[i - 1].0, v)));
        assert(t[0] == entries[0]);
        assert(entries[0].0@ != entries[i].0@);
        assert(bal_of(t, entries[i].0@) == bal_of(t.drop_first(), entries[i].0@));
        assert forall|n: Seq<char>| n != entries[i].0@ implies bal_of(t, n) == bal_of(
            entries,
            n,
        ) by {
            if t[0].0@ != n {
                assert(bal_of(t, n) == bal_of(t.drop_first(), n));
                assert(bal_of(entries, n) == bal_of(e2, n));
            }
        }
        assert(sum_of(t) == t[0].1 + sum_of(t.drop_first()));
    }
}

proof fn lemma_append_new(entries: Seq<(String, u64)>, p: (String, u64))
    requires
        !has_key(entries, p.0@),
    ensures
        bal_of(entries.push(p), p.0@) == p.1,
        forall|n: Seq<char>| n != p.0@ ==> bal_of(entries.push(p), n) == bal_of(entries, n),
        sum_of(entries.push(p)) == sum_of(entries) + p.1,
    decreases entries.len(),
{
    let t = entries.push(p);
    if entries.len() == 0 {
        assert(t.drop_first() =~= Seq::<(String, u64)>::empty());
        assert forall|n: Seq<char>| n != p.0@ implies bal_of(t, n) == bal_of(entries, n) by {
            assert(bal_of(t, n) == bal_of(t.drop_first(), n));
        }
        assert(sum_of(t) == t[0].1 + sum_of(t.drop_first()));
    } else {
        assert(entries[0].0@ != p.0@);
        let e2 = entries.drop_first();
        assert(forall|j: int| 0 <= j < e2.len() ==> #[trigger] e2[j] == entries[j + 1]);
        assert forall|j: int| 0 <= j < e2.len() implies (#[trigger] e2[j]).0@ != p.0@ by {
            assert(entries[j + 1].0@ != p.0@);
        }
        lemma_append_new(e2, p);
        assert(t.drop_first() =~= e2.push(p));
        assert(t[0] == entries[0]);
        assert(bal_of(t, p.0@) == bal_of(t.drop_first(), p.0@));
        assert forall|n: Seq<char>| n != p.0@ implies bal_of(t, n) == bal_of(entries, n) by {
            if t[0].0@ != n {
                assert(bal_of(t, n) == bal_of(t.drop_first(), n));
                assert(bal_of(entries, n) == bal_of(e2, n));
            }
        }
        assert(sum_of(t) == t[0].1 + sum_of(t.drop_first()));
    }
}

/// Credits `amount` to `name` in the balance table: the entry with that key
/// grows by `amount`, or a fresh entry is appended when the key is absent.
/// Every other balance, and the set of keys but for a possibly new one, stays
/// as it was; the sum of all balances grows by exactly `amount`.
pub fn credit(entries: &mut Vec<(String, u64)>, name: &String, amount: u64)
    requires
        keys_unique(old(entries)@),
        bal_of(old(entries)@, name@) + amount <= u64::MAX,
    ensures
        keys_unique(final(entries)@),
        bal_of(final(entries)@, name@) == bal_of(old(entries)@, name@) + amount,
        forall|n: Seq<char>|
            n != name@ ==> bal_of(final(entries)@, n) == bal_of(old(entries)@, n),
        sum_of(final(entries)@) == sum_of(old(entries)@) + amount,
{
    let ghost orig = entries@;
    let n = entries.len();
    let mut i: usize = 0;
    while i < n
        invariant
            entries@ == orig,
            orig == old(entries)@,
            n == entries@.len(),
            i <= n,
            keys_unique(orig),
            bal_of(orig, name@) + amount <= u64::MAX,
            forall|j: int| 0 <= j < i ==> (#[trigger] orig[j]).0@ != name@,
        decreases n - i,
    {
        if entries[i].0 == *name {
            proof {
                lemma_first_match_is_bal(orig, name@, i as int);
                lemma_update_value(orig, i as int, (orig[i as int].1 + amount) as u64);
            }
            let k = entries[i].0.clone();
            let v = entries[i].1;
            entries[i] = (k, v + amount);
            proof {
                assert(entries@ =~= orig.update(
                    i as int,
                    (orig[i as int].0, (orig[i as int].1 + amount) as u64),
                ));
                assert(forall|j: int|
                    0 <= j < entries@.len() ==> (#[trigger] entries@[j]).0 == orig[j].0);
                assert forall|a: int, b: int|
                    0 <= a < b < entries@.len() implies (#[trigger] entries@[a]).0@ != (
                #[trigger] entries@[b]).0@ by {
                    assert(orig[a].0@ != orig[b].0@);
                }
            }
            return ;
        }
        i += 1;
    }
    proof {
        assert(!has_key(orig, name@));
        lemma_absent_bal_zero(orig, name@);
        lemma_append_new(orig, (*name, amount));
    }
    entries.push((name.clone(), amount));
    proof {
        assert(entries@ =~= orig.push((*name, amount)));
        assert forall|a: int, b: int|
            0 <= a < b < entries@.len() implies (#[trigger] entries@[a]).0@ != (
        #[trigger] entries@[b]).0@ by {
            if b < orig.len() {
                assert(orig[a].0@ != orig[b].0@);
            } else {
                assert(orig[a].0@ != name@);
            }
        }
    }
}

/// When the first `i` keys differ from `name` and entry `i` holds it, the
/// balance of `name` is the value of entry `i`.
proof fn lemma_first_match_is_bal(entries: Seq<(String, u64)>, name: Seq<char>, i: int)
    requires
        0 <= i < entries.len(),
        entries[i].0@ == name,
        forall|j: int| 0 <= j < i ==> (#[trigger] entries[j]).0@ != name,
    ensures
        bal_of(entries, name) == entries[i].1,
    decreases i,
{
    if i > 0 {
        lemma_first_match_is_bal(entries.drop_first(), name, i - 1);
    }
}

/// A name with no entry holds balance zero.
proof fn lemma_absent_bal_zero(entries: Seq<(String, u64)>, name: Seq<char>)
    requires
        !has_key(entries, name),
    ensures
        bal_of(entries, name) == 0,
    decreases entries.len(),
{
    if entries.len() > 0 {
        assert(entries[0].0@ != name);
        assert(forall|j: int|
            0 <= j < entries.drop_first().len() ==> (#[trigger] entries.drop_first()[j]) == entries[j + 1]);
        lemma_absent_bal_zero(entries.drop_first(), name);
    }
}

/// Reads the balance of `name` out of the table.
pub fn lookup(entries: &Vec<(String, u64)>, name: &String) -> (r: u64)
    ensures
        r == bal_of(entries@, name@),
{
    let n = entries.len();
    let mut i: usize = 0;
    while i < n
        invariant
            n == entries@.len(),
            i <= n,
            forall|j: int| 0 <= j < i ==> (#[trigger] entries@[j]).0@ != name@,
        decreases n - i,
    {
        if entries[i].0 == *name {
            proof {
                lemma_first_match_is_bal(entries@, name@, i as int);
            }
            return entries[i].1;
        }
        i += 1;
    }
    proof {
        lemma_absent_bal_zero(entries@, name@);
    }
    0
}

} // verus!
