//! The recipient list: an ordered sequence of account identifiers. Order is
//! the iteration order of a distribution; duplicates are allowed and receive
//! the amount once per occurrence.

use vstd::prelude::*;
use crate::account::valid_account;

verus! {

/// The names held by a list of identifier strings, in order.
pub open spec fn names_of(list: Seq<String>) -> Seq<Seq<char>> {
    list.map_values(|r: String| r@)
}

/// How many entries of `names` equal `name`.
pub open spec fn count_of(names: Seq<Seq<char>>, name: Seq<char>) -> nat
    decreases names.len(),
{
    if names.len() == 0 {
        0
    } else {
        (if names[0] == name {
            1nat
        } else {
            0nat
        }) + count_of(names.drop_first(), name)
    }
}

/// Every name in the list is a well-formed account identifier.
pub open spec fn all_valid(names: Seq<Seq<char>>) -> bool {
    forall|i: int| 0 <= i < names.len() ==> valid_account(#[trigger] names[i])
}

/// The list with the first occurrence of `name` taken out, order kept; the
/// list itself when `name` is absent.
pub open spec fn remove_first(names: Seq<Seq<char>>, name: Seq<char>) -> Seq<Seq<char>>
    decreases names.len(),
{
    if names.len() == 0 {
        names
    } else if names[0] == name {
        names.drop_first()
    } else {
        seq![names[0]] + remove_first(names.drop_first(), name)
    }
}

pub proof fn lemma_count_push(names: Seq<Seq<char>>, x: Seq<char>, name: Seq<char>)
    ensures
        count_of(names.push(x), name) == count_of(names, name) + (if x == name {
            1nat
        } else {
            0nat
        }),
    decreases names.len(),
{
    let t = names.push(x);
    if names.len() == 0 {
        assert(t.drop_first() =~= Seq::<Seq<char>>::empty());
        assert(count_of(t.drop_first(), name) == 0);
        assert(t[0] == x);
    } else {
        assert(t.drop_first() =~= names.drop_first().push(x));
        lemma_count_push(names.drop_first(), x, name);
        assert(t[0] == names[0]);
        assert(count_of(t, name) == (if t[0] == name {
            1nat
        } else {
            0nat
        }) + count_of(t.drop_first(), name));
    }
}

/// Taking out the first occurrence lowers the count of that name by one when
/// it is present, and leaves the list as it was when it is absent.
pub proof fn lemma_remove_first_count(names: Seq<Seq<char>>, name: Seq<char>)
    ensures
        count_of(names, name) > 0 ==> count_of(remove_first(names, name), name) == count_of(
            names,
            name,
        ) - 1,
        count_of(names, name) == 0 ==> remove_first(names, name) == names,
    decreases names.len(),
{
    if names.len() > 0 {
        lemma_remove_first_count(names.drop_first(), name);
        if names[0] != name {
            let t = seq![names[0]] + remove_first(names.drop_first(), name);
            assert(t.drop_first() =~= remove_first(names.drop_first(), name));
            if count_of(names, name) == 0 {
                assert(t =~= names);
            }
        }
    }
}

/// Taking a name out keeps every remaining name valid.
pub proof fn lemma_remove_first_valid(names: Seq<Seq<char>>, name: Seq<char>)
    requires
        all_valid(names),
    ensures
        all_valid(remove_first(names, name)),
    decreases names.len(),
{
    if names.len() > 0 {
        assert(forall|i: int|
            0 <= i < names.drop_first().len() ==> #[trigger] names.drop_first()[i] == names[i + 1]);
        lemma_remove_first_valid(names.drop_first(), name);
        if names[0] != name {
            let s = remove_first(names.drop_first(), name);
            let t = seq![names[0]] + s;
            assert(t.drop_first() =~= s);
            assert forall|i: int| 0 <= i < t.len() implies valid_account(#[trigger] t[i]) by {
                if i == 0 {
                    assert(t[0] == names[0]);
                } else {
                    assert(t[i] == s[i - 1]);
                }
            }
        }
    }
}

/// When the first `i` names differ from `name` and name `i` equals it, the
/// removal result is the list with entry `i` cut out.
pub proof fn lemma_remove_first_at(names: Seq<Seq<char>>, name: Seq<char>, i: int)
    requires
        0 <= i < names.len(),
        names[i] == name,
        forall|j: int| 0 <= j < i ==> names[j] != name,
    ensures
        remove_first(names, name) == names.subrange(0, i) + names.subrange(
            i + 1,
            names.len() as int,
        ),
    decreases i,
{
    if i == 0 {
        assert(names.drop_first() =~= names.subrange(0, 0) + names.subrange(
            1,
            names.len() as int,
        ));
    } else {
        let e2 = names.drop_first();
        assert(forall|j: int| 0 <= j < e2.len() ==> #[trigger] e2[j] == names[j + 1]);
        lemma_remove_first_at(e2, name, i - 1);
        assert(seq![names[0]] + (e2.subrange(0, i - 1) + e2.subrange(i, e2.len() as int))
            =~= names.subrange(0, i) + names.subrange(i + 1, names.len() as int));
    }
}

/// When no name matches, removal returns the list unchanged.
pub proof fn lemma_remove_first_absent(names: Seq<Seq<char>>, name: Seq<char>)
    requires
        forall|i: int| 0 <= i < names.len() ==> names[i] != name,
    ensures
        remove_first(names, name) == names,
    decreases names.len(),
{
    if names.len() > 0 {
        assert(forall|i: int|
            0 <= i < names.drop_first().len() ==> #[trigger] names.drop_first()[i] == names[i + 1]);
        lemma_remove_first_absent(names.drop_first(), name);
        assert(seq![names[0]] + names.drop_first() =~= names);
    }
}

/// The index of the first entry of `list` whose name equals `name`, if any.
pub fn position_of(list: &Vec<String>, name: &String) -> (r: Option<usize>)
    ensures
        match r {
            Some(i) => {
                &&& i < list@.len()
                &&& list@[i as int]@ == name@
                &&& forall|j: int| 0 <= j < i ==> list@[j]@ != name@
            },
            None => forall|j: int| 0 <= j < list@.len() ==> list@[j]@ != name@,
        },
{
    let n = list.len();
    let mut i: usize = 0;
    while i < n
        invariant
            n == list@.len(),
            i <= n,
            forall|j: int| 0 <= j < i ==> list@[j]@ != name@,
        decreases n - i,
    {
        if list[i] == *name {
            return Some(i);
        }
        i += 1;
    }
    None
}

} // verus!
