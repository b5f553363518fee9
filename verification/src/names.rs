//! Lists of port names and their order.

use crate::text;
use vstd::prelude::*;

verus! {

/// The contents of a list of strings.
pub open spec fn names_of(list: Seq<String>) -> Seq<Seq<char>> {
    list.map_values(|name: String| name@)
}

/// `a` does not come after `b` in the order of their characters.
pub open spec fn not_after(a: Seq<char>, b: Seq<char>) -> bool
    decreases a.len(),
{
    if a.len() == 0 {
        true
    } else if b.len() == 0 {
        false
    } else if a[0] == b[0] {
        not_after(a.drop_first(), b.drop_first())
    } else {
        a[0] < b[0]
    }
}

/// The order of names, character by character.
pub open spec fn name_order() -> spec_fn(Seq<char>, Seq<char>) -> bool {
    |a: Seq<char>, b: Seq<char>| not_after(a, b)
}

/// `names` in order.
pub open spec fn sorted(names: Seq<Seq<char>>) -> Seq<Seq<char>> {
    names.sort_by(name_order())
}

proof fn lemma_reflexive(a: Seq<char>)
    ensures
        not_after(a, a),
    decreases a.len(),
{
    if a.len() > 0 {
        lemma_reflexive(a.drop_first());
    }
}

proof fn lemma_antisymmetric(a: Seq<char>, b: Seq<char>)
    requires
        not_after(a, b),
        not_after(b, a),
    ensures
        a == b,
    decreases a.len(),
{
    if a.len() > 0 && b.len() > 0 {
        lemma_antisymmetric(a.drop_first(), b.drop_first());
        assert(seq![a[0]] + a.drop_first() == a);
        assert(seq![b[0]] + b.drop_first() == b);
    } else {
        assert(a == b);
    }
}

proof fn lemma_transitive(a: Seq<char>, b: Seq<char>, c: Seq<char>)
    requires
        not_after(a, b),
        not_after(b, c),
    ensures
        not_after(a, c),
    decreases a.len(),
{
    if a.len() > 0 && a[0] == b[0] && b[0] == c[0] {
        lemma_transitive(a.drop_first(), b.drop_first(), c.drop_first());
    }
}

proof fn lemma_total(a: Seq<char>, b: Seq<char>)
    ensures
        not_after(a, b) || not_after(b, a),
    decreases a.len(),
{
    if a.len() > 0 && b.len() > 0 && a[0] == b[0] {
        lemma_total(a.drop_first(), b.drop_first());
    }
}

/// The order of names is total: any two names can be compared, and only equal names tie.
pub proof fn law_name_order_is_total()
    ensures
        vstd::relations::total_ordering(name_order()),
{
    let order = name_order();
    assert forall|a: Seq<char>| #[trigger] order(a, a) by {
        lemma_reflexive(a);
    }
    assert forall|a: Seq<char>, b: Seq<char>| #[trigger]
        order(a, b) && #[trigger] order(b, a) implies a == b by {
        lemma_antisymmetric(a, b);
    }
    assert forall|a: Seq<char>, b: Seq<char>, c: Seq<char>| #[trigger]
        order(a, b) && #[trigger] order(b, c) implies order(a, c) by {
        lemma_transitive(a, b, c);
    }
    assert forall|a: Seq<char>, b: Seq<char>| #[trigger] order(a, b) || #[trigger] order(b, a) by {
        lemma_total(a, b);
    }
}

/// Whether `a` does not come after `b`.
fn is_not_after(a: &[char], b: &[char]) -> (result: bool)
    ensures
        result == not_after(a@, b@),
{
    let mut i: usize = 0;
    assert(a@.skip(0) == a@);
    assert(b@.skip(0) == b@);
    while i < a.len() && i < b.len() && a[i] == b[i]
        invariant
            i <= a.len(),
            i <= b.len(),
            not_after(a@.skip(i as int), b@.skip(i as int)) == not_after(a@, b@),
        decreases a.len() - i,
    {
        assert(a@.skip(i as int).drop_first() == a@.skip(i + 1));
        assert(b@.skip(i as int).drop_first() == b@.skip(i + 1));
        i += 1;
    }
    if i == a.len() {
        true
    } else if i == b.len() {
        false
    } else {
        a[i] < b[i]
    }
}

/// Puts `name` where it belongs in a list that is in order.
fn insert_name(list: &mut Vec<String>, name: String)
    requires
        vstd::relations::sorted_by(names_of(old(list)@), name_order()),
    ensures
        vstd::relations::sorted_by(names_of(final(list)@), name_order()),
        names_of(final(list)@).to_multiset() == names_of(old(list)@).to_multiset().insert(name@),
{
    let chars = text::to_chars(name.as_str());
    let ghost before = names_of(list@);
    let mut at: usize = 0;
    while at < list.len() && is_not_after(
        text::to_chars(list[at].as_str()).as_slice(),
        chars.as_slice(),
    )
        invariant
            at <= list.len(),
            list == old(list),
            chars@ == name@,
            before == names_of(list@),
            forall|j: int| 0 <= j < at ==> not_after(#[trigger] before[j], name@),
        decreases list.len() - at,
    {
        assert(before[at as int] == list@[at as int]@);
        at += 1;
    }
    list.insert(at, name);
    proof {
        let order = name_order();
        let after = names_of(list@);
        assert(after == before.insert(at as int, name@));
        law_name_order_is_total();
        if at < before.len() {
            lemma_total(before[at as int], name@);
            assert(not_after(name@, before[at as int]));
        }
        assert forall|j: int| at <= j < before.len() implies not_after(
            name@,
            #[trigger] before[j],
        ) by {
            if j > at {
                assert(order(before[at as int], before[j]));
                lemma_transitive(name@, before[at as int], before[j]);
            }
        }
        assert forall|i: int, j: int| 0 <= i < j < after.len() implies #[trigger] order(
            after[i],
            after[j],
        ) by {
            if j < at {
                assert(order(before[i], before[j]));
            } else if j == at {
                assert(after[i] == before[i]);
            } else if i < at {
                assert(order(before[i], before[j - 1]));
            } else if i == at {
                assert(after[j] == before[j - 1]);
            } else {
                assert(order(before[i - 1], before[j - 1]));
            }
        }
        broadcast use vstd::seq_lib::group_to_multiset_ensures;

        assert(after.remove(at as int) == before);
        assert(after.to_multiset().remove(name@) == before.to_multiset());
        assert(after.contains(after[at as int]));
        assert(after.to_multiset() == before.to_multiset().insert(name@));
    }
}

/// Puts names in order.
pub fn sort_names(names: Vec<String>) -> (result: Vec<String>)
    ensures
        names_of(result@) == sorted(names_of(names@)),
{
    let mut rest = names;
    let mut result: Vec<String> = Vec::new();
    broadcast use vstd::seq_lib::group_to_multiset_ensures;

    assert(names_of(result@) == Seq::<Seq<char>>::empty());
    assert(names_of(result@).to_multiset().len() == 0);
    while rest.len() > 0
        invariant
            vstd::relations::sorted_by(names_of(result@), name_order()),
            names_of(result@).to_multiset().add(names_of(rest@).to_multiset()) == names_of(
                names@,
            ).to_multiset(),
        decreases rest.len(),
    {
        let ghost all = names_of(rest@);
        match rest.pop() {
            Some(name) => {
                let ghost before = names_of(result@).to_multiset();
                insert_name(&mut result, name);
                proof {
                    broadcast use vstd::seq_lib::group_to_multiset_ensures;

                    assert(names_of(rest@).push(name@) == all);
                    assert(all.to_multiset() == names_of(rest@).to_multiset().insert(name@));
                    assert(before.insert(name@).add(names_of(rest@).to_multiset()) == before.add(
                        all.to_multiset(),
                    ));
                }
            },
            None => {},
        }
    }
    proof {
        law_name_order_is_total();
        let list = names_of(names@);
        list.lemma_sort_by_ensures(name_order());
        assert(names_of(rest@) == Seq::<Seq<char>>::empty());
        assert(names_of(rest@).to_multiset().len() == 0);
        assert(names_of(result@).to_multiset() == list.to_multiset());
        vstd::seq_lib::lemma_sorted_unique(names_of(result@), sorted(list), name_order());
    }
    result
}

/// Whether `name` is one of `list`.
pub fn has_name(list: &Vec<String>, name: &String) -> (result: bool)
    ensures
        result == names_of(list@).contains(name@),
{
    let ghost all = names_of(list@);
    let mut i: usize = 0;
    while i < list.len()
        invariant
            i <= list.len(),
            all == names_of(list@),
            forall|j: int| 0 <= j < i ==> all[j] != name@,
        decreases list.len() - i,
    {
        assert(all[i as int] == list@[i as int]@);
        if list[i] == *name {
            return true;
        }
        i += 1;
    }
    false
}

/// Putting names in order neither adds nor drops a name, and leaves each name as often as it was.
pub proof fn law_sorting_keeps_the_names(names: Seq<Seq<char>>)
    ensures
        vstd::relations::sorted_by(sorted(names), name_order()),
        sorted(names).to_multiset() == names.to_multiset(),
        sorted(names).len() == names.len(),
{
    law_name_order_is_total();
    names.lemma_sort_by_ensures(name_order());
    broadcast use vstd::seq_lib::group_to_multiset_ensures;

    assert(sorted(names).to_multiset().len() == names.to_multiset().len());
}

} // verus!
