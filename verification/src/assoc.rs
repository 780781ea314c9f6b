//! Lists of pairs of key and value, in which a key stands for the value of its first pair.
use vstd::prelude::*;

verus! {

/// The first position of `key` in `members`, or their number if it does not occur.
pub open spec fn position<V>(members: Seq<(Seq<char>, V)>, key: Seq<char>) -> int
    decreases members.len(),
{
    if members.len() == 0 || members[0].0 == key {
        0
    } else {
        1 + position(members.drop_first(), key)
    }
}

/// What `key` stands for in `members`.
pub open spec fn lookup<V>(members: Seq<(Seq<char>, V)>, key: Seq<char>) -> Option<V> {
    let i = position(members, key);
    if i < members.len() {
        Some(members[i].1)
    } else {
        None
    }
}

/// `members` once `key` stands for `value`: its member is replaced, or added at the end.
pub open spec fn with_member<V>(members: Seq<(Seq<char>, V)>, key: Seq<char>, value: V) -> Seq<
    (Seq<char>, V),
> {
    let i = position(members, key);
    if i < members.len() {
        members.update(i, (key, value))
    } else {
        members.push((key, value))
    }
}

/// `members` without the member of `key`.
pub open spec fn without_member<V>(members: Seq<(Seq<char>, V)>, key: Seq<char>) -> Seq<
    (Seq<char>, V),
> {
    let i = position(members, key);
    if i < members.len() {
        members.remove(i)
    } else {
        members
    }
}

/// No key occurs twice.
pub open spec fn distinct_keys<V>(members: Seq<(Seq<char>, V)>) -> bool {
    forall|i: int, j: int| 0 <= i < j < members.len() ==> members[i].0 != members[j].0
}

/// [`position`] is the least index at which the key stands.
pub proof fn lemma_position<V>(members: Seq<(Seq<char>, V)>, key: Seq<char>)
    ensures
        0 <= position(members, key) <= members.len(),
        position(members, key) < members.len() ==> members[position(members, key)].0 == key,
        forall|j: int| 0 <= j < position(members, key) ==> members[j].0 != key,
    decreases members.len(),
{
    if members.len() > 0 && members[0].0 != key {
        lemma_position(members.drop_first(), key);
        assert forall|j: int| 0 <= j < position(members, key) implies members[j].0 != key by {
            if j > 0 {
                assert(members[j] == members.drop_first()[j - 1]);
            }
        }
    }
}

/// An index with the key, before which the key does not stand, is its [`position`].
pub proof fn lemma_position_is<V>(members: Seq<(Seq<char>, V)>, key: Seq<char>, i: int)
    requires
        0 <= i <= members.len(),
        i < members.len() ==> members[i].0 == key,
        forall|j: int| 0 <= j < i ==> members[j].0 != key,
    ensures
        position(members, key) == i,
{
    lemma_position(members, key);
}

/// The map that `members` describe.
pub open spec fn as_map<V>(members: Seq<(Seq<char>, V)>) -> Map<Seq<char>, V> {
    Map::new(|key: Seq<char>| lookup(members, key) is Some, |key: Seq<char>| lookup(members, key)->0)
}

/// Where no key occurs twice, each stands for the value of its pair.
pub proof fn lemma_lookup_at<V>(members: Seq<(Seq<char>, V)>, i: int)
    requires
        distinct_keys(members),
        0 <= i < members.len(),
    ensures
        lookup(members, members[i].0) == Some(members[i].1),
{
    lemma_position_is(members, members[i].0, i);
}

/// Where a key stands depends on the keys alone.
pub proof fn lemma_same_keys<V, W>(a: Seq<(Seq<char>, V)>, b: Seq<(Seq<char>, W)>, key: Seq<char>)
    requires
        a.len() == b.len(),
        forall|i: int| 0 <= i < a.len() ==> (#[trigger] a[i]).0 == b[i].0,
    ensures
        position(a, key) == position(b, key),
{
    lemma_position(b, key);
    let i = position(b, key);
    assert forall|j: int| 0 <= j < i implies a[j].0 != key by {
        assert(b[j].0 != key);
    }
    lemma_position_is(a, key, i);
}

/// What is put in is found, and nothing else changes.
pub proof fn lemma_with_member<V>(members: Seq<(Seq<char>, V)>, key: Seq<char>, value: V)
    ensures
        lookup(with_member(members, key, value), key) == Some(value),
        forall|other: Seq<char>|
            other != key ==> #[trigger] lookup(with_member(members, key, value), other) == lookup(
                members,
                other,
            ),
        distinct_keys(members) ==> distinct_keys(with_member(members, key, value)),
        as_map(with_member(members, key, value)) == as_map(members).insert(key, value),
{
    let after = with_member(members, key, value);
    let i = position(members, key);
    lemma_position(members, key);
    lemma_position_is(after, key, i);
    assert forall|other: Seq<char>| other != key implies #[trigger] lookup(after, other) == lookup(
        members,
        other,
    ) by {
        lemma_position(members, other);
        let j = position(members, other);
        if j < members.len() {
            lemma_position_is(after, other, j);
        } else {
            lemma_position_is(after, other, after.len() as int);
        }
    }
    assert(as_map(after) =~= as_map(members).insert(key, value));
}

/// Taking out a key changes nothing for the others.
pub proof fn lemma_without_member<V>(members: Seq<(Seq<char>, V)>, key: Seq<char>)
    ensures
        forall|other: Seq<char>|
            other != key ==> #[trigger] lookup(without_member(members, key), other) == lookup(
                members,
                other,
            ),
        distinct_keys(members) ==> lookup(without_member(members, key), key) is None,
{
    let after = without_member(members, key);
    let i = position(members, key);
    lemma_position(members, key);
    if i < members.len() {
        assert forall|other: Seq<char>| other != key implies #[trigger] lookup(after, other)
            == lookup(members, other) by {
            lemma_position(members, other);
            let j = position(members, other);
            assert(forall|k: int| i <= k < after.len() ==> after[k] == members[k + 1]);
            if j < i {
                lemma_position_is(after, other, j);
            } else {
                assert(j != i);
                assert forall|k: int| 0 <= k < j - 1 implies after[k].0 != other by {
                    if k >= i {
                        assert(members[k + 1].0 != other);
                    }
                }
                lemma_position_is(after, other, j - 1);
            }
        }
        if distinct_keys(members) {
            lemma_remove_at(members, i);
        }
    }
}

/// Where no key occurs twice, changing the value of a pair changes what its key stands for.
pub proof fn lemma_update_at<V>(members: Seq<(Seq<char>, V)>, i: int, value: V)
    requires
        distinct_keys(members),
        0 <= i < members.len(),
    ensures
        distinct_keys(members.update(i, (members[i].0, value))),
        as_map(members.update(i, (members[i].0, value))) == as_map(members).insert(
            members[i].0,
            value,
        ),
{
    lemma_position_is(members, members[i].0, i);
    lemma_with_member(members, members[i].0, value);
}

/// Where no key occurs twice, taking out a pair takes out its key, and nothing else changes.
pub proof fn lemma_remove_at<V>(members: Seq<(Seq<char>, V)>, i: int)
    requires
        distinct_keys(members),
        0 <= i < members.len(),
    ensures
        distinct_keys(members.remove(i)),
        lookup(members.remove(i), members[i].0) is None,
        forall|other: Seq<char>|
            other != members[i].0 ==> #[trigger] lookup(members.remove(i), other) == lookup(
                members,
                other,
            ),
        as_map(members.remove(i)) == as_map(members).remove(members[i].0),
{
    let after = members.remove(i);
    let key = members[i].0;
    assert forall|j: int| 0 <= j < after.len() implies after[j].0 != key by {
        if j < i {
            assert(after[j] == members[j]);
        } else {
            assert(after[j] == members[j + 1]);
        }
    }
    lemma_position_is(after, key, after.len() as int);
    assert forall|other: Seq<char>| other != key implies #[trigger] lookup(after, other) == lookup(
        members,
        other,
    ) by {
        lemma_position(members, other);
        let j = position(members, other);
        if j < i {
            lemma_position_is(after, other, j);
        } else if j < members.len() {
            assert(j != i);
            assert(after[j - 1] == members[j]);
            assert forall|k: int| 0 <= k < j - 1 implies after[k].0 != other by {
                if k >= i {
                    assert(after[k] == members[k + 1]);
                }
            }
            lemma_position_is(after, other, j - 1);
        } else {
            assert forall|k: int| 0 <= k < after.len() implies after[k].0 != other by {
                if k >= i {
                    assert(after[k] == members[k + 1]);
                }
            }
            lemma_position_is(after, other, after.len() as int);
        }
    }
    assert(as_map(after) =~= as_map(members).remove(key));
}

/// Where no key occurs twice, there are as many keys as pairs.
pub proof fn lemma_as_map_len<V>(members: Seq<(Seq<char>, V)>)
    requires
        distinct_keys(members),
    ensures
        as_map(members).dom().finite(),
        as_map(members).len() == members.len(),
    decreases members.len(),
{
    if members.len() == 0 {
        assert(as_map(members).dom() =~= Set::empty());
    } else {
        let last = members.len() - 1;
        lemma_remove_at(members, last);
        lemma_lookup_at(members, last);
        lemma_as_map_len(members.remove(last));
        assert(as_map(members).dom() =~= as_map(members.remove(last)).dom().insert(
            members[last].0,
        ));
    }
}

} // verus!
