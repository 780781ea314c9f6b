//! Laws of the canonical rendering.
use crate::assoc::distinct_keys;
use crate::json::{Json, NumberModel};
use crate::json_cut::{
    lemma_first_char, lemma_literal_cut, lemma_object_members, lemma_same_item_texts,
    lemma_same_member_texts, lemma_same_number, sound,
};
use crate::stable_json::{
    comma_joined, escaped, escaped_text, in_key_order, insert_in_order, item_texts,
    lemma_item_texts, lemma_member_texts, member_text, member_texts, object_text, stable_text,
};
use crate::text::{comes_before, decimal};
use vstd::prelude::*;

verus! {

/// Two values are the same but for the order of members in objects, at any depth. No object has a
/// key twice.
pub open spec fn same_json(a: Json, b: Json) -> bool
    decreases a,
{
    match (a, b) {
        (Json::Array(x), Json::Array(y)) => {
            &&& x.len() == y.len()
            &&& forall|i: int| #![trigger x[i]] 0 <= i < x.len() ==> same_json(x[i], y[i])
        },
        (Json::Object(x), Json::Object(y)) => {
            &&& distinct_keys(x)
            &&& distinct_keys(y)
            &&& forall|i: int| #![trigger x[i]] 0 <= i < x.len() ==> has_counterpart(x[i], y)
            &&& forall|j: int| #![trigger y[j]] 0 <= j < y.len() ==> is_counterpart(x, y[j])
        },
        _ => a == b,
    }
}

/// One of `members` has the key of `member` and the same value.
pub open spec fn has_counterpart(
    member: (Seq<char>, Json),
    members: Seq<(Seq<char>, Json)>,
) -> bool
    decreases member,
{
    exists|j: int|
        #![trigger members[j]]
        0 <= j < members.len() && member.0 == members[j].0 && same_json(member.1, members[j].1)
}

/// `member` has the key of one of `members` and the same value.
pub open spec fn is_counterpart(
    members: Seq<(Seq<char>, Json)>,
    member: (Seq<char>, Json),
) -> bool
    decreases members,
{
    exists|i: int|
        #![trigger members[i]]
        0 <= i < members.len() && members[i].0 == member.0 && same_json(members[i].1, member.1)
}

/// No text comes before itself.
pub proof fn lemma_irreflexive(a: Seq<char>)
    ensures
        !comes_before(a, a),
    decreases a.len(),
{
    if a.len() > 0 {
        lemma_irreflexive(a.drop_first());
    }
}

/// Of two texts at most one comes before the other.
pub proof fn lemma_asymmetric(a: Seq<char>, b: Seq<char>)
    requires
        comes_before(a, b),
    ensures
        !comes_before(b, a),
    decreases a.len(),
{
    if a.len() > 0 && a[0] == b[0] {
        lemma_asymmetric(a.drop_first(), b.drop_first());
    }
}

/// Of two different texts one comes before the other.
pub proof fn lemma_total(a: Seq<char>, b: Seq<char>)
    requires
        a != b,
    ensures
        comes_before(a, b) || comes_before(b, a),
    decreases a.len(),
{
    if a.len() == 0 || b.len() == 0 {
        assert(a.len() != b.len()) by {
            if a.len() == b.len() {
                assert(a =~= b);
            }
        }
    } else if a[0] == b[0] {
        if a.drop_first() == b.drop_first() {
            assert(a =~= seq![a[0]] + a.drop_first());
            assert(b =~= seq![b[0]] + b.drop_first());
        }
        lemma_total(a.drop_first(), b.drop_first());
    }
}

/// What comes before something comes before what that comes before.
pub proof fn lemma_transitive(a: Seq<char>, b: Seq<char>, c: Seq<char>)
    requires
        comes_before(a, b),
        comes_before(b, c),
    ensures
        comes_before(a, c),
    decreases a.len(),
{
    if a.len() > 0 && a[0] == b[0] && b[0] == c[0] {
        lemma_transitive(a.drop_first(), b.drop_first(), c.drop_first());
    }
}

/// Each key comes before those behind it.
pub open spec fn ascending(members: Seq<(Seq<char>, Seq<char>)>) -> bool {
    forall|i: int, j: int|
        0 <= i < j < members.len() ==> comes_before(members[i].0, members[j].0)
}

/// A new member finds its place.
proof fn lemma_insert_ascending(
    sorted: Seq<(Seq<char>, Seq<char>)>,
    member: (Seq<char>, Seq<char>),
)
    requires
        ascending(sorted),
        forall|i: int| 0 <= i < sorted.len() ==> (#[trigger] sorted[i]).0 != member.0,
    ensures
        ascending(insert_in_order(sorted, member)),
        forall|m: (Seq<char>, Seq<char>)| #[trigger]
            insert_in_order(sorted, member).contains(m) <==> m == member || sorted.contains(m),
    decreases sorted.len(),
{
    let after = insert_in_order(sorted, member);
    if sorted.len() == 0 || !comes_before(member.0, sorted.last().0) {
        if sorted.len() > 0 {
            lemma_total(member.0, sorted[sorted.len() - 1].0);
        }
        assert forall|i: int, j: int| 0 <= i < j < after.len() implies comes_before(
            after[i].0,
            after[j].0,
        ) by {
            if j == sorted.len() && i < sorted.len() - 1 {
                lemma_transitive(sorted[i].0, sorted.last().0, member.0);
            }
        }
        assert forall|m: (Seq<char>, Seq<char>)| #[trigger] after.contains(m) <==> m == member
            || sorted.contains(m) by {
            if sorted.contains(m) {
                let i = choose|i: int| 0 <= i < sorted.len() && sorted[i] == m;
                assert(after[i] == m);
            }
            assert(after[sorted.len() as int] == member);
        }
    } else {
        let front = sorted.drop_last();
        lemma_insert_ascending(front, member);
        let inserted = insert_in_order(front, member);
        assert forall|i: int, j: int| 0 <= i < j < after.len() implies comes_before(
            after[i].0,
            after[j].0,
        ) by {
            if j == inserted.len() {
                assert(inserted.contains(inserted[i]));
                if inserted[i] != member {
                    let k = choose|k: int| 0 <= k < front.len() && front[k] == inserted[i];
                    assert(sorted[k] == inserted[i]);
                }
            }
        }
        assert forall|m: (Seq<char>, Seq<char>)| #[trigger] after.contains(m) <==> m == member
            || sorted.contains(m) by {
            if after.contains(m) {
                let i = choose|i: int| 0 <= i < after.len() && after[i] == m;
                if i < inserted.len() {
                    assert(inserted.contains(inserted[i]));
                    if m != member {
                        let k = choose|k: int| 0 <= k < front.len() && front[k] == m;
                        assert(sorted[k] == m);
                    }
                } else {
                    assert(sorted[sorted.len() - 1] == m);
                }
            }
            if m == member || sorted.contains(m) {
                if m == sorted.last() {
                    assert(after[after.len() - 1] == m);
                } else {
                    if m != member {
                        let k = choose|k: int| 0 <= k < sorted.len() && sorted[k] == m;
                        assert(front[k] == m);
                    }
                    assert(inserted.contains(m));
                    let i = choose|i: int| 0 <= i < inserted.len() && inserted[i] == m;
                    assert(after[i] == m);
                }
            }
        }
    }
}

/// Sorting puts the members in order and keeps them.
pub proof fn law_in_key_order(members: Seq<(Seq<char>, Seq<char>)>)
    requires
        distinct_keys(members),
    ensures
        ascending(in_key_order(members)),
        forall|m: (Seq<char>, Seq<char>)| #[trigger]
            in_key_order(members).contains(m) <==> members.contains(m),
    decreases members.len(),
{
    if members.len() > 0 {
        let front = members.drop_last();
        law_in_key_order(front);
        let sorted = in_key_order(front);
        assert forall|i: int| 0 <= i < sorted.len() implies (#[trigger] sorted[i]).0
            != members.last().0 by {
            assert(sorted.contains(sorted[i]));
            let k = choose|k: int| 0 <= k < front.len() && front[k] == sorted[i];
            assert(members[k].0 != members[members.len() - 1].0);
        }
        lemma_insert_ascending(sorted, members.last());
        assert forall|m: (Seq<char>, Seq<char>)| #[trigger]
            in_key_order(members).contains(m) <==> members.contains(m) by {
            if members.contains(m) {
                let k = choose|k: int| 0 <= k < members.len() && members[k] == m;
                if k < front.len() {
                    assert(front[k] == m);
                    assert(sorted.contains(m));
                }
            }
            if sorted.contains(m) {
                let k = choose|k: int| 0 <= k < front.len() && front[k] == m;
                assert(members[k] == m);
            }
            assert(members[members.len() - 1] == members.last());
        }
    }
}

/// There is one order only in which members are ascending.
proof fn lemma_ascending_unique(
    a: Seq<(Seq<char>, Seq<char>)>,
    b: Seq<(Seq<char>, Seq<char>)>,
)
    requires
        ascending(a),
        ascending(b),
        forall|m: (Seq<char>, Seq<char>)|
            #![trigger a.contains(m)]
            #![trigger b.contains(m)]
            a.contains(m) <==> b.contains(m),
    ensures
        a == b,
    decreases a.len(),
{
    if a.len() == 0 {
        if b.len() > 0 {
            assert(b.contains(b[0]));
        }
        assert(a =~= b);
    } else {
        assert(a.contains(a[a.len() - 1]));
        assert(b.contains(a.last()));
        let j = choose|j: int| 0 <= j < b.len() && b[j] == a.last();
        assert(b.contains(b[b.len() - 1]));
        assert(a.contains(b.last()));
        let i = choose|i: int| 0 <= i < a.len() && a[i] == b.last();
        assert(a.last() == b.last()) by {
            if j < b.len() - 1 {
                assert(comes_before(a.last().0, b.last().0));
                if i < a.len() - 1 {
                    lemma_asymmetric(a.last().0, b.last().0);
                } else {
                    lemma_irreflexive(a.last().0);
                }
            }
        }
        let x = a.drop_last();
        let y = b.drop_last();
        assert forall|m: (Seq<char>, Seq<char>)|
            #![trigger x.contains(m)]
            #![trigger y.contains(m)]
            x.contains(m) <==> y.contains(m) by {
            if x.contains(m) {
                let k = choose|k: int| 0 <= k < x.len() && x[k] == m;
                assert(a[k] == m);
                assert(a.contains(m));
                let l = choose|l: int| 0 <= l < b.len() && b[l] == m;
                if l == b.len() - 1 {
                    lemma_irreflexive(m.0);
                }
                assert(y[l] == m);
            }
            if y.contains(m) {
                let k = choose|k: int| 0 <= k < y.len() && y[k] == m;
                assert(b[k] == m);
                assert(b.contains(m));
                let l = choose|l: int| 0 <= l < a.len() && a[l] == m;
                if l == a.len() - 1 {
                    lemma_irreflexive(m.0);
                }
                assert(x[l] == m);
            }
        }
        lemma_ascending_unique(x, y);
        assert(a =~= x.push(a.last()));
        assert(b =~= y.push(b.last()));
    }
}

/// The rendering of an object does not depend on the order in which its members stand.
pub proof fn law_object_text_ignores_order(
    a: Seq<(Seq<char>, Seq<char>)>,
    b: Seq<(Seq<char>, Seq<char>)>,
)
    requires
        distinct_keys(a),
        distinct_keys(b),
        forall|m: (Seq<char>, Seq<char>)|
            #![trigger a.contains(m)]
            #![trigger b.contains(m)]
            a.contains(m) <==> b.contains(m),
    ensures
        object_text(a) == object_text(b),
{
    law_in_key_order(a);
    law_in_key_order(b);
    let x = in_key_order(a);
    let y = in_key_order(b);
    assert forall|m: (Seq<char>, Seq<char>)|
        #![trigger x.contains(m)]
        #![trigger y.contains(m)]
        x.contains(m) <==> y.contains(m) by {
        assert(a.contains(m) <==> b.contains(m));
    }
    lemma_ascending_unique(x, y);
}

/// The canonical rendering is stable: values that differ in the order of members only, at any
/// depth, have the same rendering.
pub proof fn law_stable_text_ignores_order(a: Json, b: Json)
    requires
        same_json(a, b),
    ensures
        stable_text(a) == stable_text(b),
    decreases a, 1int,
{
    match (a, b) {
        (Json::Array(x), Json::Array(y)) => {
            assert forall|i: int| 0 <= i < x.len() implies #[trigger] same_json(x[i], y[i]) by {
                assert(x[i] == a->Array_0[i]);
            }
            lemma_same_items(x, y);
        },
        (Json::Object(x), Json::Object(y)) => {
            assert forall|i: int| 0 <= i < x.len() implies #[trigger] has_counterpart(x[i], y) by {}
            assert forall|j: int| 0 <= j < y.len() implies #[trigger] is_counterpart(x, y[j]) by {}
            lemma_members_match(x, y);
        },
        _ => {},
    }
}

/// The canonical rendering identifies a value: two sound values have the same rendering if and only
/// if they are the same but for the order of members in objects, at any depth.
pub proof fn law_stable_text_identifies_value(a: Json, b: Json)
    requires
        sound(a),
        sound(b),
    ensures
        stable_text(a) == stable_text(b) <==> same_json(a, b),
{
    if same_json(a, b) {
        law_stable_text_ignores_order(a, b);
    }
    if stable_text(a) == stable_text(b) {
        lemma_same_rendering(a, b);
    }
}

/// Sound values with the same rendering are the same but for the order of members.
proof fn lemma_same_rendering(a: Json, b: Json)
    requires
        sound(a),
        sound(b),
        stable_text(a) == stable_text(b),
    ensures
        same_json(a, b),
    decreases a, 1int,
{
    lemma_first_char(a);
    lemma_first_char(b);
    match (a, b) {
        (Json::Number(m), Json::Number(n)) => {
            lemma_same_number(m, n);
        },
        (Json::String(x), Json::String(y)) => {
            lemma_literal_cut(x, Seq::empty(), y, Seq::empty());
        },
        (Json::Array(x), Json::Array(y)) => {
            lemma_same_item_texts(x, y);
            lemma_item_texts(x, 0);
            lemma_item_texts(y, 0);
            assert forall|i: int| #![trigger x[i]] 0 <= i < x.len() implies same_json(
                x[i],
                y[i],
            ) by {
                lemma_item_texts(x, i);
                lemma_item_texts(y, i);
                lemma_same_rendering(x[i], y[i]);
            }
        },
        (Json::Object(x), Json::Object(y)) => {
            lemma_same_members_rendering(x, y);
            assert forall|i: int| #![trigger x[i]] 0 <= i < x.len() implies has_counterpart(
                x[i],
                y,
            ) by {}
            assert forall|j: int| #![trigger y[j]] 0 <= j < y.len() implies is_counterpart(
                x,
                y[j],
            ) by {}
        },
        _ => {},
    }
}

/// Each member of one of two objects with the same rendering has its counterpart in the other.
proof fn lemma_same_members_rendering(x: Seq<(Seq<char>, Json)>, y: Seq<(Seq<char>, Json)>)
    requires
        sound(Json::Object(x)),
        sound(Json::Object(y)),
        stable_text(Json::Object(x)) == stable_text(Json::Object(y)),
    ensures
        forall|i: int| 0 <= i < x.len() ==> #[trigger] has_counterpart(x[i], y),
        forall|j: int| 0 <= j < y.len() ==> #[trigger] is_counterpart(x, y[j]),
    decreases x, 0int,
{
    let sorted = in_key_order(member_texts(x));
    lemma_same_member_texts(x, y);
    lemma_object_members(x);
    lemma_object_members(y);
    assert forall|i: int| 0 <= i < x.len() implies #[trigger] has_counterpart(x[i], y) by {
        let m = (x[i].0, stable_text(x[i].1));
        assert(sorted.contains(m));
        let n = choose|n: int| 0 <= n < sorted.len() && sorted[n] == m;
        let j = choose|j: int|
            #![trigger y[j]]
            0 <= j < y.len() && sorted[n] == (y[j].0, stable_text(y[j].1));
        assert(decreases_to!(x => x[i]));
        lemma_same_rendering(x[i].1, y[j].1);
    }
    assert forall|j: int| 0 <= j < y.len() implies #[trigger] is_counterpart(x, y[j]) by {
        let m = (y[j].0, stable_text(y[j].1));
        assert(sorted.contains(m));
        let n = choose|n: int| 0 <= n < sorted.len() && sorted[n] == m;
        let i = choose|i: int|
            #![trigger x[i]]
            0 <= i < x.len() && sorted[n] == (x[i].0, stable_text(x[i].1));
        assert(decreases_to!(x => x[i]));
        lemma_same_rendering(x[i].1, y[j].1);
    }
}

/// Arrays of the same items have the same renderings.
proof fn lemma_same_items(x: Seq<Json>, y: Seq<Json>)
    requires
        x.len() == y.len(),
        forall|i: int| 0 <= i < x.len() ==> #[trigger] same_json(x[i], y[i]),
    ensures
        item_texts(x) == item_texts(y),
    decreases x, 0int,
{
    lemma_item_texts(x, 0);
    lemma_item_texts(y, 0);
    assert forall|i: int| 0 <= i < x.len() implies item_texts(x)[i] == item_texts(y)[i] by {
        assert(same_json(x[i], y[i]));
        law_stable_text_ignores_order(x[i], y[i]);
        lemma_item_texts(x, i);
        lemma_item_texts(y, i);
    }
    assert(item_texts(x) =~= item_texts(y));
}

/// Objects of the same members have the same rendering.
proof fn lemma_members_match(x: Seq<(Seq<char>, Json)>, y: Seq<(Seq<char>, Json)>)
    requires
        distinct_keys(x),
        distinct_keys(y),
        forall|i: int| 0 <= i < x.len() ==> #[trigger] has_counterpart(x[i], y),
        forall|j: int| 0 <= j < y.len() ==> #[trigger] is_counterpart(x, y[j]),
    ensures
        object_text(member_texts(x)) == object_text(member_texts(y)),
    decreases x, 0int,
{
    assert forall|i: int| 0 <= i < x.len() implies #[trigger] has_rendering(
        (x[i].0, stable_text(x[i].1)),
        y,
    ) by {
        assert(has_counterpart(x[i], y));
        let j = choose|j: int|
            #![trigger y[j]]
            0 <= j < y.len() && x[i].0 == y[j].0 && same_json(x[i].1, y[j].1);
        assert(decreases_to!(x => x[i]));
        law_stable_text_ignores_order(x[i].1, y[j].1);
    }
    assert forall|j: int| 0 <= j < y.len() implies #[trigger] has_rendering(
        (y[j].0, stable_text(y[j].1)),
        x,
    ) by {
        assert(is_counterpart(x, y[j]));
        let i = choose|i: int|
            #![trigger x[i]]
            0 <= i < x.len() && x[i].0 == y[j].0 && same_json(x[i].1, y[j].1);
        assert(decreases_to!(x => x[i]));
        law_stable_text_ignores_order(x[i].1, y[j].1);
    }
    lemma_same_members(x, y);
}

/// One of `members` has the key and the rendering of `rendered`.
pub open spec fn has_rendering(
    rendered: (Seq<char>, Seq<char>),
    members: Seq<(Seq<char>, Json)>,
) -> bool {
    exists|j: int|
        #![trigger members[j]]
        0 <= j < members.len() && rendered == (members[j].0, stable_text(members[j].1))
}

/// Objects with the same members, as far as keys and renderings go, have the same rendering.
proof fn lemma_same_members(x: Seq<(Seq<char>, Json)>, y: Seq<(Seq<char>, Json)>)
    requires
        distinct_keys(x),
        distinct_keys(y),
        forall|i: int|
            0 <= i < x.len() ==> #[trigger] has_rendering((x[i].0, stable_text(x[i].1)), y),
        forall|j: int|
            0 <= j < y.len() ==> #[trigger] has_rendering((y[j].0, stable_text(y[j].1)), x),
    ensures
        object_text(member_texts(x)) == object_text(member_texts(y)),
{
    let p = member_texts(x);
    let q = member_texts(y);
    lemma_member_texts(x);
    lemma_member_texts(y);
    assert forall|i: int, j: int| 0 <= i < j < p.len() implies p[i].0 != p[j].0 by {
        assert(x[i].0 != x[j].0);
    }
    assert forall|i: int, j: int| 0 <= i < j < q.len() implies q[i].0 != q[j].0 by {
        assert(y[i].0 != y[j].0);
    }
    assert forall|m: (Seq<char>, Seq<char>)|
        #![trigger p.contains(m)]
        #![trigger q.contains(m)]
        p.contains(m) <==> q.contains(m) by {
        if p.contains(m) {
            let i = choose|i: int| 0 <= i < p.len() && p[i] == m;
            assert(has_rendering((x[i].0, stable_text(x[i].1)), y));
            let j = choose|j: int|
                #![trigger y[j]]
                0 <= j < y.len() && m == (y[j].0, stable_text(y[j].1));
            assert(q[j] == m);
        }
        if q.contains(m) {
            let j = choose|j: int| 0 <= j < q.len() && q[j] == m;
            assert(has_rendering((y[j].0, stable_text(y[j].1)), x));
            let i = choose|i: int|
                #![trigger x[i]]
                0 <= i < x.len() && m == (x[i].0, stable_text(x[i].1));
            assert(p[i] == m);
        }
    }
    law_object_text_ignores_order(p, q);
}

/// The renderings of values that hold no others.
pub proof fn law_rendering_of_scalars(b: bool, n: nat, text: Seq<char>)
    ensures
        stable_text(Json::Null) == "null"@,
        stable_text(Json::Bool(b)) == if b {
            "true"@
        } else {
            "false"@
        },
        stable_text(Json::Number(NumberModel::PosInt(n))) == decimal(n),
        n > 0 ==> stable_text(Json::Number(NumberModel::NegInt(-(n as int)))) == seq!['-']
            + decimal(n),
        stable_text(Json::Number(NumberModel::Float(text))) == text,
        stable_text(Json::String(text)) == seq!['"'] + escaped_text(text) + seq!['"'],
{
}

/// The rendering of an array grows by a comma and the rendering of the item that is added.
pub proof fn law_rendering_of_arrays(items: Seq<Json>, item: Json)
    ensures
        stable_text(Json::Array(Seq::empty())) == seq!['[', ']'],
        stable_text(Json::Array(seq![item])) == seq!['['] + stable_text(item) + seq![']'],
        items.len() > 0 ==> stable_text(Json::Array(items.push(item))) == stable_text(
            Json::Array(items),
        ).drop_last() + seq![','] + stable_text(item) + seq![']'],
{
    let more = items.push(item);
    assert(item_texts(Seq::<Json>::empty()) =~= Seq::empty());
    assert(stable_text(Json::Array(Seq::empty())) =~= seq!['[', ']']);
    assert(seq![item].drop_last() =~= Seq::empty());
    assert(item_texts(seq![item]) =~= seq![stable_text(item)]);
    assert(stable_text(Json::Array(seq![item])) =~= seq!['['] + stable_text(item) + seq![']']);
    if items.len() > 0 {
        assert(more.drop_last() =~= items);
        lemma_item_texts(items, 0);
        assert(item_texts(more).drop_last() =~= item_texts(items));
        let front = comma_joined(item_texts(items));
        assert(stable_text(Json::Array(items)).drop_last() =~= seq!['['] + front);
        assert(stable_text(Json::Array(more)) =~= seq!['['] + front + seq![','] + stable_text(item)
            + seq![']']);
    }
}

/// The rendering of an object whose keys ascend grows by a comma and the member that is added behind
/// them.
pub proof fn law_rendering_of_objects(
    members: Seq<(Seq<char>, Json)>,
    key: Seq<char>,
    value: Json,
)
    requires
        forall|i: int, j: int|
            0 <= i < j < members.len() ==> comes_before(members[i].0, members[j].0),
        forall|i: int| 0 <= i < members.len() ==> comes_before((#[trigger] members[i]).0, key),
    ensures
        stable_text(Json::Object(Seq::empty())) == seq!['{', '}'],
        members.len() == 0 ==> stable_text(Json::Object(members.push((key, value)))) == seq!['{']
            + stable_text(Json::String(key)) + seq![':'] + stable_text(value) + seq!['}'],
        members.len() > 0 ==> stable_text(Json::Object(members.push((key, value)))) == stable_text(
            Json::Object(members),
        ).drop_last() + seq![','] + stable_text(Json::String(key)) + seq![':'] + stable_text(value)
            + seq!['}'],
{
    let more = members.push((key, value));
    let texts = member_texts(members);
    let member = (key, stable_text(value));
    let empty = Seq::<(Seq<char>, Json)>::empty();
    assert(member_texts(empty) =~= Seq::empty());
    assert(in_key_order(member_texts(empty)) =~= Seq::empty());
    assert(in_key_order(member_texts(empty)).map_values(
        |m: (Seq<char>, Seq<char>)| member_text(m),
    ) =~= Seq::empty());
    assert(stable_text(Json::Object(empty)) =~= seq!['{', '}']);
    assert(more.drop_last() =~= members);
    assert(member_texts(more) =~= texts.push(member));
    lemma_member_texts(members);
    lemma_ascending_stays(texts);
    let sorted = in_key_order(texts);
    if texts.len() > 0 {
        assert(comes_before(members[members.len() - 1].0, key));
        lemma_asymmetric(members[members.len() - 1].0, key);
        assert(sorted.last().0 == members[members.len() - 1].0);
    }
    assert(texts.push(member).drop_last() =~= texts);
    assert(in_key_order(texts.push(member)) =~= texts.push(member));
    let parts = texts.map_values(|m: (Seq<char>, Seq<char>)| member_text(m));
    let all = texts.push(member).map_values(|m: (Seq<char>, Seq<char>)| member_text(m));
    assert(all =~= parts.push(member_text(member)));
    assert(all.drop_last() =~= parts);
    if members.len() == 0 {
        assert(stable_text(Json::Object(more)) =~= seq!['{'] + stable_text(Json::String(key))
            + seq![':'] + stable_text(value) + seq!['}']);
    } else {
        let front = comma_joined(parts);
        assert(stable_text(Json::Object(members)).drop_last() =~= seq!['{'] + front);
        assert(stable_text(Json::Object(more)) =~= seq!['{'] + front + seq![','] + stable_text(
            Json::String(key),
        ) + seq![':'] + stable_text(value) + seq!['}']);
    }
}

/// Members that ascend already stay in their order.
proof fn lemma_ascending_stays(members: Seq<(Seq<char>, Seq<char>)>)
    requires
        ascending(members),
    ensures
        in_key_order(members) == members,
    decreases members.len(),
{
    if members.len() > 0 {
        let front = members.drop_last();
        assert forall|i: int, j: int| 0 <= i < j < front.len() implies comes_before(
            front[i].0,
            front[j].0,
        ) by {
            assert(comes_before(members[i].0, members[j].0));
        }
        lemma_ascending_stays(front);
        if front.len() > 0 {
            assert(comes_before(
                members[members.len() - 2].0,
                members[members.len() - 1].0,
            ));
            lemma_asymmetric(members[members.len() - 2].0, members[members.len() - 1].0);
        }
        assert(in_key_order(members) =~= members);
    }
}

/// The escapes of a text are those of its characters, one after the other. A character is escaped
/// only where it is a quote, a backslash or a control character.
pub proof fn law_only_what_must_be_is_escaped(text: Seq<char>, c: char)
    ensures
        escaped_text(Seq::empty()).len() == 0,
        escaped_text(text.push(c)) == escaped_text(text) + escaped(c),
        c != '"' && c != '\\' && c as int >= 32 ==> escaped(c) == seq![c],
        c == '"' || c == '\\' || (c as int) < 32 ==> escaped(c).len() > 1 && escaped(c)[0] == '\\',
{
    assert(text.push(c).drop_last() =~= text);
}

} // verus!
