//! The canonical rendering of JSON: no white space, object members in ascending order of key.
use crate::json::{
    items_view, lemma_view, members_view, Json, Number, NumberModel, Value,
};
use crate::text::{comes_before, decimal, decimal_text, hex_digit, text_before};
use vstd::prelude::*;

verus! {

/// The JSON escape of one character of a string.
pub open spec fn escaped(c: char) -> Seq<char> {
    if c == '"' {
        seq!['\\', '"']
    } else if c == '\\' {
        seq!['\\', '\\']
    } else if c == '\u{8}' {
        seq!['\\', 'b']
    } else if c == '\u{c}' {
        seq!['\\', 'f']
    } else if c == '\n' {
        seq!['\\', 'n']
    } else if c == '\r' {
        seq!['\\', 'r']
    } else if c == '\t' {
        seq!['\\', 't']
    } else if (c as nat) < 32 {
        seq!['\\', 'u', '0', '0', hex_digit(c as nat / 16), hex_digit(c as nat % 16)]
    } else {
        seq![c]
    }
}

/// The escapes of the characters of `s`, one after the other.
pub open spec fn escaped_text(s: Seq<char>) -> Seq<char>
    decreases s.len(),
{
    if s.len() == 0 {
        Seq::empty()
    } else {
        escaped_text(s.drop_last()) + escaped(s.last())
    }
}

/// The JSON string literal of `s`.
pub open spec fn string_literal(s: Seq<char>) -> Seq<char> {
    seq!['"'] + escaped_text(s) + seq!['"']
}

/// The JSON numeral of `n`.
pub open spec fn number_text(n: NumberModel) -> Seq<char> {
    match n {
        NumberModel::PosInt(n) => decimal(n),
        NumberModel::NegInt(n) => if n < 0 {
            seq!['-'] + decimal((-n) as nat)
        } else {
            decimal(n as nat)
        },
        NumberModel::Float(text) => text,
    }
}

/// `parts` with a comma between each two.
pub open spec fn comma_joined(parts: Seq<Seq<char>>) -> Seq<char>
    decreases parts.len(),
{
    if parts.len() == 0 {
        Seq::empty()
    } else if parts.len() == 1 {
        parts[0]
    } else {
        comma_joined(parts.drop_last()) + seq![','] + parts.last()
    }
}

/// `sorted` with `member` put behind the last member whose key does not come after its own.
pub open spec fn insert_in_order(
    sorted: Seq<(Seq<char>, Seq<char>)>,
    member: (Seq<char>, Seq<char>),
) -> Seq<(Seq<char>, Seq<char>)>
    decreases sorted.len(),
{
    if sorted.len() == 0 || !comes_before(member.0, sorted.last().0) {
        sorted.push(member)
    } else {
        insert_in_order(sorted.drop_last(), member).push(sorted.last())
    }
}

/// `members` in ascending order of key.
pub open spec fn in_key_order(members: Seq<(Seq<char>, Seq<char>)>) -> Seq<(Seq<char>, Seq<char>)>
    decreases members.len(),
{
    if members.len() == 0 {
        Seq::empty()
    } else {
        insert_in_order(in_key_order(members.drop_last()), members.last())
    }
}

/// One member of an object whose value is rendered already.
pub open spec fn member_text(member: (Seq<char>, Seq<char>)) -> Seq<char> {
    string_literal(member.0) + seq![':'] + member.1
}

/// The object whose members have the given keys and rendered values.
pub open spec fn object_text(members: Seq<(Seq<char>, Seq<char>)>) -> Seq<char> {
    seq!['{'] + comma_joined(
        in_key_order(members).map_values(|m: (Seq<char>, Seq<char>)| member_text(m)),
    ) + seq!['}']
}

/// The canonical rendering of `json`.
pub open spec fn stable_text(json: Json) -> Seq<char>
    decreases json,
{
    match json {
        Json::Null => "null"@,
        Json::Bool(b) => if b {
            "true"@
        } else {
            "false"@
        },
        Json::Number(n) => number_text(n),
        Json::String(s) => string_literal(s),
        Json::Array(items) => seq!['['] + comma_joined(item_texts(items)) + seq![']'],
        Json::Object(members) => object_text(member_texts(members)),
    }
}

/// The renderings of the items of an array.
pub open spec fn item_texts(items: Seq<Json>) -> Seq<Seq<char>>
    decreases items,
{
    if items.len() == 0 {
        Seq::empty()
    } else {
        item_texts(items.drop_last()).push(stable_text(items[items.len() - 1]))
    }
}

/// The members of an object with their values rendered.
pub open spec fn member_texts(members: Seq<(Seq<char>, Json)>) -> Seq<(Seq<char>, Seq<char>)>
    decreases members,
{
    if members.len() == 0 {
        Seq::empty()
    } else {
        member_texts(members.drop_last()).push(
            (members[members.len() - 1].0, stable_text(members[members.len() - 1].1)),
        )
    }
}

/// `serde_json::to_string` of a `str`: it succeeds and gives the JSON string literal of the text,
/// with the short escapes where JSON has one and `\u00xx` for the other control characters.
#[verifier::external_body]
pub(crate) fn to_json_string(s: &str) -> (text: Option<String>)
    ensures
        text is Some,
        text->0@ == string_literal(s@),
{
    serde_json::to_string(s).ok()
}

/// `parts[..n]` joined grows by a comma and the next part.
proof fn lemma_comma_joined_step(parts: Seq<Seq<char>>, n: int)
    requires
        0 <= n < parts.len(),
    ensures
        comma_joined(parts.take(n + 1)) == if n == 0 {
            parts[0]
        } else {
            comma_joined(parts.take(n)) + seq![','] + parts[n]
        },
{
    assert(parts.take(n + 1).drop_last() == parts.take(n));
}

/// The JSON numeral of `n`.
fn number_to_text(n: &Number) -> (text: String)
    ensures
        text@ == number_text(n@),
{
    match n {
        Number::PosInt(n) => decimal_text(*n),
        Number::NegInt(n) => {
            if *n < 0 {
                let mut text = String::new();
                text.push('-');
                let digits = decimal_text((-(*n as i128)) as u64);
                text.append(digits.as_str());
                text
            } else {
                decimal_text(*n as u64)
            }
        },
        Number::Float(text) => text.clone(),
    }
}

/// The texts of pairs of strings.
pub open spec fn pairs_view(pairs: Seq<(String, String)>) -> Seq<(Seq<char>, Seq<char>)> {
    Seq::new(pairs.len(), |i: int| (pairs[i].0@, pairs[i].1@))
}

/// Adds a member whose value is rendered already.
pub fn add_member(members: &mut Vec<(String, String)>, key: &str, text: String)
    ensures
        pairs_view(final(members)@) == pairs_view(old(members)@).push((key@, text@)),
{
    members.push((key.to_owned(), text));
    proof {
        assert(pairs_view(members@) =~= pairs_view(old(members)@).push((key@, text@)));
    }
}

/// Inserting behind everything that does not come after the member is [`insert_in_order`].
proof fn lemma_insert_in_order(
    sorted: Seq<(Seq<char>, Seq<char>)>,
    member: (Seq<char>, Seq<char>),
    at: int,
)
    requires
        0 <= at <= sorted.len(),
        at > 0 ==> !comes_before(member.0, sorted[at - 1].0),
        forall|j: int| at <= j < sorted.len() ==> comes_before(member.0, sorted[j].0),
    ensures
        insert_in_order(sorted, member) == sorted.insert(at, member),
    decreases sorted.len(),
{
    if at == sorted.len() {
        assert(sorted.insert(at, member) =~= sorted.push(member));
    } else {
        assert(comes_before(member.0, sorted[sorted.len() - 1].0));
        lemma_insert_in_order(sorted.drop_last(), member, at);
        assert(sorted.insert(at, member) =~= sorted.drop_last().insert(at, member).push(
            sorted.last(),
        ));
    }
}

/// `members` in ascending order of key.
fn sort_members(members: &Vec<(String, String)>) -> (sorted: Vec<(String, String)>)
    ensures
        pairs_view(sorted@) == in_key_order(pairs_view(members@)),
{
    let mut sorted: Vec<(String, String)> = Vec::new();
    let mut n: usize = 0;
    let ghost all = pairs_view(members@);
    proof {
        assert(pairs_view(sorted@) =~= in_key_order(all.take(0)));
    }
    while n < members.len()
        invariant
            n <= members@.len(),
            all == pairs_view(members@),
            pairs_view(sorted@) == in_key_order(all.take(n as int)),
        decreases members@.len() - n,
    {
        let mut at: usize = sorted.len();
        while at > 0 && text_before(members[n as usize].0.as_str(), sorted[at - 1].0.as_str())
            invariant
                at <= sorted@.len(),
                n < members@.len(),
                all == pairs_view(members@),
                forall|j: int|
                    at <= j < sorted@.len() ==> comes_before(
                        all[n as int].0,
                        pairs_view(sorted@)[j].0,
                    ),
            decreases at,
        {
            at = at - 1;
        }
        let ghost before = pairs_view(sorted@);
        sorted.insert(at, (members[n].0.clone(), members[n].1.clone()));
        proof {
            lemma_insert_in_order(before, all[n as int], at as int);
            assert(pairs_view(sorted@) =~= before.insert(at as int, all[n as int]));
            assert(all.take(n + 1).drop_last() == all.take(n as int));
        }
        n = n + 1;
    }
    proof {
        assert(all.take(n as int) == all);
    }
    sorted
}

/// The object whose members have the given keys and rendered values.
pub fn render_object(members: &Vec<(String, String)>) -> (text: String)
    ensures
        text@ == object_text(pairs_view(members@)),
{
    let sorted = sort_members(members);
    let ghost parts = in_key_order(pairs_view(members@)).map_values(
        |m: (Seq<char>, Seq<char>)| member_text(m),
    );
    let mut text = String::new();
    text.push('{');
    let mut n: usize = 0;
    proof {
        assert(parts.take(0) =~= Seq::empty());
        assert(text@ =~= seq!['{'] + comma_joined(parts.take(0)));
    }
    while n < sorted.len()
        invariant
            n <= sorted@.len(),
            pairs_view(sorted@) == in_key_order(pairs_view(members@)),
            parts == in_key_order(pairs_view(members@)).map_values(
                |m: (Seq<char>, Seq<char>)| member_text(m),
            ),
            text@ == seq!['{'] + comma_joined(parts.take(n as int)),
        decreases sorted@.len() - n,
    {
        proof {
            lemma_comma_joined_step(parts, n as int);
            assert(sorted@.len() == pairs_view(sorted@).len());
            assert(pairs_view(sorted@)[n as int] == (sorted@[n as int].0@, sorted@[n as int].1@));
            assert(parts[n as int] == member_text(pairs_view(sorted@)[n as int]));
        }
        if n > 0 {
            text.push(',');
        }
        let key = to_json_string(sorted[n].0.as_str()).unwrap();
        text.append(key.as_str());
        text.push(':');
        text.append(sorted[n].1.as_str());
        proof {
            assert(text@ =~= seq!['{'] + comma_joined(parts.take(n + 1)));
        }
        n = n + 1;
    }
    text.push('}');
    proof {
        assert(pairs_view(sorted@).len() == parts.len());
        assert(parts.take(n as int) == parts);
        assert(text@ =~= object_text(pairs_view(members@)));
    }
    text
}

/// The rendering of a prefix of items is the prefix of the renderings.
pub proof fn lemma_item_texts(items: Seq<Json>, n: int)
    requires
        0 <= n <= items.len(),
    ensures
        item_texts(items).len() == items.len(),
        item_texts(items).take(n) == item_texts(items.take(n)),
        n < items.len() ==> item_texts(items)[n] == stable_text(items[n]),
    decreases items.len(),
{
    if items.len() > 0 {
        if n < items.len() {
            lemma_item_texts(items.drop_last(), n);
            assert(items.drop_last().take(n) == items.take(n));
            assert(item_texts(items).take(n) =~= item_texts(items.drop_last()).take(n));
        } else {
            lemma_item_texts(items.drop_last(), n - 1);
            assert(items.take(n) == items);
            assert(item_texts(items).take(n) =~= item_texts(items));
        }
    } else {
        assert(items.take(n) =~= items);
        assert(item_texts(items).take(n) =~= item_texts(items));
    }
}

/// [`member_texts`] keeps the keys and renders the values.
pub proof fn lemma_member_texts(members: Seq<(Seq<char>, Json)>)
    ensures
        member_texts(members).len() == members.len(),
        forall|i: int|
            0 <= i < members.len() ==> #[trigger] member_texts(members)[i] == (
                members[i].0,
                stable_text(members[i].1),
            ),
    decreases members.len(),
{
    if members.len() > 0 {
        lemma_member_texts(members.drop_last());
    }
}

/// The canonical rendering of `value`.
pub fn stable_json(value: &Value) -> (text: String)
    ensures
        text@ == stable_text(value@),
    decreases value,
{
    proof {
        lemma_view(*value);
    }
    match value {
        Value::Null => "null".to_owned(),
        Value::Bool(b) => {
            if *b {
                "true".to_owned()
            } else {
                "false".to_owned()
            }
        },
        Value::Number(n) => number_to_text(n),
        Value::String(s) => to_json_string(s.as_str()).unwrap(),
        Value::Array(items) => {
            let ghost parts = item_texts(items_view(items@));
            let mut text = String::new();
            text.push('[');
            let mut n: usize = 0;
            proof {
                lemma_item_texts(items_view(items@), 0);
                assert(parts.take(0) =~= Seq::empty());
                assert(text@ =~= seq!['['] + comma_joined(parts.take(0)));
            }
            while n < items.len()
                invariant
                    n <= items@.len(),
                    *value == Value::Array(*items),
                    parts == item_texts(items_view(items@)),
                    parts.len() == items@.len(),
                    text@ == seq!['['] + comma_joined(parts.take(n as int)),
                decreases items@.len() - n,
            {
                proof {
                    lemma_item_texts(items_view(items@), n as int);
                    lemma_comma_joined_step(parts, n as int);
                }
                if n > 0 {
                    text.push(',');
                }
                proof {
                    assert(decreases_to!(value => value->Array_0));
                    assert(decreases_to!(value->Array_0 => value->Array_0@));
                    assert(decreases_to!(value->Array_0@ => value->Array_0@[n as int]));
                }
                let part = stable_json(&items[n]);
                text.append(part.as_str());
                proof {
                    assert(text@ =~= seq!['['] + comma_joined(parts.take(n + 1)));
                }
                n = n + 1;
            }
            text.push(']');
            proof {
                assert(parts.take(n as int) == parts);
                assert(text@ =~= stable_text(value@));
            }
            text
        },
        Value::Object(members) => {
            let mut rendered: Vec<(String, String)> = Vec::new();
            let mut n: usize = 0;
            while n < members.len()
                invariant
                    n <= members@.len(),
                    rendered@.len() == n,
                    *value == Value::Object(*members),
                    forall|i: int|
                        #![trigger rendered@[i]]
                        0 <= i < n ==> rendered@[i].0@ == members@[i].0@ && rendered@[i].1@
                            == stable_text(members@[i].1@),
                decreases members@.len() - n,
            {
                proof {
                    assert(decreases_to!(value => value->Object_0));
                    assert(decreases_to!(value->Object_0 => value->Object_0@));
                    assert(decreases_to!(value->Object_0@ => value->Object_0@[n as int]));
                    assert(decreases_to!(value->Object_0@[n as int] => value->Object_0@[n as int].1));
                }
                let part = stable_json(&members[n].1);
                rendered.push((members[n].0.clone(), part));
                n = n + 1;
            }
            proof {
                lemma_member_texts(members_view(members@));
                assert(pairs_view(rendered@) =~= member_texts(members_view(members@)));
            }
            render_object(&rendered)
        },
    }
}

} // verus!
