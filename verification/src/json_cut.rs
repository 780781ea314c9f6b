//! A canonical rendering can be told from what follows it.
use crate::assoc::distinct_keys;
use crate::json::{Json, NumberModel};
use crate::json_laws::law_in_key_order;
use crate::stable_json::{
    comma_joined, escaped, escaped_text, in_key_order, item_texts, lemma_item_texts,
    lemma_member_texts, member_text, member_texts, number_text, stable_text, string_literal,
};
use crate::text::{decimal, hex_digit, lemma_decimal};
use vstd::prelude::*;

verus! {

/// The characters of JSON numbers.
pub open spec fn is_number_char(c: char) -> bool {
    '0' <= c <= '9' || c == '+' || c == '-' || is_fraction_char(c)
}

/// The characters by which a number with a fraction or an exponent shows.
pub open spec fn is_fraction_char(c: char) -> bool {
    c == '.' || c == 'e' || c == 'E'
}

/// A number as it is held: only negative numbers as such, and a text only for a number with a
/// fraction or an exponent.
pub open spec fn sound_number(n: NumberModel) -> bool {
    match n {
        NumberModel::PosInt(_) => true,
        NumberModel::NegInt(n) => n < 0,
        NumberModel::Float(text) => {
            &&& forall|i: int| 0 <= i < text.len() ==> is_number_char(#[trigger] text[i])
            &&& exists|i: int| 0 <= i < text.len() && is_fraction_char(#[trigger] text[i])
        },
    }
}

/// A JSON value as a parser gives it: its numbers are sound, and no object has a key twice.
pub open spec fn sound(json: Json) -> bool
    decreases json,
{
    match json {
        Json::Number(n) => sound_number(n),
        Json::Array(items) => forall|i: int|
            #![trigger items[i]]
            0 <= i < items.len() ==> sound(items[i]),
        Json::Object(members) => {
            &&& distinct_keys(members)
            &&& forall|i: int|
                #![trigger members[i]]
                0 <= i < members.len() ==> sound(members[i].1)
        },
        _ => true,
    }
}

/// A comma or a closing bracket.
pub open spec fn is_delimiter(c: char) -> bool {
    c == ',' || c == ']' || c == '}'
}

/// What may follow a rendering: nothing, or a text that begins with a delimiter.
pub open spec fn follows_value(s: Seq<char>) -> bool {
    s.len() == 0 || is_delimiter(s[0])
}

/// Where `u` and `v` can begin the same text, they are the same.
pub open spec fn told_apart(u: Seq<char>, v: Seq<char>) -> bool {
    forall|s: Seq<char>, t: Seq<char>|
        follows_value(s) && follows_value(t) && #[trigger] (u + s) == #[trigger] (v + t) ==> u == v
}

/// A text begins, but not with a delimiter.
pub open spec fn begins(u: Seq<char>) -> bool {
    u.len() > 0 && !is_delimiter(u[0])
}

/// Two beginnings of one text of the same length are the same, and so is what follows.
proof fn lemma_same_cut(u: Seq<char>, s: Seq<char>, v: Seq<char>, t: Seq<char>)
    requires
        u + s == v + t,
        u.len() == v.len(),
    ensures
        u == v,
        s == t,
{
    assert(u =~= (u + s).take(u.len() as int));
    assert(v =~= (v + t).take(v.len() as int));
    assert(s =~= (u + s).skip(u.len() as int));
    assert(t =~= (v + t).skip(v.len() as int));
}

/// `parts`, each behind a comma.
pub open spec fn behind_commas(parts: Seq<Seq<char>>) -> Seq<char>
    decreases parts.len(),
{
    if parts.len() == 0 {
        Seq::empty()
    } else {
        seq![','] + parts[0] + behind_commas(parts.drop_first())
    }
}

/// The last part stands behind the others.
proof fn lemma_behind_commas_last(parts: Seq<Seq<char>>)
    requires
        parts.len() > 0,
    ensures
        behind_commas(parts) == behind_commas(parts.drop_last()) + seq![','] + parts.last(),
    decreases parts.len(),
{
    if parts.len() == 1 {
        assert(parts.drop_first() =~= Seq::empty());
        assert(parts.drop_last() =~= Seq::empty());
        assert(behind_commas(parts) =~= behind_commas(parts.drop_last()) + seq![','] + parts.last());
    } else {
        let rest = parts.drop_first();
        lemma_behind_commas_last(rest);
        assert(rest.drop_last() =~= parts.drop_last().drop_first());
        assert(parts.drop_last()[0] == parts[0]);
        assert(behind_commas(parts) =~= behind_commas(parts.drop_last()) + seq![','] + parts.last());
    }
}

/// Joined parts begin with the first one; the others stand behind commas.
proof fn lemma_comma_joined_front(parts: Seq<Seq<char>>)
    requires
        parts.len() > 0,
    ensures
        comma_joined(parts) == parts[0] + behind_commas(parts.drop_first()),
    decreases parts.len(),
{
    if parts.len() == 1 {
        assert(parts.drop_first() =~= Seq::empty());
        assert(comma_joined(parts) =~= parts[0] + behind_commas(parts.drop_first()));
    } else {
        lemma_comma_joined_front(parts.drop_last());
        lemma_behind_commas_last(parts.drop_first());
        assert(parts.drop_first().drop_last() =~= parts.drop_last().drop_first());
        assert(comma_joined(parts) =~= parts[0] + behind_commas(parts.drop_first()));
    }
}

/// Each two of `p` and `q` are told apart, and each begins.
pub open spec fn all_told_apart(p: Seq<Seq<char>>, q: Seq<Seq<char>>) -> bool {
    &&& forall|i: int| 0 <= i < p.len() ==> begins(#[trigger] p[i])
    &&& forall|j: int| 0 <= j < q.len() ==> begins(#[trigger] q[j])
    &&& forall|i: int, j: int|
        0 <= i < p.len() && 0 <= j < q.len() ==> told_apart(#[trigger] p[i], #[trigger] q[j])
}

/// What holds of all parts holds of those behind the first.
proof fn lemma_fewer_told_apart(p: Seq<Seq<char>>, q: Seq<Seq<char>>)
    requires
        all_told_apart(p, q),
        p.len() > 0,
        q.len() > 0,
    ensures
        all_told_apart(p.drop_first(), q.drop_first()),
{
    let x = p.drop_first();
    let y = q.drop_first();
    assert forall|i: int| 0 <= i < x.len() implies begins(#[trigger] x[i]) by {
        assert(x[i] == p[i + 1]);
    }
    assert forall|j: int| 0 <= j < y.len() implies begins(#[trigger] y[j]) by {
        assert(y[j] == q[j + 1]);
    }
    assert forall|i: int, j: int| 0 <= i < x.len() && 0 <= j < y.len() implies told_apart(
        #[trigger] x[i],
        #[trigger] y[j],
    ) by {
        assert(x[i] == p[i + 1]);
        assert(y[j] == q[j + 1]);
    }
}

/// What stands behind a first part: the others behind commas, the closing bracket, and the rest.
spec fn tail(parts: Seq<Seq<char>>, close: char, s: Seq<char>) -> Seq<char> {
    behind_commas(parts) + (seq![close] + s)
}

/// A first part can be cut off.
proof fn lemma_cut_first(
    p: Seq<Seq<char>>,
    s: Seq<char>,
    q: Seq<Seq<char>>,
    t: Seq<char>,
    close: char,
)
    requires
        is_delimiter(close),
        all_told_apart(p, q),
        p.len() > 0,
        q.len() > 0,
        p[0] + tail(p.drop_first(), close, s) == q[0] + tail(q.drop_first(), close, t),
    ensures
        p[0] == q[0],
        tail(p.drop_first(), close, s) == tail(q.drop_first(), close, t),
{
    let x = tail(p.drop_first(), close, s);
    let y = tail(q.drop_first(), close, t);
    assert(follows_value(x));
    assert(follows_value(y));
    assert(told_apart(p[0], q[0]));
    assert(p[0] + x == q[0] + y);
    lemma_same_cut(p[0], x, q[0], y);
}

/// Parts behind commas can be read back.
proof fn lemma_read_behind_commas(
    p: Seq<Seq<char>>,
    s: Seq<char>,
    q: Seq<Seq<char>>,
    t: Seq<char>,
    close: char,
)
    requires
        close == ']' || close == '}',
        all_told_apart(p, q),
        tail(p, close, s) == tail(q, close, t),
    ensures
        p == q,
        s == t,
    decreases p.len(),
{
    let x = tail(p, close, s);
    let y = tail(q, close, t);
    if p.len() == 0 || q.len() == 0 {
        if p.len() > 0 {
            assert(x[0] == ',');
            assert(y[0] == close);
        }
        if q.len() > 0 {
            assert(y[0] == ',');
            assert(x[0] == close);
        }
        assert(p =~= q);
        assert(x =~= seq![close] + s);
        assert(y =~= seq![close] + t);
        lemma_same_cut(seq![close], s, seq![close], t);
    } else {
        let u = p[0] + tail(p.drop_first(), close, s);
        let v = q[0] + tail(q.drop_first(), close, t);
        assert(x =~= seq![','] + u);
        assert(y =~= seq![','] + v);
        lemma_same_cut(seq![','], u, seq![','], v);
        lemma_cut_first(p, s, q, t, close);
        lemma_fewer_told_apart(p, q);
        lemma_read_behind_commas(p.drop_first(), s, q.drop_first(), t, close);
        assert(p =~= seq![p[0]] + p.drop_first());
        assert(q =~= seq![q[0]] + q.drop_first());
    }
}

/// A list of parts with a closing bracket can be read back.
pub proof fn lemma_read_list(
    p: Seq<Seq<char>>,
    s: Seq<char>,
    q: Seq<Seq<char>>,
    t: Seq<char>,
    close: char,
)
    requires
        close == ']' || close == '}',
        all_told_apart(p, q),
        comma_joined(p) + seq![close] + s == comma_joined(q) + seq![close] + t,
    ensures
        p == q,
        s == t,
{
    let x = comma_joined(p) + seq![close] + s;
    let y = comma_joined(q) + seq![close] + t;
    if p.len() > 0 {
        lemma_comma_joined_front(p);
        assert(x =~= p[0] + tail(p.drop_first(), close, s));
        assert(x[0] == p[0][0]);
    } else {
        assert(x =~= seq![close] + s);
    }
    if q.len() > 0 {
        lemma_comma_joined_front(q);
        assert(y =~= q[0] + tail(q.drop_first(), close, t));
        assert(y[0] == q[0][0]);
    } else {
        assert(y =~= seq![close] + t);
    }
    if p.len() > 0 && q.len() > 0 {
        lemma_cut_first(p, s, q, t, close);
        lemma_fewer_told_apart(p, q);
        lemma_read_behind_commas(p.drop_first(), s, q.drop_first(), t, close);
        assert(p =~= seq![p[0]] + p.drop_first());
        assert(q =~= seq![q[0]] + q.drop_first());
    } else {
        assert(x[0] == y[0]);
        assert(p =~= q);
        lemma_same_cut(seq![close], s, seq![close], t);
    }
}

/// An escape can be told from what follows it.
proof fn lemma_escape_cut(c: char, s: Seq<char>, d: char, t: Seq<char>)
    requires
        escaped(c) + s == escaped(d) + t,
    ensures
        c == d,
        s == t,
{
    let x = escaped(c) + s;
    let y = escaped(d) + t;
    assert(x[0] == escaped(c)[0]);
    assert(y[0] == escaped(d)[0]);
    if escaped(c).len() >= 2 && escaped(d).len() >= 2 {
        assert(x[1] == escaped(c)[1]);
        assert(y[1] == escaped(d)[1]);
        if escaped(c).len() == 6 && escaped(d).len() == 6 {
            assert(x[4] == hex_digit(c as nat / 16));
            assert(y[4] == hex_digit(d as nat / 16));
            assert(x[5] == hex_digit(c as nat % 16));
            assert(y[5] == hex_digit(d as nat % 16));
            assert(c as nat / 16 == d as nat / 16);
            assert(c as nat % 16 == d as nat % 16);
            assert(c as nat == d as nat);
        }
    }
    lemma_same_cut(escaped(c), s, escaped(d), t);
}

/// The escapes of a text begin with that of its first character.
proof fn lemma_escaped_front(x: Seq<char>)
    requires
        x.len() > 0,
    ensures
        escaped_text(x) == escaped(x[0]) + escaped_text(x.drop_first()),
    decreases x.len(),
{
    if x.len() == 1 {
        assert(x.drop_first() =~= Seq::empty());
        assert(x.drop_last() =~= Seq::empty());
        assert(escaped_text(x) =~= escaped(x[0]) + escaped_text(x.drop_first()));
    } else {
        lemma_escaped_front(x.drop_last());
        assert(x.drop_last().drop_first() =~= x.drop_first().drop_last());
        assert(escaped_text(x) =~= escaped(x[0]) + escaped_text(x.drop_first()));
    }
}

/// The escapes of a text up to the closing quote can be read back.
proof fn lemma_escaped_cut(x: Seq<char>, s: Seq<char>, y: Seq<char>, t: Seq<char>)
    requires
        escaped_text(x) + (seq!['"'] + s) == escaped_text(y) + (seq!['"'] + t),
    ensures
        x == y,
        s == t,
    decreases x.len(),
{
    let p = escaped_text(x) + (seq!['"'] + s);
    let q = escaped_text(y) + (seq!['"'] + t);
    if x.len() > 0 {
        lemma_escaped_front(x);
        assert(p[0] == escaped(x[0])[0]);
    } else {
        assert(p =~= seq!['"'] + s);
    }
    if y.len() > 0 {
        lemma_escaped_front(y);
        assert(q[0] == escaped(y[0])[0]);
    } else {
        assert(q =~= seq!['"'] + t);
    }
    if x.len() > 0 && y.len() > 0 {
        let u = escaped_text(x.drop_first()) + (seq!['"'] + s);
        let v = escaped_text(y.drop_first()) + (seq!['"'] + t);
        assert(p =~= escaped(x[0]) + u);
        assert(q =~= escaped(y[0]) + v);
        lemma_escape_cut(x[0], u, y[0], v);
        lemma_escaped_cut(x.drop_first(), s, y.drop_first(), t);
        assert(x =~= seq![x[0]] + x.drop_first());
        assert(y =~= seq![y[0]] + y.drop_first());
    } else {
        assert(p[0] == q[0]);
        assert(x =~= y);
        lemma_same_cut(seq!['"'], s, seq!['"'], t);
    }
}

/// A string literal can be told from what follows it.
pub proof fn lemma_literal_cut(x: Seq<char>, s: Seq<char>, y: Seq<char>, t: Seq<char>)
    requires
        string_literal(x) + s == string_literal(y) + t,
    ensures
        x == y,
        s == t,
{
    let u = escaped_text(x) + (seq!['"'] + s);
    let v = escaped_text(y) + (seq!['"'] + t);
    assert(string_literal(x) + s =~= seq!['"'] + u);
    assert(string_literal(y) + t =~= seq!['"'] + v);
    lemma_same_cut(seq!['"'], u, seq!['"'], v);
    lemma_escaped_cut(x, s, y, t);
}

/// A numeral is not empty and consists of the characters of numbers.
proof fn lemma_number_chars(n: NumberModel)
    requires
        sound_number(n),
    ensures
        number_text(n).len() > 0,
        forall|i: int|
            0 <= i < number_text(n).len() ==> is_number_char(#[trigger] number_text(n)[i]),
{
    match n {
        NumberModel::PosInt(k) => {
            lemma_decimal(k);
        },
        NumberModel::NegInt(k) => {
            lemma_decimal((-k) as nat);
        },
        NumberModel::Float(_) => {},
    }
}

/// A numeral can be told from what follows it.
proof fn lemma_numbers_told_apart(m: NumberModel, n: NumberModel)
    requires
        sound_number(m),
        sound_number(n),
    ensures
        told_apart(number_text(m), number_text(n)),
{
    let u = number_text(m);
    let v = number_text(n);
    lemma_number_chars(m);
    lemma_number_chars(n);
    assert forall|s: Seq<char>, t: Seq<char>|
        follows_value(s) && follows_value(t) && #[trigger] (u + s) == #[trigger] (v + t) implies u
        == v by {
        if u.len() < v.len() {
            assert((v + t)[u.len() as int] == v[u.len() as int]);
            assert((u + s)[u.len() as int] == s[0]);
        }
        if v.len() < u.len() {
            assert((u + s)[v.len() as int] == u[v.len() as int]);
            assert((v + t)[v.len() as int] == t[0]);
        }
        lemma_same_cut(u, s, v, t);
    }
}

/// A negative whole number shows no fraction.
proof fn lemma_signed(n: int, text: Seq<char>)
    requires
        n < 0,
        text == seq!['-'] + decimal((-n) as nat),
    ensures
        forall|i: int| 0 <= i < text.len() ==> !is_fraction_char(#[trigger] text[i]),
{
    let digits = decimal((-n) as nat);
    lemma_decimal((-n) as nat);
    assert forall|i: int| 0 <= i < text.len() implies !is_fraction_char(#[trigger] text[i]) by {
        if i > 0 {
            assert(text[i] == digits[i - 1]);
        }
    }
}

/// Numbers with the same numeral are the same.
pub proof fn lemma_same_number(m: NumberModel, n: NumberModel)
    requires
        sound_number(m),
        sound_number(n),
        number_text(m) == number_text(n),
    ensures
        m == n,
{
    let u = number_text(m);
    match (m, n) {
        (NumberModel::PosInt(a), NumberModel::PosInt(b)) => {
            lemma_decimal(a);
            lemma_decimal(b);
        },
        (NumberModel::NegInt(a), NumberModel::NegInt(b)) => {
            let x = decimal((-a) as nat);
            let y = decimal((-b) as nat);
            lemma_same_cut(seq!['-'], x, seq!['-'], y);
            lemma_decimal((-a) as nat);
            lemma_decimal((-b) as nat);
        },
        (NumberModel::Float(_), NumberModel::Float(_)) => {},
        (NumberModel::PosInt(a), NumberModel::NegInt(_)) => {
            lemma_decimal(a);
            assert(u[0] == '-');
        },
        (NumberModel::NegInt(_), NumberModel::PosInt(b)) => {
            lemma_decimal(b);
            assert(u[0] == '-');
        },
        (NumberModel::PosInt(a), NumberModel::Float(_)) => {
            lemma_decimal(a);
        },
        (NumberModel::Float(_), NumberModel::PosInt(b)) => {
            lemma_decimal(b);
        },
        (NumberModel::NegInt(a), NumberModel::Float(_)) => {
            lemma_signed(a, u);
        },
        (NumberModel::Float(_), NumberModel::NegInt(b)) => {
            lemma_signed(b, u);
        },
    }
}

/// The first character of a rendering shows what kind of value it is.
pub open spec fn first_char(json: Json, c: char) -> bool {
    match json {
        Json::Null => c == 'n',
        Json::Bool(b) => c == if b {
            't'
        } else {
            'f'
        },
        Json::Number(_) => is_number_char(c),
        Json::String(_) => c == '"',
        Json::Array(_) => c == '[',
        Json::Object(_) => c == '{',
    }
}

/// A rendering is not empty, and its first character shows what kind of value it is.
pub proof fn lemma_first_char(json: Json)
    requires
        sound(json),
    ensures
        stable_text(json).len() > 0,
        first_char(json, stable_text(json)[0]),
        begins(stable_text(json)),
{
    reveal_strlit("null");
    reveal_strlit("true");
    reveal_strlit("false");
    if let Json::Number(n) = json {
        lemma_number_chars(n);
    }
}

/// The members of an object with their values rendered, one text for each, in order of key.
pub open spec fn object_parts(members: Seq<(Seq<char>, Json)>) -> Seq<Seq<char>> {
    in_key_order(member_texts(members)).map_values(
        |m: (Seq<char>, Seq<char>)| member_text(m),
    )
}

/// Every member of `sorted` is one of `members`, rendered.
pub open spec fn rendered_from(
    sorted: Seq<(Seq<char>, Seq<char>)>,
    members: Seq<(Seq<char>, Json)>,
) -> bool {
    forall|n: int|
        #![trigger sorted[n]]
        0 <= n < sorted.len() ==> exists|i: int|
            #![trigger members[i]]
            0 <= i < members.len() && sorted[n] == (members[i].0, stable_text(members[i].1))
}

/// Members whose values are told apart are told apart.
proof fn lemma_members_told_apart(m: (Seq<char>, Seq<char>), n: (Seq<char>, Seq<char>))
    requires
        told_apart(m.1, n.1),
    ensures
        told_apart(member_text(m), member_text(n)),
{
    let u = member_text(m);
    let v = member_text(n);
    assert forall|s: Seq<char>, t: Seq<char>|
        follows_value(s) && follows_value(t) && #[trigger] (u + s) == #[trigger] (v + t) implies u
        == v by {
        let x = seq![':'] + (m.1 + s);
        let y = seq![':'] + (n.1 + t);
        assert(u + s =~= string_literal(m.0) + x);
        assert(v + t =~= string_literal(n.0) + y);
        lemma_literal_cut(m.0, x, n.0, y);
        lemma_same_cut(seq![':'], m.1 + s, seq![':'], n.1 + t);
        assert(m.1 + s == n.1 + t);
    }
}

/// Members with the same text are the same.
pub proof fn lemma_same_member(m: (Seq<char>, Seq<char>), n: (Seq<char>, Seq<char>))
    requires
        member_text(m) == member_text(n),
    ensures
        m == n,
{
    let x = seq![':'] + m.1;
    let y = seq![':'] + n.1;
    assert(member_text(m) =~= string_literal(m.0) + x);
    assert(member_text(n) =~= string_literal(n.0) + y);
    lemma_literal_cut(m.0, x, n.0, y);
    lemma_same_cut(seq![':'], m.1, seq![':'], n.1);
}

/// A member begins with a quote.
proof fn lemma_member_begins(m: (Seq<char>, Seq<char>))
    ensures
        begins(member_text(m)),
{
    assert(member_text(m)[0] == '"');
}

/// The members of an object, in order of key, are its members.
pub proof fn lemma_object_members(members: Seq<(Seq<char>, Json)>)
    requires
        distinct_keys(members),
    ensures
        rendered_from(in_key_order(member_texts(members)), members),
        forall|i: int|
            #![trigger members[i]]
            0 <= i < members.len() ==> in_key_order(member_texts(members)).contains(
                (members[i].0, stable_text(members[i].1)),
            ),
{
    let texts = member_texts(members);
    let sorted = in_key_order(texts);
    lemma_member_texts(members);
    assert forall|i: int, j: int| 0 <= i < j < texts.len() implies texts[i].0 != texts[j].0 by {
        assert(members[i].0 != members[j].0);
    }
    law_in_key_order(texts);
    assert forall|n: int| #![trigger sorted[n]] 0 <= n < sorted.len() implies exists|i: int|
        #![trigger members[i]]
        0 <= i < members.len() && sorted[n] == (members[i].0, stable_text(members[i].1)) by {
        assert(sorted.contains(sorted[n]));
        let i = choose|i: int| 0 <= i < texts.len() && texts[i] == sorted[n];
        assert(sorted[n] == (members[i].0, stable_text(members[i].1)));
    }
    assert forall|i: int| #![trigger members[i]] 0 <= i < members.len() implies sorted.contains(
        (members[i].0, stable_text(members[i].1)),
    ) by {
        assert(texts[i] == (members[i].0, stable_text(members[i].1)));
        assert(texts.contains(texts[i]));
    }
}

/// The items of two arrays are told apart.
pub proof fn lemma_items_told_apart(x: Seq<Json>, y: Seq<Json>)
    requires
        forall|i: int| 0 <= i < x.len() ==> sound(#[trigger] x[i]),
        forall|j: int| 0 <= j < y.len() ==> sound(#[trigger] y[j]),
    ensures
        all_told_apart(item_texts(x), item_texts(y)),
    decreases x, 0int,
{
    let p = item_texts(x);
    let q = item_texts(y);
    lemma_item_texts(x, 0);
    lemma_item_texts(y, 0);
    assert forall|i: int| 0 <= i < p.len() implies begins(#[trigger] p[i]) by {
        lemma_item_texts(x, i);
        lemma_first_char(x[i]);
    }
    assert forall|j: int| 0 <= j < q.len() implies begins(#[trigger] q[j]) by {
        lemma_item_texts(y, j);
        lemma_first_char(y[j]);
    }
    assert forall|i: int, j: int| 0 <= i < p.len() && 0 <= j < q.len() implies told_apart(
        #[trigger] p[i],
        #[trigger] q[j],
    ) by {
        lemma_item_texts(x, i);
        lemma_item_texts(y, j);
        lemma_told_apart(x[i], y[j]);
    }
}

/// The members of two objects are told apart.
pub proof fn lemma_parts_told_apart(x: Seq<(Seq<char>, Json)>, y: Seq<(Seq<char>, Json)>)
    requires
        distinct_keys(x),
        distinct_keys(y),
        forall|i: int| #![trigger x[i]] 0 <= i < x.len() ==> sound(x[i].1),
        forall|j: int| #![trigger y[j]] 0 <= j < y.len() ==> sound(y[j].1),
    ensures
        all_told_apart(object_parts(x), object_parts(y)),
    decreases x, 0int,
{
    let a = in_key_order(member_texts(x));
    let b = in_key_order(member_texts(y));
    let p = object_parts(x);
    let q = object_parts(y);
    lemma_object_members(x);
    lemma_object_members(y);
    assert forall|i: int| 0 <= i < p.len() implies begins(#[trigger] p[i]) by {
        lemma_member_begins(a[i]);
    }
    assert forall|j: int| 0 <= j < q.len() implies begins(#[trigger] q[j]) by {
        lemma_member_begins(b[j]);
    }
    assert forall|i: int, j: int| 0 <= i < p.len() && 0 <= j < q.len() implies told_apart(
        #[trigger] p[i],
        #[trigger] q[j],
    ) by {
        let m = a[i];
        let n = b[j];
        let k = choose|k: int|
            #![trigger x[k]]
            0 <= k < x.len() && m == (x[k].0, stable_text(x[k].1));
        let l = choose|l: int|
            #![trigger y[l]]
            0 <= l < y.len() && n == (y[l].0, stable_text(y[l].1));
        assert(decreases_to!(x => x[k]));
        lemma_told_apart(x[k].1, y[l].1);
        lemma_members_told_apart(m, n);
    }
}

/// The rendering of an array begins with its bracket.
pub proof fn lemma_array_text(items: Seq<Json>, s: Seq<char>)
    ensures
        stable_text(Json::Array(items)) + s == seq!['['] + (comma_joined(item_texts(items)) + seq![
            ']',
        ] + s),
{
    assert(stable_text(Json::Array(items)) + s =~= seq!['['] + (comma_joined(item_texts(items))
        + seq![']'] + s));
}

/// The rendering of an object begins with its brace.
pub proof fn lemma_object_text(members: Seq<(Seq<char>, Json)>, s: Seq<char>)
    ensures
        stable_text(Json::Object(members)) + s == seq!['{'] + (comma_joined(object_parts(members))
            + seq!['}'] + s),
{
    assert(stable_text(Json::Object(members)) + s =~= seq!['{'] + (comma_joined(
        object_parts(members),
    ) + seq!['}'] + s));
}

/// A rendering can be told from what follows it: two values that can begin the same text have the
/// same rendering.
pub proof fn lemma_told_apart(a: Json, b: Json)
    requires
        sound(a),
        sound(b),
    ensures
        told_apart(stable_text(a), stable_text(b)),
    decreases a, 1int,
{
    let u = stable_text(a);
    let v = stable_text(b);
    lemma_first_char(a);
    lemma_first_char(b);
    match (a, b) {
        (Json::Number(m), Json::Number(n)) => {
            lemma_numbers_told_apart(m, n);
        },
        (Json::Array(x), Json::Array(y)) => {
            lemma_items_told_apart(x, y);
        },
        (Json::Object(x), Json::Object(y)) => {
            lemma_parts_told_apart(x, y);
        },
        _ => {},
    }
    assert forall|s: Seq<char>, t: Seq<char>|
        follows_value(s) && follows_value(t) && #[trigger] (u + s) == #[trigger] (v + t) implies u
        == v by {
        assert((u + s)[0] == u[0]);
        assert((v + t)[0] == v[0]);
        match (a, b) {
            (Json::String(x), Json::String(y)) => {
                lemma_literal_cut(x, s, y, t);
            },
            (Json::Array(x), Json::Array(y)) => {
                lemma_array_text(x, s);
                lemma_array_text(y, t);
                let p = comma_joined(item_texts(x)) + seq![']'] + s;
                let q = comma_joined(item_texts(y)) + seq![']'] + t;
                lemma_same_cut(seq!['['], p, seq!['['], q);
                lemma_read_list(item_texts(x), s, item_texts(y), t, ']');
            },
            (Json::Object(x), Json::Object(y)) => {
                lemma_object_text(x, s);
                lemma_object_text(y, t);
                let p = comma_joined(object_parts(x)) + seq!['}'] + s;
                let q = comma_joined(object_parts(y)) + seq!['}'] + t;
                lemma_same_cut(seq!['{'], p, seq!['{'], q);
                lemma_read_list(object_parts(x), s, object_parts(y), t, '}');
            },
            _ => {},
        }
    }
}

/// Arrays with the same rendering have the same renderings of items.
pub proof fn lemma_same_item_texts(x: Seq<Json>, y: Seq<Json>)
    requires
        sound(Json::Array(x)),
        sound(Json::Array(y)),
        stable_text(Json::Array(x)) == stable_text(Json::Array(y)),
    ensures
        item_texts(x) == item_texts(y),
{
    lemma_items_told_apart(x, y);
    let e = Seq::<char>::empty();
    lemma_array_text(x, e);
    lemma_array_text(y, e);
    let p = comma_joined(item_texts(x)) + seq![']'] + e;
    let q = comma_joined(item_texts(y)) + seq![']'] + e;
    lemma_same_cut(seq!['['], p, seq!['['], q);
    lemma_read_list(item_texts(x), e, item_texts(y), e, ']');
}

/// Objects with the same rendering have the same members, as far as keys and renderings go.
pub proof fn lemma_same_member_texts(x: Seq<(Seq<char>, Json)>, y: Seq<(Seq<char>, Json)>)
    requires
        sound(Json::Object(x)),
        sound(Json::Object(y)),
        stable_text(Json::Object(x)) == stable_text(Json::Object(y)),
    ensures
        in_key_order(member_texts(x)) == in_key_order(member_texts(y)),
{
    lemma_parts_told_apart(x, y);
    let e = Seq::<char>::empty();
    lemma_object_text(x, e);
    lemma_object_text(y, e);
    let p = comma_joined(object_parts(x)) + seq!['}'] + e;
    let q = comma_joined(object_parts(y)) + seq!['}'] + e;
    lemma_same_cut(seq!['{'], p, seq!['{'], q);
    lemma_read_list(object_parts(x), e, object_parts(y), e, '}');
    let a = in_key_order(member_texts(x));
    let b = in_key_order(member_texts(y));
    assert(a.len() == object_parts(x).len());
    assert(b.len() == object_parts(y).len());
    assert forall|i: int| 0 <= i < a.len() implies a[i] == b[i] by {
        assert(object_parts(x)[i] == member_text(a[i]));
        assert(object_parts(y)[i] == member_text(b[i]));
        lemma_same_member(a[i], b[i]);
    }
    assert(a =~= b);
}

} // verus!
