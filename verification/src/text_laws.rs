//! Laws of texts.
use crate::text::{
    all_digits, ascii_lower, begins_with, comes_before, decimal, digits_value, lemma_decimal,
    occurs_in, parsed_u64, same_but_case,
};
use crate::tokens::total;
use vstd::prelude::*;

verus! {

/// A text is found wherever it stands: in front of anything and behind anything.
pub proof fn law_text_is_found_where_it_stands(a: Seq<char>, needle: Seq<char>, b: Seq<char>)
    ensures
        occurs_in(needle, a + needle + b),
{
    let text = a + needle + b;
    let at = a.len() as int;
    assert(text.subrange(at, at + needle.len()) =~= needle);
}

/// A text is found only where it stands.
pub proof fn law_text_is_found_only_where_it_stands(needle: Seq<char>, text: Seq<char>)
    requires
        forall|i: int|
            0 <= i <= text.len() - needle.len() ==> #[trigger] text.subrange(i, i + needle.len())
                != needle,
    ensures
        !occurs_in(needle, text),
{
}

/// A text begins with each of its beginnings.
pub proof fn law_text_begins_with_its_beginning(prefix: Seq<char>, rest: Seq<char>)
    ensures
        begins_with(prefix + rest, prefix),
{
    assert((prefix + rest).take(prefix.len() as int) =~= prefix);
}

/// A text that begins with another goes on behind it.
pub proof fn law_beginning_stands_first(text: Seq<char>, prefix: Seq<char>)
    requires
        begins_with(text, prefix),
    ensures
        prefix.len() <= text.len(),
        text == prefix + text.skip(prefix.len() as int),
{
    assert(text =~= text.take(prefix.len() as int) + text.skip(prefix.len() as int));
}

/// One of two characters is an ASCII capital and the other the same letter in lower case.
pub open spec fn case_pair(upper: char, lower: char) -> bool {
    'A' <= upper <= 'Z' && lower as int == upper as int + 32
}

/// Texts are the same but for case exactly where each two characters are the same or an ASCII
/// letter in its two cases.
pub proof fn law_case_of_ascii_letters_only(a: Seq<char>, b: Seq<char>)
    ensures
        same_but_case(a, b) <==> a.len() == b.len() && forall|i: int|
            #![trigger a[i]]
            0 <= i < a.len() ==> a[i] == b[i] || case_pair(a[i], b[i]) || case_pair(b[i], a[i]),
{
    let p = a.map_values(|c: char| ascii_lower(c));
    let q = b.map_values(|c: char| ascii_lower(c));
    if same_but_case(a, b) {
        assert(p.len() == q.len());
        assert forall|i: int| #![trigger a[i]] 0 <= i < a.len() implies a[i] == b[i] || case_pair(
            a[i],
            b[i],
        ) || case_pair(b[i], a[i]) by {
            assert(p[i] == q[i]);
        }
    }
    if a.len() == b.len() && forall|i: int|
        #![trigger a[i]]
        0 <= i < a.len() ==> a[i] == b[i] || case_pair(a[i], b[i]) || case_pair(b[i], a[i]) {
        assert forall|i: int| 0 <= i < p.len() implies p[i] == q[i] by {
            assert(a[i] == b[i] || case_pair(a[i], b[i]) || case_pair(b[i], a[i]));
        }
        assert(p =~= q);
    }
}

/// The order of texts is that of the first character in which they differ.
pub proof fn law_first_difference_decides(
    p: Seq<char>,
    c: char,
    s: Seq<char>,
    d: char,
    t: Seq<char>,
)
    requires
        c != d,
    ensures
        comes_before(p.push(c) + s, p.push(d) + t) <==> c < d,
    decreases p.len(),
{
    let x = p.push(c) + s;
    let y = p.push(d) + t;
    if p.len() > 0 {
        let r = p.drop_first();
        law_first_difference_decides(r, c, s, d, t);
        assert(x.drop_first() =~= r.push(c) + s);
        assert(y.drop_first() =~= r.push(d) + t);
    }
}

/// A beginning of a text comes before it.
pub proof fn law_beginning_comes_first(p: Seq<char>, s: Seq<char>)
    ensures
        comes_before(p, p + s) <==> s.len() > 0,
        !comes_before(p + s, p),
    decreases p.len(),
{
    if p.len() > 0 {
        law_beginning_comes_first(p.drop_first(), s);
        assert((p + s).drop_first() =~= p.drop_first() + s);
    }
}

/// A digit more makes a number ten times as large, and adds the digit.
pub proof fn law_digit_by_digit(s: Seq<char>, c: char)
    ensures
        digits_value(Seq::empty()) == 0,
        '0' <= c <= '9' ==> digits_value(s.push(c)) == 10 * digits_value(s) + (c as int - 48),
{
    assert(s.push(c).drop_last() =~= s);
}

/// A numeral has no leading zero, and is read back as its number.
pub proof fn law_numeral_is_read_back(n: nat)
    requires
        n <= u64::MAX,
    ensures
        parsed_u64(decimal(n)) == Some(n),
        n > 0 ==> decimal(n)[0] != '0',
        n == 0 ==> decimal(n) == seq!['0'],
{
    lemma_decimal(n);
    lemma_no_leading_zero(n);
}

/// A numeral has no leading zero.
proof fn lemma_no_leading_zero(n: nat)
    ensures
        n > 0 ==> decimal(n)[0] != '0',
    decreases n,
{
    if n >= 10 {
        lemma_no_leading_zero(n / 10);
        lemma_decimal(n / 10);
    }
}

/// A number is read digit by digit, and is refused where a character is no digit or the number does
/// not fit into 64 bits.
pub proof fn law_number_is_read_digit_by_digit(s: Seq<char>, c: char)
    ensures
        parsed_u64(Seq::empty()) is None,
        parsed_u64(seq!['+']) is None,
        s.len() == 0 || s == seq!['+'] ==> parsed_u64(s.push(c)) == if '0' <= c <= '9' {
            Some((c as int - 48) as nat)
        } else {
            None
        },
        s.len() > 0 && s != seq!['+'] ==> parsed_u64(s.push(c)) == match parsed_u64(s) {
            Some(n) => if '0' <= c <= '9' && 10 * n + (c as int - 48) <= u64::MAX {
                Some((10 * n + (c as int - 48)) as nat)
            } else {
                None
            },
            None => None,
        },
{
    let t = s.push(c);
    assert(Seq::<char>::empty().len() == 0);
    assert(seq!['+'].drop_first() =~= Seq::empty());
    let digits = if s.len() > 0 && s[0] == '+' {
        s.drop_first()
    } else {
        s
    };
    if s.len() == 0 {
        assert(t =~= seq![c]);
        assert(t.drop_last() =~= Seq::empty());
        assert(digits_value(t.drop_last()) == 0);
        assert(t.drop_first() =~= Seq::empty());
        assert(t[0] == c);
    } else {
        let more = if t[0] == '+' {
            t.drop_first()
        } else {
            t
        };
        assert(more =~= digits.push(c));
        assert(more.drop_last() =~= digits);
        assert(more[digits.len() as int] == c);
        if digits.len() == 0 {
            assert(s =~= seq!['+']);
            assert(digits_value(digits) == 0);
        }
        assert(all_digits(more) <==> all_digits(digits) && '0' <= c
            <= '9') by {
            if all_digits(more) {
                assert forall|i: int| 0 <= i < digits.len() implies '0' <= #[trigger] digits[i]
                    <= '9' by {
                    assert(digits[i] == more[i]);
                }
            }
        }
    }
}

/// Sums add up: the sum of one number is that number, and the sum of two lists is that of their
/// sums.
pub proof fn law_sums_add_up(a: Seq<i32>, b: Seq<i32>, n: i32)
    ensures
        total(Seq::empty()) == 0,
        total(seq![n]) == n,
        total(a + b) == total(a) + total(b),
    decreases b.len(),
{
    assert(seq![n].drop_last() =~= Seq::empty());
    assert(total(seq![n].drop_last()) == 0);
    if b.len() == 0 {
        assert(a + b =~= a);
    } else {
        law_sums_add_up(a, b.drop_last(), n);
        assert((a + b).drop_last() =~= a + b.drop_last());
    }
}

} // verus!
