//! Token counting: the counter is handed in by the caller, as a function from text to a number.
use vstd::prelude::*;

verus! {

/// The number of tokens of each text.
pub type TokenModel = spec_fn(Seq<char>) -> u64;

/// Every answer of `count` is the one that `model` gives.
pub open spec fn counts_by<F: Fn(&str) -> u64>(count: &F, model: TokenModel) -> bool {
    forall|text: &str, n: u64| #[trigger]
        call_ensures(*count, (text,), n) ==> n == model(text@)
}

/// `count` can be asked about any text, and its answer depends on the text alone.
pub open spec fn is_counter<F: Fn(&str) -> u64>(count: &F) -> bool {
    &&& forall|text: &str| #[trigger] call_requires(*count, (text,))
    &&& exists|model: TokenModel| counts_by(count, model)
}

/// The count of a text in 32 bits: counts beyond them wrap.
pub open spec fn tokens(model: TokenModel, text: Seq<char>) -> i32 {
    model(text) as i32
}

/// The sum of `counts`.
pub open spec fn total(counts: Seq<i32>) -> int
    decreases counts.len(),
{
    if counts.len() == 0 {
        0
    } else {
        total(counts.drop_last()) + counts.last()
    }
}

/// Adding up `counts` from the left never leaves the range of `i32`.
pub open spec fn sums_fit(counts: Seq<i32>) -> bool {
    forall|n: int|
        0 <= n <= counts.len() ==> i32::MIN <= #[trigger] total(counts.take(n)) <= i32::MAX
}

/// One more count is added to the sum.
pub proof fn lemma_total_step(counts: Seq<i32>, n: int)
    requires
        0 <= n < counts.len(),
    ensures
        total(counts.take(n + 1)) == total(counts.take(n)) + counts[n],
{
    assert(counts.take(n + 1).drop_last() == counts.take(n));
}

/// The count of `text`, in 32 bits.
pub fn tokens_in<F: Fn(&str) -> u64>(count: &F, text: &str) -> (n: i32)
    requires
        is_counter(count),
    ensures
        forall|model: TokenModel| #[trigger]
            counts_by(count, model) ==> n == tokens(model, text@),
{
    let n: u64 = count(text);
    #[verifier::truncate]
    (n as i32)
}

/// The sum of `counts`.
pub fn sum_counts(counts: &Vec<i32>) -> (sum: i32)
    requires
        sums_fit(counts@),
    ensures
        sum == total(counts@),
{
    let mut sum: i32 = 0;
    let mut n: usize = 0;
    while n < counts.len()
        invariant
            n <= counts@.len(),
            sums_fit(counts@),
            sum == total(counts@.take(n as int)),
        decreases counts@.len() - n,
    {
        proof {
            lemma_total_step(counts@, n as int);
        }
        sum = sum + counts[n];
        n = n + 1;
    }
    proof {
        assert(counts@.take(n as int) == counts@);
    }
    sum
}

/// Whether adding up `counts` stays within 32 bits.
pub fn counts_fit(counts: &Vec<i32>) -> (fit: bool)
    ensures
        fit == sums_fit(counts@),
{
    let mut sum: i32 = 0;
    let mut n: usize = 0;
    while n < counts.len()
        invariant
            n <= counts@.len(),
            sum == total(counts@.take(n as int)),
            forall|k: int|
                0 <= k <= n ==> i32::MIN <= #[trigger] total(counts@.take(k)) <= i32::MAX,
        decreases counts@.len() - n,
    {
        proof {
            lemma_total_step(counts@, n as int);
        }
        match sum.checked_add(counts[n]) {
            Some(next) => {
                sum = next;
            },
            None => {
                return false;
            },
        }
        n = n + 1;
    }
    true
}

} // verus!
