//! Small text operations on `String` that the rest of the library builds on.
use vstd::prelude::*;

verus! {

/// The decimal digit character of `d` (for `d < 10`).
pub open spec fn digit_char(d: nat) -> char {
    seq!['0', '1', '2', '3', '4', '5', '6', '7', '8', '9'][d as int]
}

/// The decimal form of `n`, without sign or leading zeros.
pub open spec fn decimal(n: nat) -> Seq<char>
    decreases n,
{
    if n < 10 {
        seq![digit_char(n)]
    } else {
        decimal(n / 10).push(digit_char(n % 10))
    }
}

proof fn lemma_decimal_len(n: nat)
    ensures
        decimal(n).len() >= 1,
        n >= 10 ==> decimal(n).len() >= 2,
    decreases n,
{
    if n >= 10 {
        lemma_decimal_len(n / 10);
    }
}

/// Distinct numbers have distinct decimal forms.
pub proof fn lemma_decimal_injective(a: nat, b: nat)
    requires
        decimal(a) == decimal(b),
    ensures
        a == b,
    decreases a,
{
    lemma_decimal_len(a);
    lemma_decimal_len(b);
    let digits = seq!['0', '1', '2', '3', '4', '5', '6', '7', '8', '9'];
    if a < 10 && b < 10 {
        assert(decimal(a)[0] == digits[a as int]);
        assert(decimal(b)[0] == digits[b as int]);
    } else if a >= 10 && b >= 10 {
        let da = decimal(a);
        let db = decimal(b);
        assert(da.last() == digits[(a % 10) as int]);
        assert(db.last() == digits[(b % 10) as int]);
        assert(da.drop_last() == decimal(a / 10));
        assert(db.drop_last() == decimal(b / 10));
        lemma_decimal_injective(a / 10, b / 10);
    } else {
        assert(false);
    }
}

/// The text that Rust's `Debug` formatting gives for a string: the
/// characters in double quotes, with quotes and control characters escaped.
pub uninterp spec fn quoted_of(s: Seq<char>) -> Seq<char>;

/// Relies on `usize`'s `Display` (via `ToString`): the plain decimal form.
#[verifier::external_body]
pub(crate) fn usize_text(n: usize) -> (r: String)
    ensures
        r@ == decimal(n as nat),
{
    n.to_string()
}

/// Relies on `String::push_str`: appends `t` to `s`.
#[verifier::external_body]
pub(crate) fn push_text(s: &mut String, t: &str)
    ensures
        final(s)@ == old(s)@ + t@,
{
    s.push_str(t)
}

/// Relies on `str`'s `Debug` formatting: the quoted, escaped form of `s`.
#[verifier::external_body]
pub(crate) fn debug_quoted(s: &str) -> (r: String)
    ensures
        r@ == quoted_of(s@),
{
    format!("{s:?}")
}

} // verus!
