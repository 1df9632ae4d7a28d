//! Polynomials written as text: sums of terms such as `3x^2`, `-x` or `5`.

use regex::Regex;
use vstd::prelude::*;

verus! {

/// The pattern of one term: an optional sign, an optional coefficient, an
/// optional variable `x` and an optional exponent, with optional space
/// between and behind them.
const TERM_PATTERN: &'static str =
    "(?ix)(?P<sign>[+-]?)\\s*(?P<coef>\\d+)?\\s*(?P<var>x)?\\s*(?:\\^ (?P<exp>\\d+))?\\s*";

/// What one match of the pattern of a term found: for each of the four parts
/// the text that it matched, if it took part in the match.
#[derive(Debug)]
pub struct TermCapture {
    pub sign: Option<Vec<u8>>,
    pub coef: Option<Vec<u8>>,
    pub var: Option<Vec<u8>>,
    pub exp: Option<Vec<u8>>,
}

/// An optional text as a sequence of bytes.
pub open spec fn text_of(t: Option<Vec<u8>>) -> Option<Seq<u8>> {
    match t {
        None => None,
        Some(v) => Some(v@),
    }
}

impl View for TermCapture {
    type V = (Option<Seq<u8>>, Option<Seq<u8>>, Option<Seq<u8>>, Option<Seq<u8>>);

    open spec fn view(&self) -> Self::V {
        (text_of(self.sign), text_of(self.coef), text_of(self.var), text_of(self.exp))
    }
}

/// The views of a list of captures.
pub open spec fn capture_views(list: Seq<TermCapture>) -> Seq<
    (Option<Seq<u8>>, Option<Seq<u8>>, Option<Seq<u8>>, Option<Seq<u8>>),
> {
    Seq::new(list.len(), |i: int| list[i]@)
}

/// The matches of the pattern of a term in a text, one after the other, each
/// with the texts of its sign, coefficient, variable and exponent.
pub uninterp spec fn term_matches(poly: Seq<char>) -> Seq<
    (Option<Seq<u8>>, Option<Seq<u8>>, Option<Seq<u8>>, Option<Seq<u8>>),
>;

/// Compiles the pattern of a term with `regex::Regex::new` and walks over its
/// matches with `captures_iter`, taking of each the named groups with
/// `Captures::name`. Trusted: the captures are the successive matches of the
/// pattern in the text, which the text alone decides.
#[verifier::external_body]
fn find_terms(poly: &str) -> (r: Vec<TermCapture>)
    ensures
        capture_views(r@) == term_matches(poly@),
{
    let re = Regex::new(TERM_PATTERN).unwrap();
    re.captures_iter(poly).map(
        |cap|
            TermCapture {
                sign: cap.name("sign").map(|m| m.as_str().as_bytes().to_vec()),
                coef: cap.name("coef").map(|m| m.as_str().as_bytes().to_vec()),
                var: cap.name("var").map(|m| m.as_str().as_bytes().to_vec()),
                exp: cap.name("exp").map(|m| m.as_str().as_bytes().to_vec()),
            },
    ).collect()
}

/// Whether every byte is a decimal digit.
pub open spec fn all_digits(s: Seq<u8>) -> bool {
    forall|i: int| 0 <= i < s.len() ==> 0x30 <= #[trigger] s[i] <= 0x39
}

/// The number that decimal digits spell.
pub open spec fn decimal_value(s: Seq<u8>) -> int
    decreases s.len(),
{
    if s.len() == 0 {
        0
    } else {
        10 * decimal_value(s.drop_last()) + (s.last() - 0x30)
    }
}

/// The number that a text spells in decimal digits, if it is not empty,
/// holds digits only and spells a number of at most `max`.
pub open spec fn parsed_decimal(s: Seq<u8>, max: int) -> Option<int> {
    if s.len() > 0 && all_digits(s) && decimal_value(s) <= max {
        Some(decimal_value(s))
    } else {
        None
    }
}

/// More digits do not spell a smaller number.
proof fn lemma_decimal_value_grows(s: Seq<u8>, n: int)
    requires
        all_digits(s),
        0 <= n <= s.len(),
    ensures
        0 <= decimal_value(s.subrange(0, n)) <= decimal_value(s),
    decreases s.len() - n,
{
    if n == s.len() {
        assert(s.subrange(0, n) =~= s);
        lemma_decimal_value_nonnegative(s);
    } else {
        lemma_decimal_value_grows(s, n + 1);
        let longer: Seq<u8> = s.subrange(0, n + 1);
        assert(longer.drop_last() =~= s.subrange(0, n));
        lemma_decimal_value_nonnegative(s.subrange(0, n));
    }
}

/// Digits spell a number that is not negative.
proof fn lemma_decimal_value_nonnegative(s: Seq<u8>)
    requires
        all_digits(s),
    ensures
        decimal_value(s) >= 0,
    decreases s.len(),
{
    if s.len() > 0 {
        lemma_decimal_value_nonnegative(s.drop_last());
    }
}

/// Reads a number in decimal digits.
pub fn parse_decimal(digits: &[u8], max: u64) -> (r: Option<u64>)
    ensures
        match r {
            Some(v) => parsed_decimal(digits@, max as int) == Some(v as int),
            None => parsed_decimal(digits@, max as int) is None,
        },
{
    if digits.len() == 0 {
        return None;
    }
    let mut acc: u64 = 0;
    let mut i: usize = 0;
    assert(digits@.subrange(0, 0) =~= Seq::<u8>::empty());
    while i < digits.len()
        invariant
            i <= digits@.len(),
            all_digits(digits@.subrange(0, i as int)),
            acc == decimal_value(digits@.subrange(0, i as int)),
            acc <= max,
        decreases digits@.len() - i,
    {
        let d: u8 = digits[i];
        let ghost longer: Seq<u8> = digits@.subrange(0, i + 1);
        assert(longer.drop_last() =~= digits@.subrange(0, i as int));
        assert(longer.last() == d);
        if d < 0x30 || d > 0x39 {
            assert(!all_digits(digits@)) by {
                assert(digits@[i as int] == d);
            }
            return None;
        }
        assert(all_digits(longer)) by {
            assert forall|j: int| 0 <= j < longer.len() implies 0x30 <= #[trigger] longer[j]
                <= 0x39 by {
                if j < i {
                    assert(digits@.subrange(0, i as int)[j] == longer[j]);
                }
            }
        }
        let next: u128 = acc as u128 * 10 + (d - 0x30) as u128;
        if next > max as u128 {
            proof {
                if all_digits(digits@) {
                    lemma_decimal_value_grows(digits@, i + 1);
                }
            }
            return None;
        }
        acc = next as u64;
        i += 1;
    }
    assert(digits@.subrange(0, digits@.len() as int) =~= digits@);
    Some(acc)
}

/// The term that a capture stands for, as an exponent and a coefficient. The
/// coefficient is one where none is written or where what is written does
/// not fit, and negative where the sign is a minus; the exponent is zero
/// without a variable, and one where none is written behind the variable or
/// where what is written does not fit.
pub open spec fn term_of(
    c: (Option<Seq<u8>>, Option<Seq<u8>>, Option<Seq<u8>>, Option<Seq<u8>>),
) -> (u32, i64) {
    let base: int = match c.1 {
        Some(digits) => match parsed_decimal(digits, i64::MAX as int) {
            Some(v) => v,
            None => 1,
        },
        None => 1,
    };
    let coef: int = if c.0 == Some(seq![0x2du8]) {
        -base
    } else {
        base
    };
    let exp: int = if c.2 is Some {
        match c.3 {
            Some(digits) => match parsed_decimal(digits, u32::MAX as int) {
                Some(v) => v,
                None => 1,
            },
            None => 1,
        }
    } else {
        0
    };
    (exp as u32, coef as i64)
}

/// The terms that captures stand for.
pub open spec fn terms_from(
    captures: Seq<(Option<Seq<u8>>, Option<Seq<u8>>, Option<Seq<u8>>, Option<Seq<u8>>)>,
) -> Seq<(u32, i64)> {
    Seq::new(captures.len(), |i: int| term_of(captures[i]))
}

/// A list ordered by exponent with one more term put behind the terms whose
/// exponent is not larger.
pub open spec fn inserted(sorted: Seq<(u32, i64)>, x: (u32, i64)) -> Seq<(u32, i64)>
    decreases sorted.len(),
{
    if sorted.len() > 0 && sorted.last().0 > x.0 {
        inserted(sorted.drop_last(), x).push(sorted.last())
    } else {
        sorted.push(x)
    }
}

/// The terms ordered by exponent, terms of one exponent in the order in which
/// they came.
pub open spec fn sorted_by_exp(terms: Seq<(u32, i64)>) -> Seq<(u32, i64)>
    decreases terms.len(),
{
    if terms.len() == 0 {
        Seq::empty()
    } else {
        inserted(sorted_by_exp(terms.drop_last()), terms.last())
    }
}

/// Whether the exponents of a list do not fall.
pub open spec fn ordered(s: Seq<(u32, i64)>) -> bool {
    forall|i: int, j: int| 0 <= i <= j < s.len() ==> s[i].0 <= s[j].0
}

/// Putting a term at the first place from the back where the term before it
/// has no larger exponent is the insertion.
proof fn lemma_inserted_at(sorted: Seq<(u32, i64)>, x: (u32, i64), pos: int)
    requires
        0 <= pos <= sorted.len(),
        forall|i: int| pos <= i < sorted.len() ==> (#[trigger] sorted[i]).0 > x.0,
        pos > 0 ==> sorted[pos - 1].0 <= x.0,
    ensures
        inserted(sorted, x) == sorted.insert(pos, x),
    decreases sorted.len() - pos,
{
    if pos == sorted.len() {
        assert(sorted.insert(pos, x) =~= sorted.push(x));
    } else {
        assert(sorted.last().0 > x.0);
        lemma_inserted_at(sorted.drop_last(), x, pos);
        assert(sorted.insert(pos, x) =~= sorted.drop_last().insert(pos, x).push(sorted.last()));
    }
}

/// Insertion keeps the order and adds the term to the terms.
proof fn lemma_inserted_ordered(sorted: Seq<(u32, i64)>, x: (u32, i64))
    requires
        ordered(sorted),
    ensures
        ordered(inserted(sorted, x)),
        inserted(sorted, x).to_multiset() == sorted.to_multiset().insert(x),
        inserted(sorted, x).len() == sorted.len() + 1,
    decreases sorted.len(),
{
    broadcast use vstd::seq_lib::group_to_multiset_ensures;

    if sorted.len() > 0 && sorted.last().0 > x.0 {
        let rest: Seq<(u32, i64)> = sorted.drop_last();
        assert(ordered(rest));
        lemma_inserted_ordered(rest, x);
        let r: Seq<(u32, i64)> = inserted(rest, x);
        assert(sorted =~= rest.push(sorted.last()));
        assert forall|i: int, j: int| 0 <= i <= j < r.push(sorted.last()).len() implies r.push(
            sorted.last(),
        )[i].0 <= r.push(sorted.last())[j].0 by {
            if j == r.len() && i < r.len() {
                // Every term of `r` is a term of `rest` or is `x`.
                assert(r.to_multiset().count(r[i]) > 0);
                if r[i] != x {
                    assert(rest.to_multiset().count(r[i]) > 0);
                    let w: int = choose|w: int| 0 <= w < rest.len() && rest[w] == r[i];
                    assert(sorted[w] == r[i]);
                }
            }
        }
    } else {
        assert forall|i: int, j: int| 0 <= i <= j < sorted.push(x).len() implies sorted.push(
            x,
        )[i].0 <= sorted.push(x)[j].0 by {
            if j == sorted.len() && i < sorted.len() {
                assert(sorted[i].0 <= sorted.last().0);
            }
        }
    }
}

/// Ordering by exponent gives the same terms in an order in which the
/// exponents do not fall.
pub proof fn lemma_sorted_by_exp(terms: Seq<(u32, i64)>)
    ensures
        ordered(sorted_by_exp(terms)),
        sorted_by_exp(terms).to_multiset() == terms.to_multiset(),
        sorted_by_exp(terms).len() == terms.len(),
    decreases terms.len(),
{
    broadcast use vstd::seq_lib::group_to_multiset_ensures;

    if terms.len() > 0 {
        lemma_sorted_by_exp(terms.drop_last());
        lemma_inserted_ordered(sorted_by_exp(terms.drop_last()), terms.last());
        assert(terms =~= terms.drop_last().push(terms.last()));
    } else {
        assert(terms =~= Seq::<(u32, i64)>::empty());
    }
}

/// The term that a capture stands for.
pub fn capture_term(c: &TermCapture) -> (r: (u32, i64))
    ensures
        r == term_of(c@),
{
    let negative: bool = match &c.sign {
        Some(s) => s.len() == 1 && s[0] == 0x2d,
        None => false,
    };
    proof {
        if c.sign is Some {
            let s: Seq<u8> = c.sign->0@;
            if s.len() == 1 && s[0] == 0x2d {
                assert(s =~= seq![0x2du8]);
            } else if s.len() == 1 {
                assert(seq![0x2du8][0] == 0x2d);
            }
        }
    }
    let base: i64 = match &c.coef {
        Some(digits) => match parse_decimal(digits.as_slice(), 0x7fff_ffff_ffff_ffff) {
            Some(v) => v as i64,
            None => 1,
        },
        None => 1,
    };
    let coef: i64 = if negative {
        -base
    } else {
        base
    };
    let exp: u32 = match &c.var {
        Some(_) => match &c.exp {
            Some(digits) => match parse_decimal(digits.as_slice(), 0xffff_ffff) {
                Some(v) => v as u32,
                None => 1,
            },
            None => 1,
        },
        None => 0,
    };
    (exp, coef)
}

/// The terms that captures stand for, ordered by exponent, terms of one
/// exponent in the order in which they came.
pub fn terms_of(captures: &Vec<TermCapture>) -> (r: Vec<(u32, i64)>)
    ensures
        r@ == sorted_by_exp(terms_from(capture_views(captures@))),
{
    let mut out: Vec<(u32, i64)> = Vec::with_capacity(captures.len());
    let mut i: usize = 0;
    let ghost all: Seq<(u32, i64)> = terms_from(capture_views(captures@));
    assert(all.subrange(0, 0) =~= Seq::<(u32, i64)>::empty());
    while i < captures.len()
        invariant
            i <= captures@.len(),
            all == terms_from(capture_views(captures@)),
            out@ == sorted_by_exp(all.subrange(0, i as int)),
            out@.len() == i,
        decreases captures@.len() - i,
    {
        let x: (u32, i64) = capture_term(&captures[i]);
        assert(x == all[i as int]);
        let mut pos: usize = out.len();
        while pos > 0 && out[pos - 1].0 > x.0
            invariant
                pos <= out@.len(),
                forall|j: int| pos <= j < out@.len() ==> (#[trigger] out@[j]).0 > x.0,
            decreases pos,
        {
            pos -= 1;
        }
        proof {
            lemma_inserted_at(out@, x, pos as int);
            let longer: Seq<(u32, i64)> = all.subrange(0, i + 1);
            assert(longer.drop_last() =~= all.subrange(0, i as int));
            assert(longer.last() == x);
            lemma_sorted_by_exp(all.subrange(0, i as int));
        }
        out.insert(pos, x);
        i += 1;
    }
    assert(all.subrange(0, all.len() as int) =~= all);
    out
}

/// The terms of a polynomial written as text, ordered by exponent.
pub fn parse_poly(poly: &str) -> (r: Vec<(u32, i64)>)
    ensures
        r@ == if poly@.len() == 0 {
            Seq::<(u32, i64)>::empty()
        } else {
            sorted_by_exp(terms_from(term_matches(poly@)))
        },
{
    if poly.is_empty() {
        Vec::new()
    } else {
        let captures: Vec<TermCapture> = find_terms(poly);
        terms_of(&captures)
    }
}

/// The coefficients of the first `k` terms written into `n` zeros, each at
/// its exponent if that lies below `n`.
pub open spec fn coefficients(poly: Seq<(u32, i64)>, n: nat, k: nat) -> Seq<i64>
    decreases k,
{
    if k == 0 {
        Seq::new(n, |i: int| 0i64)
    } else {
        let before = coefficients(poly, n, (k - 1) as nat);
        if poly[k - 1].0 < n {
            before.update(poly[k - 1].0 as int, poly[k - 1].1)
        } else {
            before
        }
    }
}

/// The first `n` coefficients of a polynomial given by its terms: where two
/// terms have one exponent the later stays, and a term with an exponent of
/// `n` or more is left out.
pub fn to_i64_vec(poly: &Vec<(u32, i64)>, n: usize) -> (r: Vec<i64>)
    ensures
        r@ == coefficients(poly@, n as nat, poly@.len()),
{
    let mut vec: Vec<i64> = Vec::with_capacity(n);
    let mut i: usize = 0;
    while i < n
        invariant
            i <= n,
            vec@ == Seq::new(i as nat, |j: int| 0i64),
        decreases n - i,
    {
        vec.push(0);
        assert(vec@ =~= Seq::new((i + 1) as nat, |j: int| 0i64));
        i += 1;
    }
    let mut k: usize = 0;
    while k < poly.len()
        invariant
            k <= poly@.len(),
            vec@.len() == n,
            vec@ == coefficients(poly@, n as nat, k as nat),
        decreases poly@.len() - k,
    {
        let exp: u32 = poly[k].0;
        let coef: i64 = poly[k].1;
        if (exp as usize) < n {
            vec.set(exp as usize, coef);
        }
        k += 1;
    }
    vec
}

} // verus!
