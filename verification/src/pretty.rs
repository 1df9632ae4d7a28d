//! Field elements, vectors and circuits as text. An element is shown as the
//! signed number of least magnitude that it stands for.

use crate::bytes::{be_value, le_value, lemma_u64_be_bytes_value, push_u64_be};
use crate::circom::{Constraints, HeaderModel, R1CSFile};
use crate::field::{bn254_modulus, lemma_be_bytes32_value, Fr, Norm, ToU8s, PF};
use crate::linalg::{FMatrix, FVec, SparseVec};
use vstd::prelude::*;

verus! {

/// The character of a decimal digit.
pub open spec fn digit(d: int) -> char {
    if d == 0 {
        '0'
    } else if d == 1 {
        '1'
    } else if d == 2 {
        '2'
    } else if d == 3 {
        '3'
    } else if d == 4 {
        '4'
    } else if d == 5 {
        '5'
    } else if d == 6 {
        '6'
    } else if d == 7 {
        '7'
    } else if d == 8 {
        '8'
    } else {
        '9'
    }
}

/// The decimal digits of a number, without leading zeros.
pub open spec fn decimal(n: nat) -> Seq<char>
    decreases n,
{
    if n < 10 {
        seq![digit(n as int)]
    } else {
        decimal(n / 10).push(digit((n % 10) as int))
    }
}

/// The decimal digits of a number, behind a minus sign where it is negative.
pub open spec fn signed_decimal(c: int) -> Seq<char> {
    if c < 0 {
        "-"@ + decimal((-c) as nat)
    } else {
        decimal(c as nat)
    }
}

/// The signed number of least magnitude that a residue stands for.
pub open spec fn centered(x: int) -> int {
    if x > bn254_modulus() / 2 {
        x - bn254_modulus()
    } else {
        x
    }
}

/// Calls `num_bigint::BigUint::from_bytes_be` and, on what it gives,
/// `BigUint::to_str_radix` with the radix ten: the decimal digits of the
/// number that the bytes spell, most significant byte first. No bytes spell
/// zero, whose digits are `0`.
#[verifier::external_body]
fn decimal_string(bytes: &[u8]) -> (r: String)
    ensures
        r@ == decimal(be_value(bytes@) as nat),
{
    num_bigint::BigUint::from_bytes_be(bytes).to_str_radix(10)
}

/// The decimal digits of a number.
pub fn number_text(x: u64) -> (r: String)
    ensures
        r@ == decimal(x as nat),
{
    let mut bytes: Vec<u8> = Vec::new();
    push_u64_be(&mut bytes, x);
    proof {
        lemma_u64_be_bytes_value(x);
        assert(bytes@ =~= crate::bytes::u64_be_bytes(x));
    }
    decimal_string(bytes.as_slice())
}

/// The decimal digits of the number that an element stands for.
fn magnitude_text(x: &Fr) -> (r: String)
    ensures
        r@ == decimal(x.value() as nat),
{
    let bytes: Vec<u8> = x.to_u8s();
    proof {
        x.value_in_range();
        lemma_be_bytes32_value(x.value());
    }
    decimal_string(bytes.as_slice())
}

/// The digits of a magnitude, behind a minus sign where the number is
/// negative.
fn signed_text(negative: bool, magnitude: &Fr) -> (r: String)
    ensures
        r@ == signed_decimal(
            if negative {
                -magnitude.value()
            } else {
                magnitude.value()
            },
        ),
{
    proof {
        magnitude.value_in_range();
    }
    let digits: String = magnitude_text(magnitude);
    if negative && !magnitude.equals(&Fr::zero()) {
        String::from_str("-").concat(digits.as_str())
    } else {
        digits
    }
}

/// An element as the signed number of least magnitude that it stands for.
pub fn element_text(x: &Fr) -> (r: String)
    ensures
        r@ == signed_decimal(centered(x.value())),
{
    let n: Norm = x.norm();
    signed_text(n.negative, &n.magnitude)
}

/// The name of a wire: `x` and the wire's number.
pub open spec fn variable(idx: int) -> Seq<char> {
    "x"@ + decimal(idx as nat)
}

/// A term of a linear combination: the coefficient `c` of the wire `idx`,
/// where the wire `0` is the constant one. The first term of a combination
/// carries its own sign; a later one starts with its sign and a space, and
/// its coefficient is shown by its magnitude. A coefficient of one is left
/// out before a wire's name.
pub open spec fn term_text(first: bool, idx: int, c: int) -> Seq<char> {
    if first {
        if idx == 0 {
            signed_decimal(c)
        } else if c == 1 {
            variable(idx)
        } else {
            signed_decimal(c) + "*"@ + variable(idx)
        }
    } else if idx == 0 {
        if c > 0 {
            "+ "@ + decimal(c as nat)
        } else {
            "- "@ + decimal((-c) as nat)
        }
    } else if c == 1 {
        "+ "@ + variable(idx)
    } else if c == -1 {
        "- "@ + variable(idx)
    } else if c > 0 {
        "+ "@ + decimal(c as nat) + "*"@ + variable(idx)
    } else {
        "- "@ + decimal((-c) as nat) + "*"@ + variable(idx)
    }
}

/// The sign that is taken out of a linear combination: that of its first
/// coefficient, where zero counts as positive; `0` for the empty combination.
pub open spec fn leading_sign(row: Seq<(int, int)>) -> int {
    if row.len() == 0 {
        0
    } else if centered(row[0].1) < 0 {
        -1
    } else {
        1
    }
}

/// The first `n` terms of a linear combination, every coefficient times
/// `sign`, with one space between two terms.
pub open spec fn joined_terms(row: Seq<(int, int)>, sign: int, n: nat) -> Seq<char>
    decreases n,
{
    if n == 0 {
        Seq::empty()
    } else if n == 1 {
        term_text(true, row[0].0, centered(row[0].1) * sign)
    } else {
        joined_terms(row, sign, (n - 1) as nat) + " "@ + term_text(
            false,
            row[n - 1].0,
            centered(row[n - 1].1) * sign,
        )
    }
}

/// A linear combination with its leading sign taken out; `0` for the empty
/// combination.
pub open spec fn factored_text(row: Seq<(int, int)>) -> Seq<char> {
    if row.len() == 0 {
        "0"@
    } else {
        joined_terms(row, leading_sign(row), row.len())
    }
}

/// The name of a wire.
fn variable_text(idx: usize) -> (r: String)
    ensures
        r@ == variable(idx as int),
{
    let digits: String = number_text(idx as u64);
    String::from_str("x").concat(digits.as_str())
}

/// One term of a linear combination, from the sign and the magnitude of its
/// coefficient.
fn term(first: bool, idx: usize, negative: bool, magnitude: &Fr) -> (r: String)
    ensures
        r@ == term_text(
            first,
            idx as int,
            if negative {
                -magnitude.value()
            } else {
                magnitude.value()
            },
        ),
{
    proof {
        magnitude.value_in_range();
    }
    let is_zero: bool = magnitude.equals(&Fr::zero());
    let is_one: bool = magnitude.equals(&Fr::one());
    let below: bool = negative && !is_zero;
    if first {
        if idx == 0 {
            signed_text(negative, magnitude)
        } else if is_one && !negative {
            variable_text(idx)
        } else {
            let name: String = variable_text(idx);
            signed_text(negative, magnitude).concat("*").concat(name.as_str())
        }
    } else {
        let lead: String = if below || is_zero {
            String::from_str("- ")
        } else {
            String::from_str("+ ")
        };
        if idx == 0 {
            let digits: String = magnitude_text(magnitude);
            lead.concat(digits.as_str())
        } else if is_one {
            let name: String = variable_text(idx);
            lead.concat(name.as_str())
        } else {
            let digits: String = magnitude_text(magnitude);
            let name: String = variable_text(idx);
            lead.concat(digits.as_str()).concat("*").concat(name.as_str())
        }
    }
}

/// No decimal digit is a space.
proof fn lemma_decimal_plain(n: nat)
    ensures
        !decimal(n).contains(' '),
        decimal(n).len() > 0,
    decreases n,
{
    if n >= 10 {
        lemma_decimal_plain(n / 10);
        assert forall|i: int| 0 <= i < decimal(n).len() implies decimal(n)[i] != ' ' by {
            if i < decimal(n / 10).len() {
                assert(decimal(n / 10).contains(decimal(n / 10)[i]));
            }
        }
    }
}

/// The first term of a linear combination holds no space.
proof fn lemma_first_term_plain(idx: int, c: int)
    ensures
        !term_text(true, idx, c).contains(' '),
{
    reveal_strlit("-");
    reveal_strlit("x");
    reveal_strlit("*");
    let t: Seq<char> = term_text(true, idx, c);
    lemma_decimal_plain(idx as nat);
    lemma_decimal_plain(c as nat);
    lemma_decimal_plain((-c) as nat);
    let d: Seq<char> = decimal(idx as nat);
    let e: Seq<char> = signed_decimal(c);
    assert forall|i: int| 0 <= i < e.len() implies e[i] != ' ' by {
        if c < 0 {
            if i > 0 {
                assert(decimal((-c) as nat).contains(decimal((-c) as nat)[i - 1]));
            }
        } else {
            assert(decimal(c as nat).contains(decimal(c as nat)[i]));
        }
    }
    assert forall|i: int| 0 <= i < variable(idx).len() implies variable(idx)[i] != ' ' by {
        if i > 0 {
            assert(d.contains(d[i - 1]));
        }
    }
    assert forall|i: int| 0 <= i < t.len() implies t[i] != ' ' by {}
}

/// A linear combination of one term holds no space; one of more terms does.
proof fn lemma_joined_terms_spaced(row: Seq<(int, int)>, sign: int, n: nat)
    requires
        n >= 1,
    ensures
        joined_terms(row, sign, n).contains(' ') == (n >= 2),
{
    if n == 1 {
        lemma_first_term_plain(row[0].0, centered(row[0].1) * sign);
    } else {
        reveal_strlit(" ");
        let head: Seq<char> = joined_terms(row, sign, (n - 1) as nat);
        assert(joined_terms(row, sign, n)[head.len() as int] == ' ');
    }
}

/// A linear combination as text, with the sign of its first coefficient
/// taken out: the sign, and the terms with every coefficient times that
/// sign. The text holds a space if and only if there is more than one term.
pub fn factor_leading_sign(coeffs: &SparseVec<Fr>) -> (r: (i32, String))
    ensures
        r.0 == leading_sign(coeffs@),
        r.1@ == factored_text(coeffs@),
        r.1@.contains(' ') == (coeffs@.len() >= 2),
{
    let len: usize = coeffs.0.len();
    if len == 0 {
        proof {
            reveal_strlit("0");
        }
        return (0, String::from_str("0"));
    }
    let lead: Norm = coeffs.0[0].1.norm();
    proof {
        lead.magnitude.value_in_range();
    }
    let flip: bool = lead.negative && !lead.magnitude.equals(&Fr::zero());
    let sign: i32 = if flip {
        -1
    } else {
        1
    };
    let mut out: String = String::new();
    let mut i: usize = 0;
    while i < len
        invariant
            i <= len,
            len == coeffs.0@.len(),
            sign == leading_sign(coeffs@),
            flip == (sign == -1),
            sign == 1 || sign == -1,
            out@ == joined_terms(coeffs@, sign as int, i as nat),
        decreases len - i,
    {
        let n: Norm = coeffs.0[i].1.norm();
        let negative: bool = if flip {
            !n.negative
        } else {
            n.negative
        };
        let t: String = term(i == 0, coeffs.0[i].0, negative, &n.magnitude);
        if i == 0 {
            out = t;
        } else {
            out = out.concat(" ").concat(t.as_str());
        }
        i += 1;
    }
    proof {
        lemma_joined_terms_spaced(coeffs@, sign as int, len as nat);
    }
    (sign, out)
}

/// A factor of a product: in brackets where it is more than one term.
pub open spec fn bracketed(s: Seq<char>) -> Seq<char> {
    if s.contains(' ') {
        "("@ + s + ")"@
    } else {
        s
    }
}

/// The right-hand side of a constraint, negated where the signs taken out of
/// the three combinations multiply to minus one: in brackets behind the minus
/// sign where it is more than one term, and left as it is where it is zero.
pub open spec fn negated(s: Seq<char>, total: int) -> Seq<char> {
    if total == -1 && s.contains(' ') {
        "-("@ + s + ")"@
    } else if total == -1 && s != "0"@ {
        "-"@ + s
    } else {
        s
    }
}

/// The line of the constraint `i` with the rows `a`, `b` and `c`: the
/// product of the first two equals the third. Where one of the factors is
/// zero, the line says that the third is zero.
pub open spec fn constraint_text(
    i: int,
    a: Seq<(int, int)>,
    b: Seq<(int, int)>,
    c: Seq<(int, int)>,
) -> Seq<char> {
    let ta = factored_text(a);
    let tb = factored_text(b);
    let tc = factored_text(c);
    if ta == "0"@ || tb == "0"@ {
        "  Constraint "@ + decimal(i as nat) + ": "@ + tc + " = 0\n"@
    } else {
        "  Constraint "@ + decimal(i as nat) + ": "@ + bracketed(ta) + " * "@ + bracketed(tb)
            + " = "@ + negated(tc, leading_sign(a) * leading_sign(b) * leading_sign(c)) + "\n"@
    }
}

/// The lines of the first `n` constraints.
pub open spec fn constraints_text(
    a: Seq<Seq<(int, int)>>,
    b: Seq<Seq<(int, int)>>,
    c: Seq<Seq<(int, int)>>,
    n: nat,
) -> Seq<char>
    decreases n,
{
    if n == 0 {
        Seq::empty()
    } else {
        constraints_text(a, b, c, (n - 1) as nat) + constraint_text(
            n - 1,
            a[n - 1],
            b[n - 1],
            c[n - 1],
        )
    }
}

/// A factor of a product as text.
fn bracket(text: String, spaced: bool) -> (r: String)
    requires
        spaced == text@.contains(' '),
    ensures
        r@ == bracketed(text@),
{
    if spaced {
        String::from_str("(").concat(text.as_str()).concat(")")
    } else {
        text
    }
}

/// The line of one constraint.
pub fn constraint_line(
    i: usize,
    a: &SparseVec<Fr>,
    b: &SparseVec<Fr>,
    c: &SparseVec<Fr>,
) -> (r: String)
    ensures
        r@ == constraint_text(i as int, a@, b@, c@),
{
    let (a_sign, a_str): (i32, String) = factor_leading_sign(a);
    let (b_sign, b_str): (i32, String) = factor_leading_sign(b);
    let (c_sign, c_str): (i32, String) = factor_leading_sign(c);
    let zero: String = String::from_str("0");
    let number: String = number_text(i as u64);
    let head: String = String::from_str("  Constraint ").concat(number.as_str()).concat(": ");
    if a_str == zero || b_str == zero {
        head.concat(c_str.as_str()).concat(" = 0\n")
    } else {
        let total: i32 = a_sign * b_sign * c_sign;
        let c_spaced: bool = c.0.len() >= 2;
        let shown: String = if total == -1 && c_spaced {
            String::from_str("-(").concat(c_str.as_str()).concat(")")
        } else if total == -1 && c_str != zero {
            String::from_str("-").concat(c_str.as_str())
        } else {
            c_str
        };
        let a_print: String = bracket(a_str, a.0.len() >= 2);
        let b_print: String = bracket(b_str, b.0.len() >= 2);
        head.concat(a_print.as_str()).concat(" * ").concat(b_print.as_str()).concat(" = ").concat(
            shown.as_str(),
        ).concat("\n")
    }
}

impl Constraints {
    /// The constraints as text, one line for each.
    pub fn to_text(&self) -> (r: String)
        requires
            self.b_rows@.len() >= self.a_rows@.len(),
            self.c_rows@.len() >= self.a_rows@.len(),
        ensures
            r@ == constraints_text(
                self.a_rows@,
                self.b_rows@,
                self.c_rows@,
                self.a_rows@.len(),
            ),
    {
        let n: usize = self.a_rows.0.len();
        let mut out: String = String::new();
        let mut i: usize = 0;
        while i < n
            invariant
                i <= n,
                n == self.a_rows.0@.len(),
                n <= self.b_rows.0@.len(),
                n <= self.c_rows.0@.len(),
                out@ == constraints_text(self.a_rows@, self.b_rows@, self.c_rows@, i as nat),
            decreases n - i,
        {
            let line: String = constraint_line(
                i,
                &self.a_rows.0[i],
                &self.b_rows.0[i],
                &self.c_rows.0[i],
            );
            out.append(line.as_str());
            i += 1;
        }
        out
    }
}

/// The first `n` elements as text, with a comma and a space between two.
pub open spec fn joined_elements(s: Seq<int>, n: nat) -> Seq<char>
    decreases n,
{
    if n == 0 {
        Seq::empty()
    } else if n == 1 {
        signed_decimal(centered(s[0]))
    } else {
        joined_elements(s, (n - 1) as nat) + ", "@ + signed_decimal(centered(s[n - 1]))
    }
}

/// A vector as text: its elements between square brackets.
pub open spec fn vector_text(s: Seq<int>) -> Seq<char> {
    "[ "@ + joined_elements(s, s.len()) + " ]"@
}

/// The first `n` rows as text, each after the first on a line of its own
/// behind a tab.
pub open spec fn joined_rows(m: Seq<Seq<int>>, n: nat) -> Seq<char>
    decreases n,
{
    if n == 0 {
        Seq::empty()
    } else if n == 1 {
        vector_text(m[0])
    } else {
        joined_rows(m, (n - 1) as nat) + "\n\t"@ + vector_text(m[n - 1])
    }
}

/// A matrix as text: a heading, then its rows between square brackets.
pub open spec fn matrix_text(m: Seq<Seq<int>>) -> Seq<char> {
    "Matrix in row major order:\n[\n\t"@ + joined_rows(m, m.len()) + "\n]"@
}

impl FVec<Fr> {
    /// The vector as text.
    pub fn to_text(&self) -> (r: String)
        ensures
            r@ == vector_text(self@),
    {
        let n: usize = self.0.len();
        let mut inner: String = String::new();
        let mut i: usize = 0;
        while i < n
            invariant
                i <= n,
                n == self.0@.len(),
                inner@ == joined_elements(self@, i as nat),
            decreases n - i,
        {
            let t: String = element_text(&self.0[i]);
            if i == 0 {
                inner = t;
            } else {
                inner = inner.concat(", ").concat(t.as_str());
            }
            i += 1;
        }
        String::from_str("[ ").concat(inner.as_str()).concat(" ]")
    }
}

impl FMatrix<Fr> {
    /// The matrix as text.
    pub fn to_text(&self) -> (r: String)
        ensures
            r@ == matrix_text(self@),
    {
        let n: usize = self.0.len();
        let mut inner: String = String::new();
        let mut i: usize = 0;
        while i < n
            invariant
                i <= n,
                n == self.0@.len(),
                inner@ == joined_rows(self@, i as nat),
            decreases n - i,
        {
            let t: String = self.0[i].to_text();
            if i == 0 {
                inner = t;
            } else {
                inner = inner.concat("\n\t").concat(t.as_str());
            }
            i += 1;
        }
        String::from_str("Matrix in row major order:\n[\n\t").concat(inner.as_str()).concat("\n]")
    }
}

/// The bytes of a list in the opposite order.
fn reversed(bytes: &Vec<u8>) -> (r: Vec<u8>)
    ensures
        r@ == bytes@.reverse(),
{
    let n: usize = bytes.len();
    let mut out: Vec<u8> = Vec::with_capacity(n);
    let mut i: usize = 0;
    while i < n
        invariant
            i <= n,
            n == bytes@.len(),
            out@.len() == i,
            forall|j: int| 0 <= j < i ==> out@[j] == bytes@[n - 1 - j],
        decreases n - i,
    {
        out.push(bytes[n - 1 - i]);
        i += 1;
    }
    assert(out@ =~= bytes@.reverse());
    out
}

/// Bytes spell the same number from their least significant end as the
/// bytes in the opposite order do from their most significant end.
proof fn lemma_be_value_reverse(s: Seq<u8>)
    ensures
        be_value(s.reverse()) == le_value(s),
    decreases s.len(),
{
    if s.len() > 0 {
        lemma_be_value_reverse(s.drop_first());
        assert(s.reverse().drop_last() =~= s.drop_first().reverse());
        assert(s.reverse().last() == s.first());
    }
}

/// The heading of a file: its version and what its header holds.
pub open spec fn header_text(version: u32, h: HeaderModel) -> Seq<char> {
    "=== R1CS Binary Format Parser ===\n\nVersion: "@ + decimal(version as nat)
        + "\nNumber of sections: 3\n\n=== Header Details ===\n\n  Field size: "@ + decimal(
        h.field_size as nat,
    ) + " bytes\n  Prime (field modulus): "@ + decimal(le_value(h.prime) as nat)
        + "\n  Number of wires: "@ + decimal(h.n_wires as nat) + "\n  Number of public outputs: "@
        + decimal(h.n_pub_out as nat) + "\n  Number of public inputs: "@ + decimal(
        h.n_pub_in as nat,
    ) + "\n  Number of private inputs: "@ + decimal(h.n_prv_in as nat) + "\n  Number of labels: "@
        + decimal(h.n_labels as nat) + "\n  Number of constraints: "@ + decimal(
        h.n_constraints as nat,
    ) + "\n\n=== Constraints Section ===\n\n"@
}

impl R1CSFile {
    /// The file as text: the heading, then the constraints, one line for
    /// each.
    pub fn to_text(&self) -> (r: String)
        requires
            self.constraints.b_rows@.len() >= self.constraints.a_rows@.len(),
            self.constraints.c_rows@.len() >= self.constraints.a_rows@.len(),
        ensures
            r@ == header_text(self.version, self.header@) + constraints_text(
                self.constraints.a_rows@,
                self.constraints.b_rows@,
                self.constraints.c_rows@,
                self.constraints.a_rows@.len(),
            ),
    {
        let h = &self.header;
        let version: String = number_text(self.version as u64);
        let field_size: String = number_text(h.field_size as u64);
        let prime_be: Vec<u8> = reversed(&h.prime_size);
        proof {
            lemma_be_value_reverse(h.prime_size@);
        }
        let prime: String = decimal_string(prime_be.as_slice());
        let n_wires: String = number_text(h.n_wires as u64);
        let n_pub_out: String = number_text(h.n_pub_out as u64);
        let n_pub_in: String = number_text(h.n_pub_in as u64);
        let n_prv_in: String = number_text(h.n_prv_in as u64);
        let n_labels: String = number_text(h.n_labels);
        let n_constraints: String = number_text(h.n_constraints as u64);
        let lines: String = self.constraints.to_text();
        String::from_str("=== R1CS Binary Format Parser ===\n\nVersion: ").concat(
            version.as_str(),
        ).concat("\nNumber of sections: 3\n\n=== Header Details ===\n\n  Field size: ").concat(
            field_size.as_str(),
        ).concat(" bytes\n  Prime (field modulus): ").concat(prime.as_str()).concat(
            "\n  Number of wires: ",
        ).concat(n_wires.as_str()).concat("\n  Number of public outputs: ").concat(
            n_pub_out.as_str(),
        ).concat("\n  Number of public inputs: ").concat(n_pub_in.as_str()).concat(
            "\n  Number of private inputs: ",
        ).concat(n_prv_in.as_str()).concat("\n  Number of labels: ").concat(
            n_labels.as_str(),
        ).concat("\n  Number of constraints: ").concat(n_constraints.as_str()).concat(
            "\n\n=== Constraints Section ===\n\n",
        ).concat(lines.as_str())
    }
}

} // verus!
