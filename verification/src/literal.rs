//! Number literals.
//!
//! A literal is a natural number of any size, kept exactly as a sequence of
//! decimal digits. Its view is the number it spells.
use vstd::prelude::*;
use vstd::std_specs::cmp::PartialEqSpecImpl;

verus! {

/// Whether `c` is one of the ten ASCII decimal digits.
pub open spec fn is_digit(c: char) -> bool {
    '0' <= c && c <= '9'
}

/// The number that the digit character `c` stands for.
pub open spec fn digit_value(c: char) -> nat
    recommends
        is_digit(c),
{
    (c as int - '0' as int) as nat
}

/// The number that a run of digit characters spells, read as a decimal numeral.
pub open spec fn decimal(run: Seq<char>) -> nat
    decreases run.len(),
{
    if run.len() == 0 {
        0
    } else {
        decimal(run.drop_last()) * 10 + digit_value(run.last())
    }
}

/// The number that a sequence of digits spells, most significant digit first.
pub open spec fn digits_value(digits: Seq<u8>) -> nat
    decreases digits.len(),
{
    if digits.len() == 0 {
        0
    } else {
        digits_value(digits.drop_last()) * 10 + digits.last() as nat
    }
}

/// Every element is a decimal digit, and the first one, if there is one, is not zero.
/// Each natural number has exactly one such spelling; zero is spelled by no digit at all.
pub open spec fn canonical(digits: Seq<u8>) -> bool {
    &&& forall|i: int| 0 <= i < digits.len() ==> digits[i] < 10
    &&& digits.len() > 0 ==> digits[0] != 0
}

/// `n` where it fits a `usize`, the largest `usize` where it does not.
pub open spec fn saturated(n: nat) -> usize {
    if n <= usize::MAX {
        n as usize
    } else {
        usize::MAX
    }
}

/// A canonical spelling that is not empty spells a positive number.
pub proof fn lemma_canonical_positive(digits: Seq<u8>)
    requires
        canonical(digits),
        digits.len() > 0,
    ensures
        digits_value(digits) > 0,
    decreases digits.len(),
{
    if digits.len() > 1 {
        assert(canonical(digits.drop_last()));
        lemma_canonical_positive(digits.drop_last());
    }
}

/// Two canonical spellings of one number are the same spelling.
pub proof fn lemma_canonical_unique(a: Seq<u8>, b: Seq<u8>)
    requires
        canonical(a),
        canonical(b),
        digits_value(a) == digits_value(b),
    ensures
        a == b,
    decreases a.len(),
{
    if a.len() == 0 {
        if b.len() > 0 {
            lemma_canonical_positive(b);
        }
        assert(a =~= b);
    } else if b.len() == 0 {
        lemma_canonical_positive(a);
    } else {
        let a0 = a.drop_last();
        let b0 = b.drop_last();
        assert(canonical(a0));
        assert(canonical(b0));
        assert(a.last() < 10 && b.last() < 10);
        assert(digits_value(a0) * 10 + a.last() == digits_value(b0) * 10 + b.last());
        assert(digits_value(a0) == digits_value(b0));
        lemma_canonical_unique(a0, b0);
        assert(a =~= a0.push(a.last()));
        assert(b =~= b0.push(b.last()));
    }
}

/// A number is at least what the first `k` of its digits spell.
pub proof fn lemma_prefix_value(digits: Seq<u8>, k: int)
    requires
        0 <= k <= digits.len(),
    ensures
        digits_value(digits.subrange(0, k)) <= digits_value(digits),
    decreases digits.len() - k,
{
    if k == digits.len() {
        assert(digits.subrange(0, k) =~= digits);
    } else {
        lemma_prefix_value(digits.drop_last(), k);
        assert(digits.drop_last().subrange(0, k) =~= digits.subrange(0, k));
    }
}

/// A natural number, held exactly.
#[derive(Debug, Hash)]
pub struct Literal {
    digits: Vec<u8>,
}

impl View for Literal {
    type V = nat;

    closed spec fn view(&self) -> nat {
        digits_value(self.digits@)
    }
}

/// The digits of `n`, most significant first; none for zero.
fn spelled(n: u64) -> (digits: Vec<u8>)
    ensures
        canonical(digits@),
        digits_value(digits@) == n,
    decreases n,
{
    if n == 0 {
        Vec::new()
    } else {
        let mut digits = spelled(n / 10);
        let ghost before = digits@;
        digits.push((n % 10) as u8);
        proof {
            assert(digits@.drop_last() =~= before);
            if before.len() == 0 {
                assert(n / 10 == 0);
            }
        }
        digits
    }
}

/// The number that the digit `c` stands for.
pub(crate) fn digit_of(c: char) -> (d: u8)
    requires
        is_digit(c),
    ensures
        d < 10,
        d as nat == digit_value(c),
{
    (c as u32 - '0' as u32) as u8
}

impl Literal {
    #[verifier::type_invariant]
    spec fn well_formed(&self) -> bool {
        canonical(self.digits@)
    }

    /// The literal zero.
    pub fn zero() -> (r: Literal)
        ensures
            r@ == 0,
    {
        Literal { digits: Vec::new() }
    }

    /// The literal that spells `n`.
    pub fn from_u64(n: u64) -> (r: Literal)
        ensures
            r@ == n,
    {
        Literal { digits: spelled(n) }
    }

    /// The literal that `text` spells as a decimal numeral; none where `text`
    /// is empty or holds anything but digits.
    pub fn from_decimal(text: &str) -> (r: Option<Literal>)
        ensures
            r is Some <==> text@.len() > 0 && forall|k: int|
                0 <= k < text@.len() ==> is_digit(text@[k]),
            r matches Some(literal) ==> literal@ == decimal(text@),
    {
        if text.is_empty() {
            return None;
        }
        let mut literal = Literal::zero();
        for c in it: text.chars()
            invariant
                it.seq() == text@,
                forall|k: int| 0 <= k < it.index() ==> is_digit(text@[k]),
                literal@ == decimal(text@.subrange(0, it.index() as int)),
        {
            if !('0' <= c && c <= '9') {
                return None;
            }
            proof {
                assert(text@.subrange(0, it.index() + 1).drop_last() =~= text@.subrange(
                    0,
                    it.index() as int,
                ));
            }
            literal = literal.append(digit_of(c));
        }
        proof {
            assert(text@.subrange(0, text@.len() as int) =~= text@);
        }
        Some(literal)
    }

    /// The literal with one more digit written behind it.
    pub(crate) fn append(self, digit: u8) -> (r: Literal)
        requires
            digit < 10,
        ensures
            r@ == self@ * 10 + digit,
    {
        proof {
            use_type_invariant(&self);
        }
        let Literal { digits } = self;
        let mut digits = digits;
        if digits.len() == 0 && digit == 0 {
            Literal { digits }
        } else {
            let ghost before = digits@;
            digits.push(digit);
            proof {
                assert(digits@.drop_last() =~= before);
            }
            Literal { digits }
        }
    }

    /// The digits of the number, most significant first, with no leading zero;
    /// zero has no digit.
    pub fn digits(&self) -> (r: Vec<u8>)
        ensures
            canonical(r@),
            digits_value(r@) == self@,
    {
        proof {
            use_type_invariant(self);
        }
        self.digits.clone()
    }

    /// The number as a `usize`; the largest `usize` stands for every number beyond it.
    pub fn to_usize(&self) -> (r: usize)
        ensures
            r == saturated(self@),
    {
        proof {
            use_type_invariant(self);
        }
        let mut acc: usize = 0;
        let mut i: usize = 0;
        while i < self.digits.len()
            invariant
                i <= self.digits.len(),
                canonical(self.digits@),
                acc as nat == digits_value(self.digits@.subrange(0, i as int)),
            decreases self.digits.len() - i,
        {
            let d: usize = self.digits[i] as usize;
            proof {
                assert(self.digits@.subrange(0, i + 1).drop_last() =~= self.digits@.subrange(
                    0,
                    i as int,
                ));
                lemma_prefix_value(self.digits@, i + 1);
            }
            if acc > (usize::MAX - d) / 10 {
                return usize::MAX;
            }
            acc = acc * 10 + d;
            i += 1;
        }
        proof {
            assert(self.digits@.subrange(0, i as int) =~= self.digits@);
        }
        acc
    }

    /// Whether the two literals are the same number.
    pub fn same(&self, other: &Literal) -> (r: bool)
        ensures
            r == (self@ == other@),
    {
        proof {
            use_type_invariant(self);
            use_type_invariant(other);
        }
        let a = &self.digits;
        let b = &other.digits;
        if a.len() != b.len() {
            proof {
                if self@ == other@ {
                    lemma_canonical_unique(a@, b@);
                }
            }
            return false;
        }
        let mut i: usize = 0;
        while i < a.len()
            invariant
                a.len() == b.len(),
                i <= a.len(),
                canonical(a@),
                canonical(b@),
                self@ == digits_value(a@),
                other@ == digits_value(b@),
                a@.subrange(0, i as int) == b@.subrange(0, i as int),
            decreases a.len() - i,
        {
            if a[i] != b[i] {
                proof {
                    if self@ == other@ {
                        lemma_canonical_unique(a@, b@);
                    }
                }
                return false;
            }
            proof {
                assert(a@.subrange(0, i + 1) =~= a@.subrange(0, i as int).push(a@[i as int]));
                assert(b@.subrange(0, i + 1) =~= b@.subrange(0, i as int).push(b@[i as int]));
            }
            i += 1;
        }
        proof {
            assert(a@ =~= a@.subrange(0, a.len() as int));
            assert(b@ =~= b@.subrange(0, b.len() as int));
        }
        true
    }
}

impl Clone for Literal {
    fn clone(&self) -> (r: Literal)
        ensures
            r@ == self@,
    {
        proof {
            use_type_invariant(self);
        }
        Literal { digits: self.digits.clone() }
    }
}

impl PartialEq for Literal {
    fn eq(&self, other: &Literal) -> (r: bool) {
        self.same(other)
    }
}

impl Eq for Literal {

}

impl PartialEqSpecImpl for Literal {
    open spec fn obeys_eq_spec() -> bool {
        true
    }

    open spec fn eq_spec(&self, other: &Literal) -> bool {
        self@ == other@
    }
}

} // verus!
