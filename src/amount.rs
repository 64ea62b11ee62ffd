//! Signed token amounts of arbitrary size, held as canonical decimal text.

use vstd::prelude::*;
use vstd::string::StringSliceAdditionalSpecFns;

verus! {

broadcast use vstd::string::is_ascii_spec_bytes;

pub open spec fn is_digit_char(c: char) -> bool {
    '0' <= c && c <= '9'
}

pub open spec fn digit_value(c: char) -> nat {
    ((c as u32) - ('0' as u32)) as nat
}

pub open spec fn digit_char(d: nat) -> char {
    seq!['0', '1', '2', '3', '4', '5', '6', '7', '8', '9'][d as int]
}

/// The number that a string of decimal digits denotes.
pub open spec fn decimal_value(s: Seq<char>) -> nat
    decreases s.len(),
{
    if s.len() == 0 {
        0
    } else {
        decimal_value(s.drop_last()) * 10 + digit_value(s.last())
    }
}

/// Decimal digits with no leading zero (the number zero is written "0").
pub open spec fn is_canonical_decimal(s: Seq<char>) -> bool {
    &&& s.len() > 0
    &&& forall|i: int| 0 <= i < s.len() ==> is_digit_char(#[trigger] s[i])
    &&& (s.len() == 1 || s[0] != '0')
}

/// The canonical decimal text of a natural number.
pub open spec fn decimal_text(n: nat) -> Seq<char>
    decreases n,
{
    if n < 10 {
        seq![digit_char(n)]
    } else {
        decimal_text(n / 10).push(digit_char(n % 10))
    }
}

pub proof fn lemma_digit_char(d: nat)
    requires
        d < 10,
    ensures
        is_digit_char(digit_char(d)),
        digit_value(digit_char(d)) == d,
        d > 0 ==> digit_char(d) != '0',
{
}

pub proof fn lemma_decimal_text(n: nat)
    ensures
        is_canonical_decimal(decimal_text(n)),
        decimal_value(decimal_text(n)) == n,
    decreases n,
{
    if n < 10 {
        lemma_digit_char(n);
        let s = decimal_text(n);
        assert(s.drop_last() =~= Seq::<char>::empty());
        assert(decimal_value(s.drop_last()) == 0);
        assert(s.last() == digit_char(n));
    } else {
        lemma_decimal_text(n / 10);
        lemma_digit_char(n % 10);
        if n / 10 < 10 {
            lemma_digit_char(n / 10);
        }
        let p = decimal_text(n / 10);
        let s = decimal_text(n);
        assert(s.drop_last() =~= p);
        assert(s.last() == digit_char(n % 10));
        assert(s[0] == p[0]);
        assert((n / 10) * 10 + n % 10 == n) by (nonlinear_arith);
        if n / 10 < 10 {
            assert(p[0] == digit_char(n / 10));
        } else {
            lemma_decimal_text(n / 10 / 10);
            assert(p.len() > 1);
        }
        assert forall|i: int| 0 <= i < s.len() implies is_digit_char(#[trigger] s[i]) by {
            if i < p.len() {
                assert(s[i] == p[i]);
            }
        }
    }
}

pub proof fn lemma_decimal_value_zero(s: Seq<char>)
    requires
        is_canonical_decimal(s),
    ensures
        (decimal_value(s) == 0) == (s =~= seq!['0']),
        s.len() > 1 ==> decimal_value(s) >= 10,
    decreases s.len(),
{
    if s.len() == 1 {
        assert(s.drop_last() =~= Seq::<char>::empty());
        assert(s.last() == s[0]);
        assert(decimal_value(s.drop_last()) == 0);
        assert(decimal_value(s) == digit_value(s[0]));
        if s[0] == '0' {
            assert(s =~= seq!['0']);
        } else {
            assert(digit_value(s[0]) != 0);
        }
    } else {
        let p = s.drop_last();
        assert(p[0] == s[0]);
        assert(is_canonical_decimal(p)) by {
            assert forall|i: int| 0 <= i < p.len() implies is_digit_char(#[trigger] p[i]) by {
                assert(p[i] == s[i]);
            }
        }
        lemma_decimal_value_zero(p);
        if p.len() == 1 {
            assert(p.drop_last() =~= Seq::<char>::empty());
            assert(p.last() == p[0]);
        }
        let v = decimal_value(p);
        assert(v >= 1);
        assert(v * 10 >= 10) by (nonlinear_arith)
            requires
                v >= 1,
        ;
        assert(s.len() != seq!['0'].len());
    }
}

pub proof fn lemma_decimal_value_prefix(s: Seq<char>, i: int)
    requires
        0 <= i <= s.len(),
    ensures
        decimal_value(s.subrange(0, i)) <= decimal_value(s),
    decreases s.len(),
{
    if i < s.len() {
        lemma_decimal_value_prefix(s.drop_last(), i);
        assert(s.drop_last().subrange(0, i) =~= s.subrange(0, i));
        let v = decimal_value(s.drop_last());
        assert(v * 10 >= v) by (nonlinear_arith);
    } else {
        assert(s.subrange(0, i) =~= s);
    }
}

pub proof fn lemma_canonical_is_ascii(s: Seq<char>)
    requires
        is_canonical_decimal(s),
    ensures
        vstd::utf8::is_ascii_chars(s),
{
    assert forall|i: int| 0 <= i < s.len() implies '\0' <= #[trigger] s[i] <= '\u{7f}' by {
        assert(is_digit_char(s[i]));
    }
}

/// Relies on `u128::to_string` (std's `Display` for integers): the decimal
/// digits of the number, with no sign and no leading zero.
#[verifier::external_body]
fn u128_text(n: u128) -> (r: String)
    ensures
        r@ == decimal_text(n as nat),
{
    n.to_string()
}

/// The text of an integer: its decimal digits, after a "-" when negative.
pub open spec fn signed_text(v: int) -> Seq<char> {
    if v < 0 {
        seq!['-'] + decimal_text((-v) as nat)
    } else {
        decimal_text(v as nat)
    }
}

/// Relies on bigdecimal's `FromStr`, `Sub` and `Display`: two decimal
/// integers parse with scale 0, their difference is exact, and it is shown as
/// its digits after a "-" when negative.
#[verifier::external_body]
fn decimal_difference(a: &str, b: &str) -> (r: String)
    requires
        is_canonical_decimal(a@),
        is_canonical_decimal(b@),
    ensures
        r@ == signed_text(decimal_value(a@) as int - decimal_value(b@) as int),
{
    let x = <bigdecimal::BigDecimal as std::str::FromStr>::from_str(a).unwrap();
    let y = <bigdecimal::BigDecimal as std::str::FromStr>::from_str(b).unwrap();
    (x - y).to_string()
}

/// A signed integer amount. `digits` holds the canonical decimal text of the
/// magnitude; zero is never negative.
#[derive(Clone, Debug)]
pub struct Amount {
    pub negative: bool,
    pub digits: String,
}

impl Amount {
    pub open spec fn wf(&self) -> bool {
        &&& is_canonical_decimal(self.digits@)
        &&& (self.negative ==> decimal_value(self.digits@) > 0)
    }

    pub open spec fn magnitude(&self) -> nat {
        decimal_value(self.digits@)
    }

    pub open spec fn value(&self) -> int {
        if self.negative {
            -(self.magnitude() as int)
        } else {
            self.magnitude() as int
        }
    }

    /// Reads a non-negative amount written as canonical decimal digits.
    pub fn parse_unsigned(text: &str) -> (r: Option<Amount>)
        ensures
            r is Some <==> is_canonical_decimal(text@),
            r matches Some(a) ==> a.wf() && !a.negative && a.digits@ == text@
                && a.value() == decimal_value(text@),
    {
        if !text.is_ascii() {
            proof {
                if is_canonical_decimal(text@) {
                    assert(vstd::utf8::is_ascii_chars(text@));
                }
            }
            return None;
        }
        let b = text.as_bytes();
        let n = b.len();
        assert(b@.len() == text@.len());
        if n == 0 {
            return None;
        }
        if n > 1 && b[0] == 48u8 {
            proof {
                assert(text@[0] as u8 == 48u8);
            }
            return None;
        }
        let mut i: usize = 0;
        while i < n
            invariant
                b@ == text.spec_bytes(),
                b@.len() == text@.len(),
                n == b@.len(),
                vstd::string::is_ascii(text),
                text.spec_bytes() =~= Seq::new(text@.len(), |j: int| text@[j] as u8),
                i <= n,
                forall|j: int| 0 <= j < i ==> is_digit_char(#[trigger] text@[j]),
            decreases n - i,
        {
            let c = b[i];
            if c < 48u8 || c > 57u8 {
                proof {
                    assert(text@[i as int] as u8 == c);
                }
                return None;
            }
            proof {
                assert(text@[i as int] as u8 == c);
            }
            i = i + 1;
        }
        proof {
            if n > 1 {
                assert(text@[0] != '0');
            }
        }
        Some(Amount { negative: false, digits: text.to_owned() })
    }

    /// The amount equal to `n`.
    pub fn from_u128(n: u128) -> (r: Amount)
        ensures
            r.wf(),
            r.value() == n as int,
    {
        proof {
            lemma_decimal_text(n as nat);
        }
        Amount { negative: false, digits: u128_text(n) }
    }

    pub fn duplicate(&self) -> (r: Amount)
        ensures
            r == *self,
    {
        Amount { negative: self.negative, digits: self.digits.clone() }
    }

    pub fn is_zero(&self) -> (r: bool)
        requires
            self.wf(),
        ensures
            r == (self.value() == 0),
    {
        proof {
            lemma_canonical_is_ascii(self.digits@);
            lemma_decimal_value_zero(self.digits@);
        }
        let text = self.digits.as_str();
        assert(vstd::string::is_ascii(text));
        let b = text.as_bytes();
        assert(b@.len() == self.digits@.len());
        if b.len() == 1 {
            assert(self.digits@[0] as u8 == b[0]);
            b[0] == 48u8
        } else {
            false
        }
    }

    /// The amount with the opposite sign.
    pub fn negated(&self) -> (r: Amount)
        requires
            self.wf(),
        ensures
            r.wf(),
            r.value() == -self.value(),
    {
        let zero = self.is_zero();
        Amount { negative: !self.negative && !zero, digits: self.digits.clone() }
    }

    /// The magnitude as a `u128`, when it fits.
    pub fn magnitude_u128(&self) -> (r: Option<u128>)
        requires
            self.wf(),
        ensures
            r is Some <==> self.magnitude() <= u128::MAX,
            r matches Some(m) ==> m as nat == self.magnitude(),
    {
        let ghost s = self.digits@;
        proof {
            lemma_canonical_is_ascii(s);
        }
        let text = self.digits.as_str();
        assert(vstd::string::is_ascii(text));
        let b = text.as_bytes();
        let n = b.len();
        let mut acc: u128 = 0;
        let mut i: usize = 0;
        assert(s.subrange(0, 0) =~= Seq::<char>::empty());
        while i < n
            invariant
                text@ == s,
                s == self.digits@,
                is_canonical_decimal(s),
                b@ =~= Seq::new(s.len(), |j: int| s[j] as u8),
                n == s.len(),
                i <= n,
                acc as nat == decimal_value(s.subrange(0, i as int)),
            decreases n - i,
        {
            let c = b[i];
            proof {
                assert(is_digit_char(s[i as int]));
                assert(s[i as int] as u8 == c);
                assert(s.subrange(0, i + 1).drop_last() =~= s.subrange(0, i as int));
                assert(s.subrange(0, i + 1).last() == s[i as int]);
            }
            let d: u128 = (c - 48u8) as u128;
            assert(d as nat == digit_value(s[i as int]));
            assert(decimal_value(s.subrange(0, i + 1)) == acc * 10 + d);
            match acc.checked_mul(10) {
                None => {
                    proof {
                        lemma_decimal_value_prefix(s, i + 1);
                    }
                    return None;
                },
                Some(t) => match t.checked_add(d) {
                    None => {
                        proof {
                            lemma_decimal_value_prefix(s, i + 1);
                        }
                        return None;
                    },
                    Some(u) => {
                        acc = u;
                    },
                },
            }
            i = i + 1;
        }
        assert(s.subrange(0, n as int) =~= s);
        Some(acc)
    }

    /// `base + self`, when that is a `u128`.
    pub fn add_to(&self, base: u128) -> (r: Option<u128>)
        requires
            self.wf(),
        ensures
            r is Some <==> 0 <= base + self.value() <= u128::MAX,
            r matches Some(v) ==> v == base + self.value(),
    {
        match self.magnitude_u128() {
            None => None,
            Some(m) => {
                if self.negative {
                    base.checked_sub(m)
                } else {
                    base.checked_add(m)
                }
            },
        }
    }

    /// `self - other` for two non-negative amounts, of any size.
    pub fn minus(&self, other: &Amount) -> (r: Amount)
        requires
            self.wf(),
            other.wf(),
            !self.negative,
            !other.negative,
        ensures
            r.wf(),
            r.value() == self.value() - other.value(),
    {
        let ghost v = self.magnitude() as int - other.magnitude() as int;
        let text = decimal_difference(self.digits.as_str(), other.digits.as_str());
        proof {
            reveal_strlit("-");
            if v < 0 {
                lemma_decimal_text((-v) as nat);
                assert(text@.subrange(1, text@.len() as int) =~= decimal_text((-v) as nat));
                assert(text@.subrange(0, 1) =~= "-"@);
            } else {
                lemma_decimal_text(v as nat);
                assert(is_digit_char(text@[0]));
            }
        }
        match crate::outside::strip_prefix(text.as_str(), "-") {
            Some(rest) => {
                proof {
                    reveal_strlit("-");
                    if v >= 0 {
                        assert(text@.subrange(0, 1)[0] == text@[0]);
                        assert(text@[0] == '-');
                        assert(!is_digit_char(text@[0]));
                    }
                }
                Amount { negative: true, digits: rest.to_owned() }
            },
            None => Amount { negative: false, digits: text },
        }
    }
}

} // verus!
