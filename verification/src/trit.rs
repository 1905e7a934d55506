use vstd::prelude::*;
use vstd::std_specs::convert::TryFromSpecImpl;
use vstd::std_specs::ops::{MulSpecImpl, NegSpecImpl};

verus! {

/// A balanced ternary digit: one of -1, 0 and +1.
#[derive(Debug, Clone, Copy, PartialEq, Eq, Structural, PartialOrd, Ord, Hash)]
pub enum Trit {
    Neg,
    Zero,
    Pos,
}

/// The integer that was offered as a trit and is none of -1, 0 and +1.
#[derive(Debug, Clone, Copy, PartialEq, Eq, Structural)]
pub struct InvalidTritValueError(pub i8);

impl Trit {
    /// The integer that the digit stands for.
    pub open spec fn value(self) -> int {
        match self {
            Trit::Neg => -1,
            Trit::Zero => 0,
            Trit::Pos => 1,
        }
    }

    /// The digit that stands for `v`; `Zero` where `v` is no digit.
    pub open spec fn from_value(v: int) -> Trit {
        if v == -1 {
            Trit::Neg
        } else if v == 1 {
            Trit::Pos
        } else {
            Trit::Zero
        }
    }

    /// The character a digit is written with.
    pub open spec fn symbol(self) -> char {
        match self {
            Trit::Neg => 'T',
            Trit::Zero => '0',
            Trit::Pos => '1',
        }
    }

    /// The digit as a native integer.
    pub fn to_i8(self) -> (r: i8)
        ensures
            r == self.value(),
    {
        match self {
            Trit::Neg => -1,
            Trit::Zero => 0,
            Trit::Pos => 1,
        }
    }

    /// The digit as the one-character text it is displayed with.
    pub fn as_str(self) -> (r: &'static str)
        ensures
            r@ == seq![self.symbol()],
    {
        proof {
            reveal_strlit("T");
            reveal_strlit("0");
            reveal_strlit("1");
        }
        let r = match self {
            Trit::Neg => "T",
            Trit::Zero => "0",
            Trit::Pos => "1",
        };
        assert(r@ =~= seq![self.symbol()]);
        r
    }

    /// Adds three digits. The first result is the digit of the sum, the
    /// second the carry into the next position.
    pub fn full_add(&self, other: Trit, carry_in: Trit) -> (r: (Trit, Trit))
        ensures
            r.0.value() + 3 * r.1.value() == self.value() + other.value() + carry_in.value(),
    {
        let total: i8 = self.to_i8() + other.to_i8() + carry_in.to_i8();
        if total == -3 {
            (Trit::Zero, Trit::Neg)
        } else if total == -2 {
            (Trit::Pos, Trit::Neg)
        } else if total == -1 {
            (Trit::Neg, Trit::Zero)
        } else if total == 0 {
            (Trit::Zero, Trit::Zero)
        } else if total == 1 {
            (Trit::Pos, Trit::Zero)
        } else if total == 2 {
            (Trit::Neg, Trit::Pos)
        } else {
            (Trit::Zero, Trit::Pos)
        }
    }

    /// The product of two digits.
    pub fn multiply(&self, other: Trit) -> (r: Trit)
        ensures
            r.value() == self.value() * other.value(),
    {
        match (*self, other) {
            (Trit::Zero, _) => Trit::Zero,
            (_, Trit::Zero) => Trit::Zero,
            (Trit::Pos, t) => t,
            (Trit::Neg, t) => t.negate(),
        }
    }

    /// The digit of opposite sign.
    pub fn negate(&self) -> (r: Trit)
        ensures
            r.value() == -self.value(),
    {
        match self {
            Trit::Neg => Trit::Pos,
            Trit::Zero => Trit::Zero,
            Trit::Pos => Trit::Neg,
        }
    }
}

impl NegSpecImpl for Trit {
    open spec fn obeys_neg_spec() -> bool {
        true
    }

    open spec fn neg_req(self) -> bool {
        true
    }

    open spec fn neg_spec(self) -> Trit {
        Trit::from_value(-self.value())
    }
}

impl std::ops::Neg for Trit {
    type Output = Trit;

    fn neg(self) -> (r: Trit) {
        self.negate()
    }
}

impl MulSpecImpl for Trit {
    open spec fn obeys_mul_spec() -> bool {
        true
    }

    open spec fn mul_req(self, rhs: Trit) -> bool {
        true
    }

    open spec fn mul_spec(self, rhs: Trit) -> Trit {
        Trit::from_value(self.value() * rhs.value())
    }
}

impl std::ops::Mul for Trit {
    type Output = Trit;

    fn mul(self, rhs: Trit) -> (r: Trit) {
        self.multiply(rhs)
    }
}

impl TryFromSpecImpl<i8> for Trit {
    open spec fn obeys_try_from_spec() -> bool {
        true
    }

    open spec fn try_from_spec(value: i8) -> Result<Trit, InvalidTritValueError> {
        if -1 <= value <= 1 {
            Ok(Trit::from_value(value as int))
        } else {
            Err(InvalidTritValueError(value))
        }
    }
}

impl TryFrom<i8> for Trit {
    type Error = InvalidTritValueError;

    /// The digit that stands for `value`, which has to be -1, 0 or 1.
    fn try_from(value: i8) -> (r: Result<Trit, InvalidTritValueError>)
        ensures
            r is Ok <==> -1 <= value <= 1,
            r matches Ok(t) ==> t.value() == value,
            r matches Err(e) ==> e == InvalidTritValueError(value),
    {
        if value == -1 {
            Ok(Trit::Neg)
        } else if value == 0 {
            Ok(Trit::Zero)
        } else if value == 1 {
            Ok(Trit::Pos)
        } else {
            Err(InvalidTritValueError(value))
        }
    }
}

} // verus!
