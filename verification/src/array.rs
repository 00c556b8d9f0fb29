//! The tagged array value: a homogeneous rank-1 vector of numbers or
//! characters, with the elementwise primitive operations the builtins
//! are built from.

use vstd::prelude::*;

verus! {

/// One element of a value: a number or a character.
#[derive(Clone, Copy, Debug, PartialEq, Eq, Structural)]
pub enum Prim {
    Num(i64),
    Char(char),
}

/// Every element of `s` is numeric.
pub open spec fn all_num(s: Seq<Prim>) -> bool {
    forall|i: int| 0 <= i < s.len() ==> s[i] is Num
}

/// Every element of `s` is a character.
pub open spec fn all_char(s: Seq<Prim>) -> bool {
    forall|i: int| 0 <= i < s.len() ==> s[i] is Char
}

/// Truncating (round toward zero) integer division, as `/` behaves on
/// machine integers.
pub open spec fn tdiv(x: int, y: int) -> int {
    let q = abs_int(x) / abs_int(y);
    if (x < 0) != (y < 0) {
        -q
    } else {
        q
    }
}

pub open spec fn abs_int(x: int) -> int {
    if x < 0 {
        -x
    } else {
        x
    }
}

/// A numeric element holding a value strictly greater than zero.
/// Characters and non-positive numbers count as false.
pub open spec fn truthy(p: Prim) -> bool {
    p matches Prim::Num(x) && x > 0
}

impl Prim {
    /// What `add` returns: the exact sum when both operands are numeric
    /// and the sum fits in an `i64`, nothing otherwise.
    pub open spec fn add_s(self, rhs: Prim) -> Option<Prim> {
        match (self, rhs) {
            (Prim::Num(x), Prim::Num(y)) => if i64::MIN <= x + y <= i64::MAX {
                Some(Prim::Num((x + y) as i64))
            } else {
                None
            },
            _ => None,
        }
    }

    pub open spec fn sub_s(self, rhs: Prim) -> Option<Prim> {
        match (self, rhs) {
            (Prim::Num(x), Prim::Num(y)) => if i64::MIN <= x - y <= i64::MAX {
                Some(Prim::Num((x - y) as i64))
            } else {
                None
            },
            _ => None,
        }
    }

    pub open spec fn mul_s(self, rhs: Prim) -> Option<Prim> {
        match (self, rhs) {
            (Prim::Num(x), Prim::Num(y)) => if i64::MIN <= x * y <= i64::MAX {
                Some(Prim::Num((x * y) as i64))
            } else {
                None
            },
            _ => None,
        }
    }

    /// What `div` returns: the truncating quotient when both operands
    /// are numeric, the divisor is nonzero and the quotient fits.
    pub open spec fn div_s(self, rhs: Prim) -> Option<Prim> {
        match (self, rhs) {
            (Prim::Num(x), Prim::Num(y)) => if y == 0 || (x == i64::MIN && y == -1) {
                None
            } else {
                Some(Prim::Num(tdiv(x as int, y as int) as i64))
            },
            _ => None,
        }
    }

    /// Logical conjunction under numeric truthiness (`> 0` is true).
    pub open spec fn and_s(self, rhs: Prim) -> Option<Prim> {
        match (self, rhs) {
            (Prim::Num(x), Prim::Num(y)) => Some(
                Prim::Num(if x > 0 && y > 0 { 1 } else { 0 }),
            ),
            _ => None,
        }
    }

    /// Logical disjunction under numeric truthiness (`> 0` is true).
    pub open spec fn or_s(self, rhs: Prim) -> Option<Prim> {
        match (self, rhs) {
            (Prim::Num(x), Prim::Num(y)) => Some(
                Prim::Num(if x > 0 || y > 0 { 1 } else { 0 }),
            ),
            _ => None,
        }
    }

    /// Elementwise addition; `None` on a non-numeric operand or overflow.
    pub fn add(self, rhs: Prim) -> (r: Option<Prim>)
        ensures
            r == self.add_s(rhs),
    {
        match (self, rhs) {
            (Prim::Num(x), Prim::Num(y)) => match x.checked_add(y) {
                Some(z) => Some(Prim::Num(z)),
                None => None,
            },
            _ => None,
        }
    }

    /// Elementwise subtraction; `None` on a non-numeric operand or overflow.
    pub fn sub(self, rhs: Prim) -> (r: Option<Prim>)
        ensures
            r == self.sub_s(rhs),
    {
        match (self, rhs) {
            (Prim::Num(x), Prim::Num(y)) => match x.checked_sub(y) {
                Some(z) => Some(Prim::Num(z)),
                None => None,
            },
            _ => None,
        }
    }

    /// Elementwise multiplication; `None` on a non-numeric operand or overflow.
    pub fn mul(self, rhs: Prim) -> (r: Option<Prim>)
        ensures
            r == self.mul_s(rhs),
    {
        match (self, rhs) {
            (Prim::Num(x), Prim::Num(y)) => match x.checked_mul(y) {
                Some(z) => Some(Prim::Num(z)),
                None => None,
            },
            _ => None,
        }
    }

    /// Elementwise truncating division; `None` on a non-numeric operand,
    /// a zero divisor, or overflow.
    pub fn div(self, rhs: Prim) -> (r: Option<Prim>)
        ensures
            r == self.div_s(rhs),
    {
        match (self, rhs) {
            (Prim::Num(x), Prim::Num(y)) => {
                if y == 0 || (x == i64::MIN && y == -1) {
                    None
                } else {
                    Some(Prim::Num(div_trunc(x, y)))
                }
            },
            _ => None,
        }
    }

    /// Truthiness conjunction; `None` if either element is not numeric.
    pub fn and(&self, rhs: &Self) -> (r: Option<Self>)
        ensures
            r == self.and_s(*rhs),
    {
        match (self, rhs) {
            (Prim::Num(x), Prim::Num(y)) => Some(
                Prim::Num(if *x > 0 && *y > 0 { 1 } else { 0 }),
            ),
            _ => None,
        }
    }

    /// Truthiness disjunction; `None` if either element is not numeric.
    pub fn or(&self, rhs: &Self) -> (r: Option<Self>)
        ensures
            r == self.or_s(*rhs),
    {
        match (self, rhs) {
            (Prim::Num(x), Prim::Num(y)) => Some(
                Prim::Num(if *x > 0 || *y > 0 { 1 } else { 0 }),
            ),
            _ => None,
        }
    }

    /// Elementwise equality as a number: `1` when both elements are the
    /// same variant with the same content, `0` otherwise.
    pub fn eql(&self, rhs: &Self) -> (r: Self)
        ensures
            r == (if *self == *rhs {
                Prim::Num(1)
            } else {
                Prim::Num(0)
            }),
    {
        match (self, rhs) {
            (Prim::Num(x), Prim::Num(y)) => if *x == *y {
                Prim::Num(1)
            } else {
                Prim::Num(0)
            },
            (Prim::Char(x), Prim::Char(y)) => if *x == *y {
                Prim::Num(1)
            } else {
                Prim::Num(0)
            },
            _ => Prim::Num(0),
        }
    }

    /// Whether both elements carry the same variant.
    pub fn eq_type(&self, rhs: &Self) -> (r: bool)
        ensures
            r == ((*self is Num && *rhs is Num) || (*self is Char && *rhs is Char)),
    {
        match (self, rhs) {
            (Prim::Num(_), Prim::Num(_)) => true,
            (Prim::Char(_), Prim::Char(_)) => true,
            _ => false,
        }
    }

    /// Whether this element is numeric.
    pub fn is_num(&self) -> (r: bool)
        ensures
            r == (*self is Num),
    {
        match self {
            Prim::Num(_) => true,
            _ => false,
        }
    }

    /// The numeric content, if this element is numeric.
    pub fn as_num(&self) -> (r: Option<i64>)
        ensures
            match *self {
                Prim::Num(x) => r == Some(x),
                Prim::Char(_) => r is None,
            },
    {
        match self {
            Prim::Num(x) => Some(*x),
            _ => None,
        }
    }

    /// The character content, if this element is a character.
    pub fn as_char(&self) -> (r: Option<char>)
        ensures
            match *self {
                Prim::Char(c) => r == Some(c),
                Prim::Num(_) => r is None,
            },
    {
        match self {
            Prim::Char(c) => Some(*c),
            _ => None,
        }
    }
}

/// Wrap a character as a value element.
pub fn wrap_char(c: char) -> (r: Prim)
    ensures
        r == Prim::Char(c),
{
    Prim::Char(c)
}

/// Truncating division on `i64`, computed through unsigned magnitudes.
fn div_trunc(x: i64, y: i64) -> (r: i64)
    requires
        y != 0,
        !(x == i64::MIN && y == -1),
    ensures
        r as int == tdiv(x as int, y as int),
{
    let xm: u64 = if x >= 0 {
        x as u64
    } else {
        (-(x as i128)) as u64
    };
    let ym: u64 = if y >= 0 {
        y as u64
    } else {
        (-(y as i128)) as u64
    };
    let q: u64 = xm / ym;
    assert(xm == abs_int(x as int) && ym == abs_int(y as int));
    assert(q == abs_int(x as int) / abs_int(y as int));
    if (x < 0) != (y < 0) {
        proof {
            vstd::arithmetic::div_mod::lemma_div_nonincreasing(xm as int, ym as int);
        }
        (-(q as i128)) as i64
    } else {
        proof {
            if x == i64::MIN {
                assert(ym >= 2);
                vstd::arithmetic::div_mod::lemma_div_is_ordered_by_denominator(
                    xm as int,
                    2,
                    ym as int,
                );
                assert(xm as int / 2int == 0x4000_0000_0000_0000);
            } else {
                vstd::arithmetic::div_mod::lemma_div_nonincreasing(xm as int, ym as int);
            }
        }
        q as i64
    }
}

/// A value: an ordered, homogeneous sequence of numeric or character
/// elements. The view of a value is the sequence of its elements.
#[derive(Debug, PartialEq)]
pub struct A {
    pub d: Vec<Prim>,
}

impl View for A {
    type V = Seq<Prim>;

    open spec fn view(&self) -> Seq<Prim> {
        self.d@
    }
}

impl DeepView for A {
    type V = Seq<Prim>;

    open spec fn deep_view(&self) -> Seq<Prim> {
        self.d@
    }
}

impl Clone for A {
    /// Cloning a value keeps its elements.
    fn clone(&self) -> (r: Self)
        ensures
            r@ == self@,
    {
        let mut d: Vec<Prim> = Vec::new();
        let mut i: usize = 0;
        while i < self.d.len()
            invariant
                i <= self.d.len(),
                d@ == self.d@.subrange(0, i as int),
            decreases self.d.len() - i,
        {
            d.push(self.d[i]);
            i = i + 1;
            proof {
                assert(d@ =~= self.d@.subrange(0, i as int));
            }
        }
        proof {
            assert(d@ =~= self.d@);
        }
        A { d }
    }
}

impl A {
    /// A value is homogeneous: all elements numeric, or all characters.
    pub open spec fn wf(self) -> bool {
        all_num(self@) || all_char(self@)
    }

    /// Wrap a vector of elements as a value.
    pub fn new(d: Vec<Prim>) -> (r: Self)
        ensures
            r@ == d@,
    {
        Self { d }
    }

    /// A numeric scalar.
    pub fn from_num(x: i64) -> (r: Self)
        ensures
            r@ =~= seq![Prim::Num(x)],
            r.wf(),
    {
        Self { d: vec![Prim::Num(x)] }
    }

    /// A numeric vector with the given elements.
    pub fn from_nums(x: &[i64]) -> (r: Self)
        ensures
            r@.len() == x@.len(),
            forall|i: int| 0 <= i < x@.len() ==> r@[i] == Prim::Num(x@[i]),
            r.wf(),
    {
        let mut d: Vec<Prim> = Vec::new();
        let mut i: usize = 0;
        while i < x.len()
            invariant
                i <= x@.len(),
                d@.len() == i,
                forall|j: int| 0 <= j < i ==> d@[j] == Prim::Num(x@[j]),
            decreases x@.len() - i,
        {
            d.push(Prim::Num(x[i]));
            i = i + 1;
        }
        Self { d }
    }

    /// A character vector holding the characters of `x`, in order.
    pub fn from_str(x: &str) -> (r: Self)
        ensures
            r@.len() == x@.len(),
            forall|i: int| 0 <= i < x@.len() ==> r@[i] == Prim::Char(x@[i]),
            r.wf(),
    {
        let v = crate::text::chars_of(x);
        Self::from_chars(&v)
    }

    /// A character vector holding the characters of `x`, in order.
    pub fn from_chars(x: &Vec<char>) -> (r: Self)
        ensures
            r@.len() == x@.len(),
            forall|i: int| 0 <= i < x@.len() ==> r@[i] == Prim::Char(x@[i]),
            r.wf(),
    {
        let mut d: Vec<Prim> = Vec::new();
        let mut i: usize = 0;
        while i < x.len()
            invariant
                i <= x@.len(),
                d@.len() == i,
                forall|j: int| 0 <= j < i ==> d@[j] == Prim::Char(x@[j]),
            decreases x@.len() - i,
        {
            d.push(wrap_char(x[i]));
            i = i + 1;
        }
        Self { d }
    }
}

} // verus!
