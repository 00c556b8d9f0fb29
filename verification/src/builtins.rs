//! The value-level builtin operations: elementwise arithmetic and
//! logic under the cycling broadcast, deep equality, truthiness, and
//! concatenation.
//!
//! A binary operation zips the left operand's elements against the
//! right operand's elements cycled (repeated) to the left operand's
//! length, so a length-1 right operand scales against any length.

use vstd::prelude::*;

use crate::array::{all_char, all_num, truthy, Prim, A};
use crate::errors::ErrorType;

verus! {

/// Which elementwise operation a cycling broadcast applies.
#[derive(Debug, Clone, Copy, PartialEq, Eq, Structural)]
pub enum ArithOp {
    Plus,
    Minus,
    Multiply,
    Divide,
    And,
    Or,
}

/// What one elementwise application yields, if anything.
pub open spec fn prim_op_s(op: ArithOp, x: Prim, y: Prim) -> Option<Prim> {
    match op {
        ArithOp::Plus => x.add_s(y),
        ArithOp::Minus => x.sub_s(y),
        ArithOp::Multiply => x.mul_s(y),
        ArithOp::Divide => x.div_s(y),
        ArithOp::And => x.and_s(y),
        ArithOp::Or => x.or_s(y),
    }
}

/// The cycling broadcast of `op` over `a` and `b`: element `i` of the
/// result is `op(a[i], b[i mod len(b)])`. An empty right operand gives
/// an empty result; a failing element (a non-numeric operand, an
/// overflow, a zero divisor) fails the whole operation.
pub open spec fn cycle_s(op: ArithOp, a: Seq<Prim>, b: Seq<Prim>) -> Option<Seq<Prim>> {
    if b.len() == 0 {
        Some(Seq::empty())
    } else if forall|i: int|
        0 <= i < a.len() ==> prim_op_s(op, #[trigger] a[i], b[i % (b.len() as int)]) is Some {
        Some(Seq::new(a.len(), |i: int| prim_op_s(op, a[i], b[i % (b.len() as int)])->0))
    } else {
        None
    }
}

/// One elementwise application.
fn prim_op(op: ArithOp, x: Prim, y: Prim) -> (r: Option<Prim>)
    ensures
        r == prim_op_s(op, x, y),
{
    match op {
        ArithOp::Plus => x.add(y),
        ArithOp::Minus => x.sub(y),
        ArithOp::Multiply => x.mul(y),
        ArithOp::Divide => x.div(y),
        ArithOp::And => x.and(&y),
        ArithOp::Or => x.or(&y),
    }
}

/// Apply `op` elementwise with the cycling broadcast.
fn zip_cycle(op: ArithOp, a: &A, b: &A) -> (r: Result<A, ErrorType>)
    ensures
        match r {
            Ok(c) => cycle_s(op, a@, b@) == Some(c@),
            Err(e) => e == ErrorType::Eval && cycle_s(op, a@, b@) is None,
        },
{
    if b.d.len() == 0 {
        let c = A::new(Vec::new());
        proof {
            assert(cycle_s(op, a@, b@) matches Some(s) && s =~= c@);
        }
        return Ok(c);
    }
    let mut d: Vec<Prim> = Vec::new();
    let mut i: usize = 0;
    while i < a.d.len()
        invariant
            b@.len() > 0,
            i <= a@.len(),
            d@.len() == i,
            forall|j: int|
                0 <= j < i ==> prim_op_s(op, #[trigger] a@[j], b@[j % (b@.len() as int)])
                    == Some(d@[j]),
        decreases a@.len() - i,
    {
        let j = i % b.d.len();
        match prim_op(op, a.d[i], b.d[j]) {
            Some(p) => {
                d.push(p);
            },
            None => {
                proof {
                    assert(prim_op_s(op, a@[i as int], b@[i as int % (b@.len() as int)])
                        is None);
                }
                return Err(ErrorType::Eval);
            },
        }
        i = i + 1;
    }
    proof {
        assert(cycle_s(op, a@, b@) matches Some(s) && s =~= d@);
    }
    Ok(A::new(d))
}

/// Elementwise addition with the cycling broadcast.
pub fn plus(a: A, b: A) -> (r: Result<A, ErrorType>)
    ensures
        match r {
            Ok(c) => cycle_s(ArithOp::Plus, a@, b@) == Some(c@),
            Err(e) => e == ErrorType::Eval && cycle_s(ArithOp::Plus, a@, b@) is None,
        },
{
    zip_cycle(ArithOp::Plus, &a, &b)
}

/// Elementwise subtraction with the cycling broadcast.
pub fn minus(a: A, b: A) -> (r: Result<A, ErrorType>)
    ensures
        match r {
            Ok(c) => cycle_s(ArithOp::Minus, a@, b@) == Some(c@),
            Err(e) => e == ErrorType::Eval && cycle_s(ArithOp::Minus, a@, b@) is None,
        },
{
    zip_cycle(ArithOp::Minus, &a, &b)
}

/// Elementwise multiplication with the cycling broadcast.
pub fn multiply(a: A, b: A) -> (r: Result<A, ErrorType>)
    ensures
        match r {
            Ok(c) => cycle_s(ArithOp::Multiply, a@, b@) == Some(c@),
            Err(e) => e == ErrorType::Eval && cycle_s(ArithOp::Multiply, a@, b@) is None,
        },
{
    zip_cycle(ArithOp::Multiply, &a, &b)
}

/// Elementwise truncating division with the cycling broadcast.
pub fn divide(a: A, b: A) -> (r: Result<A, ErrorType>)
    ensures
        match r {
            Ok(c) => cycle_s(ArithOp::Divide, a@, b@) == Some(c@),
            Err(e) => e == ErrorType::Eval && cycle_s(ArithOp::Divide, a@, b@) is None,
        },
{
    zip_cycle(ArithOp::Divide, &a, &b)
}

/// Elementwise conjunction under numeric truthiness, with the cycling
/// broadcast.
pub fn and(a: A, b: A) -> (r: Result<A, ErrorType>)
    ensures
        match r {
            Ok(c) => cycle_s(ArithOp::And, a@, b@) == Some(c@),
            Err(e) => e == ErrorType::Eval && cycle_s(ArithOp::And, a@, b@) is None,
        },
{
    zip_cycle(ArithOp::And, &a, &b)
}

/// Elementwise disjunction under numeric truthiness, with the cycling
/// broadcast.
pub fn or(a: A, b: A) -> (r: Result<A, ErrorType>)
    ensures
        match r {
            Ok(c) => cycle_s(ArithOp::Or, a@, b@) == Some(c@),
            Err(e) => e == ErrorType::Eval && cycle_s(ArithOp::Or, a@, b@) is None,
        },
{
    zip_cycle(ArithOp::Or, &a, &b)
}

/// A value is truthy when some element is a number greater than zero.
pub open spec fn val_truthy(v: Seq<Prim>) -> bool {
    exists|i: int| 0 <= i < v.len() && truthy(#[trigger] v[i])
}

/// The conditional test: `true` means the condition is false (all
/// elements non-positive) and the branch is to be skipped.
pub fn iff(a: A) -> (r: Result<bool, ErrorType>)
    ensures
        match r {
            Ok(c) => c == !val_truthy(a@),
            Err(_) => false,
        },
{
    let mut i: usize = 0;
    while i < a.d.len()
        invariant
            i <= a@.len(),
            forall|j: int| 0 <= j < i ==> !truthy(#[trigger] a@[j]),
        decreases a@.len() - i,
    {
        match a.d[i] {
            Prim::Num(x) => if x > 0 {
                proof {
                    assert(truthy(a@[i as int]));
                }
                return Ok(false);
            },
            _ => {},
        }
        i = i + 1;
    }
    Ok(true)
}

/// Deep equality: `1` when both values carry the same variant and the
/// same elements, `0` otherwise.
pub fn equal(a: A, b: A) -> (r: A)
    ensures
        a@ == b@ ==> r@ == seq![Prim::Num(1i64)],
        a@ != b@ ==> r@ == seq![Prim::Num(0i64)],
{
    if a.d.len() != b.d.len() {
        proof {
            assert(a@.len() != b@.len());
        }
        return A::from_num(0);
    }
    let mut i: usize = 0;
    while i < a.d.len()
        invariant
            a@.len() == b@.len(),
            i <= a@.len(),
            forall|j: int| 0 <= j < i ==> a@[j] == b@[j],
        decreases a@.len() - i,
    {
        if !(a.d[i] == b.d[i]) {
            proof {
                assert(a@[i as int] != b@[i as int]);
            }
            return A::from_num(0);
        }
        i = i + 1;
    }
    proof {
        assert(a@ =~= b@);
    }
    A::from_num(1)
}

/// Whether two values may be concatenated: both nonempty, and their
/// leading elements of the same variant.
pub open spec fn concat_ok(a: Seq<Prim>, b: Seq<Prim>) -> bool {
    a.len() > 0 && b.len() > 0 && ((a[0] is Num && b[0] is Num) || (a[0] is Char && b[0]
        is Char))
}

/// Concatenation: `a` followed by `b`. The variants must match and
/// neither operand may be empty.
pub fn concat(a: A, b: A) -> (r: Result<A, ErrorType>)
    ensures
        match r {
            Ok(c) => concat_ok(a@, b@) && c@ == a@ + b@,
            Err(e) => e == ErrorType::Eval && !concat_ok(a@, b@),
        },
{
    if a.d.len() == 0 || b.d.len() == 0 {
        return Err(ErrorType::Eval);
    }
    if !a.d[0].eq_type(&b.d[0]) {
        return Err(ErrorType::Eval);
    }
    let ghost ag = a@;
    let mut d = a.d;
    let mut i: usize = 0;
    while i < b.d.len()
        invariant
            i <= b@.len(),
            d@ == ag + b@.subrange(0, i as int),
        decreases b@.len() - i,
    {
        d.push(b.d[i]);
        i = i + 1;
        proof {
            assert(d@ =~= ag + b@.subrange(0, i as int));
        }
    }
    proof {
        assert(d@ =~= ag + b@);
    }
    Ok(A::new(d))
}

/// A successful cycling broadcast yields a purely numeric value:
/// every elementwise operation produces a number.
pub proof fn lemma_cycle_all_num(op: ArithOp, a: Seq<Prim>, b: Seq<Prim>)
    ensures
        cycle_s(op, a, b) matches Some(c) ==> all_num(c),
{
    if cycle_s(op, a, b) is Some {
        let c = cycle_s(op, a, b)->0;
        assert forall|i: int| 0 <= i < c.len() implies c[i] is Num by {
            if b.len() > 0 {
                let y = b[i % (b.len() as int)];
                assert(prim_op_s(op, a[i], y) is Some);
                assert(prim_op_s(op, a[i], y)->0 is Num);
            }
        }
    }
}

/// Concatenating two homogeneous values whose variants match yields a
/// homogeneous value.
pub proof fn lemma_concat_wf(a: Seq<Prim>, b: Seq<Prim>)
    requires
        all_num(a) || all_char(a),
        all_num(b) || all_char(b),
        concat_ok(a, b),
    ensures
        all_num(a + b) || all_char(a + b),
{
    if a[0] is Num {
        assert(all_num(a) && all_num(b));
        assert forall|i: int| 0 <= i < (a + b).len() implies (a + b)[i] is Num by {
            if i < a.len() {
                assert((a + b)[i] == a[i]);
            } else {
                assert((a + b)[i] == b[i - a.len()]);
            }
        }
    } else {
        assert(all_char(a) && all_char(b));
        assert forall|i: int| 0 <= i < (a + b).len() implies (a + b)[i] is Char by {
            if i < a.len() {
                assert((a + b)[i] == a[i]);
            } else {
                assert((a + b)[i] == b[i - a.len()]);
            }
        }
    }
}

/// The numeric content of an element, zero for a character.
pub open spec fn num_val(p: Prim) -> int {
    match p {
        Prim::Num(x) => x as int,
        Prim::Char(_) => 0,
    }
}

/// Broadcast against a scalar keeps the longer length: for numeric
/// operands where the right one has a single element, the sum has
/// length `max(len(a), len(b)) == len(a)`, and every element is the
/// scalar-expanded elementwise sum. (With the single element on the
/// left instead, the result keeps the left length, one.)
pub proof fn lemma_scalar_broadcast_plus(a: Seq<Prim>, b: Seq<Prim>)
    requires
        all_num(a),
        all_num(b),
        b.len() == 1,
        a.len() >= 1,
        forall|i: int|
            0 <= i < a.len() ==> i64::MIN <= num_val(#[trigger] a[i]) + num_val(b[0])
                <= i64::MAX,
    ensures
        cycle_s(ArithOp::Plus, a, b) matches Some(c) && c.len() == (if a.len() >= b.len() {
            a.len()
        } else {
            b.len()
        }) && forall|i: int|
            0 <= i < c.len() ==> c[i] == Prim::Num(
                (num_val(a[i]) + num_val(b[0])) as i64,
            ),
{
    assert forall|i: int| 0 <= i < a.len() implies prim_op_s(
        ArithOp::Plus,
        #[trigger] a[i],
        b[i % (b.len() as int)],
    ) == Some(Prim::Num((num_val(a[i]) + num_val(b[0])) as i64)) by {
        assert(i % 1int == 0);
        assert(a[i] is Num);
        assert(b[0] is Num);
    }
    let c = cycle_s(ArithOp::Plus, a, b)->0;
    assert(cycle_s(ArithOp::Plus, a, b) == Some(c));
    assert(c.len() == a.len());
}

} // verus!
