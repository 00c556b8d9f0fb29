//! The evaluator: a stack machine that walks an instruction sequence
//! against a mutable value stack and a read-only word dictionary,
//! dispatching builtins, resolving forward jumps, and recursively
//! evaluating word bodies.
//!
//! Evaluation is guarded by a recursion-depth budget (`fuel`): each
//! descent into a word body spends one unit, and running out is an
//! evaluation error. Values a `Print` emits are appended to an output
//! list; rendering them is the caller's business.

use vstd::prelude::*;

use crate::array::{all_char, all_num, Prim, A};
use crate::builtins;
use crate::builtins::{concat_ok, cycle_s, lemma_concat_wf, lemma_cycle_all_num, val_truthy, ArithOp};
use crate::dict::Dict;
use crate::errors::ErrorType;
use crate::parser::{
    array_val_s, chars_data, instr_v, instrs_v, lemma_chars_data, parse_body_s, parse_line_s,
    parse_one_s, parse_simple_s, parse_toks_s, tok_erase, tok_v, toks_erase, toks_v, words_of,
    Ast, Body, Builtins, Instr, InstrG, TokG, Token,
};
use crate::lexer::LexemeType;

verus! {

/// The machine state the semantics walks: the value stack and the
/// output emitted so far, both as sequences of element sequences.
#[verifier::ext_equal]
pub ghost struct StateS {
    pub stack: Seq<Seq<Prim>>,
    pub out: Seq<Seq<Prim>>,
}

/// What one builtin application does to the state: continue, skip to
/// the next forward marker, repeat the next instruction, or fail.
#[verifier::ext_equal]
pub ghost enum StepG {
    Go(StateS),
    Skip(StateS),
    Rep(StateS, int),
    Fail(StateS),
}

/// The outcome of an evaluation: the final state, reached normally or
/// by the error that aborted the walk.
#[verifier::ext_equal]
pub ghost enum OutG {
    Done(StateS),
    Fail(StateS),
}

/// The views of a stack of values.
pub open spec fn vals(s: Seq<A>) -> Seq<Seq<Prim>> {
    Seq::new(s.len(), |i: int| s[i].d@)
}

pub broadcast proof fn lemma_vals_push(s: Seq<A>, a: A)
    ensures
        #[trigger] vals(s.push(a)) == vals(s).push(a.d@),
{
    assert(vals(s.push(a)) =~= vals(s).push(a.d@));
}

pub broadcast proof fn lemma_vals_drop_last(s: Seq<A>)
    requires
        s.len() > 0,
    ensures
        #[trigger] vals(s.drop_last()) == vals(s).drop_last(),
{
    assert(vals(s.drop_last()) =~= vals(s).drop_last());
}

/// Each element of a value as a length-1 value of its own, in order.
pub open spec fn singletons(v: Seq<Prim>) -> Seq<Seq<Prim>> {
    Seq::new(v.len(), |i: int| seq![v[i]])
}

/// What applying a binary cycling operation does: pop the right then
/// the left operand, push the broadcast result.
pub open spec fn step_arith_s(op: ArithOp, st: StateS) -> StepG {
    let s = st.stack;
    if s.len() == 0 {
        StepG::Fail(st)
    } else if s.len() == 1 {
        StepG::Fail(StateS { stack: s.drop_last(), out: st.out })
    } else {
        let b = s.last();
        let a = s[s.len() - 2];
        let rest = s.drop_last().drop_last();
        match cycle_s(op, a, b) {
            Some(c) => StepG::Go(StateS { stack: rest.push(c), out: st.out }),
            None => StepG::Fail(StateS { stack: rest, out: st.out }),
        }
    }
}

/// What one builtin application does to the machine state. Operands
/// are popped in stack order, so an underflow discovered at the second
/// pop leaves the first already removed.
pub open spec fn step_builtin_s(b: Builtins, st: StateS) -> StepG {
    let s = st.stack;
    match b {
        Builtins::Print => if s.len() > 0 {
            StepG::Go(StateS { stack: s, out: st.out.push(s.last()) })
        } else {
            StepG::Go(st)
        },
        Builtins::Plus => step_arith_s(ArithOp::Plus, st),
        Builtins::Minus => step_arith_s(ArithOp::Minus, st),
        Builtins::Multiply => step_arith_s(ArithOp::Multiply, st),
        Builtins::Divide => step_arith_s(ArithOp::Divide, st),
        Builtins::And => step_arith_s(ArithOp::And, st),
        Builtins::Or => step_arith_s(ArithOp::Or, st),
        Builtins::Equal => if s.len() == 0 {
            StepG::Fail(st)
        } else if s.len() == 1 {
            StepG::Fail(StateS { stack: s.drop_last(), out: st.out })
        } else {
            let b1 = s.last();
            let a1 = s[s.len() - 2];
            let rest = s.drop_last().drop_last();
            let e: Seq<Prim> = if a1 == b1 {
                seq![Prim::Num(1i64)]
            } else {
                seq![Prim::Num(0i64)]
            };
            StepG::Go(StateS { stack: rest.push(e), out: st.out })
        },
        Builtins::Concat => if s.len() == 0 {
            StepG::Fail(st)
        } else if s.len() == 1 {
            StepG::Fail(StateS { stack: s.drop_last(), out: st.out })
        } else {
            let b1 = s.last();
            let a1 = s[s.len() - 2];
            let rest = s.drop_last().drop_last();
            if concat_ok(a1, b1) {
                StepG::Go(StateS { stack: rest.push(a1 + b1), out: st.out })
            } else {
                StepG::Fail(StateS { stack: rest, out: st.out })
            }
        },
        Builtins::Len => if s.len() == 0 {
            StepG::Go(st)
        } else if s.last().len() > i64::MAX {
            StepG::Fail(st)
        } else {
            StepG::Go(
                StateS { stack: s.push(seq![Prim::Num(s.last().len() as i64)]), out: st.out },
            )
        },
        Builtins::Transmute => if s.len() == 0 {
            StepG::Fail(st)
        } else {
            StepG::Go(StateS { stack: s.drop_last() + singletons(s.last()), out: st.out })
        },
        Builtins::Duplicate => if s.len() == 0 {
            StepG::Fail(st)
        } else {
            StepG::Go(StateS { stack: s.push(s.last()), out: st.out })
        },
        Builtins::Swap => if s.len() == 0 {
            StepG::Fail(st)
        } else if s.len() == 1 {
            StepG::Fail(StateS { stack: s.drop_last(), out: st.out })
        } else {
            let b1 = s.last();
            let a1 = s[s.len() - 2];
            let rest = s.drop_last().drop_last();
            StepG::Go(StateS { stack: rest.push(b1).push(a1), out: st.out })
        },
        Builtins::Rotate => if s.len() == 0 {
            StepG::Go(st)
        } else {
            StepG::Go(StateS { stack: s.drop_first().push(s.first()), out: st.out })
        },
        Builtins::Clear => StepG::Go(StateS { stack: Seq::empty(), out: st.out }),
        Builtins::ClearButOne => if s.len() == 0 {
            StepG::Go(st)
        } else {
            StepG::Go(StateS { stack: seq![s.last()], out: st.out })
        },
        Builtins::Pop => if s.len() == 0 {
            StepG::Fail(st)
        } else {
            StepG::Go(StateS { stack: s.drop_last(), out: st.out })
        },
        Builtins::If => if s.len() == 0 {
            StepG::Fail(st)
        } else if val_truthy(s.last()) {
            StepG::Go(StateS { stack: s.drop_last(), out: st.out })
        } else {
            StepG::Skip(StateS { stack: s.drop_last(), out: st.out })
        },
        Builtins::Do => if s.len() == 0 {
            StepG::Fail(st)
        } else {
            let a1 = s.last();
            let rest = StateS { stack: s.drop_last(), out: st.out };
            if a1.len() == 0 {
                StepG::Fail(rest)
            } else {
                match a1[0] {
                    Prim::Num(x) => StepG::Rep(
                        rest,
                        if x <= 0 {
                            0
                        } else {
                            x as int
                        },
                    ),
                    Prim::Char(_) => StepG::Fail(rest),
                }
            }
        },
        Builtins::Forward => StepG::Go(st),
    }
}

/// How the evaluator resumes after a builtin: keep walking, jump
/// forward past the next `Forward` marker, or repeat the next
/// instruction a number of times.
pub enum ControlFlow {
    Continue,
    SkipToThen,
    Repeat(u64),
}

impl Builtins {
    /// Apply this builtin to the stack, emitting prints onto `out`.
    pub fn eval(&self, stack: &mut Vec<A>, out: &mut Vec<A>) -> (r: Result<
        ControlFlow,
        ErrorType,
    >)
        ensures
            ({
                let st0 = StateS { stack: vals(old(stack)@), out: vals(old(out)@) };
                let st1 = StateS { stack: vals(final(stack)@), out: vals(final(out)@) };
                match r {
                    Ok(ControlFlow::Continue) => step_builtin_s(*self, st0) == StepG::Go(st1),
                    Ok(ControlFlow::SkipToThen) => step_builtin_s(*self, st0) == StepG::Skip(
                        st1,
                    ),
                    Ok(ControlFlow::Repeat(n)) => step_builtin_s(*self, st0) == StepG::Rep(
                        st1,
                        n as int,
                    ),
                    Err(e) => e == ErrorType::Eval && step_builtin_s(*self, st0) == StepG::Fail(
                        st1,
                    ),
                }
            }),
    {
        broadcast use lemma_vals_push;
        broadcast use lemma_vals_drop_last;

        let ghost st0 = StateS { stack: vals(stack@), out: vals(out@) };
        match self {
            Builtins::Print => {
                if stack.len() > 0 {
                    let top = stack[stack.len() - 1].clone();
                    out.push(top);
                    proof {
                        assert(step_builtin_s(*self, st0) =~~= StepG::Go(
                            StateS { stack: vals(stack@), out: vals(out@) },
                        ));
                    }
                }
                Ok(ControlFlow::Continue)
            },
            Builtins::Plus => eval_arith(ArithOp::Plus, stack),
            Builtins::Minus => eval_arith(ArithOp::Minus, stack),
            Builtins::Multiply => eval_arith(ArithOp::Multiply, stack),
            Builtins::Divide => eval_arith(ArithOp::Divide, stack),
            Builtins::And => eval_arith(ArithOp::And, stack),
            Builtins::Or => eval_arith(ArithOp::Or, stack),
            Builtins::Equal => {
                let n1 = match stack.pop() {
                    Some(v) => v,
                    None => {
                        return Err(ErrorType::Eval);
                    },
                };
                let n2 = match stack.pop() {
                    Some(v) => v,
                    None => {
                        return Err(ErrorType::Eval);
                    },
                };
                let r = builtins::equal(n1, n2);
                stack.push(r);
                proof {
                    assert(step_builtin_s(*self, st0) =~~= StepG::Go(
                        StateS { stack: vals(stack@), out: vals(out@) },
                    ));
                }
                Ok(ControlFlow::Continue)
            },
            Builtins::Concat => {
                let n1 = match stack.pop() {
                    Some(v) => v,
                    None => {
                        return Err(ErrorType::Eval);
                    },
                };
                let n2 = match stack.pop() {
                    Some(v) => v,
                    None => {
                        return Err(ErrorType::Eval);
                    },
                };
                match builtins::concat(n2, n1) {
                    Ok(r) => {
                        stack.push(r);
                        proof {
                            assert(step_builtin_s(*self, st0) =~~= StepG::Go(
                                StateS { stack: vals(stack@), out: vals(out@) },
                            ));
                        }
                        Ok(ControlFlow::Continue)
                    },
                    Err(e) => Err(e),
                }
            },
            Builtins::Len => {
                if stack.len() == 0 {
                    return Ok(ControlFlow::Continue);
                }
                let n = stack[stack.len() - 1].d.len();
                if n as u64 > 0x7FFF_FFFF_FFFF_FFFFu64 {
                    return Err(ErrorType::Eval);
                }
                stack.push(A::from_num(n as i64));
                proof {
                    assert(step_builtin_s(*self, st0) =~~= StepG::Go(
                        StateS { stack: vals(stack@), out: vals(out@) },
                    ));
                }
                Ok(ControlFlow::Continue)
            },
            Builtins::Transmute => {
                let a = match stack.pop() {
                    Some(v) => v,
                    None => {
                        return Err(ErrorType::Eval);
                    },
                };
                let ghost base = vals(stack@);
                let mut i: usize = 0;
                while i < a.d.len()
                    invariant
                        i <= a@.len(),
                        vals(stack@) == base + singletons(a@).subrange(0, i as int),
                        vals(out@) == st0.out,
                    decreases a@.len() - i,
                {
                    let ghost prev = stack@;
                    let mut sv: Vec<Prim> = Vec::new();
                    sv.push(a.d[i]);
                    let one = A::new(sv);
                    stack.push(one);
                    i = i + 1;
                    proof {
                        assert(sv@ =~= seq![a.d@[i - 1]]);
                        assert(one.d@ == sv@);
                        assert(singletons(a@)[i - 1] =~= sv@);
                        assert(stack@ == prev.push(one));
                        assert(vals(stack@) == vals(prev).push(one.d@));
                        assert(vals(stack@) =~= base + singletons(a@).subrange(0, i as int));
                    }
                }
                proof {
                    assert(singletons(a@).subrange(0, a@.len() as int) =~= singletons(a@));
                    assert(step_builtin_s(*self, st0) =~~= StepG::Go(
                        StateS { stack: vals(stack@), out: vals(out@) },
                    ));
                }
                Ok(ControlFlow::Continue)
            },
            Builtins::Duplicate => {
                let n = match stack.pop() {
                    Some(v) => v,
                    None => {
                        return Err(ErrorType::Eval);
                    },
                };
                let c = n.clone();
                stack.push(n);
                stack.push(c);
                proof {
                    assert(step_builtin_s(*self, st0) =~~= StepG::Go(
                        StateS { stack: vals(stack@), out: vals(out@) },
                    ));
                }
                Ok(ControlFlow::Continue)
            },
            Builtins::Swap => {
                let n1 = match stack.pop() {
                    Some(v) => v,
                    None => {
                        return Err(ErrorType::Eval);
                    },
                };
                let n2 = match stack.pop() {
                    Some(v) => v,
                    None => {
                        return Err(ErrorType::Eval);
                    },
                };
                stack.push(n1);
                stack.push(n2);
                proof {
                    assert(step_builtin_s(*self, st0) =~~= StepG::Go(
                        StateS { stack: vals(stack@), out: vals(out@) },
                    ));
                }
                Ok(ControlFlow::Continue)
            },
            Builtins::Rotate => {
                if stack.len() > 0 {
                    let first = stack.remove(0);
                    stack.push(first);
                    proof {
                        assert(vals(stack@) =~= st0.stack.drop_first().push(
                            st0.stack.first(),
                        ));
                        assert(step_builtin_s(*self, st0) =~~= StepG::Go(
                            StateS { stack: vals(stack@), out: vals(out@) },
                        ));
                    }
                }
                Ok(ControlFlow::Continue)
            },
            Builtins::Clear => {
                stack.clear();
                proof {
                    assert(vals(stack@) =~= Seq::<Seq<Prim>>::empty());
                    assert(step_builtin_s(*self, st0) =~~= StepG::Go(
                        StateS { stack: vals(stack@), out: vals(out@) },
                    ));
                }
                Ok(ControlFlow::Continue)
            },
            Builtins::ClearButOne => {
                match stack.pop() {
                    Some(top) => {
                        stack.clear();
                        stack.push(top);
                        proof {
                            assert(vals(stack@) =~= seq![st0.stack.last()]);
                            assert(step_builtin_s(*self, st0) =~~= StepG::Go(
                                StateS { stack: vals(stack@), out: vals(out@) },
                            ));
                        }
                    },
                    None => {},
                }
                Ok(ControlFlow::Continue)
            },
            Builtins::Pop => {
                match stack.pop() {
                    Some(_) => Ok(ControlFlow::Continue),
                    None => Err(ErrorType::Eval),
                }
            },
            Builtins::If => {
                let a = match stack.pop() {
                    Some(v) => v,
                    None => {
                        return Err(ErrorType::Eval);
                    },
                };
                match builtins::iff(a) {
                    Ok(skip) => if skip {
                        Ok(ControlFlow::SkipToThen)
                    } else {
                        Ok(ControlFlow::Continue)
                    },
                    Err(e) => Err(e),
                }
            },
            Builtins::Do => {
                let a = match stack.pop() {
                    Some(v) => v,
                    None => {
                        return Err(ErrorType::Eval);
                    },
                };
                if a.d.len() == 0 {
                    return Err(ErrorType::Eval);
                }
                match a.d[0].as_num() {
                    Some(x) => {
                        let n: u64 = if x <= 0 {
                            0
                        } else {
                            x as u64
                        };
                        Ok(ControlFlow::Repeat(n))
                    },
                    None => Err(ErrorType::Eval),
                }
            },
            Builtins::Forward => Ok(ControlFlow::Continue),
        }
    }
}

/// Pop the two operands of a binary cycling operation, apply it, and
/// push the result.
fn eval_arith(op: ArithOp, stack: &mut Vec<A>) -> (r: Result<ControlFlow, ErrorType>)
    ensures
        match r {
            Ok(ControlFlow::Continue) => forall|o: Seq<Seq<Prim>>|
                step_arith_s(op, StateS { stack: vals(old(stack)@), out: o }) == StepG::Go(
                    StateS { stack: vals(final(stack)@), out: o },
                ),
            Ok(_) => false,
            Err(e) => e == ErrorType::Eval && forall|o: Seq<Seq<Prim>>|
                step_arith_s(op, StateS { stack: vals(old(stack)@), out: o }) == StepG::Fail(
                    StateS { stack: vals(final(stack)@), out: o },
                ),
        },
{
    broadcast use lemma_vals_push;
    broadcast use lemma_vals_drop_last;

    let ghost s0 = vals(stack@);
    let n1 = match stack.pop() {
        Some(v) => v,
        None => {
            proof {
                assert forall|o: Seq<Seq<Prim>>|
                    step_arith_s(op, StateS { stack: s0, out: o }) == StepG::Fail(
                        StateS { stack: vals(stack@), out: o },
                    ) by {
                    assert(step_arith_s(op, StateS { stack: s0, out: o }) =~~= StepG::Fail(
                        StateS { stack: vals(stack@), out: o },
                    ));
                }
            }
            return Err(ErrorType::Eval);
        },
    };
    let n2 = match stack.pop() {
        Some(v) => v,
        None => {
            proof {
                assert forall|o: Seq<Seq<Prim>>|
                    step_arith_s(op, StateS { stack: s0, out: o }) == StepG::Fail(
                        StateS { stack: vals(stack@), out: o },
                    ) by {
                    assert(vals(stack@) =~= s0.drop_last());
                    assert(step_arith_s(op, StateS { stack: s0, out: o }) =~~= StepG::Fail(
                        StateS { stack: vals(stack@), out: o },
                    ));
                }
            }
            return Err(ErrorType::Eval);
        },
    };
    match zip_cycle_op(op, n2, n1) {
        Ok(r) => {
            stack.push(r);
            proof {
                assert forall|o: Seq<Seq<Prim>>|
                    step_arith_s(op, StateS { stack: s0, out: o }) == StepG::Go(
                        StateS { stack: vals(stack@), out: o },
                    ) by {
                    assert(step_arith_s(op, StateS { stack: s0, out: o }) =~~= StepG::Go(
                        StateS { stack: vals(stack@), out: o },
                    ));
                }
            }
            Ok(ControlFlow::Continue)
        },
        Err(e) => {
            proof {
                assert forall|o: Seq<Seq<Prim>>|
                    step_arith_s(op, StateS { stack: s0, out: o }) == StepG::Fail(
                        StateS { stack: vals(stack@), out: o },
                    ) by {
                    assert(step_arith_s(op, StateS { stack: s0, out: o }) =~~= StepG::Fail(
                        StateS { stack: vals(stack@), out: o },
                    ));
                }
            }
            Err(e)
        },
    }
}

/// The position of the next `Forward` marker at or after `i`, the jump
/// target of a false conditional.
pub open spec fn find_fwd(code: Seq<InstrG>, i: int) -> Option<int>
    decreases code.len() - i,
{
    if i < 0 || i >= code.len() {
        None
    } else if code[i] == InstrG::Builtin(Builtins::Forward) {
        Some(i)
    } else {
        find_fwd(code, i + 1)
    }
}

pub broadcast proof fn lemma_find_fwd_bounds(code: Seq<InstrG>, i: int)
    requires
        0 <= i,
    ensures
        match #[trigger] find_fwd(code, i) {
            Some(j) => i <= j < code.len() && code[j] == InstrG::Builtin(Builtins::Forward),
            None => true,
        },
    decreases code.len() - i,
{
    if i < code.len() && code[i] != InstrG::Builtin(Builtins::Forward) {
        lemma_find_fwd_bounds(code, i + 1);
    }
}

/// The big-step semantics of the machine, walking `code` from
/// position `i` in state `st` against the word dictionary `words`,
/// with `fuel` word-descents left.
pub open spec fn eval_from(
    code: Seq<InstrG>,
    i: int,
    st: StateS,
    words: Map<Seq<char>, Seq<InstrG>>,
    fuel: nat,
) -> OutG
    decreases fuel, 1int, code.len() - i, 0int,
        via eval_from_decreases
{
    if i < 0 || i >= code.len() {
        OutG::Done(st)
    } else {
        match code[i] {
            InstrG::Nop => eval_from(code, i + 1, st, words, fuel),
            InstrG::Word(n) => if words.contains_key(n) {
                if fuel == 0 {
                    OutG::Fail(st)
                } else {
                    match eval_from(words[n], 0, st, words, (fuel - 1) as nat) {
                        OutG::Fail(s2) => OutG::Fail(s2),
                        OutG::Done(s2) => eval_from(code, i + 1, s2, words, fuel),
                    }
                }
            } else {
                eval_from(code, i + 1, st, words, fuel)
            },
            InstrG::Data(d) => eval_from(
                code,
                i + 1,
                StateS { stack: st.stack.push(d), out: st.out },
                words,
                fuel,
            ),
            InstrG::Builtin(b) => match step_builtin_s(b, st) {
                StepG::Fail(s2) => OutG::Fail(s2),
                StepG::Go(s2) => eval_from(code, i + 1, s2, words, fuel),
                StepG::Skip(s2) => match find_fwd(code, i + 1) {
                    None => OutG::Fail(s2),
                    Some(j) => eval_from(code, j + 1, s2, words, fuel),
                },
                StepG::Rep(s2, n) => if i + 1 >= code.len() {
                    OutG::Fail(s2)
                } else {
                    match rep_s(code[i + 1], n, s2, words, fuel) {
                        OutG::Fail(s3) => OutG::Fail(s3),
                        OutG::Done(s3) => eval_from(code, i + 2, s3, words, fuel),
                    }
                },
            },
        }
    }
}

#[via_fn]
proof fn eval_from_decreases(
    code: Seq<InstrG>,
    i: int,
    st: StateS,
    words: Map<Seq<char>, Seq<InstrG>>,
    fuel: nat,
) {
    broadcast use lemma_find_fwd_bounds;

}

/// Evaluate the single instruction `t` exactly `n` times in sequence.
pub open spec fn rep_s(
    t: InstrG,
    n: int,
    st: StateS,
    words: Map<Seq<char>, Seq<InstrG>>,
    fuel: nat,
) -> OutG
    decreases fuel, 0int, 0int, n,
{
    if n <= 0 {
        OutG::Done(st)
    } else {
        match tok_step_s(t, st, words, fuel) {
            OutG::Fail(s2) => OutG::Fail(s2),
            OutG::Done(s2) => rep_s(t, n - 1, s2, words, fuel),
        }
    }
}

/// The semantics of one instruction taken alone, as `Do` repeats it: a
/// conditional that needs a jump target, or another repeat, has none
/// and fails.
pub open spec fn tok_step_s(
    t: InstrG,
    st: StateS,
    words: Map<Seq<char>, Seq<InstrG>>,
    fuel: nat,
) -> OutG
    decreases fuel, 0int, 0int, 0int,
{
    match t {
        InstrG::Nop => OutG::Done(st),
        InstrG::Data(d) => OutG::Done(StateS { stack: st.stack.push(d), out: st.out }),
        InstrG::Word(n) => if words.contains_key(n) {
            if fuel == 0 {
                OutG::Fail(st)
            } else {
                eval_from(words[n], 0, st, words, (fuel - 1) as nat)
            }
        } else {
            OutG::Done(st)
        },
        InstrG::Builtin(b) => match step_builtin_s(b, st) {
            StepG::Go(s2) => OutG::Done(s2),
            StepG::Fail(s2) => OutG::Fail(s2),
            StepG::Skip(s2) => OutG::Fail(s2),
            StepG::Rep(s2, _) => OutG::Fail(s2),
        },
    }
}

/// Dispatch one cycling broadcast by its operation.
fn zip_cycle_op(op: ArithOp, a: A, b: A) -> (r: Result<A, ErrorType>)
    ensures
        match r {
            Ok(c) => cycle_s(op, a@, b@) == Some(c@),
            Err(e) => e == ErrorType::Eval && cycle_s(op, a@, b@) is None,
        },
{
    match op {
        ArithOp::Plus => builtins::plus(a, b),
        ArithOp::Minus => builtins::minus(a, b),
        ArithOp::Multiply => builtins::multiply(a, b),
        ArithOp::Divide => builtins::divide(a, b),
        ArithOp::And => builtins::and(a, b),
        ArithOp::Or => builtins::or(a, b),
    }
}

/// Find the next `Forward` marker at or after `from`.
fn find_forward(code: &Vec<Instr>, from: usize) -> (r: Option<usize>)
    requires
        from <= code@.len(),
    ensures
        match r {
            Some(j) => from <= j < code@.len() && find_fwd(instrs_v(code@), from as int)
                == Some(j as int),
            None => find_fwd(instrs_v(code@), from as int) is None,
        },
{
    let mut j: usize = from;
    while j < code.len()
        invariant
            from <= j <= code@.len(),
            find_fwd(instrs_v(code@), from as int) == find_fwd(instrs_v(code@), j as int),
        decreases code@.len() - j,
    {
        match &code[j] {
            Instr::Builtin(b) => {
                if *b == Builtins::Forward {
                    proof {
                        assert(instrs_v(code@)[j as int] == InstrG::Builtin(Builtins::Forward));
                    }
                    return Some(j);
                }
            },
            _ => {},
        }
        proof {
            assert(instrs_v(code@)[j as int] != InstrG::Builtin(Builtins::Forward));
        }
        j = j + 1;
    }
    None
}

/// Walk an instruction sequence: the exec mirror of [`eval_from`].
#[verifier::rlimit(100)]
pub fn eval_instrs(
    code: &Vec<Instr>,
    stack: &mut Vec<A>,
    words: &Dict,
    out: &mut Vec<A>,
    fuel: u64,
) -> (r: Result<(), ErrorType>)
    ensures
        ({
            let res = eval_from(
                instrs_v(code@),
                0,
                StateS { stack: vals(old(stack)@), out: vals(old(out)@) },
                words@,
                fuel as nat,
            );
            let st1 = StateS { stack: vals(final(stack)@), out: vals(final(out)@) };
            match r {
                Ok(()) => res == OutG::Done(st1),
                Err(e) => e == ErrorType::Eval && res == OutG::Fail(st1),
            }
        }),
    decreases fuel, 1int,
{
    broadcast use lemma_vals_push;

    let ghost code_g = instrs_v(code@);
    let ghost w = words@;
    let ghost init = StateS { stack: vals(stack@), out: vals(out@) };
    let ghost f = fuel as nat;
    let mut i: usize = 0;
    while i < code.len()
        invariant
            i <= code@.len(),
            code_g == instrs_v(code@),
            w == words@,
            f == fuel as nat,
            init == (StateS { stack: vals(old(stack)@), out: vals(old(out)@) }),
            eval_from(code_g, 0, init, w, f) == eval_from(
                code_g,
                i as int,
                StateS { stack: vals(stack@), out: vals(out@) },
                w,
                f,
            ),
        decreases code@.len() - i,
    {
        broadcast use lemma_vals_push;

        let ghost cur = StateS { stack: vals(stack@), out: vals(out@) };
        proof {
            assert(code_g[i as int] == instr_v(code@[i as int]));
        }
        match &code[i] {
            Instr::Nop => {
                proof {
                    assert(eval_from(code_g, i as int, cur, w, f) == eval_from(
                        code_g,
                        i as int + 1,
                        cur,
                        w,
                        f,
                    ));
                }
                i = i + 1;
            },
            Instr::Word(name) => {
                match words.get(name) {
                    Some(body) => {
                        if fuel == 0 {
                            proof {
                                assert(eval_from(code_g, i as int, cur, w, f) == OutG::Fail(
                                    cur,
                                ));
                            }
                            return Err(ErrorType::Eval);
                        }
                        let ghost bg = instrs_v(body@);
                        proof {
                            assert(bg == w[name@]);
                        }
                        match eval_instrs(body, stack, words, out, fuel - 1) {
                            Ok(()) => {
                                proof {
                                    let s2 = StateS { stack: vals(stack@), out: vals(out@) };
                                    assert(eval_from(bg, 0, cur, w, (f - 1) as nat)
                                        == OutG::Done(s2));
                                    assert(eval_from(code_g, i as int, cur, w, f) == eval_from(
                                        code_g,
                                        i as int + 1,
                                        s2,
                                        w,
                                        f,
                                    ));
                                }
                                i = i + 1;
                            },
                            Err(e) => {
                                proof {
                                    let s2 = StateS { stack: vals(stack@), out: vals(out@) };
                                    assert(eval_from(bg, 0, cur, w, (f - 1) as nat)
                                        == OutG::Fail(s2));
                                    assert(eval_from(code_g, i as int, cur, w, f) == OutG::Fail(
                                        s2,
                                    ));
                                }
                                return Err(e);
                            },
                        }
                    },
                    None => {
                        proof {
                            assert(eval_from(code_g, i as int, cur, w, f) == eval_from(
                                code_g,
                                i as int + 1,
                                cur,
                                w,
                                f,
                            ));
                        }
                        i = i + 1;
                    },
                }
            },
            Instr::Data(a) => {
                stack.push(a.clone());
                proof {
                    let s2 = StateS { stack: vals(stack@), out: vals(out@) };
                    assert(s2 =~~= StateS { stack: cur.stack.push(a.d@), out: cur.out });
                    assert(eval_from(code_g, i as int, cur, w, f) == eval_from(
                        code_g,
                        i as int + 1,
                        s2,
                        w,
                        f,
                    ));
                }
                i = i + 1;
            },
            Instr::Builtin(b) => {
                let bb = *b;
                match bb.eval(stack, out) {
                    Err(e) => {
                        proof {
                            let s2 = StateS { stack: vals(stack@), out: vals(out@) };
                            assert(step_builtin_s(bb, cur) == StepG::Fail(s2));
                            assert(eval_from(code_g, i as int, cur, w, f) == OutG::Fail(s2));
                        }
                        return Err(e);
                    },
                    Ok(ControlFlow::Continue) => {
                        proof {
                            let s2 = StateS { stack: vals(stack@), out: vals(out@) };
                            assert(step_builtin_s(bb, cur) == StepG::Go(s2));
                            assert(eval_from(code_g, i as int, cur, w, f) == eval_from(
                                code_g,
                                i as int + 1,
                                s2,
                                w,
                                f,
                            ));
                        }
                        i = i + 1;
                    },
                    Ok(ControlFlow::SkipToThen) => {
                        let ghost s2 = StateS { stack: vals(stack@), out: vals(out@) };
                        proof {
                            assert(step_builtin_s(bb, cur) == StepG::Skip(s2));
                        }
                        match find_forward(code, i + 1) {
                            Some(j) => {
                                proof {
                                    assert(eval_from(code_g, i as int, cur, w, f) == eval_from(
                                        code_g,
                                        j as int + 1,
                                        s2,
                                        w,
                                        f,
                                    ));
                                }
                                i = j + 1;
                            },
                            None => {
                                proof {
                                    assert(eval_from(code_g, i as int, cur, w, f)
                                        == OutG::Fail(s2));
                                }
                                return Err(ErrorType::Eval);
                            },
                        }
                    },
                    Ok(ControlFlow::Repeat(n)) => {
                        let ghost s2 = StateS { stack: vals(stack@), out: vals(out@) };
                        proof {
                            assert(step_builtin_s(bb, cur) == StepG::Rep(s2, n as int));
                        }
                        if i + 1 >= code.len() {
                            proof {
                                assert(eval_from(code_g, i as int, cur, w, f) == OutG::Fail(
                                    s2,
                                ));
                            }
                            return Err(ErrorType::Eval);
                        }
                        let ghost t = code_g[i as int + 1];
                        proof {
                            assert(eval_from(code_g, i as int, cur, w, f) == (match rep_s(
                                t,
                                n as int,
                                s2,
                                w,
                                f,
                            ) {
                                OutG::Fail(s3) => OutG::Fail(s3),
                                OutG::Done(s3) => eval_from(code_g, i as int + 2, s3, w, f),
                            }));
                        }
                        let mut k: u64 = 0;
                        while k < n
                            invariant
                                k <= n,
                                i + 1 < code@.len(),
                                code@.len() <= usize::MAX,
                                code_g == instrs_v(code@),
                                w == words@,
                                f == fuel as nat,
                                init == (StateS { stack: vals(old(stack)@), out: vals(old(out)@) }),
                                t == code_g[i as int + 1],
                                t == instr_v(code@[i as int + 1]),
                                rep_s(t, n as int, s2, w, f) == rep_s(
                                    t,
                                    n - k,
                                    StateS { stack: vals(stack@), out: vals(out@) },
                                    w,
                                    f,
                                ),
                                eval_from(code_g, 0, init, w, f) == (match rep_s(
                                    t,
                                    n as int,
                                    s2,
                                    w,
                                    f,
                                ) {
                                    OutG::Fail(s3) => OutG::Fail(s3),
                                    OutG::Done(s3) => eval_from(code_g, i as int + 2, s3, w, f),
                                }),
                            decreases n - k,
                        {
                            let ghost ck = StateS { stack: vals(stack@), out: vals(out@) };
                            match eval_tok(&code[i + 1], stack, words, out, fuel) {
                                Ok(()) => {
                                    proof {
                                        let c2 = StateS {
                                            stack: vals(stack@),
                                            out: vals(out@),
                                        };
                                        assert(tok_step_s(t, ck, w, f) == OutG::Done(c2));
                                        assert(rep_s(t, n - k, ck, w, f) == rep_s(
                                            t,
                                            n - k - 1,
                                            c2,
                                            w,
                                            f,
                                        ));
                                    }
                                    k = k + 1;
                                },
                                Err(e) => {
                                    proof {
                                        let c2 = StateS {
                                            stack: vals(stack@),
                                            out: vals(out@),
                                        };
                                        assert(tok_step_s(t, ck, w, f) == OutG::Fail(c2));
                                        assert(rep_s(t, n - k, ck, w, f) == OutG::Fail(c2));
                                        assert(eval_from(code_g, 0, init, w, f) == OutG::Fail(
                                            c2,
                                        ));
                                    }
                                    return Err(e);
                                },
                            }
                        }
                        proof {
                            let s3 = StateS { stack: vals(stack@), out: vals(out@) };
                            assert(rep_s(t, 0, s3, w, f) == OutG::Done(s3));
                            assert(rep_s(t, n as int, s2, w, f) == OutG::Done(s3));
                            assert(eval_from(code_g, 0, init, w, f) == eval_from(
                                code_g,
                                i as int + 2,
                                s3,
                                w,
                                f,
                            ));
                        }
                        i = i + 2;
                    },
                }
            },
        }
    }
    proof {
        assert(eval_from(
            code_g,
            code_g.len() as int,
            StateS { stack: vals(stack@), out: vals(out@) },
            w,
            f,
        ) == OutG::Done(StateS { stack: vals(stack@), out: vals(out@) }));
        assert(code_g.len() == code@.len());
    }
    Ok(())
}

/// Evaluate one instruction taken alone, as `Do` repeats it: the exec
/// mirror of [`tok_step_s`].
fn eval_tok(t: &Instr, stack: &mut Vec<A>, words: &Dict, out: &mut Vec<A>, fuel: u64) -> (r:
    Result<(), ErrorType>)
    ensures
        ({
            let res = tok_step_s(
                instr_v(*t),
                StateS { stack: vals(old(stack)@), out: vals(old(out)@) },
                words@,
                fuel as nat,
            );
            let st1 = StateS { stack: vals(final(stack)@), out: vals(final(out)@) };
            match r {
                Ok(()) => res == OutG::Done(st1),
                Err(e) => e == ErrorType::Eval && res == OutG::Fail(st1),
            }
        }),
    decreases fuel, 0int,
{
    broadcast use lemma_vals_push;

    match t {
        Instr::Nop => Ok(()),
        Instr::Data(a) => {
            stack.push(a.clone());
            Ok(())
        },
        Instr::Word(name) => match words.get(name) {
            None => Ok(()),
            Some(body) => {
                if fuel == 0 {
                    return Err(ErrorType::Eval);
                }
                eval_instrs(body, stack, words, out, fuel - 1)
            },
        },
        Instr::Builtin(b) => {
            let bb = *b;
            match bb.eval(stack, out) {
                Ok(ControlFlow::Continue) => Ok(()),
                Ok(ControlFlow::SkipToThen) => Err(ErrorType::Eval),
                Ok(ControlFlow::Repeat(_)) => Err(ErrorType::Eval),
                Err(e) => Err(e),
            }
        },
    }
}

/// Lower a parsed line to the instructions it evaluates as: each
/// declaration holds its place as a `Nop`.
fn lower(ast: &Ast) -> (r: Vec<Instr>)
    ensures
        instrs_v(r@) == toks_erase(toks_v(ast@)),
{
    let mut prog: Vec<Instr> = Vec::new();
    let mut k: usize = 0;
    while k < ast.len()
        invariant
            k <= ast@.len(),
            prog@.len() == k,
            forall|j: int|
                0 <= j < k ==> instr_v(#[trigger] prog@[j]) == tok_erase(tok_v(ast@[j])),
        decreases ast@.len() - k,
    {
        match &ast[k] {
            Token::Word(n) => prog.push(Instr::Word(n.clone())),
            Token::Data(a) => prog.push(Instr::Data(a.clone())),
            Token::Builtin(b) => prog.push(Instr::Builtin(*b)),
            Token::Definition(_) => prog.push(Instr::Nop),
        }
        k = k + 1;
    }
    proof {
        assert(instrs_v(prog@) =~= toks_erase(toks_v(ast@)));
    }
    prog
}

/// Evaluate one parsed line against the stack and the dictionary,
/// appending printed values to `out`, with `fuel` word-descents
/// allowed.
pub fn eval(ast: &Ast, stack: &mut Vec<A>, words: &Dict, out: &mut Vec<A>, fuel: u64) -> (r:
    Result<(), ErrorType>)
    ensures
        ({
            let res = eval_from(
                toks_erase(toks_v(ast@)),
                0,
                StateS { stack: vals(old(stack)@), out: vals(old(out)@) },
                words@,
                fuel as nat,
            );
            let st1 = StateS { stack: vals(final(stack)@), out: vals(final(out)@) };
            match r {
                Ok(()) => res == OutG::Done(st1),
                Err(e) => e == ErrorType::Eval && res == OutG::Fail(st1),
            }
        }),
{
    let prog = lower(ast);
    eval_instrs(&prog, stack, words, out, fuel)
}

/// The recursion-depth budget one line is evaluated with.
pub const DEFAULT_FUEL: u64 = 256;

/// One line, end to end: parse it; on success merge its definitions
/// into the dictionary, then evaluate its tokens. A parse failure
/// leaves stack, dictionary and output untouched; an evaluation
/// failure keeps the merged definitions and whatever the walk did
/// before failing.
pub fn run_line(line: &str, stack: &mut Vec<A>, words: &mut Dict, out: &mut Vec<A>) -> (r:
    Result<(), ErrorType>)
    ensures
        parse_line_s(line@) is None ==> r == Err::<(), ErrorType>(ErrorType::Parse)
            && final(stack)@ == old(stack)@ && final(words)@ == old(words)@ && final(out)@
            == old(out)@,
        parse_line_s(line@) matches Some(ast_g) ==> {
            &&& final(words)@ == old(words)@.union_prefer_right(words_of(ast_g))
            &&& ({
                let res = eval_from(
                    toks_erase(ast_g),
                    0,
                    StateS { stack: vals(old(stack)@), out: vals(old(out)@) },
                    final(words)@,
                    DEFAULT_FUEL as nat,
                );
                let st1 = StateS { stack: vals(final(stack)@), out: vals(final(out)@) };
                match r {
                    Ok(()) => res == OutG::Done(st1),
                    Err(e) => e == ErrorType::Eval && res == OutG::Fail(st1),
                }
            })
        },
{
    match crate::parser::parse(line) {
        Err(e) => Err(e),
        Ok((ast, defs)) => {
            words.extend(defs);
            eval(&ast, stack, words, out, DEFAULT_FUEL)
        },
    }
}

/// Duplicate, swap and rotate are stack permutations: `dup` grows the
/// stack by exactly one (a copy of the top element), `swp` keeps the
/// length and exchanges the top two elements, leaving the rest in
/// place, and `rot` keeps the length and permutes the stack
/// cyclically, moving the bottom element to the top. None of them
/// touches the output.
pub proof fn lemma_stack_permutations(st: StateS)
    ensures
        st.stack.len() > 0 ==> (step_builtin_s(Builtins::Duplicate, st) matches StepG::Go(s2)
            && s2.stack.len() == st.stack.len() + 1 && s2.stack == st.stack.push(
            st.stack.last(),
        ) && s2.out == st.out),
        st.stack.len() >= 2 ==> (step_builtin_s(Builtins::Swap, st) matches StepG::Go(s2)
            && s2.stack.len() == st.stack.len() && s2.stack.last() == st.stack[st.stack.len()
            - 2] && s2.stack[s2.stack.len() - 2] == st.stack.last() && (forall|i: int|
            0 <= i < st.stack.len() - 2 ==> s2.stack[i] == st.stack[i]) && s2.out == st.out),
        st.stack.len() > 0 ==> (step_builtin_s(Builtins::Rotate, st) matches StepG::Go(s2)
            && s2.stack.len() == st.stack.len() && s2.stack == st.stack.drop_first().push(
            st.stack.first(),
        ) && s2.out == st.out),
{
    if st.stack.len() >= 2 {
        let s2 = StateS {
            stack: st.stack.drop_last().drop_last().push(st.stack.last()).push(
                st.stack[st.stack.len() - 2],
            ),
            out: st.out,
        };
        assert(step_builtin_s(Builtins::Swap, st) == StepG::Go(s2));
        assert(s2.stack.len() == st.stack.len());
    }
}

/// Clear always yields an empty stack regardless of prior contents,
/// so clearing is idempotent, and clearing an empty stack is a no-op.
pub proof fn lemma_clear_idempotent(st: StateS)
    ensures
        step_builtin_s(Builtins::Clear, st) == StepG::Go(
            StateS { stack: Seq::empty(), out: st.out },
        ),
        step_builtin_s(
            Builtins::Clear,
            StateS { stack: Seq::empty(), out: st.out },
        ) == StepG::Go(StateS { stack: Seq::empty(), out: st.out }),
        st.stack.len() == 0 ==> step_builtin_s(Builtins::Clear, st) == StepG::Go(st),
{
    if st.stack.len() == 0 {
        assert(st.stack =~= Seq::<Seq<Prim>>::empty());
        assert(StateS { stack: Seq::empty(), out: st.out } =~~= st);
    }
}

/// Every value of the sequence is homogeneous: all of its elements
/// numeric, or all of them characters.
pub open spec fn wf_vals(s: Seq<Seq<Prim>>) -> bool {
    forall|i: int| 0 <= i < s.len() ==> all_num(#[trigger] s[i]) || all_char(s[i])
}

/// Every value on the stack and in the output is homogeneous.
pub open spec fn wf_state(st: StateS) -> bool {
    wf_vals(st.stack) && wf_vals(st.out)
}

/// Every data literal of the instruction sequence is homogeneous.
pub open spec fn wf_code(code: Seq<InstrG>) -> bool {
    forall|i: int|
        0 <= i < code.len() ==> (#[trigger] code[i] matches InstrG::Data(d) ==> all_num(d)
            || all_char(d))
}

/// One instruction's data literal, if any, is homogeneous.
pub open spec fn wf_instr(t: InstrG) -> bool {
    t matches InstrG::Data(d) ==> all_num(d) || all_char(d)
}

/// Every word body of the dictionary carries homogeneous literals.
pub open spec fn wf_words(w: Map<Seq<char>, Seq<InstrG>>) -> bool {
    forall|n: Seq<char>| w.contains_key(n) ==> wf_code(#[trigger] w[n])
}

/// The state an outcome carries, reached normally or by failing.
pub open spec fn out_state(o: OutG) -> StateS {
    match o {
        OutG::Done(s) => s,
        OutG::Fail(s) => s,
    }
}

/// The state a builtin step leaves, whatever the control flow.
pub open spec fn step_state(g: StepG) -> StateS {
    match g {
        StepG::Go(s) => s,
        StepG::Skip(s) => s,
        StepG::Rep(s, _) => s,
        StepG::Fail(s) => s,
    }
}

/// One builtin application keeps every value homogeneous.
pub proof fn lemma_step_builtin_wf(b: Builtins, st: StateS)
    requires
        wf_state(st),
    ensures
        wf_state(step_state(step_builtin_s(b, st))),
{
    let s = st.stack;
    let s2 = step_state(step_builtin_s(b, st));
    match b {
        Builtins::Plus | Builtins::Minus | Builtins::Multiply | Builtins::Divide
        | Builtins::And | Builtins::Or => {
            let op = match b {
                Builtins::Plus => ArithOp::Plus,
                Builtins::Minus => ArithOp::Minus,
                Builtins::Multiply => ArithOp::Multiply,
                Builtins::Divide => ArithOp::Divide,
                Builtins::Or => ArithOp::Or,
                _ => ArithOp::And,
            };
            if s.len() >= 2 {
                lemma_cycle_all_num(op, s[s.len() - 2], s.last());
            }
        },
        Builtins::Concat => {
            if s.len() >= 2 && concat_ok(s[s.len() - 2], s.last()) {
                lemma_concat_wf(s[s.len() - 2], s.last());
            }
        },
        Builtins::Transmute => {
            if s.len() > 0 {
                let v = s.last();
                assert forall|i: int| 0 <= i < s2.stack.len() implies all_num(
                    #[trigger] s2.stack[i],
                ) || all_char(s2.stack[i]) by {
                    if i >= s.len() - 1 {
                        assert(s2.stack[i] == singletons(v)[i - (s.len() - 1)]);
                        assert(s2.stack[i] =~= seq![v[i - (s.len() - 1)]]);
                    }
                }
            }
        },
        _ => {},
    }
}

/// Evaluation keeps every value homogeneous: a walk that starts from a
/// homogeneous stack and output, over instructions and a dictionary
/// whose data literals are homogeneous, ends — normally or in an error
/// — with every stack and output value still homogeneous.
pub proof fn lemma_eval_from_wf(
    code: Seq<InstrG>,
    i: int,
    st: StateS,
    words: Map<Seq<char>, Seq<InstrG>>,
    fuel: nat,
)
    requires
        wf_code(code),
        wf_words(words),
        wf_state(st),
    ensures
        wf_state(out_state(eval_from(code, i, st, words, fuel))),
    decreases fuel, 1int, code.len() - i, 0int,
{
    broadcast use lemma_find_fwd_bounds;

    if 0 <= i < code.len() {
        match code[i] {
            InstrG::Nop => {
                lemma_eval_from_wf(code, i + 1, st, words, fuel);
            },
            InstrG::Word(n) => {
                if words.contains_key(n) {
                    if fuel > 0 {
                        lemma_eval_from_wf(words[n], 0, st, words, (fuel - 1) as nat);
                        match eval_from(words[n], 0, st, words, (fuel - 1) as nat) {
                            OutG::Done(m2) => {
                                lemma_eval_from_wf(code, i + 1, m2, words, fuel);
                            },
                            OutG::Fail(_) => {},
                        }
                    }
                } else {
                    lemma_eval_from_wf(code, i + 1, st, words, fuel);
                }
            },
            InstrG::Data(d) => {
                let st2 = StateS { stack: st.stack.push(d), out: st.out };
                assert(wf_instr(code[i]));
                assert(wf_state(st2));
                lemma_eval_from_wf(code, i + 1, st2, words, fuel);
            },
            InstrG::Builtin(b) => {
                lemma_step_builtin_wf(b, st);
                match step_builtin_s(b, st) {
                    StepG::Fail(_) => {},
                    StepG::Go(m2) => {
                        lemma_eval_from_wf(code, i + 1, m2, words, fuel);
                    },
                    StepG::Skip(m2) => {
                        match find_fwd(code, i + 1) {
                            None => {},
                            Some(j) => {
                                lemma_eval_from_wf(code, j + 1, m2, words, fuel);
                            },
                        }
                    },
                    StepG::Rep(m2, n) => {
                        if i + 1 < code.len() {
                            assert(wf_instr(code[i + 1]));
                            lemma_rep_wf(code[i + 1], n, m2, words, fuel);
                            match rep_s(code[i + 1], n, m2, words, fuel) {
                                OutG::Done(m3) => {
                                    lemma_eval_from_wf(code, i + 2, m3, words, fuel);
                                },
                                OutG::Fail(_) => {},
                            }
                        }
                    },
                }
            },
        }
    }
}

proof fn lemma_rep_wf(
    t: InstrG,
    n: int,
    st: StateS,
    words: Map<Seq<char>, Seq<InstrG>>,
    fuel: nat,
)
    requires
        wf_instr(t),
        wf_words(words),
        wf_state(st),
    ensures
        wf_state(out_state(rep_s(t, n, st, words, fuel))),
    decreases fuel, 0int, 0int, n,
{
    if n > 0 {
        lemma_tok_step_wf(t, st, words, fuel);
        match tok_step_s(t, st, words, fuel) {
            OutG::Done(m2) => {
                lemma_rep_wf(t, n - 1, m2, words, fuel);
            },
            OutG::Fail(_) => {},
        }
    }
}

proof fn lemma_tok_step_wf(t: InstrG, st: StateS, words: Map<Seq<char>, Seq<InstrG>>, fuel: nat)
    requires
        wf_instr(t),
        wf_words(words),
        wf_state(st),
    ensures
        wf_state(out_state(tok_step_s(t, st, words, fuel))),
    decreases fuel, 0int, 0int, 0int,
{
    match t {
        InstrG::Nop => {},
        InstrG::Data(d) => {
            assert(wf_state(StateS { stack: st.stack.push(d), out: st.out }));
        },
        InstrG::Word(n) => {
            if words.contains_key(n) && fuel > 0 {
                lemma_eval_from_wf(words[n], 0, st, words, (fuel - 1) as nat);
            }
        },
        InstrG::Builtin(b) => {
            lemma_step_builtin_wf(b, st);
        },
    }
}

/// One parsed token's literals are homogeneous: a data token's value,
/// and every data literal in a definition's body.
pub open spec fn wf_tok(t: TokG) -> bool {
    match t {
        TokG::Data(d) => all_num(d) || all_char(d),
        TokG::Def(_, b) => wf_code(b),
        _ => true,
    }
}

proof fn lemma_parse_simple_wf(l: crate::lexer::LexG)
    ensures
        parse_simple_s(l) matches Some(g) ==> wf_instr(g),
{
    match l.t {
        LexemeType::Str => {
            lemma_chars_data(l.s);
            assert(all_char(chars_data(l.s)));
        },
        LexemeType::Array => {
            if array_val_s(l.s) is Some {
                let d = array_val_s(l.s)->0;
                assert(forall|i: int| 0 <= i < d.len() ==> #[trigger] d[i] is Num);
            }
        },
        _ => {},
    }
}

proof fn lemma_parse_one_wf(l: crate::lexer::LexG)
    ensures
        parse_one_s(l) matches Some(t) ==> wf_tok(t),
{
    lemma_parse_simple_wf(l);
    if l.t is Definition {
        match crate::lexer::lex_s(l.s, 0) {
            None => {},
            Some(ls) => {
                if ls.len() > 0 && parse_body_s(ls.skip(1)) is Some {
                    let b = parse_body_s(ls.skip(1))->0;
                    assert forall|i: int| 0 <= i < b.len() implies (#[trigger] b[i] matches
                        InstrG::Data(d) ==> all_num(d) || all_char(d)) by {
                        lemma_parse_simple_wf(ls.skip(1)[i]);
                        assert(b[i] == parse_simple_s(ls.skip(1)[i])->0);
                    }
                }
            },
        }
    }
}

proof fn lemma_words_of_wf(ast: Seq<TokG>)
    requires
        forall|i: int| 0 <= i < ast.len() ==> wf_tok(#[trigger] ast[i]),
    ensures
        wf_words(words_of(ast)),
    decreases ast.len(),
{
    if ast.len() > 0 {
        assert(forall|i: int|
            0 <= i < ast.drop_last().len() ==> wf_tok(#[trigger] ast.drop_last()[i]));
        lemma_words_of_wf(ast.drop_last());
        assert(ast.last() == ast[ast.len() - 1]);
        assert(wf_tok(ast.last()));
    }
}

/// Merging two dictionaries whose bodies are well formed yields one
/// whose bodies are well formed, so a session that only ever merges
/// parsed definitions keeps its dictionary well formed line after
/// line.
pub proof fn lemma_wf_words_union(
    m1: Map<Seq<char>, Seq<InstrG>>,
    m2: Map<Seq<char>, Seq<InstrG>>,
)
    requires
        wf_words(m1),
        wf_words(m2),
    ensures
        wf_words(m1.union_prefer_right(m2)),
{
    let m = m1.union_prefer_right(m2);
    assert forall|n: Seq<char>| m.contains_key(n) implies wf_code(#[trigger] m[n]) by {
        if m2.contains_key(n) {
            assert(m[n] == m2[n]);
        } else {
            assert(m[n] == m1[n]);
        }
    }
}

/// What a line parses to is well formed: its instruction sequence and
/// the dictionary fragment it defines carry only homogeneous data
/// literals. Together with the preservation lemma, every value the
/// machine ever holds is homogeneous.
pub proof fn lemma_parsed_line_wf(text: Seq<char>)
    ensures
        parse_line_s(text) matches Some(ast) ==> wf_code(toks_erase(ast)) && wf_words(
            words_of(ast),
        ),
{
    match crate::lexer::lex_s(text, 0) {
        None => {},
        Some(ls) => {
            if parse_toks_s(ls) is Some {
                let ast = parse_toks_s(ls)->0;
                assert forall|i: int| 0 <= i < ast.len() implies wf_tok(#[trigger] ast[i]) by {
                    lemma_parse_one_wf(ls[i]);
                    assert(ast[i] == parse_one_s(ls[i])->0);
                }
                assert forall|i: int| 0 <= i < toks_erase(ast).len() implies (
                    #[trigger] toks_erase(ast)[i] matches InstrG::Data(d) ==> all_num(d)
                        || all_char(d)) by {
                    assert(toks_erase(ast)[i] == tok_erase(ast[i]));
                    assert(wf_tok(ast[i]));
                }
                lemma_words_of_wf(ast);
            }
        },
    }
}

} // verus!
