//! The evaluator: a single left-to-right pass over the token sequence with
//! two explicit stacks, one of pending operands and one of pending
//! operators, resolving precedence and parentheses without building a parse
//! tree.
//!
//! The verified core stays clear of machine floats, so an operand is not a
//! number but a *slot*: an index into the [`Plan`] the evaluator emits. The
//! plan lists, in exact application order, which literals are loaded and
//! which binary operations combine which slots; a thin caller folds floats
//! over it. The model of the whole pass is [`eval_model`], and every exec
//! function here is proved against it.

use vstd::prelude::*;

use crate::token::{BinOp, EvalError, StackOp, Token, TokenV, toks_view};
use crate::scanner::copy_range;

verus! {

/// One entry of an evaluation plan. Slot `k` of the plan holds the value of
/// entry `k`: the numeric interpretation of a literal span, or the result of
/// applying a binary operator to two earlier slots.
#[derive(Debug, Clone, PartialEq)]
pub enum Event {
    /// Load the numeric interpretation of this literal span.
    Literal(Vec<char>),
    /// Apply the operator to the values of slots `.1` (left) and `.2` (right).
    Apply(BinOp, usize, usize),
}

/// The mathematical shape of an [`Event`].
pub ghost enum EventV {
    Literal(Seq<char>),
    Apply(BinOp, int, int),
}

impl View for Event {
    type V = EventV;

    open spec fn view(&self) -> EventV {
        match self {
            Event::Literal(s) => EventV::Literal(s@),
            Event::Apply(b, l, r) => EventV::Apply(*b, *l as int, *r as int),
        }
    }
}

/// The view of a whole event sequence.
pub open spec fn evs_view(es: Seq<Event>) -> Seq<EventV> {
    es.map(|i: int, e: Event| e@)
}

/// The full outcome of an evaluation: the events in application order and
/// the slot holding the final value.
#[derive(Debug, Clone, PartialEq)]
pub struct Plan {
    pub events: Vec<Event>,
    pub result: usize,
}

/// The mathematical shape of a [`Plan`].
pub ghost struct PlanV {
    pub events: Seq<EventV>,
    pub result: int,
}

impl View for Plan {
    type V = PlanV;

    open spec fn view(&self) -> PlanV {
        PlanV { events: evs_view(self.events@), result: self.result as int }
    }
}

/// An event may only refer to slots before its own.
pub open spec fn event_wf(e: EventV, k: int) -> bool {
    match e {
        EventV::Literal(_) => true,
        EventV::Apply(_, l, r) => 0 <= l < k && 0 <= r < k,
    }
}

/// Every event refers only to earlier slots.
pub open spec fn events_wf(es: Seq<EventV>) -> bool {
    forall|k: int| 0 <= k < es.len() ==> event_wf(#[trigger] es[k], k)
}

/// A plan can be folded front to back: every reference points backwards and
/// the result slot exists.
pub open spec fn plan_wf(p: PlanV) -> bool {
    &&& events_wf(p.events)
    &&& 0 <= p.result < p.events.len()
}

/// The rank of each operator symbol. A higher rank binds earlier when the
/// top of the operator stack is compared against an incoming operator;
/// operators of one precedence class share a rank, so the `>=` comparison
/// resolves them left to right; `(` ranks lowest so that nothing applies it
/// away before its `)` arrives.
pub open spec fn prec_bin(b: BinOp) -> int {
    match b {
        BinOp::Pow => 5,
        BinOp::Mul => 4,
        BinOp::Div => 4,
        BinOp::Add => 2,
        BinOp::Sub => 2,
    }
}

/// The rank of an operator-stack entry.
pub open spec fn prec_stack(op: StackOp) -> int {
    match op {
        StackOp::Paren => 0,
        StackOp::Op(b) => prec_bin(b),
    }
}

/// The evaluator's transient state: the events emitted so far, the operand
/// stack (of plan slots) and the operator stack.
pub ghost struct EvalSt {
    pub events: Seq<EventV>,
    pub operands: Seq<int>,
    pub ops: Seq<StackOp>,
}

/// Apply one pending operator: pop the top operand, then the one below it,
/// and emit the application. Fewer than two operands is an invalid
/// expression; a `(` is no operator to apply.
pub open spec fn calc_step(st: EvalSt, op: StackOp) -> Result<EvalSt, EvalError> {
    if st.operands.len() < 2 {
        Err(EvalError::InvalidExpression)
    } else {
        match op {
            StackOp::Paren => Err(EvalError::InvalidOperator),
            StackOp::Op(b) => {
                let top = st.operands[st.operands.len() - 1];
                let second = st.operands[st.operands.len() - 2];
                Ok(
                    EvalSt {
                        events: st.events.push(EventV::Apply(b, second, top)),
                        operands: st.operands.subrange(0, st.operands.len() - 2).push(
                            st.events.len() as int,
                        ),
                        ops: st.ops,
                    },
                )
            },
        }
    }
}

/// Pop and apply operators until the matching `(` is popped and discarded;
/// an emptied stack means the `)` had no match.
pub open spec fn pop_to_paren(st: EvalSt) -> Result<EvalSt, EvalError>
    decreases st.ops.len(),
{
    if st.ops.len() == 0 {
        Err(EvalError::MismatchedParenthesis)
    } else {
        let op = st.ops[st.ops.len() - 1];
        let st1 = EvalSt { events: st.events, operands: st.operands, ops: st.ops.drop_last() };
        match op {
            StackOp::Paren => Ok(st1),
            _ => match calc_step(st1, op) {
                Ok(st2) => pop_to_paren(st2),
                Err(e) => Err(e),
            },
        }
    }
}

/// Push an incoming binary operator: first apply the operator on top of the
/// stack if its rank is at least the incoming one's.
pub open spec fn push_bin(st: EvalSt, b: BinOp) -> Result<EvalSt, EvalError> {
    if st.ops.len() == 0 {
        Ok(EvalSt { events: st.events, operands: st.operands, ops: st.ops.push(StackOp::Op(b)) })
    } else {
        let top = st.ops[st.ops.len() - 1];
        if prec_stack(top) >= prec_bin(b) {
            match calc_step(st, top) {
                Ok(st1) => Ok(
                    EvalSt {
                        events: st1.events,
                        operands: st1.operands,
                        ops: st1.ops.drop_last().push(StackOp::Op(b)),
                    },
                ),
                Err(e) => Err(e),
            }
        } else {
            Ok(
                EvalSt {
                    events: st.events,
                    operands: st.operands,
                    ops: st.ops.push(StackOp::Op(b)),
                },
            )
        }
    }
}

/// After the last token, pop and apply every remaining operator in stack
/// order.
pub open spec fn drain_ops(st: EvalSt) -> Result<EvalSt, EvalError>
    decreases st.ops.len(),
{
    if st.ops.len() == 0 {
        Ok(st)
    } else {
        let op = st.ops[st.ops.len() - 1];
        let st1 = EvalSt { events: st.events, operands: st.operands, ops: st.ops.drop_last() };
        match calc_step(st1, op) {
            Ok(st2) => drain_ops(st2),
            Err(e) => Err(e),
        }
    }
}

/// Drain the operator stack, then read the result off the top of the
/// operand stack; an empty operand stack is an invalid expression.
pub open spec fn finish(st: EvalSt) -> Result<PlanV, EvalError> {
    match drain_ops(st) {
        Ok(st1) => if st1.operands.len() == 0 {
            Err(EvalError::InvalidExpression)
        } else {
            Ok(PlanV { events: st1.events, result: st1.operands[st1.operands.len() - 1] })
        },
        Err(e) => Err(e),
    }
}

/// The state after the token at `i`: a number pushes its slot, a `(` is
/// stacked, a `)` resolves back to its `(`, and a binary operator may first
/// apply the operator above it.
pub open spec fn eval_from(tokens: Seq<TokenV>, i: int, st: EvalSt) -> Result<PlanV, EvalError>
    decreases tokens.len() - i,
{
    if i < 0 || i >= tokens.len() {
        finish(st)
    } else {
        match tokens[i] {
            TokenV::Number(text) => eval_from(
                tokens,
                i + 1,
                EvalSt {
                    events: st.events.push(EventV::Literal(text)),
                    operands: st.operands.push(st.events.len() as int),
                    ops: st.ops,
                },
            ),
            TokenV::LeftParen => eval_from(
                tokens,
                i + 1,
                EvalSt { events: st.events, operands: st.operands, ops: st.ops.push(StackOp::Paren) },
            ),
            TokenV::RightParen => match pop_to_paren(st) {
                Ok(st1) => eval_from(tokens, i + 1, st1),
                Err(e) => Err(e),
            },
            TokenV::Plus => eval_bin(tokens, i, st, BinOp::Add),
            TokenV::Minus => eval_bin(tokens, i, st, BinOp::Sub),
            TokenV::Multiply => eval_bin(tokens, i, st, BinOp::Mul),
            TokenV::Divide => eval_bin(tokens, i, st, BinOp::Div),
            TokenV::Power => eval_bin(tokens, i, st, BinOp::Pow),
        }
    }
}

/// One binary-operator step of [`eval_from`].
pub open spec fn eval_bin(tokens: Seq<TokenV>, i: int, st: EvalSt, b: BinOp) -> Result<
    PlanV,
    EvalError,
>
    decreases tokens.len() - i, 0int,
{
    if i < 0 || i >= tokens.len() {
        finish(st)
    } else {
        match push_bin(st, b) {
            Ok(st1) => eval_from(tokens, i + 1, st1),
            Err(e) => Err(e),
        }
    }
}

/// What evaluating a whole token sequence yields: its plan, or its first
/// structural error. An empty sequence is refused outright.
pub open spec fn eval_model(tokens: Seq<TokenV>) -> Result<PlanV, EvalError> {
    if tokens.len() == 0 {
        Err(EvalError::EmptyExpression)
    } else {
        eval_from(tokens, 0, EvalSt { events: Seq::empty(), operands: Seq::empty(), ops: Seq::empty() })
    }
}

/// The view of an event sequence distributes over `push`.
proof fn lemma_evs_view_push(es: Seq<Event>, e: Event)
    ensures
        evs_view(es.push(e)) == evs_view(es).push(e@),
{
    assert(evs_view(es.push(e)) =~= evs_view(es).push(e@));
}

/// The view of a slot stack distributes over `push`.
proof fn lemma_slots_view_push(s: Seq<usize>, v: usize)
    ensures
        slots_view(s.push(v)) == slots_view(s).push(v as int),
{
    assert(slots_view(s.push(v)) =~= slots_view(s).push(v as int));
}

/// The view of a slot stack distributes over dropping the last entry.
proof fn lemma_slots_view_drop(s: Seq<usize>)
    requires
        s.len() > 0,
    ensures
        slots_view(s.subrange(0, s.len() - 1)) == slots_view(s).subrange(
            0,
            s.len() - 1,
        ),
{
    assert(slots_view(s.subrange(0, s.len() - 1)) =~= slots_view(s).subrange(0, s.len() - 1));
}

/// A slot stack as mathematical integers.
pub open spec fn slots_view(s: Seq<usize>) -> Seq<int> {
    s.map(|i: int, v: usize| v as int)
}

/// The evaluator: the tokens, an index into them, the operand stack of plan
/// slots, the operator stack, and the events emitted so far.
pub struct Evaluator {
    pub tokens: Vec<Token>,
    pub current: usize,
    pub operands: Vec<usize>,
    pub ops: Vec<StackOp>,
    pub events: Vec<Event>,
}

impl Evaluator {
    /// The transient state this evaluator is in.
    pub open spec fn st(&self) -> EvalSt {
        EvalSt {
            events: evs_view(self.events@),
            operands: slots_view(self.operands@),
            ops: self.ops@,
        }
    }

    /// Every stacked operand is a slot of an emitted event, and every event
    /// refers only to earlier slots.
    pub open spec fn wf(&self) -> bool {
        &&& events_wf(evs_view(self.events@))
        &&& forall|j: int|
            0 <= j < self.operands@.len() ==> (#[trigger] self.operands@[j]) < self.events@.len()
    }

    /// A fresh evaluator over `tokens`, with empty stacks.
    pub fn new(tokens: Vec<Token>) -> (ev: Self)
        ensures
            ev.tokens@ == tokens@,
            ev.current == 0,
            ev.operands@.len() == 0,
            ev.ops@.len() == 0,
            ev.events@.len() == 0,
    {
        Self {
            tokens,
            current: 0,
            operands: Vec::new(),
            ops: Vec::new(),
            events: Vec::new(),
        }
    }

    /// Apply one pending operator to the two topmost operands, emitting one
    /// plan event.
    fn calculate(&mut self, op: StackOp) -> (r: Result<(), EvalError>)
        requires
            old(self).wf(),
        ensures
            final(self).tokens@ == old(self).tokens@,
            final(self).current == old(self).current,
            final(self).ops@ == old(self).ops@,
            match r {
                Ok(()) => calc_step(old(self).st(), op) == Ok::<EvalSt, EvalError>(final(self).st())
                    && final(self).wf(),
                Err(e) => calc_step(old(self).st(), op) == Err::<EvalSt, EvalError>(e),
            },
    {
        let top = match self.operands.pop() {
            Some(v) => v,
            None => {
                return Err(EvalError::InvalidExpression);
            },
        };
        let second = match self.operands.pop() {
            Some(v) => v,
            None => {
                return Err(EvalError::InvalidExpression);
            },
        };
        match op {
            StackOp::Paren => Err(EvalError::InvalidOperator),
            StackOp::Op(b) => {
                let slot = self.events.len();
                let ghost evs0 = self.events@;
                let ghost ops0 = self.operands@;
                self.events.push(Event::Apply(b, second, top));
                self.operands.push(slot);
                proof {
                    lemma_evs_view_push(evs0, Event::Apply(b, second, top));
                    lemma_slots_view_push(ops0, slot);
                    lemma_slots_view_drop(old(self).operands@);
                    lemma_slots_view_drop(old(self).operands@.subrange(
                        0,
                        old(self).operands@.len() - 1,
                    ));
                    assert(old(self).operands@.subrange(0, old(self).operands@.len() - 1).subrange(
                        0,
                        old(self).operands@.len() - 2,
                    ) =~= old(self).operands@.subrange(0, old(self).operands@.len() - 2));
                    assert(slots_view(old(self).operands@).subrange(
                        0,
                        old(self).operands@.len() - 1,
                    ).subrange(0, old(self).operands@.len() - 2) =~= slots_view(
                        old(self).operands@,
                    ).subrange(0, old(self).operands@.len() - 2));
                    assert(calc_step(old(self).st(), op) == Ok::<EvalSt, EvalError>(
                        self.st(),
                    ));
                }
                Ok(())
            },
        }
    }

    /// Pop and apply operators until the matching `(` is popped; advance
    /// past the `)`.
    fn pop_until_left_paren(&mut self) -> (r: Result<(), EvalError>)
        requires
            old(self).wf(),
            old(self).current < old(self).tokens@.len(),
        ensures
            final(self).tokens@ == old(self).tokens@,
            match r {
                Ok(()) => pop_to_paren(old(self).st()) == Ok::<EvalSt, EvalError>(final(self).st())
                    && final(self).wf()
                    && final(self).current == old(self).current + 1,
                Err(e) => pop_to_paren(old(self).st()) == Err::<EvalSt, EvalError>(e),
            },
    {
        loop
            invariant_except_break
                self.wf(),
                self.tokens@ == old(self).tokens@,
                self.current == old(self).current,
                self.current < self.tokens@.len(),
                pop_to_paren(self.st()) == pop_to_paren(old(self).st()),
            ensures
                self.wf(),
                self.tokens@ == old(self).tokens@,
                self.current == old(self).current,
                self.current < self.tokens@.len(),
                pop_to_paren(old(self).st()) == Ok::<EvalSt, EvalError>(self.st()),
            decreases self.ops@.len(),
        {
            let op = match self.ops.pop() {
                Some(op) => op,
                None => {
                    return Err(EvalError::MismatchedParenthesis);
                },
            };
            match op {
                StackOp::Paren => {
                    break ;
                },
                _ => {
                    match self.calculate(op) {
                        Ok(()) => {},
                        Err(e) => {
                            return Err(e);
                        },
                    }
                },
            }
        }
        assert(self.current < self.tokens.len());
        self.current = self.current + 1;
        Ok(())
    }

    /// Push an incoming binary operator, first applying the one on top of
    /// the stack if it ranks at least as high; advance past the operator.
    fn push_op(&mut self, b: BinOp) -> (r: Result<(), EvalError>)
        requires
            old(self).wf(),
            old(self).current < old(self).tokens@.len(),
        ensures
            final(self).tokens@ == old(self).tokens@,
            match r {
                Ok(()) => push_bin(old(self).st(), b) == Ok::<EvalSt, EvalError>(final(self).st())
                    && final(self).wf()
                    && final(self).current == old(self).current + 1,
                Err(e) => push_bin(old(self).st(), b) == Err::<EvalSt, EvalError>(e),
            },
    {
        if self.ops.len() == 0 {
            assert(self.current < self.tokens.len());
            self.current = self.current + 1;
            self.ops.push(StackOp::Op(b));
            return Ok(());
        }
        let top = self.ops[self.ops.len() - 1];
        if stack_prec(top) >= bin_prec(b) {
            match self.calculate(top) {
                Ok(()) => {},
                Err(e) => {
                    return Err(e);
                },
            }
            let _ = self.ops.pop();
        }
        assert(self.current < self.tokens.len());
        self.current = self.current + 1;
        self.ops.push(StackOp::Op(b));
        Ok(())
    }

    /// Pop and apply every remaining operator, in stack order.
    fn pop_all_operators(&mut self) -> (r: Result<(), EvalError>)
        requires
            old(self).wf(),
        ensures
            final(self).tokens@ == old(self).tokens@,
            final(self).current == old(self).current,
            match r {
                Ok(()) => drain_ops(old(self).st()) == Ok::<EvalSt, EvalError>(final(self).st())
                    && final(self).wf(),
                Err(e) => drain_ops(old(self).st()) == Err::<EvalSt, EvalError>(e),
            },
    {
        while self.ops.len() > 0
            invariant
                self.wf(),
                self.tokens@ == old(self).tokens@,
                self.current == old(self).current,
                drain_ops(self.st()) == drain_ops(old(self).st()),
            decreases self.ops@.len(),
        {
            let op = match self.ops.pop() {
                Some(op) => op,
                None => unreached(),
            };
            match self.calculate(op) {
                Ok(()) => {},
                Err(e) => {
                    return Err(e);
                },
            }
        }
        Ok(())
    }

    /// Run the whole pass: the plan of this token sequence, or its first
    /// structural error.
    pub fn run(&mut self) -> (r: Result<Plan, EvalError>)
        requires
            old(self).current == 0,
            old(self).operands@.len() == 0,
            old(self).ops@.len() == 0,
            old(self).events@.len() == 0,
        ensures
            match r {
                Ok(p) => eval_model(toks_view(old(self).tokens@)) == Ok::<PlanV, EvalError>(p@)
                    && plan_wf(p@),
                Err(e) => eval_model(toks_view(old(self).tokens@)) == Err::<PlanV, EvalError>(e),
            },
    {
        let n = self.tokens.len();
        if n == 0 {
            return Err(EvalError::EmptyExpression);
        }
        proof {
            assert(toks_view(self.tokens@).len() == n);
            assert(evs_view(self.events@) =~= Seq::<EventV>::empty());
            assert(slots_view(self.operands@) =~= Seq::<int>::empty());
            assert(self.ops@ =~= Seq::<StackOp>::empty());
            assert(self.st() == EvalSt {
                events: Seq::<EventV>::empty(),
                operands: Seq::<int>::empty(),
                ops: Seq::<StackOp>::empty(),
            });
        }
        while self.current < n
            invariant
                self.wf(),
                self.tokens@ == old(self).tokens@,
                n == self.tokens@.len(),
                self.current <= n,
                eval_from(toks_view(self.tokens@), self.current as int, self.st()) == eval_model(
                    toks_view(old(self).tokens@),
                ),
            decreases n - self.current,
        {
            let ghost i = self.current as int;
            let ghost st0 = self.st();
            match &self.tokens[self.current] {
                Token::Number(text) => {
                    let ghost tx = text@;
                    let lit = copy_range(text, 0, text.len());
                    let slot = self.events.len();
                    let ghost evs0 = self.events@;
                    let ghost opnds0 = self.operands@;
                    let ev = Event::Literal(lit);
                    let ghost evg = ev;
                    self.events.push(ev);
                    self.operands.push(slot);
                    self.current = self.current + 1;
                    proof {
                        lemma_evs_view_push(evs0, evg);
                        lemma_slots_view_push(opnds0, slot);
                        assert(lit@ =~= tx);
                        assert(evg@ == EventV::Literal(tx));
                        assert(toks_view(self.tokens@)[i] == TokenV::Number(tx));
                        assert(self.st() == EvalSt {
                            events: st0.events.push(EventV::Literal(tx)),
                            operands: st0.operands.push(st0.events.len() as int),
                            ops: st0.ops,
                        });
                    }
                },
                Token::LeftParen => {
                    self.ops.push(StackOp::Paren);
                    self.current = self.current + 1;
                    proof {
                        assert(toks_view(self.tokens@)[i] == TokenV::LeftParen);
                    }
                },
                Token::RightParen => {
                    proof {
                        assert(toks_view(self.tokens@)[i] == TokenV::RightParen);
                    }
                    match self.pop_until_left_paren() {
                        Ok(()) => {
                            proof {
                                assert(eval_from(toks_view(self.tokens@), i, st0) == eval_from(
                                    toks_view(self.tokens@),
                                    i + 1,
                                    self.st(),
                                ));
                            }
                        },
                        Err(e) => {
                            proof {
                                assert(eval_from(toks_view(self.tokens@), i, st0)
                                    == Err::<PlanV, EvalError>(e));
                            }
                            return Err(e);
                        },
                    }
                },
                Token::Plus => {
                    proof {
                        assert(toks_view(self.tokens@)[i] == TokenV::Plus);
                        assert(eval_from(toks_view(self.tokens@), i, st0) == eval_bin(
                            toks_view(self.tokens@),
                            i,
                            st0,
                            BinOp::Add,
                        ));
                    }
                    match self.push_op(BinOp::Add) {
                        Ok(()) => {
                            proof {
                                assert(eval_bin(toks_view(self.tokens@), i, st0, BinOp::Add)
                                    == eval_from(
                                    toks_view(self.tokens@),
                                    i + 1,
                                    self.st(),
                                ));
                            }
                        },
                        Err(e) => {
                            proof {
                                assert(eval_bin(toks_view(self.tokens@), i, st0, BinOp::Add)
                                    == Err::<PlanV, EvalError>(e));
                            }
                            return Err(e);
                        },
                    }
                },
                Token::Minus => {
                    proof {
                        assert(toks_view(self.tokens@)[i] == TokenV::Minus);
                        assert(eval_from(toks_view(self.tokens@), i, st0) == eval_bin(
                            toks_view(self.tokens@),
                            i,
                            st0,
                            BinOp::Sub,
                        ));
                    }
                    match self.push_op(BinOp::Sub) {
                        Ok(()) => {
                            proof {
                                assert(eval_bin(toks_view(self.tokens@), i, st0, BinOp::Sub)
                                    == eval_from(
                                    toks_view(self.tokens@),
                                    i + 1,
                                    self.st(),
                                ));
                            }
                        },
                        Err(e) => {
                            proof {
                                assert(eval_bin(toks_view(self.tokens@), i, st0, BinOp::Sub)
                                    == Err::<PlanV, EvalError>(e));
                            }
                            return Err(e);
                        },
                    }
                },
                Token::Multiply => {
                    proof {
                        assert(toks_view(self.tokens@)[i] == TokenV::Multiply);
                        assert(eval_from(toks_view(self.tokens@), i, st0) == eval_bin(
                            toks_view(self.tokens@),
                            i,
                            st0,
                            BinOp::Mul,
                        ));
                    }
                    match self.push_op(BinOp::Mul) {
                        Ok(()) => {
                            proof {
                                assert(eval_bin(toks_view(self.tokens@), i, st0, BinOp::Mul)
                                    == eval_from(
                                    toks_view(self.tokens@),
                                    i + 1,
                                    self.st(),
                                ));
                            }
                        },
                        Err(e) => {
                            proof {
                                assert(eval_bin(toks_view(self.tokens@), i, st0, BinOp::Mul)
                                    == Err::<PlanV, EvalError>(e));
                            }
                            return Err(e);
                        },
                    }
                },
                Token::Divide => {
                    proof {
                        assert(toks_view(self.tokens@)[i] == TokenV::Divide);
                        assert(eval_from(toks_view(self.tokens@), i, st0) == eval_bin(
                            toks_view(self.tokens@),
                            i,
                            st0,
                            BinOp::Div,
                        ));
                    }
                    match self.push_op(BinOp::Div) {
                        Ok(()) => {
                            proof {
                                assert(eval_bin(toks_view(self.tokens@), i, st0, BinOp::Div)
                                    == eval_from(
                                    toks_view(self.tokens@),
                                    i + 1,
                                    self.st(),
                                ));
                            }
                        },
                        Err(e) => {
                            proof {
                                assert(eval_bin(toks_view(self.tokens@), i, st0, BinOp::Div)
                                    == Err::<PlanV, EvalError>(e));
                            }
                            return Err(e);
                        },
                    }
                },
                Token::Power => {
                    proof {
                        assert(toks_view(self.tokens@)[i] == TokenV::Power);
                        assert(eval_from(toks_view(self.tokens@), i, st0) == eval_bin(
                            toks_view(self.tokens@),
                            i,
                            st0,
                            BinOp::Pow,
                        ));
                    }
                    match self.push_op(BinOp::Pow) {
                        Ok(()) => {
                            proof {
                                assert(eval_bin(toks_view(self.tokens@), i, st0, BinOp::Pow)
                                    == eval_from(
                                    toks_view(self.tokens@),
                                    i + 1,
                                    self.st(),
                                ));
                            }
                        },
                        Err(e) => {
                            proof {
                                assert(eval_bin(toks_view(self.tokens@), i, st0, BinOp::Pow)
                                    == Err::<PlanV, EvalError>(e));
                            }
                            return Err(e);
                        },
                    }
                },
            }
        }
        match self.pop_all_operators() {
            Ok(()) => {},
            Err(e) => {
                return Err(e);
            },
        }
        let slot = match self.operands.pop() {
            Some(v) => v,
            None => {
                return Err(EvalError::InvalidExpression);
            },
        };
        let mut events: Vec<Event> = Vec::new();
        core::mem::swap(&mut events, &mut self.events);
        let p = Plan { events, result: slot };
        proof {
            assert(plan_wf(p@));
        }
        Ok(p)
    }
}

/// The rank of an operator-stack entry, as the evaluator consults it.
fn stack_prec(op: StackOp) -> (p: u8)
    ensures
        p as int == prec_stack(op),
{
    match op {
        StackOp::Paren => 0,
        StackOp::Op(b) => bin_prec(b),
    }
}

/// The rank of a binary operator.
fn bin_prec(b: BinOp) -> (p: u8)
    ensures
        p as int == prec_bin(b),
{
    match b {
        BinOp::Pow => 5,
        BinOp::Mul => 4,
        BinOp::Div => 4,
        BinOp::Add => 2,
        BinOp::Sub => 2,
    }
}

/// Evaluate a token sequence: exactly the plan of [`eval_model`], or its
/// first structural error.
pub fn evaluate(tokens: Vec<Token>) -> (r: Result<Plan, EvalError>)
    ensures
        match r {
            Ok(p) => eval_model(toks_view(tokens@)) == Ok::<PlanV, EvalError>(p@) && plan_wf(p@),
            Err(e) => eval_model(toks_view(tokens@)) == Err::<PlanV, EvalError>(e),
        },
{
    let mut ev = Evaluator::new(tokens);
    ev.run()
}

} // verus!
