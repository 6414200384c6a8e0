//! Evaluation semantics: what running a program tree does to the machine
//! state, as a total specification.
//!
//! The machine state is a fixed-length tape of byte cells, a data
//! pointer into it, the output bytes produced so far and the input bytes
//! not yet consumed. Cell arithmetic wraps modulo 256 and the pointer
//! wraps modulo the tape length, so neither ever traps.
//!
//! A loop may iterate forever, which no total specification can unroll,
//! so evaluation is indexed by a step budget: each loop iteration costs
//! one unit of the budget handed to the enclosing sequence, and a loop
//! that finds the budget spent stops the run with [`InterpError::StepLimit`].
//! With the budget at the largest machine integer that bound is out of
//! reach for any run that could finish in practice.

use vstd::prelude::*;

use crate::ast::{body_of, NodeType, NodeV};

verus! {

broadcast use vstd::group_vstd_default;

/// The fixed tape length.
pub const TAPE_LEN: usize = 30000;

/// Why a run stopped before its node sequence was exhausted. Both are
/// fatal for the run; there is no partial-result recovery.
#[derive(Clone, Copy, Debug, PartialEq, Eq, Structural)]
pub enum InterpError {
    /// An `Input` instruction executed with no input byte left.
    InputExhausted,
    /// A loop iteration found the step budget spent.
    StepLimit,
}

/// The mutable evaluation state: the tape, the data pointer, the output
/// produced so far, and the input not yet consumed.
#[verifier::ext_equal]
pub struct State {
    pub cells: Seq<u8>,
    pub pointer: int,
    pub output: Seq<u8>,
    pub input: Seq<u8>,
}

/// What evaluation yields: the final state, or the state at the point a
/// fatal condition stopped the run, with that condition.
#[verifier::ext_equal]
pub enum Outcome {
    Done(State),
    Fail(State, InterpError),
}

/// The state invariant: the tape has the fixed length and the pointer
/// stays within it.
pub open spec fn valid_state(st: State) -> bool {
    &&& st.cells.len() == TAPE_LEN
    &&& 0 <= st.pointer < st.cells.len()
}

/// The state a run starts from: an all-zero tape, the pointer at zero,
/// no output yet, and the given input.
pub open spec fn init_state(input: Seq<u8>) -> State {
    State {
        cells: Seq::new(TAPE_LEN as nat, |i: int| 0u8),
        pointer: 0,
        output: Seq::empty(),
        input,
    }
}

/// One cell increment: wraps modulo 256, never traps.
pub open spec fn wrap_inc(c: u8) -> u8 {
    (((c as int) + 1) % 256) as u8
}

/// One cell decrement: adding 255 modulo 256 wraps on underflow.
pub open spec fn wrap_dec(c: u8) -> u8 {
    (((c as int) + 255) % 256) as u8
}

/// One pointer increment: wraps to 0 past the last cell.
pub open spec fn ptr_next(p: int, len: int) -> int {
    (p + 1) % len
}

/// One pointer decrement: wraps to the last cell from 0.
pub open spec fn ptr_prev(p: int, len: int) -> int {
    (p + len - 1) % len
}

/// The value of the current cell.
pub open spec fn cur_cell(st: State) -> u8 {
    st.cells[st.pointer]
}

/// What one node does to the state, with `fuel` as the remaining step
/// budget. `Ignore`, `WhiteSpace`, `LoopEnd` and `EOF` nodes are no-ops.
pub open spec fn eval_node(n: NodeV, st: State, fuel: nat) -> Outcome
    decreases fuel, n, 1int,
    via eval_node_decreases
{
    match n.kind {
        NodeType::CellIncrement => Outcome::Done(
            State { cells: st.cells.update(st.pointer, wrap_inc(cur_cell(st))), ..st },
        ),
        NodeType::CellDecrement => Outcome::Done(
            State { cells: st.cells.update(st.pointer, wrap_dec(cur_cell(st))), ..st },
        ),
        NodeType::PointerIncrement => Outcome::Done(
            State { pointer: ptr_next(st.pointer, st.cells.len() as int), ..st },
        ),
        NodeType::PointerDecrement => Outcome::Done(
            State { pointer: ptr_prev(st.pointer, st.cells.len() as int), ..st },
        ),
        NodeType::Output => Outcome::Done(State { output: st.output.push(cur_cell(st)), ..st }),
        NodeType::Input => if st.input.len() == 0 {
            Outcome::Fail(st, InterpError::InputExhausted)
        } else {
            Outcome::Done(
                State {
                    cells: st.cells.update(st.pointer, st.input[0]),
                    input: st.input.drop_first(),
                    ..st
                },
            )
        },
        NodeType::LoopStart => if n.body is Some {
            eval_loop(body_of(n), st, fuel)
        } else {
            Outcome::Done(st)
        },
        _ => Outcome::Done(st),
    }
}

#[via_fn]
proof fn eval_node_decreases(n: NodeV, st: State, fuel: nat) {
    if n.kind == NodeType::LoopStart && n.body is Some {
        let inner = n.body.unwrap();
        assert(decreases_to!(n => n.body));
        assert(decreases_to!(n.body => inner));
    }
}

/// A loop: while the current cell is nonzero, evaluate the body once and
/// try again. Each iteration costs one unit of budget, and the body and
/// the following iterations run on what remains, so the budget bounds
/// how often any one loop can iterate.
pub open spec fn eval_loop(body: Seq<NodeV>, st: State, fuel: nat) -> Outcome
    decreases fuel, body, 0int,
{
    if cur_cell(st) == 0 {
        Outcome::Done(st)
    } else if fuel == 0 {
        Outcome::Fail(st, InterpError::StepLimit)
    } else {
        match eval_from(body, 0, st, (fuel - 1) as nat) {
            Outcome::Done(st2) => eval_loop(body, st2, (fuel - 1) as nat),
            o => o,
        }
    }
}

/// Evaluates the nodes of `ns` from index `i` on, in order, threading
/// the state; the first fatal condition stops the run.
pub open spec fn eval_from(ns: Seq<NodeV>, i: int, st: State, fuel: nat) -> Outcome
    decreases fuel, ns, ns.len() - i,
{
    if i < 0 || i >= ns.len() {
        Outcome::Done(st)
    } else {
        match eval_node(ns[i], st, fuel) {
            Outcome::Done(st2) => eval_from(ns, i + 1, st2, fuel),
            o => o,
        }
    }
}

/// Evaluates a whole node sequence from the start.
pub open spec fn eval_nodes(ns: Seq<NodeV>, st: State, fuel: nat) -> Outcome {
    eval_from(ns, 0, st, fuel)
}

/// The state an outcome carries: the final state of a completed run, or
/// the state at the point a fatal condition stopped it.
pub open spec fn outcome_state(o: Outcome) -> State {
    match o {
        Outcome::Done(st) => st,
        Outcome::Fail(st, _) => st,
    }
}

/// Law: evaluation is a pure function of the tree, the starting state
/// and the budget. No hidden state carries over between runs, so running
/// one program a second time from an equally fresh machine yields an
/// identical outcome, output byte for output byte.
pub proof fn lemma_rerun_identical(
    prog: Seq<NodeV>,
    input: Seq<u8>,
    fuel: nat,
    st1: State,
    st2: State,
)
    requires
        st1 == init_state(input),
        st2 == init_state(input),
    ensures
        eval_nodes(prog, st1, fuel) == eval_nodes(prog, st2, fuel),
{
}

/// A run of cell increments from index `i` on adds its length to the
/// current cell, modulo 256, and changes nothing else.
proof fn lemma_incs_from(ns: Seq<NodeV>, i: int, st: State, fuel: nat)
    requires
        valid_state(st),
        0 <= i <= ns.len() <= 256,
        forall|k: int| i <= k < ns.len() ==> #[trigger] ns[k].kind == NodeType::CellIncrement,
    ensures
        eval_from(ns, i, st, fuel) == Outcome::Done(
            State {
                cells: st.cells.update(
                    st.pointer,
                    (((cur_cell(st) as int) + (ns.len() - i)) % 256) as u8,
                ),
                ..st
            },
        ),
    decreases ns.len() - i,
{
    let c = cur_cell(st) as int;
    if i >= ns.len() {
        vstd::arithmetic::div_mod::lemma_small_mod(c as nat, 256);
        assert(st.cells.update(st.pointer, cur_cell(st)) =~= st.cells);
        assert(State { cells: st.cells.update(st.pointer, (c % 256) as u8), ..st } =~= st);
    } else {
        let st1 = State { cells: st.cells.update(st.pointer, wrap_inc(cur_cell(st))), ..st };
        assert(eval_node(ns[i], st, fuel) == Outcome::Done(st1));
        assert(cur_cell(st1) == wrap_inc(cur_cell(st)));
        lemma_incs_from(ns, i + 1, st1, fuel);
        let k = ns.len() - (i + 1);
        vstd::arithmetic::div_mod::lemma_add_mod_noop(c + 1, k as int, 256);
        vstd::arithmetic::div_mod::lemma_small_mod(k as nat, 256);
        assert((cur_cell(st1) as int + k) % 256 == (c + (ns.len() - i)) % 256);
        assert(st1.cells.update(st1.pointer, (((c + (ns.len() - i)) % 256) as u8)) =~= st.cells.update(
            st.pointer,
            (((c + (ns.len() - i)) % 256) as u8),
        ));
        assert(eval_from(ns, i, st, fuel) == eval_from(ns, i + 1, st1, fuel));
        assert(State {
            cells: st1.cells.update(st1.pointer, (((cur_cell(st1) as int) + k) % 256) as u8),
            ..st1
        } =~= State {
            cells: st.cells.update(st.pointer, (((c + (ns.len() - i)) % 256) as u8)),
            ..st
        });
    }
}

/// Law: 256 consecutive cell increments on the same cell return it to
/// its original value — the whole machine state comes back unchanged.
pub proof fn lemma_cell_increment_cycle(ns: Seq<NodeV>, st: State, fuel: nat)
    requires
        valid_state(st),
        ns.len() == 256,
        forall|k: int| 0 <= k < ns.len() ==> #[trigger] ns[k].kind == NodeType::CellIncrement,
    ensures
        eval_nodes(ns, st, fuel) == Outcome::Done(st),
{
    let c = cur_cell(st) as int;
    lemma_incs_from(ns, 0, st, fuel);
    vstd::arithmetic::div_mod::lemma_mod_add_multiples_vanish(c, 256);
    vstd::arithmetic::div_mod::lemma_small_mod(c as nat, 256);
    assert((c + 256) % 256 == c);
    assert(st.cells.update(st.pointer, cur_cell(st)) =~= st.cells);
    assert(State { cells: st.cells.update(st.pointer, ((c + 256) % 256) as u8), ..st } =~= st);
}

/// Law: a pointer decrement at index 0 moves the pointer to the last
/// cell of the tape.
pub proof fn lemma_pointer_decrement_wraps(n: NodeV, st: State, fuel: nat)
    requires
        valid_state(st),
        n.kind == NodeType::PointerDecrement,
        st.pointer == 0,
    ensures
        eval_node(n, st, fuel) == Outcome::Done(
            State { pointer: st.cells.len() - 1, ..st },
        ),
{
    let len = st.cells.len() as int;
    vstd::arithmetic::div_mod::lemma_small_mod((len - 1) as nat, len as nat);
}

/// Law: a pointer increment at the last cell moves the pointer to
/// index 0.
pub proof fn lemma_pointer_increment_wraps(n: NodeV, st: State, fuel: nat)
    requires
        valid_state(st),
        n.kind == NodeType::PointerIncrement,
        st.pointer == st.cells.len() - 1,
    ensures
        eval_node(n, st, fuel) == Outcome::Done(State { pointer: 0, ..st }),
{
    let len = st.cells.len() as int;
    vstd::arithmetic::div_mod::lemma_mod_self_0(len);
}

/// Law: a loop whose entry cell is already zero executes its body zero
/// times — the state is unchanged, whatever its body holds and whatever
/// the budget is.
pub proof fn lemma_loop_entry_zero(n: NodeV, st: State, fuel: nat)
    requires
        n.kind == NodeType::LoopStart,
        cur_cell(st) == 0,
    ensures
        eval_node(n, st, fuel) == Outcome::Done(st),
{
}

/// A loop node evaluates exactly as [`eval_loop`] on its body.
pub proof fn lemma_eval_node_loop(n: NodeV, st: State, fuel: nat)
    requires
        n.kind == NodeType::LoopStart,
        n.body is Some,
    ensures
        eval_node(n, st, fuel) == eval_loop(body_of(n), st, fuel),
{
}

} // verus!
