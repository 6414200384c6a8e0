//! Tree-walking evaluation: walks a program tree against a fixed-size
//! byte tape and a movable data pointer, appending output bytes and
//! consuming input bytes on demand.
//!
//! One dispatch handles every instruction kind, and loop bodies re-enter
//! it recursively, so the top level and nested loops can never drift
//! apart. The interpreter is proved to compute exactly the outcome of
//! [`eval_nodes`] on the view of the nodes it runs: the tape stays in
//! bounds by construction, cell arithmetic wraps, and the run stops with
//! an error precisely where the semantics says it does.

use vstd::prelude::*;

use crate::ast::{body_of, lemma_nodes_view_len, nodes_view, wf_node, wf_nodes, Ast, Node, NodeType, NodeV};
use crate::lexer::{classify, spec_tokens, Lexer, TokenType};
use crate::parser::{lemma_top_wf, spec_at_end, spec_body, spec_expression, spec_parse, spec_top, Parser};
use crate::semantics::{
    cur_cell, eval_from, eval_loop, eval_node, eval_nodes, init_state, lemma_eval_node_loop,
    outcome_state, ptr_next, ptr_prev, valid_state, wrap_dec, wrap_inc, InterpError, Outcome,
    State, TAPE_LEN,
};

verus! {

broadcast use vstd::group_vstd_default;

/// The interpreter: the program tree it runs, the tape cells, the data
/// pointer, the output bytes produced so far, the input bytes not yet
/// consumed, and the step budget a run starts with.
pub struct Interpreter {
    pub ast: Ast,
    pub cells: Vec<u8>,
    pub pointer: usize,
    pub output: Vec<u8>,
    pub input: Vec<u8>,
    pub fuel: u64,
}

impl Interpreter {
    /// The evaluation state this interpreter is in.
    pub open spec fn state(&self) -> State {
        State {
            cells: self.cells@,
            pointer: self.pointer as int,
            output: self.output@,
            input: self.input@,
        }
    }

    /// The tape has the fixed length and the pointer stays within it.
    pub open spec fn wf_state(&self) -> bool {
        valid_state(self.state())
    }

    /// Well-formed interpreter: a valid state and a well-formed tree.
    pub open spec fn wf(&self) -> bool {
        &&& self.wf_state()
        &&& wf_nodes(self.ast@)
    }

    /// Builds an interpreter over a freshly zeroed tape with the pointer
    /// at 0, ready to run `ast` against `input` under `fuel`.
    pub fn new(ast: Ast, input: Vec<u8>, fuel: u64) -> (r: Interpreter)
        ensures
            r.ast == ast,
            r.fuel == fuel,
            r.state() == init_state(input@),
            r.wf_state(),
            wf_nodes(ast@) ==> r.wf(),
    {
        let mut cells: Vec<u8> = Vec::new();
        let mut i: usize = 0;
        while i < TAPE_LEN
            invariant
                i <= TAPE_LEN,
                cells@.len() == i,
                forall|j: int| 0 <= j < i ==> cells@[j] == 0u8,
            decreases TAPE_LEN - i,
        {
            cells.push(0);
            i += 1;
        }
        let r = Interpreter { ast, cells, pointer: 0, output: Vec::new(), input, fuel };
        proof {
            assert(r.state().cells =~= init_state(r.input@).cells);
            assert(r.state() =~= init_state(r.input@));
        }
        r
    }

    /// Appends the current cell's value, as one raw byte, to the output.
    pub fn output(&mut self)
        requires
            old(self).wf_state(),
        ensures
            final(self).wf_state(),
            final(self).ast == old(self).ast,
            final(self).fuel == old(self).fuel,
            final(self).state() == (State {
                output: old(self).state().output.push(cur_cell(old(self).state())),
                ..old(self).state()
            }),
    {
        let b = self.cells[self.pointer];
        self.output.push(b);
    }

    /// Consumes one input byte into the current cell; with no byte left,
    /// fails with `InputExhausted` and changes nothing.
    pub fn input(&mut self) -> (r: Result<(), InterpError>)
        requires
            old(self).wf_state(),
        ensures
            final(self).wf_state(),
            final(self).ast == old(self).ast,
            final(self).fuel == old(self).fuel,
            match r {
                Ok(()) => old(self).input@.len() > 0 && final(self).state() == (State {
                    cells: old(self).state().cells.update(
                        old(self).state().pointer,
                        old(self).state().input[0],
                    ),
                    input: old(self).state().input.drop_first(),
                    ..old(self).state()
                }),
                Err(e) => e == InterpError::InputExhausted && old(self).input@.len() == 0
                    && final(self).state() == old(self).state(),
            },
    {
        if self.input.len() == 0 {
            Err(InterpError::InputExhausted)
        } else {
            let b = self.input.remove(0);
            self.cells[self.pointer] = b;
            proof {
                assert(self.input@ =~= old(self).input@.drop_first());
            }
            Ok(())
        }
    }

    /// Runs one loop: while the current cell is nonzero, runs the body
    /// once on a budget one smaller. The result is exactly what
    /// [`eval_loop`] says of the body's view.
    pub fn loop_start(&mut self, nodes: &Vec<Node>, fuel: u64) -> (r: Result<(), InterpError>)
        requires
            old(self).wf_state(),
            wf_nodes(nodes_view(nodes@)),
        ensures
            final(self).wf_state(),
            final(self).ast == old(self).ast,
            final(self).fuel == old(self).fuel,
            match r {
                Ok(()) => eval_loop(nodes_view(nodes@), old(self).state(), fuel as nat)
                    == Outcome::Done(final(self).state()),
                Err(e) => eval_loop(nodes_view(nodes@), old(self).state(), fuel as nat)
                    == Outcome::Fail(final(self).state(), e),
            },
        decreases fuel, 0int,
    {
        let ghost body = nodes_view(nodes@);
        let mut f = fuel;
        while self.cells[self.pointer] != 0
            invariant
                self.wf_state(),
                self.ast == old(self).ast,
                self.fuel == old(self).fuel,
                f <= fuel,
                wf_nodes(body),
                body == nodes_view(nodes@),
                eval_loop(body, old(self).state(), fuel as nat) == eval_loop(
                    body,
                    self.state(),
                    f as nat,
                ),
            decreases f,
        {
            assert(cur_cell(self.state()) != 0);
            if f == 0 {
                assert(eval_loop(body, self.state(), f as nat) == Outcome::Fail(
                    self.state(),
                    InterpError::StepLimit,
                ));
                return Err(InterpError::StepLimit);
            }
            f = f - 1;
            let ghost pre = self.state();
            match self.run_nodes(nodes, f) {
                Ok(()) => {
                    assert(eval_loop(body, pre, (f + 1) as nat) == eval_loop(
                        body,
                        self.state(),
                        f as nat,
                    ));
                },
                Err(e) => {
                    assert(eval_loop(body, pre, (f + 1) as nat) == Outcome::Fail(
                        self.state(),
                        e,
                    ));
                    return Err(e);
                },
            }
        }
        assert(cur_cell(self.state()) == 0);
        assert(eval_loop(body, self.state(), f as nat) == Outcome::Done(self.state()));
        Ok(())
    }

    /// The one instruction dispatch: runs the given nodes in order under
    /// the given budget. Both the top-level run and every loop body come
    /// through here. The result is exactly what [`eval_nodes`] says of
    /// the nodes' view.
    pub fn run_nodes(&mut self, nodes: &Vec<Node>, fuel: u64) -> (r: Result<(), InterpError>)
        requires
            old(self).wf_state(),
            wf_nodes(nodes_view(nodes@)),
        ensures
            final(self).wf_state(),
            final(self).ast == old(self).ast,
            final(self).fuel == old(self).fuel,
            match r {
                Ok(()) => eval_nodes(nodes_view(nodes@), old(self).state(), fuel as nat)
                    == Outcome::Done(final(self).state()),
                Err(e) => eval_nodes(nodes_view(nodes@), old(self).state(), fuel as nat)
                    == Outcome::Fail(final(self).state(), e),
            },
        decreases fuel, 1int,
    {
        let ghost vw = nodes_view(nodes@);
        proof {
            lemma_nodes_view_len(nodes@);
        }
        let n = nodes.len();
        let mut i: usize = 0;
        while i < n
            invariant
                i <= n,
                n == nodes@.len(),
                self.wf_state(),
                self.ast == old(self).ast,
                self.fuel == old(self).fuel,
                vw == nodes_view(nodes@),
                vw.len() == n,
                forall|j: int| 0 <= j < n ==> vw[j] == #[trigger] nodes@[j]@,
                wf_nodes(vw),
                eval_from(vw, 0, old(self).state(), fuel as nat) == eval_from(
                    vw,
                    i as int,
                    self.state(),
                    fuel as nat,
                ),
            decreases n - i,
        {
            let node = &nodes[i];
            let ghost pre = self.state();
            proof {
                assert(vw[i as int] == nodes@[i as int]@);
                assert(vw[i as int].kind == node.kind);
                assert(wf_node(vw[i as int]));
            }
            match node.kind {
                NodeType::Ignore | NodeType::WhiteSpace | NodeType::LoopEnd | NodeType::EOF => {
                    assert(eval_node(vw[i as int], pre, fuel as nat) == Outcome::Done(pre));
                },
                NodeType::CellIncrement => {
                    let v = self.cells[self.pointer];
                    let nv = if v == 255 {
                        0
                    } else {
                        v + 1
                    };
                    self.cells[self.pointer] = nv;
                    proof {
                        assert(nv == wrap_inc(cur_cell(pre)));
                        assert(self.state() =~= (State {
                            cells: pre.cells.update(pre.pointer, wrap_inc(cur_cell(pre))),
                            ..pre
                        }));
                    }
                },
                NodeType::CellDecrement => {
                    let v = self.cells[self.pointer];
                    let nv = if v == 0 {
                        255
                    } else {
                        v - 1
                    };
                    self.cells[self.pointer] = nv;
                    proof {
                        assert(nv == wrap_dec(cur_cell(pre)));
                        assert(self.state() =~= (State {
                            cells: pre.cells.update(pre.pointer, wrap_dec(cur_cell(pre))),
                            ..pre
                        }));
                    }
                },
                NodeType::PointerIncrement => {
                    self.pointer = self.pointer + 1;
                    if self.pointer >= self.cells.len() {
                        self.pointer = 0;
                    }
                    proof {
                        assert(self.pointer as int == ptr_next(pre.pointer, pre.cells.len() as int));
                        assert(self.state() =~= (State {
                            pointer: ptr_next(pre.pointer, pre.cells.len() as int),
                            ..pre
                        }));
                    }
                },
                NodeType::PointerDecrement => {
                    if self.pointer == 0 {
                        self.pointer = self.cells.len() - 1;
                    } else {
                        self.pointer = self.pointer - 1;
                    }
                    proof {
                        assert(self.pointer as int == ptr_prev(pre.pointer, pre.cells.len() as int));
                        assert(self.state() =~= (State {
                            pointer: ptr_prev(pre.pointer, pre.cells.len() as int),
                            ..pre
                        }));
                    }
                },
                NodeType::Output => {
                    self.output();
                },
                NodeType::Input => {
                    match self.input() {
                        Ok(()) => {},
                        Err(e) => {
                            assert(eval_from(vw, i as int, pre, fuel as nat) == Outcome::Fail(
                                self.state(),
                                e,
                            ));
                            return Err(e);
                        },
                    }
                },
                NodeType::LoopStart => {
                    match &node.body {
                        Some(b) => {
                            proof {
                                assert(vw[i as int].body == Some(nodes_view(b.body@)));
                                assert(body_of(vw[i as int]) == nodes_view(b.body@));
                            }
                            match self.loop_start(&b.body, fuel) {
                                Ok(()) => {
                                    assert(eval_node(vw[i as int], pre, fuel as nat)
                                        == Outcome::Done(self.state()));
                                },
                                Err(e) => {
                                    assert(eval_from(vw, i as int, pre, fuel as nat)
                                        == Outcome::Fail(self.state(), e));
                                    return Err(e);
                                },
                            }
                        },
                        None => {
                            proof {
                                assert(vw[i as int].body is Some);
                                assert(false);
                            }
                        },
                    }
                },
            }
            assert(eval_node(vw[i as int], pre, fuel as nat) == Outcome::Done(self.state()));
            i = i + 1;
        }
        assert(eval_from(vw, n as int, self.state(), fuel as nat) == Outcome::Done(self.state()));
        Ok(())
    }

    /// Evaluates the given node sequence — or, given none, the whole
    /// program tree this interpreter holds — from the state the
    /// interpreter is in, under its step budget. Returns `Ok` when the
    /// sequence is exhausted, and the fatal condition otherwise, leaving
    /// the state exactly as the semantics says.
    pub fn interpret(&mut self, nodes: Option<&Vec<Node>>) -> (r: Result<(), InterpError>)
        requires
            old(self).wf(),
            match nodes {
                Some(ns) => wf_nodes(nodes_view(ns@)),
                None => true,
            },
        ensures
            final(self).wf(),
            final(self).ast == old(self).ast,
            final(self).fuel == old(self).fuel,
            ({
                let prog = match nodes {
                    Some(ns) => nodes_view(ns@),
                    None => old(self).ast@,
                };
                match r {
                    Ok(()) => eval_nodes(prog, old(self).state(), old(self).fuel as nat)
                        == Outcome::Done(final(self).state()),
                    Err(e) => eval_nodes(prog, old(self).state(), old(self).fuel as nat)
                        == Outcome::Fail(final(self).state(), e),
                }
            }),
    {
        let fuel = self.fuel;
        match nodes {
            Some(ns) => self.run_nodes(ns, fuel),
            None => {
                let mut body: Vec<Node> = Vec::new();
                core::mem::swap(&mut self.ast.body, &mut body);
                let r = self.run_nodes(&body, fuel);
                core::mem::swap(&mut self.ast.body, &mut body);
                proof {
                    assert(self.ast == old(self).ast);
                }
                r
            },
        }
    }
}

/// The step budget a caller-facing run starts with: out of reach for any
/// run that could finish in practice.
pub const RUN_FUEL: u64 = u64::MAX;

/// The outcome of running a source from a freshly zeroed tape, the
/// pointer at 0 and no input, under the full step budget: the source is
/// scanned, parsed, and the tree evaluated.
pub open spec fn spec_run(code: Seq<char>) -> Outcome {
    eval_nodes(spec_parse(spec_tokens(code)), init_state(Seq::empty()), RUN_FUEL as nat)
}

/// An output byte sequence read as characters, one per byte.
pub open spec fn output_chars(bytes: Seq<u8>) -> Seq<char> {
    bytes.map(|i: int, b: u8| b as char)
}

/// Relies on String::push: appends exactly the given character.
#[verifier::external_body]
fn push_char(s: &mut String, c: char)
    ensures
        final(s)@ == old(s)@.push(c),
{
    s.push(c);
}

/// The caller-facing entry point: runs the whole pipeline on a source
/// string and returns the output bytes read as characters. The run
/// starts from a freshly zeroed tape with no input source, so an `Input`
/// instruction stops it, and what was output up to a fatal condition is
/// still returned.
pub fn run(code: &str) -> (r: String)
    ensures
        r@ == output_chars(outcome_state(spec_run(code@)).output),
{
    let mut lexer = Lexer::new(code);
    let tokens = lexer.tokenize();
    let mut parser = Parser::new(tokens);
    let ast = parser.parse();
    proof {
        lemma_top_wf(parser.tokens@, 0);
    }
    let mut interpreter = Interpreter::new(ast, Vec::new(), RUN_FUEL);
    let res = interpreter.interpret(None);
    proof {
        assert(outcome_state(spec_run(code@)) == interpreter.state());
    }
    let mut out = String::new();
    let n = interpreter.output.len();
    let mut i: usize = 0;
    while i < n
        invariant
            i <= n,
            n == interpreter.output@.len(),
            out@ == output_chars(interpreter.output@.take(i as int)),
        decreases n - i,
    {
        let b = interpreter.output[i];
        push_char(&mut out, b as char);
        proof {
            assert(interpreter.output@.take(i + 1) =~= interpreter.output@.take(i as int).push(
                interpreter.output@[i as int],
            ));
            assert(out@ =~= output_chars(interpreter.output@.take(i + 1)));
        }
        i = i + 1;
    }
    proof {
        assert(interpreter.output@.take(n as int) =~= interpreter.output@);
    }
    out
}

/// Law: the empty source produces an empty output byte sequence and
/// leaves the machine exactly as initialized: the tape all zero and the
/// pointer at 0.
pub proof fn lemma_empty_source(code: Seq<char>)
    requires
        code.len() == 0,
    ensures
        spec_run(code) == Outcome::Done(init_state(Seq::empty())),
        outcome_state(spec_run(code)).output.len() == 0,
        forall|i: int| 0 <= i < TAPE_LEN ==> outcome_state(spec_run(code)).cells[i] == 0,
{
    let toks = spec_tokens(code);
    assert(toks.len() == 1);
    assert(toks[0].kind == TokenType::EOF);
    assert(spec_at_end(toks, 0));
    assert(spec_parse(toks) =~= Seq::<NodeV>::empty());
    let st = init_state(Seq::empty());
    assert(eval_nodes(spec_parse(toks), st, RUN_FUEL as nat) == Outcome::Done(st));
}

/// Law: a source holding only one unmatched open bracket is accepted —
/// the parse closes the loop silently at end of input, yielding a single
/// loop node with an empty body — and, the entry cell being zero, the
/// loop runs zero times and the output is empty.
pub proof fn lemma_unmatched_open_bracket(code: Seq<char>)
    requires
        code == seq!['['],
    ensures
        spec_parse(spec_tokens(code)).len() == 1,
        spec_parse(spec_tokens(code))[0].kind == NodeType::LoopStart,
        spec_run(code) == Outcome::Done(init_state(Seq::empty())),
        outcome_state(spec_run(code)).output.len() == 0,
{
    let toks = spec_tokens(code);
    assert(toks.len() == 2);
    assert(code[0] == '[');
    assert(classify('[') == TokenType::LoopStart);
    assert(toks[0].kind == TokenType::LoopStart);
    assert(toks[1].kind == TokenType::EOF);
    let (n, j) = spec_expression(toks, 0);
    assert(spec_at_end(toks, 1));
    assert(spec_body(toks, 1) == (Seq::<NodeV>::empty(), 1int));
    assert(j == 1);
    assert(n.kind == NodeType::LoopStart);
    assert(n.body == Some(Seq::<NodeV>::empty()));
    assert(spec_top(toks, 1) =~= Seq::<NodeV>::empty());
    assert(spec_parse(toks) =~= seq![n]);
    let st = init_state(Seq::empty());
    assert(cur_cell(st) == 0);
    assert(eval_loop(body_of(n), st, RUN_FUEL as nat) == Outcome::Done(st));
    lemma_eval_node_loop(n, st, RUN_FUEL as nat);
    assert(eval_node(n, st, RUN_FUEL as nat) == Outcome::Done(st));
    assert(seq![n].len() == 1 && seq![n][0] == n);
    assert(eval_from(seq![n], 1, st, RUN_FUEL as nat) == Outcome::Done(st));
    assert(eval_from(seq![n], 0, st, RUN_FUEL as nat) == Outcome::Done(st));
}

} // verus!
