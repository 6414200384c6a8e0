//! Recursive-descent parse: builds the program tree from the flat token
//! sequence, with one token of lookahead and no backtracking.
//!
//! Every `LoopStart` token opens a fresh body that collects nodes until
//! the matching `LoopEnd` or the end of input; an unterminated loop is
//! silently closed at end of input, not rejected. A `LoopEnd` reached
//! outside any loop scan becomes an inert leaf. The lexer classifies
//! every character, so the parse is total: it never fails.

use vstd::prelude::*;
use vstd::pervasive::unreached;

use crate::ast::{body_of, nodes_view, wf_node, wf_nodes, Ast, Node, NodeType, NodeV};
use crate::lexer::{classify, lexemes, spec_tokens, Token, TokenType};

verus! {

broadcast use vstd::group_vstd_default;

/// Whether position `i` is past the tokens the parse consumes: out of
/// range, or at the end marker.
pub open spec fn spec_at_end(toks: Seq<Token>, i: int) -> bool {
    i < 0 || i >= toks.len() || toks[i].kind == TokenType::EOF
}

/// The instruction a leaf token stands for.
pub open spec fn leaf_kind(k: TokenType) -> NodeType {
    match k {
        TokenType::IncrementPointer => NodeType::PointerIncrement,
        TokenType::DecrementPointer => NodeType::PointerDecrement,
        TokenType::IncrementValue => NodeType::CellIncrement,
        TokenType::DecrementValue => NodeType::CellDecrement,
        TokenType::Output => NodeType::Output,
        TokenType::Input => NodeType::Input,
        TokenType::LoopStart => NodeType::LoopStart,
        TokenType::LoopEnd => NodeType::LoopEnd,
        TokenType::WhiteSpace => NodeType::WhiteSpace,
        TokenType::Ignore => NodeType::Ignore,
        TokenType::EOF => NodeType::EOF,
    }
}

/// The node one expression starting at `i` parses to, and the position
/// just past it. A `LoopStart` token collects a body up to its matching
/// `LoopEnd`, which is consumed if present; every other token is a leaf.
pub open spec fn spec_expression(toks: Seq<Token>, i: int) -> (NodeV, int)
    decreases toks.len() - i, 2int,
{
    let t = toks[i];
    if spec_at_end(toks, i) {
        (NodeV { token: t, kind: NodeType::EOF, body: None }, i + 1)
    } else if t.kind == TokenType::LoopStart {
        let (body, j) = spec_body(toks, i + 1);
        let k = if spec_at_end(toks, j) {
            j
        } else {
            j + 1
        };
        (NodeV { token: t, kind: NodeType::LoopStart, body: Some(body) }, k)
    } else {
        (NodeV { token: t, kind: leaf_kind(t.kind), body: None }, i + 1)
    }
}

/// The nodes a loop body collects from `i` on — it stops at a `LoopEnd`,
/// at the end marker, or past the tokens — and the position it stops at.
pub open spec fn spec_body(toks: Seq<Token>, i: int) -> (Seq<NodeV>, int)
    decreases toks.len() - i, 3int,
{
    if spec_at_end(toks, i) || toks[i].kind == TokenType::LoopEnd {
        (Seq::empty(), i)
    } else {
        let (n, j) = spec_expression(toks, i);
        let j2 = if i < j <= toks.len() {
            j
        } else {
            i + 1
        };
        let (rest, k) = spec_body(toks, j2);
        (seq![n] + rest, k)
    }
}

/// The nodes the top-level parse collects from `i` until the end marker.
/// Unlike a loop body it does not stop at `LoopEnd`: a stray close
/// bracket becomes an inert leaf.
pub open spec fn spec_top(toks: Seq<Token>, i: int) -> Seq<NodeV>
    decreases toks.len() - i, 4int,
{
    if spec_at_end(toks, i) {
        Seq::empty()
    } else {
        let (n, j) = spec_expression(toks, i);
        let j2 = if i < j <= toks.len() {
            j
        } else {
            i + 1
        };
        seq![n] + spec_top(toks, j2)
    }
}

/// The tree the whole token sequence parses to.
pub open spec fn spec_parse(toks: Seq<Token>) -> Seq<NodeV> {
    spec_top(toks, 0)
}

/// An expression consumes at least one token and never runs past the
/// sequence.
pub proof fn lemma_expression_bounds(toks: Seq<Token>, i: int)
    requires
        !spec_at_end(toks, i),
    ensures
        i < spec_expression(toks, i).1 <= toks.len(),
    decreases toks.len() - i, 2int,
{
    let t = toks[i];
    if t.kind == TokenType::LoopStart {
        lemma_body_bounds(toks, i + 1);
    }
}

/// A loop body scan stops within the sequence, at a `LoopEnd`, at the
/// end marker, or past the last token.
pub proof fn lemma_body_bounds(toks: Seq<Token>, i: int)
    requires
        0 <= i <= toks.len(),
    ensures
        i <= spec_body(toks, i).1 <= toks.len(),
        ({
            let j = spec_body(toks, i).1;
            spec_at_end(toks, j) || toks[j].kind == TokenType::LoopEnd
        }),
    decreases toks.len() - i, 3int,
{
    if !(spec_at_end(toks, i) || toks[i].kind == TokenType::LoopEnd) {
        lemma_expression_bounds(toks, i);
        let j = spec_expression(toks, i).1;
        lemma_body_bounds(toks, j);
    }
}

/// Every node an expression parses to is well-formed: a loop node owns
/// its body and every other node is a leaf.
pub proof fn lemma_expression_wf(toks: Seq<Token>, i: int)
    ensures
        wf_node(spec_expression(toks, i).0),
    decreases toks.len() - i, 2int,
{
    let t = toks[i];
    if !spec_at_end(toks, i) && t.kind == TokenType::LoopStart {
        lemma_body_wf(toks, i + 1);
    }
}

/// Every node a loop body collects is well-formed.
pub proof fn lemma_body_wf(toks: Seq<Token>, i: int)
    ensures
        wf_nodes(spec_body(toks, i).0),
    decreases toks.len() - i, 3int,
{
    if !(spec_at_end(toks, i) || toks[i].kind == TokenType::LoopEnd) {
        let (n, j) = spec_expression(toks, i);
        let j2 = if i < j <= toks.len() {
            j
        } else {
            i + 1
        };
        lemma_expression_wf(toks, i);
        lemma_body_wf(toks, j2);
        let ns = spec_body(toks, i).0;
        assert(forall|k: int|
            0 <= k < ns.len() ==> ns[k] == if k == 0 {
                n
            } else {
                spec_body(toks, j2).0[k - 1]
            });
    }
}

/// Every tree the parse returns is well-formed: each of its nodes is.
pub proof fn lemma_top_wf(toks: Seq<Token>, i: int)
    ensures
        wf_nodes(spec_top(toks, i)),
    decreases toks.len() - i, 4int,
{
    if !spec_at_end(toks, i) {
        let (n, j) = spec_expression(toks, i);
        let j2 = if i < j <= toks.len() {
            j
        } else {
            i + 1
        };
        lemma_expression_wf(toks, i);
        lemma_top_wf(toks, j2);
        let ns = spec_top(toks, i);
        assert(forall|k: int|
            0 <= k < ns.len() ==> ns[k] == if k == 0 {
                n
            } else {
                spec_top(toks, j2)[k - 1]
            });
    }
}

/// The parser: the token sequence and the position of the one-token
/// lookahead.
pub struct Parser {
    pub tokens: Vec<Token>,
    pub current: usize,
}

impl Parser {
    /// The lookahead position never runs past the tokens.
    pub open spec fn wf(&self) -> bool {
        self.current <= self.tokens@.len()
    }

    /// Wraps a token sequence, with the lookahead at the start.
    pub fn new(tokens: Vec<Token>) -> (r: Parser)
        ensures
            r.tokens@ == tokens@,
            r.current == 0,
            r.wf(),
    {
        Parser { tokens, current: 0 }
    }

    /// Whether the lookahead is past the tokens the parse consumes.
    fn is_at_end(&self) -> (r: bool)
        requires
            self.wf(),
        ensures
            r == spec_at_end(self.tokens@, self.current as int),
    {
        if self.current >= self.tokens.len() {
            true
        } else {
            let t = self.tokens[self.current];
            t.kind == TokenType::EOF
        }
    }

    /// The token at the lookahead.
    fn peek(&self) -> (t: Token)
        requires
            self.wf(),
            self.current < self.tokens@.len(),
        ensures
            t == self.tokens@[self.current as int],
    {
        self.tokens[self.current]
    }

    /// The token just before the lookahead.
    fn previous(&self) -> (t: Token)
        requires
            self.wf(),
            1 <= self.current,
        ensures
            t == self.tokens@[self.current as int - 1],
    {
        self.tokens[self.current - 1]
    }

    /// Consumes the lookahead token and returns it; at the end it
    /// consumes nothing and returns the last token consumed.
    fn advance(&mut self) -> (t: Token)
        requires
            old(self).wf(),
            spec_at_end(old(self).tokens@, old(self).current as int) ==> old(self).current >= 1,
        ensures
            final(self).wf(),
            final(self).tokens == old(self).tokens,
            if spec_at_end(old(self).tokens@, old(self).current as int) {
                final(self).current == old(self).current && t == final(self).tokens@[
                    final(self).current as int - 1
                ]
            } else {
                final(self).current == old(self).current + 1 && t == old(self).tokens@[
                    old(self).current as int
                ]
            },
    {
        proof {
            vstd::std_specs::vec::axiom_spec_len(&self.tokens);
        }
        if !self.is_at_end() {
            self.current = self.current + 1;
        }
        self.previous()
    }

    /// Parses one expression: consumes the lookahead token and, for a
    /// `LoopStart`, the whole bracketed span after it. Returns exactly
    /// the node [`spec_expression`] gives and leaves the lookahead just
    /// past it.
    fn expression(&mut self) -> (n: Node)
        requires
            old(self).wf(),
            !spec_at_end(old(self).tokens@, old(self).current as int),
        ensures
            final(self).wf(),
            final(self).tokens == old(self).tokens,
            old(self).current < final(self).current <= final(self).tokens@.len(),
            n@ == spec_expression(old(self).tokens@, old(self).current as int).0,
            final(self).current as int == spec_expression(
                old(self).tokens@,
                old(self).current as int,
            ).1,
        decreases old(self).tokens@.len() - old(self).current,
    {
        let ghost toks = old(self).tokens@;
        let ghost i0 = old(self).current as int;
        let token = self.advance();
        match token.kind {
            TokenType::IncrementValue => Node { token, kind: NodeType::CellIncrement, body: None },
            TokenType::DecrementValue => Node { token, kind: NodeType::CellDecrement, body: None },
            TokenType::IncrementPointer => Node {
                token,
                kind: NodeType::PointerIncrement,
                body: None,
            },
            TokenType::DecrementPointer => Node {
                token,
                kind: NodeType::PointerDecrement,
                body: None,
            },
            TokenType::Output => Node { token, kind: NodeType::Output, body: None },
            TokenType::Input => Node { token, kind: NodeType::Input, body: None },
            TokenType::LoopStart => {
                let mut body_vec: Vec<Node> = Vec::new();
                #[verifier::loop_isolation(false)]
                while !self.is_at_end() && self.peek().kind != TokenType::LoopEnd
                    invariant
                        self.wf(),
                        self.tokens == old(self).tokens,
                        toks == self.tokens@,
                        i0 + 1 <= self.current <= toks.len(),
                        spec_body(toks, i0 + 1) == (
                            nodes_view(body_vec@) + spec_body(toks, self.current as int).0,
                            spec_body(toks, self.current as int).1,
                        ),
                    decreases toks.len() - self.current,
                {
                    let ghost cur = self.current as int;
                    let ghost prev = body_vec@;
                    let nd = self.expression();
                    body_vec.push(nd);
                    proof {
                        let (sn, sj) = spec_expression(toks, cur);
                        assert(body_vec@.drop_last() =~= prev);
                        assert(nodes_view(body_vec@) == nodes_view(prev).push(nd@));
                        assert(spec_body(toks, cur).0 == seq![sn] + spec_body(toks, sj).0);
                        assert(spec_body(toks, cur).1 == spec_body(toks, sj).1);
                        assert(nodes_view(prev) + spec_body(toks, cur).0 =~= nodes_view(
                            body_vec@,
                        ) + spec_body(toks, sj).0);
                    }
                }
                proof {
                    assert(spec_body(toks, self.current as int).0 =~= Seq::<NodeV>::empty());
                    assert(nodes_view(body_vec@) + Seq::<NodeV>::empty() =~= nodes_view(
                        body_vec@,
                    ));
                }
                self.advance();
                let n = Node {
                    token,
                    kind: NodeType::LoopStart,
                    body: Some(Box::new(Ast { body: body_vec })),
                };
                proof {
                    assert(n@ == NodeV {
                        token,
                        kind: NodeType::LoopStart,
                        body: Some(nodes_view(body_vec@)),
                    });
                }
                n
            },
            TokenType::LoopEnd => Node { token, kind: NodeType::LoopEnd, body: None },
            TokenType::WhiteSpace => Node { token, kind: NodeType::WhiteSpace, body: None },
            TokenType::Ignore => Node { token, kind: NodeType::Ignore, body: None },
            TokenType::EOF => unreached(),
        }
    }

    /// Parses the whole token sequence into the program tree: repeatedly
    /// parses expressions until the end marker is the lookahead. Returns
    /// exactly the tree [`spec_parse`] gives for the tokens from the
    /// current lookahead on. Total: it never fails, whatever the tokens.
    pub fn parse(&mut self) -> (ast: Ast)
        requires
            old(self).wf(),
        ensures
            final(self).wf(),
            final(self).tokens == old(self).tokens,
            ast@ == spec_top(old(self).tokens@, old(self).current as int),
            spec_at_end(final(self).tokens@, final(self).current as int),
    {
        let ghost toks = old(self).tokens@;
        let ghost i0 = old(self).current as int;
        let mut body_vec: Vec<Node> = Vec::new();
        while !self.is_at_end()
            invariant
                self.wf(),
                self.tokens == old(self).tokens,
                toks == self.tokens@,
                i0 <= self.current <= toks.len(),
                spec_top(toks, i0) == nodes_view(body_vec@) + spec_top(
                    toks,
                    self.current as int,
                ),
            decreases toks.len() - self.current,
        {
            let ghost cur = self.current as int;
            let ghost prev = body_vec@;
            let nd = self.expression();
            body_vec.push(nd);
            proof {
                let (sn, sj) = spec_expression(toks, cur);
                assert(body_vec@.drop_last() =~= prev);
                assert(nodes_view(body_vec@) == nodes_view(prev).push(nd@));
                assert(spec_top(toks, cur) == seq![sn] + spec_top(toks, sj));
                assert(nodes_view(prev) + spec_top(toks, cur) =~= nodes_view(body_vec@)
                    + spec_top(toks, sj));
            }
        }
        proof {
            assert(spec_top(toks, self.current as int) =~= Seq::<NodeV>::empty());
            assert(nodes_view(body_vec@) + Seq::<NodeV>::empty() =~= nodes_view(body_vec@));
        }
        Ast { body: body_vec }
    }
}

/// The source text a parsed tree stands for, rebuilt node by node: a
/// leaf contributes its lexeme, a loop node its rebuilt body wrapped in
/// one bracket pair.
pub open spec fn recon_node(n: NodeV) -> Seq<char>
    decreases n, 0int,
    via recon_node_decreases
{
    match n.body {
        Some(b) => seq!['['] + recon_nodes(b) + seq![']'],
        None => seq![n.token.lexeme],
    }
}

#[via_fn]
proof fn recon_node_decreases(n: NodeV) {
    if n.body is Some {
        let inner = n.body.unwrap();
        assert(decreases_to!(n => n.body));
        assert(decreases_to!(n.body => inner));
    }
}

/// The source text a node sequence stands for, in order.
pub open spec fn recon_nodes(ns: Seq<NodeV>) -> Seq<char>
    decreases ns, 1int,
{
    if ns.len() == 0 {
        Seq::empty()
    } else {
        recon_node(ns[0]) + recon_nodes(ns.drop_first())
    }
}

/// Whether every token before the end marker is classified as its lexeme
/// demands. The lexer produces only such streams.
pub open spec fn classified(toks: Seq<Token>) -> bool {
    forall|k: int|
        0 <= k < toks.len() ==> (#[trigger] toks[k].kind == TokenType::EOF || toks[k].kind
            == classify(toks[k].lexeme))
}

/// Whether every loop inside the expression at `i` found its closing
/// bracket, so none was silently closed at end of input.
pub open spec fn expr_closed(toks: Seq<Token>, i: int) -> bool
    decreases toks.len() - i, 2int,
{
    if spec_at_end(toks, i) {
        true
    } else if toks[i].kind == TokenType::LoopStart {
        &&& body_closed(toks, i + 1)
        &&& !spec_at_end(toks, spec_body(toks, i + 1).1)
    } else {
        true
    }
}

/// Whether every loop inside a body scan from `i` found its closing
/// bracket.
pub open spec fn body_closed(toks: Seq<Token>, i: int) -> bool
    decreases toks.len() - i, 3int,
{
    if spec_at_end(toks, i) || toks[i].kind == TokenType::LoopEnd {
        true
    } else {
        let (n, j) = spec_expression(toks, i);
        let j2 = if i < j <= toks.len() {
            j
        } else {
            i + 1
        };
        expr_closed(toks, i) && body_closed(toks, j2)
    }
}

/// Whether every loop in the whole parse from `i` found its closing
/// bracket. A stray close bracket at the top level is allowed: it
/// parses to an inert leaf that rebuilds to itself.
pub open spec fn top_closed(toks: Seq<Token>, i: int) -> bool
    decreases toks.len() - i, 4int,
{
    if spec_at_end(toks, i) {
        true
    } else {
        let (n, j) = spec_expression(toks, i);
        let j2 = if i < j <= toks.len() {
            j
        } else {
            i + 1
        };
        expr_closed(toks, i) && top_closed(toks, j2)
    }
}

/// A well-bracketed source: every open bracket in it finds its close.
pub open spec fn well_bracketed(s: Seq<char>) -> bool {
    top_closed(spec_tokens(s), 0)
}

/// The expression at `i`, rebuilt, is exactly the lexemes of the tokens
/// it consumed, provided all its loops found their closing bracket.
proof fn lemma_expr_recon(toks: Seq<Token>, i: int)
    requires
        classified(toks),
        !spec_at_end(toks, i),
        expr_closed(toks, i),
    ensures
        ({
            let (n, j) = spec_expression(toks, i);
            i < j <= toks.len() && recon_node(n) == lexemes(toks.subrange(i, j))
        }),
    decreases toks.len() - i, 2int,
{
    lemma_expression_bounds(toks, i);
    let t = toks[i];
    let (n, j) = spec_expression(toks, i);
    if t.kind == TokenType::LoopStart {
        lemma_body_bounds(toks, i + 1);
        let (body, jb) = spec_body(toks, i + 1);
        lemma_body_recon(toks, i + 1);
        assert(!spec_at_end(toks, jb));
        assert(toks[jb].kind == TokenType::LoopEnd);
        assert(j == jb + 1);
        assert(t.lexeme == '[');
        assert(toks[jb].lexeme == ']');
        assert(recon_node(n) == seq!['['] + recon_nodes(body) + seq![']']);
        assert(recon_nodes(body) == lexemes(toks.subrange(i + 1, jb)));
        assert(recon_node(n) =~= lexemes(toks.subrange(i, j)));
    } else {
        assert(n.body is None);
        assert(recon_node(n) == seq![n.token.lexeme]);
        assert(recon_node(n) =~= lexemes(toks.subrange(i, i + 1)));
    }
}

/// A body scan from `i`, rebuilt, is exactly the lexemes of the tokens
/// it consumed, provided all its loops found their closing bracket.
proof fn lemma_body_recon(toks: Seq<Token>, i: int)
    requires
        classified(toks),
        0 <= i <= toks.len(),
        body_closed(toks, i),
    ensures
        ({
            let (ns, j) = spec_body(toks, i);
            i <= j <= toks.len() && recon_nodes(ns) == lexemes(toks.subrange(i, j))
        }),
    decreases toks.len() - i, 3int,
{
    lemma_body_bounds(toks, i);
    if spec_at_end(toks, i) || toks[i].kind == TokenType::LoopEnd {
        assert(recon_nodes(spec_body(toks, i).0) =~= lexemes(toks.subrange(i, i)));
    } else {
        let (n, j) = spec_expression(toks, i);
        lemma_expression_bounds(toks, i);
        lemma_expr_recon(toks, i);
        lemma_body_recon(toks, j);
        let (rest, k) = spec_body(toks, j);
        let ns = spec_body(toks, i).0;
        assert(ns == seq![n] + rest);
        assert(ns.len() > 0 && ns[0] == n);
        assert(ns.drop_first() =~= rest);
        assert(recon_nodes(ns) == recon_node(n) + recon_nodes(rest));
        assert(recon_node(n) + recon_nodes(rest) =~= lexemes(toks.subrange(i, k)));
    }
}

/// Law: parsing a well-bracketed source — tokens as the lexer yields
/// them — and rebuilding the source from the tree reproduces the source
/// exactly, and the parse of any suffix reproduces that suffix.
pub proof fn lemma_parse_round_trip_from(s: Seq<char>, i: int)
    requires
        0 <= i <= s.len(),
        top_closed(spec_tokens(s), i),
    ensures
        recon_nodes(spec_top(spec_tokens(s), i)) == s.subrange(i, s.len() as int),
    decreases s.len() - i,
{
    let toks = spec_tokens(s);
    assert forall|k: int| 0 <= k < toks.len() implies (#[trigger] toks[k].kind == TokenType::EOF
        || toks[k].kind == classify(toks[k].lexeme)) by {
        if k < s.len() {
            assert(toks[k].kind == classify(s[k]) && toks[k].lexeme == s[k]);
        }
    }
    assert(classified(toks));
    if i < s.len() {
        assert(toks[i].kind == classify(s[i]));
        assert(toks[i].kind != TokenType::EOF);
        assert(!spec_at_end(toks, i));
        let (n, j) = spec_expression(toks, i);
        lemma_expression_bounds(toks, i);
        lemma_expr_recon(toks, i);
        assert(j <= s.len()) by {
            if j > s.len() {
                assert(toks[j - 1].kind == TokenType::EOF);
            }
        }
        lemma_parse_round_trip_from(s, j);
        let ns = spec_top(toks, i);
        assert(ns == seq![n] + spec_top(toks, j));
        assert(ns.len() > 0 && ns[0] == n);
        assert(ns.drop_first() =~= spec_top(toks, j));
        assert(recon_nodes(ns) == recon_node(n) + recon_nodes(spec_top(toks, j)));
        assert(lexemes(toks.subrange(i, j)) =~= s.subrange(i, j));
        assert(recon_node(n) + recon_nodes(spec_top(toks, j)) =~= s.subrange(i, s.len() as int));
    } else {
        assert(spec_at_end(toks, i));
        assert(recon_nodes(spec_top(toks, i)) =~= s.subrange(i, s.len() as int));
    }
}

/// Law: tokenizing a well-bracketed source, parsing the tokens, and
/// rebuilding the source from the tree — each leaf by its lexeme, each
/// loop body wrapped in one bracket pair — is the identity on the
/// source.
pub proof fn lemma_parse_round_trip(s: Seq<char>)
    requires
        well_bracketed(s),
    ensures
        recon_nodes(spec_parse(spec_tokens(s))) == s,
{
    lemma_parse_round_trip_from(s, 0);
    assert(s.subrange(0, s.len() as int) =~= s);
}

/// Law: in a source scanned by the lexer, the loop node parsed at an
/// open bracket whose loops all found their close rebuilds — its body
/// wrapped in one matching bracket pair — exactly the bracketed
/// substring of the source, brackets included.
pub proof fn lemma_loop_node_round_trip(s: Seq<char>, i: int)
    requires
        0 <= i < s.len(),
        s[i] == '[',
        expr_closed(spec_tokens(s), i),
    ensures
        ({
            let (n, j) = spec_expression(spec_tokens(s), i);
            &&& n.kind == NodeType::LoopStart
            &&& i < j <= s.len()
            &&& seq!['['] + recon_nodes(body_of(n)) + seq![']'] == s.subrange(i, j)
        }),
{
    let toks = spec_tokens(s);
    assert forall|k: int| 0 <= k < toks.len() implies (#[trigger] toks[k].kind == TokenType::EOF
        || toks[k].kind == classify(toks[k].lexeme)) by {
        if k < s.len() {
            assert(toks[k].kind == classify(s[k]) && toks[k].lexeme == s[k]);
        }
    }
    assert(classified(toks));
    assert(toks[i].kind == classify(s[i]) && classify(s[i]) == TokenType::LoopStart);
    assert(!spec_at_end(toks, i));
    let (n, j) = spec_expression(toks, i);
    lemma_expr_recon(toks, i);
    lemma_body_bounds(toks, i + 1);
    let jb = spec_body(toks, i + 1).1;
    assert(!spec_at_end(toks, jb));
    assert(jb < toks.len() && j == jb + 1);
    assert(j <= s.len()) by {
        if j > s.len() {
            assert(toks[jb].kind == TokenType::EOF);
        }
    }
    assert(n.body is Some && body_of(n) == spec_body(toks, i + 1).0);
    assert(recon_node(n) == seq!['['] + recon_nodes(body_of(n)) + seq![']']);
    assert(lexemes(toks.subrange(i, j)) =~= s.subrange(i, j));
}

} // verus!
