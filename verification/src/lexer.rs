//! Lexical scan: classify every character of the source by position into
//! a token, in one left-to-right pass, and append a synthetic end marker.
//!
//! Unrecognized characters are treated as comments (kind `Ignore`), never
//! a scan error, so the scan is total.

use vstd::prelude::*;

verus! {

broadcast use vstd::group_vstd_default;

/// The classification of one scanned character.
#[derive(Clone, Copy, Debug, PartialEq, Eq, Structural)]
pub enum TokenType {
    IncrementPointer,
    DecrementPointer,
    IncrementValue,
    DecrementValue,
    Output,
    Input,
    LoopStart,
    LoopEnd,
    WhiteSpace,
    Ignore,
    EOF,
}

/// One classified character: its 1-based position in the source, its
/// kind, and the character itself. The synthetic end marker has kind
/// `EOF`, the null character as lexeme, and position `length + 1`.
#[derive(Clone, Copy, Debug, PartialEq, Eq, Structural)]
pub struct Token {
    pub pos: usize,
    pub kind: TokenType,
    pub lexeme: char,
}

/// The classification table: the eight instruction characters, space as
/// whitespace, and everything else as a comment.
pub open spec fn classify(c: char) -> TokenType {
    if c == '>' {
        TokenType::IncrementPointer
    } else if c == '<' {
        TokenType::DecrementPointer
    } else if c == '+' {
        TokenType::IncrementValue
    } else if c == '-' {
        TokenType::DecrementValue
    } else if c == '.' {
        TokenType::Output
    } else if c == ',' {
        TokenType::Input
    } else if c == '[' {
        TokenType::LoopStart
    } else if c == ']' {
        TokenType::LoopEnd
    } else if c == ' ' {
        TokenType::WhiteSpace
    } else {
        TokenType::Ignore
    }
}

/// The position of the end marker: one past the source length. A source
/// can never fill the whole address space, so the wrap to zero is only
/// there to keep the function total.
pub open spec fn end_pos(len: nat) -> usize {
    if len + 1 <= usize::MAX {
        (len + 1) as usize
    } else {
        0
    }
}

/// The token the scan yields at position `i` of a source: a classified
/// character while `i` is within the source, the synthetic end marker at
/// the position just past it.
pub open spec fn token_at(s: Seq<char>, i: int) -> Token {
    if i < s.len() {
        Token { pos: (i + 1) as usize, kind: classify(s[i]), lexeme: s[i] }
    } else {
        Token { pos: end_pos(s.len()), kind: TokenType::EOF, lexeme: '\0' }
    }
}

/// The token stream for a source: one token per character, in order,
/// followed by the synthetic end marker.
pub open spec fn spec_tokens(s: Seq<char>) -> Seq<Token> {
    Seq::new(s.len() + 1, |i: int| token_at(s, i))
}

/// The lexemes of a token sequence, in order.
pub open spec fn lexemes(tokens: Seq<Token>) -> Seq<char> {
    tokens.map(|i: int, t: Token| t.lexeme)
}

/// Law: for any source, the scan yields exactly one token per character
/// plus the end marker, and concatenating the lexemes of every token
/// before the end marker, in order, reproduces the source exactly. So
/// tokenizing and then reconstructing lexemes is the identity on the
/// source string.
pub proof fn lemma_tokens_round_trip(s: Seq<char>)
    ensures
        spec_tokens(s).len() == s.len() + 1,
        spec_tokens(s).last().kind == TokenType::EOF,
        lexemes(spec_tokens(s).drop_last()) == s,
{
    assert(lexemes(spec_tokens(s).drop_last()) =~= s);
}

/// The lexer holds the source string it scans.
pub struct Lexer<'a> {
    pub input: &'a str,
}

impl<'a> Lexer<'a> {
    /// Wraps a source string for scanning.
    pub fn new(input: &str) -> (r: Lexer<'_>)
        ensures
            r.input@ == input@,
    {
        Lexer { input }
    }

    /// Scans the whole source: one token per character, each carrying its
    /// 1-based position, its classification and the character itself,
    /// followed by the synthetic end marker.
    pub fn tokenize(&mut self) -> (tokens: Vec<Token>)
        ensures
            *final(self) == *old(self),
            tokens@ == spec_tokens(old(self).input@),
    {
        let n = self.input.unicode_len();
        let mut tokens: Vec<Token> = Vec::new();
        let mut i: usize = 0;
        while i < n
            invariant
                *self == *old(self),
                n == self.input@.len(),
                i <= n,
                tokens@.len() == i,
                forall|j: int| 0 <= j < i ==> tokens@[j] == spec_tokens(self.input@)[j],
            decreases n - i,
        {
            let c = self.input.get_char(i);
            let kind = classify_char(c);
            tokens.push(Token { pos: i + 1, kind, lexeme: c });
            i += 1;
        }
        tokens.push(Token { pos: n.wrapping_add(1), kind: TokenType::EOF, lexeme: '\0' });
        proof {
            assert(n.wrapping_add(1) == end_pos(self.input@.len()));
            assert(tokens@ =~= spec_tokens(self.input@));
        }
        tokens
    }
}

/// Classifies one character, following the classification table.
fn classify_char(c: char) -> (kind: TokenType)
    ensures
        kind == classify(c),
{
    if c == '>' {
        TokenType::IncrementPointer
    } else if c == '<' {
        TokenType::DecrementPointer
    } else if c == '+' {
        TokenType::IncrementValue
    } else if c == '-' {
        TokenType::DecrementValue
    } else if c == '.' {
        TokenType::Output
    } else if c == ',' {
        TokenType::Input
    } else if c == '[' {
        TokenType::LoopStart
    } else if c == ']' {
        TokenType::LoopEnd
    } else if c == ' ' {
        TokenType::WhiteSpace
    } else {
        TokenType::Ignore
    }
}

} // verus!
