//! The lexer: classifies each character of a line into a token.

use vstd::prelude::*;

verus! {

/// The character that starts a comment.  A comment discards its whole line
/// and cannot be escaped.
pub const COMMENT_MARK: char = '#';

/// The character that escapes the separator.  It only has an effect
/// immediately before the active separator; elsewhere it is consumed without
/// producing output.
pub const ESCAPE_MARK: char = '\\';

/// The separator used by the default entry points.
pub const DEFAULT_SEPARATOR: char = ' ';

/// The classification of one character of a line.
#[derive(Debug, Clone, Copy, PartialEq, Eq)]
pub enum Token {
    /// An ordinary character that goes into the current field.
    Character(char),
    /// The active separator character.
    Separator,
    /// The escape character.
    Backslash,
    /// The comment marker.
    Comment,
}

/// How a character is classified, in priority order: the active separator
/// first, then the comment marker, then the escape character, and every
/// other character stands for itself.
pub open spec fn classify(c: char, separator: char) -> Token {
    if c == separator {
        Token::Separator
    } else if c == COMMENT_MARK {
        Token::Comment
    } else if c == ESCAPE_MARK {
        Token::Backslash
    } else {
        Token::Character(c)
    }
}

/// Classifies one character.
pub fn classify_char(c: char, separator: char) -> (t: Token)
    ensures
        t == classify(c, separator),
{
    if c == separator {
        Token::Separator
    } else if c == '#' {
        Token::Comment
    } else if c == '\\' {
        Token::Backslash
    } else {
        Token::Character(c)
    }
}

/// The token sequence of a whole line: one token per character, in order.
pub open spec fn tokens_of(line: Seq<char>, separator: char) -> Seq<Token> {
    line.map_values(|c: char| classify(c, separator))
}

/// Lexes a line: produces one token per character, preserving order.
/// Classification is total; no input is rejected.
pub fn tokenize(line: &str, separator: char) -> (tokens: Vec<Token>)
    ensures
        tokens@ == tokens_of(line@, separator),
{
    let n = line.unicode_len();
    let mut tokens: Vec<Token> = Vec::new();
    let mut i: usize = 0;
    while i < n
        invariant
            n == line@.len(),
            i <= n,
            tokens@.len() == i,
            forall|j: int| 0 <= j < i ==> tokens@[j] == classify(line@[j], separator),
        decreases n - i,
    {
        let t = classify_char(line.get_char(i), separator);
        tokens.push(t);
        i = i + 1;
    }
    assert(tokens@ =~= tokens_of(line@, separator));
    tokens
}

} // verus!
