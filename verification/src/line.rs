//! The per-line parsing state machine and the value builder.
//!
//! A line's tokens drive a small state object: an ordered list of
//! accumulating fields (the first of which is later split off as the key),
//! a flag that records a pending escape, and a flag that records that a
//! comment was seen.  Once the line is exhausted the state resolves to
//! either "skip" or one key/value entry.

use vstd::prelude::*;

use crate::token::{tokenize, tokens_of, Token, DEFAULT_SEPARATOR};
use crate::types::{push_char, seq_views, SuperItem, SuperValue, ValueModel};

verus! {

/// Mathematical model of the state carried across a line's tokens.
#[verifier::ext_equal]
pub struct LineState {
    /// The accumulating fields; the first is the future key, the last is the
    /// field characters are currently appended to.
    pub fields: Seq<Seq<char>>,
    /// True when an escape is pending: the next separator is taken
    /// literally.
    pub ignore_special: bool,
    /// True once a comment token was seen; the line produces no output.
    pub is_comment: bool,
}

/// The state a line starts in: one empty field, no pending escape, no
/// comment.
pub open spec fn initial_state() -> LineState {
    LineState { fields: seq![Seq::<char>::empty()], ignore_special: false, is_comment: false }
}

/// One transition of the state machine.  After a comment every further token
/// is ignored.  A backslash flips the pending escape.  An escaped separator
/// is appended literally to the current field; an unescaped one begins a new
/// field unless the current field is still empty (consecutive separators
/// collapse).  An ordinary character clears the pending escape and is
/// appended to the current field: a backslash before anything but the
/// separator leaves no trace in the output.
pub open spec fn line_step(st: LineState, t: Token, separator: char) -> LineState {
    if st.is_comment {
        st
    } else {
        match t {
            Token::Comment => LineState { is_comment: true, ..st },
            Token::Backslash => LineState { ignore_special: !st.ignore_special, ..st },
            Token::Separator => {
                if st.ignore_special {
                    LineState {
                        fields: st.fields.update(
                            st.fields.len() - 1,
                            st.fields.last().push(separator),
                        ),
                        ignore_special: false,
                        ..st
                    }
                } else if st.fields.last().len() > 0 {
                    LineState { fields: st.fields.push(Seq::<char>::empty()), ..st }
                } else {
                    st
                }
            },
            Token::Character(c) => LineState {
                fields: st.fields.update(st.fields.len() - 1, st.fields.last().push(c)),
                ignore_special: false,
                ..st
            },
        }
    }
}

/// The state after running a whole token sequence from `st`.
pub open spec fn run_tokens(st: LineState, tokens: Seq<Token>, separator: char) -> LineState
    decreases tokens.len(),
{
    if tokens.len() == 0 {
        st
    } else {
        run_tokens(line_step(st, tokens[0], separator), tokens.drop_first(), separator)
    }
}

/// The state after lexing and running a whole line.
pub open spec fn run_line(line: Seq<char>, separator: char) -> LineState {
    run_tokens(initial_state(), tokens_of(line, separator), separator)
}

/// The value built from the fields that remain once the key is split off:
/// no field means no value (the line is a bare key and is skipped), one
/// field is a `Single`, two or more are a `List`.
///
/// A bare key is where the format once advertised nested key groups; no such
/// nesting is realized, and the line is skipped silently rather than
/// rejected, so that the flat behaviour is kept exactly.
pub open spec fn value_of_fields(rest: Seq<Seq<char>>) -> Option<ValueModel> {
    if rest.len() == 0 {
        None
    } else if rest.len() == 1 {
        Some(ValueModel::Single(rest[0]))
    } else {
        Some(ValueModel::List(rest))
    }
}

/// What a line contributes to the document: nothing, or one entry.
#[verifier::ext_equal]
pub enum LineOutcome {
    /// The line was a comment, blank, or a bare key: it contributes no entry
    /// and no error.
    Skip,
    /// The line contributes one key/value entry.
    Entry { key: Seq<char>, value: ValueModel },
}

/// Resolves a finished state: a commented line is skipped whole, whatever
/// was accumulated before the comment; otherwise the first field is the key
/// and the remaining fields form the value.
pub open spec fn resolve_state(st: LineState) -> LineOutcome {
    if st.is_comment {
        LineOutcome::Skip
    } else {
        match value_of_fields(st.fields.drop_first()) {
            Option::None => LineOutcome::Skip,
            Option::Some(v) => LineOutcome::Entry { key: st.fields[0], value: v },
        }
    }
}

/// What a whole line contributes to the document.
pub open spec fn line_outcome(line: Seq<char>, separator: char) -> LineOutcome {
    resolve_state(run_line(line, separator))
}

/// The outcome a parsed line reports, as a model.
pub open spec fn outcome_view(outcome: Option<SuperItem>) -> LineOutcome {
    match outcome {
        Option::None => LineOutcome::Skip,
        Option::Some(item) => LineOutcome::Entry { key: item.key@, value: item.value@ },
    }
}

/// The model of an optional value.
pub open spec fn value_option_view(value: Option<SuperValue>) -> Option<ValueModel> {
    match value {
        Option::None => Option::None,
        Option::Some(v) => Option::Some(v@),
    }
}

/// The value builder: turns the fields that followed the key into the value
/// shape, or into "no value" when no field followed.
pub fn build_value(fields: Vec<String>) -> (value: Option<SuperValue>)
    ensures
        value_option_view(value) == value_of_fields(seq_views(fields@)),
{
    if fields.len() == 0 {
        Option::None
    } else if fields.len() == 1 {
        let mut fields = fields;
        let only = fields.pop().unwrap();
        Option::Some(SuperValue::Single(only))
    } else {
        Option::Some(SuperValue::List(fields))
    }
}

/// The per-line parsing state machine.
pub struct LineParser {
    /// The fields already finished; the future key is the first of them.
    pub done: Vec<String>,
    /// The field characters are currently appended to.
    pub current: String,
    /// True when an escape is pending.
    pub ignore_special: bool,
    /// True once a comment token was seen.
    pub is_comment: bool,
    /// The active separator character.
    pub separator: char,
}

impl LineParser {
    /// The state machine state this parser holds: the finished fields
    /// followed by the one still accumulating.
    pub open spec fn state(&self) -> LineState {
        LineState {
            fields: seq_views(self.done@).push(self.current@),
            ignore_special: self.ignore_special,
            is_comment: self.is_comment,
        }
    }

    /// A fresh parser for one line, in the initial state.
    pub fn new(separator: char) -> (parser: LineParser)
        ensures
            parser.state() == initial_state(),
            parser.separator == separator,
    {
        let parser = LineParser {
            done: Vec::new(),
            current: String::new(),
            ignore_special: false,
            is_comment: false,
            separator,
        };
        assert(parser.state().fields =~~= initial_state().fields);
        assert(parser.state() =~~= initial_state());
        parser
    }

    /// Feeds one token to the state machine.
    pub fn step(&mut self, t: Token)
        ensures
            final(self).state() == line_step(old(self).state(), t, old(self).separator),
            final(self).separator == old(self).separator,
    {
        if self.is_comment {
            return ;
        }
        match t {
            Token::Comment => {
                self.is_comment = true;
            },
            Token::Backslash => {
                self.ignore_special = !self.ignore_special;
            },
            Token::Separator => {
                if self.ignore_special {
                    push_char(&mut self.current, self.separator);
                    self.ignore_special = false;
                    assert(self.state().fields =~~= line_step(
                        old(self).state(),
                        t,
                        old(self).separator,
                    ).fields);
                } else if !self.current.as_str().is_empty() {
                    let finished = self.current.clone();
                    self.done.push(finished);
                    self.current = String::new();
                    proof {
                        crate::types::lemma_seq_views_push(old(self).done@, old(self).current);
                    }
                    assert(self.state().fields =~~= line_step(
                        old(self).state(),
                        t,
                        old(self).separator,
                    ).fields);
                }
            },
            Token::Character(c) => {
                push_char(&mut self.current, c);
                self.ignore_special = false;
                assert(self.state().fields =~~= line_step(
                    old(self).state(),
                    t,
                    old(self).separator,
                ).fields);
            },
        }
        assert(self.state() =~~= line_step(old(self).state(), t, old(self).separator));
    }

    /// Resolves the finished line: `None` for a skipped line (comment or
    /// bare key), otherwise the entry it contributes.
    pub fn finish(self) -> (outcome: Option<SuperItem>)
        ensures
            outcome_view(outcome) == resolve_state(self.state()),
    {
        if self.is_comment {
            return Option::None;
        }
        let mut fields = self.done;
        if fields.len() == 0 {
            // The whole line was one field: a bare key with no value.
            return Option::None;
        }
        let key = fields.remove(0);
        let mut rest = fields;
        rest.push(self.current);
        proof {
            crate::types::lemma_seq_views_push(self.done@.remove(0), self.current);
            assert(seq_views(rest@) =~~= self.state().fields.drop_first());
        }
        match build_value(rest) {
            Option::None => Option::None,
            Option::Some(value) => Option::Some(SuperItem { key, value }),
        }
    }
}

impl SuperItem {
    /// Parses one record with an explicit separator: `None` when the line is
    /// skipped (comment, blank, or bare key), otherwise its key/value entry.
    pub fn parse_with_separator(line: &str, separator: char) -> (outcome: Option<SuperItem>)
        ensures
            outcome_view(outcome) == line_outcome(line@, separator),
    {
        let tokens = tokenize(line, separator);
        let mut parser = LineParser::new(separator);
        let mut i: usize = 0;
        assert(tokens@.skip(0) =~= tokens@);
        while i < tokens.len()
            invariant
                i <= tokens@.len(),
                parser.separator == separator,
                run_tokens(parser.state(), tokens@.skip(i as int), separator) == run_tokens(
                    initial_state(),
                    tokens@,
                    separator,
                ),
            decreases tokens@.len() - i,
        {
            let ghost pre = parser.state();
            let t = tokens[i];
            parser.step(t);
            proof {
                assert(tokens@.skip(i as int)[0] == tokens@[i as int]);
                assert(tokens@.skip(i as int).drop_first() =~= tokens@.skip(i as int + 1));
                assert(run_tokens(pre, tokens@.skip(i as int), separator) == run_tokens(
                    line_step(pre, tokens@[i as int], separator),
                    tokens@.skip(i as int + 1),
                    separator,
                ));
            }
            i = i + 1;
        }
        assert(tokens@.skip(tokens@.len() as int) =~= Seq::<Token>::empty());
        assert(parser.state() == run_line(line@, separator));
        parser.finish()
    }

    /// Parses one record with the default separator (space).
    pub fn parse(line: &str) -> (outcome: Option<SuperItem>)
        ensures
            outcome_view(outcome) == line_outcome(line@, DEFAULT_SEPARATOR),
    {
        SuperItem::parse_with_separator(line, DEFAULT_SEPARATOR)
    }
}

} // verus!
