//! Laws the parser obeys, stated over the models and proved once and for
//! all inputs.

use vstd::prelude::*;

use crate::document::{assemble, conf_result_view, parse_model, split_lines, SuperConf};
use crate::line::{
    initial_state, line_outcome, line_step, run_line, run_tokens, LineOutcome, LineState,
};
use crate::token::{classify, tokens_of, Token, COMMENT_MARK, ESCAPE_MARK};
use crate::types::{ErrorModel, ItemModel, SuperError, ValueModel};

verus! {

/// Once a comment token was seen, or is still to come, the line ends in the
/// comment state: nothing that follows a comment token can leave it.
proof fn lemma_run_tokens_comment(st: LineState, tokens: Seq<Token>, separator: char)
    requires
        st.is_comment || exists|i: int| 0 <= i < tokens.len() && tokens[i] is Comment,
    ensures
        run_tokens(st, tokens, separator).is_comment,
    decreases tokens.len(),
{
    if tokens.len() == 0 {
    } else {
        let next = line_step(st, tokens[0], separator);
        if !st.is_comment && !(tokens[0] is Comment) {
            let i = choose|i: int| 0 <= i < tokens.len() && tokens[i] is Comment;
            assert(tokens.drop_first()[i - 1] is Comment);
        }
        lemma_run_tokens_comment(next, tokens.drop_first(), separator);
    }
}

/// Law: a record containing the comment marker anywhere (with a separator
/// other than the marker itself) is discarded whole — it contributes no
/// entry, whatever was accumulated before the marker, and the marker cannot
/// be escaped.
pub proof fn lemma_comment_discards_line(line: Seq<char>, separator: char)
    requires
        separator != COMMENT_MARK,
        exists|i: int| 0 <= i < line.len() && line[i] == COMMENT_MARK,
    ensures
        line_outcome(line, separator) is Skip,
{
    let i = choose|i: int| 0 <= i < line.len() && line[i] == COMMENT_MARK;
    assert(tokens_of(line, separator)[i] == classify(line[i], separator));
    assert(tokens_of(line, separator)[i] is Comment);
    lemma_run_tokens_comment(initial_state(), tokens_of(line, separator), separator);
}

/// Assembling lines that are all skipped adds nothing to the document.
proof fn lemma_assemble_all_skip(acc: Seq<ItemModel>, lines: Seq<Seq<char>>, separator: char)
    requires
        forall|i: int| 0 <= i < lines.len() ==> line_outcome(#[trigger] lines[i], separator) is Skip,
    ensures
        assemble(acc, lines, separator) == Result::<Seq<ItemModel>, ErrorModel>::Ok(acc),
    decreases lines.len(),
{
    if lines.len() > 0 {
        assert forall|i: int|
            0 <= i < lines.drop_first().len() implies line_outcome(
            #[trigger] lines.drop_first()[i],
            separator,
        ) is Skip by {
            assert(lines.drop_first()[i] == lines[i + 1]);
        }
        lemma_assemble_all_skip(acc, lines.drop_first(), separator);
    }
}

/// Law: an input every line of which is skipped — a comment, a blank line,
/// or a bare key — parses to the empty mapping.
pub proof fn lemma_all_lines_skipped_gives_empty(text: Seq<char>, separator: char)
    requires
        forall|i: int|
            0 <= i < split_lines(text).len() ==> line_outcome(
                #[trigger] split_lines(text)[i],
                separator,
            ) is Skip,
    ensures
        parse_model(text, separator) == Result::<Seq<ItemModel>, ErrorModel>::Ok(
            Seq::<ItemModel>::empty(),
        ),
{
    lemma_assemble_all_skip(Seq::<ItemModel>::empty(), split_lines(text), separator);
}

/// Whether some line of the given ones contributes exactly this entry.
pub open spec fn some_line_yields(
    lines: Seq<Seq<char>>,
    separator: char,
    entry: ItemModel,
) -> bool {
    exists|l: int|
        0 <= l < lines.len() && line_outcome(lines[l], separator) == (LineOutcome::Entry {
            key: entry.key,
            value: entry.value,
        })
}

/// A line that contributes an entry among the tail lines also does so among
/// all of them.
proof fn lemma_yields_shift(lines: Seq<Seq<char>>, separator: char, entry: ItemModel)
    requires
        lines.len() > 0,
        some_line_yields(lines.drop_first(), separator, entry),
    ensures
        some_line_yields(lines, separator, entry),
{
    let l = choose|l: int|
        0 <= l < lines.drop_first().len() && line_outcome(lines.drop_first()[l], separator) == (
        LineOutcome::Entry { key: entry.key, value: entry.value });
    assert(lines.drop_first()[l] == lines[l + 1]);
}

/// Every entry of a successfully assembled document was already accumulated
/// or is the outcome of one of the lines.
proof fn lemma_assemble_entries(
    acc: Seq<ItemModel>,
    lines: Seq<Seq<char>>,
    separator: char,
    entries: Seq<ItemModel>,
)
    requires
        assemble(acc, lines, separator) == Result::<Seq<ItemModel>, ErrorModel>::Ok(entries),
    ensures
        forall|k: int|
            0 <= k < entries.len() ==> acc.contains(#[trigger] entries[k]) || some_line_yields(
                lines,
                separator,
                entries[k],
            ),
    decreases lines.len(),
{
    if lines.len() == 0 {
        assert forall|k: int| 0 <= k < entries.len() implies acc.contains(
            #[trigger] entries[k],
        ) by {
            assert(acc[k] == entries[k]);
        }
    } else {
        match line_outcome(lines[0], separator) {
            LineOutcome::Skip => {
                lemma_assemble_entries(acc, lines.drop_first(), separator, entries);
                assert forall|k: int| 0 <= k < entries.len() implies acc.contains(
                    #[trigger] entries[k],
                ) || some_line_yields(lines, separator, entries[k]) by {
                    if !acc.contains(entries[k]) {
                        lemma_yields_shift(lines, separator, entries[k]);
                    }
                }
            },
            LineOutcome::Entry { key, value } => {
                let pushed = ItemModel { key, value };
                lemma_assemble_entries(acc.push(pushed), lines.drop_first(), separator, entries);
                assert forall|k: int| 0 <= k < entries.len() implies acc.contains(
                    #[trigger] entries[k],
                ) || some_line_yields(lines, separator, entries[k]) by {
                    if acc.push(pushed).contains(entries[k]) {
                        let at = choose|at: int|
                            0 <= at < acc.push(pushed).len() && acc.push(pushed)[at] == entries[k];
                        if at < acc.len() {
                            assert(acc[at] == entries[k]);
                        } else {
                            assert(entries[k] == pushed);
                            assert(0 <= 0 < lines.len() && line_outcome(lines[0], separator) == (
                            LineOutcome::Entry { key: pushed.key, value: pushed.value }));
                        }
                    } else if some_line_yields(lines.drop_first(), separator, entries[k]) {
                        lemma_yields_shift(lines, separator, entries[k]);
                    }
                }
            },
        }
    }
}

/// Law: every entry of a successful parse is the outcome of one of the
/// input's lines.  A skipped record — a commented one among them — can
/// contribute no entry to the result.
pub proof fn lemma_entries_come_from_lines(
    text: Seq<char>,
    separator: char,
    entries: Seq<ItemModel>,
)
    requires
        parse_model(text, separator) == Result::<Seq<ItemModel>, ErrorModel>::Ok(entries),
    ensures
        forall|k: int|
            0 <= k < entries.len() ==> some_line_yields(
                split_lines(text),
                separator,
                #[trigger] entries[k],
            ),
{
    lemma_assemble_entries(Seq::<ItemModel>::empty(), split_lines(text), separator, entries);
}

/// No string of the sequence holds the escape character.
pub open spec fn fields_without_escape(fields: Seq<Seq<char>>) -> bool {
    forall|f: int, c: int|
        0 <= f < fields.len() && 0 <= c < fields[f].len() ==> #[trigger] fields[f][c]
            != ESCAPE_MARK
}

/// No string of the value holds the escape character.
pub open spec fn value_without_escape(value: ValueModel) -> bool {
    match value {
        ValueModel::Single(s) => forall|c: int| 0 <= c < s.len() ==> #[trigger] s[c] != ESCAPE_MARK,
        ValueModel::List(fields) => fields_without_escape(fields),
    }
}

/// Appending a character other than the escape character to the last field
/// keeps every field free of it.
proof fn lemma_push_keeps_fields_clean(fields: Seq<Seq<char>>, appended: char)
    requires
        fields.len() >= 1,
        fields_without_escape(fields),
        appended != ESCAPE_MARK,
    ensures
        fields_without_escape(fields.update(fields.len() - 1, fields.last().push(appended))),
{
    let updated = fields.update(fields.len() - 1, fields.last().push(appended));
    assert forall|f: int, c: int|
        0 <= f < updated.len() && 0 <= c < updated[f].len() implies #[trigger] updated[f][c]
        != ESCAPE_MARK by {
        if f == fields.len() - 1 {
            if c < fields.last().len() {
                assert(updated[f][c] == fields[f][c]);
            } else {
                assert(updated[f][c] == appended);
            }
        } else {
            assert(updated[f] == fields[f]);
        }
    }
}

/// One classified character keeps the fields free of the escape character,
/// keeps at least one field, and leaves no escape pending when the separator
/// is the escape character itself.
proof fn lemma_step_keeps_fields_clean(st: LineState, c0: char, separator: char)
    requires
        st.fields.len() >= 1,
        fields_without_escape(st.fields),
        separator == ESCAPE_MARK ==> !st.ignore_special,
    ensures
        line_step(st, classify(c0, separator), separator).fields.len() >= 1,
        fields_without_escape(line_step(st, classify(c0, separator), separator).fields),
        separator == ESCAPE_MARK ==> !line_step(st, classify(c0, separator), separator)
            .ignore_special,
{
    let t = classify(c0, separator);
    let st2 = line_step(st, t, separator);
    if !st.is_comment {
        match t {
            Token::Comment => {},
            Token::Backslash => {},
            Token::Separator => {
                if st.ignore_special {
                    lemma_push_keeps_fields_clean(st.fields, separator);
                } else if st.fields.last().len() > 0 {
                    let grown = st.fields.push(Seq::<char>::empty());
                    assert forall|f: int, c: int|
                        0 <= f < grown.len() && 0 <= c < grown[f].len() implies #[trigger] grown[f][c]
                        != ESCAPE_MARK by {
                        assert(grown[f] == st.fields[f]);
                    }
                }
            },
            Token::Character(appended) => {
                lemma_push_keeps_fields_clean(st.fields, appended);
            },
        }
    }
}

/// Running a whole line keeps the fields free of the escape character.
proof fn lemma_run_line_keeps_fields_clean(st: LineState, line: Seq<char>, separator: char)
    requires
        st.fields.len() >= 1,
        fields_without_escape(st.fields),
        separator == ESCAPE_MARK ==> !st.ignore_special,
    ensures
        run_tokens(st, tokens_of(line, separator), separator).fields.len() >= 1,
        fields_without_escape(run_tokens(st, tokens_of(line, separator), separator).fields),
        separator == ESCAPE_MARK ==> !run_tokens(st, tokens_of(line, separator), separator)
            .ignore_special,
    decreases line.len(),
{
    if line.len() == 0 {
        assert(tokens_of(line, separator).len() == 0);
    } else {
        let t = classify(line[0], separator);
        let st2 = line_step(st, t, separator);
        assert(tokens_of(line, separator)[0] == t);
        assert(tokens_of(line, separator).drop_first() =~= tokens_of(
            line.drop_first(),
            separator,
        ));
        lemma_step_keeps_fields_clean(st, line[0], separator);
        lemma_run_line_keeps_fields_clean(st2, line.drop_first(), separator);
        assert(run_tokens(st, tokens_of(line, separator), separator) == run_tokens(
            st2,
            tokens_of(line.drop_first(), separator),
            separator,
        ));
    }
}

/// Law: the escape character never survives into the output.  Whatever the
/// line and the separator, neither the key nor any value string of a parsed
/// record contains it: escaping only ever inserts the separator, and an
/// escape character before anything else is consumed without a trace.
pub proof fn lemma_escape_never_in_output(line: Seq<char>, separator: char)
    ensures
        line_outcome(line, separator) matches LineOutcome::Entry { key, value } ==> (forall|c: int|
            0 <= c < key.len() ==> #[trigger] key[c] != ESCAPE_MARK) && value_without_escape(value),
{
    assert(fields_without_escape(initial_state().fields)) by {
        assert(forall|f: int| 0 <= f < initial_state().fields.len() ==> initial_state().fields[f]
            == Seq::<char>::empty());
    }
    lemma_run_line_keeps_fields_clean(initial_state(), line, separator);
    let st = run_line(line, separator);
    let rest = st.fields.drop_first();
    assert forall|f: int, c: int|
        0 <= f < rest.len() && 0 <= c < rest[f].len() implies #[trigger] rest[f][c]
        != ESCAPE_MARK by {
        assert(rest[f] == st.fields[f + 1]);
        assert(st.fields[f + 1][c] != ESCAPE_MARK);
    }
    assert forall|c: int| 0 <= c < st.fields[0].len() implies #[trigger] st.fields[0][c]
        != ESCAPE_MARK by {
    }
    if rest.len() == 1 {
        assert forall|c: int| 0 <= c < rest[0].len() implies #[trigger] rest[0][c]
            != ESCAPE_MARK by {
        }
    }
}

/// Law: parsing is deterministic.  The result of a parse is a function of
/// the input text and the separator alone, so two parses of the same text
/// with the same separator are structurally equal: the same keys with the
/// same value strings in the same order, or the same error.
pub proof fn lemma_parse_deterministic(
    first: Result<SuperConf, SuperError>,
    second: Result<SuperConf, SuperError>,
    text: Seq<char>,
    separator: char,
)
    requires
        conf_result_view(first) == parse_model(text, separator),
        conf_result_view(second) == parse_model(text, separator),
    ensures
        conf_result_view(first) == conf_result_view(second),
{
}

} // verus!
