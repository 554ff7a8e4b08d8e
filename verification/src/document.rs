//! The document assembler: splits the input into lines, runs the
//! lexer and the line parser over each, and builds the key/value mapping,
//! failing fast on a duplicate key.

use vstd::prelude::*;

use crate::line::{line_outcome, outcome_view, LineOutcome};
use crate::token::DEFAULT_SEPARATOR;
use crate::types::{
    push_char, seq_views, ErrorModel, ItemModel, SuperError, SuperItem, SuperValue, ValueModel,
};

verus! {

/// The models of a sequence of entries.
pub open spec fn items_model(items: Seq<SuperItem>) -> Seq<ItemModel> {
    items.map_values(|item: SuperItem| item@)
}

/// Appending an entry to a sequence of entries appends its model to the
/// sequence of models.
pub proof fn lemma_items_model_push(items: Seq<SuperItem>, item: SuperItem)
    ensures
        items_model(items.push(item)) == items_model(items).push(item@),
{
    assert(items_model(items.push(item)) =~= items_model(items).push(item@));
}

/// The lines of a text, split on the newline character exactly as the
/// splitting primitive does it: a text with `n` newlines has `n + 1` lines,
/// so a trailing newline produces one empty trailing line.
pub open spec fn split_lines(text: Seq<char>) -> Seq<Seq<char>>
    decreases text.len(),
{
    if text.len() == 0 {
        seq![Seq::<char>::empty()]
    } else if text[0] == '\n' {
        seq![Seq::<char>::empty()] + split_lines(text.drop_first())
    } else {
        let rest = split_lines(text.drop_first());
        seq![seq![text[0]] + rest[0]] + rest.drop_first()
    }
}

/// A split always has at least one line.
pub proof fn lemma_split_lines_nonempty(text: Seq<char>)
    ensures
        split_lines(text).len() >= 1,
    decreases text.len(),
{
    if text.len() == 0 {
    } else {
        lemma_split_lines_nonempty(text.drop_first());
    }
}

/// The lines with the first of them extended on the left by a prefix.
pub open spec fn prepend_first(prefix: Seq<char>, lines: Seq<Seq<char>>) -> Seq<Seq<char>> {
    seq![prefix + lines[0]] + lines.drop_first()
}

/// Splits a text into its lines.
pub fn split_input(text: &str) -> (lines: Vec<String>)
    ensures
        seq_views(lines@) == split_lines(text@),
{
    let n = text.unicode_len();
    let mut lines: Vec<String> = Vec::new();
    let mut current = String::new();
    let mut i: usize = 0;
    proof {
        lemma_split_lines_nonempty(text@);
        assert(text@.skip(0) =~= text@);
        assert(prepend_first(current@, split_lines(text@)) =~~= split_lines(text@));
        assert(seq_views(lines@) + split_lines(text@) =~~= split_lines(text@));
    }
    while i < n
        invariant
            n == text@.len(),
            i <= n,
            split_lines(text@) == seq_views(lines@) + prepend_first(
                current@,
                split_lines(text@.skip(i as int)),
            ),
        decreases n - i,
    {
        let ghost done = seq_views(lines@);
        let ghost cur = current@;
        let ghost rest = split_lines(text@.skip(i as int + 1));
        proof {
            lemma_split_lines_nonempty(text@.skip(i as int + 1));
            assert(text@.skip(i as int).drop_first() =~= text@.skip(i as int + 1));
        }
        let c = text.get_char(i);
        if c == '\n' {
            let finished = current.clone();
            lines.push(finished);
            current = String::new();
            proof {
                crate::types::lemma_seq_views_push(lines@.drop_last(), lines@.last());
                assert(lines@.drop_last().push(lines@.last()) =~= lines@);
                assert(split_lines(text@.skip(i as int)) == seq![Seq::<char>::empty()] + rest);
                assert(prepend_first(cur, split_lines(text@.skip(i as int))) =~~= seq![cur]
                    + rest);
                assert(prepend_first(Seq::<char>::empty(), rest) =~~= rest);
                assert(seq_views(lines@) + prepend_first(current@, rest) =~~= done + (seq![cur]
                    + rest));
            }
        } else {
            push_char(&mut current, c);
            proof {
                assert(split_lines(text@.skip(i as int)) == seq![seq![c] + rest[0]]
                    + rest.drop_first());
                assert(prepend_first(cur, split_lines(text@.skip(i as int))) =~~= seq![cur.push(c)
                    + rest[0]] + rest.drop_first());
                assert(prepend_first(current@, rest) =~~= seq![cur.push(c) + rest[0]]
                    + rest.drop_first());
            }
        }
        i = i + 1;
    }
    proof {
        assert(text@.skip(n as int) =~= Seq::<char>::empty());
        assert(prepend_first(current@, split_lines(text@.skip(n as int))) =~~= seq![current@]);
    }
    lines.push(current);
    proof {
        crate::types::lemma_seq_views_push(lines@.drop_last(), lines@.last());
        assert(lines@.drop_last().push(lines@.last()) =~= lines@);
        assert(seq_views(lines@) =~~= split_lines(text@));
    }
    lines
}

/// The value stored under a key, looking from the front: `None` when the key
/// is absent.
pub open spec fn find_key(entries: Seq<ItemModel>, key: Seq<char>) -> Option<ValueModel>
    decreases entries.len(),
{
    if entries.len() == 0 {
        Option::None
    } else if entries[0].key == key {
        Option::Some(entries[0].value)
    } else {
        find_key(entries.drop_first(), key)
    }
}

/// A key is absent exactly when no entry carries it.
pub proof fn lemma_find_key_none(entries: Seq<ItemModel>, key: Seq<char>)
    ensures
        find_key(entries, key) is None <==> forall|i: int|
            0 <= i < entries.len() ==> entries[i].key != key,
    decreases entries.len(),
{
    if entries.len() == 0 {
    } else if entries[0].key == key {
        assert(entries[0].key == key);
    } else {
        lemma_find_key_none(entries.drop_first(), key);
        if find_key(entries.drop_first(), key) is None {
            assert forall|i: int| 0 <= i < entries.len() implies entries[i].key != key by {
                if i >= 1 {
                    assert(entries.drop_first()[i - 1] == entries[i]);
                }
            }
        } else {
            let j = choose|j: int|
                0 <= j < entries.drop_first().len() && entries.drop_first()[j].key == key;
            assert(entries.drop_first()[j] == entries[j + 1]);
        }
    }
}

/// Runs the line pipeline over the given lines, inserting each entry into
/// the accumulated document and failing fast on a duplicate key with the
/// value already stored under it.
pub open spec fn assemble(
    acc: Seq<ItemModel>,
    lines: Seq<Seq<char>>,
    separator: char,
) -> Result<Seq<ItemModel>, ErrorModel>
    decreases lines.len(),
{
    if lines.len() == 0 {
        Result::Ok(acc)
    } else {
        match line_outcome(lines[0], separator) {
            LineOutcome::Skip => assemble(acc, lines.drop_first(), separator),
            LineOutcome::Entry { key, value } => match find_key(acc, key) {
                Option::Some(previous) => Result::Err(ErrorModel::ElementExists(previous)),
                Option::None => assemble(
                    acc.push(ItemModel { key, value }),
                    lines.drop_first(),
                    separator,
                ),
            },
        }
    }
}

/// What parsing a whole text comes to: the entries of its lines in order,
/// or the first error.
pub open spec fn parse_model(text: Seq<char>, separator: char) -> Result<
    Seq<ItemModel>,
    ErrorModel,
> {
    assemble(Seq::<ItemModel>::empty(), split_lines(text), separator)
}

/// A parsed document: the key/value entries in insertion order, with keys
/// unique.
#[derive(Debug, Clone, PartialEq, Eq)]
pub struct SuperConf {
    pub items: Vec<SuperItem>,
}

impl View for SuperConf {
    type V = Seq<ItemModel>;

    open spec fn view(&self) -> Seq<ItemModel> {
        items_model(self.items@)
    }
}

/// The model of a parse result.
pub open spec fn conf_result_view(result: Result<SuperConf, SuperError>) -> Result<
    Seq<ItemModel>,
    ErrorModel,
> {
    match result {
        Result::Ok(conf) => Result::Ok(conf@),
        Result::Err(e) => Result::Err(e@),
    }
}

impl SuperConf {
    /// A well-formed document maps each key at most once.
    pub open spec fn wf(&self) -> bool {
        forall|i: int, j: int| 0 <= i < j < self@.len() ==> self@[i].key != self@[j].key
    }

    /// Parses a whole text with an explicit separator: the mapping of every
    /// non-skipped line's entry, or `ElementExists` carrying the value
    /// already stored under the first duplicated key.
    pub fn parse_with_separator(input: &str, separator: char) -> (result: Result<
        SuperConf,
        SuperError,
    >)
        ensures
            conf_result_view(result) == parse_model(input@, separator),
            result matches Ok(conf) ==> conf.wf(),
    {
        let lines = split_input(input);
        let mut conf = SuperConf { items: Vec::new() };
        let mut i: usize = 0;
        assert(seq_views(lines@).skip(0) =~= seq_views(lines@));
        assert(conf@ =~= Seq::<ItemModel>::empty());
        while i < lines.len()
            invariant
                i <= lines@.len(),
                parse_model(input@, separator) == assemble(
                    conf@,
                    seq_views(lines@).skip(i as int),
                    separator,
                ),
                seq_views(lines@) == split_lines(input@),
                forall|p: int, q: int| 0 <= p < q < conf@.len() ==> conf@[p].key != conf@[q].key,
            decreases lines@.len() - i,
        {
            let ghost remaining = seq_views(lines@).skip(i as int);
            proof {
                assert(remaining[0] == lines@[i as int]@);
                assert(remaining.drop_first() =~= seq_views(lines@).skip(i as int + 1));
            }
            match SuperItem::parse_with_separator(lines[i].as_str(), separator) {
                Option::None => {},
                Option::Some(item) => {
                    match Self::find_index(&conf.items, &item.key) {
                        Option::Some(at) => {
                            let previous = conf.items.remove(at);
                            return Result::Err(SuperError::ElementExists(previous.value));
                        },
                        Option::None => {
                            proof {
                                lemma_items_model_push(conf.items@, item);
                                lemma_find_key_none(conf@, item.key@);
                            }
                            conf.items.push(item);
                        },
                    }
                },
            }
            i = i + 1;
        }
        assert(seq_views(lines@).skip(lines@.len() as int) =~= Seq::<Seq<char>>::empty());
        Result::Ok(conf)
    }

    /// The value stored under a key, or `None` when the key is absent.
    pub fn get<'a>(&'a self, key: &String) -> (found: Option<&'a SuperValue>)
        ensures
            match found {
                Option::None => find_key(self@, key@) is None,
                Option::Some(value) => find_key(self@, key@) == Option::Some(value@),
            },
    {
        match Self::find_index(&self.items, key) {
            Option::Some(at) => Option::Some(&self.items[at].value),
            Option::None => Option::None,
        }
    }

    /// The position of the entry stored under a key, or `None` when the key
    /// is absent.
    fn find_index(items: &Vec<SuperItem>, key: &String) -> (found: Option<usize>)
        ensures
            match found {
                Option::None => find_key(items_model(items@), key@) is None,
                Option::Some(at) => at < items@.len() && items@[at as int].key@ == key@
                    && find_key(items_model(items@), key@) == Option::Some(
                    items@[at as int].value@,
                ),
            },
    {
        let mut j: usize = 0;
        assert(items_model(items@).skip(0) =~= items_model(items@));
        while j < items.len()
            invariant
                j <= items@.len(),
                find_key(items_model(items@), key@) == find_key(
                    items_model(items@).skip(j as int),
                    key@,
                ),
            decreases items@.len() - j,
        {
            let ghost remaining = items_model(items@).skip(j as int);
            proof {
                assert(remaining[0] == items@[j as int]@);
                assert(remaining.drop_first() =~= items_model(items@).skip(j as int + 1));
            }
            if items[j].key == *key {
                return Option::Some(j);
            }
            j = j + 1;
        }
        assert(items_model(items@).skip(items@.len() as int) =~= Seq::<ItemModel>::empty());
        Option::None
    }
}

/// Parsing an input text into a structure of the library.
pub trait Parse: Sized {
    /// Parses with the default separator.
    fn parse(input: &str) -> Result<Self, SuperError>;
}

impl Parse for SuperConf {
    /// Parses a whole text with the default separator (space).
    fn parse(input: &str) -> (result: Result<Self, SuperError>)
        ensures
            conf_result_view(result) == parse_model(input@, DEFAULT_SEPARATOR),
            result matches Ok(conf) ==> conf.wf(),
    {
        SuperConf::parse_with_separator(input, DEFAULT_SEPARATOR)
    }
}

} // verus!
