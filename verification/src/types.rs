//! The data types of the library and their mathematical models.

use vstd::prelude::*;

verus! {

/// Relies on `String::push`: appends the given character to the end of the
/// string.
#[verifier::external_body]
pub(crate) fn push_char(s: &mut String, c: char)
    ensures
        final(s)@ == old(s)@.push(c),
{
    s.push(c);
}

/// The character sequences of a sequence of strings.
pub open spec fn seq_views(strings: Seq<String>) -> Seq<Seq<char>> {
    strings.map_values(|s: String| s@)
}

/// Appending a string to a sequence of strings appends its characters to the
/// sequence of views.
pub proof fn lemma_seq_views_push(strings: Seq<String>, s: String)
    ensures
        seq_views(strings.push(s)) == seq_views(strings).push(s@),
{
    assert(seq_views(strings.push(s)) =~= seq_views(strings).push(s@));
}

/// Mathematical model of a parsed value.
#[verifier::ext_equal]
pub enum ValueModel {
    Single(Seq<char>),
    List(Seq<Seq<char>>),
}

/// A value stored under a key: `Single` when exactly one field followed the
/// key on its line, `List` when two or more fields followed.
#[derive(Debug, Clone, PartialEq, Eq)]
pub enum SuperValue {
    Single(String),
    List(Vec<String>),
}

impl View for SuperValue {
    type V = ValueModel;

    open spec fn view(&self) -> ValueModel {
        match self {
            SuperValue::Single(s) => ValueModel::Single(s@),
            SuperValue::List(fields) => ValueModel::List(seq_views(fields@)),
        }
    }
}

/// Mathematical model of one key/value entry.
#[verifier::ext_equal]
pub struct ItemModel {
    pub key: Seq<char>,
    pub value: ValueModel,
}

/// One key/value entry of a parsed document.
#[derive(Debug, Clone, PartialEq, Eq)]
pub struct SuperItem {
    pub key: String,
    pub value: SuperValue,
}

impl View for SuperItem {
    type V = ItemModel;

    open spec fn view(&self) -> ItemModel {
        ItemModel { key: self.key@, value: self.value@ }
    }
}

/// Mathematical model of a parse error.
#[verifier::ext_equal]
pub enum ErrorModel {
    /// A record without a key was rejected (reserved, never raised under the
    /// line-skip policy: such records are silently skipped).
    NoKey,
    /// A record without a value was rejected (reserved, never raised under
    /// the line-skip policy: such records are silently skipped).
    NoValue,
    /// A key was declared twice; carries the value already stored under it.
    ElementExists(ValueModel),
    /// Reading the input text failed; carries a description of the failure.
    IOError(Seq<char>),
}

/// The errors a parse can end with.
///
/// `NoKey` and `NoValue` are reserved kinds kept for compatibility with a
/// stricter validation mode; the canonical line-skip policy never raises
/// them.  `IOError` is only produced by file-reading callers outside this
/// library.
#[derive(Debug, Clone, PartialEq, Eq)]
pub enum SuperError {
    NoKey,
    NoValue,
    ElementExists(SuperValue),
    IOError(String),
}

impl View for SuperError {
    type V = ErrorModel;

    open spec fn view(&self) -> ErrorModel {
        match self {
            SuperError::NoKey => ErrorModel::NoKey,
            SuperError::NoValue => ErrorModel::NoValue,
            SuperError::ElementExists(prev) => ErrorModel::ElementExists(prev@),
            SuperError::IOError(cause) => ErrorModel::IOError(cause@),
        }
    }
}

} // verus!
