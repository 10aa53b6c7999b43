//! Edits of TOML texts, made by `toml_edit`.

use toml_edit::{Item, Value};
use vstd::prelude::*;

use crate::text::{chars_of, string_view, texts};

verus! {

/// Whether `quote` stands in each place of `s` from `from` up to `to`.
pub open spec fn only_quotes(s: Seq<char>, quote: char, from: int, to: int) -> bool {
    forall|i: int| from <= i < to ==> #[trigger] s[i] == quote
}

/// Whether neither kind of quote stands in `s` more often than 255 times in a row. `toml_edit`
/// counts such quotes in eight bits, and where overflow is checked it panics on a longer run.
pub open spec fn quotable(s: Seq<char>) -> bool {
    forall|quote: char, from: int|
        (quote == '"' || quote == '\'') && 0 <= from <= s.len() - 256 ==> !#[trigger] only_quotes(
            s,
            quote,
            from,
            from + 256,
        )
}

/// Whether `quote` stands in `chars` 256 times in a row, from `from` on.
fn long_run(chars: &Vec<char>, quote: char, from: usize) -> (yes: bool)
    requires
        from + 256 <= chars@.len(),
    ensures
        yes == only_quotes(chars@, quote, from as int, from + 256),
{
    let size: usize = chars.len();
    let mut count: usize = 0;
    while count < 256
        invariant
            count <= 256,
            from + 256 <= size == chars@.len(),
            only_quotes(chars@, quote, from as int, from + count),
        decreases 256 - count,
    {
        if chars[from + count] != quote {
            return false;
        }
        count = count + 1;
    }
    true
}

/// Whether neither kind of quote stands in `s` more often than 255 times in a row.
pub fn is_quotable(s: &str) -> (yes: bool)
    ensures
        yes == quotable(s@),
{
    let chars = chars_of(s);
    if chars.len() < 256 {
        return true;
    }
    let last: usize = chars.len() - 256;
    let mut from: usize = 0;
    while from < last && !long_run(&chars, '"', from) && !long_run(&chars, '\'', from)
        invariant
            chars@ == s@,
            from <= last == chars@.len() - 256,
            forall|quote: char, i: int|
                (quote == '"' || quote == '\'') && 0 <= i < from ==> !#[trigger] only_quotes(
                    s@,
                    quote,
                    i,
                    i + 256,
                ),
        decreases last - from,
    {
        from = from + 1;
    }
    !long_run(&chars, '"', from) && !long_run(&chars, '\'', from)
}

/// What `toml_edit` makes of a text when the key `key` of its root table is set to the string
/// `value`: the new text, or why the text is no TOML.
pub uninterp spec fn toml_with_string(
    text: Seq<char>,
    key: Seq<char>,
    value: Seq<char>,
) -> Result<Seq<char>, Seq<char>>;

/// The string that `toml_edit` finds in a text under the key `key` of its root table; none where
/// the text is no TOML or what is there is no string.
pub uninterp spec fn toml_string(text: Seq<char>, key: Seq<char>) -> Option<Seq<char>>;

/// The view of a text that may have been refused.
pub open spec fn edit_view(edit: Result<String, String>) -> Result<Seq<char>, Seq<char>> {
    match edit {
        Ok(text) => Ok(text@),
        Err(error) => Err(error@),
    }
}

/// What a document holds under a name in its root table, as far as one list in it goes.
#[derive(Debug, PartialEq)]
pub enum TomlSection {
    /// Nothing.
    Missing,
    /// A table, and the entries of the list in it, as far as they are strings.
    Table(Option<Vec<Option<String>>>),
    /// An inline table, and the entries of the list in it, as far as they are strings.
    InlineTable(Option<Vec<Option<String>>>),
    /// Anything else.
    Other,
}

/// What a [`TomlSection`] stands for.
pub enum TomlSectionView {
    Missing,
    Table(Option<Seq<Option<Seq<char>>>>),
    InlineTable(Option<Seq<Option<Seq<char>>>>),
    Other,
}

/// The views of entries that may not be strings.
pub open spec fn entry_views(entries: Seq<Option<String>>) -> Seq<Option<Seq<char>>> {
    entries.map_values(|entry: Option<String>| string_view(entry))
}

/// The view of a list that may be missing.
pub open spec fn entries_view(entries: Option<Vec<Option<String>>>) -> Option<
    Seq<Option<Seq<char>>>,
> {
    match entries {
        Some(entries) => Some(entry_views(entries@)),
        None => None,
    }
}

impl View for TomlSection {
    type V = TomlSectionView;

    open spec fn view(&self) -> TomlSectionView {
        match self {
            TomlSection::Missing => TomlSectionView::Missing,
            TomlSection::Table(entries) => TomlSectionView::Table(entries_view(*entries)),
            TomlSection::InlineTable(entries) => TomlSectionView::InlineTable(
                entries_view(*entries),
            ),
            TomlSection::Other => TomlSectionView::Other,
        }
    }
}

/// The view of what was read of a text that may have been refused.
pub open spec fn section_view(read: Result<TomlSection, String>) -> Result<
    TomlSectionView,
    Seq<char>,
> {
    match read {
        Ok(section) => Ok(section@),
        Err(error) => Err(error@),
    }
}

/// What `toml_edit` finds in a text under `section`, with the list `key` of it, or why the text
/// is no TOML.
pub uninterp spec fn toml_section(
    text: Seq<char>,
    section: Seq<char>,
    key: Seq<char>,
) -> Result<TomlSectionView, Seq<char>>;

/// What `toml_edit` makes of a text when `key` of its table `section` is set to a list of
/// strings.
pub uninterp spec fn toml_with_list(
    text: Seq<char>,
    section: Seq<char>,
    key: Seq<char>,
    list: Seq<Seq<char>>,
) -> Seq<char>;

/// A section in which the list has been set to `list`: an inline table stays one, and anything
/// else is a table.
pub open spec fn section_with(section: TomlSectionView, list: Seq<Seq<char>>) -> TomlSectionView {
    let entries = list.map_values(|entry: Seq<char>| Some(entry));
    match section {
        TomlSectionView::InlineTable(_) => TomlSectionView::InlineTable(Some(entries)),
        _ => TomlSectionView::Table(Some(entries)),
    }
}

/// Whether `new` is read as `text` is, but with the list `key` of `section` set to `list`.
pub open spec fn holds_list(
    new: Seq<char>,
    text: Seq<char>,
    section: Seq<char>,
    key: Seq<char>,
    list: Seq<Seq<char>>,
) -> bool {
    toml_section(new, section, key) == Ok::<TomlSectionView, Seq<char>>(
        section_with(toml_section(text, section, key)->Ok_0, list),
    )
}

/// Whether a text is TOML.
pub open spec fn is_toml(text: Seq<char>) -> bool {
    exists|section: Seq<char>, key: Seq<char>| #[trigger] toml_section(text, section, key) is Ok
}

/// Whether `new` is read as `text` is in all of its root table but under `key`.
pub open spec fn same_but_for(new: Seq<char>, text: Seq<char>, key: Seq<char>) -> bool {
    &&& forall|other: Seq<char>|
        other != key ==> #[trigger] toml_string(new, other) == toml_string(text, other)
    &&& forall|section: Seq<char>, list: Seq<char>|
        section != key ==> #[trigger] toml_section(new, section, list) == toml_section(
            text,
            section,
            list,
        )
}

/// A section that is there as it is, and a table without a list where it was missing.
pub open spec fn made(section: Result<TomlSectionView, Seq<char>>) -> Result<
    TomlSectionView,
    Seq<char>,
> {
    match section {
        Ok(TomlSectionView::Missing) => Ok(TomlSectionView::Table(None)),
        _ => section,
    }
}

/// Whether the lists in `section` of `new` are those of `text`, but for the list `key`.
pub open spec fn same_lists_but_for(
    new: Seq<char>,
    text: Seq<char>,
    section: Seq<char>,
    key: Seq<char>,
) -> bool {
    forall|other: Seq<char>|
        other != key ==> #[trigger] toml_section(new, section, other) == made(
            toml_section(text, section, other),
        )
}

/// Parses `text` as a `toml_edit::DocumentMut`, assigns `toml_edit::value(value)` to `key` by
/// `IndexMut`, and writes the document out. The outcome depends on the three strings alone, and it
/// is a refusal only where the text cannot be read. What is written is read back by
/// [`read_toml_string`], and what stands under other keys is read as before. What the new text
/// looks like apart from that is left unsaid.
#[verifier::external_body]
pub(crate) fn set_toml_string(text: &str, key: &str, value: &str) -> (edit: Result<String, String>)
    requires
        quotable(value@),
    ensures
        edit_view(edit) == toml_with_string(text@, key@, value@),
        edit is Ok <==> is_toml(text@),
        edit is Ok ==> toml_string(edit->Ok_0@, key@) == Some(value@),
        edit is Ok ==> same_but_for(edit->Ok_0@, text@, key@),
{
    let mut document: toml_edit::DocumentMut = match text.parse() {
        Ok(document) => document,
        Err(error) => return Err(toml_edit::TomlError::to_string(&error)),
    };
    document[key] = toml_edit::value(value);
    Ok(document.to_string())
}

/// Parses `text` as a `toml_edit::DocumentMut`, and gets `key` of its root table, where it is a
/// string (`Item::as_str`). The outcome depends on the two strings alone.
#[verifier::external_body]
pub(crate) fn read_toml_string(text: &str, key: &str) -> (value: Option<String>)
    ensures
        string_view(value) == toml_string(text@, key@),
{
    let document: toml_edit::DocumentMut = text.parse().ok()?;
    document.get(key).and_then(|item| item.as_str()).map(String::from)
}

/// Parses `text` as a `toml_edit::DocumentMut`, gets `section` of its root table, tells a
/// `toml_edit::Item::Table` from an inline table and from the rest, and of either table gets
/// `key` (`TableLike::get`), as an array (`Item::as_array`) whose entries are strings or not
/// (`Value::as_str`). The outcome depends on the three strings alone.
#[verifier::external_body]
pub(crate) fn read_toml_list(text: &str, section: &str, key: &str) -> (read: Result<
    TomlSection,
    String,
>)
    ensures
        section_view(read) == toml_section(text@, section@, key@),
{
    let document: toml_edit::DocumentMut = match text.parse() {
        Ok(document) => document,
        Err(error) => return Err(toml_edit::TomlError::to_string(&error)),
    };
    let list = |table: &dyn toml_edit::TableLike| table.get(key).and_then(|item| item.as_array())
        .map(|list| list.iter().map(|entry| entry.as_str().map(String::from)).collect());
    Ok(match document.get(section) {
        None => TomlSection::Missing,
        Some(Item::Table(table)) => TomlSection::Table(list(table)),
        Some(Item::Value(Value::InlineTable(table))) => TomlSection::InlineTable(list(table)),
        Some(_) => TomlSection::Other,
    })
}

/// Parses `text` as a `toml_edit::DocumentMut`, puts a new `toml_edit::Table` under `section`
/// where there is none, assigns the array of `list` to `key` of it by `IndexMut`, and writes the
/// document out. `IndexMut` panics where `section` is no table. The outcome depends on the
/// arguments alone, and a text that could be read is not refused. What is written is read back by
/// [`read_toml_list`], in an inline table where it was one. The other lists of the section, and
/// what stands under other keys of the root table, are read as before. What the new text looks
/// like apart from that is left unsaid.
#[verifier::external_body]
pub(crate) fn set_toml_list(text: &str, section: &str, key: &str, list: &Vec<String>) -> (edit:
    Result<String, String>)
    requires
        toml_section(text@, section@, key@) is Ok,
        !(toml_section(text@, section@, key@)->Ok_0 is Other),
        forall|i: int| 0 <= i < list@.len() ==> quotable((#[trigger] list@[i])@),
    ensures
        edit is Ok,
        edit->Ok_0@ == toml_with_list(text@, section@, key@, texts(list@)),
        holds_list(edit->Ok_0@, text@, section@, key@, texts(list@)),
        same_lists_but_for(edit->Ok_0@, text@, section@, key@),
        same_but_for(edit->Ok_0@, text@, section@),
{
    let mut document: toml_edit::DocumentMut = match text.parse() {
        Ok(document) => document,
        Err(error) => return Err(toml_edit::TomlError::to_string(&error)),
    };
    let array: toml_edit::Array = list.iter().map(String::as_str).collect();
    let table = Item::Table(toml_edit::Table::new());
    document.entry(section).or_insert(table)[key] = toml_edit::value(array);
    Ok(document.to_string())
}

} // verus!
