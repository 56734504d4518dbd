//! TOML documents as far as this crate reads them: a table of keys, each
//! with a text, a list, or something else.

use vstd::prelude::*;

verus! {

/// An item of a TOML array.
#[derive(Debug)]
pub enum TomlItem {
    Text(String),
    /// Anything but a string.
    Other,
}

/// A value of a TOML table.
#[derive(Debug)]
pub enum TomlValue {
    Text(String),
    List(Vec<TomlItem>),
    /// Anything but a string or an array.
    Other,
}

/// A key of a TOML table with its value.
#[derive(Debug)]
pub struct TomlEntry {
    pub key: String,
    pub value: TomlValue,
}

/// A [`TomlItem`] with its text as a sequence of characters.
pub enum ItemView {
    Text(Seq<char>),
    Other,
}

/// A [`TomlValue`] with its texts as sequences of characters.
pub enum ValueView {
    Text(Seq<char>),
    List(Seq<ItemView>),
    Other,
}

impl View for TomlItem {
    type V = ItemView;

    open spec fn view(&self) -> ItemView {
        match self {
            TomlItem::Text(text) => ItemView::Text(text@),
            TomlItem::Other => ItemView::Other,
        }
    }
}

impl View for TomlValue {
    type V = ValueView;

    open spec fn view(&self) -> ValueView {
        match self {
            TomlValue::Text(text) => ValueView::Text(text@),
            TomlValue::List(items) => ValueView::List(Seq::new(items@.len(), |i: int| items@[i]@)),
            TomlValue::Other => ValueView::Other,
        }
    }
}

impl View for TomlEntry {
    type V = (Seq<char>, ValueView);

    open spec fn view(&self) -> (Seq<char>, ValueView) {
        (self.key@, self.value@)
    }
}

/// The entries of a table, each by its view.
pub open spec fn entries_view(entries: Seq<TomlEntry>) -> Seq<(Seq<char>, ValueView)> {
    Seq::new(entries.len(), |i: int| entries[i]@)
}

/// What `toml::from_str` makes of `text` when asked for a table: the
/// top-level entries in the order of their keys, or `None` where the text is
/// no TOML document.
pub uninterp spec fn toml_table(text: Seq<char>) -> Option<Seq<(Seq<char>, ValueView)>>;

/// Calls `toml::from_str` for a `toml::Table` and hands its entries on as
/// they are walked. A string stays a string and an array an array of its
/// items; every other kind of value is only marked as such.
#[verifier::external_body]
pub(crate) fn read_table(text: &str) -> (r: Option<Vec<TomlEntry>>)
    ensures
        match r {
            Some(entries) => toml_table(text@) == Some(entries_view(entries@)),
            None => toml_table(text@) is None,
        },
{
    let table = toml::from_str::<toml::Table>(text).ok()?;
    Some(table.into_iter().map(|(key, value)| TomlEntry {
        key,
        value: match value {
            toml::Value::String(text) => TomlValue::Text(text),
            toml::Value::Array(items) => TomlValue::List(items.into_iter().map(|item| match item {
                toml::Value::String(text) => TomlItem::Text(text),
                _ => TomlItem::Other,
            }).collect()),
            _ => TomlValue::Other,
        },
    }).collect())
}

/// What stands under a key that a record may have.
pub enum Field<T> {
    /// The key is not there.
    Absent,
    /// The key is there with a value of the kind asked for.
    Present(T),
    /// The key is there with a value of another kind.
    Mismatch,
}

/// Index of the first entry under `key`, or the number of entries.
pub open spec fn entry_index(entries: Seq<(Seq<char>, ValueView)>, key: Seq<char>) -> nat
    decreases entries.len(),
{
    if entries.len() == 0 || entries[0].0 == key {
        0
    } else {
        1 + entry_index(entries.drop_first(), key)
    }
}

/// The first entry under `key` is at `n` once no earlier one is under it.
pub proof fn lemma_entry_index(entries: Seq<(Seq<char>, ValueView)>, key: Seq<char>, n: int)
    requires
        0 <= n <= entries.len(),
        forall|k: int| 0 <= k < n ==> entries[k].0 != key,
        n == entries.len() || entries[n].0 == key,
    ensures
        entry_index(entries, key) == n,
    decreases n,
{
    if n > 0 {
        lemma_entry_index(entries.drop_first(), key, n - 1);
    }
}

/// The text under `key`.
pub open spec fn text_field(entries: Seq<(Seq<char>, ValueView)>, key: Seq<char>) -> Field<
    Seq<char>,
> {
    let i = entry_index(entries, key) as int;
    if i >= entries.len() {
        Field::Absent
    } else {
        match entries[i].1 {
            ValueView::Text(text) => Field::Present(text),
            _ => Field::Mismatch,
        }
    }
}

/// Whether every item is a text.
pub open spec fn all_texts(items: Seq<ItemView>) -> bool {
    forall|i: int| 0 <= i < items.len() ==> #[trigger] items[i] is Text
}

/// The texts of items that are all texts.
pub open spec fn item_texts(items: Seq<ItemView>) -> Seq<Seq<char>> {
    Seq::new(items.len(), |i: int| items[i]->Text_0)
}

/// The list of texts under `key`.
pub open spec fn list_field(entries: Seq<(Seq<char>, ValueView)>, key: Seq<char>) -> Field<
    Seq<Seq<char>>,
> {
    let i = entry_index(entries, key) as int;
    if i >= entries.len() {
        Field::Absent
    } else {
        match entries[i].1 {
            ValueView::List(items) => if all_texts(items) {
                Field::Present(item_texts(items))
            } else {
                Field::Mismatch
            },
            _ => Field::Mismatch,
        }
    }
}

/// Index of the first entry under `key`.
pub fn find_entry(entries: &Vec<TomlEntry>, key: &str) -> (r: Option<usize>)
    ensures
        match r {
            Some(i) => i < entries@.len() && i == entry_index(entries_view(entries@), key@),
            None => entry_index(entries_view(entries@), key@) >= entries@.len(),
        },
{
    let mut i: usize = 0;
    while i < entries.len()
        invariant
            i <= entries@.len(),
            forall|k: int| 0 <= k < i ==> entries_view(entries@)[k].0 != key@,
        decreases entries@.len() - i,
    {
        if crate::text::same_text(entries[i].key.as_str(), key) {
            proof {
                lemma_entry_index(entries_view(entries@), key@, i as int);
            }
            return Some(i);
        }
        i = i + 1;
    }
    proof {
        lemma_entry_index(entries_view(entries@), key@, i as int);
    }
    None
}

/// The text under `key`.
pub fn get_text(entries: &Vec<TomlEntry>, key: &str) -> (r: Field<String>)
    ensures
        match text_field(entries_view(entries@), key@) {
            Field::Absent => r is Absent,
            Field::Present(text) => r is Present && r->Present_0@ == text,
            Field::Mismatch => r is Mismatch,
        },
{
    match find_entry(entries, key) {
        None => Field::Absent,
        Some(i) => match &entries[i].value {
            TomlValue::Text(text) => Field::Present(text.clone()),
            _ => Field::Mismatch,
        },
    }
}

/// The list of texts under `key`.
pub fn get_list(entries: &Vec<TomlEntry>, key: &str) -> (r: Field<Vec<String>>)
    ensures
        match list_field(entries_view(entries@), key@) {
            Field::Absent => r is Absent,
            Field::Present(list) => r is Present && crate::text::texts(r->Present_0@) == list,
            Field::Mismatch => r is Mismatch,
        },
{
    match find_entry(entries, key) {
        None => Field::Absent,
        Some(i) => match &entries[i].value {
            TomlValue::List(items) => {
                let ghost views = Seq::new(items@.len(), |k: int| items@[k]@);
                assert(entries_view(entries@)[i as int].1 == ValueView::List(views));
                let mut list: Vec<String> = Vec::new();
                let mut k: usize = 0;
                while k < items.len()
                    invariant
                        k <= items@.len(),
                        i < entries@.len(),
                        i == entry_index(entries_view(entries@), key@),
                        entries_view(entries@)[i as int].1 == ValueView::List(views),
                        views == Seq::new(items@.len(), |k: int| items@[k]@),
                        forall|m: int| 0 <= m < k ==> #[trigger] views[m] is Text,
                        list@.len() == k,
                        forall|m: int| 0 <= m < k ==> (#[trigger] list@[m])@ == views[m]->Text_0,
                    decreases items@.len() - k,
                {
                    match &items[k] {
                        TomlItem::Text(text) => {
                            list.push(text.clone());
                        },
                        TomlItem::Other => {
                            assert(!(views[k as int] is Text));
                            assert(!all_texts(views));
                            return Field::Mismatch;
                        },
                    }
                    k = k + 1;
                }
                assert(crate::text::texts(list@) =~= item_texts(views));
                assert(all_texts(views));
                Field::Present(list)
            },
            _ => Field::Mismatch,
        },
    }
}

} // verus!
