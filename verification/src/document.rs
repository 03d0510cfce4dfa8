//! Documents in TOML that are edited in place, so that what is not touched stays
//! as it is written.
//!
//! A document is held by `toml_edit`. What it holds is told apart by how it is
//! reached; how something is written, and what is written around it, is kept as
//! a note of which nothing more is said.
use vstd::prelude::*;

use crate::text::{contains_text, lemma_views_push, views};

verus! {

/// What stands under a key.
#[verifier::ext_equal]
pub enum TomlItem {
    /// A place that was made and not filled.
    Nothing,
    /// A value as it is written, and what is written around it.
    Value { written: Seq<char>, around: Seq<char> },
    Table(TomlTable),
    /// A list of tables, as it is written.
    Tables(Seq<char>),
}

/// A table: how its heading is written, and what stands in it. A table that was
/// not written yet has no note.
#[verifier::ext_equal]
pub struct TomlTable {
    pub note: Option<Seq<char>>,
    pub entries: Seq<TomlEntry>,
}

/// A key, how it is written, and what stands under it. A key that was not
/// written yet has no note.
#[verifier::ext_equal]
pub struct TomlEntry {
    pub key: Seq<char>,
    pub note: Option<Seq<char>>,
    pub item: TomlItem,
}

/// A document: its root table, and what is written after everything.
#[verifier::ext_equal]
pub struct TomlDocument {
    pub root: TomlTable,
    pub rest: Seq<char>,
}

/// `toml_edit::DocumentMut`, a document that can be edited.
#[verifier::external_type_specification]
#[verifier::external_body]
pub struct ExternalDocument(toml_edit::DocumentMut);

/// `toml_edit::Table`, a table of a document.
#[verifier::external_type_specification]
#[verifier::external_body]
pub struct ExternalTable(toml_edit::Table);

/// `toml_edit::Item`, what stands under a key of a table.
#[verifier::external_type_specification]
#[verifier::external_body]
pub struct ExternalItem(toml_edit::Item);

/// What a document holds.
pub uninterp spec fn document_of(document: toml_edit::DocumentMut) -> TomlDocument;

/// What a table holds: every key in the order in which they are walked, with the
/// places that were not filled.
pub uninterp spec fn table_of(table: toml_edit::Table) -> TomlTable;

/// What an item is.
pub uninterp spec fn item_of(item: toml_edit::Item) -> TomlItem;

/// The document that `toml_edit` reads from a text, or what it says is wrong.
pub uninterp spec fn toml_document(source: Seq<char>) -> Result<TomlDocument, Seq<char>>;

/// The text that `toml_edit` writes for a document.
pub uninterp spec fn toml_text(document: TomlDocument) -> Seq<char>;

/// The first place of a key from place `i` on, or the number of entries.
pub open spec fn place_from(entries: Seq<TomlEntry>, key: Seq<char>, i: int) -> int
    decreases entries.len() - i,
{
    if i < 0 || i >= entries.len() {
        entries.len() as int
    } else if entries[i].key == key {
        i
    } else {
        place_from(entries, key, i + 1)
    }
}

/// The place of a key, or the number of entries.
pub open spec fn key_place(table: TomlTable, key: Seq<char>) -> int {
    place_from(table.entries, key, 0)
}

/// What stands under a key: nothing where the table does not have it.
pub open spec fn item_at(table: TomlTable, key: Seq<char>) -> TomlItem {
    let place = key_place(table, key);
    if 0 <= place < table.entries.len() {
        table.entries[place].item
    } else {
        TomlItem::Nothing
    }
}

/// The table with an item in the place of a key. The key stays as it is written,
/// and comes last where it is new.
pub open spec fn with_item(table: TomlTable, key: Seq<char>, item: TomlItem) -> TomlTable {
    let place = key_place(table, key);
    if 0 <= place < table.entries.len() {
        TomlTable {
            entries: table.entries.update(place, TomlEntry { item, ..table.entries[place] }),
            ..table
        }
    } else {
        TomlTable { entries: table.entries.push(TomlEntry { key, note: None, item }), ..table }
    }
}

/// The table with an item under a key that is written anew. The key keeps its
/// place, and comes last where it is new.
pub open spec fn inserted(table: TomlTable, key: Seq<char>, item: TomlItem) -> TomlTable {
    let place = key_place(table, key);
    let entry = TomlEntry { key, note: None, item };
    if 0 <= place < table.entries.len() {
        TomlTable { entries: table.entries.update(place, entry), ..table }
    } else {
        TomlTable { entries: table.entries.push(entry), ..table }
    }
}

/// The table without a key.
pub open spec fn without(table: TomlTable, key: Seq<char>) -> TomlTable {
    let place = key_place(table, key);
    if 0 <= place < table.entries.len() {
        TomlTable { entries: table.entries.remove(place), ..table }
    } else {
        table
    }
}

/// Something stands under a key.
pub open spec fn has_item(table: TomlTable, key: Seq<char>) -> bool {
    !(item_at(table, key) is Nothing)
}

/// Those of the first `count` keys under which something stands.
pub open spec fn live_keys(entries: Seq<TomlEntry>, count: int) -> Seq<Seq<char>>
    decreases count,
{
    if count <= 0 {
        Seq::empty()
    } else if entries[count - 1].item is Nothing {
        live_keys(entries, count - 1)
    } else {
        live_keys(entries, count - 1).push(entries[count - 1].key)
    }
}

/// The keys of a table, in order.
pub open spec fn keys_of(table: TomlTable) -> Seq<Seq<char>> {
    live_keys(table.entries, table.entries.len() as int)
}

/// `DocumentMut::from_str`: what is read depends on the text alone.
#[verifier::external_body]
pub(crate) fn read_document(source: &str) -> (r: Result<toml_edit::DocumentMut, String>)
    ensures
        match r {
            Ok(document) => toml_document(source@) == Ok::<TomlDocument, Seq<char>>(
                document_of(document),
            ),
            Err(message) => toml_document(source@) == Err::<TomlDocument, Seq<char>>(message@),
        },
{
    source.parse::<toml_edit::DocumentMut>().map_err(|error| error.to_string())
}

/// `DocumentMut::to_string`: the text depends on what the document holds, and on
/// how that is written.
#[verifier::external_body]
pub(crate) fn write_document(document: &toml_edit::DocumentMut) -> (text: String)
    ensures
        text@ == toml_text(document_of(*document)),
{
    document.to_string()
}

/// `DocumentMut::as_table`: the root table.
#[verifier::external_body]
pub(crate) fn root(document: &toml_edit::DocumentMut) -> (root: &toml_edit::Table)
    ensures
        table_of(*root) == document_of(*document).root,
{
    document.as_table()
}

/// `DocumentMut::as_table_mut`: the root table, to be edited.
#[verifier::external_body]
pub(crate) fn root_mut(document: &mut toml_edit::DocumentMut) -> (root: &mut toml_edit::Table)
    ensures
        table_of(*root) == document_of(*old(document)).root,
        document_of(*final(document)) == (TomlDocument {
            root: table_of(*final(root)),
            ..document_of(*old(document))
        }),
{
    document.as_table_mut()
}

/// `Table::iter`: the keys under which something stands, in order.
#[verifier::external_body]
pub(crate) fn table_keys(table: &toml_edit::Table) -> (keys: Vec<String>)
    ensures
        views(keys@) == keys_of(table_of(*table)),
{
    table.iter().map(|(key, _)| key.to_owned()).collect()
}

/// `Table::get`: of what kind the item is that stands under a key.
#[verifier::external_body]
pub(crate) fn item_shape(table: &toml_edit::Table, key: &str) -> (shape: ItemShape)
    ensures
        shape == shape_of(item_at(table_of(*table), key@)),
{
    match table.get(key) {
        None | Some(toml_edit::Item::None) => ItemShape::Absent,
        Some(toml_edit::Item::Value(_)) => ItemShape::Value,
        Some(toml_edit::Item::Table(_)) => ItemShape::Table,
        Some(toml_edit::Item::ArrayOfTables(_)) => ItemShape::Other,
    }
}

/// `Item::as_table` of what stands under a key.
#[verifier::external_body]
pub(crate) fn inner<'a>(table: &'a toml_edit::Table, key: &str) -> (inner: Option<
    &'a toml_edit::Table,
>)
    ensures
        match inner {
            Some(found) => item_at(table_of(*table), key@) == TomlItem::Table(table_of(*found)),
            None => !(item_at(table_of(*table), key@) is Table),
        },
{
    table.get(key).and_then(toml_edit::Item::as_table)
}

/// `Item::as_table_mut` of what stands under a key.
#[verifier::external_body]
pub(crate) fn inner_mut<'a>(table: &'a mut toml_edit::Table, key: &str) -> (inner: Option<
    &'a mut toml_edit::Table,
>)
    ensures
        match inner {
            Some(found) => {
                &&& item_at(table_of(*old(table)), key@) == TomlItem::Table(table_of(*found))
                &&& table_of(*final(table)) == with_item(
                    table_of(*old(table)),
                    key@,
                    TomlItem::Table(table_of(*final(found))),
                )
            },
            None => {
                &&& !(item_at(table_of(*old(table)), key@) is Table)
                &&& table_of(*final(table)) == table_of(*old(table))
            },
        },
{
    table.get_mut(key).and_then(toml_edit::Item::as_table_mut)
}

/// `Table::get` and `Item::clone`: a copy of what stands under a key.
#[verifier::external_body]
pub(crate) fn copy_item(table: &toml_edit::Table, key: &str) -> (item: toml_edit::Item)
    ensures
        item_of(item) == item_at(table_of(*table), key@),
{
    table.get(key).cloned().unwrap_or_default()
}

/// `Table::clone`: a copy of a table, as an item.
#[verifier::external_body]
pub(crate) fn copy_table(table: &toml_edit::Table) -> (item: toml_edit::Item)
    ensures
        item_of(item) == TomlItem::Table(table_of(*table)),
{
    toml_edit::Item::Table(table.clone())
}

/// `Table::new`: a table with nothing in it, as an item.
#[verifier::external_body]
pub(crate) fn empty_table() -> (item: toml_edit::Item)
    ensures
        item_of(item) == TomlItem::Table(TomlTable { note: None, entries: Seq::empty() }),
{
    toml_edit::Item::Table(toml_edit::Table::new())
}

/// `Table::remove`: the key and what stands under it are taken away, and the
/// others stay in their order.
#[verifier::external_body]
pub(crate) fn remove_item(table: &mut toml_edit::Table, key: &str) -> (taken: Option<
    toml_edit::Item,
>)
    ensures
        table_of(*final(table)) == without(table_of(*old(table)), key@),
        match taken {
            Some(item) => key_place(table_of(*old(table)), key@) < table_of(
                *old(table),
            ).entries.len() && item_of(item) == item_at(table_of(*old(table)), key@),
            None => key_place(table_of(*old(table)), key@) == table_of(*old(table)).entries.len(),
        },
{
    table.remove(key)
}

/// `Table::insert`: the item stands under the key, which is written anew.
#[verifier::external_body]
pub(crate) fn put_item(table: &mut toml_edit::Table, key: &str, item: toml_edit::Item)
    ensures
        table_of(*final(table)) == inserted(table_of(*old(table)), key@, item_of(item)),
{
    table.insert(key, item);
}

/// `Table::index_mut` with an assignment: the item stands under the key, which
/// stays as it is written.
#[verifier::external_body]
pub(crate) fn set_item(table: &mut toml_edit::Table, key: &str, item: toml_edit::Item)
    ensures
        table_of(*final(table)) == with_item(table_of(*old(table)), key@, item_of(item)),
{
    table[key] = item;
}

/// `Value::decor_mut` and `Value::decor`: a value with what is written around
/// the value that stands under a key.
#[verifier::external_body]
pub(crate) fn dressed(item: toml_edit::Item, table: &toml_edit::Table, key: &str) -> (r:
    toml_edit::Item)
    requires
        item_of(item) is Value,
        item_at(table_of(*table), key@) is Value,
    ensures
        item_of(r) == (TomlItem::Value {
            written: item_of(item)->written,
            around: item_at(table_of(*table), key@)->around,
        }),
{
    let mut item = item;
    let old = table.get(key).and_then(toml_edit::Item::as_value);
    if let (Some(new), Some(old)) = (item.as_value_mut(), old) {
        *new.decor_mut() = old.decor().clone();
    }
    item
}

/// Of what kind an item is.
#[derive(Clone, Copy, Debug, Eq, PartialEq, Structural)]
pub enum ItemShape {
    Absent,
    Value,
    Table,
    Other,
}

/// The kind of an item.
pub open spec fn shape_of(item: TomlItem) -> ItemShape {
    match item {
        TomlItem::Nothing => ItemShape::Absent,
        TomlItem::Value { .. } => ItemShape::Value,
        TomlItem::Table(_) => ItemShape::Table,
        TomlItem::Tables(_) => ItemShape::Other,
    }
}

/// Those of the first `count` keys that are not among others.
pub open spec fn keys_without(keys: Seq<Seq<char>>, kept: Seq<Seq<char>>, count: int) -> Seq<
    Seq<char>,
>
    decreases count,
{
    if count <= 0 {
        Seq::empty()
    } else if kept.contains(keys[count - 1]) {
        keys_without(keys, kept, count - 1)
    } else {
        keys_without(keys, kept, count - 1).push(keys[count - 1])
    }
}

/// The keys that are taken away when a table is brought in line with another:
/// those that the other does not have.
pub fn stale_keys(keys: &Vec<String>, kept: &Vec<String>) -> (stale: Vec<String>)
    ensures
        views(stale@) == keys_without(views(keys@), views(kept@), keys@.len() as int),
{
    let ghost all = views(keys@);
    let mut stale: Vec<String> = Vec::new();
    let mut i: usize = 0;
    proof {
        assert(views(stale@) =~= Seq::<Seq<char>>::empty());
    }
    while i < keys.len()
        invariant
            i <= keys@.len(),
            all == views(keys@),
            views(stale@) == keys_without(all, views(kept@), i as int),
        decreases keys@.len() - i,
    {
        proof {
            assert(all[i as int] == keys@[i as int]@);
        }
        if !contains_text(kept, keys[i].as_str()) {
            proof {
                lemma_views_push(stale@, keys@[i as int]);
            }
            stale.push(keys[i].clone());
        }
        i = i + 1;
    }
    stale
}

/// The table without the first `count` of some keys.
pub open spec fn without_keys(table: TomlTable, keys: Seq<Seq<char>>, count: int) -> TomlTable
    decreases count,
{
    if count <= 0 {
        table
    } else {
        without(without_keys(table, keys, count - 1), keys[count - 1])
    }
}

fn remove_keys(table: &mut toml_edit::Table, keys: &Vec<String>)
    ensures
        table_of(*final(table)) == without_keys(
            table_of(*old(table)),
            views(keys@),
            keys@.len() as int,
        ),
{
    let ghost before = table_of(*table);
    let mut i: usize = 0;
    while i < keys.len()
        invariant
            i <= keys@.len(),
            table_of(*table) == without_keys(before, views(keys@), i as int),
        decreases keys@.len() - i,
    {
        proof {
            assert(views(keys@)[i as int] == keys@[i as int]@);
        }
        let _ = remove_item(table, keys[i].as_str());
        i = i + 1;
    }
}

/// A table with only those of its keys that another has.
pub open spec fn trimmed(existing: TomlTable, desired: TomlTable) -> TomlTable {
    let stale = keys_without(
        keys_of(existing),
        keys_of(desired),
        keys_of(existing).len() as int,
    );
    without_keys(existing, stale, stale.len() as int)
}

/// A table after the first `count` of the keys of another have been brought in
/// line with it: a key that is new is put in, a value keeps what is written
/// around it, and a table is brought in line in its turn.
pub open spec fn merged(existing: TomlTable, desired: TomlTable, count: int) -> TomlTable
    decreases desired, count,
{
    if count <= 0 || count > keys_of(desired).len() {
        existing
    } else {
        let before = merged(existing, desired, count - 1);
        let key = keys_of(desired)[count - 1];
        proof {
            if item_at(desired, key) is Table {
                lemma_inner_is_smaller(desired, key);
            }
        }
        match (item_at(before, key), item_at(desired, key)) {
            (TomlItem::Nothing, item) => inserted(before, key, item),
            (TomlItem::Value { around, .. }, TomlItem::Value { written, .. }) => with_item(
                before,
                key,
                TomlItem::Value { written, around },
            ),
            (TomlItem::Table(old), TomlItem::Table(new)) => with_item(
                before,
                key,
                TomlItem::Table(merged(trimmed(old, new), new, keys_of(new).len() as int)),
            ),
            (_, item) => with_item(before, key, item),
        }
    }
}

/// A table that was brought in line with another.
pub open spec fn merge(existing: TomlTable, desired: TomlTable) -> TomlTable {
    merged(existing, desired, keys_of(desired).len() as int)
}

/// Where a key is found.
pub proof fn lemma_place_from(entries: Seq<TomlEntry>, key: Seq<char>, i: int)
    requires
        0 <= i <= entries.len(),
    ensures
        i <= place_from(entries, key, i) <= entries.len(),
        place_from(entries, key, i) < entries.len() ==> entries[place_from(entries, key, i)].key
            == key,
        forall|j: int|
            i <= j < place_from(entries, key, i) ==> (#[trigger] entries[j]).key != key,
    decreases entries.len() - i,
{
    if i < entries.len() && entries[i].key != key {
        lemma_place_from(entries, key, i + 1);
    }
}

/// A table that stands in another is smaller.
pub proof fn lemma_inner_is_smaller(table: TomlTable, key: Seq<char>)
    requires
        item_at(table, key) is Table,
    ensures
        decreases_to!(table => item_at(table, key)->Table_0),
{
    lemma_place_from(table.entries, key, 0);
    let entry = table.entries[key_place(table, key)];
    assert(decreases_to!(table => table.entries));
    assert(decreases_to!(table.entries => entry));
    assert(decreases_to!(entry => entry.item));
    assert(decreases_to!(entry.item => entry.item->Table_0));
}

fn merge_table(existing: &mut toml_edit::Table, desired: &toml_edit::Table)
    ensures
        table_of(*final(existing)) == merge(table_of(*old(existing)), table_of(*desired)),
    decreases table_of(*desired),
{
    let ghost before = table_of(*existing);
    let ghost wanted = table_of(*desired);
    let keys = table_keys(desired);
    proof {
        assert(views(keys@).len() == keys@.len());
    }
    let mut i: usize = 0;
    while i < keys.len()
        invariant
            i <= keys@.len(),
            wanted == table_of(*desired),
            views(keys@) == keys_of(wanted),
            keys@.len() == keys_of(wanted).len(),
            table_of(*existing) == merged(before, wanted, i as int),
        decreases keys@.len() - i,
    {
        let key: &str = keys[i].as_str();
        proof {
            assert(views(keys@)[i as int] == key@);
        }
        let ghost step = table_of(*existing);
        match (item_shape(existing, key), item_shape(desired, key)) {
            (ItemShape::Absent, _) => {
                let item = copy_item(desired, key);
                put_item(existing, key, item);
            },
            (ItemShape::Value, ItemShape::Value) => {
                let item = dressed(copy_item(desired, key), existing, key);
                set_item(existing, key, item);
            },
            (ItemShape::Table, ItemShape::Table) => {
                if let (Some(old), Some(new)) = (inner_mut(existing, key), inner(desired, key)) {
                    proof {
                        lemma_inner_is_smaller(wanted, key@);
                    }
                    let stale = stale_keys(&table_keys(old), &table_keys(new));
                    remove_keys(old, &stale);
                    merge_table(old, new);
                }
            },
            _ => {
                let item = copy_item(desired, key);
                set_item(existing, key, item);
            },
        }
        i = i + 1;
    }
}

/// A table in which an entry is kept: a table that is there loses the managed
/// keys that it should not have and is brought in line, and anything else gives
/// way.
pub open spec fn updated(
    table: TomlTable,
    name: Seq<char>,
    desired: TomlTable,
    managed: Seq<Seq<char>>,
) -> TomlTable {
    let stale = keys_without(managed, keys_of(desired), managed.len() as int);
    match item_at(table, name) {
        TomlItem::Table(existing) => with_item(
            table,
            name,
            TomlItem::Table(
                merge(without_keys(existing, stale, stale.len() as int), desired),
            ),
        ),
        _ => inserted(table, name, TomlItem::Table(desired)),
    }
}

/// Keeps an entry in a table.
pub(crate) fn update_entry(
    table: &mut toml_edit::Table,
    name: &str,
    desired: &toml_edit::Table,
    managed: &Vec<String>,
)
    ensures
        table_of(*final(table)) == updated(
            table_of(*old(table)),
            name@,
            table_of(*desired),
            views(managed@),
        ),
{
    if let Some(existing) = inner_mut(table, name) {
        let stale = stale_keys(managed, &table_keys(desired));
        proof {
            assert(views(stale@).len() == stale@.len());
            assert(views(managed@).len() == managed@.len());
        }
        remove_keys(existing, &stale);
        merge_table(existing, desired);
        return;
    }
    let item = copy_table(desired);
    put_item(table, name, item);
}

/// A table in which an entry has another name, where it is there.
pub open spec fn renamed(table: TomlTable, from: Seq<char>, to: Seq<char>) -> TomlTable {
    if key_place(table, from) < table.entries.len() {
        inserted(without(table, from), to, item_at(table, from))
    } else {
        table
    }
}

/// Gives an entry of a table another name.
pub(crate) fn rename_entry(table: &mut toml_edit::Table, from: &str, to: &str)
    ensures
        table_of(*final(table)) == renamed(table_of(*old(table)), from@, to@),
{
    if let Some(item) = remove_item(table, from) {
        put_item(table, to, item);
    }
}

/// A document in which a section is there.
pub open spec fn with_section(root: TomlTable, section: Seq<char>) -> TomlTable {
    if has_item(root, section) {
        root
    } else {
        with_item(
            root,
            section,
            TomlItem::Table(TomlTable { note: None, entries: Seq::empty() }),
        )
    }
}

/// Makes a section where there is none.
pub(crate) fn ensure_section(root: &mut toml_edit::Table, section: &str)
    ensures
        table_of(*final(root)) == with_section(table_of(*old(root)), section@),
{
    if item_shape(root, section) == ItemShape::Absent {
        let item = empty_table();
        set_item(root, section, item);
    }
}

/// What stands under another key stays when an item is put into a table.
pub proof fn lemma_other_items_stay(table: TomlTable, key: Seq<char>, item: TomlItem, other: Seq<char>)
    requires
        other != key,
    ensures
        item_at(with_item(table, key, item), other) == item_at(table, other),
        item_at(inserted(table, key, item), other) == item_at(table, other),
{
    lemma_place_from(table.entries, key, 0);
    lemma_place_from(table.entries, other, 0);
    lemma_place_from(with_item(table, key, item).entries, other, 0);
    lemma_place_from(inserted(table, key, item).entries, other, 0);
    let at = key_place(table, other);
    let key_at = key_place(table, key);
    if at < table.entries.len() {
        assert(with_item(table, key, item).entries[at] == table.entries[at]);
        assert(inserted(table, key, item).entries[at] == table.entries[at]);
    } else {
        let after = with_item(table, key, item).entries;
        let anew = inserted(table, key, item).entries;
        assert forall|j: int| 0 <= j < after.len() implies (#[trigger] after[j]).key != other by {
            if j < table.entries.len() && j != key_at {
                assert(after[j] == table.entries[j]);
            }
        }
        assert forall|j: int| 0 <= j < anew.len() implies (#[trigger] anew[j]).key != other by {
            if j < table.entries.len() && j != key_at {
                assert(anew[j] == table.entries[j]);
            }
        }
    }
}

/// What stands under a key is what was put there.
pub proof fn lemma_item_is_put(table: TomlTable, key: Seq<char>, item: TomlItem)
    ensures
        item_at(with_item(table, key, item), key) == item,
        item_at(inserted(table, key, item), key) == item,
{
    lemma_place_from(table.entries, key, 0);
    lemma_place_from(with_item(table, key, item).entries, key, 0);
    lemma_place_from(inserted(table, key, item).entries, key, 0);
    let at = key_place(table, key);
    assert(with_item(table, key, item).entries[at].key == key);
    assert(inserted(table, key, item).entries[at].key == key);
    assert forall|j: int| 0 <= j < at implies with_item(table, key, item).entries[j]
        == table.entries[j] && inserted(table, key, item).entries[j] == table.entries[j] by {}
}

/// Saving an entry in a section leaves every other section as it is, with all
/// that is written in it and around it.
pub proof fn law_other_sections_stay(
    root: TomlTable,
    section: Seq<char>,
    inside: TomlTable,
    other: Seq<char>,
)
    requires
        other != section,
    ensures
        item_at(
            with_item(with_section(root, section), section, TomlItem::Table(inside)),
            other,
        ) == item_at(root, other),
{
    lemma_other_items_stay(with_section(root, section), section, TomlItem::Table(inside), other);
    lemma_other_items_stay(
        root,
        section,
        TomlItem::Table(TomlTable { note: None, entries: Seq::empty() }),
        other,
    );
}

/// Saving an entry leaves every other entry of its section as it is.
pub proof fn law_other_entries_stay(
    table: TomlTable,
    name: Seq<char>,
    desired: TomlTable,
    managed: Seq<Seq<char>>,
    other: Seq<char>,
)
    requires
        other != name,
    ensures
        item_at(updated(table, name, desired, managed), other) == item_at(table, other),
{
    let stale = keys_without(managed, keys_of(desired), managed.len() as int);
    let merged_entry = match item_at(table, name) {
        TomlItem::Table(existing) => TomlItem::Table(
            merge(without_keys(existing, stale, stale.len() as int), desired),
        ),
        _ => TomlItem::Table(desired),
    };
    lemma_other_items_stay(table, name, merged_entry, other);
}

/// What stands under another key stays when a key is taken out of a table.
pub proof fn lemma_others_stay_without(table: TomlTable, key: Seq<char>, other: Seq<char>)
    requires
        other != key,
    ensures
        item_at(without(table, key), other) == item_at(table, other),
{
    let at = key_place(table, other);
    let key_at = key_place(table, key);
    let after = without(table, key).entries;
    lemma_place_from(table.entries, key, 0);
    lemma_place_from(table.entries, other, 0);
    lemma_place_from(after, other, 0);
    if key_at < table.entries.len() {
        let moved = if at < key_at {
            at
        } else {
            at - 1
        };
        assert forall|j: int| 0 <= j < after.len() implies after[j] == table.entries[if j < key_at {
            j
        } else {
            j + 1
        }] by {}
        let found = place_from(after, other, 0);
        if at < table.entries.len() {
            assert(after[moved] == table.entries[at]);
            assert(found <= moved);
            if found < moved {
                assert(after[found] == table.entries[if found < key_at {
                    found
                } else {
                    found + 1
                }]);
            }
        } else if found < after.len() {
            assert(after[found] == table.entries[if found < key_at {
                found
            } else {
                found + 1
            }]);
        }
    }
}

/// No key stands in a table twice.
pub open spec fn has_distinct_keys(table: TomlTable) -> bool {
    forall|i: int, j: int|
        0 <= i < j < table.entries.len() ==> (#[trigger] table.entries[i]).key != (
        #[trigger] table.entries[j]).key
}

/// A key that was taken out of a table is gone.
pub proof fn lemma_taken_keys_are_gone(table: TomlTable, key: Seq<char>)
    requires
        has_distinct_keys(table),
    ensures
        key_place(without(table, key), key) == without(table, key).entries.len(),
{
    let at = key_place(table, key);
    let after = without(table, key).entries;
    lemma_place_from(table.entries, key, 0);
    lemma_place_from(after, key, 0);
    let found = place_from(after, key, 0);
    if found < after.len() {
        let place = if found < at {
            found
        } else {
            found + 1
        };
        assert(after[found] == table.entries[place]);
        assert(table.entries[at].key == table.entries[place].key);
    }
}

/// What stands under a key stays when other keys are taken out of a table.
pub proof fn lemma_others_stay_without_keys(
    table: TomlTable,
    keys: Seq<Seq<char>>,
    count: int,
    other: Seq<char>,
)
    requires
        0 <= count <= keys.len(),
        !keys.contains(other),
    ensures
        item_at(without_keys(table, keys, count), other) == item_at(table, other),
    decreases count,
{
    if count > 0 {
        lemma_others_stay_without_keys(table, keys, count - 1, other);
        assert(keys[count - 1] != other);
        lemma_others_stay_without(without_keys(table, keys, count - 1), keys[count - 1], other);
    }
}

/// Keys that are left over are among those that there were, and not among those
/// that are kept.
pub proof fn lemma_keys_without(keys: Seq<Seq<char>>, kept: Seq<Seq<char>>, count: int, key: Seq<
    char,
>)
    requires
        0 <= count <= keys.len(),
        keys_without(keys, kept, count).contains(key),
    ensures
        keys.contains(key),
        !kept.contains(key),
    decreases count,
{
    if count > 0 {
        let before = keys_without(keys, kept, count - 1);
        if kept.contains(keys[count - 1]) || before.contains(key) {
            lemma_keys_without(keys, kept, count - 1, key);
        } else {
            let all = before.push(keys[count - 1]);
            let i = choose|i: int| 0 <= i < all.len() && all[i] == key;
            if i < before.len() {
                assert(before[i] == key);
            }
        }
    }
}

/// A value that a table was brought in line with reads as it should, and has
/// around it what was written around the value that it takes the place of.
pub proof fn law_merged_values_read_as_wanted(
    existing: TomlTable,
    desired: TomlTable,
    count: int,
    place: int,
)
    requires
        0 <= place < count <= keys_of(desired).len(),
        item_at(desired, keys_of(desired)[place]) is Value,
    ensures
        ({
            let key = keys_of(desired)[place];
            let after = item_at(merged(existing, desired, count), key);
            &&& after is Value
            &&& after->written == item_at(desired, key)->written
            &&& item_at(existing, key) is Value ==> after->around == item_at(
                existing,
                key,
            )->around
        }),
    decreases count,
{
    let key = keys_of(desired)[place];
    let before = merged(existing, desired, count - 1);
    let last = keys_of(desired)[count - 1];
    let step = match (item_at(before, last), item_at(desired, last)) {
        (TomlItem::Value { around, .. }, TomlItem::Value { written, .. }) => TomlItem::Value {
            written,
            around,
        },
        (TomlItem::Table(old), TomlItem::Table(new)) => TomlItem::Table(
            merged(trimmed(old, new), new, keys_of(new).len() as int),
        ),
        (_, item) => item,
    };
    if key == last {
        lemma_item_is_put(before, last, step);
        if keys_of(desired).take(count - 1).contains(key) {
            let again = choose|i: int| 0 <= i < count - 1 && keys_of(desired)[i] == key;
            law_merged_values_read_as_wanted(existing, desired, count - 1, again);
        } else {
            lemma_unmet_keys_stay(existing, desired, count - 1, key);
        }
    } else {
        lemma_other_items_stay(before, last, step, key);
        law_merged_values_read_as_wanted(existing, desired, count - 1, place);
    }
}

/// What stands under a key stays as long as that key was not met.
pub proof fn lemma_unmet_keys_stay(
    existing: TomlTable,
    desired: TomlTable,
    count: int,
    other: Seq<char>,
)
    requires
        0 <= count <= keys_of(desired).len(),
        !keys_of(desired).take(count).contains(other),
    ensures
        item_at(merged(existing, desired, count), other) == item_at(existing, other),
    decreases count,
{
    if count > 0 {
        let keys = keys_of(desired);
        let before = merged(existing, desired, count - 1);
        let key = keys[count - 1];
        assert(keys.take(count)[count - 1] == key);
        assert forall|i: int| 0 <= i < count - 1 implies #[trigger] keys.take(count - 1)[i]
            != other by {
            assert(keys.take(count)[i] != other);
        }
        lemma_unmet_keys_stay(existing, desired, count - 1, other);
        let step = match (item_at(before, key), item_at(desired, key)) {
            (TomlItem::Value { around, .. }, TomlItem::Value { written, .. }) => TomlItem::Value {
                written,
                around,
            },
            (TomlItem::Table(old), TomlItem::Table(new)) => TomlItem::Table(
                merged(trimmed(old, new), new, keys_of(new).len() as int),
            ),
            (_, item) => item,
        };
        lemma_other_items_stay(before, key, step, other);
    }
}

} // verus!
