//! Surgical TOML editing: change, insert or remove one value of a TOML document by its
//! key path, leaving comments and formatting of the rest as `toml_edit` keeps them.

use vstd::prelude::*;
use crate::text::{decimal, parse_usize, parse_usize_spec, to_owned_string, usize_to_decimal};
use toml_edit::{Array, Document, DocumentMut, Item, Table, Value};
use vstd::string::StringSliceAdditionalSpecFns;

verus! {

#[verifier::external_type_specification]
#[verifier::external_body]
pub struct ExDocumentMut(DocumentMut);

#[verifier::external_type_specification]
#[verifier::external_body]
#[verifier::reject_recursive_types(S)]
pub struct ExDocument<S>(Document<S>);

#[verifier::external_type_specification]
#[verifier::external_body]
pub struct ExItem(Item);

#[verifier::external_type_specification]
#[verifier::external_body]
pub struct ExTable(Table);

#[verifier::external_type_specification]
#[verifier::external_body]
pub struct ExValue(Value);

#[verifier::external_type_specification]
#[verifier::external_body]
pub struct ExArray(Array);

/// Errors of the editor.
#[derive(Debug)]
pub enum EditError {
    /// The content is not valid TOML.
    Parse(String),
    /// A key on the path is missing or cannot be walked.
    KeyNotFound(String),
    /// The new value could not be serialized.
    Serialization(String),
    /// A TOML-level refusal.
    Toml(String),
}

impl EditError {
    /// The text of the error as it is shown to users.
    pub open spec fn text(&self) -> Seq<char> {
        match self {
            EditError::Parse(m) => "Parse error: "@ + m@,
            EditError::KeyNotFound(m) => "Key not found: "@ + m@,
            EditError::Serialization(m) => "Serialization error: "@ + m@,
            EditError::Toml(m) => "TOML error: "@ + m@,
        }
    }

    /// The text of the error as it is shown to users.
    pub fn message(&self) -> (r: String)
        ensures
            r@ == self.text(),
    {
        let (mut out, m) = match self {
            EditError::Parse(m) => (to_owned_string("Parse error: "), m),
            EditError::KeyNotFound(m) => (to_owned_string("Key not found: "), m),
            EditError::Serialization(m) => (to_owned_string("Serialization error: "), m),
            EditError::Toml(m) => (to_owned_string("TOML error: "), m),
        };
        out.append(m.as_str());
        out
    }
}

/// What an item of a TOML document is.
#[derive(Debug, Clone, Copy, PartialEq, Eq, Structural)]
pub enum ItemKind {
    /// No item.
    Empty,
    /// A (standard) table.
    Table,
    /// An array of tables.
    ArrayOfTables,
    /// An array value.
    Array,
    /// Any other value.
    OtherValue,
}

/// What a TOML value is.
#[derive(Debug, Clone, Copy, PartialEq, Eq, Structural)]
pub enum ValueKind {
    String,
    Integer,
    Float,
    Boolean,
    Datetime,
    Array,
    InlineTable,
}

/// The decoration of a value or a table: the text before and after it (spacing and
/// comments), as `Decor::prefix` and `Decor::suffix` hold it and `RawString::as_str`
/// reads it; none where it is not set or is held only as a span of a parsed text.
pub struct TomlDecor {
    pub prefix: Option<Seq<char>>,
    pub suffix: Option<Seq<char>>,
}

/// No decoration set (`Decor::default`): what a new value or table has.
pub open spec fn no_decor() -> TomlDecor {
    TomlDecor { prefix: None, suffix: None }
}

/// What a TOML value holds, as the editor reads it.
pub enum TomlValue {
    /// An array value: its elements, its span in the text it was parsed from
    /// (`Array::span`; none for a document that was made editable or a new value), and
    /// its decoration.
    Array(Seq<TomlValue>, Option<(nat, nat)>, TomlDecor),
    /// Any other value: its kind, its text as `Display` writes it once its own
    /// decoration is cleared, its span, and its decoration.
    Scalar(ValueKind, Seq<char>, Option<(nat, nat)>, TomlDecor),
}

/// What an item of a TOML document holds: nothing, a table (its keys with the items
/// they hold; keys that hold nothing are left out, as `Table::get` leaves them out),
/// an array of tables (whose contents the editor does not read), or a value.
pub enum TomlItem {
    Nothing,
    Table(Map<Seq<char>, TomlItem>, TomlDecor),
    ArrayOfTables,
    Value(TomlValue),
}

/// The kind of an item, as [`item_kind`] reports it.
pub open spec fn kind_of(item: TomlItem) -> ItemKind {
    match item {
        TomlItem::Nothing => ItemKind::Empty,
        TomlItem::Table(_, _) => ItemKind::Table,
        TomlItem::ArrayOfTables => ItemKind::ArrayOfTables,
        TomlItem::Value(TomlValue::Array(_, _, _)) => ItemKind::Array,
        TomlItem::Value(_) => ItemKind::OtherValue,
    }
}

/// The kind of a value, as [`value_kind`] reports it.
pub open spec fn value_kind_of(v: TomlValue) -> ValueKind {
    match v {
        TomlValue::Array(_, _, _) => ValueKind::Array,
        TomlValue::Scalar(k, _, _, _) => k,
    }
}

/// The span of a value.
pub open spec fn value_span_of(v: TomlValue) -> Option<(nat, nat)> {
    match v {
        TomlValue::Array(_, sp, _) => sp,
        TomlValue::Scalar(_, _, sp, _) => sp,
    }
}

/// The decoration of a value.
pub open spec fn value_decor_of(v: TomlValue) -> TomlDecor {
    match v {
        TomlValue::Array(_, _, d) => d,
        TomlValue::Scalar(_, _, _, d) => d,
    }
}

/// The value with decoration `d` in place of its own.
pub open spec fn with_decor(v: TomlValue, d: TomlDecor) -> TomlValue {
    match v {
        TomlValue::Array(el, sp, _) => TomlValue::Array(el, sp, d),
        TomlValue::Scalar(k, t, sp, _) => TomlValue::Scalar(k, t, sp, d),
    }
}

/// The value that setting `v` where `old` was leaves: `v` with the decoration of `old`
/// when `old` is a value of the same kind, else `v` as it is.
pub open spec fn placed_value(old: Option<TomlItem>, v: TomlValue) -> TomlValue {
    match old {
        Some(TomlItem::Value(o)) => if value_kind_of(o) == value_kind_of(v) {
            with_decor(v, value_decor_of(o))
        } else {
            v
        },
        _ => v,
    }
}

/// A filler value, never read: what [`bare_value`] gives outside an array's elements.
pub open spec fn no_value() -> TomlValue {
    TomlValue::Scalar(ValueKind::String, Seq::empty(), None, no_decor())
}

/// A value without its decoration and span: what its text holds, however it is laid out.
pub open spec fn bare_value(v: TomlValue) -> TomlValue
    decreases v,
{
    match v {
        TomlValue::Array(el, _, _) => TomlValue::Array(
            Seq::new(el.len(), |i: int| if 0 <= i < el.len() { bare_value(el[i]) } else { no_value() }),
            None,
            no_decor(),
        ),
        TomlValue::Scalar(k, t, _, _) => TomlValue::Scalar(k, t, None, no_decor()),
    }
}

/// An item without the decoration and spans of anything in it.
pub open spec fn bare(item: TomlItem) -> TomlItem
    decreases item,
{
    match item {
        TomlItem::Table(m, _) => TomlItem::Table(
            Map::new(|k: Seq<char>| m.contains_key(k), |k: Seq<char>| if m.contains_key(k) { bare(m[k]) } else { TomlItem::Nothing }),
            no_decor(),
        ),
        TomlItem::Value(v) => TomlItem::Value(bare_value(v)),
        _ => item,
    }
}

/// A table's keys after `key` is given `item`: an item that holds nothing takes the key out.
pub open spec fn table_put(m: Map<Seq<char>, TomlItem>, key: Seq<char>, item: TomlItem) -> Map<Seq<char>, TomlItem> {
    if item is Nothing { m.remove(key) } else { m.insert(key, item) }
}

/// Whether `str::parse::<DocumentMut>` refuses `content`, and with which message (the
/// debug form of `toml_edit`'s error); a function of the text alone.
pub uninterp spec fn toml_parse_error(content: Seq<char>) -> Option<Seq<char>>;

/// The root item of the document that `str::parse::<DocumentMut>` reads from `content`.
pub uninterp spec fn toml_parsed(content: Seq<char>) -> TomlItem;

/// The root item of the document that `Document::parse` reads from `content`: the same
/// items, with the spans of the values in the text.
pub uninterp spec fn toml_spanned(content: Seq<char>) -> TomlItem;

/// What a document's root item holds.
pub uninterp spec fn toml_document(doc: DocumentMut) -> TomlItem;

/// What the root item of a document parsed with spans holds.
pub uninterp spec fn toml_spanned_document(doc: Document<String>) -> TomlItem;

/// What an item holds.
pub uninterp spec fn toml_item(item: Item) -> TomlItem;

/// What a table holds: its keys that hold an item, with what those items hold.
pub uninterp spec fn toml_table(table: Table) -> Map<Seq<char>, TomlItem>;

/// What a value holds.
pub uninterp spec fn toml_value(value: Value) -> TomlValue;

/// The elements of an array, in order (`Array::get`, `Array::len`).
pub uninterp spec fn toml_array(array: Array) -> Seq<TomlValue>;

/// The span of an array (`Array::span`).
pub uninterp spec fn toml_array_span(array: Array) -> Option<(nat, nat)>;

/// The decoration of a table (`Table::decor`).
pub uninterp spec fn toml_table_decor(table: Table) -> TomlDecor;

/// The decoration of an array (`Array::decor`).
pub uninterp spec fn toml_array_decor(array: Array) -> TomlDecor;

/// Parses `content` as a TOML document (`str::parse::<DocumentMut>`); the error is
/// the debug form of `toml_edit`'s error, as [`toml_parse_error`] names it. The
/// document's root is a table ([`toml_parsed`] names what it holds).
#[verifier::external_body]
fn parse_document(content: &str) -> (r: Result<DocumentMut, String>)
    ensures
        match r {
            Ok(d) => toml_parse_error(content@) is None && toml_document(d) == toml_parsed(content@)
                && toml_parsed(content@) is Table,
            Err(m) => toml_parse_error(content@) == Some(m@),
        },
{
    match content.parse::<DocumentMut>() {
        Ok(d) => Ok(d),
        Err(e) => Err(format!("{:?}", e)),
    }
}

/// Parses `content` with spans (`Document::parse`): it refuses what
/// `str::parse::<DocumentMut>` refuses, with the same error, as that parse goes through
/// this one.
#[verifier::external_body]
fn parse_spanned(content: &str) -> (r: Result<Document<String>, String>)
    ensures
        match r {
            Ok(d) => toml_parse_error(content@) is None && toml_spanned_document(d) == toml_spanned(content@),
            Err(m) => toml_parse_error(content@) == Some(m@),
        },
{
    match Document::parse(content.to_string()) {
        Ok(d) => Ok(d),
        Err(e) => Err(format!("{:?}", e)),
    }
}

/// The text that `toml_edit` writes for a document (`DocumentMut`'s `Display`): a
/// function of the document, its decoration and order included.
pub uninterp spec fn toml_text(doc: DocumentMut) -> Seq<char>;

/// The item holds no table that could vanish when written out: every table below it
/// holds at least one key (the item itself may be an empty table when `may_be_empty`),
/// and it holds no array of tables.
pub open spec fn filled(item: TomlItem, may_be_empty: bool) -> bool
    decreases item,
{
    match item {
        TomlItem::Table(m, _) => (may_be_empty || exists|k: Seq<char>| #[trigger] m.contains_key(k))
            && forall|k: Seq<char>| #[trigger] m.contains_key(k) ==> filled(m[k], false),
        TomlItem::Value(_) => true,
        _ => false,
    }
}

/// `text` is what `toml_edit` writes for a document holding `items` (decoration
/// included), and, when they are [`filled`], it reads back as those items up to
/// decoration and spans.
pub open spec fn written_as(text: Seq<char>, items: TomlItem) -> bool {
    &&& exists|d: DocumentMut| toml_document(d) == items && text == #[trigger] toml_text(d)
    &&& filled(items, true) ==> toml_parse_error(text) is None && bare(toml_parsed(text)) == bare(items)
}

/// The text of a document (`DocumentMut`'s `Display`). `toml_edit` writes each item
/// with its decoration (comments and spacing), and the text parses back to the same
/// tables and values; what reads back as decoration may differ where none was set
/// (the default spacing is written then), and the order of dotted keys or a missing
/// final newline is not kept. It leaves out tables that have nothing to show (implicit
/// or dotted tables without keys, arrays of tables without tables), so the contract
/// states what reads back only for a [`filled`] document, where nothing is left out.
#[verifier::external_body]
fn render_document(doc: &DocumentMut) -> (r: String)
    ensures
        r@ == toml_text(*doc),
        filled(toml_document(*doc), true) ==> toml_parse_error(r@) is None
            && bare(toml_parsed(r@)) == bare(toml_document(*doc)),
{
    doc.to_string()
}

/// The document's root item (`DocumentMut::as_item_mut`).
#[verifier::external_body]
fn document_root_mut(doc: &mut DocumentMut) -> (r: &mut Item)
    ensures
        toml_item(*r) == toml_document(*old(doc)),
        toml_document(*final(doc)) == toml_item(*final(r)),
{
    doc.as_item_mut()
}

/// The document's root item (`DocumentMut::as_item`).
#[verifier::external_body]
fn document_root(doc: &DocumentMut) -> (r: &Item)
    ensures
        toml_item(*r) == toml_document(*doc),
{
    doc.as_item()
}

/// The root item of a document parsed with spans (`Document::as_item`).
#[verifier::external_body]
fn spanned_root(doc: &Document<String>) -> (r: &Item)
    ensures
        toml_item(*r) == toml_spanned_document(*doc),
{
    doc.as_item()
}

/// Which variant of `Item` (and, for values, whether an array) `item` is.
#[verifier::external_body]
fn item_kind(item: &Item) -> (r: ItemKind)
    ensures
        r == kind_of(toml_item(*item)),
{
    match item {
        Item::None => ItemKind::Empty,
        Item::Table(_) => ItemKind::Table,
        Item::ArrayOfTables(_) => ItemKind::ArrayOfTables,
        Item::Value(Value::Array(_)) => ItemKind::Array,
        Item::Value(_) => ItemKind::OtherValue,
    }
}

/// Which variant of `Value` `value` is.
#[verifier::external_body]
fn value_kind(value: &Value) -> (r: ValueKind)
    ensures
        r == value_kind_of(toml_value(*value)),
{
    match value {
        Value::String(_) => ValueKind::String,
        Value::Integer(_) => ValueKind::Integer,
        Value::Float(_) => ValueKind::Float,
        Value::Boolean(_) => ValueKind::Boolean,
        Value::Datetime(_) => ValueKind::Datetime,
        Value::Array(_) => ValueKind::Array,
        Value::InlineTable(_) => ValueKind::InlineTable,
    }
}

/// The table that `item` is, if it is one (`Item::as_table_mut`); the item is that
/// table afterwards.
#[verifier::external_body]
fn item_table_mut(item: &mut Item) -> (r: Option<&mut Table>)
    ensures
        match toml_item(*old(item)) {
            TomlItem::Table(m, d) => r matches Some(t) && toml_table(*t) == m && toml_table_decor(*t) == d
                && toml_item(*final(item)) == TomlItem::Table(toml_table(*final(t)), toml_table_decor(*final(t))),
            _ => r is None && *final(item) == *old(item),
        },
{
    item.as_table_mut()
}

/// The table that `item` is, if it is one (`Item::as_table`).
#[verifier::external_body]
fn item_table(item: &Item) -> (r: Option<&Table>)
    ensures
        match toml_item(*item) {
            TomlItem::Table(m, d) => r matches Some(t) && toml_table(*t) == m && toml_table_decor(*t) == d,
            _ => r is None,
        },
{
    item.as_table()
}

/// The array value that `item` is, if it is one (`Item::as_array_mut`); the item is
/// that array afterwards.
#[verifier::external_body]
fn item_array_mut(item: &mut Item) -> (r: Option<&mut Array>)
    ensures
        match toml_item(*old(item)) {
            TomlItem::Value(TomlValue::Array(el, sp, d)) => r matches Some(a) && toml_array(*a) == el
                && toml_array_span(*a) == sp && toml_array_decor(*a) == d
                && toml_item(*final(item)) == TomlItem::Value(TomlValue::Array(
                    toml_array(*final(a)),
                    toml_array_span(*final(a)),
                    toml_array_decor(*final(a)),
                )),
            _ => r is None && *final(item) == *old(item),
        },
{
    item.as_array_mut()
}

/// The array value that `item` is, if it is one (`Item::as_array`).
#[verifier::external_body]
fn item_array(item: &Item) -> (r: Option<&Array>)
    ensures
        match toml_item(*item) {
            TomlItem::Value(TomlValue::Array(el, sp, d)) => r matches Some(a) && toml_array(*a) == el
                && toml_array_span(*a) == sp && toml_array_decor(*a) == d,
            _ => r is None,
        },
{
    item.as_array()
}

/// The value that `item` is, if it is one (`Item::as_value`).
#[verifier::external_body]
fn item_value(item: &Item) -> (r: Option<&Value>)
    ensures
        match toml_item(*item) {
            TomlItem::Value(v) => r matches Some(x) && toml_value(*x) == v,
            _ => r is None,
        },
{
    item.as_value()
}

/// The value that `item` is, if it is one (`Item::as_value_mut`); the item is that
/// value afterwards.
#[verifier::external_body]
fn item_value_mut(item: &mut Item) -> (r: Option<&mut Value>)
    ensures
        match toml_item(*old(item)) {
            TomlItem::Value(v) => r matches Some(x) && toml_value(*x) == v
                && toml_item(*final(item)) == TomlItem::Value(toml_value(*final(x))),
            _ => r is None && *final(item) == *old(item),
        },
{
    item.as_value_mut()
}

/// `Table::contains_key`: whether the key holds an item.
#[verifier::external_body]
fn table_contains_key(table: &Table, key: &str) -> (r: bool)
    ensures
        r == toml_table(*table).contains_key(key@),
{
    table.contains_key(key)
}

/// `Table::get_mut`: the item the key holds, if it holds one; the table holds what
/// that item holds afterwards.
#[verifier::external_body]
fn table_get_mut<'a>(table: &'a mut Table, key: &str) -> (r: Option<&'a mut Item>)
    ensures
        toml_table(*old(table)).contains_key(key@) ==> (r matches Some(c)
            && toml_item(*c) == toml_table(*old(table))[key@]
            && toml_table(*final(table)) == table_put(toml_table(*old(table)), key@, toml_item(*final(c)))
            && toml_table_decor(*final(table)) == toml_table_decor(*old(table))),
        !toml_table(*old(table)).contains_key(key@) ==> r is None && *final(table) == *old(table),
{
    table.get_mut(key)
}

/// `Table::get`: the item the key holds, if it holds one.
#[verifier::external_body]
fn table_get<'a>(table: &'a Table, key: &str) -> (r: Option<&'a Item>)
    ensures
        toml_table(*table).contains_key(key@) ==> r is Some && toml_item(*r.unwrap()) == toml_table(*table)[key@],
        !toml_table(*table).contains_key(key@) ==> r is None,
{
    table.get(key)
}

/// A copy of the item stored under `key` (`Table::get`, cloned).
#[verifier::external_body]
fn table_get_cloned(table: &Table, key: &str) -> (r: Option<Item>)
    ensures
        toml_table(*table).contains_key(key@) ==> r is Some && toml_item(r.unwrap()) == toml_table(*table)[key@],
        !toml_table(*table).contains_key(key@) ==> r is None,
{
    table.get(key).cloned()
}

/// `Table::insert`: the key holds `item` afterwards; the item that was there is dropped.
/// The table's own decoration stays.
#[verifier::external_body]
fn table_insert(table: &mut Table, key: &str, item: Item)
    ensures
        toml_table(*final(table)) == table_put(toml_table(*old(table)), key@, toml_item(item)),
        toml_table_decor(*final(table)) == toml_table_decor(*old(table)),
{
    table.insert(key, item);
}

/// `Table::remove`: the key holds nothing afterwards; the removed item is dropped.
/// The table's own decoration stays.
#[verifier::external_body]
fn table_remove(table: &mut Table, key: &str)
    ensures
        toml_table(*final(table)) == toml_table(*old(table)).remove(key@),
        toml_table_decor(*final(table)) == toml_table_decor(*old(table)),
{
    table.remove(key);
}

/// `Array::len`: the array's element count.
#[verifier::external_body]
fn array_len(array: &Array) -> (r: usize)
    ensures
        r == toml_array(*array).len(),
{
    array.len()
}

/// `Array::get`: the element at `index`, if there is one.
#[verifier::external_body]
fn array_get(array: &Array, index: usize) -> (r: Option<&Value>)
    ensures
        index < toml_array(*array).len() ==> r is Some && toml_value(*r.unwrap()) == toml_array(*array)[index as int],
        index >= toml_array(*array).len() ==> r is None,
{
    array.get(index)
}

/// `Array::replace`: the element at `index` holds `value` afterwards, with the old
/// element's decoration (the method copies it over); the array's span and decoration
/// stay. It panics at an index past the end, which `requires` rules out.
#[verifier::external_body]
fn array_replace(array: &mut Array, index: usize, value: Value)
    requires
        index < toml_array(*old(array)).len(),
    ensures
        toml_array(*final(array)) == toml_array(*old(array)).update(
            index as int,
            with_decor(toml_value(value), value_decor_of(toml_array(*old(array))[index as int])),
        ),
        toml_array_span(*final(array)) == toml_array_span(*old(array)),
        toml_array_decor(*final(array)) == toml_array_decor(*old(array)),
{
    array.replace(index, value);
}

/// `Array::remove`: the element at `index` is taken out; the array's span stays. It
/// panics at an index past the end, which `requires` rules out.
#[verifier::external_body]
fn array_remove(array: &mut Array, index: usize)
    requires
        index < toml_array(*old(array)).len(),
    ensures
        toml_array(*final(array)) == toml_array(*old(array)).remove(index as int),
        toml_array_span(*final(array)) == toml_array_span(*old(array)),
        toml_array_decor(*final(array)) == toml_array_decor(*old(array)),
{
    array.remove(index);
}

/// The span of a value in the text it was parsed from (`Value::span`).
#[verifier::external_body]
fn value_span(value: &Value) -> (r: Option<std::ops::Range<usize>>)
    ensures
        match value_span_of(toml_value(*value)) {
            Some((s, e)) => r matches Some(rg) && rg.start == s && rg.end == e,
            None => r is None,
        },
{
    value.span()
}

/// A new empty table item (`Item::Table(Table::new())`), with no decoration set.
#[verifier::external_body]
fn new_table_item() -> (r: Item)
    ensures
        toml_item(r) == TomlItem::Table(Map::empty(), no_decor()),
{
    Item::Table(Table::new())
}

/// The item holding `value` (`Item::Value`).
#[verifier::external_body]
fn value_item(value: Value) -> (r: Item)
    ensures
        toml_item(r) == TomlItem::Value(toml_value(value)),
{
    Item::Value(value)
}

/// Gives `target` a copy of the decoration (comments and spacing) of `source`
/// (`Value::decor`, `Value::decor_mut`); what the value holds stays.
#[verifier::external_body]
fn copy_value_decor(source: &Value, target: &mut Value)
    ensures
        toml_value(*final(target)) == with_decor(toml_value(*old(target)), value_decor_of(toml_value(*source))),
{
    *target.decor_mut() = source.decor().clone();
}

/// Gives `target` a copy of the decoration of `source` (`Table::decor`,
/// `Table::decor_mut`); what the table holds stays.
#[verifier::external_body]
fn copy_table_decor(source: &Table, target: &mut Table)
    ensures
        toml_table(*final(target)) == toml_table(*old(target)),
        toml_table_decor(*final(target)) == toml_table_decor(*source),
{
    *target.decor_mut() = source.decor().clone();
}

/// The message for an array index past the end.
pub open spec fn index_out_of_bounds_msg(index: nat) -> Seq<char> {
    "Array index "@ + decimal(index) + " out of bounds"@
}

fn index_out_of_bounds(index: usize) -> (r: EditError)
    ensures
        r matches EditError::KeyNotFound(m) && m@ == index_out_of_bounds_msg(index as nat),
{
    let mut m = to_owned_string("Array index ");
    let d = usize_to_decimal(index);
    m.append(d.as_str());
    m.append(" out of bounds");
    EditError::KeyNotFound(m)
}

/// `'`, `key`, then `rest`.
fn quoted_then(key: &str, rest: &str) -> (r: String)
    ensures
        r@ == "'"@ + key@ + rest@,
{
    let mut m = to_owned_string("'");
    m.append(key);
    m.append(rest);
    m
}

/// The message for a path that walks into something that is not a table.
pub open spec fn non_table_msg(key: Seq<char>) -> Seq<char> {
    "Cannot navigate into non-table at '"@ + key + "'"@
}

fn non_table_error(key: &str) -> (r: EditError)
    ensures
        r matches EditError::KeyNotFound(m) && m@ == non_table_msg(key@),
{
    let mut m = to_owned_string("Cannot navigate into non-table at '");
    m.append(key);
    m.append("'");
    EditError::KeyNotFound(m)
}

/// `target` with the decoration of `source` where both are values of the same kind or
/// both are tables.
pub open spec fn decor_kept(source: TomlItem, target: TomlItem) -> TomlItem {
    match (source, target) {
        (TomlItem::Table(_, d), TomlItem::Table(m, _)) => TomlItem::Table(m, d),
        (TomlItem::Value(sv), TomlItem::Value(tv)) => TomlItem::Value(placed_value(Some(TomlItem::Value(sv)), tv)),
        _ => target,
    }
}

/// Gives `target` the decoration of `source` where both are values of the same kind or
/// both are tables; otherwise leaves it. What `target` holds stays.
fn preserve_decor(source: &Item, target: &mut Item)
    ensures
        toml_item(*final(target)) == decor_kept(toml_item(*source), toml_item(*old(target))),
{
    let sk = item_kind(source);
    let tk = item_kind(target);
    if sk == ItemKind::Table && tk == ItemKind::Table {
        if let Some(src) = item_table(source) {
            if let Some(tgt) = item_table_mut(target) {
                copy_table_decor(src, tgt);
            }
        }
    } else if let Some(src) = item_value(source) {
        if let Some(tgt) = item_value_mut(target) {
            if value_kind(src) == value_kind(tgt) {
                copy_value_decor(src, tgt);
            }
        }
    }
}

/// What setting the last key of a path does to the item reached before it.
#[derive(Debug, Clone, Copy, PartialEq, Eq, Structural)]
pub enum LastStep {
    /// Replace the element at this index of the array.
    ReplaceElement(usize),
    /// Set the key in the table.
    SetKey,
    /// Replace the whole item by the value.
    ReplaceItem,
}

/// What setting `key` does to an item of kind `kind` (an array of `len` elements when
/// it is an array): a key that reads as an index needs an array and an index below its
/// length; any other key is set in a table, or replaces an item that is not a table.
pub fn last_update_step(key: &str, kind: ItemKind, len: usize) -> (r: Result<LastStep, EditError>)
    ensures
        match parse_usize_spec(key@) {
            Some(i) => if kind == ItemKind::Array {
                if i >= len {
                    r matches Err(EditError::KeyNotFound(m)) && m@ == index_out_of_bounds_msg(i)
                } else {
                    r == Ok::<LastStep, EditError>(LastStep::ReplaceElement(i as usize))
                }
            } else {
                r matches Err(EditError::KeyNotFound(m)) && m@ == "'"@ + key@ + "' is not an array"@
            },
            None => if kind == ItemKind::Table {
                r == Ok::<LastStep, EditError>(LastStep::SetKey)
            } else {
                r == Ok::<LastStep, EditError>(LastStep::ReplaceItem)
            },
        },
{
    match parse_usize(key) {
        Some(index) => {
            if kind == ItemKind::Array {
                if index >= len {
                    Err(index_out_of_bounds(index))
                } else {
                    Ok(LastStep::ReplaceElement(index))
                }
            } else {
                Err(EditError::KeyNotFound(quoted_then(key, "' is not an array")))
            }
        },
        None => {
            if kind == ItemKind::Table {
                Ok(LastStep::SetKey)
            } else {
                Ok(LastStep::ReplaceItem)
            }
        },
    }
}

/// How the last key of a path is removed from, or looked up in, its parent item.
#[derive(Debug, Clone, Copy, PartialEq, Eq, Structural)]
pub enum LastKeyPlace {
    /// A key of the parent table.
    TableKey,
    /// An element of the parent array.
    Element(usize),
}

/// The message for a key that is not an index of an array.
pub open spec fn not_index_msg(key: Seq<char>) -> Seq<char> {
    "'"@ + key + "' is not a valid array index"@
}

/// Where the last key `key` sits in a parent of kind `kind` (an array of `len` elements
/// when it is an array) whose table, when it is one, holds the key iff `present`:
/// `other_msg` is the refusal for a parent that is neither a table nor an array.
pub fn locate_last_key(key: &str, kind: ItemKind, len: usize, present: bool, other_msg: String) -> (r: Result<LastKeyPlace, EditError>)
    ensures
        kind == ItemKind::Table ==> (if present {
            r == Ok::<LastKeyPlace, EditError>(LastKeyPlace::TableKey)
        } else {
            r matches Err(EditError::KeyNotFound(m)) && m@ == key@
        }),
        kind == ItemKind::Array ==> (match parse_usize_spec(key@) {
            Some(i) => if i >= len {
                r matches Err(EditError::KeyNotFound(m)) && m@ == index_out_of_bounds_msg(i)
            } else {
                r == Ok::<LastKeyPlace, EditError>(LastKeyPlace::Element(i as usize))
            },
            None => r matches Err(EditError::KeyNotFound(m)) && m@ == not_index_msg(key@),
        }),
        kind != ItemKind::Table && kind != ItemKind::Array ==>
            (r matches Err(EditError::KeyNotFound(m)) && m@ == other_msg@),
{
    if kind == ItemKind::Table {
        if present {
            Ok(LastKeyPlace::TableKey)
        } else {
            Err(EditError::KeyNotFound(to_owned_string(key)))
        }
    } else if kind == ItemKind::Array {
        match parse_usize(key) {
            Some(index) => {
                if index >= len {
                    Err(index_out_of_bounds(index))
                } else {
                    Ok(LastKeyPlace::Element(index))
                }
            },
            None => Err(EditError::KeyNotFound(quoted_then(key, "' is not a valid array index"))),
        }
    } else {
        Err(EditError::KeyNotFound(other_msg))
    }
}

/// The keys joined with `.`.
pub open spec fn joined_keys(keys: Seq<Seq<char>>) -> Seq<char>
    decreases keys.len(),
{
    if keys.len() == 0 {
        seq![]
    } else if keys.len() == 1 {
        keys[0]
    } else {
        joined_keys(keys.drop_last()) + "."@ + keys.last()
    }
}

/// The views of the keys of a path.
pub open spec fn path_keys(key_path: Seq<&str>) -> Seq<Seq<char>> {
    key_path.map_values(|k: &str| k@)
}

/// The keys of `key_path` joined with `.`.
pub fn join_keys(key_path: &[&str]) -> (r: String)
    ensures
        r@ == joined_keys(path_keys(key_path@)),
{
    let mut out = String::new();
    let mut i: usize = 0;
    while i < key_path.len()
        invariant
            i <= key_path@.len(),
            out@ == joined_keys(path_keys(key_path@).take(i as int)),
        decreases key_path@.len() - i,
    {
        proof {
            let ks = path_keys(key_path@).take(i + 1);
            assert(ks.drop_last() =~= path_keys(key_path@).take(i as int));
            assert(ks.last() == key_path@[i as int]@);
        }
        if i > 0 {
            out.append(".");
        }
        out.append(key_path[i]);
        i += 1;
    }
    proof {
        assert(path_keys(key_path@).take(i as int) =~= path_keys(key_path@));
    }
    out
}

/// The message for an empty key path.
pub open spec fn empty_path_msg() -> Seq<char> {
    "Empty key path"@
}

/// The text of a "key not found" error with message `m`.
pub open spec fn key_not_found(m: Seq<char>) -> Seq<char> {
    "Key not found: "@ + m
}

/// What the new value of an update comes to: what it holds, or the text of its error.
pub open spec fn value_outcome(new_value: Result<Value, EditError>) -> Result<TomlValue, Seq<char>> {
    match new_value {
        Ok(v) => Ok(toml_value(v)),
        Err(e) => Err(e.text()),
    }
}

/// Setting `v` at the key path `keys` (not empty) below the item `cur`: the item
/// afterwards, or the text of the error. Each key but the last must reach a table
/// (a missing one is created); the last key is set in a table, replaces an item that is
/// not a table, or, when it reads as an index, replaces that element of an array.
pub open spec fn update_spec(cur: TomlItem, keys: Seq<Seq<char>>, v: Result<TomlValue, Seq<char>>) -> Result<TomlItem, Seq<char>>
    decreases keys.len(),
{
    if keys.len() <= 1 {
        let key = keys[0];
        match v {
            Err(e) => Err(e),
            Ok(val) => match parse_usize_spec(key) {
                Some(i) => match cur {
                    TomlItem::Value(TomlValue::Array(el, sp, d)) => if i < el.len() {
                        Ok(TomlItem::Value(TomlValue::Array(el.update(i as int, with_decor(val, value_decor_of(el[i as int]))), sp, d)))
                    } else {
                        Err(key_not_found(index_out_of_bounds_msg(i)))
                    },
                    _ => Err(key_not_found("'"@ + key + "' is not an array"@)),
                },
                None => match cur {
                    TomlItem::Table(m, d) => Ok(TomlItem::Table(
                        m.insert(key, TomlItem::Value(placed_value(if m.contains_key(key) { Some(m[key]) } else { None }, val))),
                        d,
                    )),
                    _ => Ok(TomlItem::Value(val)),
                },
            },
        }
    } else {
        let key = keys[0];
        match cur {
            TomlItem::Table(m, d) => {
                let child = if m.contains_key(key) { m[key] } else { TomlItem::Table(Map::empty(), no_decor()) };
                match update_spec(child, keys.drop_first(), v) {
                    Ok(c) => Ok(TomlItem::Table(table_put(m, key, c), d)),
                    Err(e) => Err(e),
                }
            },
            _ => Err(key_not_found(non_table_msg(key))),
        }
    }
}

/// An update never leaves an item that holds nothing, and fails when the value did.
pub(crate) proof fn lemma_update_spec(cur: TomlItem, keys: Seq<Seq<char>>, v: Result<TomlValue, Seq<char>>)
    ensures
        update_spec(cur, keys, v) matches Ok(t) ==> !(t is Nothing),
        v is Err ==> update_spec(cur, keys, v) is Err,
    decreases keys.len(),
{
    if keys.len() > 1 {
        if let TomlItem::Table(m, _) = cur {
            let child = if m.contains_key(keys[0]) { m[keys[0]] } else { TomlItem::Table(Map::empty(), no_decor()) };
            lemma_update_spec(child, keys.drop_first(), v);
        }
    }
}

/// An update of a [`filled`] item gives a filled item, which is not an empty table.
pub(crate) proof fn lemma_update_filled(cur: TomlItem, keys: Seq<Seq<char>>, v: Result<TomlValue, Seq<char>>)
    requires
        filled(cur, true),
        keys.len() > 0,
    ensures
        update_spec(cur, keys, v) matches Ok(t) ==> filled(t, false),
    decreases keys.len(),
{
    let key = keys[0];
    if update_spec(cur, keys, v) is Ok {
        let t = update_spec(cur, keys, v)->Ok_0;
        if keys.len() <= 1 {
            if let TomlItem::Table(m, _) = cur {
                if parse_usize_spec(key) is None {
                    let n = t->Table_0;
                    assert(n.contains_key(key));
                    assert forall|k: Seq<char>| #[trigger] n.contains_key(k) implies filled(n[k], false) by {
                        if k != key {
                            assert(m.contains_key(k));
                        }
                    }
                }
            }
        } else {
            let m = cur->Table_0;
            let child = if m.contains_key(key) { m[key] } else { TomlItem::Table(Map::empty(), no_decor()) };
            if m.contains_key(key) {
                assert(filled(m[key], false));
            }
            lemma_update_filled(child, keys.drop_first(), v);
            let c = update_spec(child, keys.drop_first(), v)->Ok_0;
            let n = t->Table_0;
            assert(n == m.insert(key, c));
            assert(n.contains_key(key));
            assert forall|k: Seq<char>| #[trigger] n.contains_key(k) implies filled(n[k], false) by {
                if k != key {
                    assert(m.contains_key(k));
                }
            }
        }
    }
}

/// A value outcome without decoration and spans.
pub open spec fn bare_outcome(v: Result<TomlValue, Seq<char>>) -> Result<TomlValue, Seq<char>> {
    match v {
        Ok(x) => Ok(bare_value(x)),
        Err(e) => Err(e),
    }
}

/// An update outcome without decoration and spans.
pub open spec fn bare_result(r: Result<TomlItem, Seq<char>>) -> Result<TomlItem, Seq<char>> {
    match r {
        Ok(t) => Ok(bare(t)),
        Err(e) => Err(e),
    }
}

/// Stripping a value ignores its decoration, keeps its kind, and leaves no decoration.
proof fn lemma_bare_value(v: TomlValue, d: TomlDecor)
    ensures
        bare_value(with_decor(v, d)) == bare_value(v),
        with_decor(bare_value(v), no_decor()) == bare_value(v),
        value_decor_of(bare_value(v)) == no_decor(),
        value_kind_of(bare_value(v)) == value_kind_of(v),
        bare_value(placed_value(None, v)) == bare_value(v),
{
}

/// Stripping keeps the kind of an item.
proof fn lemma_bare_kind(item: TomlItem)
    ensures
        kind_of(bare(item)) == kind_of(item),
        bare(item) is Table <==> item is Table,
        bare(item) is Nothing <==> item is Nothing,
{
}

/// Whether an item is [`filled`] does not depend on its decoration.
pub(crate) proof fn lemma_filled_bare(item: TomlItem, f: bool)
    ensures
        filled(bare(item), f) == filled(item, f),
        filled(item, false) ==> filled(item, true),
    decreases item,
{
    if let TomlItem::Table(m, _) = item {
        let bm = bare(item)->Table_0;
        assert(bm.dom() =~= m.dom());
        assert forall|k: Seq<char>| #[trigger] m.contains_key(k) implies bm[k] == bare(m[k])
            && filled(bm[k], false) == filled(m[k], false) by {
            lemma_filled_bare(m[k], false);
        }
        let all_m = forall|k: Seq<char>| #[trigger] m.contains_key(k) ==> filled(m[k], false);
        let all_b = forall|k: Seq<char>| #[trigger] bm.contains_key(k) ==> filled(bm[k], false);
        assert(all_m == all_b) by {
            if all_m {
                assert forall|k: Seq<char>| #[trigger] bm.contains_key(k) implies filled(bm[k], false) by {
                    assert(m.contains_key(k));
                }
            }
            if all_b {
                assert forall|k: Seq<char>| #[trigger] m.contains_key(k) implies filled(m[k], false) by {
                    assert(bm.contains_key(k));
                }
            }
        }
        let some_m = exists|k: Seq<char>| #[trigger] m.contains_key(k);
        let some_b = exists|k: Seq<char>| #[trigger] bm.contains_key(k);
        assert(some_m == some_b) by {
            if some_m {
                let k = choose|k: Seq<char>| #[trigger] m.contains_key(k);
                assert(bm.contains_key(k));
            }
            if some_b {
                let k = choose|k: Seq<char>| #[trigger] bm.contains_key(k);
                assert(m.contains_key(k));
            }
        }
    }
}

/// An update does the same to an item's structure whatever its decoration: stripping
/// before or after the update gives the same outcome.
pub(crate) proof fn lemma_bare_update(cur: TomlItem, keys: Seq<Seq<char>>, v: Result<TomlValue, Seq<char>>)
    requires
        keys.len() > 0,
    ensures
        update_spec(bare(cur), keys, bare_outcome(v)) == bare_result(update_spec(cur, keys, v)),
    decreases keys.len(),
{
    let key = keys[0];
    lemma_bare_kind(cur);
    if keys.len() <= 1 {
        if let Ok(val) = v {
            lemma_bare_value(val, no_decor());
            match parse_usize_spec(key) {
                Some(i) => {
                    if let TomlItem::Value(TomlValue::Array(el, sp, d)) = cur {
                        if i < el.len() {
                            let bel = bare(cur)->Value_0->Array_0;
                            let nel = el.update(i as int, with_decor(val, value_decor_of(el[i as int])));
                            lemma_bare_value(val, value_decor_of(el[i as int]));
                            lemma_bare_value(el[i as int], no_decor());
                            assert(bare(TomlItem::Value(TomlValue::Array(nel, sp, d)))->Value_0->Array_0
                                =~= bel.update(i as int, with_decor(bare_value(val), value_decor_of(bel[i as int]))));
                        }
                    }
                },
                None => {
                    if let TomlItem::Table(m, d) = cur {
                        let bm = bare(cur)->Table_0;
                        let old = if m.contains_key(key) { Some(m[key]) } else { None };
                        let bold = if bm.contains_key(key) { Some(bm[key]) } else { None };
                        let pv = placed_value(old, val);
                        let nm = m.insert(key, TomlItem::Value(pv));
                        assert(bare_value(pv) == bare_value(val)) by {
                            if let Some(TomlItem::Value(o)) = old {
                                lemma_bare_value(val, value_decor_of(o));
                            }
                        }
                        assert(placed_value(bold, bare_value(val)) == bare_value(val)) by {
                            if let Some(TomlItem::Value(o)) = bold {
                                lemma_bare_value(val, value_decor_of(o));
                                assert(o == bare(m[key])->Value_0);
                                lemma_bare_value(m[key]->Value_0, no_decor());
                            }
                        }
                        assert(bare(TomlItem::Value(pv)) == TomlItem::Value(bare_value(pv)));
                        assert(nm[key] == TomlItem::Value(pv));
                        assert(bare(TomlItem::Table(nm, d))->Table_0
                            =~= bm.insert(key, TomlItem::Value(placed_value(bold, bare_value(val)))));
                    }
                },
            }
        }
    } else {
        if let TomlItem::Table(m, d) = cur {
            let bm = bare(cur)->Table_0;
            let child = if m.contains_key(key) { m[key] } else { TomlItem::Table(Map::empty(), no_decor()) };
            let bchild = if bm.contains_key(key) { bm[key] } else { TomlItem::Table(Map::empty(), no_decor()) };
            if !m.contains_key(key) {
                assert(bare(child)->Table_0 =~= Map::<Seq<char>, TomlItem>::empty());
            }
            assert(bchild == bare(child));
            lemma_bare_update(child, keys.drop_first(), v);
            lemma_update_spec(child, keys.drop_first(), v);
            if update_spec(child, keys.drop_first(), v) is Ok {
                let c = update_spec(child, keys.drop_first(), v)->Ok_0;
                lemma_bare_kind(c);
                let nm = table_put(m, key, c);
                assert(bare(TomlItem::Table(nm, d))->Table_0 =~= table_put(bm, key, bare(c)));
            }
        }
    }
}

/// Giving a key an item, after it was given another, is giving it that item.
proof fn lemma_put_over(m: Map<Seq<char>, TomlItem>, k: Seq<char>, x: TomlItem)
    ensures
        forall|c: TomlItem| !(c is Nothing) ==> #[trigger] table_put(m.insert(k, x), k, c) == table_put(m, k, c),
{
    assert forall|c: TomlItem| !(c is Nothing) implies #[trigger] table_put(m.insert(k, x), k, c) == table_put(m, k, c) by {
        assert(m.insert(k, x).insert(k, c) =~= m.insert(k, c));
    }
}

/// The message for a last key whose parent is neither a table nor an array, on removal.
pub open spec fn remove_other_msg() -> Seq<char> {
    "Cannot remove from non-table/non-array parent"@
}

/// Removing the last key of `keys` (not empty) below `cur`: the item afterwards, or the
/// text of the error. Each key but the last must name a table; the last names a key
/// of the table reached, or an element of the array reached.
pub open spec fn remove_spec(cur: TomlItem, keys: Seq<Seq<char>>) -> Result<TomlItem, Seq<char>>
    decreases keys.len(),
{
    let key = keys[0];
    if keys.len() <= 1 {
        match cur {
            TomlItem::Table(m, d) => if m.contains_key(key) {
                Ok(TomlItem::Table(m.remove(key), d))
            } else {
                Err(key_not_found(key))
            },
            TomlItem::Value(TomlValue::Array(el, sp, d)) => match parse_usize_spec(key) {
                Some(i) => if i < el.len() {
                    Ok(TomlItem::Value(TomlValue::Array(el.remove(i as int), sp, d)))
                } else {
                    Err(key_not_found(index_out_of_bounds_msg(i)))
                },
                None => Err(key_not_found(not_index_msg(key))),
            },
            _ => Err(key_not_found(remove_other_msg())),
        }
    } else {
        match cur {
            TomlItem::Table(m, d) => if m.contains_key(key) {
                match remove_spec(m[key], keys.drop_first()) {
                    Ok(c) => Ok(TomlItem::Table(table_put(m, key, c), d)),
                    Err(e) => Err(e),
                }
            } else {
                Err(key_not_found(key))
            },
            _ => Err(key_not_found(non_table_msg(key))),
        }
    }
}

/// The key path (not empty) names an existing key: each key but the last names a
/// table, and the last is a key of the table reached.
pub open spec fn path_present(cur: TomlItem, keys: Seq<Seq<char>>) -> bool
    decreases keys.len(),
{
    match cur {
        TomlItem::Table(m, _) => m.contains_key(keys[0]) && (keys.len() <= 1 || path_present(m[keys[0]], keys.drop_first())),
        _ => false,
    }
}

/// The range that a found item stands for: the span of a value that has one, else the
/// whole text (`len` bytes).
pub open spec fn item_range(item: TomlItem, len: nat) -> (nat, nat) {
    match item {
        TomlItem::Value(v) => match value_span_of(v) {
            Some(sp) => sp,
            None => (0, len),
        },
        _ => (0, len),
    }
}

/// The message for a last key that cannot be looked up in its parent.
pub open spec fn access_other_msg(key: Seq<char>) -> Seq<char> {
    "Cannot access key '"@ + key + "'"@
}

/// Looking up the key path (not empty) below `cur` in a text of `len` bytes: the range
/// of what it names, or the text of the error. Each key but the last must name a table;
/// the last names a key of the table reached, or an element of the array reached.
pub open spec fn range_spec(cur: TomlItem, keys: Seq<Seq<char>>, len: nat) -> Result<(nat, nat), Seq<char>>
    decreases keys.len(),
{
    let key = keys[0];
    if keys.len() <= 1 {
        match cur {
            TomlItem::Table(m, _) => if m.contains_key(key) {
                Ok(item_range(m[key], len))
            } else {
                Err(key_not_found(key))
            },
            TomlItem::Value(TomlValue::Array(el, _, _)) => match parse_usize_spec(key) {
                Some(i) => if i < el.len() {
                    Ok(item_range(TomlItem::Value(el[i as int]), len))
                } else {
                    Err(key_not_found(index_out_of_bounds_msg(i)))
                },
                None => Err(key_not_found(not_index_msg(key))),
            },
            _ => Err(key_not_found(access_other_msg(key))),
        }
    } else {
        match cur {
            TomlItem::Table(m, _) => if m.contains_key(key) {
                range_spec(m[key], keys.drop_first(), len)
            } else {
                Err(key_not_found(key))
            },
            _ => Err(key_not_found(non_table_msg(key))),
        }
    }
}

/// What updating the text `content` at `keys` with `v` gives: the items of the new
/// text, or the text of the error (a parse error, an empty key path, or what
/// [`update_spec`] refuses).
pub open spec fn update_outcome(content: Seq<char>, keys: Seq<Seq<char>>, v: Result<TomlValue, Seq<char>>) -> Result<TomlItem, Seq<char>> {
    match toml_parse_error(content) {
        Some(m) => Err("Parse error: "@ + m),
        None => if keys.len() == 0 {
            Err(key_not_found(empty_path_msg()))
        } else {
            update_spec(toml_parsed(content), keys, v)
        },
    }
}

/// What removing `keys` from the text `content` gives: the items of the new text, or
/// the text of the error.
pub open spec fn remove_outcome(content: Seq<char>, keys: Seq<Seq<char>>) -> Result<TomlItem, Seq<char>> {
    match toml_parse_error(content) {
        Some(m) => Err("Parse error: "@ + m),
        None => if keys.len() == 0 {
            Err(key_not_found(empty_path_msg()))
        } else {
            remove_spec(toml_parsed(content), keys)
        },
    }
}

/// What looking up `keys` in the text `content` of `len` bytes gives: a byte range, or
/// the text of the error.
pub open spec fn range_outcome(content: Seq<char>, keys: Seq<Seq<char>>, len: nat) -> Result<(nat, nat), Seq<char>> {
    match toml_parse_error(content) {
        Some(m) => Err("Parse error: "@ + m),
        None => if keys.len() == 0 {
            Err(key_not_found(empty_path_msg()))
        } else {
            range_spec(toml_spanned(content), keys, len)
        },
    }
}

/// The text parses and the key path, which is not empty, already names a key.
pub open spec fn key_taken(content: Seq<char>, keys: Seq<Seq<char>>) -> bool {
    toml_parse_error(content) is None && keys.len() > 0 && path_present(toml_parsed(content), keys)
}

/// The message for inserting at a key that exists.
pub open spec fn key_exists_msg(joined: Seq<char>) -> Seq<char> {
    "Key '"@ + joined + "' already exists"@
}

/// Sets the value at `key_path[i..]` below `current`, creating missing tables on the way.
fn update_at(current: &mut Item, key_path: &[&str], i: usize, new_value: Result<Value, EditError>) -> (r: Result<(), EditError>)
    requires
        i < key_path@.len(),
    ensures
        match update_spec(toml_item(*old(current)), path_keys(key_path@).skip(i as int), value_outcome(new_value)) {
            Ok(t) => r is Ok && toml_item(*final(current)) == t,
            Err(m) => r matches Err(e) && e.text() == m,
        },
        i == key_path@.len() - 1 ==> (new_value matches Err(e) ==> (r matches Err(f) && f == e)),
    decreases key_path@.len() - i,
{
    let key = key_path[i];
    let ghost keys = path_keys(key_path@).skip(i as int);
    let ghost cur0 = toml_item(*current);
    let ghost vo = value_outcome(new_value);
    proof {
        assert(keys[0] == key@);
        assert(keys.drop_first() =~= path_keys(key_path@).skip(i + 1));
    }
    if i == key_path.len() - 1 {
        let new_val = match new_value {
            Ok(v) => v,
            Err(e) => {
                return Err(e);
            },
        };
        let kind = item_kind(current);
        let len = match item_array(current) {
            Some(arr) => array_len(arr),
            None => 0,
        };
        match last_update_step(key, kind, len) {
            Err(e) => Err(e),
            Ok(LastStep::ReplaceElement(index)) => match item_array_mut(current) {
                Some(arr) => {
                    if index < array_len(arr) {
                        array_replace(arr, index, new_val);
                        Ok(())
                    } else {
                        Err(index_out_of_bounds(index))
                    }
                },
                None => Err(EditError::KeyNotFound(quoted_then(key, "' is not an array"))),
            },
            Ok(LastStep::SetKey) => match item_table_mut(current) {
                Some(table) => {
                    match table_get_cloned(table, key) {
                        Some(existing) => {
                            let mut new_item = value_item(new_val);
                            preserve_decor(&existing, &mut new_item);
                            table_insert(table, key, new_item);
                        },
                        None => {
                            table_insert(table, key, value_item(new_val));
                        },
                    }
                    Ok(())
                },
                None => {
                    *current = value_item(new_val);
                    Ok(())
                },
            },
            Ok(LastStep::ReplaceItem) => {
                *current = value_item(new_val);
                Ok(())
            },
        }
    } else {
        match item_table_mut(current) {
            Some(table) => {
                if !table_contains_key(table, key) {
                    table_insert(table, key, new_table_item());
                }
                match table_get_mut(table, key) {
                    Some(child) => {
                        let r = update_at(child, key_path, i + 1, new_value);
                        proof {
                            let m = cur0->Table_0;
                            let c0 = if m.contains_key(key@) { m[key@] } else { TomlItem::Table(Map::empty(), no_decor()) };
                            lemma_update_spec(c0, keys.drop_first(), vo);
                            lemma_put_over(m, key@, TomlItem::Table(Map::empty(), no_decor()));
                        }
                        r
                    },
                    None => Err(EditError::KeyNotFound(to_owned_string(key))),
                }
            },
            None => Err(non_table_error(key)),
        }
    }
}

/// The TOML surgical editor.
pub struct TomlEditor;

impl TomlEditor {
    /// A new editor.
    pub fn new() -> (r: TomlEditor) {
        TomlEditor
    }

    /// True when `key_path` names an existing key: each key but the last a table on the
    /// way, the last one a key of the table reached.
    fn path_exists(&self, doc: &DocumentMut, key_path: &[&str]) -> (r: bool)
        ensures
            key_path@.len() == 0 ==> !r,
            key_path@.len() > 0 ==> r == path_present(toml_document(*doc), path_keys(key_path@)),
    {
        if key_path.len() == 0 {
            return false;
        }
        let ghost keys = path_keys(key_path@);
        let mut current = document_root(doc);
        let mut i: usize = 0;
        proof {
            assert(keys.skip(0) =~= keys);
        }
        while i < key_path.len()
            invariant
                i < key_path@.len(),
                keys == path_keys(key_path@),
                path_present(toml_document(*doc), keys) == path_present(toml_item(*current), keys.skip(i as int)),
            decreases key_path@.len() - i,
        {
            let key = key_path[i];
            let ghost ks = keys.skip(i as int);
            proof {
                assert(ks[0] == key@);
                assert(ks.drop_first() =~= keys.skip(i + 1));
            }
            let table = match item_table(current) {
                Some(t) => t,
                None => {
                    return false;
                },
            };
            if i == key_path.len() - 1 {
                return table_contains_key(table, key);
            }
            current = match table_get(table, key) {
                Some(item) => item,
                None => {
                    return false;
                },
            };
            i += 1;
        }
        false
    }

    /// Sets the value at `key_path` to `new_value` (what serializing the new value gave),
    /// creating missing tables on the way; comments and formatting of the rest stay.
    /// The new text is written from what [`update_outcome`] gives: `new_value` at the
    /// key path, with the decoration (comments and spacing) of the value it replaces
    /// when that was a value of the same kind, and everything else as it was,
    /// decoration included.
    pub fn update_value(&self, content: &mut String, key_path: &[&str], new_value: Result<Value, EditError>) -> (r: Result<(), EditError>)
        ensures
            match update_outcome(old(content)@, path_keys(key_path@), value_outcome(new_value)) {
                Ok(t) => r is Ok && written_as(final(content)@, t),
                Err(m) => r matches Err(e) && e.text() == m && final(content)@ == old(content)@,
            },
            toml_parse_error(old(content)@) matches Some(m) ==> (r matches Err(EditError::Parse(e)) && e@ == m),
            toml_parse_error(old(content)@) is None && key_path@.len() == 0 ==>
                (r matches Err(EditError::KeyNotFound(e)) && e@ == empty_path_msg()),
            new_value is Err ==> r is Err,
    {
        let ghost vo = value_outcome(new_value);
        let mut doc = match parse_document(content.as_str()) {
            Ok(d) => d,
            Err(m) => {
                return Err(EditError::Parse(m));
            },
        };
        if key_path.len() == 0 {
            proof { reveal_strlit("Empty key path"); }
            return Err(EditError::KeyNotFound(to_owned_string("Empty key path")));
        }
        proof {
            assert(path_keys(key_path@).skip(0) =~= path_keys(key_path@));
            lemma_update_spec(toml_parsed(content@), path_keys(key_path@), vo);
        }
        let root = document_root_mut(&mut doc);
        match update_at(root, key_path, 0, new_value) {
            Ok(()) => {
                *content = render_document(&doc);
                Ok(())
            },
            Err(e) => Err(e),
        }
    }

    /// Sets the value at `key_path` as [`TomlEditor::update_value`] does, but refuses,
    /// with a TOML error, a key path that already names a key.
    pub fn insert_value(&self, content: &mut String, key_path: &[&str], new_value: Result<Value, EditError>) -> (r: Result<(), EditError>)
        ensures
            key_taken(old(content)@, path_keys(key_path@)) ==> (r matches Err(EditError::Toml(m))
                && m@ == key_exists_msg(joined_keys(path_keys(key_path@)))),
            key_taken(old(content)@, path_keys(key_path@)) ==> final(content)@ == old(content)@,
            !key_taken(old(content)@, path_keys(key_path@)) ==> match update_outcome(old(content)@, path_keys(key_path@), value_outcome(new_value)) {
                Ok(t) => r is Ok && written_as(final(content)@, t),
                Err(m) => r matches Err(e) && e.text() == m && final(content)@ == old(content)@,
            },
            toml_parse_error(old(content)@) matches Some(m) ==> (r matches Err(EditError::Parse(e)) && e@ == m),
            toml_parse_error(old(content)@) is None && key_path@.len() == 0 ==>
                (r matches Err(EditError::KeyNotFound(e)) && e@ == empty_path_msg()),
            new_value is Err ==> r is Err,
    {
        let doc = match parse_document(content.as_str()) {
            Ok(d) => d,
            Err(m) => {
                return Err(EditError::Parse(m));
            },
        };
        if self.path_exists(&doc, key_path) {
            let mut m = to_owned_string("Key '");
            let joined = join_keys(key_path);
            m.append(joined.as_str());
            m.append("' already exists");
            proof {
                reveal_strlit("Key '");
                reveal_strlit("' already exists");
            }
            return Err(EditError::Toml(m));
        }
        self.update_value(content, key_path, new_value)
    }

    /// Removes the value at `key_path`: a key of the table reached, or an element of the
    /// array reached. The new text is written from what [`remove_outcome`] gives:
    /// everything but that key or element, as it was, decoration included.
    pub fn remove_value(&self, content: &mut String, key_path: &[&str]) -> (r: Result<(), EditError>)
        ensures
            match remove_outcome(old(content)@, path_keys(key_path@)) {
                Ok(t) => r is Ok && written_as(final(content)@, t),
                Err(m) => r matches Err(e) && e.text() == m && final(content)@ == old(content)@,
            },
            toml_parse_error(old(content)@) matches Some(m) ==> (r matches Err(EditError::Parse(e)) && e@ == m),
            toml_parse_error(old(content)@) is None && key_path@.len() == 0 ==>
                (r matches Err(EditError::KeyNotFound(e)) && e@ == empty_path_msg()),
    {
        let mut doc = match parse_document(content.as_str()) {
            Ok(d) => d,
            Err(m) => {
                return Err(EditError::Parse(m));
            },
        };
        if key_path.len() == 0 {
            proof { reveal_strlit("Empty key path"); }
            return Err(EditError::KeyNotFound(to_owned_string("Empty key path")));
        }
        proof {
            assert(path_keys(key_path@).skip(0) =~= path_keys(key_path@));
        }
        let last_key = key_path[key_path.len() - 1];
        let res = remove_at(document_root_mut(&mut doc), key_path, 0, last_key);
        match res {
            Ok(()) => {
                *content = render_document(&doc);
                Ok(())
            },
            Err(e) => Err(e),
        }
    }

    /// The byte range in `content` of what `key_path` names: the span of the value
    /// there, or the whole content for a table or a value without a span, as
    /// [`range_outcome`] gives it; an error when the key path names nothing.
    pub fn get_value_range(&self, content: &str, key_path: &[&str]) -> (r: Result<std::ops::Range<usize>, EditError>)
        ensures
            match range_outcome(content@, path_keys(key_path@), content.spec_bytes().len() as usize as nat) {
                Ok((s, e)) => r matches Ok(range) && range.start == s && range.end == e,
                Err(m) => r matches Err(e) && e.text() == m,
            },
            toml_parse_error(content@) matches Some(m) ==> (r matches Err(EditError::Parse(e)) && e@ == m),
            toml_parse_error(content@) is None && key_path@.len() == 0 ==>
                (r matches Err(EditError::KeyNotFound(e)) && e@ == empty_path_msg()),
    {
        let doc = match parse_spanned(content) {
            Ok(d) => d,
            Err(m) => {
                return Err(EditError::Parse(m));
            },
        };
        if key_path.len() == 0 {
            proof { reveal_strlit("Empty key path"); }
            return Err(EditError::KeyNotFound(to_owned_string("Empty key path")));
        }
        let ghost keys = path_keys(key_path@);
        let ghost total = content.spec_bytes().len() as usize as nat;
        let last_key = key_path[key_path.len() - 1];
        let mut current = spanned_root(&doc);
        let mut i: usize = 0;
        proof {
            assert(keys.skip(0) =~= keys);
        }
        while i < key_path.len() - 1
            invariant
                key_path@.len() > 0,
                i <= key_path@.len() - 1,
                keys == path_keys(key_path@),
                toml_parse_error(content@) is None,
                total == content.spec_bytes().len() as usize as nat,
                range_spec(toml_spanned(content@), keys, total) == range_spec(toml_item(*current), keys.skip(i as int), total),
            decreases key_path@.len() - i,
        {
            let key = key_path[i];
            proof {
                let ks = keys.skip(i as int);
                assert(ks[0] == key@);
                assert(ks.drop_first() =~= keys.skip(i + 1));
            }
            let table = match item_table(current) {
                Some(t) => t,
                None => {
                    return Err(non_table_error(key));
                },
            };
            current = match table_get(table, key) {
                Some(item) => item,
                None => {
                    return Err(EditError::KeyNotFound(to_owned_string(key)));
                },
            };
            i += 1;
        }
        proof {
            let ks = keys.skip(i as int);
            assert(ks.len() == 1);
            assert(ks[0] == last_key@);
        }
        let kind = item_kind(current);
        let (len, present) = match (item_array(current), item_table(current)) {
            (Some(arr), _) => (array_len(arr), false),
            (None, Some(t)) => (0, table_contains_key(t, last_key)),
            (None, None) => (0, false),
        };
        let mut other = to_owned_string("Cannot access key '");
        other.append(last_key);
        other.append("'");
        proof {
            reveal_strlit("Cannot access key '");
            reveal_strlit("'");
        }
        let whole = std::ops::Range { start: 0, end: content.len() };
        match locate_last_key(last_key, kind, len, present, other) {
            Ok(LastKeyPlace::TableKey) => {
                let found = match item_table(current) {
                    Some(t) => table_get(t, last_key),
                    None => None,
                };
                match found {
                    Some(item) => match item_value(item) {
                        Some(v) => match value_span(v) {
                            Some(rg) => Ok(rg),
                            None => Ok(whole),
                        },
                        None => Ok(whole),
                    },
                    None => Ok(whole),
                }
            },
            Ok(LastKeyPlace::Element(index)) => {
                let found = match item_array(current) {
                    Some(arr) => array_get(arr, index),
                    None => None,
                };
                match found {
                    Some(v) => match value_span(v) {
                        Some(rg) => Ok(rg),
                        None => Ok(whole),
                    },
                    None => Ok(whole),
                }
            },
            Err(e) => Err(e),
        }
    }
}

/// Removes `last_key` from the item reached by walking `key_path[i..len - 1]` below `current`.
fn remove_at(current: &mut Item, key_path: &[&str], i: usize, last_key: &str) -> (r: Result<(), EditError>)
    requires
        i < key_path@.len(),
        last_key@ == key_path@[key_path@.len() - 1]@,
    ensures
        match remove_spec(toml_item(*old(current)), path_keys(key_path@).skip(i as int)) {
            Ok(t) => r is Ok && toml_item(*final(current)) == t,
            Err(m) => r matches Err(e) && e.text() == m,
        },
    decreases key_path@.len() - i,
{
    proof {
        let keys = path_keys(key_path@).skip(i as int);
        assert(keys[0] == key_path@[i as int]@);
        assert(keys.drop_first() =~= path_keys(key_path@).skip(i + 1));
    }
    if i == key_path.len() - 1 {
        proof {
            reveal_strlit("Cannot remove from non-table/non-array parent");
        }
        let kind = item_kind(current);
        let (len, present) = match (item_array(current), item_table(current)) {
            (Some(arr), _) => (array_len(arr), false),
            (None, Some(t)) => (0, table_contains_key(t, last_key)),
            (None, None) => (0, false),
        };
        let other = to_owned_string("Cannot remove from non-table/non-array parent");
        match locate_last_key(last_key, kind, len, present, other) {
            Err(e) => Err(e),
            Ok(LastKeyPlace::TableKey) => match item_table_mut(current) {
                Some(t) => {
                    table_remove(t, last_key);
                    Ok(())
                },
                None => Err(EditError::KeyNotFound(to_owned_string(last_key))),
            },
            Ok(LastKeyPlace::Element(index)) => match item_array_mut(current) {
                Some(arr) => {
                    if index < array_len(arr) {
                        array_remove(arr, index);
                        Ok(())
                    } else {
                        Err(index_out_of_bounds(index))
                    }
                },
                None => Err(EditError::KeyNotFound(to_owned_string(last_key))),
            },
        }
    } else {
        let key = key_path[i];
        match item_table_mut(current) {
            Some(table) => match table_get_mut(table, key) {
                Some(child) => remove_at(child, key_path, i + 1, last_key),
                None => Err(EditError::KeyNotFound(to_owned_string(key))),
            },
            None => Err(non_table_error(key)),
        }
    }
}

/// Sets one value at `key_path` of `content` with a new [`TomlEditor`].
pub fn update_toml_value(content: &mut String, key_path: &[&str], new_value: Result<Value, EditError>) -> (r: Result<(), EditError>)
    ensures
        match update_outcome(old(content)@, path_keys(key_path@), value_outcome(new_value)) {
            Ok(t) => r is Ok && written_as(final(content)@, t),
            Err(m) => r matches Err(e) && e.text() == m && final(content)@ == old(content)@,
        },
        toml_parse_error(old(content)@) matches Some(m) ==> (r matches Err(EditError::Parse(e)) && e@ == m),
        toml_parse_error(old(content)@) is None && key_path@.len() == 0 ==>
            (r matches Err(EditError::KeyNotFound(e)) && e@ == empty_path_msg()),
        new_value is Err ==> r is Err,
{
    TomlEditor::new().update_value(content, key_path, new_value)
}

} // verus!
