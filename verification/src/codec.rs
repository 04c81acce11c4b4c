//! Values as the host sees them: copying a value out of the store, bringing the
//! host's data into the store, and the pieces of a line of output.
//!
//! A list or object on the heap only refers to objects that were allocated
//! before it. Copying out follows such references downwards and gives up on
//! any other.

use vstd::prelude::*;
use vstd::string::*;
use crate::host::{
    data_views,
    entry_views,
    lemma_entries_view,
    lemma_list_view,
    piece_views,
    Data,
    DataView,
    Entry,
    EntryView,
    Piece,
    PieceView,
};
use crate::text::{char_to_text, decimal, int_to_text};
use crate::value::{
    field_upsert,
    fields_view,
    upsert_field,
    Field,
    FieldView,
    HeapObject,
    HeapObjectView,
    Store,
    Memory,
    Value,
};

verus! {

// ---------------------------------------------------------------------------
// Out of the store
// ---------------------------------------------------------------------------
/// The copy of a value whose heap objects all lie below `bound`.
pub open spec fn export(store: Memory, value: Value, bound: nat) -> Option<DataView>
    decreases bound, 0nat,
{
    match value {
        Value::Unit => Some(DataView::Unit),
        Value::Int(i) => Some(DataView::Int(i)),
        Value::Float(bits) => Some(DataView::Float(bits)),
        Value::Bool(b) => Some(DataView::Bool(b)),
        Value::Char(c) => Some(DataView::Char(c)),
        Value::String(_) => match store.text(value) {
            Some(s) => Some(DataView::Text(s)),
            None => None,
        },
        Value::List(id) => match store.list(value) {
            Some(items) => if id < bound {
                match export_all(store, items, id as nat) {
                    Some(copies) => Some(DataView::List(copies)),
                    None => None,
                }
            } else {
                None
            },
            None => None,
        },
        Value::Objekt(id) => match store.fields(value) {
            Some(fields) => if id < bound {
                match export_fields(store, fields, id as nat) {
                    Some(copies) => Some(DataView::Objekt(copies)),
                    None => None,
                }
            } else {
                None
            },
            None => None,
        },
        Value::Speicherbox(id) => match store.fields(value) {
            Some(fields) => if id < bound {
                match export_fields(store, fields, id as nat) {
                    Some(copies) => Some(DataView::Speicherbox(copies)),
                    None => None,
                }
            } else {
                None
            },
            None => None,
        },
        Value::Ptr(_) => Some(DataView::Ptr),
        Value::BuiltinFunction(_) => Some(DataView::BuiltinFunction),
    }
}

/// The copies of some values, in order.
pub open spec fn export_all(store: Memory, items: Seq<Value>, bound: nat) -> Option<
    Seq<DataView>,
>
    decreases bound, items.len() + 1,
{
    if items.len() == 0 {
        Some(Seq::empty())
    } else {
        match export_all(store, items.drop_last(), bound) {
            Some(copies) => match export(store, items.last(), bound) {
                Some(copy) => Some(copies.push(copy)),
                None => None,
            },
            None => None,
        }
    }
}

/// The copies of some fields, in order.
pub open spec fn export_fields(store: Memory, fields: Seq<FieldView>, bound: nat) -> Option<
    Seq<EntryView>,
>
    decreases bound, fields.len() + 1,
{
    if fields.len() == 0 {
        Some(Seq::empty())
    } else {
        match export_fields(store, fields.drop_last(), bound) {
            Some(copies) => match export(store, fields.last().value, bound) {
                Some(copy) => Some(copies.push(EntryView { key: fields.last().key, value: copy })),
                None => None,
            },
            None => None,
        }
    }
}

/// The copy of a value, whatever it refers to.
pub open spec fn export_value(store: Memory, value: Value) -> Option<DataView> {
    export(store, value, store.heap.len())
}

/// The copies of some values, whatever they refer to.
pub open spec fn export_values(store: Memory, values: Seq<Value>) -> Option<Seq<DataView>> {
    export_all(store, values, store.heap.len())
}

/// Copies a value whose heap objects all lie below `bound`.
pub fn copy_out(store: &Store, value: Value, bound: usize) -> (r: Option<Data>)
    ensures
        match r {
            Some(data) => export(store@, value, bound as nat) == Some(data@),
            None => export(store@, value, bound as nat) is None,
        },
    decreases bound, 0nat,
{
    match value {
        Value::Unit => Some(Data::Unit),
        Value::Int(i) => Some(Data::Int(i)),
        Value::Float(bits) => Some(Data::Float(bits)),
        Value::Bool(b) => Some(Data::Bool(b)),
        Value::Char(c) => Some(Data::Char(c)),
        Value::String(_) => match store.text(value) {
            Some(s) => Some(Data::Text(s.clone())),
            None => None,
        },
        Value::List(id) => match store.list(value) {
            Some(items) => if id < bound {
                match copy_out_all(store, items, id) {
                    Some(copies) => {
                        proof {
                            lemma_list_view(copies);
                        }
                        Some(Data::List(copies))
                    },
                    None => None,
                }
            } else {
                None
            },
            None => None,
        },
        Value::Objekt(id) => match store.fields(value) {
            Some(fields) => if id < bound {
                match copy_out_fields(store, fields, id) {
                    Some(copies) => {
                        proof {
                            lemma_entries_view(copies);
                        }
                        Some(Data::Objekt(copies))
                    },
                    None => None,
                }
            } else {
                None
            },
            None => None,
        },
        Value::Speicherbox(id) => match store.fields(value) {
            Some(fields) => if id < bound {
                match copy_out_fields(store, fields, id) {
                    Some(copies) => {
                        proof {
                            lemma_entries_view(copies);
                        }
                        Some(Data::Speicherbox(copies))
                    },
                    None => None,
                }
            } else {
                None
            },
            None => None,
        },
        Value::Ptr(_) => Some(Data::Ptr),
        Value::BuiltinFunction(_) => Some(Data::BuiltinFunction),
    }
}

/// Copies some values, in order.
pub fn copy_out_all(store: &Store, items: &Vec<Value>, bound: usize) -> (r: Option<Vec<Data>>)
    ensures
        match r {
            Some(copies) => export_all(store@, items@, bound as nat) == Some(data_views(copies@)),
            None => export_all(store@, items@, bound as nat) is None,
        },
    decreases bound, 1nat,
{
    let mut copies: Vec<Data> = Vec::new();
    let mut i: usize = 0;
    assert(items@.take(0) =~= Seq::<Value>::empty());
    assert(data_views(copies@) =~= Seq::<DataView>::empty());
    while i < items.len()
        invariant
            i <= items.len(),
            export_all(store@, items@.take(i as int), bound as nat) == Some(data_views(copies@)),
        decreases items.len() - i,
    {
        proof {
            assert(items@.take(i + 1).drop_last() =~= items@.take(i as int));
            assert(items@.take(i + 1).last() == items@[i as int]);
        }
        match copy_out(store, items[i], bound) {
            Some(copy) => {
                let ghost before = data_views(copies@);
                copies.push(copy);
                assert(data_views(copies@) =~= before.push(copy@));
            },
            None => {
                proof {
                    lemma_export_all_fails(store@, items@, bound as nat, i + 1);
                }
                return None;
            },
        }
        i += 1;
    }
    assert(items@.take(i as int) =~= items@);
    Some(copies)
}

/// Copies some fields, in order.
pub fn copy_out_fields(store: &Store, fields: &Vec<Field>, bound: usize) -> (r: Option<Vec<Entry>>)
    ensures
        match r {
            Some(copies) => export_fields(store@, fields_view(fields@), bound as nat) == Some(
                entry_views(copies@),
            ),
            None => export_fields(store@, fields_view(fields@), bound as nat) is None,
        },
    decreases bound, 1nat,
{
    let ghost all = fields_view(fields@);
    let mut copies: Vec<Entry> = Vec::new();
    let mut i: usize = 0;
    assert(all.take(0) =~= Seq::<FieldView>::empty());
    assert(entry_views(copies@) =~= Seq::<EntryView>::empty());
    while i < fields.len()
        invariant
            i <= fields.len(),
            all == fields_view(fields@),
            export_fields(store@, all.take(i as int), bound as nat) == Some(entry_views(copies@)),
        decreases fields.len() - i,
    {
        proof {
            assert(all.take(i + 1).drop_last() =~= all.take(i as int));
            assert(all.take(i + 1).last() == all[i as int]);
        }
        match copy_out(store, fields[i].value, bound) {
            Some(copy) => {
                let ghost before = entry_views(copies@);
                let entry = Entry { key: fields[i].key.clone(), value: copy };
                copies.push(entry);
                assert(entry_views(copies@) =~= before.push(entry@));
            },
            None => {
                proof {
                    lemma_export_fields_fails(store@, all, bound as nat, i + 1);
                }
                return None;
            },
        }
        i += 1;
    }
    assert(all.take(i as int) =~= all);
    Some(copies)
}

/// If the first `n` values cannot all be copied, neither can all of them.
proof fn lemma_export_all_fails(store: Memory, items: Seq<Value>, bound: nat, n: int)
    requires
        0 <= n <= items.len(),
        export_all(store, items.take(n), bound) is None,
    ensures
        export_all(store, items, bound) is None,
    decreases items.len() - n,
{
    if n == items.len() {
        assert(items.take(n) =~= items);
    } else {
        assert(items.take(n + 1).drop_last() =~= items.take(n));
        lemma_export_all_fails(store, items, bound, n + 1);
    }
}

/// If the first `n` fields cannot all be copied, neither can all of them.
proof fn lemma_export_fields_fails(store: Memory, fields: Seq<FieldView>, bound: nat, n: int)
    requires
        0 <= n <= fields.len(),
        export_fields(store, fields.take(n), bound) is None,
    ensures
        export_fields(store, fields, bound) is None,
    decreases fields.len() - n,
{
    if n == fields.len() {
        assert(fields.take(n) =~= fields);
    } else {
        assert(fields.take(n + 1).drop_last() =~= fields.take(n));
        lemma_export_fields_fails(store, fields, bound, n + 1);
    }
}

/// Copies a value out of the store.
pub fn copy_value(store: &Store, value: Value) -> (r: Option<Data>)
    ensures
        match r {
            Some(data) => export_value(store@, value) == Some(data@),
            None => export_value(store@, value) is None,
        },
{
    copy_out(store, value, store.heap.len())
}

/// Copies some values out of the store.
pub fn copy_values(store: &Store, values: &Vec<Value>) -> (r: Option<Vec<Data>>)
    ensures
        match r {
            Some(copies) => export_values(store@, values@) == Some(data_views(copies@)),
            None => export_values(store@, values@) is None,
        },
{
    copy_out_all(store, values, store.heap.len())
}

// ---------------------------------------------------------------------------
// Into the store
// ---------------------------------------------------------------------------
/// Whether the host's data can be brought into the store: it holds no marker
/// for a pointer or a builtin.
pub open spec fn importable(data: DataView) -> bool
    decreases data, 0nat,
{
    match data {
        DataView::List(items) => importable_all(items, items.len()),
        DataView::Objekt(entries) => importable_entries(entries, entries.len()),
        DataView::Speicherbox(entries) => importable_entries(entries, entries.len()),
        DataView::Ptr => false,
        DataView::BuiltinFunction => false,
        _ => true,
    }
}

/// Whether the first `n` items can be brought into the store.
pub open spec fn importable_all(items: Seq<DataView>, n: nat) -> bool
    decreases items, n,
{
    if n == 0 || n > items.len() {
        true
    } else {
        importable_all(items, (n - 1) as nat) && importable(items[n - 1])
    }
}

/// Whether the values of the first `n` entries can be brought into the store.
pub open spec fn importable_entries(entries: Seq<EntryView>, n: nat) -> bool
    decreases entries, n,
{
    if n == 0 || n > entries.len() {
        true
    } else {
        importable_entries(entries, (n - 1) as nat) && importable(entries[n - 1].value)
    }
}

proof fn lemma_importable_item(items: Seq<DataView>, n: nat, k: int)
    requires
        0 <= k < n <= items.len(),
        importable_all(items, n),
    ensures
        importable(items[k]),
    decreases n,
{
    if k < n - 1 {
        lemma_importable_item(items, (n - 1) as nat, k);
    }
}

proof fn lemma_importable_entry(entries: Seq<EntryView>, n: nat, k: int)
    requires
        0 <= k < n <= entries.len(),
        importable_entries(entries, n),
    ensures
        importable(entries[k].value),
    decreases n,
{
    if k < n - 1 {
        lemma_importable_entry(entries, (n - 1) as nat, k);
    }
}

proof fn lemma_not_importable_all(items: Seq<DataView>, n: nat, m: nat)
    requires
        n <= m <= items.len(),
        !importable_all(items, n),
    ensures
        !importable_all(items, m),
    decreases m,
{
    if n < m {
        lemma_not_importable_all(items, n, (m - 1) as nat);
    }
}

proof fn lemma_not_importable_entries(entries: Seq<EntryView>, n: nat, m: nat)
    requires
        n <= m <= entries.len(),
        !importable_entries(entries, n),
    ensures
        !importable_entries(entries, m),
    decreases m,
{
    if n < m {
        lemma_not_importable_entries(entries, n, (m - 1) as nat);
    }
}

/// The store and the value after the host's data was brought in. Lists and
/// field tables go to the heap, their parts first; of two entries with one key
/// the later one stays.
pub open spec fn import(store: Memory, data: DataView) -> (Memory, Value)
    decreases data, 0nat,
{
    match data {
        DataView::Unit => (store, Value::Unit),
        DataView::Int(i) => (store, Value::Int(i)),
        DataView::Float(bits) => (store, Value::Float(bits)),
        DataView::Bool(b) => (store, Value::Bool(b)),
        DataView::Char(c) => (store, Value::Char(c)),
        DataView::Text(s) => (store.with_text(s), Value::String(store.heap.len() as usize)),
        DataView::List(items) => {
            let (filled, values) = import_all(store, items, items.len());
            (
                filled.with_object(HeapObjectView::List(values)),
                Value::List(filled.heap.len() as usize),
            )
        },
        DataView::Objekt(entries) => {
            let (filled, fields) = import_entries(store, entries, entries.len());
            (
                filled.with_object(HeapObjectView::Fields(fields)),
                Value::Objekt(filled.heap.len() as usize),
            )
        },
        DataView::Speicherbox(entries) => {
            let (filled, fields) = import_entries(store, entries, entries.len());
            (
                filled.with_object(HeapObjectView::Fields(fields)),
                Value::Speicherbox(filled.heap.len() as usize),
            )
        },
        DataView::Ptr => (store, Value::Unit),
        DataView::BuiltinFunction => (store, Value::Unit),
    }
}

/// The store and the values after the first `n` items were brought in.
pub open spec fn import_all(store: Memory, items: Seq<DataView>, n: nat) -> (
    Memory,
    Seq<Value>,
)
    decreases items, n,
{
    if n == 0 || n > items.len() {
        (store, Seq::empty())
    } else {
        let (filled, values) = import_all(store, items, (n - 1) as nat);
        let (next, value) = import(filled, items[n - 1]);
        (next, values.push(value))
    }
}

/// The store and the fields after the first `n` entries were brought in.
pub open spec fn import_entries(store: Memory, entries: Seq<EntryView>, n: nat) -> (
    Memory,
    Seq<FieldView>,
)
    decreases entries, n,
{
    if n == 0 || n > entries.len() {
        (store, Seq::empty())
    } else {
        let (filled, fields) = import_entries(store, entries, (n - 1) as nat);
        let (next, value) = import(filled, entries[n - 1].value);
        (next, field_upsert(fields, entries[n - 1].key, value))
    }
}

/// Tells whether the host's data can be brought into the store.
pub fn is_importable(data: &Data) -> (r: bool)
    ensures
        r == importable(data@),
    decreases data, 1nat,
{
    match data {
        Data::List(items) => {
            proof {
                lemma_list_view(*items);
            }
            let ghost views = data_views(items@);
            let mut i: usize = 0;
            while i < items.len()
                invariant
                    i <= items@.len(),
                    views == data_views(items@),
                    data@ == DataView::List(views),
                    data matches Data::List(inner) && inner == items,
                    importable_all(views, i as nat),
                decreases items@.len() - i,
            {
                assert(views[i as int] == items@[i as int]@);
                if !is_importable(&items[i]) {
                    proof {
                        lemma_not_importable_all(views, (i + 1) as nat, views.len());
                    }
                    return false;
                }
                i += 1;
            }
            true
        },
        Data::Objekt(entries) => {
            proof {
                lemma_entries_view(*entries);
            }
            are_importable(data, entries)
        },
        Data::Speicherbox(entries) => {
            proof {
                lemma_entries_view(*entries);
            }
            are_importable(data, entries)
        },
        Data::Ptr => false,
        Data::BuiltinFunction => false,
        _ => true,
    }
}

/// Tells whether the entries of the field table `owner` can be brought into the
/// store.
fn are_importable(owner: &Data, entries: &Vec<Entry>) -> (r: bool)
    requires
        (owner matches Data::Objekt(inner) && inner == entries) || (owner matches Data::Speicherbox(
            inner,
        ) && inner == entries),
    ensures
        r == importable_entries(entry_views(entries@), entries@.len() as nat),
    decreases owner, 0nat,
{
    let ghost views = entry_views(entries@);
    let mut i: usize = 0;
    while i < entries.len()
        invariant
            i <= entries@.len(),
            views == entry_views(entries@),
            (owner matches Data::Objekt(inner) && inner == entries) || (owner
                matches Data::Speicherbox(inner) && inner == entries),
            importable_entries(views, i as nat),
        decreases entries@.len() - i,
    {
        assert(views[i as int] == entries@[i as int]@);
        if !is_importable(&entries[i].value) {
            proof {
                lemma_not_importable_entries(views, (i + 1) as nat, views.len());
            }
            return false;
        }
        i += 1;
    }
    true
}

/// Brings the host's data into the store.
pub fn bring_in(store: &mut Store, data: &Data) -> (value: Value)
    requires
        importable(data@),
    ensures
        import(old(store)@, data@) == (final(store)@, value),
    decreases data, 1nat,
{
    match data {
        Data::Unit => Value::Unit,
        Data::Int(i) => Value::Int(*i),
        Data::Float(bits) => Value::Float(*bits),
        Data::Bool(b) => Value::Bool(*b),
        Data::Char(c) => Value::Char(*c),
        Data::Text(s) => store.new_text(s.clone()),
        Data::List(items) => {
            proof {
                lemma_list_view(*items);
            }
            let ghost views = data_views(items@);
            let ghost start = store@;
            let mut values: Vec<Value> = Vec::new();
            let mut done: usize = 0;
            while done < items.len()
                invariant
                    done <= items@.len(),
                    views == data_views(items@),
                    import_all(start, views, done as nat) == (store@, values@),
                    data matches Data::List(inner) && inner == items,
                    importable_all(views, views.len()),
                decreases items@.len() - done,
            {
                proof {
                    assert(views[done as int] == items@[done as int]@);
                    lemma_importable_item(views, views.len(), done as int);
                }
                let value = bring_in(store, &items[done]);
                values.push(value);
                done += 1;
            }
            let id = store.allocate(HeapObject::List(values));
            Value::List(id)
        },
        Data::Objekt(entries) => {
            proof {
                lemma_entries_view(*entries);
            }
            let fields = bring_in_entries(store, data, entries);
            let id = store.allocate(HeapObject::Fields(fields));
            Value::Objekt(id)
        },
        Data::Speicherbox(entries) => {
            proof {
                lemma_entries_view(*entries);
            }
            let fields = bring_in_entries(store, data, entries);
            let id = store.allocate(HeapObject::Fields(fields));
            Value::Speicherbox(id)
        },
        Data::Ptr => Value::Unit,
        Data::BuiltinFunction => Value::Unit,
    }
}

/// Brings the entries of the field table `owner` into the store.
fn bring_in_entries(store: &mut Store, owner: &Data, entries: &Vec<Entry>) -> (fields: Vec<Field>)
    requires
        (owner matches Data::Objekt(inner) && inner == entries) || (owner matches Data::Speicherbox(
            inner,
        ) && inner == entries),
        importable_entries(entry_views(entries@), entries@.len() as nat),
    ensures
        import_entries(old(store)@, entry_views(entries@), entries@.len() as nat) == (
            final(store)@,
            fields_view(fields@),
        ),
    decreases owner, 0nat,
{
    let ghost views = entry_views(entries@);
    let ghost start = store@;
    let mut fields: Vec<Field> = Vec::new();
    let mut done: usize = 0;
    assert(fields_view(fields@) =~= Seq::<FieldView>::empty());
    while done < entries.len()
        invariant
            done <= entries@.len(),
            views == entry_views(entries@),
            import_entries(start, views, done as nat) == (store@, fields_view(fields@)),
            (owner matches Data::Objekt(inner) && inner == entries) || (owner
                matches Data::Speicherbox(inner) && inner == entries),
            importable_entries(views, views.len()),
        decreases entries@.len() - done,
    {
        proof {
            assert(views[done as int] == entries@[done as int]@);
            lemma_importable_entry(views, views.len(), done as int);
        }
        let value = bring_in(store, &entries[done].value);
        upsert_field(&mut fields, entries[done].key.clone(), value);
        done += 1;
    }
    fields
}

// ---------------------------------------------------------------------------
// Output
// ---------------------------------------------------------------------------
/// A piece of plain text.
pub open spec fn plain(text: Seq<char>) -> Seq<PieceView> {
    seq![PieceView::Text(text)]
}

/// How a datum is written: numbers in decimal, a character and a text as they
/// are, a list in square brackets and a field table in braces.
pub open spec fn render(data: DataView) -> Seq<PieceView>
    decreases data, 0nat,
{
    match data {
        DataView::Unit => plain("()"@),
        DataView::Int(i) => plain(decimal(i as int)),
        DataView::Float(bits) => seq![PieceView::Float(bits)],
        DataView::Bool(b) => if b {
            plain("true"@)
        } else {
            plain("false"@)
        },
        DataView::Char(c) => plain(seq![c as char]),
        DataView::Text(s) => plain(s),
        DataView::List(items) => plain("["@) + render_separated(items, items.len(), ", "@) + plain(
            "]"@,
        ),
        DataView::Objekt(entries) => plain("{"@) + render_entries(entries, entries.len()) + plain(
            "}"@,
        ),
        DataView::Speicherbox(entries) => plain("{"@) + render_entries(entries, entries.len())
            + plain("}"@),
        DataView::Ptr => plain("Zeiger"@),
        DataView::BuiltinFunction => plain("Funktion"@),
    }
}

/// The first `n` items, with the separator between each two.
pub open spec fn render_separated(items: Seq<DataView>, n: nat, separator: Seq<char>) -> Seq<
    PieceView,
>
    decreases items, n,
{
    if n == 0 || n > items.len() {
        Seq::empty()
    } else if n == 1 {
        render(items[0])
    } else {
        render_separated(items, (n - 1) as nat, separator) + plain(separator) + render(
            items[n - 1],
        )
    }
}

/// The first `n` entries, each as its key, a colon and its value, with commas
/// between them.
pub open spec fn render_entries(entries: Seq<EntryView>, n: nat) -> Seq<PieceView>
    decreases entries, n,
{
    if n == 0 || n > entries.len() {
        Seq::empty()
    } else if n == 1 {
        plain(entries[0].key) + plain(": "@) + render(entries[0].value)
    } else {
        render_entries(entries, (n - 1) as nat) + plain(", "@) + plain(entries[n - 1].key) + plain(
            ": "@,
        ) + render(entries[n - 1].value)
    }
}

/// A line of output: the arguments with one space between each two, and a
/// line feed at the end.
pub open spec fn render_line(args: Seq<DataView>) -> Seq<PieceView> {
    render_separated(args, args.len(), " "@) + plain("\n"@)
}

fn put(out: &mut Vec<Piece>, text: String)
    ensures
        piece_views(final(out)@) == piece_views(old(out)@) + plain(text@),
{
    let piece = Piece::Text(text);
    out.push(piece);
    assert(piece_views(out@) =~= piece_views(old(out)@) + plain(text@));
}

/// Appends the pieces of a datum.
fn render_into(data: &Data, out: &mut Vec<Piece>)
    ensures
        piece_views(final(out)@) == piece_views(old(out)@) + render(data@),
    decreases data, 1nat,
{
    match data {
        Data::Unit => put(out, "()".to_owned()),
        Data::Int(i) => put(out, int_to_text(*i)),
        Data::Float(bits) => {
            out.push(Piece::Float(*bits));
            assert(piece_views(out@) =~= piece_views(old(out)@) + seq![PieceView::Float(*bits)]);
        },
        Data::Bool(b) => if *b {
            put(out, "true".to_owned())
        } else {
            put(out, "false".to_owned())
        },
        Data::Char(c) => put(out, char_to_text(*c)),
        Data::Text(s) => put(out, s.clone()),
        Data::List(items) => {
            proof {
                lemma_list_view(*items);
            }
            put(out, "[".to_owned());
            render_separated_into(data, items, ", ", out);
            put(out, "]".to_owned());
            assert(piece_views(out@) =~= piece_views(old(out)@) + render(data@));
        },
        Data::Objekt(entries) => {
            proof {
                lemma_entries_view(*entries);
            }
            put(out, "{".to_owned());
            render_entries_into(data, entries, out);
            put(out, "}".to_owned());
            assert(piece_views(out@) =~= piece_views(old(out)@) + render(data@));
        },
        Data::Speicherbox(entries) => {
            proof {
                lemma_entries_view(*entries);
            }
            put(out, "{".to_owned());
            render_entries_into(data, entries, out);
            put(out, "}".to_owned());
            assert(piece_views(out@) =~= piece_views(old(out)@) + render(data@));
        },
        Data::Ptr => put(out, "Zeiger".to_owned()),
        Data::BuiltinFunction => put(out, "Funktion".to_owned()),
    }
}

/// Appends the pieces of the items of the list `owner`.
fn render_separated_into(owner: &Data, items: &Vec<Data>, separator: &str, out: &mut Vec<Piece>)
    requires
        owner matches Data::List(inner) && inner == items,
    ensures
        piece_views(final(out)@) == piece_views(old(out)@) + render_separated(
            data_views(items@),
            items@.len() as nat,
            separator@,
        ),
    decreases owner, 0nat,
{
    let ghost views = data_views(items@);
    let mut done: usize = 0;
    assert(piece_views(out@) =~= piece_views(old(out)@) + Seq::<PieceView>::empty());
    while done < items.len()
        invariant
            done <= items@.len(),
            views == data_views(items@),
            owner matches Data::List(inner) && inner == items,
            piece_views(out@) == piece_views(old(out)@) + render_separated(
                views,
                done as nat,
                separator@,
            ),
        decreases items@.len() - done,
    {
        let ghost before = piece_views(out@);
        assert(views[done as int] == items@[done as int]@);
        if done > 0 {
            put(out, separator.to_owned());
        }
        render_into(&items[done], out);
        done += 1;
        assert(piece_views(out@) =~= piece_views(old(out)@) + render_separated(
            views,
            done as nat,
            separator@,
        ));
    }
}

/// Appends the pieces of the entries of the field table `owner`.
fn render_entries_into(owner: &Data, entries: &Vec<Entry>, out: &mut Vec<Piece>)
    requires
        (owner matches Data::Objekt(inner) && inner == entries) || (owner matches Data::Speicherbox(
            inner,
        ) && inner == entries),
    ensures
        piece_views(final(out)@) == piece_views(old(out)@) + render_entries(
            entry_views(entries@),
            entries@.len() as nat,
        ),
    decreases owner, 0nat,
{
    let ghost views = entry_views(entries@);
    let mut done: usize = 0;
    assert(piece_views(out@) =~= piece_views(old(out)@) + Seq::<PieceView>::empty());
    while done < entries.len()
        invariant
            done <= entries@.len(),
            views == entry_views(entries@),
            (owner matches Data::Objekt(inner) && inner == entries) || (owner
                matches Data::Speicherbox(inner) && inner == entries),
            piece_views(out@) == piece_views(old(out)@) + render_entries(views, done as nat),
        decreases entries@.len() - done,
    {
        assert(views[done as int] == entries@[done as int]@);
        if done > 0 {
            put(out, ", ".to_owned());
        }
        put(out, entries[done].key.clone());
        put(out, ": ".to_owned());
        render_into(&entries[done].value, out);
        done += 1;
        assert(piece_views(out@) =~= piece_views(old(out)@) + render_entries(views, done as nat));
    }
}

/// The pieces of a line of output that shows the arguments.
pub fn line_pieces(args: Vec<Data>) -> (pieces: Vec<Piece>)
    ensures
        piece_views(pieces@) == render_line(data_views(args@)),
{
    let mut pieces: Vec<Piece> = Vec::new();
    let all = Data::List(args);
    assert(piece_views(pieces@) =~= Seq::<PieceView>::empty());
    match &all {
        Data::List(items) => {
            render_separated_into(&all, items, " ", &mut pieces);
        },
        _ => {},
    }
    put(&mut pieces, "\n".to_owned());
    assert(piece_views(pieces@) =~= render_line(data_views(args@)));
    pieces
}

} // verus!
