//! The machine never loses what its values refer to.
//!
//! A text, a list, an object or a bound builtin is a value that names an
//! object on the heap, and a pointer is a value that names a cell. In every
//! state of a run each such value, wherever it is held, names something that
//! is there and is of the kind that the value says. The heap only grows, and
//! an object on it only holds values that were there before it.

use vstd::prelude::*;
use crate::codec::{
    export,
    export_all,
    export_fields,
    export_value,
    export_values,
    import,
    import_all,
    import_entries,
};
use crate::host::{ActionView, DataView, Defect, EntryView, EventView, OutcomeView};
use crate::model::{
    answer,
    binary,
    bind,
    bind_params,
    call_func,
    deliver,
    discard,
    drive,
    environment_fields,
    finish_cast,
    follow,
    keep,
    leave,
    next_arg,
    next_field,
    next_item,
    object_fields,
    operands_from,
    operands_upto,
    resume,
    run_block,
    step,
    unwind,
    visit_block,
    visit_expression,
    visit_statement,
    Answer,
    Step,
};
use crate::ops::{cast_result, infix_result, prefix_result, Computed, Scalar};
use crate::scope::{push_frame, resolve, ChainView};
use crate::state::{Callee, Control, Expect, Final, Frame, Machine, Pending, Stage};
use crate::tree::{Block, Expression, InfixOp, PrefixOp, Program, Statement};
use crate::world::World;
use crate::value::{
    field_lookup,
    field_position,
    field_upsert,
    is_first_field,
    FieldView,
    HeapObjectView,
    InterruptKind,
    Memory,
    Value,
};

verus! {

/// Whether a value names something that is in the store, of its kind.
pub open spec fn refers(store: Memory, value: Value) -> bool {
    match value {
        Value::String(_) => store.text(value) is Some,
        Value::List(_) => store.list(value) is Some,
        Value::Objekt(_) => store.fields(value) is Some,
        Value::Speicherbox(_) => store.fields(value) is Some,
        Value::BuiltinFunction(_) => store.bound(value) is Some,
        Value::Ptr(cell) => cell < store.cells.len(),
        _ => true,
    }
}

/// Whether a value names nothing on the heap at or above `bound`.
pub open spec fn lies_below(value: Value, bound: int) -> bool {
    match value {
        Value::String(id) => id < bound,
        Value::List(id) => id < bound,
        Value::Objekt(id) => id < bound,
        Value::Speicherbox(id) => id < bound,
        Value::BuiltinFunction(id) => id < bound,
        _ => true,
    }
}

/// Whether all of some values name things that are in the store.
pub open spec fn all_refer(store: Memory, values: Seq<Value>) -> bool {
    forall|i: int| 0 <= i < values.len() ==> refers(store, #[trigger] values[i])
}

/// Whether the values of all of some fields name things that are in the store.
pub open spec fn fields_refer(store: Memory, fields: Seq<FieldView>) -> bool {
    forall|i: int| 0 <= i < fields.len() ==> refers(store, (#[trigger] fields[i]).value)
}

/// Whether a heap object only holds values that name older things.
pub open spec fn object_kept(store: Memory, id: int) -> bool {
    match store.heap[id] {
        HeapObjectView::Text(_) => true,
        HeapObjectView::List(items) => forall|i: int|
            0 <= i < items.len() ==> refers(store, #[trigger] items[i]) && lies_below(items[i], id),
        HeapObjectView::Fields(fields) => forall|i: int|
            0 <= i < fields.len() ==> refers(store, (#[trigger] fields[i]).value) && lies_below(
                fields[i].value,
                id,
            ),
        HeapObjectView::Bound { base, .. } => refers(store, base) && lies_below(base, id),
    }
}

/// Whether the store holds together: it fits, its cells hold values that name
/// things that are there, and so do its heap objects.
pub open spec fn store_kept(store: Memory) -> bool {
    &&& store.fits()
    &&& all_refer(store, store.cells)
    &&& forall|id: int| 0 <= id < store.heap.len() ==> #[trigger] object_kept(store, id)
}

/// Whether a store has all the heap objects of another, unchanged, and no
/// fewer cells.
pub open spec fn extends(before: Memory, after: Memory) -> bool {
    &&& before.heap.len() <= after.heap.len()
    &&& forall|id: int| 0 <= id < before.heap.len() ==> after.heap[id] == #[trigger] before.heap[id]
    &&& before.cells.len() <= after.cells.len()
}

/// Whether the values that a frame holds name things that are there.
pub open spec fn frame_kept(store: Memory, frame: Frame) -> bool {
    match frame {
        Frame::InfixRhs(_, value) => refers(store, value),
        Frame::IndexAt(value) => refers(store, value),
        Frame::Await(Pending::Parse(value)) => store.text(value) is Some,
        Frame::Await(Pending::Store(cell, _)) => cell < store.cells.len(),
        Frame::Await(Pending::Http(cell)) => cell < store.cells.len(),
        _ => true,
    }
}

/// Whether the value that the control holds names something that is there.
pub open spec fn control_kept(store: Memory, control: Control) -> bool {
    match control {
        Control::Value(value) => refers(store, value),
        Control::Signal(InterruptKind::Return(value)) => refers(store, value),
        Control::Signal(InterruptKind::Error(id)) => store.text(Value::String(id)) is Some,
        Control::Done(Final::Error(id)) => store.text(Value::String(id)) is Some,
        Control::Done(Final::Defect(defect)) => defect != Defect::Dangling,
        _ => true,
    }
}

/// Whether every name of the chain is bound to a cell that is there.
pub open spec fn scopes_kept(store: Memory, scopes: ChainView) -> bool {
    forall|i: int, name: Seq<char>|
        0 <= i < scopes.len() && (#[trigger] scopes[i]).contains_key(name) ==> (
        #[trigger] scopes[i][name]) < store.cells.len()
}

/// Whether all but the control of a machine holds together.
pub open spec fn base_kept(m: Machine) -> bool {
    &&& store_kept(m.store)
    &&& all_refer(m.store, m.operands)
    &&& scopes_kept(m.store, m.scopes)
    &&& forall|i: int| 0 <= i < m.stack.len() ==> frame_kept(m.store, #[trigger] m.stack[i])
}

/// The machine holds together: every value in it names something that is
/// there.
pub open spec fn kept(m: Machine) -> bool {
    base_kept(m) && control_kept(m.store, m.control)
}

// ---------------------------------------------------------------------------
// Stores that grow
// ---------------------------------------------------------------------------
proof fn lemma_refers_extends(before: Memory, after: Memory, value: Value)
    requires
        extends(before, after),
        refers(before, value),
    ensures
        refers(after, value),
{
    match value {
        Value::String(id) => {
            assert(after.heap[id as int] == before.heap[id as int]);
        },
        Value::List(id) => {
            assert(after.heap[id as int] == before.heap[id as int]);
        },
        Value::Objekt(id) => {
            assert(after.heap[id as int] == before.heap[id as int]);
        },
        Value::Speicherbox(id) => {
            assert(after.heap[id as int] == before.heap[id as int]);
        },
        Value::BuiltinFunction(id) => {
            assert(after.heap[id as int] == before.heap[id as int]);
        },
        _ => {},
    }
}

proof fn lemma_all_refer_extends(before: Memory, after: Memory, values: Seq<Value>)
    requires
        extends(before, after),
        all_refer(before, values),
    ensures
        all_refer(after, values),
{
    assert forall|i: int| 0 <= i < values.len() implies refers(after, #[trigger] values[i]) by {
        lemma_refers_extends(before, after, values[i]);
    }
}

proof fn lemma_fields_refer_extends(before: Memory, after: Memory, fields: Seq<FieldView>)
    requires
        extends(before, after),
        fields_refer(before, fields),
    ensures
        fields_refer(after, fields),
{
    assert forall|i: int| 0 <= i < fields.len() implies refers(
        after,
        (#[trigger] fields[i]).value,
    ) by {
        lemma_refers_extends(before, after, fields[i].value);
    }
}

proof fn lemma_object_extends(before: Memory, after: Memory, id: int)
    requires
        extends(before, after),
        0 <= id < before.heap.len(),
        object_kept(before, id),
    ensures
        object_kept(after, id),
{
    assert(after.heap[id] == before.heap[id]);
    match before.heap[id] {
        HeapObjectView::List(items) => {
            assert forall|i: int| 0 <= i < items.len() implies refers(after, #[trigger] items[i])
                && lies_below(items[i], id) by {
                lemma_refers_extends(before, after, items[i]);
            }
        },
        HeapObjectView::Fields(fields) => {
            assert forall|i: int| 0 <= i < fields.len() implies refers(
                after,
                (#[trigger] fields[i]).value,
            ) && lies_below(fields[i].value, id) by {
                lemma_refers_extends(before, after, fields[i].value);
            }
        },
        HeapObjectView::Bound { base, .. } => {
            lemma_refers_extends(before, after, base);
        },
        _ => {},
    }
}

/// A value that names something in a store that fits names nothing at or
/// above the end of the heap.
proof fn lemma_refers_below(store: Memory, value: Value)
    requires
        refers(store, value),
    ensures
        lies_below(value, store.heap.len() as int),
{
}

/// The store with a new object that only holds values of before holds
/// together, and has all that the store of before had.
proof fn lemma_with_object(store: Memory, object: HeapObjectView)
    requires
        store_kept(store),
        store.with_object(object).fits(),
        match object {
            HeapObjectView::Text(_) => true,
            HeapObjectView::List(items) => all_refer(store, items),
            HeapObjectView::Fields(fields) => fields_refer(store, fields),
            HeapObjectView::Bound { base, .. } => refers(store, base),
        },
    ensures
        store_kept(store.with_object(object)),
        extends(store, store.with_object(object)),
        store.with_object(object).object(store.heap.len() as usize) == Some(object),
{
    let after = store.with_object(object);
    let id = store.heap.len() as int;
    assert(extends(store, after));
    lemma_all_refer_extends(store, after, store.cells);
    assert forall|other: int| 0 <= other < after.heap.len() implies #[trigger] object_kept(
        after,
        other,
    ) by {
        if other < id {
            assert(object_kept(store, other));
            lemma_object_extends(store, after, other);
        } else {
            match object {
                HeapObjectView::List(items) => {
                    assert forall|i: int| 0 <= i < items.len() implies refers(
                        after,
                        #[trigger] items[i],
                    ) && lies_below(items[i], other) by {
                        lemma_refers_extends(store, after, items[i]);
                        lemma_refers_below(store, items[i]);
                    }
                },
                HeapObjectView::Fields(fields) => {
                    assert forall|i: int| 0 <= i < fields.len() implies refers(
                        after,
                        (#[trigger] fields[i]).value,
                    ) && lies_below(fields[i].value, other) by {
                        lemma_refers_extends(store, after, fields[i].value);
                        lemma_refers_below(store, fields[i].value);
                    }
                },
                HeapObjectView::Bound { base, .. } => {
                    lemma_refers_extends(store, after, base);
                    lemma_refers_below(store, base);
                },
                _ => {},
            }
        }
    }
}

/// The store with a new cell that holds a value of before holds together.
proof fn lemma_with_cell(store: Memory, value: Value)
    requires
        store_kept(store),
        store.with_cell(value).fits(),
        refers(store, value),
    ensures
        store_kept(store.with_cell(value)),
        extends(store, store.with_cell(value)),
{
    let after = store.with_cell(value);
    assert(extends(store, after));
    assert forall|i: int| 0 <= i < after.cells.len() implies refers(
        after,
        #[trigger] after.cells[i],
    ) by {
        if i < store.cells.len() {
            assert(refers(store, store.cells[i]));
            lemma_refers_extends(store, after, store.cells[i]);
        } else {
            lemma_refers_extends(store, after, value);
        }
    }
    assert forall|id: int| 0 <= id < after.heap.len() implies #[trigger] object_kept(after, id) by {
        assert(object_kept(store, id));
        lemma_object_extends(store, after, id);
    }
}

/// The store after a value of before was written to a cell holds together.
proof fn lemma_write(store: Memory, cell: usize, value: Value)
    requires
        store_kept(store),
        refers(store, value),
    ensures
        store_kept(store.write(cell, value)),
        extends(store, store.write(cell, value)),
        store.write(cell, value).cells.len() == store.cells.len(),
        store.write(cell, value).heap == store.heap,
{
    let after = store.write(cell, value);
    assert(extends(store, after));
    assert forall|i: int| 0 <= i < after.cells.len() implies refers(
        after,
        #[trigger] after.cells[i],
    ) by {
        if i == cell {
            lemma_refers_extends(store, after, value);
        } else {
            assert(refers(store, store.cells[i]));
            lemma_refers_extends(store, after, store.cells[i]);
        }
    }
    assert forall|id: int| 0 <= id < after.heap.len() implies #[trigger] object_kept(after, id) by {
        assert(object_kept(store, id));
        lemma_object_extends(store, after, id);
    }
}

proof fn lemma_extends_self(store: Memory)
    ensures
        extends(store, store),
{
}

proof fn lemma_extends_twice(a: Memory, b: Memory, c: Memory)
    requires
        extends(a, b),
        extends(b, c),
    ensures
        extends(a, c),
{
    assert forall|id: int| 0 <= id < a.heap.len() implies c.heap[id] == #[trigger] a.heap[id] by {
        assert(b.heap[id] == a.heap[id]);
        assert(c.heap[id] == b.heap[id]);
    }
}

// ---------------------------------------------------------------------------
// Fields
// ---------------------------------------------------------------------------
proof fn lemma_upsert_refers(store: Memory, fields: Seq<FieldView>, key: Seq<char>, value: Value)
    requires
        fields_refer(store, fields),
        refers(store, value),
    ensures
        fields_refer(store, field_upsert(fields, key, value)),
{
    let after = field_upsert(fields, key, value);
    assert forall|i: int| 0 <= i < after.len() implies refers(
        store,
        (#[trigger] after[i]).value,
    ) by {
        match field_position(fields, key) {
            Some(at) => {
                if i != at {
                    assert(after[i] == fields[i]);
                }
            },
            None => {
                if i < fields.len() {
                    assert(after[i] == fields[i]);
                }
            },
        }
    }
}

proof fn lemma_lookup_refers(store: Memory, fields: Seq<FieldView>, key: Seq<char>)
    requires
        fields_refer(store, fields),
    ensures
        field_lookup(fields, key) matches Some(value) ==> refers(store, value),
{
    match field_position(fields, key) {
        Some(i) => {
            assert(is_first_field(fields, key, i));
            assert(refers(store, fields[i].value));
        },
        None => {},
    }
}

/// The values that an object in a store that holds together holds.
proof fn lemma_object_parts(store: Memory, value: Value)
    requires
        store_kept(store),
        refers(store, value),
    ensures
        store.list(value) matches Some(items) ==> all_refer(store, items),
        store.fields(value) matches Some(fields) ==> fields_refer(store, fields),
        store.bound(value) matches Some(pair) ==> refers(store, pair.0),
{
    match value {
        Value::List(id) => {
            assert(object_kept(store, id as int));
        },
        Value::Objekt(id) => {
            assert(object_kept(store, id as int));
        },
        Value::Speicherbox(id) => {
            assert(object_kept(store, id as int));
        },
        Value::BuiltinFunction(id) => {
            assert(object_kept(store, id as int));
        },
        _ => {},
    }
}

// ---------------------------------------------------------------------------
// Data of the host
// ---------------------------------------------------------------------------
/// Bringing data in only adds to the heap.
proof fn lemma_import_extends(store: Memory, data: DataView)
    ensures
        extends(store, import(store, data).0),
        import(store, data).0.cells == store.cells,
    decreases data, 0nat,
{
    match data {
        DataView::List(items) => {
            lemma_import_all_extends(store, items, items.len());
        },
        DataView::Objekt(entries) => {
            lemma_import_entries_extends(store, entries, entries.len());
        },
        DataView::Speicherbox(entries) => {
            lemma_import_entries_extends(store, entries, entries.len());
        },
        _ => {},
    }
}

proof fn lemma_import_all_extends(store: Memory, items: Seq<DataView>, n: nat)
    ensures
        extends(store, import_all(store, items, n).0),
        import_all(store, items, n).0.cells == store.cells,
    decreases items, n,
{
    if !(n == 0 || n > items.len()) {
        lemma_import_all_extends(store, items, (n - 1) as nat);
        let filled = import_all(store, items, (n - 1) as nat).0;
        lemma_import_extends(filled, items[n - 1]);
        lemma_extends_twice(store, filled, import(filled, items[n - 1]).0);
    }
}

proof fn lemma_import_entries_extends(store: Memory, entries: Seq<EntryView>, n: nat)
    ensures
        extends(store, import_entries(store, entries, n).0),
        import_entries(store, entries, n).0.cells == store.cells,
    decreases entries, n,
{
    if !(n == 0 || n > entries.len()) {
        lemma_import_entries_extends(store, entries, (n - 1) as nat);
        let filled = import_entries(store, entries, (n - 1) as nat).0;
        lemma_import_extends(filled, entries[n - 1].value);
        lemma_extends_twice(store, filled, import(filled, entries[n - 1].value).0);
    }
}

/// A store that another one extends fits if the other one does.
proof fn lemma_fits_before(before: Memory, after: Memory)
    requires
        extends(before, after),
        after.fits(),
    ensures
        before.fits(),
{
}

/// Data that was brought into a store that holds together left it holding
/// together, and the value names something that is there.
proof fn lemma_import_kept(store: Memory, data: DataView)
    requires
        store_kept(store),
        import(store, data).0.fits(),
    ensures
        store_kept(import(store, data).0),
        refers(import(store, data).0, import(store, data).1),
    decreases data, 0nat,
{
    match data {
        DataView::Text(text) => {
            lemma_with_object(store, HeapObjectView::Text(text));
        },
        DataView::List(items) => {
            let (filled, values) = import_all(store, items, items.len());
            let object = HeapObjectView::List(values);
            lemma_extends_self(filled);
            assert(extends(filled, filled.with_object(object)));
            lemma_fits_before(filled, filled.with_object(object));
            lemma_import_all_kept(store, items, items.len());
            lemma_with_object(filled, object);
        },
        DataView::Objekt(entries) => {
            let (filled, fields) = import_entries(store, entries, entries.len());
            let object = HeapObjectView::Fields(fields);
            assert(extends(filled, filled.with_object(object)));
            lemma_fits_before(filled, filled.with_object(object));
            lemma_import_entries_kept(store, entries, entries.len());
            lemma_with_object(filled, object);
        },
        DataView::Speicherbox(entries) => {
            let (filled, fields) = import_entries(store, entries, entries.len());
            let object = HeapObjectView::Fields(fields);
            assert(extends(filled, filled.with_object(object)));
            lemma_fits_before(filled, filled.with_object(object));
            lemma_import_entries_kept(store, entries, entries.len());
            lemma_with_object(filled, object);
        },
        _ => {},
    }
}

proof fn lemma_import_all_kept(store: Memory, items: Seq<DataView>, n: nat)
    requires
        store_kept(store),
        import_all(store, items, n).0.fits(),
    ensures
        store_kept(import_all(store, items, n).0),
        all_refer(import_all(store, items, n).0, import_all(store, items, n).1),
    decreases items, n,
{
    if !(n == 0 || n > items.len()) {
        let (filled, values) = import_all(store, items, (n - 1) as nat);
        let (next, value) = import(filled, items[n - 1]);
        lemma_import_extends(filled, items[n - 1]);
        lemma_fits_before(filled, next);
        lemma_import_all_kept(store, items, (n - 1) as nat);
        lemma_import_kept(filled, items[n - 1]);
        lemma_all_refer_extends(filled, next, values);
        assert forall|i: int| 0 <= i < values.push(value).len() implies refers(
            next,
            #[trigger] values.push(value)[i],
        ) by {
            if i < values.len() {
                assert(values.push(value)[i] == values[i]);
            }
        }
    }
}

proof fn lemma_import_entries_kept(store: Memory, entries: Seq<EntryView>, n: nat)
    requires
        store_kept(store),
        import_entries(store, entries, n).0.fits(),
    ensures
        store_kept(import_entries(store, entries, n).0),
        fields_refer(import_entries(store, entries, n).0, import_entries(store, entries, n).1),
    decreases entries, n,
{
    if !(n == 0 || n > entries.len()) {
        let (filled, fields) = import_entries(store, entries, (n - 1) as nat);
        let (next, value) = import(filled, entries[n - 1].value);
        lemma_import_extends(filled, entries[n - 1].value);
        lemma_fits_before(filled, next);
        lemma_import_entries_kept(store, entries, (n - 1) as nat);
        lemma_import_kept(filled, entries[n - 1].value);
        lemma_fields_refer_extends(filled, next, fields);
        lemma_upsert_refers(next, fields, entries[n - 1].key, value);
    }
}

/// A value that names something in a store that holds together can be copied
/// out of it.
proof fn lemma_export_total(store: Memory, value: Value, bound: nat)
    requires
        store_kept(store),
        refers(store, value),
        lies_below(value, bound as int),
    ensures
        export(store, value, bound) is Some,
    decreases bound, 0nat,
{
    match value {
        Value::List(id) => {
            assert(object_kept(store, id as int));
            lemma_export_all_total(store, store.list(value)->Some_0, id as nat);
        },
        Value::Objekt(id) => {
            assert(object_kept(store, id as int));
            lemma_export_fields_total(store, store.fields(value)->Some_0, id as nat);
        },
        Value::Speicherbox(id) => {
            assert(object_kept(store, id as int));
            lemma_export_fields_total(store, store.fields(value)->Some_0, id as nat);
        },
        _ => {},
    }
}

proof fn lemma_export_all_total(store: Memory, items: Seq<Value>, bound: nat)
    requires
        store_kept(store),
        forall|i: int|
            0 <= i < items.len() ==> refers(store, #[trigger] items[i]) && lies_below(
                items[i],
                bound as int,
            ),
    ensures
        export_all(store, items, bound) is Some,
    decreases bound, items.len() + 1,
{
    if items.len() > 0 {
        assert forall|i: int| 0 <= i < items.drop_last().len() implies refers(
            store,
            #[trigger] items.drop_last()[i],
        ) && lies_below(items.drop_last()[i], bound as int) by {
            assert(items.drop_last()[i] == items[i]);
        }
        lemma_export_all_total(store, items.drop_last(), bound);
        assert(refers(store, items[items.len() - 1]));
        lemma_export_total(store, items.last(), bound);
    }
}

proof fn lemma_export_fields_total(store: Memory, fields: Seq<FieldView>, bound: nat)
    requires
        store_kept(store),
        forall|i: int|
            0 <= i < fields.len() ==> refers(store, (#[trigger] fields[i]).value) && lies_below(
                fields[i].value,
                bound as int,
            ),
    ensures
        export_fields(store, fields, bound) is Some,
    decreases bound, fields.len() + 1,
{
    if fields.len() > 0 {
        assert forall|i: int| 0 <= i < fields.drop_last().len() implies refers(
            store,
            (#[trigger] fields.drop_last()[i]).value,
        ) && lies_below(fields.drop_last()[i].value, bound as int) by {
            assert(fields.drop_last()[i] == fields[i]);
        }
        lemma_export_fields_total(store, fields.drop_last(), bound);
        assert(refers(store, fields[fields.len() - 1].value));
        lemma_export_total(store, fields.last().value, bound);
    }
}

/// Values that name things in a store that holds together can all be copied
/// out of it.
proof fn lemma_export_values(store: Memory, values: Seq<Value>)
    requires
        store_kept(store),
        all_refer(store, values),
    ensures
        export_values(store, values) is Some,
        forall|i: int| 0 <= i < values.len() ==> export_value(store, #[trigger] values[i]) is Some,
{
    assert forall|i: int| 0 <= i < values.len() implies refers(store, #[trigger] values[i])
        && lies_below(values[i], store.heap.len() as int) by {
        lemma_refers_below(store, values[i]);
    }
    lemma_export_all_total(store, values, store.heap.len());
    assert forall|i: int| 0 <= i < values.len() implies export_value(
        store,
        #[trigger] values[i],
    ) is Some by {
        lemma_export_total(store, values[i], store.heap.len());
    }
}

// ---------------------------------------------------------------------------
// Parts of a step
// ---------------------------------------------------------------------------
/// A step that did not stop for want of a cell or a heap object, and that left
/// the machine holding together, if its store still fits.
pub open spec fn well(s: Step) -> bool {
    &&& s.1 != ActionView::Finish(OutcomeView::Defect(Defect::Dangling))
    &&& s.0.store.fits() ==> kept(s.0)
}

proof fn lemma_base_pushed(m: Machine, frame: Frame)
    requires
        base_kept(m),
        frame_kept(m.store, frame),
    ensures
        base_kept(m.pushed(frame)),
{
    let after = m.pushed(frame);
    assert forall|i: int| 0 <= i < after.stack.len() implies frame_kept(
        after.store,
        #[trigger] after.stack[i],
    ) by {
        if i < m.stack.len() {
            assert(after.stack[i] == m.stack[i]);
        }
    }
}

proof fn lemma_base_popped(m: Machine)
    requires
        base_kept(m),
        m.stack.len() > 0,
    ensures
        base_kept(m.popped()),
        frame_kept(m.store, m.stack.last()),
{
    let after = m.popped();
    assert forall|i: int| 0 <= i < after.stack.len() implies frame_kept(
        after.store,
        #[trigger] after.stack[i],
    ) by {
        assert(after.stack[i] == m.stack[i]);
    }
}

proof fn lemma_frame_extends(before: Memory, after: Memory, frame: Frame)
    requires
        extends(before, after),
        frame_kept(before, frame),
    ensures
        frame_kept(after, frame),
{
    match frame {
        Frame::InfixRhs(_, value) => {
            lemma_refers_extends(before, after, value);
        },
        Frame::IndexAt(value) => {
            lemma_refers_extends(before, after, value);
        },
        Frame::Await(Pending::Parse(value)) => {
            lemma_refers_extends(before, after, value);
        },
        _ => {},
    }
}

/// A machine that holds together still does with a store that extends its
/// own and holds together.
proof fn lemma_base_store(m: Machine, store: Memory)
    requires
        base_kept(m),
        store_kept(store),
        extends(m.store, store),
    ensures
        base_kept(m.with_store(store)),
{
    let after = m.with_store(store);
    lemma_all_refer_extends(m.store, store, m.operands);
    assert forall|i: int| 0 <= i < after.stack.len() implies frame_kept(
        after.store,
        #[trigger] after.stack[i],
    ) by {
        lemma_frame_extends(m.store, store, m.stack[i]);
    }
}

proof fn lemma_well_halt(m: Machine, end: Final)
    requires
        base_kept(m),
        end != Final::Defect(Defect::Dangling),
        end matches Final::Error(id) ==> m.store.text(Value::String(id)) is Some,
    ensures
        well(m.halt(end)),
{
}

proof fn lemma_well_ask(m: Machine, action: ActionView, pending: Pending)
    requires
        base_kept(m),
        frame_kept(m.store, Frame::Await(pending)),
        !(action is Finish),
    ensures
        well(m.ask(action, pending)),
{
    lemma_base_pushed(m, Frame::Await(pending));
}

/// The machine with a new text, if the store still fits.
proof fn lemma_with_text(m: Machine, text: Seq<char>)
    requires
        base_kept(m),
    ensures
        extends(m.store, m.store.with_text(text)),
        m.store.with_text(text).fits() ==> base_kept(m.with_store(m.store.with_text(text)))
            && m.store.with_text(text).text(Value::String(m.store.heap.len() as usize)) == Some(
            text,
        ),
{
    if m.store.with_text(text).fits() {
        lemma_with_object(m.store, HeapObjectView::Text(text));
        lemma_base_store(m, m.store.with_text(text));
    }
}

proof fn lemma_well_fail(m: Machine, message: Seq<char>)
    requires
        base_kept(m),
    ensures
        well(m.fail(message)),
{
    lemma_with_text(m, message);
}

proof fn lemma_well_text_value(m: Machine, text: Seq<char>)
    requires
        base_kept(m),
    ensures
        well(m.text_value(text)),
{
    lemma_with_text(m, text);
}

/// What operators and casts on scalars come to names nothing, or is the
/// operand itself.
proof fn lemma_scalars(op: InfixOp, prefix: PrefixOp, lhs: Value, rhs: Value, scalar: Scalar)
    ensures
        infix_result(op, lhs, rhs) matches Computed::Value(value) ==> !names(value),
        prefix_result(prefix, lhs) matches Computed::Value(value) ==> !names(value),
        cast_result(lhs, scalar) matches Computed::Value(value) ==> !names(value),
{
}

/// Whether a value names a cell or a heap object.
pub open spec fn names(value: Value) -> bool {
    !(value is Unit || value is Int || value is Float || value is Bool || value is Char)
}

proof fn lemma_well_settle(m: Machine, computed: Computed)
    requires
        base_kept(m),
        computed matches Computed::Value(value) ==> refers(m.store, value),
    ensures
        well(m.settle(computed)),
{
    match computed {
        Computed::Error(fault) => {
            lemma_well_fail(m, crate::messages::fault_text(fault));
        },
        Computed::Host(request, kind) => {
            lemma_well_ask(m, ActionView::Float(request), Pending::Value(kind));
        },
        _ => {},
    }
}

proof fn lemma_well_settle_into(m: Machine, cell: usize, computed: Computed)
    requires
        base_kept(m),
        cell < m.store.cells.len(),
        computed matches Computed::Value(value) ==> refers(m.store, value),
    ensures
        well(m.settle_into(cell, computed)),
{
    match computed {
        Computed::Value(value) => {
            lemma_write(m.store, cell, value);
            lemma_base_store(m, m.store.write(cell, value));
        },
        Computed::Error(fault) => {
            lemma_well_fail(m, crate::messages::fault_text(fault));
        },
        Computed::Host(request, kind) => {
            lemma_well_ask(
                m,
                ActionView::Float(request),
                Pending::Store(cell, kind),
            );
        },
        _ => {},
    }
}

/// An operator on two values that name things leaves a store that holds
/// together, and comes to a value that names something.
proof fn lemma_binary(store: Memory, op: InfixOp, lhs: Value, rhs: Value)
    requires
        store_kept(store),
    ensures
        extends(store, binary(store, op, lhs, rhs).0),
        binary(store, op, lhs, rhs).0.cells == store.cells,
        binary(store, op, lhs, rhs).0.fits() ==> store_kept(binary(store, op, lhs, rhs).0) && (
        binary(store, op, lhs, rhs).1 matches Computed::Value(value) ==> refers(
            binary(store, op, lhs, rhs).0,
            value,
        )),
{
    lemma_scalars(op, PrefixOp::Not, lhs, rhs, Scalar::Int);
    match (store.text(lhs), store.text(rhs)) {
        (Some(a), Some(b)) => {
            if op == InfixOp::Plus && store.with_text(a + b).fits() {
                lemma_with_object(store, HeapObjectView::Text(a + b));
            }
        },
        _ => {},
    }
}

proof fn lemma_operands(m: Machine, count: int)
    requires
        base_kept(m),
        0 <= count <= m.operands.len(),
    ensures
        base_kept(operands_upto(m, m.operands.len() - count)),
        all_refer(m.store, operands_from(m, m.operands.len() - count)),
        base_kept(discard(m, count)),
{
    let from = m.operands.len() - count;
    let taken = operands_from(m, from);
    assert forall|i: int| 0 <= i < taken.len() implies refers(m.store, #[trigger] taken[i]) by {
        assert(taken[i] == m.operands[from + i]);
    }
    let left = operands_upto(m, from);
    assert forall|i: int| 0 <= i < left.operands.len() implies refers(
        left.store,
        #[trigger] left.operands[i],
    ) by {
        assert(left.operands[i] == m.operands[i]);
    }
}

proof fn lemma_discard(m: Machine, count: int)
    requires
        base_kept(m),
        0 <= count,
    ensures
        base_kept(discard(m, count)),
{
    if count <= m.operands.len() {
        lemma_operands(m, count);
    }
}

proof fn lemma_keep(m: Machine, value: Value)
    requires
        base_kept(m),
        refers(m.store, value),
    ensures
        base_kept(keep(m, value)),
{
    let after = keep(m, value);
    assert forall|i: int| 0 <= i < after.operands.len() implies refers(
        after.store,
        #[trigger] after.operands[i],
    ) by {
        if i < m.operands.len() {
            assert(after.operands[i] == m.operands[i]);
        }
    }
}

/// A name bound to a new cell, if the store still fits.
proof fn lemma_bind(m: Machine, name: Seq<char>, value: Value)
    requires
        base_kept(m),
        refers(m.store, value),
    ensures
        extends(m.store, bind(m, name, value).store),
        bind(m, name, value).store.fits() ==> base_kept(bind(m, name, value)),
        bind(m, name, value).stack == m.stack,
        bind(m, name, value).operands == m.operands,
{
    let after = bind(m, name, value);
    if after.store.fits() {
        lemma_with_cell(m.store, value);
        lemma_base_store(m, m.store.with_cell(value));
        let cell = m.store.cells.len() as usize;
        assert forall|i: int, other: Seq<char>|
            0 <= i < after.scopes.len() && (#[trigger] after.scopes[i]).contains_key(
                other,
            ) implies (#[trigger] after.scopes[i][other]) < after.store.cells.len() by {
            if m.scopes.len() > 0 {
                if i == m.scopes.len() - 1 {
                    if other != name {
                        assert(m.scopes[i].contains_key(other));
                        assert(after.scopes[i][other] == m.scopes[i][other]);
                    }
                } else {
                    assert(after.scopes[i] == m.scopes[i]);
                }
            }
        }
    }
}

proof fn lemma_resolve(m: Machine, name: Seq<char>)
    requires
        base_kept(m),
    ensures
        resolve(m.scopes, name) matches Some(cell) ==> cell < m.store.cells.len(),
    decreases m.scopes.len(),
{
    lemma_resolve_chain(m.store, m.scopes, name);
}

proof fn lemma_resolve_chain(store: Memory, scopes: ChainView, name: Seq<char>)
    requires
        scopes_kept(store, scopes),
    ensures
        resolve(scopes, name) matches Some(cell) ==> cell < store.cells.len(),
    decreases scopes.len(),
{
    if scopes.len() > 0 {
        if scopes.last().contains_key(name) {
            assert(scopes[scopes.len() - 1].contains_key(name));
        } else {
            let outer = scopes.drop_last();
            assert forall|i: int, other: Seq<char>|
                0 <= i < outer.len() && (#[trigger] outer[i]).contains_key(other) implies (
                #[trigger] outer[i][other]) < store.cells.len() by {
                assert(outer[i] == scopes[i]);
            }
            lemma_resolve_chain(store, outer, name);
        }
    }
}

proof fn lemma_scopes_pushed(m: Machine)
    requires
        base_kept(m),
    ensures
        base_kept(m.with_scopes(push_frame(m.scopes))),
        base_kept(leave(m, true)),
        base_kept(leave(m, false)),
{
    let entered = m.with_scopes(push_frame(m.scopes));
    assert forall|i: int, name: Seq<char>|
        0 <= i < entered.scopes.len() && (#[trigger] entered.scopes[i]).contains_key(
            name,
        ) implies (#[trigger] entered.scopes[i][name]) < entered.store.cells.len() by {
        if i < m.scopes.len() {
            assert(entered.scopes[i] == m.scopes[i]);
        }
    }
    let left = leave(m, true);
    assert forall|i: int, name: Seq<char>|
        0 <= i < left.scopes.len() && (#[trigger] left.scopes[i]).contains_key(name) implies (
        #[trigger] left.scopes[i][name]) < left.store.cells.len() by {
        assert(left.scopes[i] == m.scopes[i]);
    }
}

// ---------------------------------------------------------------------------
// Blocks, statements, expressions
// ---------------------------------------------------------------------------
proof fn lemma_well_push_eval<'a>(m: Machine<'a>, frame: Frame<'a>, node: &'a Expression)
    requires
        base_kept(m),
        frame_kept(m.store, frame),
    ensures
        well(m.pushed(frame).eval(node)),
{
    lemma_base_pushed(m, frame);
}

proof fn lemma_well_statement<'a>(m: Machine<'a>, node: &'a Statement)
    requires
        base_kept(m),
    ensures
        well(visit_statement(m, node)),
{
    match node {
        Statement::Let(inner) => {
            lemma_well_push_eval(m, Frame::Let(inner), &inner.expr);
        },
        Statement::Aendere(inner) => {
            lemma_well_push_eval(m, Frame::Aendere(inner), &inner.expr);
        },
        Statement::Return(Some(expr)) => {
            lemma_well_push_eval(m, Frame::Return, expr);
        },
        Statement::While(inner) => {
            lemma_well_push_eval(m, Frame::WhileCond(inner), &inner.cond);
        },
        _ => {},
    }
}

proof fn lemma_well_run_block<'a>(m: Machine<'a>, block: &'a Block, next: usize, scoped: bool)
    requires
        base_kept(m),
    ensures
        well(run_block(m, block, next, scoped)),
{
    lemma_scopes_pushed(m);
    if next < block.stmts@.len() {
        let frame = Frame::Block(block, (next + 1) as usize, scoped);
        lemma_base_pushed(m, frame);
        lemma_well_statement(m.pushed(frame), &block.stmts@[next as int]);
    } else {
        match &block.expr {
            Some(tail) => {
                lemma_well_push_eval(m, Frame::BlockEnd(scoped), tail);
            },
            None => {},
        }
    }
}

proof fn lemma_well_block<'a>(m: Machine<'a>, block: &'a Block, new_scope: bool)
    requires
        base_kept(m),
    ensures
        well(visit_block(m, block, new_scope)),
{
    lemma_scopes_pushed(m);
    if new_scope {
        lemma_well_run_block(m.with_scopes(push_frame(m.scopes)), block, 0, true);
    } else {
        lemma_well_run_block(m, block, 0, false);
    }
}

proof fn lemma_well_items<'a>(m: Machine<'a>, node: &'a crate::tree::ListExpr, done: usize)
    requires
        base_kept(m),
    ensures
        well(next_item(m, node, done)),
{
    if done < node.values@.len() {
        lemma_well_push_eval(m, Frame::ListItems(node, done), &node.values@[done as int]);
    } else if m.operands.len() >= done {
        let from = m.operands.len() - done;
        lemma_operands(m, done as int);
        let taken = operands_upto(m, from);
        let object = HeapObjectView::List(operands_from(m, from));
        if taken.store.with_object(object).fits() {
            lemma_with_object(taken.store, object);
            lemma_base_store(taken, taken.store.with_object(object));
        }
    }
}

/// The fields of an object literal name things if the values do.
proof fn lemma_object_fields(
    store: Memory,
    members: Seq<crate::tree::ObjectField>,
    values: Seq<Value>,
    n: nat,
)
    requires
        all_refer(store, values),
    ensures
        fields_refer(store, object_fields(members, values, n)),
    decreases n,
{
    if !(n == 0 || n > members.len() || n > values.len()) {
        lemma_object_fields(store, members, values, (n - 1) as nat);
        assert(refers(store, values[n - 1]));
        lemma_upsert_refers(
            store,
            object_fields(members, values, (n - 1) as nat),
            members[n - 1].key@,
            values[n - 1],
        );
    }
}

proof fn lemma_well_fields<'a>(m: Machine<'a>, node: &'a crate::tree::ObjectExpr, done: usize)
    requires
        base_kept(m),
    ensures
        well(next_field(m, node, done)),
{
    if done < node.members@.len() {
        lemma_well_push_eval(
            m,
            Frame::ObjectFields(node, done),
            &node.members@[done as int].value,
        );
    } else if !(m.operands.len() < done || done > node.members@.len()) {
        let from = m.operands.len() - done;
        lemma_operands(m, done as int);
        let taken = operands_upto(m, from);
        lemma_object_fields(m.store, node.members@, operands_from(m, from), done as nat);
        let object = HeapObjectView::Fields(
            object_fields(node.members@, operands_from(m, from), done as nat),
        );
        if taken.store.with_object(object).fits() {
            lemma_with_object(taken.store, object);
            lemma_base_store(taken, taken.store.with_object(object));
        }
    }
}

proof fn lemma_well_args<'a>(m: Machine<'a>, node: &'a crate::tree::CallExpr, done: usize)
    requires
        base_kept(m),
    ensures
        well(next_arg(m, node, done)),
{
    if done < node.args@.len() {
        lemma_well_push_eval(m, Frame::Args(node, done), &node.args@[done as int]);
    } else {
        lemma_base_pushed(m, Frame::Dispatch(node));
    }
}

proof fn lemma_well_expression<'a>(m: Machine<'a>, node: &'a Expression)
    requires
        base_kept(m),
    ensures
        well(visit_expression(m, node)),
{
    match node {
        Expression::Block(block) => {
            lemma_well_block(m, &**block, true);
        },
        Expression::If(inner) => {
            lemma_well_push_eval(m, Frame::IfCond(&**inner), &inner.cond);
        },
        Expression::String(s) => {
            lemma_well_text_value(m, s@);
        },
        Expression::List(inner) => {
            lemma_well_items(m, inner, 0);
        },
        Expression::Ident(inner) => {
            lemma_resolve(m, inner.ident@);
            match resolve(m.scopes, inner.ident@) {
                Some(cell) => {
                    assert(refers(m.store, m.store.cells[cell as int]));
                },
                None => {},
            }
        },
        Expression::Prefix(inner) => {
            lemma_well_push_eval(m, Frame::Prefix(&**inner), &inner.expr);
        },
        Expression::Infix(inner) => {
            lemma_well_push_eval(m, Frame::And(&**inner), &inner.lhs);
            lemma_well_push_eval(m, Frame::Or(&**inner), &inner.lhs);
            lemma_well_push_eval(m, Frame::InfixLhs(&**inner), &inner.lhs);
        },
        Expression::Assign(inner) => {
            lemma_well_push_eval(m, Frame::Assign(&**inner), &inner.expr);
        },
        Expression::Call(inner) => {
            lemma_well_args(m, &**inner, 0);
        },
        Expression::Cast(inner) => {
            lemma_well_push_eval(m, Frame::Cast(&**inner), &inner.expr);
        },
        Expression::Member(inner) => {
            lemma_well_push_eval(m, Frame::Member(&**inner), &inner.expr);
        },
        Expression::Index(inner) => {
            lemma_well_push_eval(m, Frame::IndexBase(&**inner), &inner.expr);
        },
        Expression::Object(inner) => {
            lemma_well_fields(m, inner, 0);
        },
        _ => {},
    }
}

// ---------------------------------------------------------------------------
// Calls
// ---------------------------------------------------------------------------
proof fn lemma_bind_params(m: Machine, callee: Callee, args: Seq<Value>, n: nat)
    requires
        base_kept(m),
        all_refer(m.store, args),
        n <= args.len(),
    ensures
        extends(m.store, bind_params(m, callee, args, n).store),
        bind_params(m, callee, args, n).store.fits() ==> base_kept(
            bind_params(m, callee, args, n),
        ),
        bind_params(m, callee, args, n).store.heap == m.store.heap,
    decreases n,
{
    if n > 0 {
        let before = bind_params(m, callee, args, (n - 1) as nat);
        let after = bind_params(m, callee, args, n);
        lemma_bind_params(m, callee, args, (n - 1) as nat);
        assert(extends(before.store, after.store));
        lemma_extends_twice(m.store, before.store, after.store);
        if after.store.fits() {
            assert(refers(m.store, args[n - 1]));
            lemma_refers_extends(m.store, before.store, args[n - 1]);
            lemma_bind(before, crate::model::param_text(m.program, callee, n - 1), args[n - 1]);
        }
    }
}

proof fn lemma_well_call_user(m: Machine, callee: Callee, args: Seq<Value>)
    requires
        base_kept(m),
        all_refer(m.store, args),
    ensures
        well(crate::model::call_user(m, callee, args)),
{
    lemma_scopes_pushed(m);
    let entered = m.with_scopes(push_frame(m.scopes));
    let n = crate::model::bound_count(m.program, callee, args);
    lemma_bind_params(entered, callee, args, n);
    let bound = bind_params(entered, callee, args, n);
    let s = crate::model::call_user(m, callee, args);
    let block = crate::model::body_of(m.program, callee);
    assert(s == run_block(bound.pushed(Frame::CallBody), block, 0, false));
    assert(s.0.store == bound.store);
    if bound.store.fits() {
        lemma_base_pushed(bound, Frame::CallBody);
        lemma_well_run_block(bound.pushed(Frame::CallBody), block, 0, false);
    }
}

/// The fields of the variables of the environment name texts that are there.
proof fn lemma_environment(store: Memory, variables: Seq<crate::state::VariableView>, n: nat)
    requires
        store_kept(store),
    ensures
        extends(store, environment_fields(store, variables, n).0),
        environment_fields(store, variables, n).0.cells == store.cells,
        environment_fields(store, variables, n).0.fits() ==> store_kept(
            environment_fields(store, variables, n).0,
        ) && fields_refer(
            environment_fields(store, variables, n).0,
            environment_fields(store, variables, n).1,
        ),
    decreases n,
{
    if !(n == 0 || n > variables.len()) {
        let (filled, fields) = environment_fields(store, variables, (n - 1) as nat);
        let after = filled.with_text(variables[n - 1].value);
        lemma_environment(store, variables, (n - 1) as nat);
        assert(extends(filled, after));
        lemma_extends_twice(store, filled, after);
        if after.fits() {
            lemma_with_object(filled, HeapObjectView::Text(variables[n - 1].value));
            lemma_fields_refer_extends(filled, after, fields);
            lemma_upsert_refers(
                after,
                fields,
                variables[n - 1].name,
                Value::String(filled.heap.len() as usize),
            );
        }
    }
}

proof fn lemma_well_call(m: Machine, name: Seq<char>, args: Seq<Value>, world: World)
    requires
        base_kept(m),
        all_refer(m.store, args),
    ensures
        well(call_func(m, name, args, world)),
{
    lemma_export_values(m.store, args);
    if name == "Aufgeben"@ {
    } else if name == "Drucke"@ {
        lemma_well_ask(
            m,
            ActionView::Write(crate::codec::render_line(export_values(m.store, args)->Some_0)),
            Pending::Value(Expect::Nothing),
        );
    } else if name == "Zergliedere_JSON"@ {
        if args.len() > 0 {
            match m.store.text(args[0]) {
                Some(text) => {
                    lemma_well_ask(
                        m,
                        ActionView::Deserialize(text),
                        Pending::Value(Expect::Data),
                    );
                },
                None => {},
            }
        }
    } else if name == "Gliedere_JSON"@ {
        if args.len() > 0 {
            lemma_well_ask(
                m,
                ActionView::Serialize(export_value(m.store, args[0])->Some_0),
                Pending::Value(Expect::Text),
            );
        }
    } else if name == "Formatiere"@ {
        if args.len() > 0 {
            assert forall|i: int| 0 <= i < args.skip(1).len() implies refers(
                m.store,
                #[trigger] args.skip(1)[i],
            ) by {
                assert(args.skip(1)[i] == args[i + 1]);
            }
            lemma_export_values(m.store, args.skip(1));
            match m.store.text(args[0]) {
                Some(template) => {
                    lemma_well_ask(
                        m,
                        ActionView::Format {
                            template,
                            args: export_values(m.store, args.skip(1))->Some_0,
                        },
                        Pending::Value(Expect::Text),
                    );
                },
                None => {},
            }
        }
    } else if name == "Zeit"@ {
        let object = HeapObjectView::Fields(crate::model::clock_fields(world.clock));
        if m.store.with_object(object).fits() {
            lemma_with_object(m.store, object);
            lemma_base_store(m, m.store.with_object(object));
        }
    } else if name == "Http"@ {
        match crate::model::http_request(m.store, args) {
            Some(request) => match args[4] {
                Value::Ptr(cell) => {
                    assert(refers(m.store, args[4]));
                    lemma_well_ask(m, request, Pending::Http(cell));
                },
                _ => {},
            },
            None => {},
        }
    } else if name == "Schlummere"@ {
        if args.len() > 0 && args[0] is Float {
            lemma_well_ask(
                m,
                ActionView::Sleep(args[0]->Float_0),
                Pending::Value(Expect::Nothing),
            );
        }
    } else if name == "Geld"@ {
        lemma_well_text_value(m, crate::messages::money_text());
    } else if name == "Umgebungsvariablen"@ {
        let (filled, fields) = environment_fields(m.store, m.environment, m.environment.len());
        lemma_environment(m.store, m.environment, m.environment.len());
        let object = HeapObjectView::Fields(fields);
        let store = filled.with_object(object);
        assert(extends(filled, store));
        if store.fits() {
            lemma_with_object(filled, object);
            lemma_extends_twice(m.store, filled, store);
            lemma_base_store(m, store);
        }
    } else {
        match crate::model::find_callee(m.program, name) {
            Some(callee) => {
                lemma_well_call_user(m, callee, args);
            },
            None => {},
        }
    }
}

proof fn lemma_well_invoke(m: Machine, callee: Value, args: Seq<Value>)
    requires
        base_kept(m),
        refers(m.store, callee),
        all_refer(m.store, args),
    ensures
        well(crate::model::invoke(m, callee, args)),
{
    lemma_export_values(m.store, args);
    lemma_object_parts(m.store, callee);
    match m.store.bound(callee) {
        Some((base, name)) => {
            lemma_refers_below(m.store, base);
            lemma_export_total(m.store, base, m.store.heap.len());
            lemma_well_ask(
                m,
                ActionView::Invoke {
                    name,
                    base: export_value(m.store, base)->Some_0,
                    args: export_values(m.store, args)->Some_0,
                },
                Pending::Value(Expect::Data),
            );
        },
        None => {},
    }
}

// ---------------------------------------------------------------------------
// The driver
// ---------------------------------------------------------------------------
proof fn lemma_well_drive(m: Machine, stage: Stage, value: Value, world: World)
    requires
        base_kept(m),
        refers(m.store, value),
    ensures
        well(drive(m, stage, value, world)),
{
    match stage {
        Stage::Seed(next) => {
            if next >= m.program.globals@.len() {
                lemma_base_pushed(m, Frame::Driver(Stage::Apply));
                lemma_well_call(
                    m.pushed(Frame::Driver(Stage::Apply)),
                    "Bewerbung"@,
                    Seq::empty(),
                    world,
                );
            } else {
                let again = Frame::Driver(Stage::Seed((next + 1) as usize));
                lemma_base_pushed(m, again);
                lemma_well_push_eval(
                    m.pushed(again),
                    Frame::Global(next),
                    &m.program.globals@[next as int].expr,
                );
            }
        },
        Stage::Apply => {
            match m.store.text(value) {
                Some(letter) => {
                    if letter.len() == 0 {
                        lemma_with_text(m, crate::messages::rejection_text());
                        let grown = m.with_store(
                            m.store.with_text(crate::messages::rejection_text()),
                        );
                        if grown.store.fits() {
                            lemma_well_halt(grown, Final::Error(m.store.heap.len() as usize));
                        }
                    } else {
                        match world.entropy {
                            Some(number) => {
                                let frame = Frame::Driver(Stage::Enroll(number as i64));
                                lemma_base_pushed(m, frame);
                                lemma_well_call(
                                    m.pushed(frame),
                                    "Einschreibung"@,
                                    seq![Value::Int(number as i64)],
                                    world,
                                );
                            },
                            None => {},
                        }
                    }
                },
                None => {},
            }
        },
        Stage::Enroll(number) => {
            lemma_base_pushed(m, Frame::Driver(Stage::Study));
            lemma_well_call(
                m.pushed(Frame::Driver(Stage::Study)),
                "Studium"@,
                seq![Value::Int(number)],
                world,
            );
        },
        Stage::Study => {},
    }
}

// ---------------------------------------------------------------------------
// Frames
// ---------------------------------------------------------------------------
proof fn lemma_follow(store: Memory, cell: usize, hops: nat)
    requires
        store_kept(store),
        cell < store.cells.len(),
    ensures
        follow(store, cell, hops) matches Some(end) ==> end < store.cells.len(),
    decreases hops,
{
    if hops > 0 {
        match store.read(cell) {
            Some(Value::Ptr(next)) => {
                assert(refers(store, store.cells[cell as int]));
                lemma_follow(store, next, (hops - 1) as nat);
            },
            _ => {},
        }
    }
}

proof fn lemma_well_cast<'a>(m: Machine<'a>, node: &'a crate::tree::CastExpr, value: Value)
    requires
        base_kept(m),
        refers(m.store, value),
    ensures
        well(finish_cast(m, node, value)),
{
    lemma_scalars(InfixOp::Plus, PrefixOp::Not, value, value, Scalar::Int);
    lemma_scalars(InfixOp::Plus, PrefixOp::Not, value, value, Scalar::Float);
    lemma_scalars(InfixOp::Plus, PrefixOp::Not, value, value, Scalar::Bool);
    lemma_scalars(InfixOp::Plus, PrefixOp::Not, value, value, Scalar::Char);
    if node.from_type is Any {
        lemma_well_fail(
            m,
            crate::messages::cast_text(
                crate::types::value_type_text(value),
                crate::types::type_text(node.as_type),
            ),
        );
    } else {
        match crate::ops::scalar_of(node.as_type) {
            Some(scalar) => match m.store.text(value) {
                None => {
                    lemma_well_settle(m, cast_result(value, scalar));
                },
                Some(text) => {
                    let digits = crate::text::replaced(text, ',', '.');
                    lemma_well_fail(
                        m,
                        crate::messages::parse_text(digits, crate::text::integer_refusal(digits)),
                    );
                    lemma_with_text(m, digits);
                    let grown = m.with_store(m.store.with_text(digits));
                    if grown.store.fits() {
                        lemma_well_ask(
                            grown,
                            ActionView::ParseFloat(digits),
                            Pending::Parse(Value::String(m.store.heap.len() as usize)),
                        );
                    }
                },
            },
            None => {},
        }
    }
}

proof fn lemma_well_deliver<'a>(m: Machine<'a>, frame: Frame<'a>, value: Value, world: World)
    requires
        base_kept(m),
        frame_kept(m.store, frame),
        refers(m.store, value),
    ensures
        well(deliver(m, frame, value, world)),
{
    lemma_scopes_pushed(m);
    match frame {
        Frame::Driver(stage) => {
            lemma_well_drive(m, stage, value, world);
        },
        Frame::Global(index) => {
            if index < m.program.globals@.len() && m.scopes.len() > 0 {
                lemma_bind(m, m.program.globals@[index as int].name@, value);
            }
        },
        Frame::Args(node, done) => {
            if done < usize::MAX {
                lemma_keep(m, value);
                lemma_well_args(keep(m, value), node, (done + 1) as usize);
            }
        },
        Frame::Dispatch(node) => {
            match &node.func {
                crate::tree::CallBase::Ident(name) => {
                    if m.operands.len() >= node.args@.len() {
                        let from = m.operands.len() - node.args@.len();
                        lemma_operands(m, node.args@.len() as int);
                        lemma_well_call(
                            operands_upto(m, from),
                            name@,
                            operands_from(m, from),
                            world,
                        );
                    }
                },
                crate::tree::CallBase::Expr(callee) => {
                    lemma_well_push_eval(m, Frame::Callee(node), &**callee);
                },
            }
        },
        Frame::Callee(node) => {
            if m.operands.len() >= node.args@.len() {
                let from = m.operands.len() - node.args@.len();
                lemma_operands(m, node.args@.len() as int);
                lemma_well_invoke(operands_upto(m, from), value, operands_from(m, from));
            }
        },
        Frame::Block(block, next, scoped) => {
            lemma_well_run_block(m, block, next, scoped);
        },
        Frame::Let(node) => {
            if m.scopes.len() > 0 {
                lemma_bind(m, node.name@, value);
            }
        },
        Frame::Aendere(node) => {
            match crate::model::target(m, node.assignee@, node.assignee_ptr_count as nat) {
                Ok(cell) => {
                    lemma_write(m.store, cell, value);
                    lemma_base_store(m, m.store.write(cell, value));
                },
                Err(defect) => {
                    lemma_target(m, node.assignee@, node.assignee_ptr_count as nat);
                },
            }
        },
        Frame::WhileCond(node) => {
            lemma_base_pushed(m, Frame::WhileStart(node));
            lemma_well_ask(
                m.pushed(Frame::WhileStart(node)),
                ActionView::Pause(crate::model::LOOP_DELAY),
                Pending::Value(Expect::Nothing),
            );
        },
        Frame::WhileStart(node) => {
            lemma_base_pushed(m, Frame::WhileBody(node));
            lemma_well_block(m.pushed(Frame::WhileBody(node)), &node.block, true);
        },
        Frame::WhileBody(node) => {
            lemma_well_push_eval(m, Frame::WhileCond(node), &node.cond);
        },
        Frame::IfCond(node) => {
            lemma_well_block(m, &node.then_block, true);
            match &node.else_block {
                Some(block) => {
                    lemma_well_block(m, block, true);
                },
                None => {},
            }
        },
        Frame::ListItems(node, done) => {
            if done < usize::MAX {
                lemma_keep(m, value);
                lemma_well_items(keep(m, value), node, (done + 1) as usize);
            }
        },
        Frame::Prefix(node) => {
            lemma_scalars(InfixOp::Plus, PrefixOp::Not, value, value, Scalar::Int);
            lemma_scalars(InfixOp::Plus, PrefixOp::Neg, value, value, Scalar::Int);
            lemma_well_settle(m, prefix_result(PrefixOp::Not, value));
            lemma_well_settle(m, prefix_result(PrefixOp::Neg, value));
            match &node.expr {
                Expression::Ident(inner) => {
                    lemma_resolve(m, inner.ident@);
                },
                _ => {},
            }
            match value {
                Value::Ptr(cell) => {
                    assert(refers(m.store, m.store.cells[cell as int]));
                },
                _ => {},
            }
        },
        Frame::InfixLhs(node) => {
            lemma_well_push_eval(m, Frame::InfixRhs(node, value), &node.rhs);
        },
        Frame::InfixRhs(node, lhs) => {
            lemma_binary(m.store, node.op, lhs, value);
            let (store, computed) = binary(m.store, node.op, lhs, value);
            if store.fits() {
                lemma_base_store(m, store);
                lemma_well_settle(m.with_store(store), computed);
            } else {
                lemma_unfit_settle(m.with_store(store), computed);
            }
        },
        Frame::Assign(node) => {
            lemma_target(m, node.assignee@, node.assignee_ptr_count as nat);
            match crate::model::target(m, node.assignee@, node.assignee_ptr_count as nat) {
                Ok(cell) => match crate::ops::assign_operator(node.op) {
                    Some(op) => {
                        lemma_binary(m.store, op, m.store.cells[cell as int], value);
                        let (store, computed) = binary(
                            m.store,
                            op,
                            m.store.cells[cell as int],
                            value,
                        );
                        if store.fits() {
                            lemma_base_store(m, store);
                            lemma_well_settle_into(m.with_store(store), cell, computed);
                        } else {
                            lemma_unfit_settle_into(m.with_store(store), cell, computed);
                        }
                    },
                    None => {},
                },
                Err(_) => {},
            }
        },
        Frame::Cast(node) => {
            lemma_well_cast(m, node, value);
        },
        Frame::Member(node) => {
            lemma_object_parts(m.store, value);
            match m.store.fields(value) {
                Some(fields) => {
                    lemma_lookup_refers(m.store, fields, node.member@);
                },
                None => {
                    let object = HeapObjectView::Bound { base: value, name: node.member@ };
                    if m.store.with_object(object).fits() {
                        lemma_with_object(m.store, object);
                        lemma_base_store(m, m.store.with_object(object));
                    }
                },
            }
        },
        Frame::IndexBase(node) => {
            lemma_well_push_eval(m, Frame::IndexAt(value), &node.index);
        },
        Frame::IndexAt(base) => {
            lemma_object_parts(m.store, base);
            match (m.store.list(base), value) {
                (Some(items), Value::Int(i)) => {
                    if 0 <= i < items.len() {
                        assert(refers(m.store, items[i as int]));
                    } else {
                        lemma_well_fail(m, crate::messages::index_text(i));
                    }
                },
                _ => {},
            }
        },
        Frame::ObjectFields(node, done) => {
            if done < usize::MAX {
                lemma_keep(m, value);
                lemma_well_fields(keep(m, value), node, (done + 1) as usize);
            }
        },
        _ => {},
    }
}

/// A step that settles on a store that no longer fits still does not stop for
/// want of a cell or a heap object.
proof fn lemma_unfit_settle(m: Machine, computed: Computed)
    requires
        !m.store.fits(),
    ensures
        well(m.settle(computed)),
{
    match computed {
        Computed::Error(fault) => {
            assert(m.store.with_text(crate::messages::fault_text(fault)).heap.len()
                > m.store.heap.len());
        },
        _ => {},
    }
}

proof fn lemma_unfit_settle_into(m: Machine, cell: usize, computed: Computed)
    requires
        !m.store.fits(),
        cell < m.store.cells.len(),
    ensures
        well(m.settle_into(cell, computed)),
{
    match computed {
        Computed::Error(fault) => {
            assert(m.store.with_text(crate::messages::fault_text(fault)).heap.len()
                > m.store.heap.len());
        },
        _ => {},
    }
}

/// The cell that an assignment stores into is there.
proof fn lemma_target(m: Machine, name: Seq<char>, hops: nat)
    requires
        base_kept(m),
    ensures
        crate::model::target(m, name, hops) != Err::<usize, Defect>(Defect::Dangling),
        crate::model::target(m, name, hops) matches Ok(cell) ==> cell < m.store.cells.len(),
{
    lemma_resolve(m, name);
    match resolve(m.scopes, name) {
        Some(cell) => {
            lemma_follow(m.store, cell, hops);
        },
        None => {},
    }
}

proof fn lemma_well_unwind<'a>(m: Machine<'a>, frame: Frame<'a>, interrupt: InterruptKind)
    requires
        base_kept(m),
        control_kept(m.store, Control::Signal(interrupt)),
    ensures
        well(unwind(m, frame, interrupt)),
{
    lemma_scopes_pushed(m);
    match frame {
        Frame::Driver(stage) => {
            match interrupt {
                InterruptKind::Error(message) => {
                    lemma_well_halt(m, Final::Error(message));
                },
                _ => {},
            }
        },
        Frame::WhileBody(node) => {
            lemma_well_push_eval(m, Frame::WhileCond(node), &node.cond);
        },
        Frame::Args(_, done) => {
            lemma_discard(m, done as int);
        },
        Frame::ListItems(_, done) => {
            lemma_discard(m, done as int);
        },
        Frame::ObjectFields(_, done) => {
            lemma_discard(m, done as int);
        },
        Frame::Callee(node) => {
            lemma_discard(m, node.args@.len() as int);
        },
        _ => {},
    }
}

proof fn lemma_well_resume(m: Machine, pending: Pending, event: EventView)
    requires
        base_kept(m),
        frame_kept(m.store, Frame::Await(pending)),
    ensures
        well(resume(m, pending, event)),
{
    match pending {
        Pending::Value(expect) => {
            lemma_answer(m.store, expect, event);
            match answer(m.store, expect, event) {
                Answer::Value(store, value) => {
                    if store.fits() {
                        lemma_base_store(m, store);
                    }
                },
                Answer::Failed(reason) => {
                    lemma_well_fail(m, reason);
                },
                Answer::Mismatch => {},
            }
        },
        Pending::Store(cell, expect) => {
            lemma_answer(m.store, expect, event);
            match answer(m.store, expect, event) {
                Answer::Value(store, value) => {
                    if store.fits() {
                        lemma_base_store(m, store);
                        lemma_write(store, cell, value);
                        lemma_base_store(m.with_store(store), store.write(cell, value));
                    }
                },
                Answer::Failed(reason) => {
                    lemma_well_fail(m, reason);
                },
                Answer::Mismatch => {},
            }
        },
        Pending::Http(cell) => match event {
            EventView::Http { status, body } => {
                lemma_with_text(m, body);
                let grown = m.store.with_text(body);
                if grown.fits() {
                    lemma_write(grown, cell, Value::String(m.store.heap.len() as usize));
                    lemma_base_store(
                        m.with_store(grown),
                        grown.write(cell, Value::String(m.store.heap.len() as usize)),
                    );
                }
            },
            EventView::Failed(reason) => {
                lemma_well_fail(m, reason);
            },
            _ => {},
        },
        Pending::Parse(source) => match event {
            EventView::Failed(reason) => match m.store.text(source) {
                Some(text) => {
                    lemma_well_fail(m, crate::messages::parse_text(text, reason));
                },
                None => {},
            },
            _ => {},
        },
    }
}

/// The host's answer, taken into a store that holds together, leaves it
/// holding together and gives a value that names something.
proof fn lemma_answer(store: Memory, expect: Expect, event: EventView)
    requires
        store_kept(store),
    ensures
        answer(store, expect, event) matches Answer::Value(after, value) ==> extends(store, after)
            && after.cells == store.cells && (after.fits() ==> store_kept(after) && refers(
            after,
            value,
        )),
{
    match event {
        EventView::Text(text) => {
            if expect == Expect::Text && store.with_text(text).fits() {
                lemma_with_object(store, HeapObjectView::Text(text));
            }
        },
        EventView::Data(data) => {
            lemma_import_extends(store, data);
            if import(store, data).0.fits() {
                lemma_import_kept(store, data);
            }
        },
        _ => {},
    }
}

// ---------------------------------------------------------------------------
// Every state of a run
// ---------------------------------------------------------------------------
/// At the start of a run the machine holds together.
pub proof fn law_starts_kept(program: &Program, environment: Seq<crate::state::VariableView>)
    ensures
        kept(crate::model::initial(program, environment)),
{
    let m = crate::model::initial(program, environment);
    assert forall|i: int, name: Seq<char>|
        0 <= i < m.scopes.len() && (#[trigger] m.scopes[i]).contains_key(name) implies (
        #[trigger] m.scopes[i][name]) < m.store.cells.len() by {
        assert(m.scopes[i] == Map::<Seq<char>, usize>::empty());
    }
}

/// A step of a machine that holds together never stops for want of a cell or
/// a heap object, and it leaves the machine holding together, as long as the
/// cells and the heap objects can be counted in a machine word.
pub proof fn law_stays_kept(m: Machine, event: EventView, world: World)
    requires
        kept(m),
    ensures
        step(m, event, world).1 != ActionView::Finish(OutcomeView::Defect(Defect::Dangling)),
        step(m, event, world).0.store.fits() ==> kept(step(m, event, world).0),
{
    match m.control {
        Control::Eval(node) => {
            lemma_well_expression(m, node);
        },
        Control::Value(value) => {
            if m.stack.len() > 0 {
                lemma_base_popped(m);
                lemma_well_deliver(m.popped(), m.stack.last(), value, world);
            }
        },
        Control::Signal(interrupt) => {
            if m.stack.len() > 0 {
                lemma_base_popped(m);
                lemma_well_unwind(m.popped(), m.stack.last(), interrupt);
            }
        },
        Control::Waiting => {
            if m.stack.len() > 0 {
                lemma_base_popped(m);
                match m.stack.last() {
                    Frame::Await(pending) => {
                        lemma_well_resume(m.popped(), pending, event);
                    },
                    _ => {},
                }
            }
        },
        Control::Done(end) => {
            lemma_well_halt(m, end);
        },
    }
}

} // verus!
