//! Run-time values and the store they live in.
//!
//! A `Value` is a small copyable tag. Scalars carry their payload; texts, lists,
//! objects and bound builtins carry the index of an object on the heap, and a
//! pointer carries the index of a storage cell. Heap objects never change once
//! allocated, so copying the index of a text behaves as copying the text, while
//! two copies of a list index denote the same list. Cells are the only mutable
//! storage: every variable binding and every pointer names a cell.

use vstd::prelude::*;
use vstd::string::*;

verus! {

#[derive(Debug, Clone, Copy, PartialEq, Eq, Structural)]
pub enum Value {
    Unit,
    Int(i64),
    /// The bits of a 64-bit IEEE 754 number.
    Float(u64),
    Bool(bool),
    Char(u8),
    /// Heap index of a text.
    String(usize),
    /// Heap index of a list.
    List(usize),
    /// Heap index of a field table.
    Objekt(usize),
    /// Heap index of a field table that exposes host data.
    Speicherbox(usize),
    /// Index of a storage cell.
    Ptr(usize),
    /// Heap index of a bound builtin.
    BuiltinFunction(usize),
}

/// What interrupts evaluation and travels outwards until something handles it.
#[derive(Debug, Clone, Copy, PartialEq, Eq, Structural)]
pub enum InterruptKind {
    Return(Value),
    Break,
    Continue,
    /// Heap index of the message text.
    Error(usize),
    Exit(i64),
}

#[derive(Debug)]
pub struct Field {
    pub key: String,
    pub value: Value,
}

pub struct FieldView {
    pub key: Seq<char>,
    pub value: Value,
}

impl View for Field {
    type V = FieldView;

    open spec fn view(&self) -> FieldView {
        FieldView { key: self.key@, value: self.value }
    }
}

#[derive(Debug)]
pub enum HeapObject {
    Text(String),
    List(Vec<Value>),
    Fields(Vec<Field>),
    /// A builtin named `name`, bound to the value it was taken from.
    Bound { base: Value, name: String },
}

pub enum HeapObjectView {
    Text(Seq<char>),
    List(Seq<Value>),
    Fields(Seq<FieldView>),
    Bound { base: Value, name: Seq<char> },
}

pub open spec fn fields_view(fields: Seq<Field>) -> Seq<FieldView> {
    fields.map_values(|f: Field| f@)
}

impl View for HeapObject {
    type V = HeapObjectView;

    open spec fn view(&self) -> HeapObjectView {
        match self {
            HeapObject::Text(s) => HeapObjectView::Text(s@),
            HeapObject::List(v) => HeapObjectView::List(v@),
            HeapObject::Fields(f) => HeapObjectView::Fields(fields_view(f@)),
            HeapObject::Bound { base, name } => HeapObjectView::Bound { base: *base, name: name@ },
        }
    }
}

/// Index `i` is the first field of `fields` whose key is `key`.
pub open spec fn is_first_field(fields: Seq<FieldView>, key: Seq<char>, i: int) -> bool {
    &&& 0 <= i < fields.len()
    &&& fields[i].key == key
    &&& forall|j: int| 0 <= j < i ==> fields[j].key != key
}

/// The position of the first field with this key, if there is one.
pub open spec fn field_position(fields: Seq<FieldView>, key: Seq<char>) -> Option<int> {
    if exists|i: int| is_first_field(fields, key, i) {
        Some(choose|i: int| is_first_field(fields, key, i))
    } else {
        None
    }
}

/// The value stored under `key`.
pub open spec fn field_lookup(fields: Seq<FieldView>, key: Seq<char>) -> Option<Value> {
    match field_position(fields, key) {
        Some(i) => Some(fields[i].value),
        None => None,
    }
}

/// `fields` with `key` bound to `value`: an existing field keeps its place, a
/// new one goes to the end.
pub open spec fn field_upsert(fields: Seq<FieldView>, key: Seq<char>, value: Value) -> Seq<
    FieldView,
> {
    match field_position(fields, key) {
        Some(i) => fields.update(i, FieldView { key, value }),
        None => fields.push(FieldView { key, value }),
    }
}

pub proof fn lemma_first_field_unique(fields: Seq<FieldView>, key: Seq<char>, i: int, j: int)
    requires
        is_first_field(fields, key, i),
        is_first_field(fields, key, j),
    ensures
        i == j,
{
    if i < j {
        assert(fields[i].key != key);
    } else if j < i {
        assert(fields[j].key != key);
    }
}

/// Finds the first field with the given key.
pub fn find_field(fields: &Vec<Field>, key: &str) -> (r: Option<usize>)
    ensures
        match r {
            Some(i) => field_position(fields_view(fields@), key@) == Some(i as int),
            None => field_position(fields_view(fields@), key@) is None,
        },
{
    let ghost view = fields_view(fields@);
    let mut i: usize = 0;
    while i < fields.len()
        invariant
            i <= fields.len(),
            view == fields_view(fields@),
            forall|j: int| 0 <= j < i ==> view[j].key != key@,
        decreases fields.len() - i,
    {
        if fields[i].key.as_str().eq(key) {
            proof {
                assert(is_first_field(view, key@, i as int));
                let w = choose|w: int| is_first_field(view, key@, w);
                lemma_first_field_unique(view, key@, i as int, w);
            }
            return Some(i);
        }
        i += 1;
    }
    proof {
        assert forall|w: int| !is_first_field(view, key@, w) by {
            if 0 <= w < view.len() {
                assert(view[w].key != key@);
            }
        }
    }
    None
}

/// Binds `key` to `value`, replacing the value of an existing field.
pub fn upsert_field(fields: &mut Vec<Field>, key: String, value: Value)
    ensures
        fields_view(final(fields)@) == field_upsert(fields_view(old(fields)@), key@, value),
{
    match find_field(fields, key.as_str()) {
        Some(i) => {
            fields[i] = Field { key, value };
            assert(fields_view(fields@) =~= fields_view(old(fields)@).update(
                i as int,
                FieldView { key: key@, value },
            ));
        },
        None => {
            fields.push(Field { key, value });
            assert(fields_view(fields@) =~= fields_view(old(fields)@).push(
                FieldView { key: key@, value },
            ));
        },
    }
}

/// After binding `key`, a lookup of `key` finds the new value and a lookup of
/// any other key finds what it found before.
pub proof fn law_upsert_lookup(
    fields: Seq<FieldView>,
    key: Seq<char>,
    value: Value,
    other: Seq<char>,
)
    ensures
        field_lookup(field_upsert(fields, key, value), other) == if other == key {
            Some(value)
        } else {
            field_lookup(fields, other)
        },
{
    let after = field_upsert(fields, key, value);
    let fresh = FieldView { key, value };
    // Where the key sits after the update.
    let at: int = match field_position(fields, key) {
        Some(i) => i,
        None => fields.len() as int,
    };
    assert(after[at] == fresh);
    assert forall|j: int| 0 <= j < after.len() && j != at implies after[j] == fields[j] by {}
    if field_position(fields, key) is None {
        assert forall|j: int| 0 <= j < fields.len() implies fields[j].key != key by {
            if fields[j].key == key {
                lemma_has_first_field(fields, key, j);
            }
        }
    }
    assert(is_first_field(after, key, at));
    if other == key {
        let w = choose|w: int| is_first_field(after, key, w);
        lemma_first_field_unique(after, key, at, w);
    } else {
        match field_position(fields, other) {
            Some(i) => {
                assert(is_first_field(fields, other, i));
                assert(is_first_field(after, other, i));
                let w = choose|w: int| is_first_field(after, other, w);
                lemma_first_field_unique(after, other, i, w);
            },
            None => {
                assert forall|w: int| !is_first_field(after, other, w) by {
                    if is_first_field(after, other, w) {
                        assert(w != at);
                        lemma_has_first_field(fields, other, w);
                    }
                }
            },
        }
    }
}

/// A key that occurs somewhere has a first occurrence.
pub proof fn lemma_has_first_field(fields: Seq<FieldView>, key: Seq<char>, at: int)
    requires
        0 <= at < fields.len(),
        fields[at].key == key,
    ensures
        exists|i: int| is_first_field(fields, key, i),
    decreases at,
{
    if forall|j: int| 0 <= j < at ==> fields[j].key != key {
        assert(is_first_field(fields, key, at));
    } else {
        let j = choose|j: int| 0 <= j < at && fields[j].key == key;
        lemma_has_first_field(fields, key, j);
    }
}

/// The mutable cells and the immutable heap of one run.
pub struct Store {
    pub cells: Vec<Value>,
    pub heap: Vec<HeapObject>,
}

pub struct Memory {
    pub cells: Seq<Value>,
    pub heap: Seq<HeapObjectView>,
}

impl View for Store {
    type V = Memory;

    open spec fn view(&self) -> Memory {
        Memory { cells: self.cells@, heap: self.heap@.map_values(|o: HeapObject| o@) }
    }
}

impl Memory {
    pub open spec fn empty() -> Memory {
        Memory { cells: Seq::empty(), heap: Seq::empty() }
    }

    /// The store is one that a machine can hold: its cells and its heap
    /// objects can be counted in a machine word.
    pub open spec fn fits(self) -> bool {
        self.cells.len() <= usize::MAX && self.heap.len() <= usize::MAX
    }

    /// The content of a cell.
    pub open spec fn read(self, cell: usize) -> Option<Value> {
        if cell < self.cells.len() {
            Some(self.cells[cell as int])
        } else {
            None
        }
    }

    /// The store after `value` replaced the content of `cell`.
    pub open spec fn write(self, cell: usize, value: Value) -> Memory {
        if cell < self.cells.len() {
            Memory { cells: self.cells.update(cell as int, value), ..self }
        } else {
            self
        }
    }

    /// The store with one more cell, which holds `value`.
    pub open spec fn with_cell(self, value: Value) -> Memory {
        Memory { cells: self.cells.push(value), ..self }
    }

    /// The store with one more heap object.
    pub open spec fn with_object(self, object: HeapObjectView) -> Memory {
        Memory { heap: self.heap.push(object), ..self }
    }

    pub open spec fn with_text(self, text: Seq<char>) -> Memory {
        self.with_object(HeapObjectView::Text(text))
    }

    pub open spec fn object(self, id: usize) -> Option<HeapObjectView> {
        if id < self.heap.len() {
            Some(self.heap[id as int])
        } else {
            None
        }
    }

    /// The characters of a text value.
    pub open spec fn text(self, value: Value) -> Option<Seq<char>> {
        match value {
            Value::String(id) => match self.object(id) {
                Some(HeapObjectView::Text(s)) => Some(s),
                _ => None,
            },
            _ => None,
        }
    }

    /// The elements of a list value.
    pub open spec fn list(self, value: Value) -> Option<Seq<Value>> {
        match value {
            Value::List(id) => match self.object(id) {
                Some(HeapObjectView::List(items)) => Some(items),
                _ => None,
            },
            _ => None,
        }
    }

    /// The fields of an object or of a box of host data.
    pub open spec fn fields(self, value: Value) -> Option<Seq<FieldView>> {
        match value {
            Value::Objekt(id) | Value::Speicherbox(id) => match self.object(id) {
                Some(HeapObjectView::Fields(fields)) => Some(fields),
                _ => None,
            },
            _ => None,
        }
    }

    /// The base and the name of a bound builtin.
    pub open spec fn bound(self, value: Value) -> Option<(Value, Seq<char>)> {
        match value {
            Value::BuiltinFunction(id) => match self.object(id) {
                Some(HeapObjectView::Bound { base, name }) => Some((base, name)),
                _ => None,
            },
            _ => None,
        }
    }
}

impl Store {
    pub fn new() -> (store: Store)
        ensures
            store@ == Memory::empty(),
    {
        let store = Store { cells: Vec::new(), heap: Vec::new() };
        assert(store@.heap =~= Seq::empty());
        store
    }

    /// Creates a cell that holds `value` and returns its index.
    pub fn new_cell(&mut self, value: Value) -> (cell: usize)
        ensures
            cell == old(self)@.cells.len(),
            final(self)@ == old(self)@.with_cell(value),
    {
        let cell = self.cells.len();
        self.cells.push(value);
        cell
    }

    pub fn read(&self, cell: usize) -> (r: Option<Value>)
        ensures
            r == self@.read(cell),
    {
        if cell < self.cells.len() {
            Some(self.cells[cell])
        } else {
            None
        }
    }

    /// Replaces the content of `cell`. Returns whether the cell exists.
    pub fn write(&mut self, cell: usize, value: Value) -> (done: bool)
        ensures
            done == (cell < old(self)@.cells.len()),
            final(self)@ == old(self)@.write(cell, value),
    {
        if cell < self.cells.len() {
            self.cells[cell] = value;
            assert(self@.heap == old(self)@.heap);
            true
        } else {
            false
        }
    }

    /// Puts an object on the heap and returns its index.
    pub fn allocate(&mut self, object: HeapObject) -> (id: usize)
        ensures
            id == old(self)@.heap.len(),
            final(self)@ == old(self)@.with_object(object@),
    {
        let id = self.heap.len();
        self.heap.push(object);
        assert(self@.heap =~= old(self)@.heap.push(object@));
        id
    }

    /// Puts a text on the heap and returns the value that denotes it.
    pub fn new_text(&mut self, text: String) -> (value: Value)
        ensures
            value == Value::String(old(self)@.heap.len() as usize),
            final(self)@ == old(self)@.with_text(text@),
    {
        Value::String(self.allocate(HeapObject::Text(text)))
    }

    pub fn text(&self, value: Value) -> (r: Option<&String>)
        ensures
            match r {
                Some(s) => self@.text(value) == Some(s@),
                None => self@.text(value) is None,
            },
    {
        match value {
            Value::String(id) => {
                if id < self.heap.len() {
                    match &self.heap[id] {
                        HeapObject::Text(s) => Some(s),
                        _ => None,
                    }
                } else {
                    None
                }
            },
            _ => None,
        }
    }

    pub fn list(&self, value: Value) -> (r: Option<&Vec<Value>>)
        ensures
            match r {
                Some(items) => self@.list(value) == Some(items@),
                None => self@.list(value) is None,
            },
    {
        match value {
            Value::List(id) => {
                if id < self.heap.len() {
                    match &self.heap[id] {
                        HeapObject::List(items) => Some(items),
                        _ => None,
                    }
                } else {
                    None
                }
            },
            _ => None,
        }
    }

    pub fn fields(&self, value: Value) -> (r: Option<&Vec<Field>>)
        ensures
            match r {
                Some(fields) => self@.fields(value) == Some(fields_view(fields@)),
                None => self@.fields(value) is None,
            },
    {
        match value {
            Value::Objekt(id) | Value::Speicherbox(id) => {
                if id < self.heap.len() {
                    match &self.heap[id] {
                        HeapObject::Fields(fields) => Some(fields),
                        _ => None,
                    }
                } else {
                    None
                }
            },
            _ => None,
        }
    }

    pub fn bound(&self, value: Value) -> (r: Option<(Value, &String)>)
        ensures
            match r {
                Some((base, name)) => self@.bound(value) == Some((base, name@)),
                None => self@.bound(value) is None,
            },
    {
        match value {
            Value::BuiltinFunction(id) => {
                if id < self.heap.len() {
                    match &self.heap[id] {
                        HeapObject::Bound { base, name } => Some((*base, name)),
                        _ => None,
                    }
                } else {
                    None
                }
            },
            _ => None,
        }
    }
}

} // verus!
