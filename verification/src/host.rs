//! What passes between the interpreter and its host.
//!
//! The interpreter never touches the outside world. Where a program needs
//! output, a delay, floating-point arithmetic, a codec or the network, a step
//! ends with an `Action` that names the work. The host performs it and starts
//! the next step with the `Event` that answers it.

use vstd::prelude::*;
use crate::tree::InfixOp;

verus! {

/// A state that only a faulty tree or a faulty host can bring about. The
/// interpreter stops on it and leaves it to the host to fail loudly.
#[derive(Debug, Clone, Copy, PartialEq, Eq, Structural)]
pub enum Defect {
    /// A name that no frame binds.
    UnresolvedName,
    /// A call of a function that the program does not define.
    UnknownFunction,
    /// An operator, cast or builtin met values of types it is not defined on.
    Operands,
    /// A declaration outside any frame, or a frame left that was not entered.
    NoScope,
    /// A value that names a cell or heap object which does not exist.
    Dangling,
    /// `break` or `continue` left a function body.
    StrayInterrupt,
    /// The address of something other than a variable was taken.
    NotAddressable,
    /// A global whose initializer is not a constant.
    GlobalNotConstant,
    /// The first entry phase gave something other than a text.
    PhaseResult,
    /// The host answered with an event that does not fit the action.
    Protocol,
    /// The machine was asked to go on without a continuation.
    Stuck,
    /// The system's source of randomness failed.
    NoEntropy,
}

/// Floating-point work for the host. Numbers travel as bit patterns.
#[derive(Debug, Clone, Copy, PartialEq, Eq, Structural)]
pub enum FloatRequest {
    /// An arithmetic operator, answered with a float, or a comparison,
    /// answered with a boolean. Of a division or a remainder the divisor is
    /// not zero.
    Infix(InfixOp, u64, u64),
    /// The negated number.
    Negate(u64),
    /// The float nearest to an integer.
    FromInt(i64),
    /// The integer part, saturating at the bounds of the integer type; zero
    /// for a value that is not a number.
    ToInt(u64),
    /// Whether the number differs from zero.
    ToBool(u64),
}

/// A self-contained copy of a value, as the host's collaborators take and give
/// it. A pointer or a bound builtin is a mere marker.
#[derive(Debug)]
pub enum Data {
    Unit,
    Int(i64),
    Float(u64),
    Bool(bool),
    Char(u8),
    Text(String),
    List(Vec<Data>),
    Objekt(Vec<Entry>),
    Speicherbox(Vec<Entry>),
    Ptr,
    BuiltinFunction,
}

#[derive(Debug)]
pub struct Entry {
    pub key: String,
    pub value: Data,
}

pub enum DataView {
    Unit,
    Int(i64),
    Float(u64),
    Bool(bool),
    Char(u8),
    Text(Seq<char>),
    List(Seq<DataView>),
    Objekt(Seq<EntryView>),
    Speicherbox(Seq<EntryView>),
    Ptr,
    BuiltinFunction,
}

pub struct EntryView {
    pub key: Seq<char>,
    pub value: DataView,
}

/// The view of a datum: texts become sequences of characters, lists and field
/// tables become sequences of views.
pub open spec fn data_view(data: &Data) -> DataView
    decreases data,
{
    match data {
        Data::Unit => DataView::Unit,
        Data::Int(i) => DataView::Int(*i),
        Data::Float(bits) => DataView::Float(*bits),
        Data::Bool(b) => DataView::Bool(*b),
        Data::Char(c) => DataView::Char(*c),
        Data::Text(s) => DataView::Text(s@),
        Data::List(items) => DataView::List(
            Seq::new(
                items@.len(),
                |i: int|
                    if 0 <= i < items@.len() {
                        data_view(&items@[i])
                    } else {
                        DataView::Unit
                    },
            ),
        ),
        Data::Objekt(entries) => DataView::Objekt(
            Seq::new(
                entries@.len(),
                |i: int|
                    if 0 <= i < entries@.len() {
                        EntryView { key: entries@[i].key@, value: data_view(&entries@[i].value) }
                    } else {
                        EntryView { key: Seq::empty(), value: DataView::Unit }
                    },
            ),
        ),
        Data::Speicherbox(entries) => DataView::Speicherbox(
            Seq::new(
                entries@.len(),
                |i: int|
                    if 0 <= i < entries@.len() {
                        EntryView { key: entries@[i].key@, value: data_view(&entries@[i].value) }
                    } else {
                        EntryView { key: Seq::empty(), value: DataView::Unit }
                    },
            ),
        ),
        Data::Ptr => DataView::Ptr,
        Data::BuiltinFunction => DataView::BuiltinFunction,
    }
}

impl View for Data {
    type V = DataView;

    open spec fn view(&self) -> DataView {
        data_view(self)
    }
}

impl View for Entry {
    type V = EntryView;

    open spec fn view(&self) -> EntryView {
        EntryView { key: self.key@, value: self.value@ }
    }
}

/// The views of a list of data, one by one.
pub open spec fn data_views(items: Seq<Data>) -> Seq<DataView> {
    Seq::new(items.len(), |i: int| items[i]@)
}

/// The views of a list of entries, one by one.
pub open spec fn entry_views(entries: Seq<Entry>) -> Seq<EntryView> {
    Seq::new(entries.len(), |i: int| entries[i]@)
}

/// A list's view holds the views of its items.
pub proof fn lemma_list_view(items: Vec<Data>)
    ensures
        Data::List(items)@ == DataView::List(data_views(items@)),
{
    reveal_with_fuel(data_view, 2);
    assert(Data::List(items)@->List_0 =~= data_views(items@));
}

/// An object's view holds the views of its entries.
pub proof fn lemma_entries_view(entries: Vec<Entry>)
    ensures
        Data::Objekt(entries)@ == DataView::Objekt(entry_views(entries@)),
        Data::Speicherbox(entries)@ == DataView::Speicherbox(entry_views(entries@)),
{
    reveal_with_fuel(data_view, 2);
    assert(Data::Objekt(entries)@->Objekt_0 =~= entry_views(entries@));
    assert(Data::Speicherbox(entries)@->Speicherbox_0 =~= entry_views(entries@));
}

/// A part of a line of output: text as it stands, or a float that the host
/// writes in its shortest decimal form.
#[derive(Debug)]
pub enum Piece {
    Text(String),
    Float(u64),
}

pub enum PieceView {
    Text(Seq<char>),
    Float(u64),
}

impl View for Piece {
    type V = PieceView;

    open spec fn view(&self) -> PieceView {
        match self {
            Piece::Text(s) => PieceView::Text(s@),
            Piece::Float(bits) => PieceView::Float(*bits),
        }
    }
}

pub open spec fn piece_views(pieces: Seq<Piece>) -> Seq<PieceView> {
    pieces.map_values(|p: Piece| p@)
}

/// A header of an HTTP request.
#[derive(Debug)]
pub struct Header {
    pub key: String,
    pub value: String,
}

pub struct HeaderView {
    pub key: Seq<char>,
    pub value: Seq<char>,
}

impl View for Header {
    type V = HeaderView;

    open spec fn view(&self) -> HeaderView {
        HeaderView { key: self.key@, value: self.value@ }
    }
}

pub open spec fn header_views(headers: Seq<Header>) -> Seq<HeaderView> {
    headers.map_values(|h: Header| h@)
}

/// How a run ended.
#[derive(Debug)]
pub enum Outcome {
    /// The run ended in order, with this status code.
    Exit(i64),
    /// The run was aborted, with this message for the user.
    Error(String),
    Defect(Defect),
}

pub enum OutcomeView {
    Exit(i64),
    Error(Seq<char>),
    Defect(Defect),
}

impl View for Outcome {
    type V = OutcomeView;

    open spec fn view(&self) -> OutcomeView {
        match self {
            Outcome::Exit(code) => OutcomeView::Exit(*code),
            Outcome::Error(message) => OutcomeView::Error(message@),
            Outcome::Defect(defect) => OutcomeView::Defect(*defect),
        }
    }
}

/// What the host has to do before the next step.
#[derive(Debug)]
pub enum Action {
    /// Nothing: take the next step.
    Continue,
    /// Write the pieces to the output, in order.
    Write(Vec<Piece>),
    /// Wait this many milliseconds.
    Pause(u64),
    /// Sleep for the number of seconds that these bits of a float give.
    Sleep(u64),
    /// Compute with floats.
    Float(FloatRequest),
    /// Read a float from a text.
    ParseFloat(String),
    /// Read a value from structured text.
    Deserialize(String),
    /// Write a value as structured text.
    Serialize(Data),
    /// Fill the placeholders of a template.
    Format { template: String, args: Vec<Data> },
    /// Perform an HTTP request.
    Http { method: String, url: String, body: String, headers: Vec<Header> },
    /// Call the builtin `name` on the value it is bound to.
    Invoke { name: String, base: Data, args: Vec<Data> },
    /// The run is over.
    Finish(Outcome),
}

pub enum ActionView {
    Continue,
    Write(Seq<PieceView>),
    Pause(u64),
    Sleep(u64),
    Float(FloatRequest),
    ParseFloat(Seq<char>),
    Deserialize(Seq<char>),
    Serialize(DataView),
    Format { template: Seq<char>, args: Seq<DataView> },
    Http { method: Seq<char>, url: Seq<char>, body: Seq<char>, headers: Seq<HeaderView> },
    Invoke { name: Seq<char>, base: DataView, args: Seq<DataView> },
    Finish(OutcomeView),
}

impl View for Action {
    type V = ActionView;

    open spec fn view(&self) -> ActionView {
        match self {
            Action::Continue => ActionView::Continue,
            Action::Write(pieces) => ActionView::Write(piece_views(pieces@)),
            Action::Pause(millis) => ActionView::Pause(*millis),
            Action::Sleep(seconds) => ActionView::Sleep(*seconds),
            Action::Float(request) => ActionView::Float(*request),
            Action::ParseFloat(text) => ActionView::ParseFloat(text@),
            Action::Deserialize(text) => ActionView::Deserialize(text@),
            Action::Serialize(data) => ActionView::Serialize(data@),
            Action::Format { template, args } => ActionView::Format {
                template: template@,
                args: data_views(args@),
            },
            Action::Http { method, url, body, headers } => ActionView::Http {
                method: method@,
                url: url@,
                body: body@,
                headers: header_views(headers@),
            },
            Action::Invoke { name, base, args } => ActionView::Invoke {
                name: name@,
                base: base@,
                args: data_views(args@),
            },
            Action::Finish(outcome) => ActionView::Finish(outcome@),
        }
    }
}

/// The host's answer to the action of the step before.
#[derive(Debug)]
pub enum Event {
    /// Nothing to report: the action asked for no answer, or it was done.
    Resume,
    Float(u64),
    Int(i64),
    Bool(bool),
    Text(String),
    Data(Data),
    /// The answer to an HTTP request.
    Http { status: u16, body: String },
    /// The work failed; the text says why.
    Failed(String),
}

pub enum EventView {
    Resume,
    Float(u64),
    Int(i64),
    Bool(bool),
    Text(Seq<char>),
    Data(DataView),
    Http { status: u16, body: Seq<char> },
    Failed(Seq<char>),
}

impl View for Event {
    type V = EventView;

    open spec fn view(&self) -> EventView {
        match self {
            Event::Resume => EventView::Resume,
            Event::Float(bits) => EventView::Float(*bits),
            Event::Int(i) => EventView::Int(*i),
            Event::Bool(b) => EventView::Bool(*b),
            Event::Text(s) => EventView::Text(s@),
            Event::Data(d) => EventView::Data(d@),
            Event::Http { status, body } => EventView::Http { status: *status, body: body@ },
            Event::Failed(reason) => EventView::Failed(reason@),
        }
    }
}

} // verus!
