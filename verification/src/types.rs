//! The names of types, and which values a declared type takes.

use vstd::prelude::*;
use vstd::string::*;
use crate::tree::Type;
use crate::value::Value;

verus! {

/// The name of the type of a value.
pub open spec fn value_type_text(value: Value) -> Seq<char> {
    match value {
        Value::Unit => "Nichts"@,
        Value::Int(_) => "Zahl"@,
        Value::Float(_) => "Fließkommazahl"@,
        Value::Bool(_) => "Wahrheitswert"@,
        Value::Char(_) => "Zeichen"@,
        Value::String(_) => "Zeichenkette"@,
        Value::List(_) => "Liste"@,
        Value::Objekt(_) => "Objekt"@,
        Value::Speicherbox(_) => "Speicherbox"@,
        Value::Ptr(_) => "Zeiger"@,
        Value::BuiltinFunction(_) => "Funktion"@,
    }
}

/// A name behind `levels` times the words for a pointer.
pub open spec fn pointer_text(levels: nat, name: Seq<char>) -> Seq<char>
    decreases levels,
{
    if levels == 0 {
        name
    } else {
        "Zeiger auf "@ + pointer_text((levels - 1) as nat, name)
    }
}

/// The name of a declared type.
pub open spec fn type_text(t: Type) -> Seq<char>
    decreases t,
{
    match t {
        Type::Int(n) => pointer_text(n as nat, "Zahl"@),
        Type::Float(n) => pointer_text(n as nat, "Fließkommazahl"@),
        Type::Bool(n) => pointer_text(n as nat, "Wahrheitswert"@),
        Type::Char(n) => pointer_text(n as nat, "Zeichen"@),
        Type::String(n) => pointer_text(n as nat, "Zeichenkette"@),
        Type::List(inner, n) => pointer_text(n as nat, "Liste von "@ + type_text(*inner)),
        Type::Objekt(n) => pointer_text(n as nat, "Objekt"@),
        Type::Speicherbox(n) => pointer_text(n as nat, "Speicherbox"@),
        Type::Any => "Unbekannt"@,
        Type::Nichts => "Nichts"@,
        Type::Other(name) => name@,
    }
}

/// The number of pointer levels of a declared type.
pub open spec fn pointer_levels(t: Type) -> nat {
    match t {
        Type::Int(n) => n as nat,
        Type::Float(n) => n as nat,
        Type::Bool(n) => n as nat,
        Type::Char(n) => n as nat,
        Type::String(n) => n as nat,
        Type::List(_, n) => n as nat,
        Type::Objekt(n) => n as nat,
        Type::Speicherbox(n) => n as nat,
        Type::Any => 0,
        Type::Nichts => 0,
        Type::Other(_) => 0,
    }
}

/// Whether a value is of a declared type, as far as its tag tells. Every value
/// is of the type `Any`.
pub open spec fn has_type(value: Value, t: Type) -> bool {
    if t is Any {
        true
    } else if pointer_levels(t) > 0 {
        value is Ptr
    } else {
        match t {
            Type::Int(_) => value is Int,
            Type::Float(_) => value is Float,
            Type::Bool(_) => value is Bool,
            Type::Char(_) => value is Char,
            Type::String(_) => value is String,
            Type::List(_, _) => value is List,
            Type::Objekt(_) => value is Objekt,
            Type::Speicherbox(_) => value is Speicherbox,
            Type::Any => true,
            Type::Nichts => value is Unit,
            Type::Other(_) => false,
        }
    }
}

pub fn name_of_value(value: Value) -> (name: String)
    ensures
        name@ == value_type_text(value),
{
    match value {
        Value::Unit => "Nichts".to_owned(),
        Value::Int(_) => "Zahl".to_owned(),
        Value::Float(_) => "Fließkommazahl".to_owned(),
        Value::Bool(_) => "Wahrheitswert".to_owned(),
        Value::Char(_) => "Zeichen".to_owned(),
        Value::String(_) => "Zeichenkette".to_owned(),
        Value::List(_) => "Liste".to_owned(),
        Value::Objekt(_) => "Objekt".to_owned(),
        Value::Speicherbox(_) => "Speicherbox".to_owned(),
        Value::Ptr(_) => "Zeiger".to_owned(),
        Value::BuiltinFunction(_) => "Funktion".to_owned(),
    }
}

fn pointer_name(levels: usize, name: String) -> (r: String)
    ensures
        r@ == pointer_text(levels as nat, name@),
    decreases levels,
{
    if levels == 0 {
        name
    } else {
        let inner = pointer_name(levels - 1, name);
        "Zeiger auf ".to_owned().concat(inner.as_str())
    }
}

pub fn name_of_type(t: &Type) -> (name: String)
    ensures
        name@ == type_text(*t),
    decreases t,
{
    match t {
        Type::Int(n) => pointer_name(*n, "Zahl".to_owned()),
        Type::Float(n) => pointer_name(*n, "Fließkommazahl".to_owned()),
        Type::Bool(n) => pointer_name(*n, "Wahrheitswert".to_owned()),
        Type::Char(n) => pointer_name(*n, "Zeichen".to_owned()),
        Type::String(n) => pointer_name(*n, "Zeichenkette".to_owned()),
        Type::List(inner, n) => {
            let item = name_of_type(&**inner);
            pointer_name(*n, "Liste von ".to_owned().concat(item.as_str()))
        },
        Type::Objekt(n) => pointer_name(*n, "Objekt".to_owned()),
        Type::Speicherbox(n) => pointer_name(*n, "Speicherbox".to_owned()),
        Type::Any => "Unbekannt".to_owned(),
        Type::Nichts => "Nichts".to_owned(),
        Type::Other(name) => name.clone(),
    }
}

fn levels_of(t: &Type) -> (n: usize)
    ensures
        n == pointer_levels(*t),
{
    match t {
        Type::Int(n) => *n,
        Type::Float(n) => *n,
        Type::Bool(n) => *n,
        Type::Char(n) => *n,
        Type::String(n) => *n,
        Type::List(_, n) => *n,
        Type::Objekt(n) => *n,
        Type::Speicherbox(n) => *n,
        Type::Any => 0,
        Type::Nichts => 0,
        Type::Other(_) => 0,
    }
}

/// Whether a value is of a declared type.
pub fn is_of_type(value: Value, t: &Type) -> (r: bool)
    ensures
        r == has_type(value, *t),
{
    if let Type::Any = t {
        return true;
    }
    if levels_of(t) > 0 {
        return matches!(value, Value::Ptr(_));
    }
    match t {
        Type::Int(_) => matches!(value, Value::Int(_)),
        Type::Float(_) => matches!(value, Value::Float(_)),
        Type::Bool(_) => matches!(value, Value::Bool(_)),
        Type::Char(_) => matches!(value, Value::Char(_)),
        Type::String(_) => matches!(value, Value::String(_)),
        Type::List(_, _) => matches!(value, Value::List(_)),
        Type::Objekt(_) => matches!(value, Value::Objekt(_)),
        Type::Speicherbox(_) => matches!(value, Value::Speicherbox(_)),
        Type::Any => true,
        Type::Nichts => matches!(value, Value::Unit),
        Type::Other(_) => false,
    }
}

} // verus!
