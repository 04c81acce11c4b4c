//! The texts of run-time errors.

use vstd::prelude::*;
use vstd::string::*;
use crate::ops::Fault;
use crate::text::{decimal, int_to_text};

verus! {

/// The message of an operator's failure.
pub open spec fn fault_text(fault: Fault) -> Seq<char> {
    match fault {
        Fault::DivisionByZero => "Division durch Null"@,
        Fault::RemainderByZero => "Rest einer Division durch Null"@,
        Fault::ShiftLeft(amount) => "Ungültige Verschiebung nach links um `"@ + decimal(
            amount as int,
        ) + "`"@,
        Fault::ShiftRight(amount) => "Ungültige Verschiebung nach rechts um `"@ + decimal(
            amount as int,
        ) + "`"@,
    }
}

/// The message for an index that no list has an item at.
pub open spec fn index_text(index: i64) -> Seq<char> {
    "Illegale Indizierung mittels Index: `"@ + decimal(index as int) + "`"@
}

/// The message for a cast of a value to a type that is not its own. It names
/// the type of the value and the type asked for.
pub open spec fn cast_text(actual: Seq<char>, requested: Seq<char>) -> Seq<char> {
    "Invalide Typumwandlung während der Laufzeit: Der Datentyp `"@ + actual
        + "` kann nicht in `"@ + requested + "` umgewandelt werden."@
}

/// The message for a text that does not read as a number. It holds the text
/// and the reason.
pub open spec fn parse_text(text: Seq<char>, reason: Seq<char>) -> Seq<char> {
    "Zeichenkettenverarbeitungsfehler in Zeichenkette `"@ + text + "`: "@ + reason
}

/// The message with which a run ends whose first entry phase gave an empty
/// text.
pub open spec fn rejection_text() -> Seq<char> {
    "Ihre Bewerbung hat das HPI leider nicht überzeugt.\n Ist Ihr Bewerbungsschreiben vielleicht leer?"@
}

/// What the builtin `Geld` returns.
pub open spec fn money_text() -> Seq<char> {
    "Nun sind Sie reich, sie wurden gesponst!"@
}

pub fn fault_message(fault: Fault) -> (message: String)
    ensures
        message@ == fault_text(fault),
{
    match fault {
        Fault::DivisionByZero => "Division durch Null".to_owned(),
        Fault::RemainderByZero => "Rest einer Division durch Null".to_owned(),
        Fault::ShiftLeft(amount) => {
            let number = int_to_text(amount);
            let mut message = "Ungültige Verschiebung nach links um `".to_owned();
            message.append(number.as_str());
            message.append("`");
            message
        },
        Fault::ShiftRight(amount) => {
            let number = int_to_text(amount);
            let mut message = "Ungültige Verschiebung nach rechts um `".to_owned();
            message.append(number.as_str());
            message.append("`");
            message
        },
    }
}

pub fn index_message(index: i64) -> (message: String)
    ensures
        message@ == index_text(index),
{
    let number = int_to_text(index);
    let mut message = "Illegale Indizierung mittels Index: `".to_owned();
    message.append(number.as_str());
    message.append("`");
    message
}

pub fn cast_message(actual: &str, requested: &str) -> (message: String)
    ensures
        message@ == cast_text(actual@, requested@),
{
    let mut message = "Invalide Typumwandlung während der Laufzeit: Der Datentyp `".to_owned();
    message.append(actual);
    message.append("` kann nicht in `");
    message.append(requested);
    message.append("` umgewandelt werden.");
    message
}

pub fn parse_message(text: &str, reason: &str) -> (message: String)
    ensures
        message@ == parse_text(text@, reason@),
{
    let mut message = "Zeichenkettenverarbeitungsfehler in Zeichenkette `".to_owned();
    message.append(text);
    message.append("`: ");
    message.append(reason);
    message
}

pub fn rejection_message() -> (message: String)
    ensures
        message@ == rejection_text(),
{
    "Ihre Bewerbung hat das HPI leider nicht überzeugt.\n Ist Ihr Bewerbungsschreiben vielleicht leer?".to_owned()
}

pub fn money_message() -> (message: String)
    ensures
        message@ == money_text(),
{
    "Nun sind Sie reich, sie wurden gesponst!".to_owned()
}

} // verus!
