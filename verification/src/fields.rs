//! How an optional text field of an item is shown and edited in a form: a plain text
//! box, or a check box that turns the field on and off beside a text box.
use vstd::prelude::*;

verus! {

/// The text a text box shows for an optional field: its text, or nothing.
pub fn option_text_shown(field: &Option<String>) -> (r: String)
    ensures
        r@ == match field {
            Some(t) => t@,
            None => Seq::<char>::empty(),
        },
{
    match field {
        Some(t) => t.clone(),
        None => String::new(),
    }
}

/// The optional field that an entry in a text box sets: none when the entry is empty.
pub fn option_text_entered(entry: String) -> (r: Option<String>)
    ensures
        r == if entry@.len() == 0 {
            None
        } else {
            Some(entry)
        },
{
    if entry.as_str().is_empty() {
        None
    } else {
        Some(entry)
    }
}

/// Whether the check box of an optional field is ticked: the field is set.
pub fn option_text_ticked(field: &Option<String>) -> (r: bool)
    ensures
        r == field is Some,
{
    field.is_some()
}

/// The optional field after its check box is ticked (set to the placeholder
/// `nuttin`) or cleared (unset).
pub fn option_text_after_tick(ticked: bool) -> (r: Option<String>)
    ensures
        match r {
            Some(t) => ticked && t@ == "nuttin"@,
            None => !ticked,
        },
{
    if ticked {
        Some(String::from_str("nuttin"))
    } else {
        None
    }
}

/// The text the text box beside a check box shows: the field's text, or the
/// placeholder `nutin` when the field is unset.
pub fn option_text_or_placeholder(field: &Option<String>) -> (r: String)
    ensures
        r@ == match field {
            Some(t) => t@,
            None => "nutin"@,
        },
{
    match field {
        Some(t) => t.clone(),
        None => String::from_str("nutin"),
    }
}

/// An entry in the text box beside a check box: it replaces the field's text when the
/// field is set, and is ignored when it is not.
pub fn option_text_replaced(field: &mut Option<String>, entry: &str)
    ensures
        match *old(field) {
            Some(_) => *final(field) matches Some(t) && t@ == entry@,
            None => *final(field) is None,
        },
{
    match field {
        Some(t) => {
            *t = String::from_str(entry);
        },
        None => {},
    }
}

} // verus!
