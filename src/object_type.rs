//! The kinds of property a deal can be about.
use vstd::prelude::*;
use crate::text::same_text;

verus! {

/// The canonical code that the inventory's property type maps to: the
/// three known codes stand for themselves, anything else for no type.
pub open spec fn canonical_type(code: Seq<char>) -> Seq<char> {
    if code == "property"@ || code == "pantry"@ || code == "parking"@ {
        code
    } else {
        ""@
    }
}

/// The Russian label of a canonical code.
pub open spec fn ru_label(code: Seq<char>) -> Seq<char> {
    if code == "property"@ {
        "Квартира"@
    } else if code == "pantry"@ {
        "Кладовка"@
    } else if code == "parking"@ {
        "Машиноместо"@
    } else {
        ""@
    }
}

/// The canonical code of a category as the lookup dialogue names it.
pub open spec fn en_code(category: Seq<char>) -> Seq<char> {
    if category == "Квартиры"@ {
        "property"@
    } else if category == "Кладовки"@ {
        "pantry"@
    } else if category == "Машиноместа"@ {
        "parking"@
    } else {
        ""@
    }
}

/// Maps the inventory's property type into the canonical code.
pub fn canonical_object_type(code: &str) -> (r: String)
    ensures
        r@ == canonical_type(code@),
{
    if same_text(code, "property") || same_text(code, "pantry") || same_text(code, "parking") {
        String::from_str(code)
    } else {
        String::from_str("")
    }
}

pub fn get_ru_object_type(profitbase_type: &str) -> (r: &'static str)
    ensures
        r@ == ru_label(profitbase_type@),
{
    if same_text(profitbase_type, "property") {
        "Квартира"
    } else if same_text(profitbase_type, "pantry") {
        "Кладовка"
    } else if same_text(profitbase_type, "parking") {
        "Машиноместо"
    } else {
        ""
    }
}

pub fn get_en_object_type(object_type: &str) -> (r: &'static str)
    ensures
        r@ == en_code(object_type@),
{
    if same_text(object_type, "Квартиры") {
        "property"
    } else if same_text(object_type, "Кладовки") {
        "pantry"
    } else if same_text(object_type, "Машиноместа") {
        "parking"
    } else {
        ""
    }
}

} // verus!
