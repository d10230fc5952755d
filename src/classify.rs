use vstd::prelude::*;
use vstd::slice::slice_subrange;

use crate::bytes::{COLON, EQUALS, UNDERSCORE, find_byte, find_byte_from, text, text_of, trim, trimmed};
use crate::model::{Arg, ArgView, Type};

verus! {

pub open spec fn is_lower(c: u8) -> bool {
    97u8 <= c && c <= 122u8
}

pub open spec fn is_upper(c: u8) -> bool {
    65u8 <= c && c <= 90u8
}

/// `String`, in bytes.
pub open spec fn string_name() -> Seq<u8> {
    seq![83u8, 116, 114, 105, 110, 103]
}

/// `Number`, in bytes.
pub open spec fn number_name() -> Seq<u8> {
    seq![78u8, 117, 109, 98, 101, 114]
}

/// `Array`, in bytes.
pub open spec fn array_name() -> Seq<u8> {
    seq![65u8, 114, 114, 97, 121]
}

/// `Boolean`, in bytes.
pub open spec fn boolean_name() -> Seq<u8> {
    seq![66u8, 111, 111, 108, 101, 97, 110]
}

/// The type that a one-letter naming prefix (`s`, `n`, `a`, `b`) stands for.
pub open spec fn code_type(c: u8) -> Type {
    if c == 115u8 {
        Type::String
    } else if c == 110u8 {
        Type::Number
    } else if c == 97u8 {
        Type::Array
    } else if c == 98u8 {
        Type::Boolean
    } else {
        Type::Object
    }
}

/// The type that an explicit annotation names; unknown names are `Object`.
pub open spec fn annotated_type(t: Seq<u8>) -> Type {
    if t == string_name() {
        Type::String
    } else if t == number_name() {
        Type::Number
    } else if t == array_name() {
        Type::Array
    } else if t == boolean_name() {
        Type::Boolean
    } else {
        Type::Object
    }
}

/// The type that a name suggests: a lowercase code letter followed by an
/// uppercase letter, the pair optionally preceded by an underscore.
pub open spec fn name_type(v: Seq<u8>) -> Type {
    if v.len() >= 3 && v[0] == UNDERSCORE && is_lower(v[1]) && is_upper(v[2]) {
        code_type(v[1])
    } else if v.len() >= 2 && is_lower(v[0]) && is_upper(v[1]) {
        code_type(v[0])
    } else {
        Type::Object
    }
}

/// The last index below `e` that holds a colon, or -1.
pub open spec fn last_colon(v: Seq<u8>, e: int) -> int
    decreases e,
{
    if e <= 0 {
        -1
    } else if v[e - 1] == COLON {
        e - 1
    } else {
        last_colon(v, e - 1)
    }
}

/// An argument fragment split into name, type and default value. The type
/// annotation is the text after the last colon that comes before the first
/// equals sign; without one the type is read from the whole fragment's name.
pub open spec fn decode_arg(v: Seq<u8>) -> ArgView {
    let e = find_byte(v, 0, EQUALS);
    let c = last_colon(v, e);
    ArgView {
        name: if c >= 0 {
            text(v.subrange(0, c))
        } else {
            text(v.subrange(0, e))
        },
        var_type: if c >= 0 {
            annotated_type(trim(v.subrange(c + 1, e)))
        } else {
            name_type(v)
        },
        value: if e < v.len() {
            text(v.subrange(e + 1, v.len() as int))
        } else {
            Seq::empty()
        },
    }
}

pub fn is_minuscule(c: u8) -> (r: bool)
    ensures
        r == is_lower(c),
{
    c >= 97u8 && c <= 122u8
}

pub fn is_majuscule(c: u8) -> (r: bool)
    ensures
        r == is_upper(c),
{
    c >= 65u8 && c <= 90u8
}

/// The type that a one-letter naming prefix stands for.
pub fn char_type_to_type(c: u8) -> (r: Type)
    ensures
        r == code_type(c),
{
    if c == 115u8 {
        Type::String
    } else if c == 110u8 {
        Type::Number
    } else if c == 97u8 {
        Type::Array
    } else if c == 98u8 {
        Type::Boolean
    } else {
        Type::Object
    }
}

fn same_bytes(a: &[u8], b: &[u8]) -> (r: bool)
    ensures
        r == (a@ == b@),
{
    if a.len() != b.len() {
        return false;
    }
    let mut i: usize = 0;
    while i < a.len()
        invariant
            i <= a@.len(),
            a@.len() == b@.len(),
            forall|k: int| 0 <= k < i ==> a@[k] == b@[k],
        decreases a@.len() - i,
    {
        if a[i] != b[i] {
            return false;
        }
        i = i + 1;
    }
    assert(a@ =~= b@);
    true
}

/// The type that an explicit annotation names, compared exactly.
pub fn string_type_to_type(typ: &[u8]) -> (r: Type)
    ensures
        r == annotated_type(typ@),
{
    let string_bytes: Vec<u8> = vec![83u8, 116, 114, 105, 110, 103];
    let number_bytes: Vec<u8> = vec![78u8, 117, 109, 98, 101, 114];
    let array_bytes: Vec<u8> = vec![65u8, 114, 114, 97, 121];
    let boolean_bytes: Vec<u8> = vec![66u8, 111, 111, 108, 101, 97, 110];
    assert(string_bytes@ == string_name());
    assert(number_bytes@ == number_name());
    assert(array_bytes@ == array_name());
    assert(boolean_bytes@ == boolean_name());
    if same_bytes(typ, string_bytes.as_slice()) {
        Type::String
    } else if same_bytes(typ, number_bytes.as_slice()) {
        Type::Number
    } else if same_bytes(typ, array_bytes.as_slice()) {
        Type::Array
    } else if same_bytes(typ, boolean_bytes.as_slice()) {
        Type::Boolean
    } else {
        Type::Object
    }
}

/// The type that a name suggests by its prefix; `Object` when the name is
/// too short or follows no convention.
pub fn detect_var_type_with_name(var: &[u8]) -> (r: Type)
    ensures
        r == name_type(var@),
{
    if var.len() >= 3 && var[0] == UNDERSCORE && is_minuscule(var[1]) && is_majuscule(var[2]) {
        char_type_to_type(var[1])
    } else if var.len() >= 2 && is_minuscule(var[0]) && is_majuscule(var[1]) {
        char_type_to_type(var[0])
    } else {
        Type::Object
    }
}

/// Splits one argument fragment into its name, its type and its default value.
pub fn string_var_to_arg(var: &[u8]) -> (r: Arg)
    ensures
        r@ == decode_arg(var@),
{
    let value_start = find_byte_from(var, 0, EQUALS);
    proof {
        crate::bytes::lemma_find_byte_bounds(var@, 0, EQUALS);
    }
    let mut k: usize = value_start;
    while k > 0 && var[k - 1] != COLON
        invariant
            k <= value_start <= var@.len(),
            last_colon(var@, k as int) == last_colon(var@, value_start as int),
        decreases k,
    {
        k = k - 1;
    }
    let has_type = k > 0;
    let name: String = if has_type {
        text_of(var, 0, k - 1)
    } else {
        text_of(var, 0, value_start)
    };
    let var_type: Type = if has_type {
        string_type_to_type(trimmed(slice_subrange(var, k, value_start)))
    } else {
        detect_var_type_with_name(var)
    };
    let value: String = if value_start < var.len() {
        text_of(var, value_start + 1, var.len())
    } else {
        String::new()
    };
    Arg { name, var_type, value }
}

} // verus!
