//! Pieces of the `{:?}` rendering that diagnostic strings are built from:
//! quoted strings, numbers, lists, tuples and structs.
use vstd::prelude::*;

use crate::text::{decimal, push_decimal, push_str, strs_view};

verus! {

/// A string as `{:?}` quotes and escapes it.
pub uninterp spec fn debug_quoted(s: Seq<char>) -> Seq<char>;

/// Formats a string slice with `{:?}`; the result is named `debug_quoted`
/// of its characters. The escaping rules themselves are not stated.
#[verifier::external_body]
pub fn debug_str(s: &str) -> (r: String)
    ensures
        r@ == debug_quoted(s@),
{
    format!("{:?}", s)
}

/// Items separated by `", "`.
pub open spec fn joined(items: Seq<Seq<char>>) -> Seq<char>
    decreases items.len(),
{
    if items.len() == 0 {
        Seq::empty()
    } else if items.len() == 1 {
        items[0]
    } else {
        joined(items.drop_last()) + ", "@ + items.last()
    }
}

/// `[a, b]`.
pub open spec fn debug_list(items: Seq<Seq<char>>) -> Seq<char> {
    "["@ + joined(items) + "]"@
}

/// `Name(value)`.
pub open spec fn debug_tuple(name: Seq<char>, value: Seq<char>) -> Seq<char> {
    name + "("@ + value + ")"@
}

/// `name: value`.
pub open spec fn debug_field(name: Seq<char>, value: Seq<char>) -> Seq<char> {
    name + ": "@ + value
}

/// `Name { a: x, b: y }`.
pub open spec fn debug_struct(name: Seq<char>, fields: Seq<Seq<char>>) -> Seq<char> {
    name + " { "@ + joined(fields) + " }"@
}

/// An optional string: `Some("x")` or `None`.
pub open spec fn debug_opt_str(o: Option<String>) -> Seq<char> {
    match o {
        Some(s) => debug_tuple("Some"@, debug_quoted(s@)),
        None => "None"@,
    }
}

pub open spec fn debug_bool(b: bool) -> Seq<char> {
    if b {
        "true"@
    } else {
        "false"@
    }
}

/// The decimal renderings of some bytes.
pub open spec fn byte_items(bytes: Seq<u8>) -> Seq<Seq<char>> {
    bytes.map_values(|b: u8| decimal(b as nat))
}

/// Appends `items` separated by `", "`.
pub fn push_joined(s: &mut String, items: &Vec<String>)
    ensures
        final(s)@ == old(s)@ + joined(strs_view(items@)),
{
    let ghost start = s@;
    let mut i: usize = 0;
    while i < items.len()
        invariant
            i <= items@.len(),
            s@ == start + joined(strs_view(items@.take(i as int))),
        decreases items.len() - i,
    {
        proof {
            assert(strs_view(items@.take(i + 1)).drop_last() =~= strs_view(items@.take(i as int)));
            assert(strs_view(items@.take(i + 1)).last() == items@[i as int]@);
        }
        if i > 0 {
            push_str(s, ", ");
        }
        push_str(s, items[i].as_str());
        proof {
            if i == 0 {
                assert(strs_view(items@.take(0)) =~= Seq::<Seq<char>>::empty());
                assert(s@ =~= start + joined(strs_view(items@.take(1))));
            } else {
                assert(s@ =~= start + joined(strs_view(items@.take(i + 1))));
            }
        }
        i = i + 1;
    }
    proof {
        assert(items@.take(i as int) =~= items@);
    }
}

/// `Name { fields }`.
pub fn struct_string(name: &str, fields: &Vec<String>) -> (r: String)
    ensures
        r@ == debug_struct(name@, strs_view(fields@)),
{
    let mut r = String::new();
    push_str(&mut r, name);
    push_str(&mut r, " { ");
    push_joined(&mut r, fields);
    push_str(&mut r, " }");
    proof {
        assert(r@ =~= debug_struct(name@, strs_view(fields@)));
    }
    r
}

/// `Name(value)`.
pub fn tuple_string(name: &str, value: &str) -> (r: String)
    ensures
        r@ == debug_tuple(name@, value@),
{
    let mut r = String::new();
    push_str(&mut r, name);
    push_str(&mut r, "(");
    push_str(&mut r, value);
    push_str(&mut r, ")");
    proof {
        assert(r@ =~= debug_tuple(name@, value@));
    }
    r
}

/// `name: value`.
pub fn field_string(name: &str, value: &str) -> (r: String)
    ensures
        r@ == debug_field(name@, value@),
{
    let mut r = String::new();
    push_str(&mut r, name);
    push_str(&mut r, ": ");
    push_str(&mut r, value);
    proof {
        assert(r@ =~= debug_field(name@, value@));
    }
    r
}

/// `[items]`.
pub fn list_string(items: &Vec<String>) -> (r: String)
    ensures
        r@ == debug_list(strs_view(items@)),
{
    let mut r = String::new();
    push_str(&mut r, "[");
    push_joined(&mut r, items);
    push_str(&mut r, "]");
    proof {
        assert(r@ =~= debug_list(strs_view(items@)));
    }
    r
}

pub fn opt_str_string(o: &Option<String>) -> (r: String)
    ensures
        r@ == debug_opt_str(*o),
{
    match o {
        Some(s) => {
            let q = debug_str(s.as_str());
            tuple_string("Some", q.as_str())
        },
        None => crate::text::owned("None"),
    }
}

pub fn bool_str(b: bool) -> (r: &'static str)
    ensures
        r@ == debug_bool(b),
{
    if b {
        "true"
    } else {
        "false"
    }
}

/// `[1, 2, 3]` for some bytes.
pub fn bytes_string(bytes: &Vec<u8>) -> (r: String)
    ensures
        r@ == debug_list(byte_items(bytes@)),
{
    let mut items: Vec<String> = Vec::new();
    let mut i: usize = 0;
    while i < bytes.len()
        invariant
            i <= bytes@.len(),
            items@.len() == i,
            strs_view(items@) == byte_items(bytes@.take(i as int)),
        decreases bytes.len() - i,
    {
        let d = crate::text::decimal_string(bytes[i] as u64);
        let ghost before = items@;
        items.push(d);
        proof {
            assert forall|k: int| 0 <= k < i + 1 implies #[trigger] strs_view(items@)[k]
                == byte_items(bytes@.take(i + 1))[k] by {
                if k < i {
                    assert(items@[k] == before[k]);
                    assert(strs_view(before)[k] == byte_items(bytes@.take(i as int))[k]);
                }
            }
            assert(strs_view(items@) =~= byte_items(bytes@.take(i + 1)));
        }
        i = i + 1;
    }
    proof {
        assert(bytes@.take(i as int) =~= bytes@);
    }
    list_string(&items)
}

} // verus!
