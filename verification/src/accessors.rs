//! Naming the accessors that are generated for the fields of a struct.

use vstd::prelude::*;
use crate::names::{is_one_of, is_supported, names_of};

verus! {

/// The ASCII upper case of `c`: `a` to `z` become `A` to `Z`, every other
/// character is itself.
pub open spec fn ascii_upper(c: char) -> char {
    if 'a' <= c && c <= 'z' {
        ((c as u32) - 32) as char
    } else {
        c
    }
}

/// `char::to_ascii_uppercase`, as its documentation describes it: the
/// letters `a` to `z` are mapped to `A` to `Z`, anything else is unchanged.
pub assume_specification[ char::to_ascii_uppercase ](c: &char) -> (upper: char)
    ensures
        upper == ascii_upper(*c),
;

/// `String::push`: the character is appended to the end of the string.
pub assume_specification[ String::push ](s: &mut String, ch: char)
    ensures
        final(s)@ == old(s)@.push(ch),
;

/// Position `i` of `s` holds the first character of a word: it is no
/// underscore, and it stands at the start or behind an underscore.
pub open spec fn starts_word(s: Seq<char>, i: int) -> bool {
    s[i] != '_' && (i == 0 || s[i - 1] == '_')
}

/// `s` with the first character of each word in upper case.
pub open spec fn capitalized(s: Seq<char>) -> Seq<char> {
    Seq::new(
        s.len(),
        |i: int|
            if starts_word(s, i) {
                ascii_upper(s[i])
            } else {
                s[i]
            },
    )
}

/// A snake_case name in PascalCase: the words between the underscores,
/// each with its first character in upper case, written together.
pub open spec fn pascal_case(s: Seq<char>) -> Seq<char> {
    capitalized(s).filter(|c: char| c != '_')
}

/// Turns a snake_case name into PascalCase.
pub fn snake_to_pascal(s: &str) -> (pascal: String)
    ensures
        pascal@ == pascal_case(s@),
{
    let mut pascal = String::new();
    let mut at_word_start = true;
    let ghost kept = |c: char| c != '_';
    proof {
        reveal(Seq::filter);
        assert(capitalized(s@).take(0) =~= Seq::<char>::empty());
    }
    let chars = s.chars();
    for c in iter: chars
        invariant
            iter.seq() == s@,
            kept == |c: char| c != '_',
            pascal@ == capitalized(s@).take(iter.index()).filter(kept),
            at_word_start == (iter.index() == 0 || s@[iter.index() - 1] == '_'),
    {
        proof {
            let i = iter.index();
            reveal(Seq::filter);
            assert(capitalized(s@).take(i + 1).drop_last() =~= capitalized(s@).take(i));
        }
        if c == '_' {
            at_word_start = true;
        } else {
            if at_word_start {
                pascal.push(c.to_ascii_uppercase());
            } else {
                pascal.push(c);
            }
            at_word_start = false;
        }
    }
    proof {
        assert(capitalized(s@).take(s@.len() as int) =~= capitalized(s@));
    }
    pascal
}

/// Whether a field gets an accessor: it does unless it carries the
/// attribute named `skip`.
pub fn keeps_field(attributes: &[String], skip: Option<&str>) -> (kept: bool)
    ensures
        kept == match skip {
            Some(name) => !attributes.deep_view().contains(name@),
            None => true,
        },
{
    match skip {
        None => true,
        Some(name) => !is_supported(name, attributes),
    }
}

/// The names of the types whose values an accessor returns as they are.
pub const NO_REF_TYPES: [&'static str; 11] = [
    "bool",
    "i8",
    "u8",
    "i16",
    "u16",
    "i32",
    "u32",
    "i64",
    "u64",
    "f32",
    "f64",
];

/// How the accessor of a field hands out the field.
#[derive(Clone, Copy, Debug, PartialEq, Eq, Structural)]
pub enum AccessorKind {
    /// The value itself.
    Value,
    /// The string as a `&str`.
    Str,
    /// A reference to the field.
    Reference,
}

/// The accessor for a field whose type is a path that ends in `segment`,
/// or is no path at all.
pub open spec fn accessor_kind_of(segment: Option<Seq<char>>) -> AccessorKind {
    match segment {
        Some(name) => if names_of(NO_REF_TYPES@).contains(name) {
            AccessorKind::Value
        } else if name == "String"@ {
            AccessorKind::Str
        } else {
            AccessorKind::Reference
        },
        None => AccessorKind::Reference,
    }
}

/// Decides how the accessor of a field hands out the field, from the last
/// segment of the field's type where that type is a path.
pub fn accessor_kind(last_segment: Option<&str>) -> (kind: AccessorKind)
    ensures
        kind == accessor_kind_of(
            match last_segment {
                Some(name) => Some(name@),
                None => None,
            },
        ),
{
    match last_segment {
        Some(name) => {
            if is_one_of(name, &NO_REF_TYPES) {
                return AccessorKind::Value;
            }
            let string_name: String = "String".to_owned();
            let given: String = name.to_owned();
            if given == string_name {
                return AccessorKind::Str;
            }
            AccessorKind::Reference
        },
        None => AccessorKind::Reference,
    }
}

/// The name of the trait that stands for having a field: `Has`, then the
/// field's name in PascalCase.
pub fn has_trait_name(field_name: &str) -> (name: String)
    ensures
        name@ == "Has"@ + pascal_case(field_name@),
{
    let mut name: String = "Has".to_owned();
    let field_name_pascal = snake_to_pascal(field_name);
    name.append(field_name_pascal.as_str());
    name
}

} // verus!
