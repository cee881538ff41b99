//! Typed cell values come from the `rvariant` crate; this module declares its
//! types and states what the library relies on of the calls it makes.
use vstd::prelude::*;
use rvariant::si_dynamic::{BaseUnit, Unit};
use rvariant::{NumberTy, Variant, VariantTy};
use crate::text::chars_of;

verus! {

#[verifier::external_type_specification]
#[verifier::external_body]
pub struct ExVariant(Variant);

#[verifier::external_type_specification]
#[verifier::external_body]
pub struct ExVariantTy(VariantTy);

#[verifier::external_type_specification]
#[verifier::external_body]
pub struct ExVariantError(rvariant::Error);

/// A derived clone: the copy equals the value cloned.
pub assume_specification[ <Variant as Clone>::clone ](v: &Variant) -> (r: Variant)
    ensures
        r == *v,
;

/// A derived clone: the copy equals the value cloned.
pub assume_specification[ <VariantTy as Clone>::clone ](t: &VariantTy) -> (r: VariantTy)
    ensures
        r == *t,
;

/// The value that `Variant::from_str` makes of a text for a type.
pub uninterp spec fn from_text(s: Seq<char>, ty: VariantTy) -> Variant;

/// The value `Variant::str` makes of a text.
pub uninterp spec fn str_variant(s: Seq<char>) -> Variant;

/// How `Variant` displays (`ToString`).
pub uninterp spec fn display_of(v: Variant) -> Seq<char>;

/// Whether a type is `VariantTy::Str`.
pub uninterp spec fn is_str_type(ty: VariantTy) -> bool;

/// How `VariantTy` displays (`ToString`).
pub uninterp spec fn type_label_of(ty: VariantTy) -> Seq<char>;

/// What `Variant::convert_to` gives: the converted value, or the error.
pub uninterp spec fn conversion_of(v: Variant, ty: VariantTy) -> Result<Variant, rvariant::Error>;

/// How `rvariant::Error` displays through `Debug`.
pub uninterp spec fn error_text_of(e: rvariant::Error) -> Seq<char>;

/// Relies on `Variant::from_str`: parses the text as the type, and falls back to
/// a string value when that fails; for the string type it is the text itself.
/// Parsing overflows, and panics, on some texts (see `text_parses_safely`);
/// those are left out.
#[verifier::external_body]
pub(crate) fn parse_value(s: &str, ty: &VariantTy) -> (r: Variant)
    requires
        text_parses_safely(s@, *ty),
    ensures
        r == from_text(s@, *ty),
        is_str_type(*ty) ==> r == str_variant(s@),
{
    Variant::from_str(s, ty)
}

/// Relies on `Variant::str`: a string value, which displays as the text itself.
#[verifier::external_body]
pub(crate) fn str_value(s: &str) -> (r: Variant)
    ensures
        r == str_variant(s@),
        display_of(r) == s@,
{
    Variant::str(s)
}

/// Relies on `Variant`'s `Display`: the text a value shows as. Displaying a
/// money value computes `10u32.pow(precision)`, which overflows from a
/// precision of 10 on, also inside a list; such values are left out.
#[verifier::external_body]
pub(crate) fn value_text(v: &Variant) -> (r: String)
    requires
        displays_safely(*v),
    ensures
        r@ == display_of(*v),
{
    v.to_string()
}

/// Relies on the `VariantTy::Str` variant: the string type.
#[verifier::external_body]
pub(crate) fn str_type() -> (r: VariantTy)
    ensures
        is_str_type(r),
{
    VariantTy::Str
}

/// Relies on `VariantTy`'s `Display`: the type's name as shown in headers.
#[verifier::external_body]
pub(crate) fn type_label(ty: &VariantTy) -> (r: String)
    ensures
        r@ == type_label_of(*ty),
{
    ty.to_string()
}

/// Relies on `Variant::convert_to`: the value converted to the type, or an error.
/// Converting to the string type displays the value (see `value_text`); any
/// other conversion parses text that is the value's display, or for a number
/// its integer part, which has no minus sign where the display has none. So a
/// value that displays safely, as text that parses safely, converts safely.
#[verifier::external_body]
pub(crate) fn convert_value(v: Variant, ty: &VariantTy) -> (r: Result<Variant, rvariant::Error>)
    requires
        displays_safely(v),
        text_parses_safely(display_of(v), *ty),
    ensures
        r == conversion_of(v, *ty),
{
    v.convert_to(ty)
}

/// Relies on `rvariant::Error`'s `Debug`: the text of a conversion error.
#[verifier::external_body]
pub(crate) fn error_text(e: &rvariant::Error) -> (r: String)
    ensures
        r@ == error_text_of(*e),
{
    format!("{e:?}")
}

/// Relies on `VariantTy`'s derived `PartialEq`: equal exactly when the types are.
#[verifier::external_body]
pub(crate) fn same_type(a: &VariantTy, b: &VariantTy) -> (r: bool)
    ensures
        r == (*a == *b),
{
    a == b
}

/// Whether a type is `VariantTy::u32()`, the unsigned 32-bit number type.
pub uninterp spec fn is_u32_type(ty: VariantTy) -> bool;

/// Relies on `VariantTy::u32`: the unsigned 32-bit number type.
#[verifier::external_body]
pub(crate) fn u32_type() -> (r: VariantTy)
    ensures
        is_u32_type(r),
{
    VariantTy::u32()
}

/// Whether `Variant::is_empty` holds of a value.
pub uninterp spec fn is_empty_value(v: Variant) -> bool;

/// Relies on `Variant::is_empty`: no value, or an empty string or list.
#[verifier::external_body]
pub(crate) fn value_is_empty(v: &Variant) -> (r: bool)
    ensures
        r == is_empty_value(*v),
{
    v.is_empty()
}

/// Relies on the `Variant::Empty` variant: the value that holds nothing.
#[verifier::external_body]
pub(crate) fn empty_value() -> (r: Variant)
    ensures
        is_empty_value(r),
{
    Variant::Empty
}

/// The precision of a `Variant::Money` value; none for any other value.
pub uninterp spec fn money_precision_of(v: Variant) -> Option<u8>;

/// The items of a `Variant::List` value; none for any other value.
pub uninterp spec fn list_items_of(v: Variant) -> Option<Seq<Variant>>;

/// Reads the precision of a `Variant::Money` value.
#[verifier::external_body]
pub(crate) fn money_precision(v: &Variant) -> (r: Option<u8>)
    ensures
        r == money_precision_of(*v),
{
    match v {
        Variant::Money { precision, .. } => Some(*precision),
        _ => None,
    }
}

/// Reads the items of a `Variant::List` value.
#[verifier::external_body]
pub(crate) fn list_items(v: &Variant) -> (r: Option<&Vec<Variant>>)
    ensures
        match r {
            Some(l) => list_items_of(*v) == Some(l@),
            None => list_items_of(*v) is None,
        },
{
    match v {
        Variant::List(l) => Some(l),
        _ => None,
    }
}

/// How deep into nested lists a value is checked before it is displayed.
pub const DISPLAY_DEPTH: u32 = 16;

/// Displaying `v` stays within `d` levels of lists and meets no money value of
/// precision 10 or more.
pub open spec fn displays_within(v: Variant, d: nat) -> bool
    decreases d,
{
    if d == 0 {
        false
    } else {
        &&& (money_precision_of(v) is Some ==> money_precision_of(v)->0 < 10)
        &&& (list_items_of(v) is Some ==> forall|i: int|
            0 <= i < list_items_of(v)->0.len() ==> displays_within(
                #[trigger] list_items_of(v)->0[i],
                (d - 1) as nat,
            ))
    }
}

/// A value that can be displayed without overflow.
pub open spec fn displays_safely(v: Variant) -> bool {
    displays_within(v, DISPLAY_DEPTH as nat)
}

/// Whether displaying `v` is safe, looking `depth` levels into nested lists.
pub fn display_is_safe(v: &Variant, depth: u32) -> (r: bool)
    ensures
        r == displays_within(*v, depth as nat),
    decreases depth,
{
    if depth == 0 {
        return false;
    }
    if let Some(p) = money_precision(v) {
        if p >= 10 {
            return false;
        }
    }
    match list_items(v) {
        Some(items) => {
            let mut i: usize = 0;
            while i < items.len()
                invariant
                    depth > 0,
                    list_items_of(*v) == Some(items@),
                    money_precision_of(*v) is Some ==> money_precision_of(*v)->0 < 10,
                    i <= items@.len(),
                    forall|k: int| 0 <= k < i ==> displays_within(#[trigger] items@[k], (depth - 1) as nat),
                decreases items@.len() - i,
            {
                if !display_is_safe(&items[i], depth - 1) {
                    proof {
                        assert(list_items_of(*v)->0[i as int] == items@[i as int]);
                    }
                    return false;
                }
                i = i + 1;
            }
            proof {
                assert forall|k: int| 0 <= k < list_items_of(*v)->0.len() implies displays_within(
                    #[trigger] list_items_of(*v)->0[k],
                    (depth - 1) as nat,
                ) by {
                    assert(list_items_of(*v)->0[k] == items@[k]);
                }
            }
            true
        },
        None => true,
    }
}

/// What parsing text as a type depends on: unsigned and signed integer
/// numbers, quantities in ohms, and the rest.
#[derive(Copy, Clone, Debug, PartialEq, Eq, Structural)]
pub enum TypeKind {
    Text,
    Unsigned,
    Signed,
    Ohms,
    Other,
}

/// Which kind of type a `VariantTy` is.
pub uninterp spec fn type_kind_of(ty: VariantTy) -> TypeKind;

/// Tells the `VariantTy` variants apart: the string type, unsigned and signed
/// integer numbers, quantities whose unit is the ohm, and the rest.
#[verifier::external_body]
pub(crate) fn type_kind(ty: &VariantTy) -> (r: TypeKind)
    ensures
        r == type_kind_of(*ty),
        r == TypeKind::Text <==> is_str_type(*ty),
{
    match ty {
        VariantTy::Str => TypeKind::Text,
        VariantTy::Number(NumberTy::U8) => TypeKind::Unsigned,
        VariantTy::Number(NumberTy::U16) => TypeKind::Unsigned,
        VariantTy::Number(NumberTy::U32) => TypeKind::Unsigned,
        VariantTy::Number(NumberTy::U64) => TypeKind::Unsigned,
        VariantTy::Number(NumberTy::U128) => TypeKind::Unsigned,
        VariantTy::Number(NumberTy::I8) => TypeKind::Signed,
        VariantTy::Number(NumberTy::I16) => TypeKind::Signed,
        VariantTy::Number(NumberTy::I32) => TypeKind::Signed,
        VariantTy::Number(NumberTy::I64) => TypeKind::Signed,
        VariantTy::Number(NumberTy::I128) => TypeKind::Signed,
        VariantTy::SI { unit: Unit { base: BaseUnit::Ohm, .. }, .. } => TypeKind::Ohms,
        _ => TypeKind::Other,
    }
}

/// How often `c` occurs in `s`.
pub open spec fn count_char(s: Seq<char>, c: char) -> int
    decreases s.len(),
{
    if s.len() == 0 {
        0
    } else {
        count_char(s.drop_last(), c) + if s.last() == c { 1int } else { 0int }
    }
}

/// Text that `Variant::from_str` parses without overflow. An integer parse
/// strips one leading minus sign and negates the rest: negating in an unsigned
/// type overflows, as does negating the least signed value, which takes a
/// second minus sign. A resistance with an exponent computes `10u64.pow` of it,
/// which overflows from 20 on.
pub open spec fn safe_for_kind(s: Seq<char>, k: TypeKind) -> bool {
    match k {
        TypeKind::Unsigned => count_char(s, '-') == 0,
        TypeKind::Signed => count_char(s, '-') <= 1,
        TypeKind::Ohms => count_char(s, 'e') == 0,
        _ => true,
    }
}

pub open spec fn text_parses_safely(s: Seq<char>, ty: VariantTy) -> bool {
    safe_for_kind(s, type_kind_of(ty))
}

/// Whether `s` parses safely as a type of kind `k`.
pub fn parses_safely(s: &str, k: TypeKind) -> (r: bool)
    ensures
        r == safe_for_kind(s@, k),
{
    let cs = chars_of(s);
    let mut minus: usize = 0;
    let mut e: usize = 0;
    let mut i: usize = 0;
    while i < cs.len()
        invariant
            cs@ == s@,
            i <= cs@.len(),
            minus == count_char(cs@.take(i as int), '-'),
            e == count_char(cs@.take(i as int), 'e'),
            minus + e <= i,
        decreases cs@.len() - i,
    {
        proof {
            assert(cs@.take(i + 1).drop_last() =~= cs@.take(i as int));
        }
        if cs[i] == '-' {
            minus = minus + 1;
        } else if cs[i] == 'e' {
            e = e + 1;
        }
        i = i + 1;
    }
    proof {
        assert(cs@.take(i as int) =~= s@);
    }
    match k {
        TypeKind::Unsigned => minus == 0,
        TypeKind::Signed => minus <= 1,
        TypeKind::Ohms => e == 0,
        _ => true,
    }
}

} // verus!
