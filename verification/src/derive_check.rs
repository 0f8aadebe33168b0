//! The rules that decide whether a type may derive `ZeroCopySafe`: it needs
//! a C-compatible representation, and only structs and fieldless enums qualify.
use vstd::prelude::*;

verus! {

/// The shape of the type being derived for.
#[derive(Debug, Clone, Copy, PartialEq, Eq, Structural)]
pub enum DataKind {
    /// A struct (its fields are checked by the generated assertions).
    Struct,
    /// An enum; `fieldless` when no variant carries data.
    Enum { fieldless: bool },
    /// A union.
    Union,
}

/// Why a type may not derive `ZeroCopySafe`.
#[derive(Debug, Clone, Copy, PartialEq, Eq, Structural)]
pub enum DeriveRejection {
    /// No `#[repr(C)]`, `#[repr(transparent)]` or integer representation.
    MissingRepr,
    /// An enum with a data-carrying variant.
    EnumWithData,
    /// A union.
    Union,
}

/// A representation that lays a type out predictably: `C`, `transparent`,
/// or a name starting with `u` or `i` (the integer representations of enums).
pub open spec fn valid_repr(r: Seq<char>) -> bool {
    ||| r == seq!['C']
    ||| r == seq!['t', 'r', 'a', 'n', 's', 'p', 'a', 'r', 'e', 'n', 't']
    ||| (r.len() > 0 && (r[0] == 'u' || r[0] == 'i'))
}

/// The verdict on a type with the given `repr` names and shape.
pub open spec fn verdict(reprs: Seq<Seq<char>>, kind: DataKind) -> Result<(), DeriveRejection> {
    if !(exists|i: int| 0 <= i < reprs.len() && valid_repr(#[trigger] reprs[i])) {
        Err(DeriveRejection::MissingRepr)
    } else {
        match kind {
            DataKind::Struct => Ok(()),
            DataKind::Enum { fieldless } => if fieldless {
                Ok(())
            } else {
                Err(DeriveRejection::EnumWithData)
            },
            DataKind::Union => Err(DeriveRejection::Union),
        }
    }
}

/// Whether one of the `#[repr(..)]` names (each a single identifier) is a valid representation.
pub fn has_valid_repr(reprs: &Vec<String>) -> (r: bool)
    ensures
        r == exists|i: int| 0 <= i < reprs@.len() && valid_repr(#[trigger] reprs@[i]@),
{
    let c = "C".to_owned();
    let transparent = "transparent".to_owned();
    proof {
        reveal_strlit("C");
        reveal_strlit("transparent");
    }
    let mut i: usize = 0;
    while i < reprs.len()
        invariant
            i <= reprs@.len(),
            c@ == seq!['C'],
            transparent@ == seq!['t', 'r', 'a', 'n', 's', 'p', 'a', 'r', 'e', 'n', 't'],
            forall|j: int| 0 <= j < i ==> !valid_repr(#[trigger] reprs@[j]@),
        decreases reprs@.len() - i,
    {
        let repr = &reprs[i];
        if repr.eq(&c) || repr.eq(&transparent) {
            return true;
        }
        let s = repr.as_str();
        if s.unicode_len() > 0 {
            let first = s.get_char(0);
            if first == 'u' || first == 'i' {
                return true;
            }
        }
        i = i + 1;
    }
    false
}

/// Whether every variant of an enum, given by its number of fields, is fieldless.
pub fn is_fieldless_enum(variant_field_counts: &Vec<usize>) -> (r: bool)
    ensures
        r == forall|i: int| 0 <= i < variant_field_counts@.len() ==> #[trigger] variant_field_counts@[i] == 0,
{
    let mut i: usize = 0;
    while i < variant_field_counts.len()
        invariant
            i <= variant_field_counts@.len(),
            forall|j: int| 0 <= j < i ==> #[trigger] variant_field_counts@[j] == 0,
        decreases variant_field_counts@.len() - i,
    {
        if variant_field_counts[i] != 0 {
            return false;
        }
        i = i + 1;
    }
    true
}

/// Decide whether a type with the given `repr` names and shape may derive `ZeroCopySafe`.
pub fn check_zero_copy_safe(reprs: &Vec<String>, kind: DataKind) -> (r: Result<(), DeriveRejection>)
    ensures
        r == verdict(reprs@.map_values(|s: String| s@), kind),
        r is Ok <==> ((exists|i: int| 0 <= i < reprs@.len() && valid_repr(#[trigger] reprs@[i]@)) && (kind
            == DataKind::Struct || kind == (DataKind::Enum { fieldless: true }))),
        !(exists|i: int| 0 <= i < reprs@.len() && valid_repr(#[trigger] reprs@[i]@)) ==> r == Err::<
            (),
            DeriveRejection,
        >(DeriveRejection::MissingRepr),
{
    let ghost views = reprs@.map_values(|s: String| s@);
    proof {
        assert forall|i: int| 0 <= i < reprs@.len() implies #[trigger] views[i] == reprs@[i]@ by {}
    }
    if !has_valid_repr(reprs) {
        proof {
            if exists|i: int| 0 <= i < views.len() && valid_repr(#[trigger] views[i]) {
                let i = choose|i: int| 0 <= i < views.len() && valid_repr(#[trigger] views[i]);
                assert(valid_repr(reprs@[i]@));
            }
        }
        return Err(DeriveRejection::MissingRepr);
    }
    proof {
        let i = choose|i: int| 0 <= i < reprs@.len() && valid_repr(#[trigger] reprs@[i]@);
        assert(valid_repr(views[i]));
    }
    match kind {
        DataKind::Struct => Ok(()),
        DataKind::Enum { fieldless } => {
            if fieldless {
                Ok(())
            } else {
                Err(DeriveRejection::EnumWithData)
            }
        },
        DataKind::Union => Err(DeriveRejection::Union),
    }
}

impl DeriveRejection {
    /// The compile error message for this rejection.
    pub fn message(&self) -> (r: &'static str)
        ensures
            *self == DeriveRejection::MissingRepr ==> r@
                == "ZeroCopySafe requires #[repr(C)] or #[repr(transparent)]"@,
            *self == DeriveRejection::EnumWithData ==> r@
                == "ZeroCopySafe enums must be fieldless (no data variants)"@,
            *self == DeriveRejection::Union ==> r@ == "ZeroCopySafe cannot be derived for unions"@,
    {
        match self {
            DeriveRejection::MissingRepr => "ZeroCopySafe requires #[repr(C)] or #[repr(transparent)]",
            DeriveRejection::EnumWithData => "ZeroCopySafe enums must be fieldless (no data variants)",
            DeriveRejection::Union => "ZeroCopySafe cannot be derived for unions",
        }
    }
}

/// What the verdict decides, for every list of `repr` names and every shape:
/// - without a valid representation the type is refused for that reason;
/// - with one, a struct and an enum whose variants carry no data are accepted,
///   and an enum with data or a union is refused for that reason;
/// - a fieldless enum is judged exactly as a struct with the same `repr` names;
/// - adding a `repr` name never turns an accepted type into a refused one.
pub proof fn lemma_verdict_rules(reprs: Seq<Seq<char>>, kind: DataKind, extra: Seq<char>)
    ensures
        !(exists|i: int| 0 <= i < reprs.len() && valid_repr(#[trigger] reprs[i])) ==> verdict(reprs, kind)
            == Err::<(), DeriveRejection>(DeriveRejection::MissingRepr),
        (exists|i: int| 0 <= i < reprs.len() && valid_repr(#[trigger] reprs[i])) ==> {
            &&& verdict(reprs, DataKind::Struct) == Ok::<(), DeriveRejection>(())
            &&& verdict(reprs, DataKind::Enum { fieldless: true }) == Ok::<(), DeriveRejection>(())
            &&& verdict(reprs, DataKind::Enum { fieldless: false }) == Err::<(), DeriveRejection>(
                DeriveRejection::EnumWithData,
            )
            &&& verdict(reprs, DataKind::Union) == Err::<(), DeriveRejection>(DeriveRejection::Union)
        },
        verdict(reprs, DataKind::Enum { fieldless: true }) == verdict(reprs, DataKind::Struct),
        verdict(reprs, kind) is Ok ==> verdict(reprs.push(extra), kind) is Ok,
{
    if exists|i: int| 0 <= i < reprs.len() && valid_repr(#[trigger] reprs[i]) {
        let i = choose|i: int| 0 <= i < reprs.len() && valid_repr(#[trigger] reprs[i]);
        assert(reprs.push(extra)[i] == reprs[i]);
    }
}

} // verus!
