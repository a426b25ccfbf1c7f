//! Compatibility rules between platform types used by the semantic MIR contract:
//! platform aliases, type parameters, erased generics and Option/Nullable aliases.
use vstd::prelude::*;
use crate::text::str_equal;
use crate::types::{copy_type, lemma_models, models, same_type, NyarType, TypeModel};

verus! {

broadcast use lemma_models;

// ---------------------------------------------------------------- size measure

/// Number of type constructors in a model.
pub open spec fn size(m: TypeModel) -> nat
    decreases m,
{
    match m {
        TypeModel::Apply(base, args) => 1 + size(*base) + sizes(args),
        TypeModel::Array(element) => 1 + size(*element),
        TypeModel::FixedArray { element, .. } => 1 + size(*element),
        TypeModel::Nullable(inner) => 1 + size(*inner),
        TypeModel::Union(arms) => 1 + sizes(arms),
        TypeModel::Tuple(elements) => 1 + sizes(elements),
        TypeModel::TraitObject { type_arguments, .. } => 1 + sizes(type_arguments),
        _ => 1,
    }
}

/// Total size of a list of models, one more per element.
pub open spec fn sizes(s: Seq<TypeModel>) -> nat
    decreases s,
{
    if s.len() == 0 {
        0
    } else {
        size(s[0]) + 1 + sizes(s.subrange(1, s.len() as int))
    }
}

proof fn lemma_sizes_element(s: Seq<TypeModel>, i: int)
    requires
        0 <= i < s.len(),
    ensures
        size(s[i]) < sizes(s),
    decreases s.len(),
{
    if i > 0 {
        lemma_sizes_element(s.subrange(1, s.len() as int), i - 1);
    }
}

// ---------------------------------------------------------------- platform aliases

/// The platform type a named alias stands for, if the name is one.
pub open spec fn alias_target(name: Seq<char>) -> Option<TypeModel> {
    if name == "usize"@ {
        Some(TypeModel::Integer32 { signed: false })
    } else if name == "isize"@ {
        Some(TypeModel::Integer32 { signed: true })
    } else if name == "bool"@ {
        Some(TypeModel::Boolean)
    } else if name == "utf8"@ || name == "Utf8Text"@ {
        Some(TypeModel::Utf8)
    } else if name == "utf16"@ || name == "Utf16Text"@ {
        Some(TypeModel::Utf16)
    } else {
        None
    }
}

/// A type with every platform alias replaced by the type it stands for.
pub open spec fn normalized(m: TypeModel) -> TypeModel
    decreases m,
{
    match m {
        TypeModel::Named(name) => match alias_target(name) {
            Some(target) => target,
            None => m,
        },
        TypeModel::Apply(base, args) => TypeModel::Apply(
            Box::new(normalized(*base)),
            normalized_all(args),
        ),
        TypeModel::Array(element) => TypeModel::Array(Box::new(normalized(*element))),
        TypeModel::FixedArray { element, length } => TypeModel::FixedArray {
            element: Box::new(normalized(*element)),
            length,
        },
        TypeModel::Nullable(inner) => TypeModel::Nullable(Box::new(normalized(*inner))),
        TypeModel::Union(arms) => TypeModel::Union(normalized_all(arms)),
        TypeModel::Tuple(elements) => TypeModel::Tuple(normalized_all(elements)),
        _ => m,
    }
}

/// [`normalized`] applied to each element.
pub open spec fn normalized_all(s: Seq<TypeModel>) -> Seq<TypeModel>
    decreases s,
{
    if s.len() == 0 {
        Seq::empty()
    } else {
        seq![normalized(s[0])] + normalized_all(s.subrange(1, s.len() as int))
    }
}

proof fn lemma_normalized_all(s: Seq<TypeModel>)
    ensures
        normalized_all(s).len() == s.len(),
        forall|i: int| 0 <= i < s.len() ==> #[trigger] normalized_all(s)[i] == normalized(s[i]),
    decreases s.len(),
{
    if s.len() > 0 {
        lemma_normalized_all(s.subrange(1, s.len() as int));
        assert forall|i: int| 0 <= i < s.len() implies #[trigger] normalized_all(s)[i] == normalized(
            s[i],
        ) by {
            if i > 0 {
                assert(s.subrange(1, s.len() as int)[i - 1] == s[i]);
            }
        }
    }
}

/// Alias normalization keeps the size of a type, so recursion over the size still decreases.
pub proof fn lemma_normalized_size(m: TypeModel)
    ensures
        size(normalized(m)) == size(m),
    decreases m,
{
    match m {
        TypeModel::Apply(base, args) => {
            lemma_normalized_size(*base);
            lemma_normalized_all_size(args);
        },
        TypeModel::Array(element) => lemma_normalized_size(*element),
        TypeModel::FixedArray { element, .. } => lemma_normalized_size(*element),
        TypeModel::Nullable(inner) => lemma_normalized_size(*inner),
        TypeModel::Union(arms) => lemma_normalized_all_size(arms),
        TypeModel::Tuple(elements) => lemma_normalized_all_size(elements),
        _ => {},
    }
}

/// Alias normalization keeps the total size of a type list.
pub proof fn lemma_normalized_all_size(s: Seq<TypeModel>)
    ensures
        sizes(normalized_all(s)) == sizes(s),
    decreases s,
{
    if s.len() > 0 {
        lemma_normalized_size(s[0]);
        lemma_normalized_all_size(s.subrange(1, s.len() as int));
        let n = normalized_all(s);
        assert(n.subrange(1, n.len() as int) =~= normalized_all(s.subrange(1, s.len() as int)));
    }
}

/// Replaces platform aliases (`usize`, `bool`, `utf8`, ...) by the platform types they name,
/// through applications, arrays, nullables, unions and tuples.
pub fn normalize_platform_alias(ty: &NyarType) -> (r: NyarType)
    ensures
        r.model() == normalized(ty.model()),
    decreases ty,
{
    match ty {
        NyarType::Named(name) => {
            let text = name.as_str();
            proof {
                reveal_strlit("usize");
                reveal_strlit("isize");
                assert("usize"@[0] != "isize"@[0]);
            }
            if str_equal(text, "usize") || str_equal(text, "isize") {
                NyarType::Integer32 { signed: str_equal(text, "isize") }
            } else if str_equal(text, "bool") {
                NyarType::Boolean
            } else if str_equal(text, "utf8") || str_equal(text, "Utf8Text") {
                NyarType::Utf8
            } else if str_equal(text, "utf16") || str_equal(text, "Utf16Text") {
                NyarType::Utf16
            } else {
                assert(alias_target(name@) is None);
                copy_type(ty)
            }
        },
        NyarType::Apply(base, args) => NyarType::Apply(
            Box::new(normalize_platform_alias(base)),
            normalize_list(args),
        ),
        NyarType::Array(element) => NyarType::Array(Box::new(normalize_platform_alias(element))),
        NyarType::FixedArray { element, length } => NyarType::FixedArray {
            element: Box::new(normalize_platform_alias(element)),
            length: *length,
        },
        NyarType::Nullable(inner) => NyarType::Nullable(Box::new(normalize_platform_alias(inner))),
        NyarType::Union(arms) => NyarType::Union(normalize_list(arms)),
        NyarType::Tuple(elements) => NyarType::Tuple(normalize_list(elements)),
        _ => copy_type(ty),
    }
}

fn normalize_list(v: &Vec<NyarType>) -> (r: Vec<NyarType>)
    ensures
        models(r@) == normalized_all(models(v@)),
    decreases v,
{
    let mut out: Vec<NyarType> = Vec::new();
    let mut i: usize = 0;
    while i < v.len()
        invariant
            i <= v.len(),
            out@.len() == i,
            forall|j: int| 0 <= j < i ==> #[trigger] out@[j].model() == normalized(v@[j].model()),
        decreases v.len() - i,
    {
        proof {
            assert(decreases_to!(v => v@[i as int]));
        }
        out.push(normalize_platform_alias(&v[i]));
        i = i + 1;
    }
    proof {
        lemma_normalized_all(models(v@));
        assert(models(out@) =~= normalized_all(models(v@)));
    }
    out
}

// ---------------------------------------------------------------- shapes

/// A name made only of ASCII upper-case letters, at least one.
pub open spec fn upper_ident(name: Seq<char>) -> bool {
    name.len() > 0 && forall|i: int| 0 <= i < name.len() ==> ('A' <= #[trigger] name[i] && name[i] <= 'Z')
}

/// A named type whose name reads as a type parameter (`T`, `K`, `V`, ...).
pub open spec fn type_param(m: TypeModel) -> bool {
    match m {
        TypeModel::Named(name) => upper_ident(name),
        _ => false,
    }
}

/// An erased generic slot: the `__generic` trait object without arguments, or a type parameter.
pub open spec fn erased_placeholder(m: TypeModel) -> bool {
    match m {
        TypeModel::TraitObject { trait_path, type_arguments } => trait_path == "__generic"@
            && type_arguments.len() == 0,
        TypeModel::Named(_) => type_param(m),
        _ => false,
    }
}

/// The nominal owner of a type: its name, or the name under an application.
pub open spec fn owner_of(m: TypeModel) -> Option<Seq<char>>
    decreases m,
{
    match m {
        TypeModel::Named(name) => Some(name),
        TypeModel::Apply(base, _) => owner_of(*base),
        _ => None,
    }
}

/// `Nullable`, or owned by `Option` or `Nullable`.
pub open spec fn option_shaped(m: TypeModel) -> bool {
    m is Nullable || (owner_of(m) matches Some(name) && (name == "Option"@ || name == "Nullable"@))
}

/// The payload of an option-like type: first argument of an application, or the inner type.
pub open spec fn option_payload(m: TypeModel) -> Option<TypeModel> {
    match m {
        TypeModel::Apply(_, args) => if args.len() > 0 {
            Some(args[0])
        } else {
            None
        },
        TypeModel::Nullable(inner) => Some(*inner),
        _ => None,
    }
}

/// Two option-shaped types whose payloads agree after alias normalization, or are both type parameters.
pub open spec fn option_alias_compatible(actual: TypeModel, expected: TypeModel) -> bool {
    option_shaped(actual) && option_shaped(expected) && match (
        option_payload(actual),
        option_payload(expected),
    ) {
        (Some(left), Some(right)) => normalized(left) == normalized(right) || (type_param(left)
            && type_param(right)),
        (None, None) => true,
        _ => false,
    }
}

/// A returned value of type `actual` is acceptable where `expected` is declared.
pub open spec fn return_compatible(actual: TypeModel, expected: TypeModel) -> bool {
    actual == expected || option_alias_compatible(actual, expected) || normalized(actual)
        == normalized(expected)
}

/// A value of type `actual` fits an aggregate slot declared as `declared`.
pub open spec fn field_compatible(actual: TypeModel, declared: TypeModel) -> bool
    decreases size(actual),
{
    if actual == declared || return_compatible(actual, declared) || type_param(declared)
        || erased_placeholder(declared) || (erased_placeholder(actual) && erased_placeholder(
        declared,
    )) {
        true
    } else {
        proof {
            lemma_normalized_size(actual);
        }
        match (normalized(actual), normalized(declared)) {
            (TypeModel::Array(a), TypeModel::Array(d)) => field_compatible(*a, *d),
            (TypeModel::FixedArray { element: a, .. }, TypeModel::Array(d)) => field_compatible(
                *a,
                *d,
            ),
            (TypeModel::Array(a), TypeModel::FixedArray { element: d, .. }) => field_compatible(
                *a,
                *d,
            ),
            (
                TypeModel::FixedArray { element: a, .. },
                TypeModel::FixedArray { element: d, .. },
            ) => field_compatible(*a, *d),
            (TypeModel::Apply(ab, aa), TypeModel::Apply(db, da)) => field_compatible(*ab, *db)
                && aa.len() == da.len() && fields_compatible(aa, da),
            _ => false,
        }
    }
}

/// [`field_compatible`] element by element (lists of equal length).
pub open spec fn fields_compatible(actual: Seq<TypeModel>, declared: Seq<TypeModel>) -> bool
    decreases sizes(actual),
{
    if actual.len() == 0 || declared.len() == 0 {
        true
    } else {
        field_compatible(actual[0], declared[0]) && fields_compatible(
            actual.subrange(1, actual.len() as int),
            declared.subrange(1, declared.len() as int),
        )
    }
}

// ---------------------------------------------------------------- exec checks

/// Whether the type is a named type parameter (`T`, `K`, ...).
pub fn is_type_parameter(ty: &NyarType) -> (r: bool)
    ensures
        r == type_param(ty.model()),
{
    match ty {
        NyarType::Named(name) => {
            let chars = crate::text::chars_of(name.as_str());
            if chars.len() == 0 {
                return false;
            }
            let mut i: usize = 0;
            while i < chars.len()
                invariant
                    chars@ == name@,
                    ty.model() == TypeModel::Named(name@),
                    i <= chars@.len(),
                    forall|j: int| 0 <= j < i ==> ('A' <= #[trigger] chars@[j] && chars@[j] <= 'Z'),
                decreases chars.len() - i,
            {
                let c = chars[i];
                if !('A' <= c && c <= 'Z') {
                    assert(name@[i as int] == c);
                    assert(!upper_ident(name@));
                    return false;
                }
                i = i + 1;
            }
            true
        },
        _ => false,
    }
}

/// Whether the type is an erased generic slot.
pub fn is_erased_generic_placeholder(ty: &NyarType) -> (r: bool)
    ensures
        r == erased_placeholder(ty.model()),
{
    match ty {
        NyarType::TraitObject { trait_path, type_arguments } => {
            proof {
                lemma_models(type_arguments@);
            }
            str_equal(
            trait_path.as_str(),
            "__generic",
        ) && type_arguments.len() == 0
        },
        NyarType::Named(_) => is_type_parameter(ty),
        _ => false,
    }
}

/// The nominal owner name of a type.
pub fn sum_owner_name(ty: &NyarType) -> (r: Option<&str>)
    ensures
        match r {
            Some(name) => owner_of(ty.model()) == Some(name@),
            None => owner_of(ty.model()) is None,
        },
    decreases ty,
{
    match ty {
        NyarType::Named(name) => Some(name.as_str()),
        NyarType::Apply(base, _) => sum_owner_name(base),
        _ => None,
    }
}

/// The owner name used to find an aggregate layout.
pub fn aggregate_owner_name(ty: &NyarType) -> (r: Option<&str>)
    ensures
        match r {
            Some(name) => owner_of(ty.model()) == Some(name@),
            None => owner_of(ty.model()) is None,
        },
{
    sum_owner_name(ty)
}

/// Whether the type is `Nullable` or owned by `Option` / `Nullable`.
pub fn is_option_shaped(ty: &NyarType) -> (r: bool)
    ensures
        r == option_shaped(ty.model()),
{
    if let NyarType::Nullable(_) = ty {
        return true;
    }
    match sum_owner_name(ty) {
        Some(name) => str_equal(name, "Option") || str_equal(name, "Nullable"),
        None => false,
    }
}

fn option_payload_of(ty: &NyarType) -> (r: Option<&NyarType>)
    ensures
        match r {
            Some(p) => option_payload(ty.model()) == Some(p.model()),
            None => option_payload(ty.model()) is None,
        },
{
    match ty {
        NyarType::Apply(_, args) => {
            proof {
                lemma_models(args@);
            }
            if args.len() > 0 {
                Some(&args[0])
            } else {
                None
            }
        },
        NyarType::Nullable(inner) => Some(&**inner),
        _ => None,
    }
}

/// Option-shaped types whose payloads agree (see [`option_alias_compatible`]).
pub fn result_or_option_alias_compatible(actual: &NyarType, expected: &NyarType) -> (r: bool)
    ensures
        r == option_alias_compatible(actual.model(), expected.model()),
{
    if !is_option_shaped(actual) || !is_option_shaped(expected) {
        return false;
    }
    match (option_payload_of(actual), option_payload_of(expected)) {
        (Some(left), Some(right)) => {
            let nl = normalize_platform_alias(left);
            let nr = normalize_platform_alias(right);
            same_type(&nl, &nr) || (is_type_parameter(left) && is_type_parameter(right))
        },
        (None, None) => true,
        _ => false,
    }
}

/// Whether a returned type is acceptable for the declared return type.
pub fn mir_return_types_compatible(actual: &NyarType, expected: &NyarType) -> (r: bool)
    ensures
        r == return_compatible(actual.model(), expected.model()),
{
    if same_type(actual, expected) {
        return true;
    }
    if result_or_option_alias_compatible(actual, expected) {
        return true;
    }
    let left = normalize_platform_alias(actual);
    let right = normalize_platform_alias(expected);
    same_type(&left, &right)
}

/// Whether a value type fits an aggregate slot: equal, return-compatible, generic, or
/// structurally compatible arrays and applications after alias normalization.
pub fn aggregate_field_types_compatible(actual: &NyarType, declared: &NyarType) -> (r: bool)
    ensures
        r == field_compatible(actual.model(), declared.model()),
    decreases size(actual.model()),
{
    if same_type(actual, declared) {
        return true;
    }
    if mir_return_types_compatible(actual, declared) {
        return true;
    }
    if is_type_parameter(declared) || is_erased_generic_placeholder(declared) {
        return true;
    }
    if is_erased_generic_placeholder(actual) && is_erased_generic_placeholder(declared) {
        return true;
    }
    let na = normalize_platform_alias(actual);
    let nd = normalize_platform_alias(declared);
    proof {
        lemma_normalized_size(actual.model());
    }
    match (&na, &nd) {
        (NyarType::Array(a), NyarType::Array(d)) => aggregate_field_types_compatible(a, d),
        (NyarType::FixedArray { element: a, .. }, NyarType::Array(d)) => aggregate_field_types_compatible(a, d),
        (NyarType::Array(a), NyarType::FixedArray { element: d, .. }) => aggregate_field_types_compatible(a, d),
        (NyarType::FixedArray { element: a, .. }, NyarType::FixedArray { element: d, .. }) => {
            aggregate_field_types_compatible(a, d)
        },
        (NyarType::Apply(ab, aa), NyarType::Apply(db, da)) => {
            proof {
                lemma_models(aa@);
                lemma_models(da@);
            }
            if !aggregate_field_types_compatible(ab, db) {
                return false;
            }
            if aa.len() != da.len() {
                return false;
            }
            let mut i: usize = 0;
            assert(field_compatible(actual.model(), declared.model()) == fields_compatible(models(aa@), models(da@)));
            assert(models(aa@).subrange(0, aa.len() as int) =~= models(aa@));
            assert(models(da@).subrange(0, da.len() as int) =~= models(da@));
            while i < aa.len()
                invariant
                    aa.len() == da.len(),
                    i <= aa.len(),
                    size(na.model()) == size(actual.model()),
                    field_compatible(actual.model(), declared.model()) == fields_compatible(models(aa@), models(da@)),
                    na.model() == TypeModel::Apply(Box::new(ab.model()), models(aa@)),
                    nd.model() == TypeModel::Apply(Box::new(db.model()), models(da@)),
                    fields_compatible(models(aa@), models(da@)) == fields_compatible(
                        models(aa@).subrange(i as int, aa.len() as int),
                        models(da@).subrange(i as int, da.len() as int),
                    ),
                decreases aa.len() - i,
            {
                proof {
                    lemma_sizes_element(models(aa@), i as int);
                    let sa = models(aa@).subrange(i as int, aa.len() as int);
                    let sd = models(da@).subrange(i as int, da.len() as int);
                    assert(sa.subrange(1, sa.len() as int) =~= models(aa@).subrange(i + 1, aa.len() as int));
                    assert(sd.subrange(1, sd.len() as int) =~= models(da@).subrange(i + 1, da.len() as int));
                }
                if !aggregate_field_types_compatible(&aa[i], &da[i]) {
                    return false;
                }
                i = i + 1;
            }
            true
        },
        _ => false,
    }
}


/// A scalar platform type: unit, boolean, a fixed-width integer, or a text encoding.
pub open spec fn scalar_type(m: TypeModel) -> bool {
    ||| m is Unit
    ||| m is Boolean
    ||| m is Integer8
    ||| m is Integer16
    ||| m is Integer32
    ||| m is Integer64
    ||| m is Utf8
    ||| m is Utf16
}

/// Between scalar types, a value fits a field or a return slot exactly when the two types are
/// the same: no scalar is accepted for another (an `i32` is no `Utf8`, an `i8` no `i16`).
pub proof fn lemma_scalar_compatibility(actual: TypeModel, declared: TypeModel)
    requires
        scalar_type(actual),
        scalar_type(declared),
    ensures
        field_compatible(actual, declared) <==> actual == declared,
        return_compatible(actual, declared) <==> actual == declared,
{
    assert(normalized(actual) == actual);
    assert(normalized(declared) == declared);
    assert(!option_shaped(actual));
    assert(!type_param(declared));
    assert(!erased_placeholder(declared));
}

/// Every type fits a field and a return slot of its own type, and any type fits a field
/// declared as a type parameter.
pub proof fn lemma_compatibility_reflexive(t: TypeModel, declared: TypeModel)
    ensures
        field_compatible(t, t),
        return_compatible(t, t),
        type_param(declared) ==> field_compatible(t, declared),
{
}

} // verus!
