//! Executable (platform) types and their mathematical model.
use vstd::prelude::*;
use crate::names::Identifier;
use crate::text::{owned, str_equal};

verus! {

/// A platform type attached to executable values.
#[derive(Debug, PartialEq, Eq)]
pub enum NyarType {
    Unit,
    Boolean,
    Integer8 { signed: bool },
    Integer16 { signed: bool },
    Integer32 { signed: bool },
    Integer64 { signed: bool },
    Utf8,
    Utf16,
    Named(Identifier),
    Apply(Box<NyarType>, Vec<NyarType>),
    Array(Box<NyarType>),
    FixedArray { element: Box<NyarType>, length: u64 },
    Nullable(Box<NyarType>),
    Union(Vec<NyarType>),
    Tuple(Vec<NyarType>),
    TraitObject { trait_path: Identifier, type_arguments: Vec<NyarType> },
}

/// The mathematical value of a [`NyarType`]: names become character sequences.
pub ghost enum TypeModel {
    Unit,
    Boolean,
    Integer8 { signed: bool },
    Integer16 { signed: bool },
    Integer32 { signed: bool },
    Integer64 { signed: bool },
    Utf8,
    Utf16,
    Named(Seq<char>),
    Apply(Box<TypeModel>, Seq<TypeModel>),
    Array(Box<TypeModel>),
    FixedArray { element: Box<TypeModel>, length: u64 },
    Nullable(Box<TypeModel>),
    Union(Seq<TypeModel>),
    Tuple(Seq<TypeModel>),
    TraitObject { trait_path: Seq<char>, type_arguments: Seq<TypeModel> },
}

impl NyarType {
    /// The model of this type.
    pub open spec fn model(&self) -> TypeModel
        decreases self,
    {
        match self {
            NyarType::Unit => TypeModel::Unit,
            NyarType::Boolean => TypeModel::Boolean,
            NyarType::Integer8 { signed } => TypeModel::Integer8 { signed: *signed },
            NyarType::Integer16 { signed } => TypeModel::Integer16 { signed: *signed },
            NyarType::Integer32 { signed } => TypeModel::Integer32 { signed: *signed },
            NyarType::Integer64 { signed } => TypeModel::Integer64 { signed: *signed },
            NyarType::Utf8 => TypeModel::Utf8,
            NyarType::Utf16 => TypeModel::Utf16,
            NyarType::Named(name) => TypeModel::Named(name@),
            NyarType::Apply(base, args) => TypeModel::Apply(Box::new(base.model()), models(args@)),
            NyarType::Array(element) => TypeModel::Array(Box::new(element.model())),
            NyarType::FixedArray { element, length } => TypeModel::FixedArray {
                element: Box::new(element.model()),
                length: *length,
            },
            NyarType::Nullable(inner) => TypeModel::Nullable(Box::new(inner.model())),
            NyarType::Union(arms) => TypeModel::Union(models(arms@)),
            NyarType::Tuple(elements) => TypeModel::Tuple(models(elements@)),
            NyarType::TraitObject { trait_path, type_arguments } => TypeModel::TraitObject {
                trait_path: trait_path@,
                type_arguments: models(type_arguments@),
            },
        }
    }
}

/// The models of a sequence of types.
pub open spec fn models(s: Seq<NyarType>) -> Seq<TypeModel>
    decreases s,
{
    if s.len() == 0 {
        Seq::empty()
    } else {
        seq![s[0].model()] + models(s.subrange(1, s.len() as int))
    }
}

/// `models` is taken element by element.
pub broadcast proof fn lemma_models(s: Seq<NyarType>)
    ensures
        #[trigger] models(s).len() == s.len(),
        forall|i: int| 0 <= i < s.len() ==> #[trigger] models(s)[i] == s[i].model(),
    decreases s.len(),
{
    if s.len() > 0 {
        lemma_models(s.subrange(1, s.len() as int));
        assert forall|i: int| 0 <= i < s.len() implies #[trigger] models(s)[i] == s[i].model() by {
            if i > 0 {
                assert(s.subrange(1, s.len() as int)[i - 1] == s[i]);
            }
        }
    }
}

/// Two sequences of models are equal when they agree element by element.
pub proof fn lemma_models_equal(a: Seq<NyarType>, b: Seq<NyarType>)
    requires
        a.len() == b.len(),
        forall|i: int| 0 <= i < a.len() ==> a[i].model() == b[i].model(),
    ensures
        models(a) == models(b),
{
    lemma_models(a);
    lemma_models(b);
    assert(models(a) =~= models(b));
}

/// Structural equality of two types.
pub fn same_type(a: &NyarType, b: &NyarType) -> (r: bool)
    ensures
        r == (a.model() == b.model()),
    decreases a,
{
    match (a, b) {
        (NyarType::Unit, NyarType::Unit) => true,
        (NyarType::Boolean, NyarType::Boolean) => true,
        (NyarType::Integer8 { signed: x }, NyarType::Integer8 { signed: y }) => *x == *y,
        (NyarType::Integer16 { signed: x }, NyarType::Integer16 { signed: y }) => *x == *y,
        (NyarType::Integer32 { signed: x }, NyarType::Integer32 { signed: y }) => *x == *y,
        (NyarType::Integer64 { signed: x }, NyarType::Integer64 { signed: y }) => *x == *y,
        (NyarType::Utf8, NyarType::Utf8) => true,
        (NyarType::Utf16, NyarType::Utf16) => true,
        (NyarType::Named(x), NyarType::Named(y)) => str_equal(x.as_str(), y.as_str()),
        (NyarType::Apply(xb, xa), NyarType::Apply(yb, ya)) => {
            let bases = same_type(xb, yb);
            if !bases {
                return false;
            }
            same_type_list(xa, ya)
        },
        (NyarType::Array(x), NyarType::Array(y)) => same_type(x, y),
        (
            NyarType::FixedArray { element: xe, length: xl },
            NyarType::FixedArray { element: ye, length: yl },
        ) => {
            if *xl != *yl {
                return false;
            }
            same_type(xe, ye)
        },
        (NyarType::Nullable(x), NyarType::Nullable(y)) => same_type(x, y),
        (NyarType::Union(x), NyarType::Union(y)) => same_type_list(x, y),
        (NyarType::Tuple(x), NyarType::Tuple(y)) => same_type_list(x, y),
        (
            NyarType::TraitObject { trait_path: xp, type_arguments: xa },
            NyarType::TraitObject { trait_path: yp, type_arguments: ya },
        ) => {
            if !str_equal(xp.as_str(), yp.as_str()) {
                return false;
            }
            same_type_list(xa, ya)
        },
        _ => false,
    }
}

/// Element-wise structural equality of two type lists.
pub fn same_type_list(a: &Vec<NyarType>, b: &Vec<NyarType>) -> (r: bool)
    ensures
        r == (models(a@) == models(b@)),
    decreases a,
{
    proof {
        lemma_models(a@);
        lemma_models(b@);
    }
    if a.len() != b.len() {
        return false;
    }
    let mut i: usize = 0;
    while i < a.len()
        invariant
            a.len() == b.len(),
            i <= a.len(),
            forall|j: int| 0 <= j < i ==> a@[j].model() == b@[j].model(),
        decreases a.len() - i,
    {
        proof {
            assert(decreases_to!(a => a@[i as int]));
        }
        if !same_type(&a[i], &b[i]) {
            proof {
                lemma_models(a@);
                lemma_models(b@);
                assert(models(a@)[i as int] != models(b@)[i as int]);
            }
            return false;
        }
        i = i + 1;
    }
    proof {
        lemma_models_equal(a@, b@);
    }
    true
}

/// A copy of a type with the same model.
pub fn copy_type(t: &NyarType) -> (r: NyarType)
    ensures
        r.model() == t.model(),
    decreases t,
{
    match t {
        NyarType::Unit => NyarType::Unit,
        NyarType::Boolean => NyarType::Boolean,
        NyarType::Integer8 { signed } => NyarType::Integer8 { signed: *signed },
        NyarType::Integer16 { signed } => NyarType::Integer16 { signed: *signed },
        NyarType::Integer32 { signed } => NyarType::Integer32 { signed: *signed },
        NyarType::Integer64 { signed } => NyarType::Integer64 { signed: *signed },
        NyarType::Utf8 => NyarType::Utf8,
        NyarType::Utf16 => NyarType::Utf16,
        NyarType::Named(name) => NyarType::Named(owned(name.as_str())),
        NyarType::Apply(base, args) => NyarType::Apply(Box::new(copy_type(base)), copy_type_list(args)),
        NyarType::Array(element) => NyarType::Array(Box::new(copy_type(element))),
        NyarType::FixedArray { element, length } => NyarType::FixedArray {
            element: Box::new(copy_type(element)),
            length: *length,
        },
        NyarType::Nullable(inner) => NyarType::Nullable(Box::new(copy_type(inner))),
        NyarType::Union(arms) => NyarType::Union(copy_type_list(arms)),
        NyarType::Tuple(elements) => NyarType::Tuple(copy_type_list(elements)),
        NyarType::TraitObject { trait_path, type_arguments } => NyarType::TraitObject {
            trait_path: owned(trait_path.as_str()),
            type_arguments: copy_type_list(type_arguments),
        },
    }
}

/// A copy of a type list with the same models.
pub fn copy_type_list(v: &Vec<NyarType>) -> (r: Vec<NyarType>)
    ensures
        models(r@) == models(v@),
        r@.len() == v@.len(),
    decreases v,
{
    let mut out: Vec<NyarType> = Vec::new();
    let mut i: usize = 0;
    while i < v.len()
        invariant
            i <= v.len(),
            out@.len() == i,
            forall|j: int| 0 <= j < i ==> #[trigger] out@[j].model() == v@[j].model(),
        decreases v.len() - i,
    {
        proof {
            assert(decreases_to!(v => v@[i as int]));
        }
        out.push(copy_type(&v[i]));
        i = i + 1;
    }
    proof {
        lemma_models_equal(out@, v@);
    }
    out
}

} // verus!
