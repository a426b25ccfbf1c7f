//! Aggregate and nominal sum layout metadata.
use vstd::prelude::*;
use crate::names::Identifier;
use crate::types::{copy_type, NyarType, TypeModel};
use crate::text::owned;

verus! {

/// Whether an aggregate is stored inline or behind a reference.
#[derive(Debug, Clone, Copy, PartialEq, Eq, Structural)]
pub enum StorageKind {
    Value,
    Reference,
}

/// One field of an aggregate layout.
#[derive(Debug)]
pub struct FieldLayout {
    pub name: Identifier,
    pub ty: NyarType,
    pub offset: u64,
    pub size: u64,
    pub align: u64,
}

/// The layout of a named aggregate.
#[derive(Debug)]
pub struct AggregateLayout {
    pub id: u32,
    pub name: Identifier,
    pub namespace: String,
    pub storage: StorageKind,
    pub size: u64,
    pub align: u64,
    pub fields: Vec<FieldLayout>,
}

/// All aggregate layouts of a module.
#[derive(Debug)]
pub struct AggregateLayoutPlan {
    pub layouts: Vec<AggregateLayout>,
}

/// One variant of a nominal sum.
#[derive(Debug)]
pub struct SumVariantLayout {
    pub name: Identifier,
    pub tag: u32,
    pub payload_type: Option<NyarType>,
}

/// The layout of a nominal sum type.
#[derive(Debug)]
pub struct SumTypeLayout {
    pub name: Identifier,
    pub is_unite: bool,
    pub tag_width: u32,
    pub variants: Vec<SumVariantLayout>,
}

/// The mathematical value of a [`SumVariantLayout`].
pub ghost struct SumVariantModel {
    pub name: Seq<char>,
    pub tag: u32,
    pub payload_type: Option<TypeModel>,
}

/// The mathematical value of a [`SumTypeLayout`].
pub ghost struct SumTypeModel {
    pub name: Seq<char>,
    pub is_unite: bool,
    pub tag_width: u32,
    pub variants: Seq<SumVariantModel>,
}

impl SumVariantLayout {
    /// The model of this variant.
    pub open spec fn model(&self) -> SumVariantModel {
        SumVariantModel {
            name: self.name@,
            tag: self.tag,
            payload_type: match self.payload_type {
                Some(t) => Some(t.model()),
                None => None,
            },
        }
    }
}

impl SumTypeLayout {
    /// The model of this sum layout.
    pub open spec fn model(&self) -> SumTypeModel {
        SumTypeModel {
            name: self.name@,
            is_unite: self.is_unite,
            tag_width: self.tag_width,
            variants: self.variants@.map_values(|v: SumVariantLayout| v.model()),
        }
    }
}

/// The models of a sequence of sum layouts.
pub open spec fn sum_models(s: Seq<SumTypeLayout>) -> Seq<SumTypeModel> {
    s.map_values(|l: SumTypeLayout| l.model())
}

/// A copy of a sum layout with the same model.
pub fn copy_sum_layout(layout: &SumTypeLayout) -> (r: SumTypeLayout)
    ensures
        r.model() == layout.model(),
{
    let mut variants: Vec<SumVariantLayout> = Vec::new();
    let mut i: usize = 0;
    while i < layout.variants.len()
        invariant
            i <= layout.variants.len(),
            variants@.len() == i,
            forall|j: int| 0 <= j < i ==> #[trigger] variants@[j].model() == layout.variants@[j].model(),
        decreases layout.variants.len() - i,
    {
        let v = &layout.variants[i];
        let payload_type = match &v.payload_type {
            Some(t) => Some(copy_type(t)),
            None => None,
        };
        variants.push(SumVariantLayout { name: owned(v.name.as_str()), tag: v.tag, payload_type });
        i = i + 1;
    }
    let r = SumTypeLayout {
        name: owned(layout.name.as_str()),
        is_unite: layout.is_unite,
        tag_width: layout.tag_width,
        variants,
    };
    assert(r.model().variants =~= layout.model().variants);
    r
}

// ---------------------------------------------------------------- aggregate layout merging

/// The mathematical value of a [`FieldLayout`].
pub ghost struct FieldModel {
    pub name: Seq<char>,
    pub ty: TypeModel,
    pub offset: u64,
    pub size: u64,
    pub align: u64,
}

/// The mathematical value of an [`AggregateLayout`].
pub ghost struct LayoutModel {
    pub id: u32,
    pub name: Seq<char>,
    pub namespace: Seq<char>,
    pub storage: StorageKind,
    pub size: u64,
    pub align: u64,
    pub fields: Seq<FieldModel>,
}

impl AggregateLayout {
    /// The model of this layout.
    pub open spec fn model(&self) -> LayoutModel {
        LayoutModel {
            id: self.id,
            name: self.name@,
            namespace: self.namespace@,
            storage: self.storage,
            size: self.size,
            align: self.align,
            fields: self.fields@.map_values(
                |f: FieldLayout| FieldModel { name: f.name@, ty: f.ty.model(), offset: f.offset, size: f.size, align: f.align },
            ),
        }
    }
}

/// The models of a sequence of layouts.
pub open spec fn layout_models(s: Seq<AggregateLayout>) -> Seq<LayoutModel> {
    s.map_values(|l: AggregateLayout| l.model())
}

/// The ids of a sequence of layouts.
pub open spec fn layout_ids(s: Seq<LayoutModel>) -> Seq<u32> {
    s.map_values(|l: LayoutModel| l.id)
}

/// `f` is the smallest id that `ids` does not use.
pub open spec fn is_fresh_id(ids: Seq<u32>, f: u32) -> bool {
    !ids.contains(f) && forall|x: u32| x < f ==> ids.contains(x)
}

/// The smallest id that `ids` does not use.
pub open spec fn fresh_id(ids: Seq<u32>) -> u32 {
    choose|f: u32| is_fresh_id(ids, f)
}

/// Index of the first layout named `name`.
pub open spec fn first_layout_named(s: Seq<LayoutModel>, name: Seq<char>) -> Option<int> {
    crate::search::first_index(s, |l: LayoutModel| l.name == name)
}

/// Merging one dependency layout into `prev`: a layout whose name is taken is not added, and its
/// id maps to the id of the layout of that name; otherwise it is appended, under the smallest
/// unused id when its own id is taken (the ids of `prev` never change). Returns the layouts and
/// the id remapping it makes, if any.
pub open spec fn merge_layout(prev: Seq<LayoutModel>, x: LayoutModel) -> (Seq<LayoutModel>, Option<(u32, u32)>) {
    match first_layout_named(prev, x.name) {
        Some(i) => (prev, if prev[i].id != x.id {
            Some((x.id, prev[i].id))
        } else {
            None
        }),
        None => if layout_ids(prev).contains(x.id) {
            let f = fresh_id(layout_ids(prev));
            (prev.push(LayoutModel { id: f, ..x }), Some((x.id, f)))
        } else {
            (prev.push(x), None)
        },
    }
}

/// [`merge_layout`] for each layout of `add` in turn, with the remappings in order.
pub open spec fn merge_layouts(cur: Seq<LayoutModel>, add: Seq<LayoutModel>) -> (Seq<LayoutModel>, Seq<(u32, u32)>)
    decreases add.len(),
{
    if add.len() == 0 {
        (cur, Seq::empty())
    } else {
        let (prev, remap) = merge_layouts(cur, add.drop_last());
        let (next, entry) = merge_layout(prev, add.last());
        (next, match entry {
            Some(e) => remap.push(e),
            None => remap,
        })
    }
}

/// Merging adds at most one layout per dependency layout.
pub proof fn lemma_merge_layouts_len(cur: Seq<LayoutModel>, add: Seq<LayoutModel>)
    ensures
        cur.len() <= merge_layouts(cur, add).0.len() <= cur.len() + add.len(),
        forall|i: int| 0 <= i < cur.len() ==> #[trigger] merge_layouts(cur, add).0[i] == cur[i],
    decreases add.len(),
{
    if add.len() > 0 {
        lemma_merge_layouts_len(cur, add.drop_last());
    }
}

/// A copy of a layout with the same model.
pub fn copy_layout(layout: &AggregateLayout) -> (r: AggregateLayout)
    ensures
        r.model() == layout.model(),
{
    let mut fields: Vec<FieldLayout> = Vec::new();
    let mut i: usize = 0;
    while i < layout.fields.len()
        invariant
            i <= layout.fields.len(),
            fields@.len() == i,
            forall|j: int| 0 <= j < i ==> {
                let a = #[trigger] fields@[j];
                let b = layout.fields@[j];
                a.name@ == b.name@ && a.ty.model() == b.ty.model() && a.offset == b.offset && a.size == b.size
                    && a.align == b.align
            },
        decreases layout.fields.len() - i,
    {
        let f = &layout.fields[i];
        fields.push(FieldLayout { name: owned(f.name.as_str()), ty: copy_type(&f.ty), offset: f.offset, size: f.size, align: f.align });
        i = i + 1;
    }
    let r = AggregateLayout {
        id: layout.id,
        name: owned(layout.name.as_str()),
        namespace: owned(layout.namespace.as_str()),
        storage: layout.storage,
        size: layout.size,
        align: layout.align,
        fields,
    };
    assert(r.model().fields =~= layout.model().fields);
    r
}

/// Whether some layout has id `id`.
fn uses_id(layouts: &Vec<AggregateLayout>, id: u32) -> (r: bool)
    ensures
        r == layout_ids(layout_models(layouts@)).contains(id),
{
    let ghost ids = layout_ids(layout_models(layouts@));
    let mut i: usize = 0;
    while i < layouts.len()
        invariant
            ids == layout_ids(layout_models(layouts@)),
            i <= layouts@.len(),
            forall|j: int| 0 <= j < i ==> ids[j] != id,
        decreases layouts.len() - i,
    {
        if layouts[i].id == id {
            assert(ids[i as int] == id);
            return true;
        }
        i = i + 1;
    }
    false
}

/// A sequence holding every id below `c + 1` has more than `c` elements.
proof fn lemma_covering_ids_len(ids: Seq<u32>, c: u32)
    requires
        forall|x: u32| x <= c ==> ids.contains(x),
    ensures
        ids.len() > c,
{
    let wide = ids.map_values(|x: u32| x as int);
    assert(vstd::set_lib::set_int_range(0, c + 1).subset_of(wide.to_set())) by {
        assert forall|v: int| vstd::set_lib::set_int_range(0, c + 1).contains(v) implies wide.to_set().contains(v) by {
            let x = v as u32;
            assert(ids.contains(x));
            let j = choose|j: int| 0 <= j < ids.len() && ids[j] == x;
            assert(wide[j] == v);
        }
    }
    vstd::set_lib::lemma_int_range(0, c + 1);
    wide.lemma_cardinality_of_set();
    vstd::seq_lib::seq_to_set_is_finite(wide);
    vstd::set_lib::lemma_len_subset(vstd::set_lib::set_int_range(0, c + 1), wide.to_set());
}

/// Two smallest unused ids are the same.
proof fn lemma_fresh_id_unique(ids: Seq<u32>, f: u32)
    requires
        is_fresh_id(ids, f),
    ensures
        fresh_id(ids) == f,
{
    let g = fresh_id(ids);
    assert(is_fresh_id(ids, g));
    if g < f {
        assert(ids.contains(g));
    } else if f < g {
        assert(ids.contains(f));
    }
}

proof fn lemma_fresh_id_from(ids: Seq<u32>, c: u32)
    requires
        ids.len() < u32::MAX,
        c <= ids.len(),
        forall|x: u32| x < c ==> ids.contains(x),
    ensures
        is_fresh_id(ids, fresh_id(ids)),
    decreases ids.len() - c,
{
    if !ids.contains(c) {
        assert(is_fresh_id(ids, c));
    } else {
        assert forall|x: u32| x <= c implies ids.contains(x) by {}
        lemma_covering_ids_len(ids, c);
        lemma_fresh_id_from(ids, (c + 1) as u32);
    }
}

/// When fewer than `u32::MAX` ids are in use, a smallest unused id exists.
pub proof fn lemma_fresh_id_exists(ids: Seq<u32>)
    requires
        ids.len() < u32::MAX,
    ensures
        is_fresh_id(ids, fresh_id(ids)),
{
    lemma_fresh_id_from(ids, 0);
}

/// Merging keeps every layout already present, with its id, and gives every layout of the
/// merged plan a distinct id when the layouts already present had distinct ids: a dependency
/// layout whose id collides is renumbered, and every dependency layout's name is present.
pub proof fn lemma_merge_layouts_ids(cur: Seq<LayoutModel>, add: Seq<LayoutModel>)
    requires
        layout_ids(cur).no_duplicates(),
        cur.len() + add.len() < u32::MAX,
    ensures
        forall|i: int| 0 <= i < cur.len() ==> #[trigger] merge_layouts(cur, add).0[i] == cur[i],
        layout_ids(merge_layouts(cur, add).0).no_duplicates(),
        forall|i: int| 0 <= i < add.len() ==> exists|j: int|
            0 <= j < merge_layouts(cur, add).0.len() && (#[trigger] merge_layouts(cur, add).0[j]).name == (
            #[trigger] add[i]).name,
    decreases add.len(),
{
    lemma_merge_layouts_len(cur, add);
    if add.len() > 0 {
        let rest = add.drop_last();
        let x = add.last();
        lemma_merge_layouts_ids(cur, rest);
        lemma_merge_layouts_len(cur, rest);
        let prev = merge_layouts(cur, rest).0;
        let next = merge_layouts(cur, add).0;
        crate::search::lemma_first_index(prev, |l: LayoutModel| l.name == x.name);
        match first_layout_named(prev, x.name) {
            Some(k) => {
                assert(next == prev);
            },
            None => {
                let ids = layout_ids(prev);
                if ids.contains(x.id) {
                    lemma_fresh_id_exists(ids);
                    let f = fresh_id(ids);
                    assert(next == prev.push(LayoutModel { id: f, ..x }));
                    assert(layout_ids(next) =~= ids.push(f));
                } else {
                    assert(next == prev.push(x));
                    assert(layout_ids(next) =~= ids.push(x.id));
                }
                assert(next[prev.len() as int].name == x.name);
            },
        }
        assert forall|i: int| 0 <= i < add.len() implies exists|j: int|
            0 <= j < next.len() && (#[trigger] next[j]).name == (#[trigger] add[i]).name by {
            if i < rest.len() {
                assert(rest[i] == add[i]);
                let j = choose|j: int| 0 <= j < prev.len() && (#[trigger] prev[j]).name == rest[i].name;
                assert(next[j] == prev[j]);
            } else if let Some(k) = first_layout_named(prev, x.name) {
                assert(next[k].name == x.name);
            } else {
                assert(next[prev.len() as int].name == x.name);
            }
        }
    }
}

/// The smallest id the layouts do not use.
fn smallest_unused_id(layouts: &Vec<AggregateLayout>) -> (r: u32)
    requires
        layouts@.len() < u32::MAX,
    ensures
        r == fresh_id(layout_ids(layout_models(layouts@))),
{
    let ghost ids = layout_ids(layout_models(layouts@));
    let mut c: u32 = 0;
    while uses_id(layouts, c)
        invariant
            ids == layout_ids(layout_models(layouts@)),
            layouts@.len() < u32::MAX,
            ids.len() == layouts@.len(),
            forall|x: u32| x < c ==> ids.contains(x),
            c <= layouts@.len(),
        decreases layouts@.len() - c,
    {
        proof {
            assert forall|x: u32| x <= c implies ids.contains(x) by {}
            lemma_covering_ids_len(ids, c);
        }
        c = c + 1;
    }
    proof {
        lemma_fresh_id_unique(ids, c);
    }
    c
}

/// Merges the layouts of a dependency plan into `into` (see [`merge_layouts`]): a layout whose
/// name is taken is skipped, a layout whose id collides is renumbered to the smallest unused id,
/// and the ids already in `into` are kept. Returns the id remapping, dependency id first.
pub fn merge_aggregate_layout_plan(into: &mut AggregateLayoutPlan, from: &AggregateLayoutPlan) -> (remap: Vec<(u32, u32)>)
    requires
        old(into).layouts@.len() + from.layouts@.len() < u32::MAX,
    ensures
        (layout_models(final(into).layouts@), remap@) == merge_layouts(
            layout_models(old(into).layouts@),
            layout_models(from.layouts@),
        ),
{
    let ghost cur = layout_models(into.layouts@);
    let ghost add = layout_models(from.layouts@);
    let mut remap: Vec<(u32, u32)> = Vec::new();
    let mut i: usize = 0;
    assert(add.take(0) =~= Seq::<LayoutModel>::empty());
    while i < from.layouts.len()
        invariant
            cur == layout_models(old(into).layouts@),
            add == layout_models(from.layouts@),
            i <= from.layouts@.len(),
            old(into).layouts@.len() + from.layouts@.len() < u32::MAX,
            (layout_models(into.layouts@), remap@) == merge_layouts(cur, add.take(i as int)),
            into.layouts@.len() <= old(into).layouts@.len() + i,
        decreases from.layouts.len() - i,
    {
        proof {
            assert(add.take(i + 1).drop_last() =~= add.take(i as int));
        }
        let ghost prev = layout_models(into.layouts@);
        let layout = &from.layouts[i];
        let mut named: Option<usize> = None;
        let mut k: usize = 0;
        while k < into.layouts.len()
            invariant
                prev == layout_models(into.layouts@),
                k <= into.layouts@.len(),
                named matches Some(n) ==> n < k && crate::search::first_index(prev, |l: LayoutModel| l.name == layout.name@) == Some(n as int),
                named is None ==> forall|j: int| 0 <= j < k ==> prev[j].name != layout.name@,
            decreases into.layouts.len() - k,
        {
            if named.is_none() && crate::text::str_equal(into.layouts[k].name.as_str(), layout.name.as_str()) {
                proof {
                    crate::search::lemma_first_index_is(prev, |l: LayoutModel| l.name == layout.name@, k as int);
                }
                named = Some(k);
            }
            k = k + 1;
        }
        match named {
            Some(n) => {
                let existing = into.layouts[n].id;
                if existing != layout.id {
                    remap.push((layout.id, existing));
                }
            },
            None => {
                proof {
                    crate::search::lemma_first_index_none(prev, |l: LayoutModel| l.name == layout.name@);
                }
                let mut copied = copy_layout(layout);
                if uses_id(&into.layouts, layout.id) {
                    let fresh = smallest_unused_id(&into.layouts);
                    remap.push((layout.id, fresh));
                    copied.id = fresh;
                }
                into.layouts.push(copied);
                proof {
                    assert(layout_models(into.layouts@) =~= prev.push(into.layouts@.last().model()));
                }
            },
        }
        i = i + 1;
    }
    assert(add.take(from.layouts@.len() as int) =~= add);
    remap
}

} // verus!
