//! The data model: the abstract syntax tree a successful parse produces,
//! and the ghost model types the contracts speak of.
//!
//! Exec values mirror the source text (`String`, `Vec`); each has a ghost
//! model over `Seq`, `Map` and plain values, computed by the `*_model`
//! spec functions below.  The two floating-point cases hold the IEEE 754
//! bit pattern of the parsed value, as `u32`/`u64`.

use vstd::prelude::*;

verus! {

broadcast use vstd::std_specs::vec::group_vec_axioms;

/// Whether a name is global (`$`) or local (`%`).
#[derive(Clone, Copy, Debug, PartialEq, Eq, Structural)]
pub enum Scope {
    Global,
    Local,
}

/// A name: its scope and its identifier.
pub type Name = (Scope, String);

/// A reference value: a name plus zero or more `%member` path segments.
#[derive(Debug, PartialEq)]
pub struct Ref {
    pub name: Name,
    pub path: Vec<String>,
}

/// The primitive-type keywords, in the order the grammar tries them.
#[derive(Clone, Copy, Debug, PartialEq, Eq, Structural)]
pub enum Ty {
    Bool,
    U8,
    U16,
    U32,
    U64,
    I8,
    I16,
    I32,
    I64,
    F32,
    F64,
    Str,
    Ref,
    Type,
}

/// One scalar. `F32`/`F64` hold the floating-point literal's text,
/// exactly as it stood in the source; converting it to a machine float
/// is the consumer's concern.
#[derive(Debug, PartialEq)]
pub enum PrimitiveValue {
    Bool(bool),
    I8(i8),
    I16(i16),
    I32(i32),
    I64(i64),
    U8(u8),
    U16(u16),
    U32(u32),
    U64(u64),
    F32(String),
    F64(String),
    Str(String),
    Ref(Ref),
    Type(String),
}

/// A type-homogeneous list of scalars.
#[derive(Debug, PartialEq)]
pub enum PrimitiveVector {
    Bool(Vec<bool>),
    I8(Vec<i8>),
    I16(Vec<i16>),
    I32(Vec<i32>),
    I64(Vec<i64>),
    U8(Vec<u8>),
    U16(Vec<u16>),
    U32(Vec<u32>),
    U64(Vec<u64>),
    F32(Vec<String>),
    F64(Vec<String>),
    Str(Vec<String>),
    Ref(Vec<Ref>),
    Type(Vec<String>),
}

/// A list of type-homogeneous rows; row lengths need not agree.
#[derive(Debug, PartialEq)]
pub enum PrimitiveMatrix {
    Bool(Vec<Vec<bool>>),
    I8(Vec<Vec<i8>>),
    I16(Vec<Vec<i16>>),
    I32(Vec<Vec<i32>>),
    I64(Vec<Vec<i64>>),
    U8(Vec<Vec<u8>>),
    U16(Vec<Vec<u16>>),
    U32(Vec<Vec<u32>>),
    U64(Vec<Vec<u64>>),
    F32(Vec<Vec<String>>),
    F64(Vec<Vec<String>>),
    Str(Vec<Vec<String>>),
    Ref(Vec<Vec<Ref>>),
    Type(Vec<Vec<String>>),
}

/// One parsed node: a scalar, a vector, a matrix, or a custom record.
///
/// A custom record's `properties` hold each key once, in the order the
/// keys first appear; where the source repeats a key, the last value
/// wins.
#[derive(Debug, PartialEq)]
pub enum DataItem {
    Primitive { name: Option<Name>, value: PrimitiveValue },
    Vector { name: Option<Name>, vector: PrimitiveVector },
    Matrix { name: Option<Name>, matrix: PrimitiveMatrix },
    Custom {
        name: Option<Name>,
        structure: String,
        properties: Vec<(String, PrimitiveValue)>,
        items: Vec<DataItem>,
    },
}

/// Ghost model of a name.
pub ghost struct NameModel {
    pub scope: Scope,
    pub id: Seq<char>,
}

/// Ghost model of a reference.
pub ghost struct RefModel {
    pub name: NameModel,
    pub path: Seq<Seq<char>>,
}

/// Ghost model of a scalar.
pub ghost enum ValueModel {
    Bool(bool),
    I8(i8),
    I16(i16),
    I32(i32),
    I64(i64),
    U8(u8),
    U16(u16),
    U32(u32),
    U64(u64),
    F32(Seq<char>),
    F64(Seq<char>),
    Str(Seq<char>),
    Ref(RefModel),
    Type(Seq<char>),
}

/// Ghost model of a parsed node.
pub ghost enum ItemModel {
    Primitive { name: Option<NameModel>, value: ValueModel },
    Vector { name: Option<NameModel>, ty: Ty, elems: Seq<ValueModel> },
    Matrix { name: Option<NameModel>, ty: Ty, rows: Seq<Seq<ValueModel>> },
    Custom {
        name: Option<NameModel>,
        structure: Seq<char>,
        properties: Map<Seq<char>, ValueModel>,
        items: Seq<ItemModel>,
    },
}

/// The tag a scalar model carries.
pub open spec fn value_ty(v: ValueModel) -> Ty {
    match v {
        ValueModel::Bool(_) => Ty::Bool,
        ValueModel::I8(_) => Ty::I8,
        ValueModel::I16(_) => Ty::I16,
        ValueModel::I32(_) => Ty::I32,
        ValueModel::I64(_) => Ty::I64,
        ValueModel::U8(_) => Ty::U8,
        ValueModel::U16(_) => Ty::U16,
        ValueModel::U32(_) => Ty::U32,
        ValueModel::U64(_) => Ty::U64,
        ValueModel::F32(_) => Ty::F32,
        ValueModel::F64(_) => Ty::F64,
        ValueModel::Str(_) => Ty::Str,
        ValueModel::Ref(_) => Ty::Ref,
        ValueModel::Type(_) => Ty::Type,
    }
}

pub open spec fn name_model(n: Name) -> NameModel {
    NameModel { scope: n.0, id: n.1@ }
}

pub open spec fn opt_name_model(n: Option<Name>) -> Option<NameModel> {
    match n {
        Some(n) => Some(name_model(n)),
        None => None,
    }
}

pub open spec fn ref_model(r: Ref) -> RefModel {
    RefModel {
        name: name_model(r.name),
        path: r.path@.map_values(|s: String| s@),
    }
}

pub open spec fn value_model(v: PrimitiveValue) -> ValueModel {
    match v {
        PrimitiveValue::Bool(b) => ValueModel::Bool(b),
        PrimitiveValue::I8(x) => ValueModel::I8(x),
        PrimitiveValue::I16(x) => ValueModel::I16(x),
        PrimitiveValue::I32(x) => ValueModel::I32(x),
        PrimitiveValue::I64(x) => ValueModel::I64(x),
        PrimitiveValue::U8(x) => ValueModel::U8(x),
        PrimitiveValue::U16(x) => ValueModel::U16(x),
        PrimitiveValue::U32(x) => ValueModel::U32(x),
        PrimitiveValue::U64(x) => ValueModel::U64(x),
        PrimitiveValue::F32(x) => ValueModel::F32(x@),
        PrimitiveValue::F64(x) => ValueModel::F64(x@),
        PrimitiveValue::Str(s) => ValueModel::Str(s@),
        PrimitiveValue::Ref(r) => ValueModel::Ref(ref_model(r)),
        PrimitiveValue::Type(s) => ValueModel::Type(s@),
    }
}

/// The tag and elements of a vector.
pub open spec fn vector_model(v: PrimitiveVector) -> (Ty, Seq<ValueModel>) {
    match v {
        PrimitiveVector::Bool(xs) => (Ty::Bool, xs@.map_values(|x: bool| ValueModel::Bool(x))),
        PrimitiveVector::I8(xs) => (Ty::I8, xs@.map_values(|x: i8| ValueModel::I8(x))),
        PrimitiveVector::I16(xs) => (Ty::I16, xs@.map_values(|x: i16| ValueModel::I16(x))),
        PrimitiveVector::I32(xs) => (Ty::I32, xs@.map_values(|x: i32| ValueModel::I32(x))),
        PrimitiveVector::I64(xs) => (Ty::I64, xs@.map_values(|x: i64| ValueModel::I64(x))),
        PrimitiveVector::U8(xs) => (Ty::U8, xs@.map_values(|x: u8| ValueModel::U8(x))),
        PrimitiveVector::U16(xs) => (Ty::U16, xs@.map_values(|x: u16| ValueModel::U16(x))),
        PrimitiveVector::U32(xs) => (Ty::U32, xs@.map_values(|x: u32| ValueModel::U32(x))),
        PrimitiveVector::U64(xs) => (Ty::U64, xs@.map_values(|x: u64| ValueModel::U64(x))),
        PrimitiveVector::F32(xs) => (Ty::F32, xs@.map_values(|x: String| ValueModel::F32(x@))),
        PrimitiveVector::F64(xs) => (Ty::F64, xs@.map_values(|x: String| ValueModel::F64(x@))),
        PrimitiveVector::Str(xs) => (Ty::Str, xs@.map_values(|x: String| ValueModel::Str(x@))),
        PrimitiveVector::Ref(xs) => (Ty::Ref, xs@.map_values(|x: Ref| ValueModel::Ref(ref_model(x)))),
        PrimitiveVector::Type(xs) => (Ty::Type, xs@.map_values(|x: String| ValueModel::Type(x@))),
    }
}

/// The tag and rows of a matrix.
pub open spec fn matrix_model(m: PrimitiveMatrix) -> (Ty, Seq<Seq<ValueModel>>) {
    match m {
        PrimitiveMatrix::Bool(xs) => (
            Ty::Bool,
            xs@.map_values(|r: Vec<bool>| r@.map_values(|x: bool| ValueModel::Bool(x))),
        ),
        PrimitiveMatrix::I8(xs) => (
            Ty::I8,
            xs@.map_values(|r: Vec<i8>| r@.map_values(|x: i8| ValueModel::I8(x))),
        ),
        PrimitiveMatrix::I16(xs) => (
            Ty::I16,
            xs@.map_values(|r: Vec<i16>| r@.map_values(|x: i16| ValueModel::I16(x))),
        ),
        PrimitiveMatrix::I32(xs) => (
            Ty::I32,
            xs@.map_values(|r: Vec<i32>| r@.map_values(|x: i32| ValueModel::I32(x))),
        ),
        PrimitiveMatrix::I64(xs) => (
            Ty::I64,
            xs@.map_values(|r: Vec<i64>| r@.map_values(|x: i64| ValueModel::I64(x))),
        ),
        PrimitiveMatrix::U8(xs) => (
            Ty::U8,
            xs@.map_values(|r: Vec<u8>| r@.map_values(|x: u8| ValueModel::U8(x))),
        ),
        PrimitiveMatrix::U16(xs) => (
            Ty::U16,
            xs@.map_values(|r: Vec<u16>| r@.map_values(|x: u16| ValueModel::U16(x))),
        ),
        PrimitiveMatrix::U32(xs) => (
            Ty::U32,
            xs@.map_values(|r: Vec<u32>| r@.map_values(|x: u32| ValueModel::U32(x))),
        ),
        PrimitiveMatrix::U64(xs) => (
            Ty::U64,
            xs@.map_values(|r: Vec<u64>| r@.map_values(|x: u64| ValueModel::U64(x))),
        ),
        PrimitiveMatrix::F32(xs) => (
            Ty::F32,
            xs@.map_values(|r: Vec<String>| r@.map_values(|x: String| ValueModel::F32(x@))),
        ),
        PrimitiveMatrix::F64(xs) => (
            Ty::F64,
            xs@.map_values(|r: Vec<String>| r@.map_values(|x: String| ValueModel::F64(x@))),
        ),
        PrimitiveMatrix::Str(xs) => (
            Ty::Str,
            xs@.map_values(|r: Vec<String>| r@.map_values(|x: String| ValueModel::Str(x@))),
        ),
        PrimitiveMatrix::Ref(xs) => (
            Ty::Ref,
            xs@.map_values(|r: Vec<Ref>| r@.map_values(|x: Ref| ValueModel::Ref(ref_model(x)))),
        ),
        PrimitiveMatrix::Type(xs) => (
            Ty::Type,
            xs@.map_values(|r: Vec<String>| r@.map_values(|x: String| ValueModel::Type(x@))),
        ),
    }
}

/// The properties mapping a key/value list denotes: later pairs overwrite
/// earlier ones.
pub open spec fn props_fold(ps: Seq<(Seq<char>, ValueModel)>) -> Map<Seq<char>, ValueModel>
    decreases ps.len(),
{
    if ps.len() == 0 {
        Map::empty()
    } else {
        props_fold(ps.drop_last()).insert(ps.last().0, ps.last().1)
    }
}

/// The model pairs of an exec key/value list.
pub open spec fn pairs_model(ps: Seq<(String, PrimitiveValue)>) -> Seq<(Seq<char>, ValueModel)> {
    ps.map_values(|p: (String, PrimitiveValue)| (p.0@, value_model(p.1)))
}

/// The properties mapping of an exec key/value list.
pub open spec fn props_model(ps: Seq<(String, PrimitiveValue)>) -> Map<Seq<char>, ValueModel> {
    props_fold(pairs_model(ps))
}

/// No two pairs share a key.
pub open spec fn distinct_keys(ps: Seq<(Seq<char>, ValueModel)>) -> bool {
    forall|i: int, j: int| 0 <= i < j < ps.len() ==> ps[i].0 != ps[j].0
}

/// No two entries of an exec key/value list share a key.
pub open spec fn unique_keys(ps: Seq<(String, PrimitiveValue)>) -> bool {
    distinct_keys(pairs_model(ps))
}

/// Overwriting the pair at a key's index folds to inserting at that key.
pub proof fn lemma_props_fold_update(
    ps: Seq<(Seq<char>, ValueModel)>,
    i: int,
    kv: (Seq<char>, ValueModel),
)
    requires
        0 <= i < ps.len(),
        ps[i].0 == kv.0,
        distinct_keys(ps),
    ensures
        props_fold(ps.update(i, kv)) == props_fold(ps).insert(kv.0, kv.1),
    decreases ps.len(),
{
    let u = ps.update(i, kv);
    if i == ps.len() - 1 {
        assert(u.drop_last() =~= ps.drop_last());
        assert(u.last() == kv);
        assert(props_fold(ps.drop_last()).insert(kv.0, kv.1) =~= props_fold(
            ps.drop_last(),
        ).insert(ps.last().0, ps.last().1).insert(kv.0, kv.1));
    } else {
        assert(u.drop_last() =~= ps.drop_last().update(i, kv));
        assert(u.last() == ps.last());
        assert(distinct_keys(ps.drop_last()));
        lemma_props_fold_update(ps.drop_last(), i, kv);
        assert(ps.last().0 != kv.0);
        assert(props_fold(ps.drop_last()).insert(kv.0, kv.1).insert(ps.last().0, ps.last().1)
            =~= props_fold(ps.drop_last()).insert(ps.last().0, ps.last().1).insert(kv.0, kv.1));
    }
}

/// In the mapping a property list denotes, the last occurrence of a key
/// decides its value: earlier values for the same key are discarded.
pub proof fn lemma_last_occurrence_wins(ps: Seq<(Seq<char>, ValueModel)>, i: int)
    requires
        0 <= i < ps.len(),
        forall|j: int| i < j < ps.len() ==> ps[j].0 != ps[i].0,
    ensures
        props_fold(ps).dom().contains(ps[i].0),
        props_fold(ps)[ps[i].0] == ps[i].1,
    decreases ps.len(),
{
    if i < ps.len() - 1 {
        lemma_last_occurrence_wins(ps.drop_last(), i);
    }
}

/// The mapping a property list denotes has exactly the list's keys as
/// its domain, so its size is the number of distinct keys.
pub proof fn lemma_props_dom(ps: Seq<(Seq<char>, ValueModel)>)
    ensures
        props_fold(ps).dom() =~= Set::new(
            |k: Seq<char>| exists|i: int| 0 <= i < ps.len() && ps[i].0 == k,
        ),
    decreases ps.len(),
{
    if ps.len() > 0 {
        lemma_props_dom(ps.drop_last());
        assert forall|k: Seq<char>|
            props_fold(ps).dom().contains(k) implies exists|i: int|
            0 <= i < ps.len() && ps[i].0 == k by {
            if k == ps.last().0 {
                assert(ps[ps.len() - 1].0 == k);
            } else {
                let i = choose|i: int| 0 <= i < ps.drop_last().len() && ps.drop_last()[i].0 == k;
                assert(ps[i].0 == k);
            }
        }
        assert forall|k: Seq<char>|
            (exists|i: int| 0 <= i < ps.len() && ps[i].0 == k) implies props_fold(
            ps,
        ).dom().contains(k) by {
            let i = choose|i: int| 0 <= i < ps.len() && ps[i].0 == k;
            if i < ps.len() - 1 {
                assert(ps.drop_last()[i].0 == k);
            }
        }
    }
}

/// Ghost model of a parsed node.
pub open spec fn item_model(d: DataItem) -> ItemModel
    decreases d,
{
    match d {
        DataItem::Primitive { name, value } => ItemModel::Primitive {
            name: opt_name_model(name),
            value: value_model(value),
        },
        DataItem::Vector { name, vector } => ItemModel::Vector {
            name: opt_name_model(name),
            ty: vector_model(vector).0,
            elems: vector_model(vector).1,
        },
        DataItem::Matrix { name, matrix } => ItemModel::Matrix {
            name: opt_name_model(name),
            ty: matrix_model(matrix).0,
            rows: matrix_model(matrix).1,
        },
        DataItem::Custom { name, structure, properties, items } => ItemModel::Custom {
            name: opt_name_model(name),
            structure: structure@,
            properties: props_model(properties@),
            items: items_model(items@),
        },
    }
}

/// Ghost model of a sequence of parsed nodes.
pub open spec fn items_model(ds: Seq<DataItem>) -> Seq<ItemModel>
    decreases ds,
{
    if ds.len() == 0 {
        Seq::empty()
    } else {
        items_model(ds.drop_last()).push(item_model(ds.last()))
    }
}

/// `items_model` is the element-wise model.
pub broadcast proof fn lemma_items_model(ds: Seq<DataItem>)
    ensures
        #[trigger] items_model(ds).len() == ds.len(),
        forall|i: int| 0 <= i < ds.len() ==> items_model(ds)[i] == item_model(ds[i]),
    decreases ds.len(),
{
    if ds.len() > 0 {
        lemma_items_model(ds.drop_last());
    }
}

/// Homogeneity: a vector's or matrix's tag is fixed and every contained
/// element, in every row, carries that tag; custom records keep the
/// property through every nesting level.
pub open spec fn wf_item(m: ItemModel) -> bool
    decreases m,
{
    match m {
        ItemModel::Primitive { .. } => true,
        ItemModel::Vector { ty, elems, .. } => forall|i: int|
            0 <= i < elems.len() ==> value_ty(#[trigger] elems[i]) == ty,
        ItemModel::Matrix { ty, rows, .. } => forall|i: int, j: int|
            0 <= i < rows.len() && 0 <= j < rows[i].len() ==> value_ty(#[trigger] rows[i][j]) == ty,
        ItemModel::Custom { items, .. } => forall|i: int|
            0 <= i < items.len() ==> wf_item(#[trigger] items[i]),
    }
}

/// A vector's model elements all carry the vector's own tag.
pub proof fn lemma_vector_model_wf(v: PrimitiveVector)
    ensures
        forall|i: int|
            0 <= i < vector_model(v).1.len() ==> value_ty(#[trigger] vector_model(v).1[i])
                == vector_model(v).0,
{
}

/// A matrix's model elements, in every row, all carry the matrix's tag.
pub proof fn lemma_matrix_model_wf(m: PrimitiveMatrix)
    ensures
        forall|i: int, j: int|
            0 <= i < matrix_model(m).1.len() && 0 <= j < matrix_model(m).1[i].len()
                ==> value_ty(#[trigger] matrix_model(m).1[i][j]) == matrix_model(m).0,
{
}

/// No heterogeneous collection exists in the model: the model of every
/// tree of parsed nodes is well-formed.
pub proof fn lemma_item_model_wf(d: DataItem)
    ensures
        wf_item(item_model(d)),
    decreases d,
{
    match d {
        DataItem::Primitive { .. } => {},
        DataItem::Vector { vector, .. } => {
            lemma_vector_model_wf(vector);
        },
        DataItem::Matrix { matrix, .. } => {
            lemma_matrix_model_wf(matrix);
        },
        DataItem::Custom { items, .. } => {
            lemma_items_model(items@);
            assert forall|i: int|
                0 <= i < items_model(items@).len() implies wf_item(
                #[trigger] items_model(items@)[i],
            ) by {
                lemma_item_model_wf(items@[i]);
            }
        },
    }
}

/// The given model with its name replaced.
pub open spec fn with_name(m: ItemModel, n: Option<NameModel>) -> ItemModel {
    match m {
        ItemModel::Primitive { name, value } => ItemModel::Primitive { name: n, value },
        ItemModel::Vector { name, ty, elems } => ItemModel::Vector { name: n, ty, elems },
        ItemModel::Matrix { name, ty, rows } => ItemModel::Matrix { name: n, ty, rows },
        ItemModel::Custom { name, structure, properties, items } => ItemModel::Custom {
            name: n,
            structure,
            properties,
            items,
        },
    }
}

impl DataItem {
    /// Replace the item's optional name; everything else is kept.
    pub fn set_name(&mut self, new_name: Option<Name>)
        ensures
            item_model(*final(self)) == with_name(item_model(*old(self)), opt_name_model(new_name)),
    {
        match self {
            DataItem::Primitive { name, .. } => {
                *name = new_name;
            },
            DataItem::Vector { name, .. } => {
                *name = new_name;
            },
            DataItem::Matrix { name, .. } => {
                *name = new_name;
            },
            DataItem::Custom { name, .. } => {
                *name = new_name;
            },
        }
    }
}

} // verus!
