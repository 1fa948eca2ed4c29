//! The dynamic value codec: writing the closed set of dynamic values into
//! type-tagged containers and reading them back.
//!
//! The mathematical decoder [`decode`] says what value a stored node denotes,
//! or with which failure its reading ends.  Every write ensures that the node
//! it produced decodes to the written value; every read returns exactly the
//! decoder's verdict.  The round trip is the conjunction of the two.

use vstd::prelude::*;

use crate::backend::{AttrV, FileV, MemFile, attr_lookup, child_id, children_unique, has_child};
use crate::container::{ContainerKind, DataContainer};
use crate::errors::{AnnError, AnnResult};
use crate::values::{
    ArrV, ArrayV, CatV, CategoricalArray, DataFrameData, DataType, DenseArray, DynArray, DynData,
    DataV, DynScalar, FrameV, Mapping, ScalarV, clone_copy_vec, clone_string_vec,
    shape_product,
};

verus! {

/// The model of a fallible call that returns a value with a model: the value's
/// model on success, the same failure otherwise.
pub open spec fn model_of<T: View>(r: Result<T, AnnError>) -> Result<T::V, AnnError> {
    match r {
        Ok(v) => Ok(v@),
        Err(e) => Err(e),
    }
}

/// The encoding-type tag each kind of dynamic value is written under.
pub open spec fn encoding_tag(d: DataV) -> Seq<char> {
    match d {
        DataV::Scalar(s) => if s is Str {
            "string"@
        } else {
            "numeric_scalar"@
        },
        DataV::Array(a) => if a is Cat {
            "categorical"@
        } else if a is Str {
            "string-array"@
        } else {
            "array"@
        },
        DataV::Frame(_) => "dataframe"@,
    }
}

/// The codec version every write stamps beside the tag.
pub open spec fn encoding_version() -> Seq<char> {
    "0.2.0"@
}

/// Whether every column of a tabular value is one-dimensional, so that its
/// write runs to completion.
pub open spec fn frame_writes_cleanly(f: FrameV) -> bool {
    forall|j: int| 0 <= j < f.cols.len() ==> (#[trigger] f.cols[j]).1.shape_spec().len() == 1
}

/// Whether a writable value also writes to completion: a tabular value needs
/// every column one-dimensional; everything else always completes.
pub open spec fn data_writes_cleanly(d: DataV) -> bool {
    d is Frame ==> frame_writes_cleanly(d->Frame_0)
}

/// Whether every entry of a mapping writes to completion.
pub open spec fn entries_write_cleanly(es: Seq<(Seq<char>, DataV)>) -> bool {
    forall|j: int| 0 <= j < es.len() ==> data_writes_cleanly((#[trigger] es[j]).1)
}

/// The declared runtime type of a stored node, read from its `encoding-type`
/// tag; for scalars and arrays the dataset's declared element kind is
/// authoritative.  An untagged node is `NotFound`; an unrecognized tag is
/// `UnsupportedType`; a tag on the wrong node kind is `TypeMismatch`.
pub open spec fn node_data_type(f: FileV, n: int) -> Result<DataType, AnnError> {
    match attr_lookup(f.nodes[n].attrs, "encoding-type"@) {
        Option::None => Err(AnnError::NotFound),
        Option::Some(AttrV::StrArr(_)) => Err(AnnError::TypeMismatch),
        Option::Some(AttrV::Str(t)) => {
            if t == "numeric_scalar"@ || t == "string"@ {
                if f.is_dataset(n) {
                    Ok(DataType::Scalar(f.dataset_of(n).dtype_spec()))
                } else {
                    Err(AnnError::TypeMismatch)
                }
            } else if t == "array"@ || t == "string-array"@ {
                if f.is_dataset(n) {
                    Ok(DataType::Array(f.dataset_of(n).dtype_spec()))
                } else {
                    Err(AnnError::TypeMismatch)
                }
            } else if t == "categorical"@ {
                Ok(DataType::Categorical)
            } else if t == "dataframe"@ {
                Ok(DataType::DataFrame)
            } else if t == "dict"@ {
                Ok(DataType::Mapping)
            } else {
                Err(AnnError::UnsupportedType)
            }
        },
    }
}

/// The scalar a dataset payload denotes: a zero-dimensional array of one
/// element.  Anything else is `TypeMismatch`.
pub open spec fn scalar_decode(d: ArrayV) -> Result<ScalarV, AnnError> {
    match d {
        ArrayV::I8(a) => if a.shape.len() == 0 && a.data.len() == 1 {
            Ok(ScalarV::I8(a.data[0]))
        } else {
            Err(AnnError::TypeMismatch)
        },
        ArrayV::I16(a) => if a.shape.len() == 0 && a.data.len() == 1 {
            Ok(ScalarV::I16(a.data[0]))
        } else {
            Err(AnnError::TypeMismatch)
        },
        ArrayV::I32(a) => if a.shape.len() == 0 && a.data.len() == 1 {
            Ok(ScalarV::I32(a.data[0]))
        } else {
            Err(AnnError::TypeMismatch)
        },
        ArrayV::I64(a) => if a.shape.len() == 0 && a.data.len() == 1 {
            Ok(ScalarV::I64(a.data[0]))
        } else {
            Err(AnnError::TypeMismatch)
        },
        ArrayV::U8(a) => if a.shape.len() == 0 && a.data.len() == 1 {
            Ok(ScalarV::U8(a.data[0]))
        } else {
            Err(AnnError::TypeMismatch)
        },
        ArrayV::U16(a) => if a.shape.len() == 0 && a.data.len() == 1 {
            Ok(ScalarV::U16(a.data[0]))
        } else {
            Err(AnnError::TypeMismatch)
        },
        ArrayV::U32(a) => if a.shape.len() == 0 && a.data.len() == 1 {
            Ok(ScalarV::U32(a.data[0]))
        } else {
            Err(AnnError::TypeMismatch)
        },
        ArrayV::U64(a) => if a.shape.len() == 0 && a.data.len() == 1 {
            Ok(ScalarV::U64(a.data[0]))
        } else {
            Err(AnnError::TypeMismatch)
        },
        ArrayV::F32(a) => if a.shape.len() == 0 && a.data.len() == 1 {
            Ok(ScalarV::F32(a.data[0]))
        } else {
            Err(AnnError::TypeMismatch)
        },
        ArrayV::F64(a) => if a.shape.len() == 0 && a.data.len() == 1 {
            Ok(ScalarV::F64(a.data[0]))
        } else {
            Err(AnnError::TypeMismatch)
        },
        ArrayV::Bool(a) => if a.shape.len() == 0 && a.data.len() == 1 {
            Ok(ScalarV::Bool(a.data[0]))
        } else {
            Err(AnnError::TypeMismatch)
        },
        ArrayV::Str(a) => if a.shape.len() == 0 && a.data.len() == 1 {
            Ok(ScalarV::Str(a.data[0]))
        } else {
            Err(AnnError::TypeMismatch)
        },
        ArrayV::Cat(_) => Err(AnnError::TypeMismatch),
    }
}

/// The dataset payload that persists a scalar: a zero-dimensional array of
/// one element.
pub open spec fn scalar_payload(s: ScalarV) -> ArrayV {
    match s {
        ScalarV::I8(v) => ArrayV::I8(ArrV { shape: Seq::empty(), data: seq![v] }),
        ScalarV::I16(v) => ArrayV::I16(ArrV { shape: Seq::empty(), data: seq![v] }),
        ScalarV::I32(v) => ArrayV::I32(ArrV { shape: Seq::empty(), data: seq![v] }),
        ScalarV::I64(v) => ArrayV::I64(ArrV { shape: Seq::empty(), data: seq![v] }),
        ScalarV::U8(v) => ArrayV::U8(ArrV { shape: Seq::empty(), data: seq![v] }),
        ScalarV::U16(v) => ArrayV::U16(ArrV { shape: Seq::empty(), data: seq![v] }),
        ScalarV::U32(v) => ArrayV::U32(ArrV { shape: Seq::empty(), data: seq![v] }),
        ScalarV::U64(v) => ArrayV::U64(ArrV { shape: Seq::empty(), data: seq![v] }),
        ScalarV::F32(v) => ArrayV::F32(ArrV { shape: Seq::empty(), data: seq![v] }),
        ScalarV::F64(v) => ArrayV::F64(ArrV { shape: Seq::empty(), data: seq![v] }),
        ScalarV::Bool(v) => ArrayV::Bool(ArrV { shape: Seq::empty(), data: seq![v] }),
        ScalarV::Str(v) => ArrayV::Str(ArrV { shape: Seq::empty(), data: seq![v] }),
    }
}

/// A scalar's payload decodes back to the scalar, and is a well-formed plain
/// array.
pub proof fn lemma_scalar_payload_round_trip(s: ScalarV)
    ensures
        scalar_decode(scalar_payload(s)) == Ok::<ScalarV, AnnError>(s),
        scalar_payload(s).wf(),
        !scalar_payload(s).is_categorical(),
        scalar_payload(s).dtype_spec() == s.dtype_spec(),
{
    assert(shape_product(Seq::<usize>::empty()) == 1);
}

/// The categorical array a tagged group denotes: a one-dimensional dataset of
/// unsigned codes under `codes`, a one-dimensional string dataset under
/// `categories`, every code below the category count.
pub open spec fn cat_decode(f: FileV, n: int) -> Result<CatV, AnnError> {
    if !f.is_group(n) {
        Err(AnnError::TypeMismatch)
    } else {
        let ch = f.child_seq(n);
        if !has_child(ch, "codes"@) {
            Err(AnnError::NotFound)
        } else if !f.is_dataset(child_id(ch, "codes"@) as int) {
            Err(AnnError::TypeMismatch)
        } else {
            match f.dataset_of(child_id(ch, "codes"@) as int) {
                ArrayV::U32(codes) => if codes.shape.len() == 1 {
                    if !has_child(ch, "categories"@) {
                        Err(AnnError::NotFound)
                    } else if !f.is_dataset(child_id(ch, "categories"@) as int) {
                        Err(AnnError::TypeMismatch)
                    } else {
                        match f.dataset_of(child_id(ch, "categories"@) as int) {
                            ArrayV::Str(cats) => if cats.shape.len() == 1 {
                                let c = CatV { codes: codes.data, categories: cats.data };
                                if c.wf() {
                                    Ok(c)
                                } else {
                                    Err(AnnError::TypeMismatch)
                                }
                            } else {
                                Err(AnnError::TypeMismatch)
                            },
                            _ => Err(AnnError::TypeMismatch),
                        }
                    }
                } else {
                    Err(AnnError::TypeMismatch)
                },
                _ => Err(AnnError::TypeMismatch),
            }
        }
    }
}

/// The array a column node denotes: a tagged plain dataset or a tagged
/// categorical group.
pub open spec fn column_decode(f: FileV, n: int) -> Result<ArrayV, AnnError> {
    match node_data_type(f, n) {
        Err(e) => Err(e),
        Ok(DataType::Array(_)) => Ok(f.dataset_of(n)),
        Ok(DataType::Categorical) => match cat_decode(f, n) {
            Ok(c) => Ok(ArrayV::Cat(c)),
            Err(e) => Err(e),
        },
        Ok(_) => Err(AnnError::TypeMismatch),
    }
}

/// The columns a tabular group denotes for a given column order, earliest
/// listed column's failure first.
pub open spec fn frame_cols_decode(f: FileV, n: int, names: Seq<Seq<char>>) -> Result<
    Seq<(Seq<char>, ArrayV)>,
    AnnError,
>
    decreases names.len(),
{
    if names.len() == 0 {
        Ok(Seq::empty())
    } else {
        match frame_cols_decode(f, n, names.drop_last()) {
            Err(e) => Err(e),
            Ok(cols) => {
                let nm = names.last();
                if !has_child(f.child_seq(n), nm) {
                    Err(AnnError::NotFound)
                } else {
                    match column_decode(f, child_id(f.child_seq(n), nm) as int) {
                        Err(e) => Err(e),
                        Ok(arr) => Ok(cols.push((nm, arr))),
                    }
                }
            },
        }
    }
}

/// The tabular value a tagged group denotes: the columns its `column-order`
/// attribute lists, in that order.
pub open spec fn frame_decode(f: FileV, n: int) -> Result<FrameV, AnnError> {
    if !f.is_group(n) {
        Err(AnnError::TypeMismatch)
    } else {
        match attr_lookup(f.nodes[n].attrs, "column-order"@) {
            Option::None => Err(AnnError::NotFound),
            Option::Some(AttrV::Str(_)) => Err(AnnError::TypeMismatch),
            Option::Some(AttrV::StrArr(names)) => match frame_cols_decode(f, n, names) {
                Err(e) => Err(e),
                Ok(cols) => Ok(FrameV { cols }),
            },
        }
    }
}

/// What a stored node denotes: the dynamic value it decodes to, or the typed
/// failure its reading ends with.  A node tagged as an unstructured mapping
/// does not denote a single dynamic value.
pub open spec fn decode(f: FileV, n: int) -> Result<DataV, AnnError> {
    match node_data_type(f, n) {
        Err(e) => Err(e),
        Ok(DataType::Scalar(_)) => match scalar_decode(f.dataset_of(n)) {
            Ok(s) => Ok(DataV::Scalar(s)),
            Err(e) => Err(e),
        },
        Ok(DataType::Array(_)) => Ok(DataV::Array(f.dataset_of(n))),
        Ok(DataType::Categorical) => match cat_decode(f, n) {
            Ok(c) => Ok(DataV::Array(ArrayV::Cat(c))),
            Err(e) => Err(e),
        },
        Ok(DataType::DataFrame) => match frame_decode(f, n) {
            Ok(fr) => Ok(DataV::Frame(fr)),
            Err(e) => Err(e),
        },
        Ok(DataType::Mapping) => Err(AnnError::UnsupportedType),
    }
}


/// What every successful write leaves behind: a fresh node linked under the
/// requested group and name, the group's other children and attributes kept,
/// every other pre-existing node untouched, and nothing but fresh nodes
/// reachable from the new one.
pub open spec fn write_effect(
    old_f: FileV,
    new_f: FileV,
    parent: int,
    name: Seq<char>,
    c: DataContainer,
) -> bool {
    &&& new_f.wf()
    &&& c.parent == parent
    &&& c.name@ == name
    &&& c.wf(new_f)
    &&& c.node >= old_f.nodes.len()
    &&& new_f.nodes.len() > old_f.nodes.len()
    &&& new_f.child_seq(parent) == old_f.child_seq(parent).push((name, c.node))
    &&& new_f.nodes[parent].attrs == old_f.nodes[parent].attrs
    &&& forall|m: int|
        0 <= m < old_f.nodes.len() && m != parent ==> new_f.nodes[m] == old_f.nodes[m]
    &&& subtree_above(new_f, c.node as int, old_f.nodes.len() as int)
}

/// The node, everything it links to, and everything those link to lie at or
/// above the given slot: the whole footprint of its decoding is fresh.
pub open spec fn subtree_above(f: FileV, c: int, lo: int) -> bool {
    &&& c >= lo
    &&& (f.nodes[c].body is Group ==> forall|i: int|
        0 <= i < f.child_seq(c).len() ==> column_above(
            f,
            (#[trigger] f.child_seq(c)[i]).1 as int,
            lo,
        ))
}

/// A fresh subtree root is in particular a fresh column.
pub proof fn lemma_subtree_to_column(f: FileV, c: int, lo: int)
    requires
        subtree_above(f, c, lo),
    ensures
        column_above(f, c, lo),
{
    if f.nodes[c].body is Group {
        assert forall|i: int| 0 <= i < f.child_seq(c).len() implies (#[trigger] f.child_seq(
            c,
        )[i]).1 >= lo by {
            assert(column_above(f, f.child_seq(c)[i].1 as int, lo));
        }
    }
}

/// The node and everything it links to lie at or above the given slot.
pub open spec fn column_above(f: FileV, c: int, lo: int) -> bool {
    &&& c >= lo
    &&& (f.nodes[c].body is Group ==> forall|i: int|
        0 <= i < f.child_seq(c).len() ==> (#[trigger] f.child_seq(c)[i]).1 >= lo)
}

/// A node whose whole footprint lies at or above `lo` decodes the same in any
/// file that keeps the nodes at or above `lo` and only grows.
pub proof fn lemma_column_stable(f1: FileV, f2: FileV, c: int, lo: int)
    requires
        f1.wf(),
        f2.wf(),
        f1.in_bounds(c),
        f2.nodes.len() >= f1.nodes.len(),
        forall|m: int| lo <= m < f1.nodes.len() ==> f2.nodes[m] == f1.nodes[m],
        column_above(f1, c, lo),
        0 <= lo,
    ensures
        column_decode(f2, c) == column_decode(f1, c),
        node_data_type(f2, c) == node_data_type(f1, c),
        column_above(f2, c, lo),
        f1.is_dataset(c) ==> f2.dataset_of(c) == f1.dataset_of(c),
{
    assert(f2.nodes[c] == f1.nodes[c]);
    if f1.nodes[c].body is Group {
        let ch = f1.child_seq(c);
        assert(node_wf_holds(f1, c));
        if has_child(ch, "codes"@) {
            let cn = child_id(ch, "codes"@) as int;
            assert(ch[child_pos_of(ch, "codes"@)].1 == cn);
            assert(0 <= cn < f1.nodes.len());
            assert(cn >= lo);
            assert(f2.nodes[cn] == f1.nodes[cn]);
        }
        if has_child(ch, "categories"@) {
            let gn = child_id(ch, "categories"@) as int;
            assert(ch[child_pos_of(ch, "categories"@)].1 == gn);
            assert(0 <= gn < f1.nodes.len());
            assert(gn >= lo);
            assert(f2.nodes[gn] == f1.nodes[gn]);
        }
    }
}

/// The child bound of a well-formed file, spelled out for one group node.
pub open spec fn node_wf_holds(f: FileV, n: int) -> bool {
    crate::backend::node_wf(f.nodes[n], n, f.nodes.len() as int)
}

/// The position a child lookup resolves to.
pub open spec fn child_pos_of(ch: Seq<(Seq<char>, usize)>, name: Seq<char>) -> int {
    crate::backend::child_pos(ch, name)
}

impl DynScalar {
    /// The single-element, zero-dimensional dataset payload that persists
    /// this scalar.
    pub fn to_payload(&self) -> (a: DynArray)
        ensures
            a@ == scalar_payload(self@),
    {
        let a = match self {
            DynScalar::I8(v) => DynArray::I8(DenseArray { shape: Vec::new(), data: vec![*v] }),
            DynScalar::I16(v) => DynArray::I16(DenseArray { shape: Vec::new(), data: vec![*v] }),
            DynScalar::I32(v) => DynArray::I32(DenseArray { shape: Vec::new(), data: vec![*v] }),
            DynScalar::I64(v) => DynArray::I64(DenseArray { shape: Vec::new(), data: vec![*v] }),
            DynScalar::U8(v) => DynArray::U8(DenseArray { shape: Vec::new(), data: vec![*v] }),
            DynScalar::U16(v) => DynArray::U16(DenseArray { shape: Vec::new(), data: vec![*v] }),
            DynScalar::U32(v) => DynArray::U32(DenseArray { shape: Vec::new(), data: vec![*v] }),
            DynScalar::U64(v) => DynArray::U64(DenseArray { shape: Vec::new(), data: vec![*v] }),
            DynScalar::F32(v) => DynArray::F32(DenseArray { shape: Vec::new(), data: vec![*v] }),
            DynScalar::F64(v) => DynArray::F64(DenseArray { shape: Vec::new(), data: vec![*v] }),
            DynScalar::Bool(v) => DynArray::Bool(DenseArray { shape: Vec::new(), data: vec![*v] }),
            DynScalar::String(v) => DynArray::String(
                DenseArray { shape: Vec::new(), data: vec![v.clone()] },
            ),
        };
        proof {
            match self {
                DynScalar::String(v) => {
                    assert(a@->Str_0.data =~= seq![v@]);
                    assert(a@->Str_0.shape =~= Seq::<usize>::empty());
                    assert(a@ =~~= scalar_payload(self@));
                },
                _ => {
                    assert(a@ =~~= scalar_payload(self@));
                },
            }
        }
        a
    }
}

/// Stamps a freshly written container with its encoding-type tag and the
/// codec version.
fn tag_container(file: &mut MemFile, c: &DataContainer, tag: &str)
    requires
        old(file)@.wf(),
        c.wf(old(file)@),
    ensures
        final(file)@.wf(),
        c.wf(final(file)@),
        final(file)@.nodes.len() == old(file)@.nodes.len(),
        final(file)@.nodes[c.node as int].body == old(file)@.nodes[c.node as int].body,
        final(file)@.attr(c.node as int, "encoding-type"@) == Some(AttrV::Str(tag@)),
        final(file)@.attr(c.node as int, "encoding-version"@) == Some(
            AttrV::Str(encoding_version()),
        ),
        forall|other: Seq<char>|
            other != "encoding-type"@ && other != "encoding-version"@ ==> final(file)@.attr(
                c.node as int,
                other,
            ) == old(file)@.attr(c.node as int, other),
        forall|m: int|
            0 <= m < old(file)@.nodes.len() && m != c.node ==> final(file)@.nodes[m] == old(
                file,
            )@.nodes[m],
    {
    c.write_str_attr(file, "encoding-type", tag);
    c.write_str_attr(file, "encoding-version", "0.2.0");
    proof {
        reveal_strlit("encoding-type");
        reveal_strlit("encoding-version");
        assert("encoding-type"@.len() != "encoding-version"@.len());
    }
}

/// Writes a tagged scalar as a single-element dataset under the given group
/// and name.  Succeeds exactly when the name is free; the new container then
/// decodes to the written scalar.
pub fn write_scalar(value: &DynScalar, file: &mut MemFile, parent: usize, name: &str) -> (r:
    AnnResult<DataContainer>)
    requires
        old(file)@.wf(),
        old(file)@.is_group(parent as int),
    ensures
        final(file)@.wf(),
        match r {
            Ok(c) => {
                &&& !has_child(old(file)@.child_seq(parent as int), name@)
                &&& write_effect(old(file)@, final(file)@, parent as int, name@, c)
                &&& c.kind == ContainerKind::Dataset
                &&& decode(final(file)@, c.node as int) == Ok::<DataV, AnnError>(
                    DataV::Scalar(value@),
                )
                &&& final(file)@.attr(c.node as int, "encoding-type"@) == Some(
                    AttrV::Str(encoding_tag(DataV::Scalar(value@))),
                )
                &&& final(file)@.attr(c.node as int, "encoding-version"@) == Some(
                    AttrV::Str(encoding_version()),
                )
            },
            Err(e) => {
                &&& e == AnnError::AlreadyExists
                &&& has_child(old(file)@.child_seq(parent as int), name@)
                &&& final(file)@ == old(file)@
            },
        },
{
    let payload = value.to_payload();
    proof {
        lemma_scalar_payload_round_trip(value@);
    }
    let id = match file.create_dataset(parent, name, payload) {
        Ok(id) => id,
        Err(e) => {
            return Err(e);
        },
    };
    let c = DataContainer {
        kind: ContainerKind::Dataset,
        node: id,
        parent,
        name: name.to_owned(),
    };
    proof {
        let ch = file@.child_seq(parent as int);
        crate::backend::lemma_child_pos_unique(ch, name@, ch.len() - 1);
        assert(c.wf(file@));
    }
    let tag: &str = match value {
        DynScalar::String(_) => "string",
        _ => "numeric_scalar",
    };
    tag_container(file, &c, tag);
    proof {
        assert(final(file)@.is_dataset(c.node as int));
        assert(final(file)@.dataset_of(c.node as int) == scalar_payload(value@));
        match value {
            DynScalar::String(_) => {
                assert(node_data_type(final(file)@, c.node as int) == Ok::<DataType, AnnError>(
                    DataType::Scalar(value@.dtype_spec()),
                ));
            },
            _ => {
                assert(node_data_type(final(file)@, c.node as int) == Ok::<DataType, AnnError>(
                    DataType::Scalar(value@.dtype_spec()),
                ));
            },
        }
        let newch = final(file)@.child_seq(parent as int);
        crate::backend::lemma_child_pos_unique(newch, name@, newch.len() - 1);
        assert(write_effect(old(file)@, final(file)@, parent as int, name@, c));
    }
    Ok(c)
}


/// A one-extent shape spans exactly that many elements.
pub proof fn lemma_shape_product_1d(n: usize)
    ensures
        shape_product(seq![n]) == n,
{
    let s = seq![n];
    assert(s.skip(1) =~= Seq::<usize>::empty());
    assert(shape_product(Seq::<usize>::empty()) == 1);
    assert(shape_product(s) == s[0] * shape_product(s.skip(1)));
    assert(s[0] == n);
}

/// Writes a plain (non-categorical) array as a tagged dataset.  Succeeds
/// exactly when the name is free; the new container then decodes to the
/// written array.
pub fn write_plain_array(value: &DynArray, file: &mut MemFile, parent: usize, name: &str) -> (r:
    AnnResult<DataContainer>)
    requires
        old(file)@.wf(),
        old(file)@.is_group(parent as int),
        value@.wf(),
        !value@.is_categorical(),
    ensures
        final(file)@.wf(),
        match r {
            Ok(c) => {
                &&& !has_child(old(file)@.child_seq(parent as int), name@)
                &&& write_effect(old(file)@, final(file)@, parent as int, name@, c)
                &&& c.kind == ContainerKind::Dataset
                &&& decode(final(file)@, c.node as int) == Ok::<DataV, AnnError>(
                    DataV::Array(value@),
                )
                &&& final(file)@.attr(c.node as int, "encoding-type"@) == Some(
                    AttrV::Str(encoding_tag(DataV::Array(value@))),
                )
                &&& final(file)@.attr(c.node as int, "encoding-version"@) == Some(
                    AttrV::Str(encoding_version()),
                )
            },
            Err(e) => {
                &&& e == AnnError::AlreadyExists
                &&& has_child(old(file)@.child_seq(parent as int), name@)
                &&& final(file)@ == old(file)@
            },
        },
{
    let payload = value.clone();
    let id = match file.create_dataset(parent, name, payload) {
        Ok(id) => id,
        Err(e) => {
            return Err(e);
        },
    };
    let c = DataContainer {
        kind: ContainerKind::Dataset,
        node: id,
        parent,
        name: name.to_owned(),
    };
    proof {
        let ch = file@.child_seq(parent as int);
        crate::backend::lemma_child_pos_unique(ch, name@, ch.len() - 1);
        assert(c.wf(file@));
    }
    let tag: &str = match value {
        DynArray::String(_) => "string-array",
        _ => "array",
    };
    tag_container(file, &c, tag);
    proof {
        assert(final(file)@.is_dataset(c.node as int));
        assert(final(file)@.dataset_of(c.node as int) == value@);
        assert(node_data_type(final(file)@, c.node as int) == Ok::<DataType, AnnError>(
            DataType::Array(value@.dtype_spec()),
        )) by {
            reveal_strlit("numeric_scalar");
            reveal_strlit("string");
            reveal_strlit("array");
            reveal_strlit("string-array");
            assert("numeric_scalar"@.len() == 14);
            assert("string"@.len() == 6);
            assert("array"@.len() == 5);
            assert("string-array"@.len() == 12);
        }
        let newch = final(file)@.child_seq(parent as int);
        crate::backend::lemma_child_pos_unique(newch, name@, newch.len() - 1);
        assert(write_effect(old(file)@, final(file)@, parent as int, name@, c));
    }
    Ok(c)
}

/// Writes a categorical array as a tagged group holding its `codes` and
/// `categories` datasets.  Succeeds exactly when the name is free; the new
/// container then decodes to the written array.
pub fn write_categorical(
    value: &CategoricalArray,
    file: &mut MemFile,
    parent: usize,
    name: &str,
) -> (r: AnnResult<DataContainer>)
    requires
        old(file)@.wf(),
        old(file)@.is_group(parent as int),
        value@.wf(),
    ensures
        final(file)@.wf(),
        match r {
            Ok(c) => {
                &&& !has_child(old(file)@.child_seq(parent as int), name@)
                &&& write_effect(old(file)@, final(file)@, parent as int, name@, c)
                &&& c.kind == ContainerKind::Group
                &&& decode(final(file)@, c.node as int) == Ok::<DataV, AnnError>(
                    DataV::Array(ArrayV::Cat(value@)),
                )
                &&& final(file)@.attr(c.node as int, "encoding-type"@) == Some(
                    AttrV::Str("categorical"@),
                )
                &&& final(file)@.attr(c.node as int, "encoding-version"@) == Some(
                    AttrV::Str(encoding_version()),
                )
            },
            Err(e) => {
                &&& e == AnnError::AlreadyExists
                &&& has_child(old(file)@.child_seq(parent as int), name@)
                &&& final(file)@ == old(file)@
            },
        },
{
    let g = match file.create_group(parent, name) {
        Ok(g) => g,
        Err(e) => {
            return Err(e);
        },
    };
    let c = DataContainer { kind: ContainerKind::Group, node: g, parent, name: name.to_owned() };
    proof {
        let ch = file@.child_seq(parent as int);
        crate::backend::lemma_child_pos_unique(ch, name@, ch.len() - 1);
        assert(c.wf(file@));
    }
    tag_container(file, &c, "categorical");

    let codes = DynArray::U32(
        DenseArray { shape: vec![value.codes.len()], data: clone_copy_vec(&value.codes) },
    );
    proof {
        lemma_shape_product_1d(value.codes@.len() as usize);
        assert(codes@->U32_0.shape =~= seq![value.codes@.len() as usize]);
    }
    let codes_id = match file.create_dataset(g, "codes", codes) {
        Ok(id) => id,
        Err(_) => {
            proof {
                assert(false);
            }
            vstd::pervasive::unreached()
        },
    };
    let cats = DynArray::String(
        DenseArray {
            shape: vec![value.categories.len()],
            data: clone_string_vec(&value.categories),
        },
    );
    proof {
        lemma_shape_product_1d(value.categories@.len() as usize);
        assert(cats@->Str_0.shape =~= seq![value.categories@.len() as usize]);
        assert(cats@.wf());
        reveal_strlit("codes");
        reveal_strlit("categories");
        assert("codes"@.len() != "categories"@.len());
        assert(!has_child(file@.child_seq(g as int), "categories"@)) by {
            let ch = file@.child_seq(g as int);
            if has_child(ch, "categories"@) {
                let i = crate::backend::child_pos(ch, "categories"@);
                assert(ch[i].0 == "categories"@);
            }
        }
    }
    let cats_id = match file.create_dataset(g, "categories", cats) {
        Ok(id) => id,
        Err(_) => {
            proof {
                assert(false);
            }
            vstd::pervasive::unreached()
        },
    };
    proof {
        let f2 = final(file)@;
        let ch = f2.child_seq(g as int);
        assert(ch.len() == 2);
        assert(ch[0] == ("codes"@, codes_id as usize));
        assert(ch[1] == ("categories"@, cats_id as usize));
        crate::backend::lemma_child_pos_unique(ch, "codes"@, 0);
        crate::backend::lemma_child_pos_unique(ch, "categories"@, 1);
        assert(f2.is_dataset(codes_id as int));
        assert(f2.is_dataset(cats_id as int));
        assert(f2.attr(g as int, "encoding-type"@) == Some(AttrV::Str("categorical"@))) by {
            reveal_strlit("encoding-type");
            reveal_strlit("codes");
            reveal_strlit("categories");
            assert("encoding-type"@.len() != "codes"@.len());
            assert("encoding-type"@.len() != "categories"@.len());
        }
        assert(cat_decode(f2, c.node as int) == Ok::<CatV, AnnError>(value@)) by {
            let decoded = CatV {
                codes: f2.dataset_of(codes_id as int)->U32_0.data,
                categories: f2.dataset_of(cats_id as int)->Str_0.data,
            };
            assert(decoded =~~= value@);
        }
        assert(node_data_type(f2, c.node as int) == Ok::<DataType, AnnError>(
            DataType::Categorical,
        )) by {
            reveal_strlit("categorical");
            reveal_strlit("numeric_scalar");
            reveal_strlit("string");
            reveal_strlit("array");
            reveal_strlit("string-array");
            assert("categorical"@.len() == 11);
            assert("numeric_scalar"@.len() == 14);
            assert("string"@.len() == 6);
            assert("array"@.len() == 5);
            assert("string-array"@.len() == 12);
        }
        assert(decode(f2, c.node as int) == Ok::<DataV, AnnError>(
            DataV::Array(ArrayV::Cat(value@)),
        ));
        let newch = f2.child_seq(parent as int);
        crate::backend::lemma_child_pos_unique(newch, name@, newch.len() - 1);
        assert(write_effect(old(file)@, f2, parent as int, name@, c));
    }
    Ok(c)
}

/// Writes a dynamic array under the given group and name: a plain array as a
/// tagged dataset, a categorical array as a tagged group.  Succeeds exactly
/// when the name is free; the new container then decodes to the written
/// array.
pub fn write_array(value: &DynArray, file: &mut MemFile, parent: usize, name: &str) -> (r:
    AnnResult<DataContainer>)
    requires
        old(file)@.wf(),
        old(file)@.is_group(parent as int),
        value@.wf(),
    ensures
        final(file)@.wf(),
        match r {
            Ok(c) => {
                &&& !has_child(old(file)@.child_seq(parent as int), name@)
                &&& write_effect(old(file)@, final(file)@, parent as int, name@, c)
                &&& decode(final(file)@, c.node as int) == Ok::<DataV, AnnError>(
                    DataV::Array(value@),
                )
                &&& final(file)@.attr(c.node as int, "encoding-type"@) == Some(
                    AttrV::Str(encoding_tag(DataV::Array(value@))),
                )
                &&& final(file)@.attr(c.node as int, "encoding-version"@) == Some(
                    AttrV::Str(encoding_version()),
                )
            },
            Err(e) => {
                &&& e == AnnError::AlreadyExists
                &&& has_child(old(file)@.child_seq(parent as int), name@)
                &&& final(file)@ == old(file)@
            },
        },
{
    match value {
        DynArray::Categorical(cat) => match write_categorical(cat, file, parent, name) {
            Ok(c) => Ok(c),
            Err(e) => Err(e),
        },
        _ => write_plain_array(value, file, parent, name),
    }
}

/// Reads a node's declared runtime type from its encoding tag.
pub fn container_data_type(file: &MemFile, n: usize) -> (r: AnnResult<DataType>)
    requires
        file@.wf(),
        file@.in_bounds(n as int),
    ensures
        r == node_data_type(file@, n as int),
{
    let tag = match file.read_str_attr(n, "encoding-type") {
        Ok(t) => t,
        Err(e) => {
            return Err(e);
        },
    };
    if crate::backend::str_eq("numeric_scalar", &tag) || crate::backend::str_eq("string", &tag) {
        match file.dataset_dtype(n) {
            Ok(t) => Ok(DataType::Scalar(t)),
            Err(e) => Err(e),
        }
    } else if crate::backend::str_eq("array", &tag) || crate::backend::str_eq(
        "string-array",
        &tag,
    ) {
        match file.dataset_dtype(n) {
            Ok(t) => Ok(DataType::Array(t)),
            Err(e) => Err(e),
        }
    } else if crate::backend::str_eq("categorical", &tag) {
        Ok(DataType::Categorical)
    } else if crate::backend::str_eq("dataframe", &tag) {
        Ok(DataType::DataFrame)
    } else if crate::backend::str_eq("dict", &tag) {
        Ok(DataType::Mapping)
    } else {
        Err(AnnError::UnsupportedType)
    }
}

/// Narrows a dataset payload to the scalar it persists: a zero-dimensional
/// array of one element.  `TypeMismatch` otherwise.
pub fn payload_to_scalar(a: DynArray) -> (r: AnnResult<DynScalar>)
    ensures
        model_of(r) == scalar_decode(a@),
{
    match a {
        DynArray::I8(mut d) => if d.shape.len() == 0 && d.data.len() == 1 {
            match d.data.pop() {
                Some(v) => Ok(DynScalar::I8(v)),
                None => vstd::pervasive::unreached(),
            }
        } else {
            Err(AnnError::TypeMismatch)
        },
        DynArray::I16(mut d) => if d.shape.len() == 0 && d.data.len() == 1 {
            match d.data.pop() {
                Some(v) => Ok(DynScalar::I16(v)),
                None => vstd::pervasive::unreached(),
            }
        } else {
            Err(AnnError::TypeMismatch)
        },
        DynArray::I32(mut d) => if d.shape.len() == 0 && d.data.len() == 1 {
            match d.data.pop() {
                Some(v) => Ok(DynScalar::I32(v)),
                None => vstd::pervasive::unreached(),
            }
        } else {
            Err(AnnError::TypeMismatch)
        },
        DynArray::I64(mut d) => if d.shape.len() == 0 && d.data.len() == 1 {
            match d.data.pop() {
                Some(v) => Ok(DynScalar::I64(v)),
                None => vstd::pervasive::unreached(),
            }
        } else {
            Err(AnnError::TypeMismatch)
        },
        DynArray::U8(mut d) => if d.shape.len() == 0 && d.data.len() == 1 {
            match d.data.pop() {
                Some(v) => Ok(DynScalar::U8(v)),
                None => vstd::pervasive::unreached(),
            }
        } else {
            Err(AnnError::TypeMismatch)
        },
        DynArray::U16(mut d) => if d.shape.len() == 0 && d.data.len() == 1 {
            match d.data.pop() {
                Some(v) => Ok(DynScalar::U16(v)),
                None => vstd::pervasive::unreached(),
            }
        } else {
            Err(AnnError::TypeMismatch)
        },
        DynArray::U32(mut d) => if d.shape.len() == 0 && d.data.len() == 1 {
            match d.data.pop() {
                Some(v) => Ok(DynScalar::U32(v)),
                None => vstd::pervasive::unreached(),
            }
        } else {
            Err(AnnError::TypeMismatch)
        },
        DynArray::U64(mut d) => if d.shape.len() == 0 && d.data.len() == 1 {
            match d.data.pop() {
                Some(v) => Ok(DynScalar::U64(v)),
                None => vstd::pervasive::unreached(),
            }
        } else {
            Err(AnnError::TypeMismatch)
        },
        DynArray::F32(mut d) => if d.shape.len() == 0 && d.data.len() == 1 {
            match d.data.pop() {
                Some(v) => Ok(DynScalar::F32(v)),
                None => vstd::pervasive::unreached(),
            }
        } else {
            Err(AnnError::TypeMismatch)
        },
        DynArray::F64(mut d) => if d.shape.len() == 0 && d.data.len() == 1 {
            match d.data.pop() {
                Some(v) => Ok(DynScalar::F64(v)),
                None => vstd::pervasive::unreached(),
            }
        } else {
            Err(AnnError::TypeMismatch)
        },
        DynArray::Bool(mut d) => if d.shape.len() == 0 && d.data.len() == 1 {
            match d.data.pop() {
                Some(v) => Ok(DynScalar::Bool(v)),
                None => vstd::pervasive::unreached(),
            }
        } else {
            Err(AnnError::TypeMismatch)
        },
        DynArray::String(mut d) => if d.shape.len() == 0 && d.data.len() == 1 {
            match d.data.pop() {
                Some(v) => {
                    proof {
                        assert(d.data@.map_values(|s: String| s@) =~= Seq::<Seq<char>>::empty().push(
                            v@,
                        ).drop_last());
                    }
                    Ok(DynScalar::String(v))
                },
                None => vstd::pervasive::unreached(),
            }
        } else {
            Err(AnnError::TypeMismatch)
        },
        DynArray::Categorical(_) => Err(AnnError::TypeMismatch),
    }
}

/// Whether every code lies below the bound.
fn all_codes_below(codes: &Vec<u32>, bound: usize) -> (r: bool)
    ensures
        r == forall|i: int| 0 <= i < codes@.len() ==> (#[trigger] codes@[i]) < bound,
{
    let mut i: usize = 0;
    while i < codes.len()
        invariant
            i <= codes@.len(),
            forall|j: int| 0 <= j < i ==> (#[trigger] codes@[j]) < bound,
        decreases codes@.len() - i,
    {
        if (codes[i] as usize) >= bound {
            return false;
        }
        i += 1;
    }
    true
}

/// Reads a categorical array from a tagged group: its codes, its category
/// table, and the check that every code indexes the table.
pub fn read_categorical(file: &MemFile, n: usize) -> (r: AnnResult<CategoricalArray>)
    requires
        file@.wf(),
        file@.in_bounds(n as int),
    ensures
        model_of(r) == cat_decode(file@, n as int),
{
    if !file.is_group(n) {
        return Err(AnnError::TypeMismatch);
    }
    let codes_id = match file.get_child(n, "codes") {
        Ok(id) => id,
        Err(_) => {
            return Err(AnnError::NotFound);
        },
    };
    let codes_arr = match file.read_dataset(codes_id) {
        Ok(a) => a,
        Err(e) => {
            return Err(AnnError::TypeMismatch);
        },
    };
    let codes = match codes_arr {
        DynArray::U32(d) => if d.shape.len() == 1 {
            d.data
        } else {
            return Err(AnnError::TypeMismatch);
        },
        _ => {
            return Err(AnnError::TypeMismatch);
        },
    };
    let cats_id = match file.get_child(n, "categories") {
        Ok(id) => id,
        Err(_) => {
            return Err(AnnError::NotFound);
        },
    };
    let cats_arr = match file.read_dataset(cats_id) {
        Ok(a) => a,
        Err(e) => {
            return Err(AnnError::TypeMismatch);
        },
    };
    let categories = match cats_arr {
        DynArray::String(d) => if d.shape.len() == 1 {
            d.data
        } else {
            return Err(AnnError::TypeMismatch);
        },
        _ => {
            return Err(AnnError::TypeMismatch);
        },
    };
    let ghost ch = file@.child_seq(n as int);
    let ghost cdat = file@.dataset_of(child_id(ch, "codes"@) as int)->U32_0.data;
    let ghost gdat = file@.dataset_of(child_id(ch, "categories"@) as int)->Str_0.data;
    let ghost cw = CatV { codes: cdat, categories: gdat };
    proof {
        assert(codes@ == cdat);
        assert(categories@.map_values(|s: String| s@) == gdat);
        assert(categories@.len() == gdat.len());
    }
    let bound = categories.len();
    if !all_codes_below(&codes, bound) {
        proof {
            assert(!cw.wf()) by {
                if cw.wf() {
                    assert forall|i: int| 0 <= i < codes@.len() implies (#[trigger] codes@[i])
                        < bound by {
                        assert(cw.codes[i] < cw.categories.len());
                    }
                    assert(false);
                }
            }
        }
        return Err(AnnError::TypeMismatch);
    }
    let r = CategoricalArray { codes, categories };
    proof {
        assert(cw.wf()) by {
            assert forall|i: int| 0 <= i < cw.codes.len() implies (#[trigger] cw.codes[i])
                < cw.categories.len() by {
                assert(codes@[i] < bound);
            }
        }
        assert(r@ =~~= cw);
        assert(cat_decode(file@, n as int) == Ok::<CatV, AnnError>(cw));
    }
    Ok(r)
}


/// A node that decodes to an array denotes that array as a column.
pub proof fn lemma_decode_to_column(f: FileV, n: int, v: ArrayV)
    requires
        decode(f, n) == Ok::<DataV, AnnError>(DataV::Array(v)),
    ensures
        column_decode(f, n) == Ok::<ArrayV, AnnError>(v),
{
}

impl FrameV {
    /// What a tabular value needs before it can be persisted: distinct column
    /// names and well-formed column arrays.
    pub open spec fn writable(self) -> bool {
        &&& forall|i: int, j: int|
            0 <= i < j < self.cols.len() ==> (#[trigger] self.cols[i]).0 != (
            #[trigger] self.cols[j]).0
        &&& forall|i: int| 0 <= i < self.cols.len() ==> (#[trigger] self.cols[i]).1.wf()
    }
}

/// A failing decode of a column prefix decides the whole column list.
pub proof fn lemma_frame_cols_err_prefix(f: FileV, n: int, names: Seq<Seq<char>>, k: int)
    requires
        0 <= k <= names.len(),
        frame_cols_decode(f, n, names.take(k)) is Err,
    ensures
        frame_cols_decode(f, n, names) == frame_cols_decode(f, n, names.take(k)),
    decreases names.len() - k,
{
    if k == names.len() {
        assert(names.take(k) =~= names);
    } else {
        assert(names.take(k + 1).drop_last() =~= names.take(k));
        assert(names.take(k + 1).last() == names[k]);
        lemma_frame_cols_err_prefix(f, n, names, k + 1);
    }
}

/// A group whose children carry the named, decodable columns decodes them in
/// order.
pub proof fn lemma_frame_cols_from_parts(
    f: FileV,
    g: int,
    names: Seq<Seq<char>>,
    cols: Seq<(Seq<char>, ArrayV)>,
    k: int,
)
    requires
        0 <= k <= names.len(),
        cols.len() == names.len(),
        forall|j: int| 0 <= j < names.len() ==> (#[trigger] cols[j]).0 == names[j],
        forall|j: int|
            0 <= j < names.len() ==> has_child(f.child_seq(g), #[trigger] names[j])
                && column_decode(f, child_id(f.child_seq(g), names[j]) as int) == Ok::<
                ArrayV,
                AnnError,
            >(cols[j].1),
    ensures
        frame_cols_decode(f, g, names.take(k)) == Ok::<Seq<(Seq<char>, ArrayV)>, AnnError>(
            cols.take(k),
        ),
    decreases k,
{
    if k == 0 {
        assert(names.take(0) =~= Seq::<Seq<char>>::empty());
        assert(cols.take(0) =~= Seq::<(Seq<char>, ArrayV)>::empty());
    } else {
        lemma_frame_cols_from_parts(f, g, names, cols, k - 1);
        assert(names.take(k).drop_last() =~= names.take(k - 1));
        assert(names.take(k).last() == names[k - 1]);
        assert(cols.take(k - 1).push(cols[k - 1]) =~= cols.take(k));
        assert((names[k - 1], cols[k - 1].1) == cols[k - 1]);
    }
}

/// Writes the columns of a tabular value as children of a group, in order.
/// Aborts on the first column that is not one-dimensional, leaving the
/// columns already written in place: tabular writes are not rolled back.
fn write_columns(value: &DataFrameData, file: &mut MemFile, g: usize) -> (r: AnnResult<()>)
    requires
        old(file)@.wf(),
        old(file)@.is_group(g as int),
        value@.writable(),
        forall|j: int|
            0 <= j < value@.cols.len() ==> !has_child(
                old(file)@.child_seq(g as int),
                (#[trigger] value@.cols[j]).0,
            ),
    ensures
        final(file)@.wf(),
        final(file)@.is_group(g as int),
        final(file)@.nodes.len() >= old(file)@.nodes.len(),
        final(file)@.nodes[g as int].attrs == old(file)@.nodes[g as int].attrs,
        forall|m: int|
            0 <= m < old(file)@.nodes.len() && m != g ==> final(file)@.nodes[m] == old(
                file,
            )@.nodes[m],
        match r {
            Ok(()) => {
                &&& forall|j: int|
                    0 <= j < value@.cols.len() ==> (#[trigger] value@.cols[j]).1.shape_spec().len()
                        == 1
                &&& forall|j: int|
                    0 <= j < value@.cols.len() ==> has_child(
                        final(file)@.child_seq(g as int),
                        (#[trigger] value@.cols[j]).0,
                    ) && column_decode(
                        final(file)@,
                        child_id(final(file)@.child_seq(g as int), value@.cols[j].0) as int,
                    ) == Ok::<ArrayV, AnnError>(value@.cols[j].1)
                &&& forall|nm: Seq<char>|
                    has_child(final(file)@.child_seq(g as int), nm) ==> has_child(
                        old(file)@.child_seq(g as int),
                        nm,
                    ) || (exists|j: int|
                        0 <= j < value@.cols.len() && (#[trigger] value@.cols[j]).0 == nm)
                &&& forall|nm: Seq<char>|
                    has_child(old(file)@.child_seq(g as int), nm) ==> has_child(
                        final(file)@.child_seq(g as int),
                        nm,
                    ) && child_id(final(file)@.child_seq(g as int), nm) == child_id(
                        old(file)@.child_seq(g as int),
                        nm,
                    )
                &&& final(file)@.child_seq(g as int).len() == old(file)@.child_seq(
                    g as int,
                ).len() + value@.cols.len()
                &&& forall|k: int|
                    0 <= k < old(file)@.child_seq(g as int).len() ==> final(file)@.child_seq(
                        g as int,
                    )[k] == old(file)@.child_seq(g as int)[k]
                &&& forall|k: int|
                    old(file)@.child_seq(g as int).len() <= k < final(file)@.child_seq(
                        g as int,
                    ).len() ==> (#[trigger] final(file)@.child_seq(g as int)[k]).1 >= old(
                        file,
                    )@.nodes.len() && column_above(
                        final(file)@,
                        final(file)@.child_seq(g as int)[k].1 as int,
                        old(file)@.nodes.len() as int,
                    )
            },
            Err(e) => {
                &&& e == AnnError::UnsupportedType
                &&& !frame_writes_cleanly(value@)
            },
        },
{
    let ghost base = old(file)@;
    let ghost lo = base.nodes.len() as int;
    let ghost och = base.child_seq(g as int);
    let ghost colsv = value@.cols;
    let ghost mut cids: Seq<usize> = Seq::empty();
    let mut i: usize = 0;
    while i < value.columns.len()
        invariant
            file@.wf(),
            file@.is_group(g as int),
            value@.writable(),
            forall|j: int| 0 <= j < colsv.len() ==> !has_child(och, (#[trigger] colsv[j]).0),
            colsv == value@.cols,
            i <= value.columns@.len(),
            colsv.len() == value.columns@.len(),
            cids.len() == i,
            base == old(file)@,
            lo == base.nodes.len(),
            (g as int) < lo,
            base.wf(),
            och == base.child_seq(g as int),
            file@.nodes.len() >= lo,
            file@.nodes[g as int].attrs == base.nodes[g as int].attrs,
            forall|m: int| 0 <= m < lo && m != g ==> file@.nodes[m] == base.nodes[m],
            file@.child_seq(g as int) == och + Seq::new(i as nat, |j: int| (colsv[j].0, cids[j])),
            forall|j: int|
                0 <= j < i ==> column_above(file@, (#[trigger] cids[j]) as int, lo)
                    && column_decode(file@, cids[j] as int) == Ok::<ArrayV, AnnError>(colsv[j].1)
                    && (cids[j] as int) < file@.nodes.len(),
            forall|j: int| 0 <= j < i ==> (#[trigger] colsv[j]).1.shape_spec().len() == 1,
        decreases value.columns@.len() - i,
    {
        let col = &value.columns[i];
        proof {
            assert(colsv[i as int] == (col.0@, col.1@));
            assert(col.1@.wf());
        }
        if col.1.ndim() != 1 {
            proof {
                assert(colsv[i as int].1.shape_spec().len() != 1);
                assert(!frame_writes_cleanly(value@)) by {
                    if frame_writes_cleanly(value@) {
                        assert(value@.cols[i as int].1.shape_spec().len() == 1);
                    }
                }
            }
            return Err(AnnError::UnsupportedType);
        }
        let ghost pre = file@;
        proof {
            assert(!has_child(pre.child_seq(g as int), col.0@)) by {
                let ch = pre.child_seq(g as int);
                if has_child(ch, col.0@) {
                    let p = crate::backend::child_pos(ch, col.0@);
                    assert(ch[p].0 == col.0@);
                    if p < och.len() {
                        assert(och[p].0 == colsv[i as int].0);
                    } else {
                        let j = p - och.len();
                        assert(ch[p] == (colsv[j].0, cids[j]));
                        assert(colsv[j].0 != colsv[i as int].0);
                    }
                }
            }
        }
        let c = match write_array(&col.1, file, g, col.0.as_str()) {
            Ok(c) => c,
            Err(_) => {
                proof {
                    assert(false);
                }
                vstd::pervasive::unreached()
            },
        };
        proof {
            cids = cids.push(c.node);
            assert(file@.child_seq(g as int) =~= och + Seq::new(
                (i + 1) as nat,
                |j: int| (colsv[j].0, cids[j]),
            ));
            assert(column_decode(file@, c.node as int) == Ok::<ArrayV, AnnError>(
                colsv[i as int].1,
            )) by {
                lemma_decode_to_column(file@, c.node as int, colsv[i as int].1);
            }
            assert(column_above(file@, c.node as int, lo)) by {
                assert(column_above(file@, c.node as int, pre.nodes.len() as int));
            }
            assert forall|j: int| 0 <= j < i + 1 implies column_above(
                file@,
                (#[trigger] cids[j]) as int,
                lo,
            ) && column_decode(file@, cids[j] as int) == Ok::<ArrayV, AnnError>(colsv[j].1) && (
            cids[j] as int) < file@.nodes.len() by {
                if j < i {
                    lemma_column_stable(pre, file@, cids[j] as int, lo);
                }
            }
        }
        i += 1;
    }
    proof {
        let fch = file@.child_seq(g as int);
        assert(crate::backend::children_unique(fch));
        assert forall|j: int| 0 <= j < colsv.len() implies has_child(
            fch,
            (#[trigger] colsv[j]).0,
        ) && column_decode(file@, child_id(fch, colsv[j].0) as int) == Ok::<ArrayV, AnnError>(
            colsv[j].1,
        ) by {
            assert(fch[och.len() + j] == (colsv[j].0, cids[j]));
            crate::backend::lemma_child_pos_unique(fch, colsv[j].0, och.len() + j);
        }
        assert forall|nm: Seq<char>| has_child(fch, nm) implies has_child(och, nm) || (exists|
            j: int,
        |
            0 <= j < colsv.len() && (#[trigger] colsv[j]).0 == nm) by {
            let p = crate::backend::child_pos(fch, nm);
            assert(fch[p].0 == nm);
            if p >= och.len() {
                let j = p - och.len();
                assert(fch[p] == (colsv[j].0, cids[j]));
                assert(colsv[j].0 == nm);
            } else {
                assert(och[p].0 == nm);
                assert(has_child(och, nm));
            }
        }
        assert forall|nm: Seq<char>| has_child(och, nm) implies has_child(fch, nm) && child_id(
            fch,
            nm,
        ) == child_id(och, nm) by {
            let p = crate::backend::child_pos(och, nm);
            assert(och[p].0 == nm);
            assert(fch[p] == och[p]);
            crate::backend::lemma_child_pos_unique(fch, nm, p);
        }
    }
    Ok(())
}

/// Writes a tabular value as a tagged group: its `column-order` attribute,
/// then one child per column, in order.  Succeeds exactly when the name is
/// free and every column is one-dimensional; a column of any other rank
/// aborts the write, leaving the columns already written in place.
#[verifier::rlimit(100)]
/// Writes a tabular value as a tagged group: its `column-order` attribute,
/// then one child per column, in order.  A free name gets a fresh group; a
/// name already holding a group is opened and joined (so a row index written
/// there earlier survives), provided no column name collides with an
/// existing child.  A column of rank other than one aborts the write,
/// leaving the columns already written in place.
pub fn write_frame(value: &DataFrameData, file: &mut MemFile, parent: usize, name: &str) -> (r:
    AnnResult<DataContainer>)
    requires
        old(file)@.wf(),
        old(file)@.is_group(parent as int),
        value@.writable(),
    ensures
        final(file)@.wf(),
        final(file)@.nodes.len() >= old(file)@.nodes.len(),
        r matches Ok(c) ==> {
            &&& c.parent == parent
            &&& c.name@ == name@
            &&& c.kind == ContainerKind::Group
            &&& c.wf(final(file)@)
            &&& frame_writes_cleanly(value@)
            &&& decode(final(file)@, c.node as int) == Ok::<DataV, AnnError>(DataV::Frame(value@))
            &&& final(file)@.attr(c.node as int, "encoding-type"@) == Some(
                AttrV::Str("dataframe"@),
            )
            &&& final(file)@.attr(c.node as int, "encoding-version"@) == Some(
                AttrV::Str(encoding_version()),
            )
        },
        ({
            let och = old(file)@.child_seq(parent as int);
            if !has_child(och, name@) {
                &&& forall|m: int|
                    0 <= m < old(file)@.nodes.len() && m != parent ==> final(file)@.nodes[m]
                        == old(file)@.nodes[m]
                &&& (r matches Ok(c) ==> write_effect(
                    old(file)@,
                    final(file)@,
                    parent as int,
                    name@,
                    c,
                ))
                &&& (r matches Err(e) ==> e == AnnError::UnsupportedType && !frame_writes_cleanly(
                    value@,
                ))
                &&& (r is Ok <==> frame_writes_cleanly(value@))
            } else {
                let g0 = child_id(och, name@) as int;
                if !old(file)@.is_group(g0) {
                    (r matches Err(e) && e == AnnError::TypeMismatch) && final(file)@ == old(
                        file,
                    )@
                } else if exists|j: int|
                    0 <= j < value@.cols.len() && has_child(
                        old(file)@.child_seq(g0),
                        (#[trigger] value@.cols[j]).0,
                    ) {
                    (r matches Err(e) && e == AnnError::AlreadyExists) && final(file)@ == old(
                        file,
                    )@
                } else if !frame_writes_cleanly(value@) {
                    r matches Err(e) && e == AnnError::UnsupportedType
                } else {
                    &&& r matches Ok(c) && c.node as int == g0
                    &&& final(file)@.nodes[parent as int] == old(file)@.nodes[parent as int]
                    &&& forall|m: int|
                        0 <= m < old(file)@.nodes.len() && m != g0 ==> final(file)@.nodes[m]
                            == old(file)@.nodes[m]
                    &&& forall|nm: Seq<char>|
                        has_child(old(file)@.child_seq(g0), nm) ==> has_child(
                            final(file)@.child_seq(g0),
                            nm,
                        ) && child_id(final(file)@.child_seq(g0), nm) == child_id(
                            old(file)@.child_seq(g0),
                            nm,
                        )
                }
            }
        }),
{
    let ghost och = old(file)@.child_seq(parent as int);
    let existing = match file.get_child(parent, name) {
        Ok(id) => Some(id),
        Err(_) => None,
    };
    let g = match existing {
        Some(id) => {
            if !file.is_group(id) {
                return Err(AnnError::TypeMismatch);
            }
            let mut i: usize = 0;
            while i < value.columns.len()
                invariant
                    file@ == old(file)@,
                    old(file)@.wf(),
                    old(file)@.is_group(parent as int),
                    och == old(file)@.child_seq(parent as int),
                    has_child(och, name@),
                    child_id(och, name@) == id,
                    old(file)@.is_group(id as int),
                    i <= value.columns@.len(),
                    value.columns@.len() == value@.cols.len(),
                    forall|j: int|
                        0 <= j < i ==> !has_child(
                            old(file)@.child_seq(id as int),
                            (#[trigger] value@.cols[j]).0,
                        ),
                decreases value.columns@.len() - i,
            {
                let col = &value.columns[i];
                proof {
                    assert(value@.cols[i as int].0 == col.0@);
                }
                match file.get_child(id, col.0.as_str()) {
                    Ok(_) => {
                        proof {
                            assert(has_child(
                                old(file)@.child_seq(id as int),
                                value@.cols[i as int].0,
                            ));
                        }
                        return Err(AnnError::AlreadyExists);
                    },
                    Err(_) => {},
                }
                i += 1;
            }
            id
        },
        None => match file.create_group(parent, name) {
            Ok(g) => g,
            Err(_) => {
                proof {
                    assert(false);
                }
                vstd::pervasive::unreached()
            },
        },
    };
    let ghost fresh = !has_child(och, name@);
    let c = DataContainer { kind: ContainerKind::Group, node: g, parent, name: name.to_owned() };
    proof {
        if fresh {
            let ch = file@.child_seq(parent as int);
            crate::backend::lemma_child_pos_unique(ch, name@, ch.len() - 1);
        } else {
            assert(crate::backend::node_wf(
                file@.nodes[parent as int],
                parent as int,
                file@.nodes.len() as int,
            ));
            let p = crate::backend::child_pos(och, name@);
            assert(och[p].1 == g && och[p].1 != parent);
        }
        assert(c.wf(file@));
    }
    let ghost och_g = file@.child_seq(g as int);
    tag_container(file, &c, "dataframe");
    let mut names: Vec<String> = Vec::new();
    let mut i: usize = 0;
    while i < value.columns.len()
        invariant
            i <= value.columns@.len(),
            names@.len() == i,
            forall|j: int| 0 <= j < i ==> (#[trigger] names@[j])@ == value@.cols[j].0,
        decreases value.columns@.len() - i,
    {
        names.push(value.columns[i].0.clone());
        i += 1;
    }
    c.write_str_arr_attr(file, "column-order", &names);
    proof {
        reveal_strlit("encoding-type");
        reveal_strlit("column-order");
        assert("encoding-type"@.len() == 13);
        assert("column-order"@.len() == 12);
        assert(file@.child_seq(g as int) == och_g);
        assert forall|j: int| 0 <= j < value@.cols.len() implies !has_child(
            file@.child_seq(g as int),
            (#[trigger] value@.cols[j]).0,
        ) by {
            if fresh {
                assert(file@.child_seq(g as int).len() == 0);
            }
        }
    }
    let ghost mid = file@;
    match write_columns(value, file, g) {
        Ok(()) => {},
        Err(e) => {
            return Err(e);
        },
    }
    proof {
        let f2 = final(file)@;
        let namesv = names@.map_values(|s: String| s@);
        assert(f2.attr(g as int, "encoding-type"@) == Some(AttrV::Str("dataframe"@)));
        assert(f2.attr(g as int, "encoding-version"@) == Some(AttrV::Str(encoding_version()))) by {
            reveal_strlit("encoding-version");
            reveal_strlit("column-order");
            assert("encoding-version"@.len() == 16);
            assert("column-order"@.len() == 12);
        }
        assert(f2.attr(g as int, "column-order"@) == Some(AttrV::StrArr(namesv)));
        assert(node_data_type(f2, g as int) == Ok::<DataType, AnnError>(DataType::DataFrame)) by {
            reveal_strlit("dataframe");
            reveal_strlit("numeric_scalar");
            reveal_strlit("string");
            reveal_strlit("array");
            reveal_strlit("string-array");
            reveal_strlit("categorical");
            assert("dataframe"@.len() == 9);
            assert("numeric_scalar"@.len() == 14);
            assert("string"@.len() == 6);
            assert("array"@.len() == 5);
            assert("string-array"@.len() == 12);
            assert("categorical"@.len() == 11);
        }
        assert(namesv.len() == value@.cols.len());
        assert forall|j: int| 0 <= j < namesv.len() implies (#[trigger] value@.cols[j]).0
            == namesv[j] by {
            assert(names@[j]@ == value@.cols[j].0);
        }
        lemma_frame_cols_from_parts(f2, g as int, namesv, value@.cols, namesv.len() as int);
        assert(namesv.take(namesv.len() as int) =~= namesv);
        assert(value@.cols.take(namesv.len() as int) =~= value@.cols);
        assert(frame_decode(f2, g as int) == Ok::<FrameV, AnnError>(FrameV { cols: value@.cols }));
        assert(FrameV { cols: value@.cols } =~~= value@);
        if fresh {
            let newch = f2.child_seq(parent as int);
            assert(newch == old(file)@.child_seq(parent as int).push((name@, g as usize)));
            crate::backend::lemma_child_pos_unique(newch, name@, newch.len() - 1);
            assert(column_above(f2, g as int, old(file)@.nodes.len() as int)) by {
                assert(mid.child_seq(g as int).len() == 0);
            }
            assert(write_effect(old(file)@, f2, parent as int, name@, c));
        } else {
            assert(f2.nodes[parent as int] == old(file)@.nodes[parent as int]);
            assert(c.wf(f2)) by {
                let p = crate::backend::child_pos(och, name@);
                assert(och[p].1 == g);
                crate::backend::lemma_child_pos_unique(
                    f2.child_seq(parent as int),
                    name@,
                    p,
                );
            }
        }
    }
    Ok(c)
}

/// Reads the array a column node holds: a tagged plain dataset or a tagged
/// categorical group.
pub fn read_column(file: &MemFile, n: usize) -> (r: AnnResult<DynArray>)
    requires
        file@.wf(),
        file@.in_bounds(n as int),
    ensures
        model_of(r) == column_decode(file@, n as int),
{
    match container_data_type(file, n) {
        Err(e) => Err(e),
        Ok(DataType::Array(_)) => match file.read_dataset(n) {
            Ok(a) => Ok(a),
            Err(_) => vstd::pervasive::unreached(),
        },
        Ok(DataType::Categorical) => match read_categorical(file, n) {
            Ok(c) => Ok(DynArray::Categorical(c)),
            Err(e) => Err(e),
        },
        Ok(_) => Err(AnnError::TypeMismatch),
    }
}

/// Reads a tabular value back from a tagged group: the columns its
/// `column-order` attribute lists, in that order.
pub fn read_frame(file: &MemFile, n: usize) -> (r: AnnResult<DataFrameData>)
    requires
        file@.wf(),
        file@.in_bounds(n as int),
    ensures
        model_of(r) == frame_decode(file@, n as int),
{
    if !file.is_group(n) {
        return Err(AnnError::TypeMismatch);
    }
    let names = match file.read_str_arr_attr(n, "column-order") {
        Ok(v) => v,
        Err(e) => {
            return Err(e);
        },
    };
    let ghost namesv = names@.map_values(|s: String| s@);
    let mut columns: Vec<(String, DynArray)> = Vec::new();
    let mut j: usize = 0;
    proof {
        assert(namesv.take(0) =~= Seq::<Seq<char>>::empty());
        assert(columns@.map_values(|p: (String, DynArray)| (p.0@, p.1@)) =~= Seq::<
            (Seq<char>, ArrayV),
        >::empty());
    }
    while j < names.len()
        invariant
            file@.wf(),
            file@.is_group(n as int),
            file@.attr(n as int, "column-order"@) == Some(AttrV::StrArr(namesv)),
            namesv == names@.map_values(|s: String| s@),
            j <= names@.len(),
            columns@.len() == j,
            frame_cols_decode(file@, n as int, namesv.take(j as int)) == Ok::<
                Seq<(Seq<char>, ArrayV)>,
                AnnError,
            >(columns@.map_values(|p: (String, DynArray)| (p.0@, p.1@))),
        decreases names@.len() - j,
    {
        let ghost prev = columns@.map_values(|p: (String, DynArray)| (p.0@, p.1@));
        proof {
            assert(namesv.take(j as int + 1).drop_last() =~= namesv.take(j as int));
            assert(namesv.take(j as int + 1).last() == namesv[j as int]);
            assert(names@[j as int]@ == namesv[j as int]);
        }
        let cid = match file.get_child(n, names[j].as_str()) {
            Ok(id) => id,
            Err(_) => {
                proof {
                    lemma_frame_cols_err_prefix(file@, n as int, namesv, j as int + 1);
                    assert(namesv.take(namesv.len() as int) =~= namesv);
                }
                return Err(AnnError::NotFound);
            },
        };
        let col = match read_column(file, cid) {
            Ok(a) => a,
            Err(e) => {
                proof {
                    lemma_frame_cols_err_prefix(file@, n as int, namesv, j as int + 1);
                    assert(namesv.take(namesv.len() as int) =~= namesv);
                }
                return Err(e);
            },
        };
        columns.push((names[j].clone(), col));
        j += 1;
        proof {
            assert(columns@.map_values(|p: (String, DynArray)| (p.0@, p.1@)) =~= prev.push(
                (namesv[j as int - 1], columns@[j as int - 1].1@),
            ));
        }
    }
    proof {
        assert(namesv.take(j as int) =~= namesv);
    }
    let r = DataFrameData { columns };
    proof {
        assert(frame_decode(file@, n as int) == Ok::<FrameV, AnnError>(r@));
    }
    Ok(r)
}

/// Column lists decode the same in any file that keeps every node at or above
/// `lo`, when the group's whole footprint lies there.
pub proof fn lemma_frame_cols_stable(f1: FileV, f2: FileV, c: int, names: Seq<Seq<char>>, lo: int)
    requires
        f1.wf(),
        f2.wf(),
        f1.in_bounds(c),
        f2.nodes.len() >= f1.nodes.len(),
        forall|m: int| lo <= m < f1.nodes.len() ==> f2.nodes[m] == f1.nodes[m],
        subtree_above(f1, c, lo),
        0 <= lo,
        f1.nodes[c].body is Group,
    ensures
        frame_cols_decode(f2, c, names) == frame_cols_decode(f1, c, names),
    decreases names.len(),
{
    assert(f2.nodes[c] == f1.nodes[c]);
    if names.len() > 0 {
        lemma_frame_cols_stable(f1, f2, c, names.drop_last(), lo);
        let nm = names.last();
        let ch = f1.child_seq(c);
        if has_child(ch, nm) {
            let p = child_pos_of(ch, nm);
            let id = ch[p].1;
            assert(node_wf_holds(f1, c));
            assert(0 <= id < f1.nodes.len());
            assert(column_above(f1, id as int, lo));
            lemma_column_stable(f1, f2, id as int, lo);
        }
    }
}

/// A node whose whole footprint lies at or above `lo` decodes the same in any
/// file that keeps the nodes at or above `lo` and only grows.
pub proof fn lemma_decode_stable(f1: FileV, f2: FileV, c: int, lo: int)
    requires
        f1.wf(),
        f2.wf(),
        f1.in_bounds(c),
        f2.nodes.len() >= f1.nodes.len(),
        forall|m: int| lo <= m < f1.nodes.len() ==> f2.nodes[m] == f1.nodes[m],
        subtree_above(f1, c, lo),
        0 <= lo,
    ensures
        decode(f2, c) == decode(f1, c),
        subtree_above(f2, c, lo),
    decreases 1int,
{
    assert(f2.nodes[c] == f1.nodes[c]);
    lemma_subtree_to_column(f1, c, lo);
    lemma_column_stable(f1, f2, c, lo);
    assert(subtree_above(f2, c, lo)) by {
        if f2.nodes[c].body is Group {
            assert forall|i: int| 0 <= i < f2.child_seq(c).len() implies column_above(
                f2,
                (#[trigger] f2.child_seq(c)[i]).1 as int,
                lo,
            ) by {
                let id = f1.child_seq(c)[i].1 as int;
                assert(crate::backend::node_wf(f1.nodes[c], c, f1.nodes.len() as int));
                assert(column_above(f1, id, lo));
                lemma_column_stable(f1, f2, id, lo);
            }
        }
    }
    match node_data_type(f1, c) {
        Ok(DataType::DataFrame) => {
            if f1.nodes[c].body is Group {
                match attr_lookup(f1.nodes[c].attrs, "column-order"@) {
                    Option::Some(AttrV::StrArr(names)) => {
                        lemma_frame_cols_stable(f1, f2, c, names, lo);
                    },
                    _ => {},
                }
            }
        },
        _ => {},
    }
}

/// The column names of a tabular value, in order.
fn collect_names(value: &DataFrameData) -> (r: Vec<String>)
    ensures
        r@.len() == value@.cols.len(),
        forall|j: int| 0 <= j < r@.len() ==> (#[trigger] r@[j])@ == value@.cols[j].0,
{
    let mut names: Vec<String> = Vec::new();
    let mut i: usize = 0;
    while i < value.columns.len()
        invariant
            i <= value.columns@.len(),
            names@.len() == i,
            forall|j: int| 0 <= j < i ==> (#[trigger] names@[j])@ == value@.cols[j].0,
        decreases value.columns@.len() - i,
    {
        names.push(value.columns[i].0.clone());
        i += 1;
    }
    names
}

/// Whether some column carries the given name.
fn has_column_named(value: &DataFrameData, name: &String) -> (r: bool)
    ensures
        r == exists|j: int| 0 <= j < value@.cols.len() && (#[trigger] value@.cols[j]).0 == name@,
{
    let mut i: usize = 0;
    while i < value.columns.len()
        invariant
            i <= value.columns@.len(),
            forall|j: int| 0 <= j < i ==> (#[trigger] value@.cols[j]).0 != name@,
        decreases value.columns@.len() - i,
    {
        if value.columns[i].0.eq(name) {
            proof {
                assert(value@.cols[i as int].0 == name@);
            }
            return true;
        }
        i += 1;
    }
    false
}

/// Rewrites a persisted tabular value in place: every child except the one
/// holding the row index is unlinked, then the columns and the
/// `column-order` attribute are written anew.  The row-index child and the
/// `_index` attribute are left untouched.
#[verifier::rlimit(100)]
pub fn overwrite_frame(value: &DataFrameData, file: &mut MemFile, c: &DataContainer) -> (r:
    AnnResult<()>)
    requires
        old(file)@.wf(),
        c.wf(old(file)@),
        value@.writable(),
    ensures
        final(file)@.wf(),
        c.wf(final(file)@),
        forall|m: int|
            0 <= m < old(file)@.nodes.len() && m != c.node ==> final(file)@.nodes[m] == old(
                file,
            )@.nodes[m],
        match old(file)@.attr(c.node as int, "_index"@) {
            Option::None => r == Err::<(), AnnError>(AnnError::NotFound) && final(file)@ == old(
                file,
            )@,
            Option::Some(AttrV::StrArr(_)) => r == Err::<(), AnnError>(AnnError::TypeMismatch)
                && final(file)@ == old(file)@,
            Option::Some(AttrV::Str(ix)) => {
                if !old(file)@.is_group(c.node as int) {
                    r == Err::<(), AnnError>(AnnError::TypeMismatch) && final(file)@ == old(file)@
                } else if exists|j: int|
                    0 <= j < value@.cols.len() && (#[trigger] value@.cols[j]).0 == ix {
                    r == Err::<(), AnnError>(AnnError::AlreadyExists) && final(file)@ == old(
                        file,
                    )@
                } else if exists|j: int|
                    0 <= j < value@.cols.len() && (#[trigger] value@.cols[j]).1.shape_spec().len()
                        != 1 {
                    r == Err::<(), AnnError>(AnnError::UnsupportedType)
                } else {
                    &&& r == Ok::<(), AnnError>(())
                    &&& decode(final(file)@, c.node as int) == Ok::<DataV, AnnError>(
                        DataV::Frame(value@),
                    )
                    &&& final(file)@.attr(c.node as int, "encoding-type"@) == Some(
                        AttrV::Str("dataframe"@),
                    )
                    &&& final(file)@.attr(c.node as int, "encoding-version"@) == Some(
                        AttrV::Str(encoding_version()),
                    )
                    &&& final(file)@.attr(c.node as int, "_index"@) == old(file)@.attr(
                        c.node as int,
                        "_index"@,
                    )
                    &&& (has_child(old(file)@.child_seq(c.node as int), ix) ==> has_child(
                        final(file)@.child_seq(c.node as int),
                        ix,
                    ) && child_id(final(file)@.child_seq(c.node as int), ix) == child_id(
                        old(file)@.child_seq(c.node as int),
                        ix,
                    ))
                    &&& forall|nm: Seq<char>|
                        has_child(final(file)@.child_seq(c.node as int), nm) ==> (nm == ix
                            && has_child(old(file)@.child_seq(c.node as int), ix)) || (exists|
                        j: int,
                        |
                            0 <= j < value@.cols.len() && (#[trigger] value@.cols[j]).0 == nm)
                }
            },
        },
{
    let index_name = match c.read_str_attr(file, "_index") {
        Ok(s) => s,
        Err(e) => {
            return Err(e);
        },
    };
    let g = match c.as_group(file) {
        Ok(g) => g,
        Err(e) => {
            return Err(e);
        },
    };
    if has_column_named(value, &index_name) {
        return Err(AnnError::AlreadyExists);
    }
    let ghost f0 = old(file)@;
    let ghost ix = index_name@;
    file.delete_children_except(g, index_name.as_str());
    let ghost f_del = file@;
    proof {
        assert(c.wf(file@)) by {
            assert(file@.nodes[c.parent as int] == f0.nodes[c.parent as int] || c.parent == c.node);
        }
    }
    let names = collect_names(value);
    let tagc = DataContainer {
        kind: ContainerKind::Group,
        node: g,
        parent: c.parent,
        name: c.name.clone(),
    };
    proof {
        assert(tagc.wf(file@));
    }
    tag_container(file, &tagc, "dataframe");
    let ghost f_tag = file@;
    tagc.write_str_arr_attr(file, "column-order", &names);
    proof {
        reveal_strlit("encoding-type");
        reveal_strlit("encoding-version");
        reveal_strlit("column-order");
        reveal_strlit("_index");
        assert("encoding-type"@.len() == 13);
        assert("encoding-version"@.len() == 16);
        assert("column-order"@.len() == 12);
        assert("_index"@.len() == 6);
        assert(f_del.attr(g as int, "_index"@) == f0.attr(g as int, "_index"@));
        assert(f_tag.attr(g as int, "_index"@) == f_del.attr(g as int, "_index"@));
        assert(file@.attr(g as int, "_index"@) == f_tag.attr(g as int, "_index"@));
        assert forall|j: int| 0 <= j < value@.cols.len() implies !has_child(
            file@.child_seq(g as int),
            (#[trigger] value@.cols[j]).0,
        ) by {
            let ch = file@.child_seq(g as int);
            if has_child(ch, value@.cols[j].0) {
                let p = crate::backend::child_pos(ch, value@.cols[j].0);
                assert(ch[p].0 == ix);
            }
        }
    }
    let ghost mid = file@;
    match write_columns(value, file, g) {
        Ok(()) => {},
        Err(e) => {
            return Err(e);
        },
    }
    proof {
        let f2 = final(file)@;
        let namesv = names@.map_values(|s: String| s@);
        assert(f2.attr(g as int, "encoding-type"@) == Some(AttrV::Str("dataframe"@)));
        assert(f2.attr(g as int, "encoding-version"@) == Some(AttrV::Str(encoding_version()))) by {
            reveal_strlit("encoding-version");
            reveal_strlit("column-order");
            assert("encoding-version"@.len() == 16);
            assert("column-order"@.len() == 12);
        }
        assert(f2.attr(g as int, "column-order"@) == Some(AttrV::StrArr(namesv)));
        assert(f2.nodes[g as int].attrs == mid.nodes[g as int].attrs);
        assert(f2.attr(g as int, "_index"@) == mid.attr(g as int, "_index"@));
        assert(f2.attr(g as int, "_index"@) == f0.attr(g as int, "_index"@));
        if has_child(f0.child_seq(g as int), ix) {
            assert(f_del.child_seq(g as int)[0].0 == ix);
            assert(has_child(f_del.child_seq(g as int), ix));
            assert(mid.child_seq(g as int) == f_del.child_seq(g as int));
            assert(has_child(mid.child_seq(g as int), ix));
        }
        assert(node_data_type(f2, g as int) == Ok::<DataType, AnnError>(DataType::DataFrame)) by {
            reveal_strlit("dataframe");
            reveal_strlit("numeric_scalar");
            reveal_strlit("string");
            reveal_strlit("array");
            reveal_strlit("string-array");
            reveal_strlit("categorical");
            assert("dataframe"@.len() == 9);
            assert("numeric_scalar"@.len() == 14);
            assert("string"@.len() == 6);
            assert("array"@.len() == 5);
            assert("string-array"@.len() == 12);
            assert("categorical"@.len() == 11);
        }
        assert(namesv.len() == value@.cols.len());
        assert forall|j: int| 0 <= j < namesv.len() implies (#[trigger] value@.cols[j]).0
            == namesv[j] by {
            assert(names@[j]@ == value@.cols[j].0);
        }
        lemma_frame_cols_from_parts(f2, g as int, namesv, value@.cols, namesv.len() as int);
        assert(namesv.take(namesv.len() as int) =~= namesv);
        assert(value@.cols.take(namesv.len() as int) =~= value@.cols);
        assert(frame_decode(f2, g as int) == Ok::<FrameV, AnnError>(FrameV { cols: value@.cols }));
        assert(FrameV { cols: value@.cols } =~~= value@);
        assert(c.wf(f2)) by {
            assert(f2.nodes[c.parent as int] == f0.nodes[c.parent as int] || c.parent == c.node);
        }
        assert forall|nm: Seq<char>| has_child(f2.child_seq(c.node as int), nm) implies (nm == ix
            && has_child(f0.child_seq(c.node as int), ix)) || (exists|j: int|
            0 <= j < value@.cols.len() && (#[trigger] value@.cols[j]).0 == nm) by {
            if has_child(mid.child_seq(g as int), nm) {
                let p = crate::backend::child_pos(mid.child_seq(g as int), nm);
                assert(mid.child_seq(g as int)[p].0 == ix);
            }
        }
    }
    Ok(())
}

impl DataV {
    /// What a dynamic value needs before it can be persisted.
    pub open spec fn writable(self) -> bool {
        match self {
            DataV::Scalar(_) => true,
            DataV::Array(a) => a.wf(),
            DataV::Frame(f) => f.writable(),
        }
    }
}

/// Reads back the dynamic value a stored node denotes: exactly the
/// mathematical decoder's verdict.
pub fn read_dyn_data(file: &MemFile, n: usize) -> (r: AnnResult<DynData>)
    requires
        file@.wf(),
        file@.in_bounds(n as int),
    ensures
        model_of(r) == decode(file@, n as int),
{
    match container_data_type(file, n) {
        Err(e) => Err(e),
        Ok(DataType::Scalar(_)) => {
            let a = match file.read_dataset(n) {
                Ok(a) => a,
                Err(_) => vstd::pervasive::unreached(),
            };
            match payload_to_scalar(a) {
                Ok(s) => Ok(DynData::Scalar(s)),
                Err(e) => Err(e),
            }
        },
        Ok(DataType::Array(_)) => {
            let a = match file.read_dataset(n) {
                Ok(a) => a,
                Err(_) => vstd::pervasive::unreached(),
            };
            Ok(DynData::Array(a))
        },
        Ok(DataType::Categorical) => match read_categorical(file, n) {
            Ok(c) => Ok(DynData::Array(DynArray::Categorical(c))),
            Err(e) => Err(e),
        },
        Ok(DataType::DataFrame) => match read_frame(file, n) {
            Ok(f) => Ok(DynData::DataFrame(f)),
            Err(e) => Err(e),
        },
        Ok(DataType::Mapping) => Err(AnnError::UnsupportedType),
    }
}

/// Writes a dynamic value under the given group and name, dispatching on the
/// variant it holds.  Succeeds exactly when the name is free and, for a
/// tabular value, every column is one-dimensional.
pub fn write_dyn_data(value: &DynData, file: &mut MemFile, parent: usize, name: &str) -> (r:
    AnnResult<DataContainer>)
    requires
        old(file)@.wf(),
        old(file)@.is_group(parent as int),
        value@.writable(),
    ensures
        final(file)@.wf(),
        final(file)@.nodes.len() >= old(file)@.nodes.len(),
        forall|m: int|
            0 <= m < old(file)@.nodes.len() && m != parent ==> final(file)@.nodes[m] == old(
                file,
            )@.nodes[m],
        match r {
            Ok(c) => {
                &&& !has_child(old(file)@.child_seq(parent as int), name@)
                &&& write_effect(old(file)@, final(file)@, parent as int, name@, c)
                &&& decode(final(file)@, c.node as int) == Ok::<DataV, AnnError>(value@)
                &&& final(file)@.attr(c.node as int, "encoding-type"@) == Some(
                    AttrV::Str(encoding_tag(value@)),
                )
                &&& final(file)@.attr(c.node as int, "encoding-version"@) == Some(
                    AttrV::Str(encoding_version()),
                )
            },
            Err(e) => {
                &&& (e == AnnError::AlreadyExists || e == AnnError::UnsupportedType)
                &&& (e == AnnError::AlreadyExists <==> has_child(
                    old(file)@.child_seq(parent as int),
                    name@,
                ))
                &&& (e == AnnError::AlreadyExists ==> final(file)@ == old(file)@)
                &&& (e == AnnError::UnsupportedType ==> !data_writes_cleanly(value@))
            },
        },
        r is Ok <==> !has_child(old(file)@.child_seq(parent as int), name@) && data_writes_cleanly(
            value@,
        ),
{
    match value {
        DynData::Scalar(s) => match write_scalar(s, file, parent, name) {
            Ok(c) => Ok(c),
            Err(e) => Err(e),
        },
        DynData::Array(a) => match write_array(a, file, parent, name) {
            Ok(c) => Ok(c),
            Err(e) => Err(e),
        },
        DynData::DataFrame(f) => {
            match file.get_child(parent, name) {
                Ok(_) => {
                    return Err(AnnError::AlreadyExists);
                },
                Err(_) => {},
            }
            match write_frame(f, file, parent, name) {
                Ok(c) => Ok(c),
                Err(e) => Err(e),
            }
        },
    }
}

/// The generic overwrite: resolves the container's parent group and name,
/// unlinks the existing child, and writes the value afresh under the same
/// name.  The replacement hangs at the end of the parent's child list.
pub fn overwrite_dyn_data(value: &DynData, file: &mut MemFile, c: &DataContainer) -> (r: AnnResult<
    DataContainer,
>)
    requires
        old(file)@.wf(),
        c.wf(old(file)@),
        value@.writable(),
    ensures
        final(file)@.wf(),
        final(file)@.nodes.len() >= old(file)@.nodes.len(),
        forall|m: int|
            0 <= m < old(file)@.nodes.len() && m != c.parent ==> final(file)@.nodes[m] == old(
                file,
            )@.nodes[m],
        match r {
            Ok(c2) => {
                &&& c2.parent == c.parent
                &&& c2.name@ == c.name@
                &&& c2.wf(final(file)@)
                &&& c2.node >= old(file)@.nodes.len()
                &&& subtree_above(final(file)@, c2.node as int, old(file)@.nodes.len() as int)
                &&& decode(final(file)@, c2.node as int) == Ok::<DataV, AnnError>(value@)
                &&& final(file)@.attr(c2.node as int, "encoding-type"@) == Some(
                    AttrV::Str(encoding_tag(value@)),
                )
                &&& final(file)@.attr(c2.node as int, "encoding-version"@) == Some(
                    AttrV::Str(encoding_version()),
                )
                &&& final(file)@.child_seq(c.parent as int) == old(file)@.child_seq(
                    c.parent as int,
                ).remove(
                    crate::backend::child_pos(old(file)@.child_seq(c.parent as int), c.name@),
                ).push((c.name@, c2.node))
            },
            Err(e) => {
                &&& e == AnnError::UnsupportedType
                &&& !data_writes_cleanly(value@)
            },
        },
        r is Ok <==> data_writes_cleanly(value@),
{
    match file.delete_child(c.parent, c.name.as_str()) {
        Ok(()) => {},
        Err(_) => {
            proof {
                assert(false);
            }
            vstd::pervasive::unreached()
        },
    }
    match write_dyn_data(value, file, c.parent, c.name.as_str()) {
        Ok(c2) => Ok(c2),
        Err(e) => {
            proof {
                if e == AnnError::AlreadyExists {
                    assert(false);
                }
            }
            Err(e)
        },
    }
}

/// The first `k` entries a tagged mapping group denotes, in child order.
pub open spec fn map_entries_decode(f: FileV, n: int, k: int) -> Result<
    Seq<(Seq<char>, DataV)>,
    AnnError,
>
    decreases k,
{
    if k <= 0 {
        Ok(Seq::empty())
    } else {
        match map_entries_decode(f, n, k - 1) {
            Err(e) => Err(e),
            Ok(es) => {
                let ch = f.child_seq(n);
                match decode(f, ch[k - 1].1 as int) {
                    Err(e) => Err(e),
                    Ok(v) => Ok(es.push((ch[k - 1].0, v))),
                }
            },
        }
    }
}

/// The unstructured mapping a tagged group denotes: one named dynamic value
/// per child, in child order.
pub open spec fn map_decode(f: FileV, n: int) -> Result<Seq<(Seq<char>, DataV)>, AnnError> {
    match node_data_type(f, n) {
        Err(e) => Err(e),
        Ok(DataType::Mapping) => if f.is_group(n) {
            map_entries_decode(f, n, f.child_seq(n).len() as int)
        } else {
            Err(AnnError::TypeMismatch)
        },
        Ok(_) => Err(AnnError::TypeMismatch),
    }
}

/// A failing decode of an entry prefix decides the whole mapping.
pub proof fn lemma_map_entries_err_prefix(f: FileV, n: int, k: int, len: int)
    requires
        0 <= k <= len,
        map_entries_decode(f, n, k) is Err,
    ensures
        map_entries_decode(f, n, len) == map_entries_decode(f, n, k),
    decreases len - k,
{
    if k < len {
        lemma_map_entries_err_prefix(f, n, k + 1, len);
    }
}

/// A group whose children all decode denotes them in order.
pub proof fn lemma_map_entries_from_parts(f: FileV, n: int, vals: Seq<DataV>, k: int)
    requires
        0 <= k <= f.child_seq(n).len(),
        vals.len() == f.child_seq(n).len(),
        forall|j: int|
            0 <= j < f.child_seq(n).len() ==> decode(f, (#[trigger] f.child_seq(n)[j]).1 as int)
                == Ok::<DataV, AnnError>(vals[j]),
    ensures
        map_entries_decode(f, n, k) == Ok::<Seq<(Seq<char>, DataV)>, AnnError>(
            Seq::new(k as nat, |j: int| (f.child_seq(n)[j].0, vals[j])),
        ),
    decreases k,
{
    if k <= 0 {
        assert(Seq::new(0, |j: int| (f.child_seq(n)[j].0, vals[j])) =~= Seq::<
            (Seq<char>, DataV),
        >::empty());
    } else {
        lemma_map_entries_from_parts(f, n, vals, k - 1);
        assert(Seq::new((k - 1) as nat, |j: int| (f.child_seq(n)[j].0, vals[j])).push(
            (f.child_seq(n)[k - 1].0, vals[k - 1]),
        ) =~= Seq::new(k as nat, |j: int| (f.child_seq(n)[j].0, vals[j])));
    }
}

/// Writes an unstructured mapping as a tagged group with one child per
/// entry, in order.  Succeeds exactly when the name is free and every
/// tabular entry has only one-dimensional columns.
#[verifier::rlimit(60)]
pub fn write_mapping(value: &Mapping, file: &mut MemFile, parent: usize, name: &str) -> (r:
    AnnResult<DataContainer>)
    requires
        old(file)@.wf(),
        old(file)@.is_group(parent as int),
        value.writable(),
    ensures
        final(file)@.wf(),
        final(file)@.nodes.len() >= old(file)@.nodes.len(),
        forall|m: int|
            0 <= m < old(file)@.nodes.len() && m != parent ==> final(file)@.nodes[m] == old(
                file,
            )@.nodes[m],
        match r {
            Ok(c) => {
                &&& !has_child(old(file)@.child_seq(parent as int), name@)
                &&& write_effect(old(file)@, final(file)@, parent as int, name@, c)
                &&& c.kind == ContainerKind::Group
                &&& map_decode(final(file)@, c.node as int) == Ok::<
                    Seq<(Seq<char>, DataV)>,
                    AnnError,
                >(value@)
                &&& final(file)@.attr(c.node as int, "encoding-type"@) == Some(AttrV::Str("dict"@))
                &&& final(file)@.attr(c.node as int, "encoding-version"@) == Some(
                    AttrV::Str(encoding_version()),
                )
            },
            Err(e) => {
                &&& (e == AnnError::AlreadyExists || e == AnnError::UnsupportedType)
                &&& (e == AnnError::AlreadyExists <==> has_child(
                    old(file)@.child_seq(parent as int),
                    name@,
                ))
                &&& (e == AnnError::AlreadyExists ==> final(file)@ == old(file)@)
                &&& (e == AnnError::UnsupportedType ==> !entries_write_cleanly(value@))
            },
        },
        r is Ok <==> !has_child(old(file)@.child_seq(parent as int), name@)
            && entries_write_cleanly(value@),
{
    let g = match file.create_group(parent, name) {
        Ok(g) => g,
        Err(e) => {
            return Err(e);
        },
    };
    let c = DataContainer { kind: ContainerKind::Group, node: g, parent, name: name.to_owned() };
    proof {
        let ch = file@.child_seq(parent as int);
        crate::backend::lemma_child_pos_unique(ch, name@, ch.len() - 1);
        assert(c.wf(file@));
    }
    tag_container(file, &c, "dict");
    let ghost base = file@;
    let ghost lo = base.nodes.len() as int;
    let ghost entsv = value@;
    let ghost mut ids: Seq<usize> = Seq::empty();
    let mut i: usize = 0;
    while i < value.0.len()
        invariant
            file@.wf(),
            file@.is_group(g as int),
            value.writable(),
            entsv == value@,
            i <= value.0@.len(),
            entsv.len() == value.0@.len(),
            ids.len() == i,
            base.wf(),
            old(file)@.wf(),
            old(file)@.is_group(parent as int),
            !has_child(old(file)@.child_seq(parent as int), name@),
            g == old(file)@.nodes.len(),
            lo == old(file)@.nodes.len() + 1,
            c.wf(base),
            c.node == g,
            c.parent == parent,
            c.name@ == name@,
            base.child_seq(parent as int) == old(file)@.child_seq(parent as int).push(
                (name@, g as usize),
            ),
            base.nodes[parent as int].attrs == old(file)@.nodes[parent as int].attrs,
            forall|m: int|
                0 <= m < old(file)@.nodes.len() && m != parent ==> base.nodes[m] == old(
                    file,
                )@.nodes[m],
            (g as int) < lo,
            lo == base.nodes.len(),
            file@.nodes.len() >= lo,
            file@.nodes[g as int].attrs == base.nodes[g as int].attrs,
            forall|m: int| 0 <= m < lo && m != g ==> file@.nodes[m] == base.nodes[m],
            file@.child_seq(g as int) == Seq::new(i as nat, |j: int| (entsv[j].0, ids[j])),
            forall|j: int| 0 <= j < i ==> data_writes_cleanly((#[trigger] entsv[j]).1),
            forall|j: int|
                0 <= j < i ==> subtree_above(file@, (#[trigger] ids[j]) as int, lo) && decode(
                    file@,
                    ids[j] as int,
                ) == Ok::<DataV, AnnError>(entsv[j].1) && (ids[j] as int) < file@.nodes.len(),
        decreases value.0@.len() - i,
    {
        let entry = &value.0[i];
        proof {
            assert(entsv[i as int] == (entry.0@, entry.1@));
            assert(entry.1@.writable());
            assert(!has_child(file@.child_seq(g as int), entry.0@)) by {
                let ch = file@.child_seq(g as int);
                if has_child(ch, entry.0@) {
                    let p = crate::backend::child_pos(ch, entry.0@);
                    assert(ch[p] == (entsv[p].0, ids[p]));
                    assert(entsv[p].0 != entsv[i as int].0);
                }
            }
        }
        let ghost pre = file@;
        let c2 = match write_dyn_data(&entry.1, file, g, entry.0.as_str()) {
            Ok(c2) => c2,
            Err(e) => {
                proof {
                    if e == AnnError::AlreadyExists {
                        assert(false);
                    }
                    assert(!entries_write_cleanly(entsv)) by {
                        assert(!data_writes_cleanly(entsv[i as int].1));
                    }
                    assert forall|m: int|
                        0 <= m < old(file)@.nodes.len() && m != parent implies file@.nodes[m]
                        == old(file)@.nodes[m] by {
                        assert(file@.nodes[m] == pre.nodes[m]);
                        assert(pre.nodes[m] == base.nodes[m]);
                        assert(base.nodes[m] == old(file)@.nodes[m]);
                    }
                }
                return Err(e);
            },
        };
        proof {
            ids = ids.push(c2.node);
            assert(data_writes_cleanly(entsv[i as int].1));
            assert(file@.child_seq(g as int) =~= Seq::new(
                (i + 1) as nat,
                |j: int| (entsv[j].0, ids[j]),
            ));
            assert forall|j: int| 0 <= j < i + 1 implies subtree_above(
                file@,
                (#[trigger] ids[j]) as int,
                lo,
            ) && decode(file@, ids[j] as int) == Ok::<DataV, AnnError>(entsv[j].1) && (
            ids[j] as int) < file@.nodes.len() by {
                if j < i {
                    lemma_decode_stable(pre, file@, ids[j] as int, lo);
                } else {
                    assert(subtree_above(file@, c2.node as int, pre.nodes.len() as int));
                }
            }
        }
        i += 1;
    }
    proof {
        let f2 = final(file)@;
        assert(f2.attr(g as int, "encoding-type"@) == Some(AttrV::Str("dict"@)));
        assert(node_data_type(f2, g as int) == Ok::<DataType, AnnError>(DataType::Mapping)) by {
            reveal_strlit("dict");
            reveal_strlit("numeric_scalar");
            reveal_strlit("string");
            reveal_strlit("array");
            reveal_strlit("string-array");
            reveal_strlit("categorical");
            reveal_strlit("dataframe");
            assert("dict"@.len() == 4);
            assert("numeric_scalar"@.len() == 14);
            assert("string"@.len() == 6);
            assert("array"@.len() == 5);
            assert("string-array"@.len() == 12);
            assert("categorical"@.len() == 11);
            assert("dataframe"@.len() == 9);
        }
        let vals = Seq::new(entsv.len(), |j: int| entsv[j].1);
        assert forall|j: int| 0 <= j < f2.child_seq(g as int).len() implies decode(
            f2,
            (#[trigger] f2.child_seq(g as int)[j]).1 as int,
        ) == Ok::<DataV, AnnError>(vals[j]) by {
            assert(f2.child_seq(g as int)[j] == (entsv[j].0, ids[j]));
        }
        lemma_map_entries_from_parts(f2, g as int, vals, f2.child_seq(g as int).len() as int);
        assert(Seq::new(
            f2.child_seq(g as int).len(),
            |j: int| (f2.child_seq(g as int)[j].0, vals[j]),
        ) =~= entsv);
        let newch = f2.child_seq(parent as int);
        crate::backend::lemma_child_pos_unique(newch, name@, newch.len() - 1);
        assert(subtree_above(f2, g as int, old(file)@.nodes.len() as int)) by {
            assert forall|k: int| 0 <= k < f2.child_seq(g as int).len() implies column_above(
                f2,
                (#[trigger] f2.child_seq(g as int)[k]).1 as int,
                old(file)@.nodes.len() as int,
            ) by {
                assert(f2.child_seq(g as int)[k] == (entsv[k].0, ids[k]));
                assert(subtree_above(f2, ids[k] as int, lo));
                lemma_subtree_to_column(f2, ids[k] as int, lo);
            }
        }
        assert(write_effect(old(file)@, f2, parent as int, name@, c));
    }
    Ok(c)
}

/// Reads an unstructured mapping back from a tagged group: one named dynamic
/// value per child, in child order.
#[verifier::rlimit(60)]
pub fn read_mapping(file: &MemFile, n: usize) -> (r: AnnResult<Mapping>)
    requires
        file@.wf(),
        file@.in_bounds(n as int),
    ensures
        model_of(r) == map_decode(file@, n as int),
{
    match container_data_type(file, n) {
        Err(e) => {
            return Err(e);
        },
        Ok(DataType::Mapping) => {},
        Ok(_) => {
            return Err(AnnError::TypeMismatch);
        },
    }
    if !file.is_group(n) {
        return Err(AnnError::TypeMismatch);
    }
    let count = file.child_count(n);
    let mut entries: Vec<(String, DynData)> = Vec::new();
    let mut i: usize = 0;
    proof {
        assert(entries@.map_values(|p: (String, DynData)| (p.0@, p.1@)) =~= Seq::<
            (Seq<char>, DataV),
        >::empty());
    }
    while i < count
        invariant
            file@.wf(),
            file@.is_group(n as int),
            node_data_type(file@, n as int) == Ok::<DataType, AnnError>(DataType::Mapping),
            count == file@.child_seq(n as int).len(),
            i <= count,
            entries@.len() == i,
            map_entries_decode(file@, n as int, i as int) == Ok::<
                Seq<(Seq<char>, DataV)>,
                AnnError,
            >(entries@.map_values(|p: (String, DynData)| (p.0@, p.1@))),
        decreases count - i,
    {
        let ghost prev = entries@.map_values(|p: (String, DynData)| (p.0@, p.1@));
        let (cname, cid) = file.child_at(n, i);
        let v = match read_dyn_data(file, cid) {
            Ok(v) => v,
            Err(e) => {
                proof {
                    lemma_map_entries_err_prefix(file@, n as int, i as int + 1, count as int);
                }
                return Err(e);
            },
        };
        entries.push((cname, v));
        i += 1;
        proof {
            assert(entries@.map_values(|p: (String, DynData)| (p.0@, p.1@)) =~= prev.push(
                (file@.child_seq(n as int)[i as int - 1].0, entries@[i as int - 1].1@),
            ));
        }
    }
    let r = Mapping(entries);
    proof {
        assert(map_decode(file@, n as int) == Ok::<Seq<(Seq<char>, DataV)>, AnnError>(r@));
    }
    Ok(r)
}

/// How a value is persisted into a container.  Every implementation promises
/// that a successful write leaves a well-formed file and a live container;
/// each implementation states exactly what that container decodes to.
pub trait WriteData: Sized {
    /// What the value needs before it can be persisted.
    spec fn writable(&self) -> bool;

    /// Writes the value as a fresh child of a group.
    fn write(&self, file: &mut MemFile, parent: usize, name: &str) -> (r: AnnResult<DataContainer>)
        requires
            old(file)@.wf(),
            old(file)@.is_group(parent as int),
            self.writable(),
        ensures
            final(file)@.wf(),
            r matches Ok(c) ==> c.wf(final(file)@),
    ;

    /// Replaces what a container holds with this value.
    fn overwrite(&self, file: &mut MemFile, container: &DataContainer) -> (r: AnnResult<
        DataContainer,
    >)
        requires
            old(file)@.wf(),
            container.wf(old(file)@),
            self.writable(),
        ensures
            final(file)@.wf(),
            r matches Ok(c) ==> c.wf(final(file)@),
    ;
}

/// How a value of a concrete type is read back from a container.
pub trait ReadData: Sized {
    /// Reads a value of this type from a container; narrowing to the wrong
    /// type is a `TypeMismatch`.
    fn read(file: &MemFile, container: &DataContainer) -> (r: AnnResult<Self>)
        requires
            file@.wf(),
            container.wf(file@),
    ;
}

impl WriteData for DynScalar {
    open spec fn writable(&self) -> bool {
        true
    }

    fn write(&self, file: &mut MemFile, parent: usize, name: &str) -> (r: AnnResult<DataContainer>)
        ensures
            match r {
                Ok(c) => {
                    &&& !has_child(old(file)@.child_seq(parent as int), name@)
                    &&& write_effect(old(file)@, final(file)@, parent as int, name@, c)
                    &&& decode(final(file)@, c.node as int) == Ok::<DataV, AnnError>(
                        DataV::Scalar(self@),
                    )
                    &&& final(file)@.attr(c.node as int, "encoding-type"@) == Some(
                        AttrV::Str(encoding_tag(DataV::Scalar(self@))),
                    )
                    &&& final(file)@.attr(c.node as int, "encoding-version"@) == Some(
                        AttrV::Str(encoding_version()),
                    )
                },
                Err(e) => {
                    &&& e == AnnError::AlreadyExists
                    &&& has_child(old(file)@.child_seq(parent as int), name@)
                    &&& final(file)@ == old(file)@
                },
            },
    {
        write_scalar(self, file, parent, name)
    }

    fn overwrite(&self, file: &mut MemFile, container: &DataContainer) -> (r: AnnResult<
        DataContainer,
    >)
        ensures
            r is Ok,
            match r {
                Ok(c2) => {
                    &&& c2.parent == container.parent
                    &&& c2.name@ == container.name@
                    &&& decode(final(file)@, c2.node as int) == Ok::<DataV, AnnError>(
                        DataV::Scalar(self@),
                    )
                },
                Err(_) => false,
            },
    {
        let v = DynData::Scalar(self.clone());
        match overwrite_dyn_data(&v, file, container) {
            Ok(c2) => Ok(c2),
            Err(_) => vstd::pervasive::unreached(),
        }
    }
}

impl ReadData for DynScalar {
    /// Reads a scalar, narrowing the decoded dynamic value; a container of
    /// any other kind is a `TypeMismatch`.
    fn read(file: &MemFile, container: &DataContainer) -> (r: AnnResult<Self>)
        ensures
            match r {
                Ok(s) => decode(file@, container.node as int) == Ok::<DataV, AnnError>(
                    DataV::Scalar(s@),
                ),
                Err(e) => match decode(file@, container.node as int) {
                    Ok(v) => !(v is Scalar) && e == AnnError::TypeMismatch,
                    Err(e2) => e == e2,
                },
            },
    {
        match read_dyn_data(file, container.node) {
            Ok(DynData::Scalar(s)) => Ok(s),
            Ok(_) => Err(AnnError::TypeMismatch),
            Err(e) => Err(e),
        }
    }
}

impl WriteData for DynArray {
    open spec fn writable(&self) -> bool {
        self@.wf()
    }

    fn write(&self, file: &mut MemFile, parent: usize, name: &str) -> (r: AnnResult<DataContainer>)
        ensures
            match r {
                Ok(c) => {
                    &&& !has_child(old(file)@.child_seq(parent as int), name@)
                    &&& write_effect(old(file)@, final(file)@, parent as int, name@, c)
                    &&& decode(final(file)@, c.node as int) == Ok::<DataV, AnnError>(
                        DataV::Array(self@),
                    )
                    &&& final(file)@.attr(c.node as int, "encoding-type"@) == Some(
                        AttrV::Str(encoding_tag(DataV::Array(self@))),
                    )
                    &&& final(file)@.attr(c.node as int, "encoding-version"@) == Some(
                        AttrV::Str(encoding_version()),
                    )
                },
                Err(e) => {
                    &&& e == AnnError::AlreadyExists
                    &&& has_child(old(file)@.child_seq(parent as int), name@)
                    &&& final(file)@ == old(file)@
                },
            },
    {
        write_array(self, file, parent, name)
    }

    fn overwrite(&self, file: &mut MemFile, container: &DataContainer) -> (r: AnnResult<
        DataContainer,
    >)
        ensures
            r is Ok,
            match r {
                Ok(c2) => {
                    &&& c2.parent == container.parent
                    &&& c2.name@ == container.name@
                    &&& decode(final(file)@, c2.node as int) == Ok::<DataV, AnnError>(
                        DataV::Array(self@),
                    )
                },
                Err(_) => false,
            },
    {
        let v = DynData::Array(self.clone());
        match overwrite_dyn_data(&v, file, container) {
            Ok(c2) => Ok(c2),
            Err(_) => vstd::pervasive::unreached(),
        }
    }
}

impl ReadData for DynArray {
    /// Reads an array, narrowing the decoded dynamic value; a container of
    /// any other kind is a `TypeMismatch`.
    fn read(file: &MemFile, container: &DataContainer) -> (r: AnnResult<Self>)
        ensures
            match r {
                Ok(a) => decode(file@, container.node as int) == Ok::<DataV, AnnError>(
                    DataV::Array(a@),
                ),
                Err(e) => match decode(file@, container.node as int) {
                    Ok(v) => !(v is Array) && e == AnnError::TypeMismatch,
                    Err(e2) => e == e2,
                },
            },
    {
        match read_dyn_data(file, container.node) {
            Ok(DynData::Array(a)) => Ok(a),
            Ok(_) => Err(AnnError::TypeMismatch),
            Err(e) => Err(e),
        }
    }
}

impl WriteData for DataFrameData {
    open spec fn writable(&self) -> bool {
        self@.writable()
    }

    /// The tabular write opens and joins a group already hanging under the
    /// name (so an index written there first survives), and creates one
    /// otherwise.
    fn write(&self, file: &mut MemFile, parent: usize, name: &str) -> (r: AnnResult<DataContainer>)
        ensures
            r matches Ok(c) ==> {
                &&& c.parent == parent
                &&& c.name@ == name@
                &&& c.wf(final(file)@)
                &&& frame_writes_cleanly(self@)
                &&& decode(final(file)@, c.node as int) == Ok::<DataV, AnnError>(
                    DataV::Frame(self@),
                )
                &&& final(file)@.attr(c.node as int, "encoding-type"@) == Some(
                    AttrV::Str("dataframe"@),
                )
                &&& final(file)@.attr(c.node as int, "encoding-version"@) == Some(
                    AttrV::Str(encoding_version()),
                )
            },
            ({
                let och = old(file)@.child_seq(parent as int);
                if !has_child(och, name@) {
                    &&& (r matches Ok(c) ==> write_effect(
                        old(file)@,
                        final(file)@,
                        parent as int,
                        name@,
                        c,
                    ))
                    &&& (r matches Err(e) ==> e == AnnError::UnsupportedType
                        && !frame_writes_cleanly(self@))
                    &&& (r is Ok <==> frame_writes_cleanly(self@))
                } else {
                    let g0 = child_id(och, name@) as int;
                    if !old(file)@.is_group(g0) {
                        (r matches Err(e) && e == AnnError::TypeMismatch) && final(file)@ == old(
                            file,
                        )@
                    } else if exists|j: int|
                        0 <= j < self@.cols.len() && has_child(
                            old(file)@.child_seq(g0),
                            (#[trigger] self@.cols[j]).0,
                        ) {
                        (r matches Err(e) && e == AnnError::AlreadyExists) && final(file)@ == old(
                            file,
                        )@
                    } else if !frame_writes_cleanly(self@) {
                        r matches Err(e) && e == AnnError::UnsupportedType
                    } else {
                        r matches Ok(c) && c.node as int == g0
                    }
                }
            }),
    {
        write_frame(self, file, parent, name)
    }

    /// The tabular overwrite is in place: every child except the row-index
    /// dataset is unlinked, then the columns and `column-order` are written
    /// anew, leaving the row index untouched.
    fn overwrite(&self, file: &mut MemFile, container: &DataContainer) -> (r: AnnResult<
        DataContainer,
    >)
        ensures
            container.wf(final(file)@),
            forall|m: int|
                0 <= m < old(file)@.nodes.len() && m != container.node ==> final(file)@.nodes[m]
                    == old(file)@.nodes[m],
            r matches Ok(c2) ==> c2.parent == container.parent && c2.name@ == container.name@
                && c2.node == container.node,
            match old(file)@.attr(container.node as int, "_index"@) {
                Option::None => (r matches Err(e) && e == AnnError::NotFound) && final(file)@
                    == old(file)@,
                Option::Some(AttrV::StrArr(_)) => (r matches Err(e) && e == AnnError::TypeMismatch)
                    && final(file)@ == old(file)@,
                Option::Some(AttrV::Str(ix)) => {
                    if !old(file)@.is_group(container.node as int) {
                        (r matches Err(e) && e == AnnError::TypeMismatch) && final(file)@ == old(
                            file,
                        )@
                    } else if exists|j: int|
                        0 <= j < self@.cols.len() && (#[trigger] self@.cols[j]).0 == ix {
                        (r matches Err(e) && e == AnnError::AlreadyExists) && final(file)@ == old(
                            file,
                        )@
                    } else if !frame_writes_cleanly(self@) {
                        r matches Err(e) && e == AnnError::UnsupportedType
                    } else {
                        &&& r is Ok
                        &&& decode(final(file)@, container.node as int) == Ok::<DataV, AnnError>(
                            DataV::Frame(self@),
                        )
                        &&& final(file)@.attr(container.node as int, "encoding-type"@) == Some(
                            AttrV::Str("dataframe"@),
                        )
                        &&& final(file)@.attr(container.node as int, "encoding-version"@) == Some(
                            AttrV::Str(encoding_version()),
                        )
                        &&& final(file)@.attr(container.node as int, "_index"@) == old(
                            file,
                        )@.attr(container.node as int, "_index"@)
                        &&& (has_child(old(file)@.child_seq(container.node as int), ix)
                            ==> has_child(final(file)@.child_seq(container.node as int), ix)
                            && child_id(final(file)@.child_seq(container.node as int), ix)
                            == child_id(old(file)@.child_seq(container.node as int), ix))
                        &&& forall|nm: Seq<char>|
                            has_child(final(file)@.child_seq(container.node as int), nm) ==> (nm
                                == ix && has_child(
                                old(file)@.child_seq(container.node as int),
                                ix,
                            )) || (exists|j: int|
                                0 <= j < self@.cols.len() && (#[trigger] self@.cols[j]).0 == nm)
                    }
                },
            },
    {
        match overwrite_frame(self, file, container) {
            Ok(()) => Ok(
                DataContainer {
                    kind: ContainerKind::Group,
                    node: container.node,
                    parent: container.parent,
                    name: container.name.clone(),
                },
            ),
            Err(e) => Err(e),
        }
    }
}

impl ReadData for DataFrameData {
    /// Reads a tabular value, narrowing the decoded dynamic value; a
    /// container of any other kind is a `TypeMismatch`.
    fn read(file: &MemFile, container: &DataContainer) -> (r: AnnResult<Self>)
        ensures
            match r {
                Ok(f) => decode(file@, container.node as int) == Ok::<DataV, AnnError>(
                    DataV::Frame(f@),
                ),
                Err(e) => match decode(file@, container.node as int) {
                    Ok(v) => !(v is Frame) && e == AnnError::TypeMismatch,
                    Err(e2) => e == e2,
                },
            },
    {
        match read_dyn_data(file, container.node) {
            Ok(DynData::DataFrame(f)) => Ok(f),
            Ok(_) => Err(AnnError::TypeMismatch),
            Err(e) => Err(e),
        }
    }
}

impl WriteData for DynData {
    open spec fn writable(&self) -> bool {
        self@.writable()
    }

    fn write(&self, file: &mut MemFile, parent: usize, name: &str) -> (r: AnnResult<DataContainer>)
        ensures
            match r {
                Ok(c) => {
                    &&& !has_child(old(file)@.child_seq(parent as int), name@)
                    &&& write_effect(old(file)@, final(file)@, parent as int, name@, c)
                    &&& decode(final(file)@, c.node as int) == Ok::<DataV, AnnError>(self@)
                    &&& final(file)@.attr(c.node as int, "encoding-type"@) == Some(
                        AttrV::Str(encoding_tag(self@)),
                    )
                    &&& final(file)@.attr(c.node as int, "encoding-version"@) == Some(
                        AttrV::Str(encoding_version()),
                    )
                },
                Err(e) => {
                    &&& (e == AnnError::AlreadyExists || e == AnnError::UnsupportedType)
                    &&& (e == AnnError::AlreadyExists <==> has_child(
                        old(file)@.child_seq(parent as int),
                        name@,
                    ))
                    &&& (e == AnnError::UnsupportedType ==> !data_writes_cleanly(self@))
                },
            },
            r is Ok <==> !has_child(old(file)@.child_seq(parent as int), name@)
                && data_writes_cleanly(self@),
    {
        write_dyn_data(self, file, parent, name)
    }

    fn overwrite(&self, file: &mut MemFile, container: &DataContainer) -> (r: AnnResult<
        DataContainer,
    >)
        ensures
            final(file)@.nodes.len() >= old(file)@.nodes.len(),
            forall|m: int|
                0 <= m < old(file)@.nodes.len() && m != container.parent ==> final(file)@.nodes[m]
                    == old(file)@.nodes[m],
            match r {
                Ok(c2) => {
                    &&& c2.parent == container.parent
                    &&& c2.name@ == container.name@
                    &&& c2.wf(final(file)@)
                    &&& c2.node >= old(file)@.nodes.len()
                    &&& subtree_above(final(file)@, c2.node as int, old(file)@.nodes.len() as int)
                    &&& decode(final(file)@, c2.node as int) == Ok::<DataV, AnnError>(self@)
                    &&& final(file)@.attr(c2.node as int, "encoding-type"@) == Some(
                        AttrV::Str(encoding_tag(self@)),
                    )
                    &&& final(file)@.attr(c2.node as int, "encoding-version"@) == Some(
                        AttrV::Str(encoding_version()),
                    )
                    &&& final(file)@.child_seq(container.parent as int) == old(file)@.child_seq(
                        container.parent as int,
                    ).remove(
                        crate::backend::child_pos(
                            old(file)@.child_seq(container.parent as int),
                            container.name@,
                        ),
                    ).push((container.name@, c2.node))
                },
                Err(e) => e == AnnError::UnsupportedType && !data_writes_cleanly(self@),
            },
            r is Ok <==> data_writes_cleanly(self@),
    {
        overwrite_dyn_data(self, file, container)
    }
}

impl ReadData for DynData {
    /// Reads back whatever dynamic value the container denotes.
    fn read(file: &MemFile, container: &DataContainer) -> (r: AnnResult<Self>)
        ensures
            model_of(r) == decode(file@, container.node as int),
    {
        read_dyn_data(file, container.node)
    }
}

impl WriteData for Mapping {
    /// Distinct entry names and writable entry values.
    open spec fn writable(&self) -> bool {
        &&& forall|i: int, j: int|
            0 <= i < j < self@.len() ==> (#[trigger] self@[i]).0 != (#[trigger] self@[j]).0
        &&& forall|i: int| 0 <= i < self@.len() ==> (#[trigger] self@[i]).1.writable()
    }

    fn write(&self, file: &mut MemFile, parent: usize, name: &str) -> (r: AnnResult<DataContainer>)
        ensures
            match r {
                Ok(c) => {
                    &&& !has_child(old(file)@.child_seq(parent as int), name@)
                    &&& write_effect(old(file)@, final(file)@, parent as int, name@, c)
                    &&& map_decode(final(file)@, c.node as int) == Ok::<
                        Seq<(Seq<char>, DataV)>,
                        AnnError,
                    >(self@)
                    &&& final(file)@.attr(c.node as int, "encoding-type"@) == Some(
                        AttrV::Str("dict"@),
                    )
                    &&& final(file)@.attr(c.node as int, "encoding-version"@) == Some(
                        AttrV::Str(encoding_version()),
                    )
                },
                Err(e) => {
                    &&& (e == AnnError::AlreadyExists || e == AnnError::UnsupportedType)
                    &&& (e == AnnError::AlreadyExists <==> has_child(
                        old(file)@.child_seq(parent as int),
                        name@,
                    ))
                    &&& (e == AnnError::UnsupportedType ==> !entries_write_cleanly(self@))
                },
            },
            r is Ok <==> !has_child(old(file)@.child_seq(parent as int), name@)
                && entries_write_cleanly(self@),
    {
        write_mapping(self, file, parent, name)
    }

    fn overwrite(&self, file: &mut MemFile, container: &DataContainer) -> (r: AnnResult<
        DataContainer,
    >)
        ensures
            final(file)@.nodes.len() >= old(file)@.nodes.len(),
            forall|m: int|
                0 <= m < old(file)@.nodes.len() && m != container.parent ==> final(file)@.nodes[m]
                    == old(file)@.nodes[m],
            match r {
                Ok(c2) => {
                    &&& c2.parent == container.parent
                    &&& c2.name@ == container.name@
                    &&& c2.wf(final(file)@)
                    &&& c2.node >= old(file)@.nodes.len()
                    &&& crate::codec::subtree_above(
                        final(file)@,
                        c2.node as int,
                        old(file)@.nodes.len() as int,
                    )
                    &&& map_decode(final(file)@, c2.node as int) == Ok::<
                        Seq<(Seq<char>, DataV)>,
                        AnnError,
                    >(self@)
                    &&& final(file)@.attr(c2.node as int, "encoding-type"@) == Some(
                        AttrV::Str("dict"@),
                    )
                    &&& final(file)@.attr(c2.node as int, "encoding-version"@) == Some(
                        AttrV::Str(encoding_version()),
                    )
                    &&& final(file)@.child_seq(container.parent as int) == old(file)@.child_seq(
                        container.parent as int,
                    ).remove(
                        crate::backend::child_pos(
                            old(file)@.child_seq(container.parent as int),
                            container.name@,
                        ),
                    ).push((container.name@, c2.node))
                },
                Err(e) => e == AnnError::UnsupportedType && !entries_write_cleanly(self@),
            },
            r is Ok <==> entries_write_cleanly(self@),
    {
        match file.delete_child(container.parent, container.name.as_str()) {
            Ok(()) => {},
            Err(_) => {
                proof {
                    assert(false);
                }
                vstd::pervasive::unreached()
            },
        }
        match write_mapping(self, file, container.parent, container.name.as_str()) {
            Ok(c2) => Ok(c2),
            Err(e) => {
                proof {
                    if e == AnnError::AlreadyExists {
                        assert(false);
                    }
                }
                Err(e)
            },
        }
    }
}

impl ReadData for Mapping {
    /// Reads an unstructured mapping back from a tagged group.
    fn read(file: &MemFile, container: &DataContainer) -> (r: AnnResult<Self>)
        ensures
            model_of(r) == map_decode(file@, container.node as int),
    {
        read_mapping(file, container.node)
    }
}

/// A column a well-formed file decodes is a well-formed array.
pub proof fn lemma_column_decode_wf(f: FileV, c: int)
    requires
        f.wf(),
        f.in_bounds(c),
        column_decode(f, c) is Ok,
    ensures
        column_decode(f, c)->Ok_0.wf(),
{
    assert(crate::backend::node_wf(f.nodes[c], c, f.nodes.len() as int));
}

/// Every column a well-formed file decodes for a column order is a
/// well-formed array.
pub proof fn lemma_frame_cols_decode_wf(f: FileV, n: int, names: Seq<Seq<char>>)
    requires
        f.wf(),
        f.is_group(n),
        frame_cols_decode(f, n, names) is Ok,
    ensures
        forall|i: int|
            0 <= i < frame_cols_decode(f, n, names)->Ok_0.len() ==> (#[trigger] frame_cols_decode(
                f,
                n,
                names,
            )->Ok_0[i]).1.wf(),
    decreases names.len(),
{
    if names.len() > 0 {
        lemma_frame_cols_decode_wf(f, n, names.drop_last());
        let nm = names.last();
        let ch = f.child_seq(n);
        let c = child_id(ch, nm) as int;
        assert(crate::backend::node_wf(f.nodes[n], n, f.nodes.len() as int));
        assert(0 <= crate::backend::child_pos(ch, nm) < ch.len());
        assert(f.in_bounds(c));
        lemma_column_decode_wf(f, c);
        let prev = frame_cols_decode(f, n, names.drop_last())->Ok_0;
        let whole = frame_cols_decode(f, n, names)->Ok_0;
        assert(whole == prev.push((nm, column_decode(f, c)->Ok_0)));
    }
}

/// Every column of a tabular value a well-formed file decodes is a
/// well-formed array.
pub proof fn lemma_frame_decode_cols_wf(f: FileV, n: int)
    requires
        f.wf(),
        f.in_bounds(n),
        decode(f, n) matches Ok(DataV::Frame(_)),
    ensures
        forall|i: int|
            0 <= i < decode(f, n)->Ok_0->Frame_0.cols.len() ==> (#[trigger] decode(
                f,
                n,
            )->Ok_0->Frame_0.cols[i]).1.wf(),
{
    match attr_lookup(f.nodes[n].attrs, "column-order"@) {
        Option::Some(AttrV::StrArr(names)) => {
            lemma_frame_cols_decode_wf(f, n, names);
        },
        _ => {},
    }
}

} // verus!
