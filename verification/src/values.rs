//! The closed set of dynamic values the codec knows how to persist: runtime
//! tagged scalars, homogeneous n-dimensional arrays, dictionary-encoded
//! categorical arrays and tabular values, together with their mathematical
//! models.
//!
//! Floating-point payloads are carried as their IEEE 754 bit patterns (`u32`
//! for the 32-bit kind, `u64` for the 64-bit kind): the store never computes
//! with them, it only round-trips them bit for bit.

use vstd::prelude::*;

verus! {

/// The declared runtime type of one stored dataset's elements.
#[derive(Clone, Copy, Debug, PartialEq, Eq, Structural)]
pub enum ScalarType {
    I8,
    I16,
    I32,
    I64,
    U8,
    U16,
    U32,
    U64,
    F32,
    F64,
    Bool,
    String,
}

/// Model of a dynamic scalar: the payload of the string variant is its
/// character sequence.
#[verifier::ext_equal]
pub enum ScalarV {
    I8(i8),
    I16(i16),
    I32(i32),
    I64(i64),
    U8(u8),
    U16(u16),
    U32(u32),
    U64(u64),
    F32(u32),
    F64(u64),
    Bool(bool),
    Str(Seq<char>),
}

/// A scalar value tagged with its runtime kind.  Exactly one variant is
/// populated; the tag determines the on-disk encoding.  The `F32` and `F64`
/// payloads are IEEE 754 bit patterns.
#[derive(Debug, PartialEq)]
pub enum DynScalar {
    I8(i8),
    I16(i16),
    I32(i32),
    I64(i64),
    U8(u8),
    U16(u16),
    U32(u32),
    U64(u64),
    F32(u32),
    F64(u64),
    Bool(bool),
    String(String),
}

impl View for DynScalar {
    type V = ScalarV;

    open spec fn view(&self) -> ScalarV {
        match self {
            DynScalar::I8(v) => ScalarV::I8(*v),
            DynScalar::I16(v) => ScalarV::I16(*v),
            DynScalar::I32(v) => ScalarV::I32(*v),
            DynScalar::I64(v) => ScalarV::I64(*v),
            DynScalar::U8(v) => ScalarV::U8(*v),
            DynScalar::U16(v) => ScalarV::U16(*v),
            DynScalar::U32(v) => ScalarV::U32(*v),
            DynScalar::U64(v) => ScalarV::U64(*v),
            DynScalar::F32(v) => ScalarV::F32(*v),
            DynScalar::F64(v) => ScalarV::F64(*v),
            DynScalar::Bool(v) => ScalarV::Bool(*v),
            DynScalar::String(v) => ScalarV::Str(v@),
        }
    }
}

impl DynScalar {
    /// The runtime kind of this scalar.
    pub fn dtype(&self) -> (t: ScalarType)
        ensures
            t == self@.dtype_spec(),
    {
        match self {
            DynScalar::I8(_) => ScalarType::I8,
            DynScalar::I16(_) => ScalarType::I16,
            DynScalar::I32(_) => ScalarType::I32,
            DynScalar::I64(_) => ScalarType::I64,
            DynScalar::U8(_) => ScalarType::U8,
            DynScalar::U16(_) => ScalarType::U16,
            DynScalar::U32(_) => ScalarType::U32,
            DynScalar::U64(_) => ScalarType::U64,
            DynScalar::F32(_) => ScalarType::F32,
            DynScalar::F64(_) => ScalarType::F64,
            DynScalar::Bool(_) => ScalarType::Bool,
            DynScalar::String(_) => ScalarType::String,
        }
    }
}

impl ScalarV {
    pub open spec fn dtype_spec(self) -> ScalarType {
        match self {
            ScalarV::I8(_) => ScalarType::I8,
            ScalarV::I16(_) => ScalarType::I16,
            ScalarV::I32(_) => ScalarType::I32,
            ScalarV::I64(_) => ScalarType::I64,
            ScalarV::U8(_) => ScalarType::U8,
            ScalarV::U16(_) => ScalarType::U16,
            ScalarV::U32(_) => ScalarType::U32,
            ScalarV::U64(_) => ScalarType::U64,
            ScalarV::F32(_) => ScalarType::F32,
            ScalarV::F64(_) => ScalarType::F64,
            ScalarV::Bool(_) => ScalarType::Bool,
            ScalarV::Str(_) => ScalarType::String,
        }
    }
}

/// The number of elements a shape describes: the product of its extents.
/// An empty shape describes a single element (a zero-dimensional array).
pub open spec fn shape_product(shape: Seq<usize>) -> int
    decreases shape.len(),
{
    if shape.len() == 0 {
        1
    } else {
        shape[0] * shape_product(shape.skip(1))
    }
}

/// A homogeneous n-dimensional array stored flat in row-major order.
#[derive(Debug, PartialEq)]
pub struct DenseArray<T> {
    pub shape: Vec<usize>,
    pub data: Vec<T>,
}

/// Model of a homogeneous n-dimensional array.
#[verifier::ext_equal]
pub struct ArrV<E> {
    pub shape: Seq<usize>,
    pub data: Seq<E>,
}

impl<E> ArrV<E> {
    pub open spec fn wf(self) -> bool {
        self.data.len() == shape_product(self.shape)
    }

    /// The number of elements one position along the first axis spans.
    pub open spec fn row_size(self) -> int {
        shape_product(self.shape.skip(1))
    }

    pub open spec fn nrows(self) -> int {
        if self.shape.len() == 0 {
            1
        } else {
            self.shape[0] as int
        }
    }
}

impl<T> DenseArray<T> {
    pub open spec fn wf(&self) -> bool {
        self.view_plain().wf()
    }

    /// Model with the elements taken as they are.
    pub open spec fn view_plain(&self) -> ArrV<T> {
        ArrV { shape: self.shape@, data: self.data@ }
    }
}

impl View for DenseArray<String> {
    type V = ArrV<Seq<char>>;

    open spec fn view(&self) -> ArrV<Seq<char>> {
        ArrV { shape: self.shape@, data: self.data@.map_values(|s: String| s@) }
    }
}

/// A dictionary-encoded categorical array: integer codes indexing an ordered
/// table of distinct category strings.
#[derive(Debug, PartialEq)]
pub struct CategoricalArray {
    pub codes: Vec<u32>,
    pub categories: Vec<String>,
}

/// Model of a categorical array.
#[verifier::ext_equal]
pub struct CatV {
    pub codes: Seq<u32>,
    pub categories: Seq<Seq<char>>,
}

impl CatV {
    /// Every code indexes into the category table.
    pub open spec fn wf(self) -> bool {
        forall|i: int| 0 <= i < self.codes.len() ==> (#[trigger] self.codes[i]) < self.categories.len()
    }
}

impl View for CategoricalArray {
    type V = CatV;

    open spec fn view(&self) -> CatV {
        CatV { codes: self.codes@, categories: self.categories@.map_values(|s: String| s@) }
    }
}

/// Model of a dynamic array.
#[verifier::ext_equal]
pub enum ArrayV {
    I8(ArrV<i8>),
    I16(ArrV<i16>),
    I32(ArrV<i32>),
    I64(ArrV<i64>),
    U8(ArrV<u8>),
    U16(ArrV<u16>),
    U32(ArrV<u32>),
    U64(ArrV<u64>),
    F32(ArrV<u32>),
    F64(ArrV<u64>),
    Bool(ArrV<bool>),
    Str(ArrV<Seq<char>>),
    Cat(CatV),
}

/// A homogeneous n-dimensional array of one of the dynamic scalar kinds, or a
/// dictionary-encoded categorical array.  The `F32` and `F64` element payloads
/// are IEEE 754 bit patterns.
#[derive(Debug, PartialEq)]
pub enum DynArray {
    I8(DenseArray<i8>),
    I16(DenseArray<i16>),
    I32(DenseArray<i32>),
    I64(DenseArray<i64>),
    U8(DenseArray<u8>),
    U16(DenseArray<u16>),
    U32(DenseArray<u32>),
    U64(DenseArray<u64>),
    F32(DenseArray<u32>),
    F64(DenseArray<u64>),
    Bool(DenseArray<bool>),
    String(DenseArray<String>),
    Categorical(CategoricalArray),
}

impl View for DynArray {
    type V = ArrayV;

    open spec fn view(&self) -> ArrayV {
        match self {
            DynArray::I8(a) => ArrayV::I8(a.view_plain()),
            DynArray::I16(a) => ArrayV::I16(a.view_plain()),
            DynArray::I32(a) => ArrayV::I32(a.view_plain()),
            DynArray::I64(a) => ArrayV::I64(a.view_plain()),
            DynArray::U8(a) => ArrayV::U8(a.view_plain()),
            DynArray::U16(a) => ArrayV::U16(a.view_plain()),
            DynArray::U32(a) => ArrayV::U32(a.view_plain()),
            DynArray::U64(a) => ArrayV::U64(a.view_plain()),
            DynArray::F32(a) => ArrayV::F32(a.view_plain()),
            DynArray::F64(a) => ArrayV::F64(a.view_plain()),
            DynArray::Bool(a) => ArrayV::Bool(a.view_plain()),
            DynArray::String(a) => ArrayV::Str(a@),
            DynArray::Categorical(c) => ArrayV::Cat(c@),
        }
    }
}

impl ArrayV {
    /// Well-formed: flat data matches the shape; categorical codes index the
    /// category table.
    pub open spec fn wf(self) -> bool {
        match self {
            ArrayV::I8(a) => a.wf(),
            ArrayV::I16(a) => a.wf(),
            ArrayV::I32(a) => a.wf(),
            ArrayV::I64(a) => a.wf(),
            ArrayV::U8(a) => a.wf(),
            ArrayV::U16(a) => a.wf(),
            ArrayV::U32(a) => a.wf(),
            ArrayV::U64(a) => a.wf(),
            ArrayV::F32(a) => a.wf(),
            ArrayV::F64(a) => a.wf(),
            ArrayV::Bool(a) => a.wf(),
            ArrayV::Str(a) => a.wf(),
            ArrayV::Cat(c) => c.wf(),
        }
    }

    /// The shape; a categorical array is one-dimensional over its codes.
    pub open spec fn shape_spec(self) -> Seq<usize> {
        match self {
            ArrayV::I8(a) => a.shape,
            ArrayV::I16(a) => a.shape,
            ArrayV::I32(a) => a.shape,
            ArrayV::I64(a) => a.shape,
            ArrayV::U8(a) => a.shape,
            ArrayV::U16(a) => a.shape,
            ArrayV::U32(a) => a.shape,
            ArrayV::U64(a) => a.shape,
            ArrayV::F32(a) => a.shape,
            ArrayV::F64(a) => a.shape,
            ArrayV::Bool(a) => a.shape,
            ArrayV::Str(a) => a.shape,
            ArrayV::Cat(c) => seq![c.codes.len() as usize],
        }
    }

    pub open spec fn is_categorical(self) -> bool {
        self is Cat
    }

    /// The element kind of a plain (non-categorical) array.
    pub open spec fn dtype_spec(self) -> ScalarType
        recommends
            !self.is_categorical(),
    {
        match self {
            ArrayV::I8(_) => ScalarType::I8,
            ArrayV::I16(_) => ScalarType::I16,
            ArrayV::I32(_) => ScalarType::I32,
            ArrayV::I64(_) => ScalarType::I64,
            ArrayV::U8(_) => ScalarType::U8,
            ArrayV::U16(_) => ScalarType::U16,
            ArrayV::U32(_) => ScalarType::U32,
            ArrayV::U64(_) => ScalarType::U64,
            ArrayV::F32(_) => ScalarType::F32,
            ArrayV::F64(_) => ScalarType::F64,
            ArrayV::Bool(_) => ScalarType::Bool,
            ArrayV::Str(_) => ScalarType::String,
            ArrayV::Cat(_) => ScalarType::U32,
        }
    }
}

/// A tabular value: an ordered mapping from column name to a homogeneous
/// column, all columns one-dimensional and of equal length.
#[derive(Debug, PartialEq)]
pub struct DataFrameData {
    pub columns: Vec<(String, DynArray)>,
}

/// Model of a tabular value.
#[verifier::ext_equal]
pub struct FrameV {
    pub cols: Seq<(Seq<char>, ArrayV)>,
}

impl FrameV {
    pub open spec fn col_names(self) -> Seq<Seq<char>> {
        self.cols.map_values(|c: (Seq<char>, ArrayV)| c.0)
    }

    pub open spec fn nrows(self) -> int {
        if self.cols.len() == 0 {
            0
        } else {
            self.cols[0].1.shape_spec()[0] as int
        }
    }

    /// Well-formed: column names are distinct, every column is well formed and
    /// one-dimensional, and all columns share one length.
    pub open spec fn wf(self) -> bool {
        &&& forall|i: int, j: int|
            0 <= i < j < self.cols.len() ==> (#[trigger] self.cols[i]).0 != (#[trigger] self.cols[j]).0
        &&& forall|i: int|
            0 <= i < self.cols.len() ==> {
                &&& (#[trigger] self.cols[i]).1.wf()
                &&& self.cols[i].1.shape_spec().len() == 1
                &&& self.cols[i].1.shape_spec()[0] == self.nrows()
            }
    }
}

impl View for DataFrameData {
    type V = FrameV;

    open spec fn view(&self) -> FrameV {
        FrameV { cols: self.columns@.map_values(|c: (String, DynArray)| (c.0@, c.1@)) }
    }
}

/// Model of a dynamic value.
#[verifier::ext_equal]
pub enum DataV {
    Scalar(ScalarV),
    Array(ArrayV),
    Frame(FrameV),
}

/// The closed union of values one container can hold: a scalar, an array or a
/// tabular value.
#[derive(Debug, PartialEq)]
pub enum DynData {
    Scalar(DynScalar),
    Array(DynArray),
    DataFrame(DataFrameData),
}

impl View for DynData {
    type V = DataV;

    open spec fn view(&self) -> DataV {
        match self {
            DynData::Scalar(s) => DataV::Scalar(s@),
            DynData::Array(a) => DataV::Array(a@),
            DynData::DataFrame(f) => DataV::Frame(f@),
        }
    }
}

impl DataV {
    pub open spec fn wf(self) -> bool {
        match self {
            DataV::Scalar(_) => true,
            DataV::Array(a) => a.wf(),
            DataV::Frame(f) => f.wf(),
        }
    }
}

/// The self-describing runtime type of a stored container.
#[derive(Clone, Copy, Debug, PartialEq, Eq, Structural)]
pub enum DataType {
    Scalar(ScalarType),
    Array(ScalarType),
    Categorical,
    DataFrame,
    Mapping,
}


/// Copies a vector of plainly copyable elements.
pub fn clone_copy_vec<T: Copy>(v: &Vec<T>) -> (r: Vec<T>)
    ensures
        r@ == v@,
{
    let mut r: Vec<T> = Vec::new();
    let mut i: usize = 0;
    while i < v.len()
        invariant
            i <= v@.len(),
            r@ == v@.take(i as int),
        decreases v@.len() - i,
    {
        r.push(v[i]);
        i += 1;
        proof {
            assert(r@ =~= v@.take(i as int));
        }
    }
    proof {
        assert(r@ =~= v@);
    }
    r
}

/// Copies a vector of strings; the copy holds the same character sequences.
pub fn clone_string_vec(v: &Vec<String>) -> (r: Vec<String>)
    ensures
        r@.map_values(|s: String| s@) == v@.map_values(|s: String| s@),
        r@.len() == v@.len(),
{
    let mut r: Vec<String> = Vec::new();
    let mut i: usize = 0;
    while i < v.len()
        invariant
            i <= v@.len(),
            r@.len() == i,
            forall|j: int| 0 <= j < i ==> (#[trigger] r@[j])@ == v@[j]@,
        decreases v@.len() - i,
    {
        r.push(v[i].clone());
        i += 1;
    }
    proof {
        assert(r@.map_values(|s: String| s@) =~= v@.map_values(|s: String| s@));
    }
    r
}

impl Clone for DynScalar {
    /// The copy has the same model, bit for bit.
    fn clone(&self) -> (r: Self)
        ensures
            r@ == self@,
    {
        match self {
            DynScalar::I8(v) => DynScalar::I8(*v),
            DynScalar::I16(v) => DynScalar::I16(*v),
            DynScalar::I32(v) => DynScalar::I32(*v),
            DynScalar::I64(v) => DynScalar::I64(*v),
            DynScalar::U8(v) => DynScalar::U8(*v),
            DynScalar::U16(v) => DynScalar::U16(*v),
            DynScalar::U32(v) => DynScalar::U32(*v),
            DynScalar::U64(v) => DynScalar::U64(*v),
            DynScalar::F32(v) => DynScalar::F32(*v),
            DynScalar::F64(v) => DynScalar::F64(*v),
            DynScalar::Bool(v) => DynScalar::Bool(*v),
            DynScalar::String(v) => DynScalar::String(v.clone()),
        }
    }
}

impl Clone for CategoricalArray {
    /// The copy has the same model: same codes, same category strings.
    fn clone(&self) -> (r: Self)
        ensures
            r@ == self@,
    {
        CategoricalArray { codes: clone_copy_vec(&self.codes), categories: clone_string_vec(&self.categories) }
    }
}

impl Clone for DynArray {
    /// The copy has the same model, element for element.
    fn clone(&self) -> (r: Self)
        ensures
            r@ == self@,
    {
        match self {
            DynArray::I8(a) => DynArray::I8(
                DenseArray { shape: clone_copy_vec(&a.shape), data: clone_copy_vec(&a.data) },
            ),
            DynArray::I16(a) => DynArray::I16(
                DenseArray { shape: clone_copy_vec(&a.shape), data: clone_copy_vec(&a.data) },
            ),
            DynArray::I32(a) => DynArray::I32(
                DenseArray { shape: clone_copy_vec(&a.shape), data: clone_copy_vec(&a.data) },
            ),
            DynArray::I64(a) => DynArray::I64(
                DenseArray { shape: clone_copy_vec(&a.shape), data: clone_copy_vec(&a.data) },
            ),
            DynArray::U8(a) => DynArray::U8(
                DenseArray { shape: clone_copy_vec(&a.shape), data: clone_copy_vec(&a.data) },
            ),
            DynArray::U16(a) => DynArray::U16(
                DenseArray { shape: clone_copy_vec(&a.shape), data: clone_copy_vec(&a.data) },
            ),
            DynArray::U32(a) => DynArray::U32(
                DenseArray { shape: clone_copy_vec(&a.shape), data: clone_copy_vec(&a.data) },
            ),
            DynArray::U64(a) => DynArray::U64(
                DenseArray { shape: clone_copy_vec(&a.shape), data: clone_copy_vec(&a.data) },
            ),
            DynArray::F32(a) => DynArray::F32(
                DenseArray { shape: clone_copy_vec(&a.shape), data: clone_copy_vec(&a.data) },
            ),
            DynArray::F64(a) => DynArray::F64(
                DenseArray { shape: clone_copy_vec(&a.shape), data: clone_copy_vec(&a.data) },
            ),
            DynArray::Bool(a) => DynArray::Bool(
                DenseArray { shape: clone_copy_vec(&a.shape), data: clone_copy_vec(&a.data) },
            ),
            DynArray::String(a) => DynArray::String(
                DenseArray { shape: clone_copy_vec(&a.shape), data: clone_string_vec(&a.data) },
            ),
            DynArray::Categorical(c) => DynArray::Categorical(c.clone()),
        }
    }
}

impl Clone for DataFrameData {
    /// The copy has the same model, column for column.
    fn clone(&self) -> (r: Self)
        ensures
            r@ == self@,
    {
        let mut columns: Vec<(String, DynArray)> = Vec::new();
        let mut i: usize = 0;
        while i < self.columns.len()
            invariant
                i <= self.columns@.len(),
                columns@.len() == i,
                forall|j: int| 0 <= j < i ==> {
                    &&& (#[trigger] columns@[j]).0@ == self.columns@[j].0@
                    &&& columns@[j].1@ == self.columns@[j].1@
                },
            decreases self.columns@.len() - i,
        {
            let c = &self.columns[i];
            columns.push((c.0.clone(), c.1.clone()));
            i += 1;
        }
        let r = DataFrameData { columns };
        proof {
            assert(r@.cols =~= self@.cols);
        }
        r
    }
}

impl Clone for DynData {
    /// The copy has the same model.
    fn clone(&self) -> (r: Self)
        ensures
            r@ == self@,
    {
        match self {
            DynData::Scalar(s) => DynData::Scalar(s.clone()),
            DynData::Array(a) => DynData::Array(a.clone()),
            DynData::DataFrame(f) => DynData::DataFrame(f.clone()),
        }
    }
}

impl DynArray {
    /// The number of axes; a categorical array is one-dimensional.
    pub fn ndim(&self) -> (n: usize)
        ensures
            n == self@.shape_spec().len(),
    {
        match self {
            DynArray::I8(a) => a.shape.len(),
            DynArray::I16(a) => a.shape.len(),
            DynArray::I32(a) => a.shape.len(),
            DynArray::I64(a) => a.shape.len(),
            DynArray::U8(a) => a.shape.len(),
            DynArray::U16(a) => a.shape.len(),
            DynArray::U32(a) => a.shape.len(),
            DynArray::U64(a) => a.shape.len(),
            DynArray::F32(a) => a.shape.len(),
            DynArray::F64(a) => a.shape.len(),
            DynArray::Bool(a) => a.shape.len(),
            DynArray::String(a) => a.shape.len(),
            DynArray::Categorical(_) => 1,
        }
    }

    /// The extent of one axis.
    pub fn extent(&self, axis: usize) -> (n: usize)
        requires
            axis < self@.shape_spec().len(),
        ensures
            n == self@.shape_spec()[axis as int],
    {
        match self {
            DynArray::I8(a) => a.shape[axis],
            DynArray::I16(a) => a.shape[axis],
            DynArray::I32(a) => a.shape[axis],
            DynArray::I64(a) => a.shape[axis],
            DynArray::U8(a) => a.shape[axis],
            DynArray::U16(a) => a.shape[axis],
            DynArray::U32(a) => a.shape[axis],
            DynArray::U64(a) => a.shape[axis],
            DynArray::F32(a) => a.shape[axis],
            DynArray::F64(a) => a.shape[axis],
            DynArray::Bool(a) => a.shape[axis],
            DynArray::String(a) => a.shape[axis],
            DynArray::Categorical(c) => c.codes.len(),
        }
    }

    /// The element kind of a plain array; a categorical array reports the kind
    /// of its code datatype.
    pub fn dtype(&self) -> (t: ScalarType)
        ensures
            t == self@.dtype_spec(),
    {
        match self {
            DynArray::I8(_) => ScalarType::I8,
            DynArray::I16(_) => ScalarType::I16,
            DynArray::I32(_) => ScalarType::I32,
            DynArray::I64(_) => ScalarType::I64,
            DynArray::U8(_) => ScalarType::U8,
            DynArray::U16(_) => ScalarType::U16,
            DynArray::U32(_) => ScalarType::U32,
            DynArray::U64(_) => ScalarType::U64,
            DynArray::F32(_) => ScalarType::F32,
            DynArray::F64(_) => ScalarType::F64,
            DynArray::Bool(_) => ScalarType::Bool,
            DynArray::String(_) => ScalarType::String,
            DynArray::Categorical(_) => ScalarType::U32,
        }
    }
}


/// An unstructured mapping: an ordered set of named dynamic values, persisted
/// as the children of one tagged group.
#[derive(Debug, PartialEq)]
pub struct Mapping(pub Vec<(String, DynData)>);

impl View for Mapping {
    type V = Seq<(Seq<char>, DataV)>;

    open spec fn view(&self) -> Seq<(Seq<char>, DataV)> {
        self.0@.map_values(|p: (String, DynData)| (p.0@, p.1@))
    }
}

impl Clone for Mapping {
    /// The copy has the same model, entry for entry.
    fn clone(&self) -> (r: Self)
        ensures
            r@ == self@,
    {
        let mut entries: Vec<(String, DynData)> = Vec::new();
        let mut i: usize = 0;
        while i < self.0.len()
            invariant
                i <= self.0@.len(),
                entries@.len() == i,
                forall|j: int| 0 <= j < i ==> {
                    &&& (#[trigger] entries@[j]).0@ == self.0@[j].0@
                    &&& entries@[j].1@ == self.0@[j].1@
                },
            decreases self.0@.len() - i,
        {
            let e = &self.0[i];
            entries.push((e.0.clone(), e.1.clone()));
            i += 1;
        }
        let r = Mapping(entries);
        proof {
            assert(r@ =~= self@);
        }
        r
    }
}
} // verus!
