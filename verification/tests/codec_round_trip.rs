//! Round trips through the codec: every supported dynamic value written and
//! read back bit for bit.

use anndata_core::backend::MemFile;
use anndata_core::codec::{ReadData, WriteData};
use anndata_core::values::{
    CategoricalArray, DataFrameData, DenseArray, DynArray, DynData, DynScalar, Mapping,
};

fn roundtrip(v: DynData, name: &str) -> DynData {
    let mut file = MemFile::new();
    let c = v.write(&mut file, 0, name).expect("write");
    DynData::read(&file, &c).expect("read")
}

#[test]
fn scalar_i32_round_trip() {
    let v = DynData::Scalar(DynScalar::I32(-42));
    assert_eq!(roundtrip(v.clone(), "s"), v);
}

#[test]
fn scalar_u64_round_trip() {
    let v = DynData::Scalar(DynScalar::U64(u64::MAX));
    assert_eq!(roundtrip(v.clone(), "s"), v);
}

#[test]
fn scalar_bool_round_trip() {
    let v = DynData::Scalar(DynScalar::Bool(true));
    assert_eq!(roundtrip(v.clone(), "s"), v);
}

#[test]
fn scalar_string_round_trip() {
    let v = DynData::Scalar(DynScalar::String(String::from("hello world")));
    assert_eq!(roundtrip(v.clone(), "s"), v);
}

#[test]
fn scalar_float_bits_round_trip() {
    let bits = 1.5f32.to_bits();
    let v = DynData::Scalar(DynScalar::F32(bits));
    let back = roundtrip(v.clone(), "s");
    assert_eq!(back, v);
    match back {
        DynData::Scalar(DynScalar::F32(b)) => assert_eq!(f32::from_bits(b), 1.5f32),
        other => panic!("wrong variant: {:?}", other),
    }
}

#[test]
fn scalar_f64_bits_round_trip() {
    let bits = (-0.25f64).to_bits();
    let v = DynData::Scalar(DynScalar::F64(bits));
    assert_eq!(roundtrip(v.clone(), "s"), v);
}

#[test]
fn array_2d_round_trip() {
    let v = DynData::Array(DynArray::I32(DenseArray {
        shape: vec![2, 3],
        data: vec![1, 2, 3, 4, 5, 6],
    }));
    assert_eq!(roundtrip(v.clone(), "a"), v);
}

#[test]
fn array_string_round_trip() {
    let v = DynData::Array(DynArray::String(DenseArray {
        shape: vec![3],
        data: vec![String::from("a"), String::from(""), String::from("ccc")],
    }));
    assert_eq!(roundtrip(v.clone(), "a"), v);
}

#[test]
fn array_empty_round_trip() {
    let v = DynData::Array(DynArray::U8(DenseArray { shape: vec![0], data: vec![] }));
    assert_eq!(roundtrip(v.clone(), "a"), v);
}

#[test]
fn categorical_round_trip() {
    let v = DynData::Array(DynArray::Categorical(CategoricalArray {
        codes: vec![0, 1, 0, 2],
        categories: vec![String::from("x"), String::from("y"), String::from("z")],
    }));
    assert_eq!(roundtrip(v.clone(), "c"), v);
}

#[test]
fn dataframe_round_trip_preserves_order_and_categories() {
    // A tabular value with an integer column and a categorical column: the
    // column order comes back as written and the categorical strings are
    // identical.
    let frame = DataFrameData {
        columns: vec![
            (
                String::from("a"),
                DynArray::I32(DenseArray { shape: vec![3], data: vec![1, 2, 3] }),
            ),
            (
                String::from("b"),
                DynArray::Categorical(CategoricalArray {
                    codes: vec![0, 1, 2],
                    categories: vec![String::from("x"), String::from("y"), String::from("z")],
                }),
            ),
        ],
    };
    let v = DynData::DataFrame(frame.clone());
    let back = roundtrip(v.clone(), "df");
    assert_eq!(back, v);
    match back {
        DynData::DataFrame(f2) => {
            assert_eq!(f2.columns[0].0, "a");
            assert_eq!(f2.columns[1].0, "b");
            match &f2.columns[1].1 {
                DynArray::Categorical(c) => {
                    assert_eq!(c.categories, vec!["x", "y", "z"]);
                    assert_eq!(c.codes, vec![0, 1, 2]);
                }
                other => panic!("wrong column kind: {:?}", other),
            }
        }
        other => panic!("wrong variant: {:?}", other),
    }
}

#[test]
fn mapping_round_trip() {
    let m = Mapping(vec![
        (String::from("k1"), DynData::Scalar(DynScalar::I8(7))),
        (
            String::from("k2"),
            DynData::Array(DynArray::Bool(DenseArray { shape: vec![2], data: vec![true, false] })),
        ),
    ]);
    let mut file = MemFile::new();
    let c = m.write(&mut file, 0, "uns").expect("write");
    let back = Mapping::read(&file, &c).expect("read");
    assert_eq!(back, m);
}

#[test]
fn written_containers_carry_tag_and_version()  {
    let mut file = MemFile::new();
    let c1 = DynData::Scalar(DynScalar::String(String::from("t")))
        .write(&mut file, 0, "s")
        .expect("write");
    assert_eq!(c1.read_str_attr(&file, "encoding-type").expect("tag"), "string");
    assert_eq!(c1.read_str_attr(&file, "encoding-version").expect("version"), "0.2.0");
    let c2 = DynData::Scalar(DynScalar::I32(3)).write(&mut file, 0, "n").expect("write");
    assert_eq!(c2.read_str_attr(&file, "encoding-type").expect("tag"), "numeric_scalar");
    let c3 = DynData::Array(DynArray::I32(DenseArray { shape: vec![1], data: vec![9] }))
        .write(&mut file, 0, "a")
        .expect("write");
    assert_eq!(c3.read_str_attr(&file, "encoding-type").expect("tag"), "array");
    let c4 = DynData::DataFrame(DataFrameData { columns: vec![] })
        .write(&mut file, 0, "df")
        .expect("write");
    assert_eq!(c4.read_str_attr(&file, "encoding-type").expect("tag"), "dataframe");
    assert_eq!(c4.read_str_attr(&file, "encoding-version").expect("version"), "0.2.0");
}
