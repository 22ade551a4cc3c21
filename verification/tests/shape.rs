use std::collections::HashMap;
use std::io::Cursor;

use arrow2::array::Array;
use arrow2::array::BinaryArray;
use arrow2::array::BooleanArray;
use arrow2::array::DictionaryArray;
use arrow2::array::FixedSizeBinaryArray;
use arrow2::array::FixedSizeListArray;
use arrow2::array::Int32Array;
use arrow2::array::ListArray;
use arrow2::array::MapArray;
use arrow2::array::NullArray;
use arrow2::array::PrimitiveArray;
use arrow2::array::StructArray;
use arrow2::array::Utf8Array;
use arrow2::bitmap::Bitmap;
use arrow2::chunk::Chunk;
use arrow2::datatypes::DataType;
use arrow2::datatypes::Field;
use arrow2::datatypes::IntegerType;
use arrow2::datatypes::IntervalUnit;
use arrow2::datatypes::Schema;
use arrow2::datatypes::TimeUnit;
use arrow2::datatypes::UnionMode;
use arrow2::io::parquet::read::read_metadata;
use arrow2::io::parquet::write::transverse;
use arrow2::io::parquet::write::CompressionOptions;
use arrow2::io::parquet::write::Encoding;
use arrow2::io::parquet::write::FileWriter;
use arrow2::io::parquet::write::RowGroupIterator;
use arrow2::io::parquet::write::Version;
use arrow2::io::parquet::write::WriteOptions;
use arrow2::offset::OffsetsBuffer;
use arrow2::types::days_ms;
use arrow2::types::NativeType;
use databend_query::block::BlockParts;
use databend_query::block_reader::BlockReader;
use databend_query::column::ColumnMeta;
use databend_query::column::ColumnNode;
use databend_query::column::DataItem;
use databend_query::column::ParquetColumnMeta;
use databend_query::column::TableCompression;
use databend_query::error::ErrorCode;
use databend_query::shape::check_set_up;
use databend_query::shape::shape_of;
use databend_query::shape::FieldShape;
use databend_query::shape::FieldShapes;
use databend_query::shape::PhysicalLayout;
use databend_query::shape::LeafColumn;
use databend_query::shape::LeafKind;
use databend_query::shape::LeafPhysical;
use databend_query::shape::LeafRepetition;
use databend_query::shape::LeafType;
use databend_query::shape::Number;
use databend_query::shape::SetUp;
use databend_query::shape::Unit;

/// Writes an array as the one column of a file, and reads it as a field. `None` if it cannot be read.
fn read_as(written: Field, array: &Box<dyn Array>, field: Field) -> Option<Result<Box<dyn Array>, ErrorCode>> {
    read_encoded(written, array, field, Encoding::Plain, Version::V2)
}

/// Writes an array in an encoding as the one column of a file, and reads it as a field.
fn read_encoded(
    written: Field,
    array: &Box<dyn Array>,
    field: Field,
    encoding: Encoding,
    version: Version,
) -> Option<Result<Box<dyn Array>, ErrorCode>> {
    let rows = array.len();
    let schema = Schema::from(vec![written]);
    let options = WriteOptions {
        write_statistics: false,
        compression: CompressionOptions::Uncompressed,
        version,
        data_pagesize_limit: None,
    };
    let encodings = vec![transverse(&schema.fields[0].data_type, |_| encoding)];
    let chunk = Chunk::new(vec![array.clone()]);
    let groups =
        RowGroupIterator::try_new(vec![Ok(chunk)].into_iter(), &schema, options, encodings).unwrap();
    let mut writer = FileWriter::try_new(Cursor::new(Vec::new()), schema, options).unwrap();
    for group in groups {
        writer.write(group.unwrap()).unwrap();
    }
    writer.end(None).unwrap();
    let file = writer.into_inner().into_inner();
    let metadata = read_metadata(&mut Cursor::new(&file)).unwrap();
    let columns = metadata.row_groups[0].columns();
    let mut metas = HashMap::new();
    let mut chunks = HashMap::new();
    for (i, column) in columns.iter().enumerate() {
        let (start, len) = column.byte_range();
        let meta = ParquetColumnMeta { offset: start, num_values: column.num_values() as u64 };
        metas.insert(i as u32, ColumnMeta::Parquet(meta));
        chunks.insert(i as u32, DataItem::RawData(&file[start as usize..(start + len) as usize]));
    }
    let leaves: Vec<usize> = (0..columns.len()).collect();
    let ids: Vec<u32> = (0..columns.len() as u32).collect();
    let node = ColumnNode::try_new(field, leaves, ids, true).unwrap();
    let reader: BlockReader<(), ()> = BlockReader::new((), vec![node], vec![], metadata.schema_descr.clone());
    let compression = TableCompression::Uncompressed;
    let read =
        reader.try_deserialize_parquet_chunks_with_buffer("b", rows, &compression, &metas, chunks)?;
    Some(read.map(|read| match read.parts {
        BlockParts::Columns { chunk, .. } => chunk.0.arrays()[0].clone(),
        _ => panic!("no column"),
    }))
}

fn read_back(field: &Field, array: &Box<dyn Array>) -> Option<Result<Box<dyn Array>, ErrorCode>> {
    read_as(field.clone(), array, field.clone())
}

fn assert_read_back(field: Field, array: Box<dyn Array>) {
    match read_back(&field, &array) {
        Some(Ok(read)) => assert_eq!(read, array),
        Some(Err(e)) => panic!("{:?}: {:?}", field, e),
        None => panic!("{:?} cannot be read", field),
    }
}

fn assert_encoded_read_back(field: Field, array: Box<dyn Array>, encoding: Encoding) {
    for version in [Version::V1, Version::V2] {
        match read_encoded(field.clone(), &array, field.clone(), encoding, version) {
            Some(Ok(read)) => assert_eq!(read, array),
            Some(Err(e)) => panic!("{:?}: {:?}", field, e),
            None => panic!("{:?} cannot be read", field),
        }
    }
}

/// Two arrays of a primitive type: one with a null, one without.
fn assert_numbers_read_back<T: NativeType>(data_type: DataType, a: T, b: T) {
    let with_null = PrimitiveArray::<T>::from([Some(a), None, Some(b)]).to(data_type.clone());
    assert_read_back(Field::new("n", data_type.clone(), true), with_null.boxed());
    let without = PrimitiveArray::<T>::from_slice([a, b]).to(data_type.clone());
    assert_read_back(Field::new("n", data_type, false), without.boxed());
}

fn int32() -> DataType {
    DataType::Int32
}

fn field(data_type: DataType, nullable: bool) -> Field {
    Field::new("f", data_type, nullable)
}

fn list(item: Field) -> DataType {
    DataType::List(Box::new(item))
}

fn column(physical: LeafPhysical, optional: bool, def_level: i16, rep_level: i16) -> LeafColumn {
    let repetition = if optional { LeafRepetition::Optional } else { LeafRepetition::Required };
    LeafColumn { physical, repetition, def_level, rep_level, unit: None }
}

fn set_up(field: &Field, columns: &[LeafColumn]) -> SetUp {
    check_set_up(&shape_of(field), &columns.to_vec(), 3)
}

fn is_ready(field: &Field, columns: &[LeafColumn]) -> bool {
    set_up(field, columns) == SetUp::Ready
}

fn is_broken(field: &Field, columns: &[LeafColumn]) -> bool {
    set_up(field, columns) == SetUp::Broken
}

fn dictionary_of_names(keys: &[Option<i32>]) -> DictionaryArray<i32> {
    let names = Utf8Array::<i32>::from_slice(["a", "bc", "def"]).boxed();
    DictionaryArray::try_from_keys(PrimitiveArray::from(keys), names).unwrap()
}

#[test]
fn numbers_are_read_back() {
    assert_numbers_read_back(DataType::Int8, 1i8, -2);
    assert_numbers_read_back(DataType::Int16, 1i16, -2);
    assert_numbers_read_back(DataType::Int32, 1i32, -2);
    assert_numbers_read_back(DataType::Int64, 1i64, -2);
    assert_numbers_read_back(DataType::UInt8, 1u8, 200);
    assert_numbers_read_back(DataType::UInt16, 1u16, 60000);
    assert_numbers_read_back(DataType::UInt32, 1u32, 4000000000);
    assert_numbers_read_back(DataType::UInt64, 1u64, u64::MAX);
    assert_numbers_read_back(DataType::Float32, 1.5f32, -2.5);
    assert_numbers_read_back(DataType::Float64, 1.5f64, -2.5);
    assert_numbers_read_back(DataType::Date32, 1i32, -2);
    assert_numbers_read_back(DataType::Date64, 1i64, -2);
    assert_numbers_read_back(DataType::Time32(TimeUnit::Second), 1i32, 2);
    assert_numbers_read_back(DataType::Time32(TimeUnit::Millisecond), 1i32, 2);
    assert_numbers_read_back(DataType::Time64(TimeUnit::Microsecond), 1i64, 2);
    assert_numbers_read_back(DataType::Timestamp(TimeUnit::Microsecond, None), 1i64, -2);
    assert_numbers_read_back(DataType::Duration(TimeUnit::Second), 1i64, -2);
    assert_numbers_read_back(DataType::Decimal(9, 2), 12345i128, -2);
    assert_numbers_read_back(DataType::Decimal(18, 2), 12345678901i128, -2);
    assert_numbers_read_back(DataType::Decimal(30, 2), 12345678901234567890123i128, -2);
    assert_numbers_read_back(DataType::Interval(IntervalUnit::YearMonth), 1i32, 2);
    assert_numbers_read_back(DataType::Interval(IntervalUnit::DayTime), days_ms::new(1, 2), days_ms::new(3, 4));
}

#[test]
fn strings_and_booleans_are_read_back() {
    let flags = BooleanArray::from([Some(true), None, Some(false)]).boxed();
    assert_read_back(field(DataType::Boolean, true), flags);
    assert_read_back(field(DataType::Boolean, false), BooleanArray::from_slice([true, false]).boxed());
    assert_read_back(field(DataType::Utf8, true), Utf8Array::<i32>::from([Some("a"), None]).boxed());
    assert_read_back(field(DataType::LargeUtf8, false), Utf8Array::<i64>::from_slice(["a", "bc"]).boxed());
    assert_read_back(field(DataType::Binary, true), BinaryArray::<i32>::from([Some(b"a"), None]).boxed());
    assert_read_back(field(DataType::LargeBinary, false), BinaryArray::<i64>::from_slice([b"ab"]).boxed());
    let fixed = DataType::FixedSizeBinary(3);
    let array = FixedSizeBinaryArray::new(fixed.clone(), vec![1u8, 2, 3, 4, 5, 6].into(), None).boxed();
    assert_read_back(field(fixed, false), array);
    assert_read_back(field(DataType::Null, true), NullArray::new(DataType::Null, 4).boxed());
}

#[test]
fn structs_are_read_back() {
    let fields = vec![Field::new("x", int32(), true), Field::new("y", DataType::Utf8, true)];
    let data_type = DataType::Struct(fields);
    let values = || {
        vec![
            Int32Array::from([Some(1), None, Some(3)]).boxed(),
            Utf8Array::<i32>::from([Some("a"), None, None]).boxed(),
        ]
    };
    let validity = Some(Bitmap::from([true, false, true]));
    let nullable = StructArray::new(data_type.clone(), values(), validity).boxed();
    assert_read_back(field(data_type.clone(), true), nullable);
    let required = StructArray::new(data_type.clone(), values(), None).boxed();
    assert_read_back(field(data_type, false), required);
}

#[test]
fn lists_are_read_back() {
    let offsets: OffsetsBuffer<i32> = vec![0, 2, 2, 2, 3].try_into().unwrap();
    let items = Int32Array::from([Some(1), None, Some(3)]).boxed();
    let data_type = list(Field::new("item", int32(), true));
    let validity = Some(Bitmap::from([true, false, true, true]));
    let array = ListArray::new(data_type.clone(), offsets.clone(), items, validity).boxed();
    assert_read_back(field(data_type, true), array);
    let pair = DataType::Struct(vec![
        Field::new("x", int32(), false),
        Field::new("y", DataType::Int64, true),
    ]);
    let pairs = StructArray::new(
        pair.clone(),
        vec![
            Int32Array::from_slice([1, 2, 3]).boxed(),
            PrimitiveArray::<i64>::from([Some(1), None, Some(3)]).boxed(),
        ],
        None,
    );
    let data_type = list(Field::new("item", pair, false));
    let array = ListArray::new(data_type.clone(), offsets, pairs.boxed(), None).boxed();
    assert_read_back(field(data_type, false), array);
}

#[test]
fn a_list_of_one_size_is_read_from_a_list() {
    let offsets: OffsetsBuffer<i32> = vec![0, 2, 4].try_into().unwrap();
    let item = Field::new("item", int32(), false);
    let items = Int32Array::from_slice([1, 2, 3, 4]).boxed();
    let written = ListArray::new(list(item.clone()), offsets, items.clone(), None).boxed();
    let fixed = |size| DataType::FixedSizeList(Box::new(item.clone()), size);
    let expected = FixedSizeListArray::new(fixed(2), items.clone(), None).boxed();
    let read = |nullable, size| {
        read_as(field(list(item.clone()), nullable), &written, field(fixed(size), nullable))
    };
    assert_eq!(read(false, 2).unwrap().unwrap(), expected);
    assert_eq!(read(true, 2).unwrap().unwrap(), expected);
    assert_eq!(read(true, 1).unwrap().unwrap().len(), 4);
    assert!(read(false, 3).is_none());
    assert!(read(false, 0).is_none());
    let offsets: OffsetsBuffer<i32> = vec![0, 2, 2].try_into().unwrap();
    let items = Int32Array::from_slice([1, 2]).boxed();
    let null = Some(Bitmap::from([true, false]));
    let array = ListArray::new(list(item.clone()), offsets, items, null).boxed();
    assert!(read_as(field(list(item.clone()), true), &array, field(fixed(2), true)).is_none());
}

#[test]
fn a_struct_that_is_null_has_leaves_that_may_be_null() {
    let structure = |leaf, nullable| DataType::Struct(vec![Field::new("x", leaf, nullable)]);
    let read = |leaf: DataType, values: Box<dyn Array>, nullable, validity: Option<Bitmap>| {
        let data_type = structure(leaf, nullable);
        let array = StructArray::new(data_type.clone(), vec![values], validity).boxed();
        (read_back(&field(data_type, true), &array), array)
    };
    let numbers = || Int32Array::from_slice([1, 2]).boxed();
    let null = || Some(Bitmap::from([true, false]));
    let (back, array) = read(int32(), numbers(), false, None);
    assert_eq!(back.unwrap().unwrap(), array);
    let (back, _) = read(int32(), numbers(), false, null());
    assert!(back.is_none());
    let nullable = Int32Array::from([Some(1), None]).boxed();
    let (back, array) = read(int32(), nullable, true, null());
    assert_eq!(back.unwrap().unwrap(), array);
    let names = Utf8Array::<i32>::from_slice(["a", "b"]).boxed();
    let (back, _) = read(DataType::Utf8, names, false, null());
    assert!(matches!(back, Some(Err(ErrorCode::Arrow(_)))));
}

#[test]
fn a_leaf_below_a_struct_is_read_by_itself() {
    let structure = |nullable| DataType::Struct(vec![Field::new("x", int32(), nullable)]);
    let read = |nullable, values: Box<dyn Array>| {
        let array = StructArray::new(structure(nullable), vec![values], None).boxed();
        read_as(field(structure(nullable), true), &array, Field::new("x", int32(), nullable))
    };
    let numbers = || Int32Array::from_slice([1, 2, 3]).boxed();
    assert_eq!(read(false, numbers()).unwrap().unwrap(), numbers());
    assert!(read(true, numbers()).is_some());
}

#[test]
fn timestamps_of_another_unit_are_multiplied() {
    let time = |unit| DataType::Timestamp(unit, None);
    let stored = |values: &[i64]| PrimitiveArray::<i64>::from_slice(values).to(time(TimeUnit::Millisecond)).boxed();
    let read = |values: &[i64], unit| {
        read_as(field(time(TimeUnit::Millisecond), false), &stored(values), field(time(unit), false))
    };
    let expected = PrimitiveArray::<i64>::from_slice([3000, -2000]).to(time(TimeUnit::Microsecond)).boxed();
    assert_eq!(read(&[3, -2], TimeUnit::Microsecond).unwrap().unwrap(), expected);
    let most = i64::MAX / 1000000;
    assert!(read(&[most], TimeUnit::Nanosecond).unwrap().is_ok());
    assert!(read(&[most + 1], TimeUnit::Nanosecond).is_none());
    assert!(read(&[i64::MIN], TimeUnit::Microsecond).is_none());
    assert!(read(&[i64::MIN], TimeUnit::Millisecond).unwrap().is_ok());
    assert!(read(&[i64::MIN], TimeUnit::Second).unwrap().is_ok());
}

#[test]
fn dictionaries_are_read_back() {
    let data_type = DataType::Dictionary(IntegerType::Int32, Box::new(DataType::Utf8), false);
    let with_null = dictionary_of_names(&[Some(2), None, Some(0)]).boxed();
    assert_encoded_read_back(field(data_type.clone(), true), with_null, Encoding::RleDictionary);
    let without = dictionary_of_names(&[Some(1), Some(1), Some(0)]).boxed();
    assert_encoded_read_back(field(data_type, false), without, Encoding::RleDictionary);
    let data_type = DataType::Dictionary(IntegerType::Int8, Box::new(DataType::Int64), false);
    let numbers = PrimitiveArray::<i64>::from_slice([5, 6]).boxed();
    let keys = PrimitiveArray::<i8>::from([Some(1), None, Some(0)]);
    let array = DictionaryArray::try_from_keys(keys, numbers).unwrap().boxed();
    assert_encoded_read_back(field(data_type, true), array, Encoding::RleDictionary);
}

#[test]
fn a_key_fits_its_type() {
    let written = DataType::Dictionary(IntegerType::Int32, Box::new(DataType::Int32), false);
    let keys: Vec<i32> = (0..129).collect();
    let numbers = Int32Array::from_slice(&keys).boxed();
    let array = DictionaryArray::try_from_keys(PrimitiveArray::from_slice(&keys), numbers).unwrap().boxed();
    let read = |key| {
        let data_type = DataType::Dictionary(key, Box::new(DataType::Int32), false);
        read_encoded(
            field(written.clone(), false),
            &array,
            field(data_type, false),
            Encoding::RleDictionary,
            Version::V2,
        )
    };
    assert!(read(IntegerType::Int8).is_none());
    assert_eq!(read(IntegerType::UInt8).unwrap().unwrap().len(), 129);
    assert_eq!(read(IntegerType::Int32).unwrap().unwrap(), array);
}

#[test]
fn a_dictionary_is_made_of_a_page_of_its_own() {
    let names = Utf8Array::<i32>::from_slice(["a", "b"]).boxed();
    let data_type = DataType::Dictionary(IntegerType::Int32, Box::new(DataType::Utf8), false);
    let read = read_as(field(DataType::Utf8, false), &names, field(data_type, false));
    assert!(matches!(read, Some(Err(ErrorCode::Arrow(_)))));
}

#[test]
fn delta_encoded_lengths_are_read_back() {
    let names = Utf8Array::<i32>::from([Some("a"), None, Some("bcd"), Some("")]).boxed();
    assert_encoded_read_back(field(DataType::Utf8, true), names, Encoding::DeltaLengthByteArray);
    let bytes = BinaryArray::<i64>::from_slice([b"abc".as_slice(), b"", b"d"]).boxed();
    assert_encoded_read_back(field(DataType::LargeBinary, false), bytes, Encoding::DeltaLengthByteArray);
}

#[test]
fn a_map_is_read_from_a_list_of_entries() {
    let entry = DataType::Struct(vec![Field::new("key", int32(), false), Field::new("value", int32(), true)]);
    let entries = StructArray::new(
        entry.clone(),
        vec![
            Int32Array::from_slice([1, 2, 3]).boxed(),
            Int32Array::from([Some(10), None, Some(30)]).boxed(),
        ],
        None,
    )
    .boxed();
    let offsets: OffsetsBuffer<i32> = vec![0, 3].try_into().unwrap();
    let entry_field = Field::new("entries", entry, false);
    let written = ListArray::new(list(entry_field.clone()), offsets, entries.clone(), None).boxed();
    let map = DataType::Map(Box::new(entry_field.clone()), false);
    let read = read_as(field(list(entry_field), true), &written, field(map.clone(), true));
    let expected = MapArray::new(map, vec![0, 3].try_into().unwrap(), entries, None).boxed();
    assert_eq!(read.unwrap().unwrap(), expected);
}

#[test]
fn a_type_that_is_not_decoded_is_an_arrow_error() {
    let array = Int32Array::from_slice([1, 2]).boxed();
    let union = DataType::Union(vec![Field::new("x", int32(), false)], None, UnionMode::Dense);
    let read = read_as(field(int32(), false), &array, field(union, false));
    assert!(matches!(read, Some(Err(ErrorCode::Arrow(_)))));
    let read = read_as(field(int32(), false), &array, field(DataType::Float16, false));
    assert!(matches!(read, Some(Err(ErrorCode::Arrow(_)))));
    let read = read_as(field(int32(), false), &array, field(DataType::Decimal256(40, 2), false));
    assert!(matches!(read, Some(Err(ErrorCode::Arrow(_)))));
}

#[test]
fn a_shape_is_made_of_the_types_of_the_field() {
    let leaf = |kind, layout, number| LeafType { kind, layout, number };
    let time = DataType::Timestamp(TimeUnit::Second, None);
    let named = DataType::Extension("e".to_owned(), Box::new(DataType::Boolean), None);
    let structure = DataType::Struct(vec![
        Field::new("a", time, true),
        Field::new("b", DataType::LargeList(Box::new(Field::new("item", named, false))), true),
    ]);
    let fixed = DataType::FixedSizeList(Box::new(Field::new("c", structure, true)), 7);
    let flag = FieldShape::Leaf {
        nullable: false,
        extension: true,
        leaf: leaf(LeafKind::Plain, PhysicalLayout::Boolean, None),
    };
    let second = FieldShapes::Field(
        Box::new(FieldShape::List { nullable: true, large: true, item: Box::new(flag) }),
        Box::new(FieldShapes::End),
    );
    let first = FieldShape::Leaf {
        nullable: true,
        extension: false,
        leaf: leaf(LeafKind::Timestamp(Unit::Second), PhysicalLayout::Primitive, Some(Number::Int64)),
    };
    let expected = FieldShape::FixedSizeList {
        nullable: false,
        size: 7,
        item: Box::new(FieldShape::Struct {
            nullable: true,
            extension: false,
            fields: Box::new(FieldShapes::Field(Box::new(first), Box::new(second))),
        }),
    };
    assert_eq!(shape_of(&field(fixed, false)), expected);
    let bytes = FieldShape::Leaf {
        nullable: false,
        extension: false,
        leaf: leaf(LeafKind::FixedSizeBinary(5), PhysicalLayout::FixedSizeBinary, None),
    };
    assert_eq!(shape_of(&field(DataType::FixedSizeBinary(5), false)), bytes);
    let interval = FieldShape::Leaf {
        nullable: true,
        extension: false,
        leaf: leaf(LeafKind::Interval, PhysicalLayout::Primitive, Some(Number::DaysMs)),
    };
    assert_eq!(shape_of(&field(DataType::Interval(IntervalUnit::DayTime), true)), interval);
    let names = DataType::Dictionary(IntegerType::UInt16, Box::new(DataType::Int64), false);
    let values = FieldShape::Leaf {
        nullable: false,
        extension: false,
        leaf: leaf(LeafKind::Plain, PhysicalLayout::Primitive, Some(Number::Int64)),
    };
    let dictionary = FieldShape::Dictionary {
        nullable: true,
        extension: false,
        key: Some(Number::UInt16),
        values: Box::new(values),
    };
    assert_eq!(shape_of(&field(names, true)), dictionary);
    let items = FieldShape::List {
        nullable: true,
        large: false,
        item: Box::new(shape_of(&field(int32(), true))),
    };
    assert_eq!(shape_of(&field(list(field(int32(), true)), true)), items);
    let map = DataType::Map(Box::new(field(int32(), false)), true);
    match shape_of(&field(map, true)) {
        FieldShape::Mapping { nullable, entries } => {
            assert!(nullable);
            assert_eq!(*entries, shape_of(&field(int32(), false)));
        }
        shape => panic!("{:?}", shape),
    }
}

#[test]
fn a_type_is_decoded_from_the_columns_it_goes_with() {
    let plain = |physical| column(physical, false, 0, 0);
    let decimal = field(DataType::Decimal(9, 2), false);
    assert!(is_ready(&decimal, &[plain(LeafPhysical::Int32)]));
    assert!(is_ready(&decimal, &[plain(LeafPhysical::FixedLenByteArray(5))]));
    assert_eq!(set_up(&decimal, &[plain(LeafPhysical::FixedLenByteArray(17))]), SetUp::Refused);
    assert!(is_broken(&decimal, &[plain(LeafPhysical::FixedLenByteArray(0))]));
    assert!(is_broken(&decimal, &[plain(LeafPhysical::ByteArray)]));
    let number = field(DataType::Int64, true);
    assert!(is_ready(&number, &[plain(LeafPhysical::Int64)]));
    assert!(is_ready(&number, &[column(LeafPhysical::Int64, true, 2, 1)]));
    assert!(is_broken(&number, &[]));
    assert!(is_broken(&number, &[plain(LeafPhysical::Int64), plain(LeafPhysical::Int64)]));
    let time = field(DataType::Timestamp(TimeUnit::Nanosecond, None), false);
    assert!(is_ready(&time, &[plain(LeafPhysical::Int96)]));
    assert_eq!(set_up(&time, &[plain(LeafPhysical::Int32)]), SetUp::Refused);
    let bytes = field(DataType::FixedSizeBinary(0), false);
    assert!(is_broken(&bytes, &[plain(LeafPhysical::FixedLenByteArray(0))]));
    let names = DataType::Dictionary(IntegerType::Int8, Box::new(DataType::Utf8), false);
    assert!(is_ready(&field(names.clone(), false), &[plain(LeafPhysical::ByteArray)]));
    let named = DataType::Extension("e".to_owned(), Box::new(names), None);
    assert!(is_broken(&field(named, false), &[plain(LeafPhysical::ByteArray)]));
    let flags = DataType::Dictionary(IntegerType::Int8, Box::new(DataType::Boolean), false);
    assert_eq!(set_up(&field(flags, false), &[plain(LeafPhysical::Boolean)]), SetUp::Refused);
}

#[test]
fn a_struct_without_fields_is_not_decoded() {
    assert!(is_broken(&field(DataType::Struct(vec![]), true), &[]));
}

#[test]
fn a_map_is_not_decoded_in_a_struct() {
    let entry = |fields: Vec<Field>| Field::new("entries", DataType::Struct(fields), false);
    let map = |entries: Field| DataType::Map(Box::new(entries), false);
    let key = || Field::new("k", int32(), false);
    let value = || Field::new("v", int32(), false);
    let leaf = column(LeafPhysical::Int32, false, 1, 1);
    let two = || map(entry(vec![key(), value()]));
    assert!(is_ready(&field(two(), true), &[leaf, leaf]));
    assert!(is_broken(&field(two(), true), &[leaf]));
    assert!(is_broken(&field(map(entry(vec![key()])), false), &[leaf]));
    let inside = DataType::Struct(vec![Field::new("m", two(), false)]);
    assert!(is_broken(&field(inside, false), &[leaf, leaf]));
    let items = list(Field::new("m", two(), false));
    assert!(is_ready(&field(items, false), &[leaf, leaf]));
}

#[test]
fn a_union_in_a_struct_is_not_decoded() {
    let union = || DataType::Union(vec![Field::new("x", int32(), false)], None, UnionMode::Sparse);
    let leaf = column(LeafPhysical::Int32, false, 0, 0);
    assert_eq!(set_up(&field(union(), false), &[leaf]), SetUp::Refused);
    let inside = DataType::Struct(vec![Field::new("u", union(), false)]);
    assert!(is_broken(&field(inside, false), &[leaf]));
}

#[test]
fn extensions_are_decoded_where_they_are_kept() {
    let extension = |inner| DataType::Extension("e".to_owned(), Box::new(inner), None);
    let flag = |nested: bool| {
        let flag = field(extension(DataType::Boolean), false);
        if nested { field(DataType::Struct(vec![flag]), false) } else { flag }
    };
    let leaf = column(LeafPhysical::Boolean, false, 0, 0);
    assert!(is_ready(&flag(false), &[leaf]));
    assert!(is_broken(&flag(true), &[leaf]));
    let pair = extension(DataType::Struct(vec![Field::new("x", int32(), false)]));
    assert!(is_ready(&field(pair.clone(), false), &[column(LeafPhysical::Int32, false, 0, 0)]));
    let items = list(Field::new("item", pair, false));
    assert!(is_broken(&field(items, false), &[column(LeafPhysical::Int32, false, 1, 1)]));
}

#[test]
fn room_can_be_asked_for_for_the_rows() {
    let leaf = vec![column(LeafPhysical::Int32, false, 0, 0)];
    let shape = shape_of(&field(int32(), false));
    let most = isize::MAX as usize / 16;
    assert_eq!(check_set_up(&shape, &leaf, 0), SetUp::Ready);
    assert_eq!(check_set_up(&shape, &leaf, most), SetUp::Ready);
    assert_eq!(check_set_up(&shape, &leaf, most + 1), SetUp::Broken);
    assert_eq!(check_set_up(&shape, &leaf, usize::MAX), SetUp::Broken);
    let bytes = vec![column(LeafPhysical::FixedLenByteArray(64), false, 0, 0)];
    let shape = shape_of(&field(DataType::FixedSizeBinary(64), false));
    assert_eq!(check_set_up(&shape, &bytes, isize::MAX as usize / 64), SetUp::Ready);
    assert_eq!(check_set_up(&shape, &bytes, isize::MAX as usize / 64 + 1), SetUp::Broken);
}
