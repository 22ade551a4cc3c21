use std::collections::HashMap;
use std::io::Cursor;

use arrow2::array::Array;
use arrow2::array::BinaryArray;
use arrow2::array::BooleanArray;
use arrow2::array::DictionaryArray;
use arrow2::array::FixedSizeBinaryArray;
use arrow2::array::Int32Array;
use arrow2::array::ListArray;
use arrow2::array::PrimitiveArray;
use arrow2::array::StructArray;
use arrow2::array::Utf8Array;
use arrow2::bitmap::Bitmap;
use arrow2::chunk::Chunk;
use arrow2::datatypes::DataType;
use arrow2::datatypes::Field;
use arrow2::datatypes::IntegerType;
use arrow2::datatypes::Schema;
use arrow2::io::parquet::read::read_metadata;
use arrow2::io::parquet::write::transverse;
use arrow2::io::parquet::write::CompressionOptions;
use arrow2::io::parquet::write::Encoding;
use arrow2::io::parquet::write::FileWriter;
use arrow2::io::parquet::write::RowGroupIterator;
use arrow2::io::parquet::write::Version;
use arrow2::io::parquet::write::WriteOptions;
use arrow2::offset::OffsetsBuffer;
use databend_query::block_reader::BlockReader;
use databend_query::column::ColumnMeta;
use databend_query::column::ColumnNode;
use databend_query::column::DataItem;
use databend_query::column::ParquetColumnMeta;
use databend_query::column::TableCompression;

/// Writes an array as the one column of a file, and reads it as each of some fields, each time with one byte
/// of its pages changed. A read gives a block, an error, or word that the pages cannot be decoded.
fn read_changed(written: Field, array: Box<dyn Array>, encoding: Encoding, fields: Vec<Field>) {
    for version in [Version::V1, Version::V2] {
        let schema = Schema::from(vec![written.clone()]);
        let options = WriteOptions {
            write_statistics: false,
            compression: CompressionOptions::Uncompressed,
            version,
            data_pagesize_limit: None,
        };
        let encodings = vec![transverse(&written.data_type, |_| encoding)];
        let chunk = Chunk::new(vec![array.clone()]);
        let groups =
            RowGroupIterator::try_new(vec![Ok(chunk)].into_iter(), &schema, options, encodings).unwrap();
        let mut writer = FileWriter::try_new(Cursor::new(Vec::new()), schema, options).unwrap();
        for group in groups {
            writer.write(group.unwrap()).unwrap();
        }
        writer.end(None).unwrap();
        let file = writer.into_inner().into_inner();
        let metadata = read_metadata(&mut Cursor::new(&file)).unwrap();
        let columns = metadata.row_groups[0].columns();
        let first = columns[0].byte_range().0 as usize;
        let (start, len) = columns[columns.len() - 1].byte_range();
        let end = (start + len) as usize;
        let mut metas = HashMap::new();
        for (i, column) in columns.iter().enumerate() {
            let meta = ParquetColumnMeta { offset: column.byte_range().0, num_values: column.num_values() as u64 };
            metas.insert(i as u32, ColumnMeta::Parquet(meta));
        }
        for field in &fields {
            let leaves: Vec<usize> = (0..columns.len()).collect();
            let ids: Vec<u32> = (0..columns.len() as u32).collect();
            let node = ColumnNode::try_new(field.clone(), leaves, ids, true).unwrap();
            let reader: BlockReader<(), ()> =
                BlockReader::new((), vec![node], vec![], metadata.schema_descr.clone());
            let mut changed = file.clone();
            for at in first..end {
                for value in [0, 1, 2, 3, 4, 7, 8, 16, 63, 64, 100, 127, 128, 129, 200, 254, 255] {
                    changed[at] = value;
                    let mut chunks = HashMap::new();
                    for (i, column) in columns.iter().enumerate() {
                        let (start, len) = column.byte_range();
                        let data = &changed[start as usize..(start + len) as usize];
                        chunks.insert(i as u32, DataItem::RawData(data));
                    }
                    for rows in [array.len(), 2] {
                        let compression = TableCompression::Uncompressed;
                        let chunks = chunks
                            .iter()
                            .map(|(id, item)| match item {
                                DataItem::RawData(data) => (*id, DataItem::RawData(data)),
                                DataItem::ColumnArray(array) => (*id, DataItem::ColumnArray(array)),
                            })
                            .collect();
                        let read = reader.try_deserialize_parquet_chunks_with_buffer(
                            "b",
                            rows,
                            &compression,
                            &metas,
                            chunks,
                        );
                        if value == file[at] && rows == array.len() && *field == written {
                            assert!(matches!(read, Some(Ok(_))));
                        }
                    }
                }
                changed[at] = file[at];
            }
        }
    }
}

fn field(data_type: DataType, nullable: bool) -> Field {
    Field::new("f", data_type, nullable)
}

fn numbers() -> Box<dyn Array> {
    Int32Array::from([Some(1), None, Some(3), Some(4)]).boxed()
}

fn names() -> Box<dyn Array> {
    Utf8Array::<i32>::from([Some("a"), None, Some("bcd"), Some("")]).boxed()
}

#[test]
fn changed_numbers_are_told_apart() {
    let fields = vec![
        field(DataType::Int32, true),
        field(DataType::Int64, true),
        field(DataType::Boolean, true),
        field(DataType::Float32, false),
        field(DataType::Utf8, false),
        field(DataType::FixedSizeBinary(4), true),
    ];
    read_changed(field(DataType::Int32, true), numbers(), Encoding::Plain, fields.clone());
    let required = Int32Array::from_slice([1, 2, 3, 4, 5]).boxed();
    read_changed(field(DataType::Int32, false), required, Encoding::Plain, fields);
}

#[test]
fn changed_byte_strings_are_told_apart() {
    let fields = vec![field(DataType::Utf8, true), field(DataType::LargeBinary, false)];
    read_changed(field(DataType::Utf8, true), names(), Encoding::Plain, fields.clone());
    read_changed(field(DataType::Utf8, true), names(), Encoding::DeltaLengthByteArray, fields.clone());
    let required = BinaryArray::<i32>::from_slice([b"abc".as_slice(), b"", b"d"]).boxed();
    read_changed(field(DataType::Binary, false), required.clone(), Encoding::Plain, fields.clone());
    read_changed(field(DataType::Binary, false), required, Encoding::DeltaLengthByteArray, fields);
}

#[test]
fn changed_booleans_and_sized_byte_strings_are_told_apart() {
    let flags = BooleanArray::from([Some(true), None, Some(false)]).boxed();
    read_changed(field(DataType::Boolean, true), flags, Encoding::Plain, vec![field(DataType::Boolean, true)]);
    let flags = BooleanArray::from_slice([true, false, true]).boxed();
    read_changed(field(DataType::Boolean, false), flags, Encoding::Plain, vec![field(DataType::Boolean, true)]);
    let fixed = DataType::FixedSizeBinary(2);
    let array = FixedSizeBinaryArray::new(fixed.clone(), vec![1u8, 2, 3, 4, 5, 6].into(), None).boxed();
    read_changed(field(fixed.clone(), false), array, Encoding::Plain, vec![field(fixed, true)]);
}

#[test]
fn changed_dictionaries_are_told_apart() {
    let values = Utf8Array::<i32>::from_slice(["a", "bc", "def"]).boxed();
    for nullable in [true, false] {
        let keys = if nullable {
            PrimitiveArray::<i32>::from([Some(2), None, Some(0), Some(1)])
        } else {
            PrimitiveArray::<i32>::from_slice([2, 1, 0, 1])
        };
        let array = DictionaryArray::try_from_keys(keys, values.clone()).unwrap().boxed();
        let dictionary = |key, values| DataType::Dictionary(key, Box::new(values), false);
        let written = field(dictionary(IntegerType::Int32, DataType::Utf8), nullable);
        let fields = vec![
            written.clone(),
            field(dictionary(IntegerType::Int8, DataType::Binary), true),
            field(dictionary(IntegerType::UInt64, DataType::Int32), true),
            field(dictionary(IntegerType::UInt64, DataType::FixedSizeBinary(3)), true),
            field(DataType::Utf8, true),
            field(DataType::Int32, true),
            field(DataType::FixedSizeBinary(3), true),
        ];
        read_changed(written, array, Encoding::RleDictionary, fields);
    }
}

fn lists(nullable: bool) -> (Field, Box<dyn Array>) {
    let offsets: OffsetsBuffer<i32> = vec![0, 2, 2, 2, 3].try_into().unwrap();
    let items = Int32Array::from([Some(1), None, Some(3)]).boxed();
    let data_type = DataType::List(Box::new(Field::new("item", DataType::Int32, true)));
    let validity = if nullable { Some(Bitmap::from([true, false, true, true])) } else { None };
    (field(data_type.clone(), nullable), ListArray::new(data_type, offsets, items, validity).boxed())
}

#[test]
fn changed_lists_are_told_apart() {
    for nullable in [true, false] {
        let (written, array) = lists(nullable);
        let item = |data_type, nullable| Box::new(Field::new("item", data_type, nullable));
        let fields = vec![
            written.clone(),
            field(DataType::LargeList(item(DataType::Int32, false)), nullable),
            field(DataType::FixedSizeList(item(DataType::Int32, true), 2), nullable),
            field(DataType::List(item(DataType::Boolean, true)), nullable),
            field(DataType::List(item(DataType::Utf8, true)), nullable),
            field(DataType::Int32, true),
            field(DataType::Struct(vec![*item(DataType::Int32, false)]), true),
        ];
        read_changed(written, array, Encoding::Plain, fields);
    }
}

#[test]
fn changed_structs_are_told_apart() {
    let structure = |nullable| {
        DataType::Struct(vec![
            Field::new("x", DataType::Int32, nullable),
            Field::new("y", DataType::Utf8, nullable),
        ])
    };
    let array = StructArray::new(
        structure(true),
        vec![numbers(), names()],
        Some(Bitmap::from([true, false, true, true])),
    );
    let fields = vec![
        field(structure(true), true),
        field(structure(true), false),
        field(structure(false), true),
        field(structure(false), false),
    ];
    read_changed(field(structure(true), true), array.boxed(), Encoding::Plain, fields);
}

#[test]
fn changed_lists_of_structs_are_told_apart() {
    let pair = DataType::Struct(vec![
        Field::new("x", DataType::Int32, false),
        Field::new("y", DataType::Int64, true),
    ]);
    let pairs = StructArray::new(
        pair.clone(),
        vec![
            Int32Array::from_slice([1, 2, 3]).boxed(),
            PrimitiveArray::<i64>::from([Some(1), None, Some(3)]).boxed(),
        ],
        None,
    );
    let offsets: OffsetsBuffer<i32> = vec![0, 2, 2, 3].try_into().unwrap();
    let entry = Field::new("item", pair, false);
    let data_type = DataType::List(Box::new(entry.clone()));
    let array = ListArray::new(data_type.clone(), offsets, pairs.boxed(), None).boxed();
    let fields = vec![
        field(data_type.clone(), false),
        field(DataType::Map(Box::new(entry.clone()), false), false),
        field(DataType::FixedSizeList(Box::new(entry), 1), true),
    ];
    read_changed(field(data_type, false), array, Encoding::Plain, fields);
}
