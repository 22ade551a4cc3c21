use std::io::Cursor;

use arrow2::array::Array;
use arrow2::array::BinaryArray;
use arrow2::array::Int32Array;
use arrow2::chunk::Chunk;
use arrow2::datatypes::DataType;
use arrow2::datatypes::Field;
use arrow2::datatypes::Schema;
use arrow2::error::Error as ArrowError;
use arrow2::io::parquet::read::read_metadata;
use arrow2::io::parquet::write::CompressionOptions;
use arrow2::io::parquet::write::Encoding;
use arrow2::io::parquet::write::FileWriter;
use arrow2::io::parquet::write::RowGroupIterator;
use arrow2::io::parquet::write::Version;
use arrow2::io::parquet::write::WriteOptions;
use databend_query::arrow::ArrowArray;
use databend_query::bloom::BloomIndexColumnReader;
use databend_query::bloom::LoadParams;
use databend_query::bloom::Xor8Loader;
use databend_query::decimal::append_decimal;
use databend_query::error::ErrorCode;
use parquet2::metadata::ColumnChunkMetaData;
use parquet2::schema::types::PhysicalType;

/// An index with one filter for each of some columns, and what it says of them.
fn index(filters: &[&[u8]]) -> (Vec<u8>, Vec<ColumnChunkMetaData>) {
    let fields: Vec<Field> = (0..filters.len())
        .map(|i| Field::new(format!("Bloom({})", i), DataType::Binary, false))
        .collect();
    let arrays: Vec<Box<dyn Array>> = filters
        .iter()
        .map(|f| BinaryArray::<i32>::from_slice([f]).boxed())
        .collect();
    write(fields, arrays)
}

/// An index with one column that may be null, and what it says of it.
fn nullable_index(filter: Option<&[u8]>) -> (Vec<u8>, Vec<ColumnChunkMetaData>) {
    let field = Field::new("Bloom(0)", DataType::Binary, true);
    write(vec![field], vec![BinaryArray::<i32>::from([filter]).boxed()])
}

fn write(fields: Vec<Field>, arrays: Vec<Box<dyn Array>>) -> (Vec<u8>, Vec<ColumnChunkMetaData>) {
    let encodings = fields.iter().map(|_| vec![Encoding::Plain]).collect();
    let schema = Schema::from(fields);
    let options = WriteOptions {
        write_statistics: false,
        compression: CompressionOptions::Uncompressed,
        version: Version::V2,
        data_pagesize_limit: None,
    };
    let groups = RowGroupIterator::try_new(
        vec![Ok(Chunk::new(arrays))].into_iter(),
        &schema,
        options,
        encodings,
    )
    .unwrap();
    let mut writer = FileWriter::try_new(Cursor::new(Vec::new()), schema, options).unwrap();
    for group in groups {
        writer.write(group.unwrap()).unwrap();
    }
    writer.end(None).unwrap();
    let file = writer.into_inner().into_inner();
    let metadata = read_metadata(&mut Cursor::new(&file)).unwrap();
    let columns = metadata.row_groups[0].columns().to_vec();
    (file, columns)
}

fn without_metadata(meta: &ColumnChunkMetaData) -> ColumnChunkMetaData {
    let mut chunk = meta.column_chunk().clone();
    chunk.meta_data = None;
    ColumnChunkMetaData::new(chunk, meta.descriptor().clone())
}

#[test]
fn a_reader_knows_where_the_filter_lies() {
    let (_, columns) = index(&[b"one", b"two"]);
    let reader = BloomIndexColumnReader::new("i/1.parquet".to_owned(), 4294967295, &columns[1], "op");
    let loader = &reader.cached_reader.loader;
    assert_eq!(loader.offset, columns[1].data_page_offset() as u64);
    assert_eq!(loader.len, columns[1].compressed_size() as u64);
    assert_eq!(loader.cache_key, "i/1.parquet-4294967295");
    assert_eq!(loader.operator, "op");
    assert_eq!(loader.column_descriptor, *columns[1].descriptor());
    assert_eq!(reader.cached_reader.name, "bloom_index_data_cache");
    assert_eq!(reader.param.location, "i/1.parquet");
    assert_eq!(reader.param.len_hint, None);
    assert_eq!(reader.param.ver, 0);
}

#[test]
fn a_reader_needs_the_metadata_of_the_column() {
    let (_, columns) = index(&[b"one"]);
    let reader = BloomIndexColumnReader::try_new("i".to_owned(), 7, &columns[0], ()).unwrap();
    assert_eq!(reader.cached_reader.loader.cache_key, "i-7");
    let bare = without_metadata(&columns[0]);
    assert!(BloomIndexColumnReader::try_new("i".to_owned(), 7, &bare, ()).is_none());
}

#[test]
fn the_filter_is_read_back() {
    let filters: [&[u8]; 3] = [b"first filter", b"", &[0, 255, 128]];
    let (file, columns) = index(&filters);
    for i in 0..3 {
        let reader = BloomIndexColumnReader::new("i".to_owned(), i as u32, &columns[i], ());
        let loader = reader.cached_reader.loader;
        let (start, end) = loader.range();
        let bytes = &file[start as usize..end as usize];
        assert_eq!(loader.filter_bytes(bytes).unwrap().unwrap(), filters[i]);
    }
}

#[test]
fn the_range_ends_after_the_filter() {
    let (_, columns) = index(&[b"one"]);
    let loader = Xor8Loader {
        offset: 100,
        len: 23,
        cache_key: "k".to_owned(),
        operator: (),
        column_descriptor: columns[0].descriptor().clone(),
    };
    assert_eq!(loader.range(), (100, 123));
}

#[test]
fn a_range_that_breaks_off_is_an_arrow_error() {
    let (file, columns) = index(&[b"one"]);
    let reader = BloomIndexColumnReader::new("i".to_owned(), 0, &columns[0], ());
    let loader = reader.cached_reader.loader;
    let (start, end) = loader.range();
    let bytes = &file[start as usize..end as usize - 1];
    assert!(matches!(loader.filter_bytes(bytes), Some(Err(ErrorCode::Arrow(_)))));
    assert!(matches!(loader.filter_bytes(&[]), Some(Err(ErrorCode::Arrow(_)))));
}

#[test]
fn a_column_without_a_name_has_no_filter() {
    let (file, columns) = index(&[b"one"]);
    let reader = BloomIndexColumnReader::new("i".to_owned(), 0, &columns[0], ());
    let mut loader = reader.cached_reader.loader;
    loader.column_descriptor.path_in_schema.clear();
    assert!(loader.filter_bytes(&file).is_none());
}

#[test]
fn the_filter_is_read_from_a_column_of_any_type() {
    let (file, columns) = index(&[b"one"]);
    let reader = BloomIndexColumnReader::new("i".to_owned(), 0, &columns[0], ());
    let mut loader = reader.cached_reader.loader;
    let (start, end) = loader.range();
    let bytes = &file[start as usize..end as usize];
    loader.column_descriptor.descriptor.primitive_type.physical_type = PhysicalType::Int32;
    assert_eq!(loader.filter_bytes(bytes).unwrap().unwrap(), b"one");
    loader.column_descriptor.descriptor.max_def_level = 1;
    assert_eq!(loader.filter_bytes(bytes).unwrap().unwrap(), b"one");
}

#[test]
fn the_filter_is_read_from_a_nullable_column() {
    let (file, columns) = nullable_index(Some(b"one"));
    let reader = BloomIndexColumnReader::new("i".to_owned(), 0, &columns[0], ());
    let loader = reader.cached_reader.loader;
    let (start, end) = loader.range();
    assert_eq!(loader.filter_bytes(&file[start as usize..end as usize]).unwrap().unwrap(), b"one");
    let (file, columns) = nullable_index(None);
    let reader = BloomIndexColumnReader::new("i".to_owned(), 0, &columns[0], ());
    let loader = reader.cached_reader.loader;
    let (start, end) = loader.range();
    assert_eq!(loader.filter_bytes(&file[start as usize..end as usize]).unwrap().unwrap(), b"");
}

#[test]
fn a_page_that_cannot_be_decoded_has_no_filter() {
    let (file, columns) = index(&[b"one"]);
    let reader = BloomIndexColumnReader::new("i".to_owned(), 0, &columns[0], ());
    let loader = reader.cached_reader.loader;
    let (start, end) = loader.range();
    let mut bytes = file[start as usize..end as usize].to_vec();
    let length = bytes.len() - 7;
    assert_eq!(bytes[length..length + 4], [3, 0, 0, 0]);
    bytes[length] = 4;
    assert!(loader.filter_bytes(&bytes).is_none());
}

#[test]
fn the_filter_is_the_first_value() {
    let finish = Xor8Loader::<()>::finish;
    let two = ArrowArray(BinaryArray::<i32>::from_slice([b"ab", b"cd"]).boxed());
    assert_eq!(finish(Ok(Some(two))).unwrap().unwrap(), b"ab");
    let empty = ArrowArray(BinaryArray::<i32>::from_slice::<&[u8], _>([]).boxed());
    assert!(finish(Ok(Some(empty))).is_none());
    let numbers = ArrowArray(Int32Array::from_slice([1]).boxed());
    assert!(finish(Ok(Some(numbers))).is_none());
    match finish(Ok(None)) {
        Some(Err(ErrorCode::StorageOther(message))) => {
            assert_eq!(message, "bloom index data not available as expected")
        }
        _ => panic!("no error"),
    }
    assert!(matches!(
        finish(Err(ArrowError::Overflow)),
        Some(Err(ErrorCode::Arrow(ArrowError::Overflow)))
    ));
}

#[test]
fn the_cache_key_does_not_depend_on_what_is_loaded() {
    let (_, columns) = index(&[b"one"]);
    let reader = BloomIndexColumnReader::new("i".to_owned(), 3, &columns[0], ());
    let loader = &reader.cached_reader.loader;
    let other = LoadParams {
        location: "elsewhere".to_owned(),
        len_hint: Some(1),
        ver: 2,
    };
    assert_eq!(loader.cache_key(&reader.param), "i-3");
    assert_eq!(loader.cache_key(&other), "i-3");
}

#[test]
fn cache_keys_are_distinct() {
    let (_, columns) = index(&[b"one"]);
    let key = |path: &str, id| {
        BloomIndexColumnReader::new(path.to_owned(), id, &columns[0], ())
            .cached_reader
            .loader
            .cache_key
    };
    assert_eq!(key("a", 11), key("a", 11));
    assert_ne!(key("a", 1), key("a", 11));
    assert_ne!(key("a-1", 1), key("a", 11));
    assert_ne!(key("a-1", 1), key("a", 1));
}

#[test]
fn numbers_are_written_in_decimal() {
    let text = |n| {
        let mut text = "n=".to_owned();
        append_decimal(&mut text, n);
        text
    };
    assert_eq!(text(0), "n=0");
    assert_eq!(text(9), "n=9");
    assert_eq!(text(10), "n=10");
    assert_eq!(text(2345678), "n=2345678");
    assert_eq!(text(u32::MAX), "n=4294967295");
}
