use std::collections::HashMap;
use std::io::Cursor;
use std::sync::Arc;

use arrow2::array::Array;
use arrow2::array::Int32Array;
use arrow2::array::Int64Array;
use arrow2::array::StructArray;
use arrow2::array::Utf8Array;
use arrow2::chunk::Chunk;
use arrow2::datatypes::DataType;
use arrow2::datatypes::Field;
use arrow2::datatypes::Schema;
use arrow2::error::Error as ArrowError;
use arrow2::io::parquet::read::read_metadata;
use arrow2::io::parquet::write::transverse;
use arrow2::io::parquet::write::CompressionOptions;
use arrow2::io::parquet::write::Encoding;
use arrow2::io::parquet::write::FileWriter;
use arrow2::io::parquet::write::RowGroupIterator;
use arrow2::io::parquet::write::Version;
use arrow2::io::parquet::write::WriteOptions;
use databend_query::arrow::ArrowArray;
use databend_query::arrow::ParquetCompression;
use databend_query::block::BlockParts;
use databend_query::block::BlockRead;
use databend_query::block_model::LZ4_DEPRECATED;
use databend_query::block_reader::BlockReader;
use databend_query::column::ColumnMeta;
use databend_query::column::ColumnNode;
use databend_query::column::DataItem;
use databend_query::column::DeserializedArray;
use databend_query::column::FieldDeserializationContext;
use databend_query::column::FieldLeaf;
use databend_query::column::FusePartInfo;
use databend_query::column::ParquetColumnMeta;
use databend_query::column::SizedColumnArray;
use databend_query::column::TableCompression;
use databend_query::error::ErrorCode;
use parquet2::metadata::SchemaDescriptor;

type Reader = BlockReader<&'static str, i64>;

/// A parquet file with one row group, taken apart.
struct Stored {
    file: Vec<u8>,
    schema: SchemaDescriptor,
    metas: Vec<ParquetColumnMeta>,
    ranges: Vec<(usize, usize)>,
}

impl Stored {
    fn data(&self, leaf: usize) -> &[u8] {
        let (start, end) = self.ranges[leaf];
        &self.file[start..end]
    }

    /// The metadata of the leaves, each under its position plus ten.
    fn metas(&self) -> HashMap<u32, ColumnMeta> {
        (0..self.metas.len())
            .map(|i| (i as u32 + 10, ColumnMeta::Parquet(self.metas[i])))
            .collect()
    }

    /// The pages of the leaves, each under its position plus ten.
    fn chunks(&self) -> HashMap<u32, DataItem<'_>> {
        (0..self.metas.len())
            .map(|i| (i as u32 + 10, DataItem::RawData(self.data(i))))
            .collect()
    }
}

fn store(fields: Vec<Field>, arrays: Vec<Box<dyn Array>>, compression: CompressionOptions) -> Stored {
    let schema = Schema::from(fields);
    let options = WriteOptions {
        write_statistics: false,
        compression,
        version: Version::V2,
        data_pagesize_limit: None,
    };
    let encodings = schema
        .fields
        .iter()
        .map(|f| transverse(&f.data_type, |_| Encoding::Plain))
        .collect();
    let chunk = Chunk::new(arrays);
    let groups =
        RowGroupIterator::try_new(vec![Ok(chunk)].into_iter(), &schema, options, encodings).unwrap();
    let mut writer = FileWriter::try_new(Cursor::new(Vec::new()), schema, options).unwrap();
    for group in groups {
        writer.write(group.unwrap()).unwrap();
    }
    writer.end(None).unwrap();
    let file = writer.into_inner().into_inner();
    let metadata = read_metadata(&mut Cursor::new(&file)).unwrap();
    let columns = metadata.row_groups[0].columns();
    Stored {
        schema: metadata.schema_descr.clone(),
        metas: columns
            .iter()
            .map(|c| ParquetColumnMeta {
                offset: c.byte_range().0,
                num_values: c.num_values() as u64,
            })
            .collect(),
        ranges: columns
            .iter()
            .map(|c| {
                let (start, len) = c.byte_range();
                (start as usize, (start + len) as usize)
            })
            .collect(),
        file,
    }
}

fn numbers() -> Box<dyn Array> {
    Int32Array::from_slice([7, 8, 9]).boxed()
}

fn names() -> Box<dyn Array> {
    Utf8Array::<i32>::from([Some("a"), None, Some("ccc")]).boxed()
}

fn number_field() -> Field {
    Field::new("n", DataType::Int32, false)
}

fn name_field() -> Field {
    Field::new("s", DataType::Utf8, true)
}

fn pair_field() -> Field {
    Field::new(
        "pair",
        DataType::Struct(vec![
            Field::new("x", DataType::Int32, false),
            Field::new("y", DataType::Int64, false),
        ]),
        false,
    )
}

fn pairs() -> Box<dyn Array> {
    StructArray::new(
        pair_field().data_type,
        vec![
            Int32Array::from_slice([1, 2, 3]).boxed(),
            Int64Array::from_slice([10, 20, 30]).boxed(),
        ],
        None,
    )
    .boxed()
}

fn two_columns(compression: CompressionOptions) -> Stored {
    store(
        vec![number_field(), name_field()],
        vec![numbers(), names()],
        compression,
    )
}

fn leaf_node(field: Field, leaf: usize) -> ColumnNode {
    ColumnNode::try_new(field, vec![leaf], vec![leaf as u32 + 10], false).unwrap()
}

fn two_column_reader(stored: &Stored) -> Reader {
    BlockReader::new(
        "schema",
        vec![leaf_node(number_field(), 0), leaf_node(name_field(), 1)],
        vec![-1, -2],
        stored.schema.clone(),
    )
}

fn nested_reader(stored: &Stored) -> Reader {
    let node = ColumnNode::try_new(pair_field(), vec![0, 1], vec![10, 11], true).unwrap();
    BlockReader::new("schema", vec![node], vec![-1], stored.schema.clone())
}

fn is_readable(
    reader: &Reader,
    rows: usize,
    compression: &TableCompression,
    metas: &HashMap<u32, ColumnMeta>,
    chunks: HashMap<u32, DataItem<'_>>,
) -> bool {
    reader
        .try_deserialize_parquet_chunks_with_buffer("b", rows, compression, metas, chunks)
        .is_some()
}

fn storage_error<T>(r: Result<T, ErrorCode>) -> String {
    match r {
        Err(ErrorCode::StorageOther(message)) => message,
        Err(ErrorCode::Arrow(e)) => panic!("{:?}", e),
        Ok(_) => panic!("no error"),
    }
}

fn arrow_error<T>(r: Result<T, ErrorCode>) -> ArrowError {
    match r {
        Err(ErrorCode::Arrow(e)) => e,
        Err(ErrorCode::StorageOther(message)) => panic!("{}", message),
        Ok(_) => panic!("no error"),
    }
}

fn arrays(read: &BlockRead<'_, &'static str, i64>) -> Vec<Box<dyn Array>> {
    match &read.parts {
        BlockParts::Columns { chunk, .. } => chunk.0.arrays().to_vec(),
        BlockParts::ColumnsAndDefaults { chunk, .. } => chunk.0.arrays().to_vec(),
        BlockParts::DefaultValues { .. } => panic!("no arrays"),
    }
}

fn sized(array: Box<dyn Array>, size: usize) -> Arc<SizedColumnArray> {
    Arc::new((ArrowArray(array), size))
}

#[test]
fn columns_are_read_in_every_compression() {
    let cases = vec![
        (CompressionOptions::Uncompressed, TableCompression::Uncompressed),
        (CompressionOptions::Snappy, TableCompression::Snappy),
        (CompressionOptions::Gzip(None), TableCompression::Gzip),
        (CompressionOptions::Zstd(None), TableCompression::Zstd),
        (CompressionOptions::Lz4Raw, TableCompression::Lz4Raw),
    ];
    for (written, read_as) in cases {
        let stored = two_columns(written);
        let reader = two_column_reader(&stored);
        let read = reader
            .deserialize_parquet_chunks_with_buffer(
                "block",
                3,
                &read_as,
                &stored.metas(),
                stored.chunks(),
            )
            .unwrap();
        assert!(matches!(read.parts, BlockParts::Columns { schema: &"schema", .. }));
        assert_eq!(arrays(&read), vec![numbers(), names()]);
    }
}

#[test]
fn a_codec_that_is_not_the_tables_is_an_arrow_error() {
    let stored = two_columns(CompressionOptions::Snappy);
    let reader = two_column_reader(&stored);
    let r = reader.deserialize_parquet_chunks_with_buffer(
        "block",
        3,
        &TableCompression::Gzip,
        &stored.metas(),
        stored.chunks(),
    );
    arrow_error(r);
}

#[test]
fn decoded_columns_are_kept_under_block_and_column() {
    let stored = two_columns(CompressionOptions::Uncompressed);
    let reader = two_column_reader(&stored);
    let read = reader
        .deserialize_parquet_chunks_with_buffer(
            "a/block",
            3,
            &TableCompression::Uncompressed,
            &stored.metas(),
            stored.chunks(),
        )
        .unwrap();
    assert_eq!(read.cache_items.len(), 2);
    for (i, array) in [numbers(), names()].into_iter().enumerate() {
        let item = &read.cache_items[i];
        assert_eq!(item.key.block_path, "a/block");
        assert_eq!(item.key.column_id, i as u32 + 10);
        assert_eq!(item.array.0 .0, array);
        assert_eq!(item.array.1, stored.data(i).len());
    }
}

#[test]
fn the_cache_gives_back_what_was_kept() {
    let stored = two_columns(CompressionOptions::Zstd(None));
    let reader = two_column_reader(&stored);
    let first = reader
        .deserialize_parquet_chunks_with_buffer(
            "block",
            3,
            &TableCompression::Zstd,
            &stored.metas(),
            stored.chunks(),
        )
        .unwrap();
    let kept = sized(
        first.cache_items[1].array.0 .0.clone(),
        first.cache_items[1].array.1,
    );
    let mut chunks = stored.chunks();
    chunks.insert(11, DataItem::ColumnArray(&kept));
    let again = reader
        .deserialize_parquet_chunks_with_buffer(
            "block",
            3,
            &TableCompression::Zstd,
            &stored.metas(),
            chunks,
        )
        .unwrap();
    assert_eq!(arrays(&again), arrays(&first));
    assert_eq!(again.cache_items.len(), 1);
    assert_eq!(again.cache_items[0].key.column_id, 10);
}

#[test]
fn a_column_that_the_block_does_not_know_is_its_default() {
    let stored = two_columns(CompressionOptions::Uncompressed);
    let reader = two_column_reader(&stored);
    let mut metas = stored.metas();
    metas.remove(&10);
    let read = reader
        .deserialize_parquet_chunks_with_buffer(
            "block",
            3,
            &TableCompression::Uncompressed,
            &metas,
            stored.chunks(),
        )
        .unwrap();
    match &read.parts {
        BlockParts::ColumnsAndDefaults { schema, chunk, missing_vals, num_rows } => {
            assert_eq!(**schema, "schema");
            assert_eq!(chunk.0.arrays().to_vec(), vec![names()]);
            assert_eq!(*missing_vals, vec![Some(&-1), None]);
            assert_eq!(*num_rows, 3);
        }
        _ => panic!("no defaults"),
    }
    assert_eq!(read.cache_items.len(), 1);
}

#[test]
fn a_block_without_known_columns_is_all_defaults() {
    let stored = two_columns(CompressionOptions::Uncompressed);
    let reader = two_column_reader(&stored);
    let read = reader
        .deserialize_parquet_chunks_with_buffer(
            "block",
            5,
            &TableCompression::Uncompressed,
            &HashMap::new(),
            stored.chunks(),
        )
        .unwrap();
    match &read.parts {
        BlockParts::ColumnsAndDefaults { chunk, missing_vals, num_rows, .. } => {
            assert_eq!(chunk.0.arrays().len(), 0);
            assert_eq!(*missing_vals, vec![Some(&-1), Some(&-2)]);
            assert_eq!(*num_rows, 5);
        }
        _ => panic!("no defaults"),
    }
}

#[test]
fn a_block_of_which_nothing_was_fetched_is_made_of_default_values() {
    let stored = two_columns(CompressionOptions::Uncompressed);
    let reader = two_column_reader(&stored);
    let part = FusePartInfo {
        location: "block".to_owned(),
        nums_rows: 4,
        columns_meta: stored.metas(),
        compression: TableCompression::Lz4,
    };
    let via_part = reader.deserialize_parquet_chunks(&part, HashMap::new()).unwrap();
    let direct = reader
        .deserialize_parquet_chunks_with_buffer(
            "block",
            4,
            &TableCompression::Lz4,
            &stored.metas(),
            HashMap::new(),
        )
        .unwrap();
    for read in [via_part, direct] {
        match &read.parts {
            BlockParts::DefaultValues { schema, default_vals, num_rows } => {
                assert_eq!(**schema, "schema");
                assert_eq!(**default_vals, vec![-1, -2]);
                assert_eq!(*num_rows, 4);
            }
            _ => panic!("no defaults"),
        }
        assert!(read.cache_items.is_empty());
    }
}

#[test]
fn default_values_are_those_of_the_reader() {
    let stored = two_columns(CompressionOptions::Uncompressed);
    let reader = two_column_reader(&stored);
    match reader.build_default_values_block(9) {
        BlockParts::DefaultValues { schema, default_vals, num_rows } => {
            assert_eq!(*schema, "schema");
            assert_eq!(*default_vals, vec![-1, -2]);
            assert_eq!(num_rows, 9);
        }
        _ => panic!("no defaults"),
    }
}

#[test]
fn a_part_is_read_as_its_block() {
    let stored = two_columns(CompressionOptions::Gzip(None));
    let reader = two_column_reader(&stored);
    let part = FusePartInfo {
        location: "p/q".to_owned(),
        nums_rows: 3,
        columns_meta: stored.metas(),
        compression: TableCompression::Gzip,
    };
    let read = reader.deserialize_parquet_chunks(&part, stored.chunks()).unwrap();
    assert_eq!(arrays(&read), vec![numbers(), names()]);
    assert_eq!(read.cache_items[0].key.block_path, "p/q");
}

#[test]
fn a_nested_field_is_read_and_not_kept() {
    let stored = store(vec![pair_field()], vec![pairs()], CompressionOptions::Uncompressed);
    let reader = nested_reader(&stored);
    let read = reader
        .deserialize_parquet_chunks_with_buffer(
            "block",
            3,
            &TableCompression::Uncompressed,
            &stored.metas(),
            stored.chunks(),
        )
        .unwrap();
    assert_eq!(arrays(&read), vec![pairs()]);
    assert!(read.cache_items.is_empty());
}

#[test]
fn a_nested_field_does_not_come_from_the_cache() {
    let stored = store(vec![pair_field()], vec![pairs()], CompressionOptions::Uncompressed);
    let reader = nested_reader(&stored);
    let cached = sized(Int64Array::from_slice([10, 20, 30]).boxed(), 24);
    let mut chunks = stored.chunks();
    chunks.insert(11, DataItem::ColumnArray(&cached));
    let r = reader.deserialize_parquet_chunks_with_buffer(
        "block",
        3,
        &TableCompression::Uncompressed,
        &stored.metas(),
        chunks,
    );
    assert_eq!(
        storage_error(r),
        "unexpected nested field: nested leaf field hits cached"
    );
}

#[test]
fn a_known_column_that_was_not_fetched_is_an_error() {
    let stored = two_columns(CompressionOptions::Uncompressed);
    let reader = two_column_reader(&stored);
    let mut chunks = stored.chunks();
    chunks.remove(&11);
    let r = reader.deserialize_parquet_chunks_with_buffer(
        "block",
        3,
        &TableCompression::Uncompressed,
        &stored.metas(),
        chunks,
    );
    assert_eq!(storage_error(r), "unexpected: column data not found");
}

#[test]
fn the_first_field_that_fails_decides() {
    let stored = two_columns(CompressionOptions::Uncompressed);
    let reader = two_column_reader(&stored);
    let mut chunks = stored.chunks();
    chunks.remove(&10);
    chunks.insert(11, DataItem::RawData(&[]));
    let r = reader.deserialize_parquet_chunks_with_buffer(
        "block",
        3,
        &TableCompression::Uncompressed,
        &stored.metas(),
        chunks,
    );
    assert_eq!(storage_error(r), "unexpected: column data not found");
}

#[test]
fn pages_that_break_off_are_an_arrow_error() {
    let stored = two_columns(CompressionOptions::Uncompressed);
    let reader = two_column_reader(&stored);
    let data = stored.data(0);
    let mut chunks = stored.chunks();
    chunks.insert(10, DataItem::RawData(&data[..data.len() - 1]));
    let r = reader.deserialize_parquet_chunks_with_buffer(
        "block",
        3,
        &TableCompression::Uncompressed,
        &stored.metas(),
        chunks,
    );
    arrow_error(r);
}

#[test]
fn a_field_without_rows_names_itself() {
    let stored = two_columns(CompressionOptions::Uncompressed);
    let reader = two_column_reader(&stored);
    let r = reader.deserialize_parquet_chunks_with_buffer(
        "block",
        0,
        &TableCompression::Uncompressed,
        &stored.metas(),
        stored.chunks(),
    );
    assert_eq!(
        storage_error(r),
        "unexpected deserialization error, no array found for field n "
    );
}

#[test]
fn columns_of_unequal_length_are_an_arrow_error() {
    let stored = two_columns(CompressionOptions::Uncompressed);
    let reader = two_column_reader(&stored);
    let short = sized(Utf8Array::<i32>::from_slice(["x"]).boxed(), 1);
    let mut chunks = stored.chunks();
    chunks.insert(11, DataItem::ColumnArray(&short));
    let r = reader.deserialize_parquet_chunks_with_buffer(
        "block",
        3,
        &TableCompression::Uncompressed,
        &stored.metas(),
        chunks,
    );
    match arrow_error(r) {
        ArrowError::InvalidArgumentError(message) => assert_eq!(
            message,
            "Chunk require all its arrays to have an equal number of rows"
        ),
        e => panic!("{:?}", e),
    }
}

#[test]
fn the_deprecated_compression_is_refused() {
    let stored = two_columns(CompressionOptions::Uncompressed);
    let reader = two_column_reader(&stored);
    let r = reader.deserialize_parquet_chunks_with_buffer(
        "block",
        3,
        &TableCompression::Lz4,
        &stored.metas(),
        stored.chunks(),
    );
    let message = storage_error(r);
    assert_eq!(message, LZ4_DEPRECATED);
    assert!(message.starts_with("Deprecated compression algorithm [Lz4] detected.\n\n"));
    assert!(message.contains("by using an old compatible version [v0.8.25-nightly … v0.7.12-nightly].\n"));
    assert!(message.contains("alter table tmp_t rename to T;\n"));
}

#[test]
fn compressions_have_their_codecs() {
    let codec = |c| Reader::to_parquet_compression(&c).unwrap();
    assert_eq!(codec(TableCompression::Lz4Raw), ParquetCompression::Lz4Raw);
    assert_eq!(codec(TableCompression::Snappy), ParquetCompression::Snappy);
    assert_eq!(codec(TableCompression::Zstd), ParquetCompression::Zstd);
    assert_eq!(codec(TableCompression::Gzip), ParquetCompression::Gzip);
    assert_eq!(codec(TableCompression::Uncompressed), ParquetCompression::Uncompressed);
    assert_eq!(
        storage_error(Reader::to_parquet_compression(&TableCompression::Lz4)),
        LZ4_DEPRECATED
    );
}

#[test]
fn a_field_is_read_by_itself() {
    let stored = two_columns(CompressionOptions::Uncompressed);
    let reader = two_column_reader(&stored);
    let metas = stored.metas();
    let mut chunks = stored.chunks();
    let cached = sized(numbers(), 77);
    let compression = TableCompression::Uncompressed;
    {
        let ctx = FieldDeserializationContext {
            column_metas: &metas,
            column_chunks: &chunks,
            num_rows: 3,
            compression: &compression,
        };
        match reader.deserialize_field(&ctx, &leaf_node(number_field(), 0)).unwrap() {
            Some(DeserializedArray::Deserialized((id, array, size))) => {
                assert_eq!(id, 10);
                assert_eq!(array.0, numbers());
                assert_eq!(size, stored.data(0).len());
            }
            _ => panic!("not decoded"),
        }
    }
    chunks.insert(10, DataItem::ColumnArray(&cached));
    let ctx = FieldDeserializationContext {
        column_metas: &metas,
        column_chunks: &chunks,
        num_rows: 3,
        compression: &compression,
    };
    match reader.deserialize_field(&ctx, &leaf_node(number_field(), 0)).unwrap() {
        Some(DeserializedArray::Cached(taken)) => assert!(Arc::ptr_eq(taken, &cached)),
        _ => panic!("not cached"),
    }
    let none = HashMap::new();
    let ctx = FieldDeserializationContext {
        column_metas: &none,
        column_chunks: &chunks,
        num_rows: 3,
        compression: &compression,
    };
    assert!(reader.deserialize_field(&ctx, &leaf_node(number_field(), 0)).unwrap().is_none());
}

#[test]
fn leaves_are_decoded_to_one_array() {
    let stored = store(vec![pair_field()], vec![pairs()], CompressionOptions::Snappy);
    let metas: Vec<ColumnMeta> = stored.metas.iter().map(|m| ColumnMeta::Parquet(*m)).collect();
    let leaves: Vec<FieldLeaf<'_>> = (0..2)
        .map(|i| FieldLeaf {
            meta: &metas[i],
            data: stored.data(i),
            descriptor: &stored.schema.columns()[i],
        })
        .collect();
    let read = |compression| Reader::chunks_to_parquet_array_iter(&leaves, 3, &pair_field(), &compression);
    let mut arrays = read(TableCompression::Snappy).unwrap();
    assert_eq!(arrays.0.next().unwrap().unwrap(), pairs());
    assert!(arrays.0.next().is_none());
    assert_eq!(storage_error(read(TableCompression::Lz4)), LZ4_DEPRECATED);
}

#[test]
fn a_decoder_that_cannot_be_set_up_is_an_arrow_error() {
    let stored = two_columns(CompressionOptions::Snappy);
    let meta = ColumnMeta::Parquet(stored.metas[0]);
    let descriptor = &stored.schema.columns()[0];
    let leaves = vec![FieldLeaf { meta: &meta, data: stored.data(0), descriptor }];
    let field = Field::new("n", DataType::Float16, false);
    let compression = TableCompression::Snappy;
    assert!(Reader::check_leaves(&leaves, 3, &field, &compression));
    arrow_error(Reader::chunks_to_parquet_array_iter(&leaves, 3, &field, &compression));
}

#[test]
fn leaves_are_checked_by_themselves() {
    let stored = two_columns(CompressionOptions::Snappy);
    let meta = ColumnMeta::Parquet(stored.metas[0]);
    let descriptor = &stored.schema.columns()[0];
    let leaf = |meta| FieldLeaf { meta, data: stored.data(0), descriptor };
    let check = |leaves: Vec<FieldLeaf<'_>>, compression| {
        Reader::check_leaves(&leaves, 3, &number_field(), &compression)
    };
    assert!(check(vec![leaf(&meta)], TableCompression::Snappy));
    assert!(!check(vec![], TableCompression::Snappy));
    assert!(!check(vec![], TableCompression::Lz4));
    assert!(!check(vec![leaf(&meta), leaf(&meta)], TableCompression::Snappy));
    assert!(check(vec![leaf(&meta), leaf(&ColumnMeta::Native)], TableCompression::Lz4));
    assert!(!check(vec![leaf(&ColumnMeta::Native)], TableCompression::Snappy));
    assert!(!check(vec![leaf(&ColumnMeta::Native)], TableCompression::Lz4));
}

#[test]
fn what_becomes_of_a_field_depends_on_its_children() {
    let plain = leaf_node(number_field(), 0);
    let nested = ColumnNode::try_new(pair_field(), vec![0, 1], vec![10, 11], true).unwrap();
    match Reader::finish_field(&plain, Some(Ok(ArrowArray(numbers()))), 5).unwrap() {
        Some(DeserializedArray::Deserialized((10, array, 5))) => assert_eq!(array.0, numbers()),
        _ => panic!("not decoded"),
    }
    match Reader::finish_field(&nested, Some(Ok(ArrowArray(pairs()))), 5).unwrap() {
        Some(DeserializedArray::NoNeedToCache(array)) => assert_eq!(array.0, pairs()),
        _ => panic!("not decoded"),
    }
    assert_eq!(
        storage_error(Reader::finish_field(&nested, None, 5)),
        "unexpected deserialization error, no array found for field pair "
    );
    let failed = Reader::finish_field(&plain, Some(Err(ArrowError::Overflow)), 5);
    assert!(matches!(arrow_error(failed), ArrowError::Overflow));
}

#[test]
fn a_block_is_put_together_in_the_order_of_its_fields() {
    let stored = two_columns(CompressionOptions::Uncompressed);
    let reader: Reader = BlockReader::new("schema", vec![], vec![1, 2, 3], stored.schema.clone());
    let cached = sized(names(), 2);
    let fields = vec![
        Some(DeserializedArray::Cached(&cached)),
        None,
        Some(DeserializedArray::Deserialized((4, ArrowArray(numbers()), 6))),
    ];
    let read = reader.assemble("b", 3, &fields).unwrap().unwrap();
    match &read.parts {
        BlockParts::ColumnsAndDefaults { chunk, missing_vals, .. } => {
            assert_eq!(chunk.0.arrays().to_vec(), vec![names(), numbers()]);
            assert_eq!(*missing_vals, vec![None, Some(&2), None]);
        }
        _ => panic!("no defaults"),
    }
    assert_eq!(read.cache_items.len(), 1);
    assert_eq!(read.cache_items[0].key.column_id, 4);
    assert_eq!(read.cache_items[0].array.1, 6);
}

#[test]
fn a_default_value_is_asked_for_once_there_is_a_chunk() {
    let stored = two_columns(CompressionOptions::Uncompressed);
    let reader: Reader = BlockReader::new("schema", vec![], vec![1], stored.schema.clone());
    let number = || Some(DeserializedArray::NoNeedToCache(ArrowArray(numbers())));
    let short = || Some(DeserializedArray::NoNeedToCache(ArrowArray(Int32Array::from_slice([1]).boxed())));
    assert!(reader.assemble("b", 3, &vec![None, number()]).unwrap().is_ok());
    assert!(reader.assemble("b", 3, &vec![number(), None]).is_none());
    assert!(reader.assemble("b", 3, &vec![None, None]).is_none());
    assert!(reader.assemble("b", 3, &vec![number(), None, short()]).unwrap().is_err());
    assert!(reader.assemble("b", 3, &vec![number(), number()]).unwrap().is_ok());
}

#[test]
fn a_node_has_an_id_for_each_position() {
    assert!(ColumnNode::try_new(pair_field(), vec![0, 1], vec![10], true).is_none());
    assert!(ColumnNode::try_new(pair_field(), vec![0, 1], vec![10, 11, 12], true).is_some());
    let list = DataType::List(Box::new(number_field()));
    let node = ColumnNode::try_new(Field::new("l", list, true), vec![3], vec![13], true).unwrap();
    assert_eq!(node.field().name, "l");
    assert_eq!(*node.leaf_indices(), vec![3]);
    assert_eq!(*node.leaf_column_ids(), vec![13]);
    assert!(node.has_children());
}

#[test]
fn ids_after_those_of_the_leaves_are_not_looked_at() {
    let stored = two_columns(CompressionOptions::Uncompressed);
    let node = ColumnNode::try_new(number_field(), vec![0], vec![10, 99], false).unwrap();
    let reader: Reader = BlockReader::new("schema", vec![node], vec![], stored.schema.clone());
    let mut metas = stored.metas();
    metas.insert(99, ColumnMeta::Native);
    let read = reader
        .deserialize_parquet_chunks_with_buffer(
            "b",
            3,
            &TableCompression::Uncompressed,
            &metas,
            stored.chunks(),
        )
        .unwrap();
    assert_eq!(arrays(&read), vec![numbers()]);
    let bare = ColumnNode::try_new(number_field(), vec![], vec![10], false).unwrap();
    let reader: Reader = BlockReader::new("schema", vec![bare], vec![7], stored.schema.clone());
    let read = reader
        .deserialize_parquet_chunks_with_buffer(
            "b",
            3,
            &TableCompression::Uncompressed,
            &metas,
            stored.chunks(),
        )
        .unwrap();
    assert!(matches!(&read.parts, BlockParts::ColumnsAndDefaults { missing_vals, .. } if *missing_vals == vec![Some(&7)]));
}

#[test]
fn a_leaf_lies_in_the_schema_where_its_pages_are_at_hand() {
    let stored = two_columns(CompressionOptions::Uncompressed);
    let compression = TableCompression::Uncompressed;
    let node = ColumnNode::try_new(number_field(), vec![2], vec![10], false).unwrap();
    let reader: Reader = BlockReader::new("schema", vec![node], vec![5], stored.schema.clone());
    assert!(!is_readable(&reader, 3, &compression, &stored.metas(), stored.chunks()));
    let no_metas = HashMap::new();
    assert!(is_readable(&reader, 3, &compression, &no_metas, stored.chunks()));
    let cached = sized(numbers(), 12);
    let mut chunks = stored.chunks();
    chunks.insert(10, DataItem::ColumnArray(&cached));
    assert!(is_readable(&reader, 3, &compression, &stored.metas(), chunks));
}

#[test]
fn a_field_has_a_default_where_the_block_does_not_have_it() {
    let stored = two_columns(CompressionOptions::Uncompressed);
    let compression = TableCompression::Uncompressed;
    let make = |defaults| -> Reader {
        BlockReader::new(
            "schema",
            vec![leaf_node(number_field(), 0), leaf_node(name_field(), 1)],
            defaults,
            stored.schema.clone(),
        )
    };
    let without_defaults = make(vec![]);
    let read = without_defaults
        .deserialize_parquet_chunks_with_buffer("b", 3, &compression, &stored.metas(), stored.chunks())
        .unwrap();
    assert_eq!(arrays(&read), vec![numbers(), names()]);
    let mut metas = stored.metas();
    assert!(is_readable(&make(vec![]), 3, &compression, &metas, stored.chunks()));
    metas.remove(&11);
    assert!(!is_readable(&make(vec![0]), 3, &compression, &metas, stored.chunks()));
    assert!(is_readable(&make(vec![0, 0]), 3, &compression, &metas, stored.chunks()));
    let mut chunks = stored.chunks();
    chunks.remove(&10);
    assert!(is_readable(&make(vec![0]), 3, &compression, &metas, chunks));
    assert!(is_readable(&make(vec![0]), 0, &compression, &metas, stored.chunks()));
}

#[test]
fn leaves_after_an_unknown_one_are_not_looked_at() {
    let stored = two_columns(CompressionOptions::Uncompressed);
    let reader = two_column_reader(&stored);
    let node = ColumnNode::try_new(pair_field(), vec![8, 9], vec![7, 8], true).unwrap();
    let mut metas = HashMap::new();
    metas.insert(8, ColumnMeta::Parquet(ParquetColumnMeta { offset: 0, num_values: 1 }));
    let ctx = FieldDeserializationContext {
        column_metas: &metas,
        column_chunks: &HashMap::new(),
        num_rows: 1,
        compression: &TableCompression::Uncompressed,
    };
    assert!(reader.check_field(&ctx, &node));
    assert!(reader.deserialize_field(&ctx, &node).unwrap().is_none());
}

#[test]
fn a_block_without_known_columns_is_made_as_the_default_block_is() {
    let stored = two_columns(CompressionOptions::Uncompressed);
    let reader = two_column_reader(&stored);
    let read = reader
        .deserialize_parquet_chunks_with_buffer(
            "block",
            5,
            &TableCompression::Lz4,
            &HashMap::new(),
            stored.chunks(),
        )
        .unwrap();
    assert!(read.cache_items.is_empty());
    match (&read.parts, reader.build_default_values_block(5)) {
        (
            BlockParts::ColumnsAndDefaults { schema, chunk, missing_vals, num_rows },
            BlockParts::DefaultValues { schema: same_schema, default_vals, num_rows: same_rows },
        ) => {
            assert_eq!(**schema, *same_schema);
            assert_eq!(chunk.0.arrays().len(), 0);
            assert_eq!(*missing_vals, default_vals.iter().map(Some).collect::<Vec<_>>());
            assert_eq!(*num_rows, same_rows);
        }
        _ => panic!("no defaults"),
    }
}

#[test]
fn a_part_that_cannot_be_read_is_told_apart() {
    let stored = two_columns(CompressionOptions::Snappy);
    let reader = two_column_reader(&stored);
    let mut part = FusePartInfo {
        location: "p".to_owned(),
        nums_rows: 3,
        columns_meta: stored.metas(),
        compression: TableCompression::Snappy,
    };
    let read = reader.try_deserialize_parquet_chunks(&part, stored.chunks()).unwrap().unwrap();
    assert_eq!(arrays(&read), vec![numbers(), names()]);
    part.columns_meta.insert(10, ColumnMeta::Native);
    assert!(reader.try_deserialize_parquet_chunks(&part, stored.chunks()).is_none());
}

#[test]
fn a_block_has_all_leaves_of_a_field_or_none() {
    let stored = store(vec![pair_field()], vec![pairs()], CompressionOptions::Uncompressed);
    let reader = nested_reader(&stored);
    let check = |metas: &HashMap<u32, ColumnMeta>, compression| {
        is_readable(&reader, 3, &compression, metas, stored.chunks())
    };
    let mut metas = stored.metas();
    assert!(check(&metas, TableCompression::Uncompressed));
    metas.insert(11, ColumnMeta::Native);
    assert!(!check(&metas, TableCompression::Uncompressed));
    assert!(check(&metas, TableCompression::Lz4));
    metas.remove(&11);
    assert!(!check(&metas, TableCompression::Uncompressed));
    assert!(check(&metas, TableCompression::Lz4));
    metas.insert(10, ColumnMeta::Native);
    assert!(!check(&metas, TableCompression::Lz4));
    metas.remove(&10);
    assert!(check(&metas, TableCompression::Uncompressed));
}

#[test]
fn a_field_that_fails_spares_those_after_it() {
    let stored = two_columns(CompressionOptions::Uncompressed);
    let reader = two_column_reader(&stored);
    let mut metas = stored.metas();
    metas.insert(11, ColumnMeta::Native);
    let mut chunks = stored.chunks();
    let compression = TableCompression::Uncompressed;
    assert!(!is_readable(&reader, 3, &compression, &metas, stored.chunks()));
    chunks.remove(&10);
    let r = reader.deserialize_parquet_chunks_with_buffer("b", 3, &compression, &metas, chunks);
    assert_eq!(storage_error(r), "unexpected: column data not found");
    assert!(is_readable(&reader, 3, &compression, &metas, HashMap::new()));
    let data = stored.data(0);
    let mut chunks = stored.chunks();
    chunks.insert(10, DataItem::RawData(&data[..data.len() - 1]));
    assert!(is_readable(&reader, 3, &compression, &metas, chunks));
}

#[test]
fn a_field_is_checked_by_itself() {
    let stored = two_columns(CompressionOptions::Uncompressed);
    let reader = two_column_reader(&stored);
    let metas = stored.metas();
    let node = leaf_node(number_field(), 0);
    let check = |chunks: &HashMap<u32, DataItem<'_>>, compression| {
        reader.check_field(
            &FieldDeserializationContext {
                column_metas: &metas,
                column_chunks: chunks,
                num_rows: 3,
                compression: &compression,
            },
            &node,
        )
    };
    assert!(check(&stored.chunks(), TableCompression::Uncompressed));
    assert!(check(&stored.chunks(), TableCompression::Lz4));
    assert!(check(&HashMap::new(), TableCompression::Snappy));
    let node = leaf_node(Field::new("n", DataType::Int64, false), 0);
    let ctx = FieldDeserializationContext {
        column_metas: &metas,
        column_chunks: &stored.chunks(),
        num_rows: 3,
        compression: &TableCompression::Uncompressed,
    };
    assert!(!reader.check_field(&ctx, &node));
}
