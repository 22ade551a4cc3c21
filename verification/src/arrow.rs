//! What the library takes from `arrow2` and `parquet2`: the outside types it carries, the names
//! by which contracts speak of what those crates compute, and the calls themselves.
//!
//! Next to nothing in this file is proved. Each item that makes a call says in its own comment what it claims.

use std::sync::Arc;

use arrow2::array::Array;
use arrow2::array::BinaryArray;
use arrow2::chunk::Chunk;
use arrow2::datatypes::DataType;
use arrow2::datatypes::Field;
use arrow2::datatypes::IntegerType;
use arrow2::datatypes::PhysicalType;
use arrow2::datatypes::PrimitiveType;
use arrow2::datatypes::TimeUnit;
use arrow2::error::Error as ArrowError;
use arrow2::io::parquet::read::column_iter_to_arrays;
use arrow2::io::parquet::read::ArrayIter;
use parquet2::compression::Compression as Codec;
use parquet2::metadata::ColumnChunkMetaData;
use parquet2::metadata::ColumnDescriptor;
use parquet2::metadata::SchemaDescriptor;
use parquet2::read::BasicDecompressor;
use parquet2::read::PageMetaData;
use parquet2::read::PageReader;
use parquet2::schema::types::PhysicalType as ParquetType;
use parquet2::schema::types::PrimitiveLogicalType;
use parquet2::schema::types::TimeUnit as ParquetTimeUnit;
use parquet2::schema::Repetition;
use vstd::prelude::*;

use crate::decoding::columns_sound;
use crate::shape::byte_string_shape;
use crate::shape::FieldShape;
use crate::shape::PhysicalLayout;
use crate::shape::LeafColumn;
use crate::shape::LeafKind;
use crate::shape::LeafPhysical;
use crate::shape::LeafRepetition;
use crate::shape::Number;
use crate::shape::Outline;
use crate::shape::OutlineParts;
use crate::shape::Unit;

verus! {

/// `arrow2::datatypes::Field`: the name and the type of a column.
#[verifier::external_type_specification]
#[verifier::external_body]
pub struct ExField(arrow2::datatypes::Field);

/// `arrow2::error::Error`: why a column could not be decoded, or a chunk not be made.
#[verifier::external_type_specification]
#[verifier::external_body]
pub struct ExArrowError(arrow2::error::Error);

/// `parquet2::compression::Compression`: the codec of a page.
#[verifier::external_type_specification]
#[verifier::external_body]
pub struct ExCodec(parquet2::compression::Compression);

/// `parquet2::metadata::ColumnDescriptor`: a leaf column of a parquet schema.
#[verifier::external_type_specification]
#[verifier::external_body]
pub struct ExColumnDescriptor(parquet2::metadata::ColumnDescriptor);

/// `parquet2::metadata::SchemaDescriptor`: a parquet schema.
#[verifier::external_type_specification]
#[verifier::external_body]
pub struct ExSchemaDescriptor(parquet2::metadata::SchemaDescriptor);

/// `parquet2::metadata::ColumnChunkMetaData`: where a column chunk lies, and what it holds.
#[verifier::external_type_specification]
#[verifier::external_body]
pub struct ExColumnChunkMetaData(parquet2::metadata::ColumnChunkMetaData);

/// An array of `arrow2` (a `Box<dyn Array>`): the values of one column, row by row.
#[verifier::external_body]
pub struct ArrowArray(pub Box<dyn Array>);

/// A chunk of `arrow2`: arrays that all have the same number of rows.
#[verifier::external_body]
pub struct ArrowChunk(pub Chunk<Box<dyn Array>>);

/// A decoder of `arrow2` (an `ArrayIter`): the arrays of a field, one chunk of rows after the other.
#[verifier::external_body]
pub struct ArrowArrays<'a>(pub ArrayIter<'a>);

/// The number of rows of an array.
pub uninterp spec fn array_len(array: ArrowArray) -> nat;

/// The values of an array of type `Binary`, row by row; `None` for an array of any other type.
pub uninterp spec fn binary_values(array: ArrowArray) -> Option<Seq<Seq<u8>>>;

/// The arrays of a chunk, in order.
pub uninterp spec fn chunk_arrays(chunk: ArrowChunk) -> Seq<ArrowArray>;

/// The error with which arrays of unequal lengths are refused as a chunk.
pub uninterp spec fn chunk_error(arrays: Seq<ArrowArray>) -> ArrowError;

/// The name of a field.
pub uninterp spec fn field_name(field: Field) -> Seq<char>;

/// The shape of a field: the types that it is made of.
pub uninterp spec fn field_shape(field: Field) -> FieldShape;

/// What more there is to know of the type of a field.
pub uninterp spec fn field_kind(field: Field) -> LeafKind;

/// How the values of a field lie in memory.
pub uninterp spec fn field_layout(field: Field) -> PhysicalLayout;

/// What a value of a field of a primitive type is in memory; `None` for a field of another type.
pub uninterp spec fn field_number(field: Field) -> Option<Number>;

/// What a key of a field of a dictionary type is; `None` for a field of another type.
pub uninterp spec fn field_key(field: Field) -> Option<Number>;

/// What a value of a leaf column of a parquet schema is, how often there is one, and the largest definition
/// level and repetition level.
pub uninterp spec fn leaf_parts(descriptor: ColumnDescriptor) -> (LeafPhysical, LeafRepetition, i16, i16);

/// The unit of the timestamps that a leaf column of a parquet schema holds, if it says that it holds such.
pub uninterp spec fn leaf_unit(descriptor: ColumnDescriptor) -> Option<Unit>;

/// The field of a given name that holds byte strings, none of them null.
pub uninterp spec fn binary_field_named(name: Seq<char>) -> Field;

/// The leaf columns of a parquet schema, in order.
pub uninterp spec fn schema_columns(schema: SchemaDescriptor) -> Seq<ColumnDescriptor>;

/// The first name on the path from the root of the schema to a leaf column.
pub uninterp spec fn column_root(descriptor: ColumnDescriptor) -> Option<Seq<char>>;

/// The codec of `parquet2` for a compression.
pub uninterp spec fn codec_of(compression: ParquetCompression) -> Codec;

/// The offset of the first data page and the compressed size that the metadata of a column chunk
/// give; `None` where the column chunk has no metadata.
pub uninterp spec fn chunk_extent(meta: ColumnChunkMetaData) -> Option<(i64, i64)>;

/// The leaf column that a column chunk belongs to.
pub uninterp spec fn chunk_descriptor(meta: ColumnChunkMetaData) -> ColumnDescriptor;

/// Why no decoder of the leaf columns of a field can be set up; `None` where one can.
pub uninterp spec fn decoder_error(
    columns: Seq<PageColumnView>,
    field: Field,
    chunk_size: Option<usize>,
    num_rows: usize,
) -> Option<ArrowError>;

/// The first array that a decoder of the leaf columns of a field gives: `None` where the pages hold no
/// rows, an error where they cannot be decoded.
pub uninterp spec fn first_array_of(
    columns: Seq<PageColumnView>,
    field: Field,
    chunk_size: Option<usize>,
    num_rows: usize,
) -> Option<Result<ArrowArray, ArrowError>>;

/// The first array that a decoder gives.
pub uninterp spec fn first_item(arrays: ArrowArrays) -> Option<Result<ArrowArray, ArrowError>>;

/// The first array that comes out of the leaf columns of a field, or why there is none.
pub open spec fn decoded_array(
    columns: Seq<PageColumnView>,
    field: Field,
    chunk_size: Option<usize>,
    num_rows: usize,
) -> Result<Option<ArrowArray>, ArrowError> {
    match decoder_error(columns, field, chunk_size, num_rows) {
        Some(e) => Err(e),
        None => match first_array_of(columns, field, chunk_size, num_rows) {
            None => Ok(None),
            Some(Ok(array)) => Ok(Some(array)),
            Some(Err(e)) => Err(e),
        },
    }
}

/// How the pages of a parquet column are compressed, as far as blocks are written that way.
#[derive(Clone, Copy, Debug, PartialEq, Eq, Structural)]
pub enum ParquetCompression {
    Uncompressed,
    Snappy,
    Gzip,
    Zstd,
    Lz4Raw,
}

/// The pages of one leaf column, and what a reader of pages has to know of them.
pub struct PageColumn<'a> {
    /// Where the column starts in its file.
    pub column_start: u64,
    /// The number of values of the column; reading stops after that many.
    pub num_values: i64,
    pub codec: Codec,
    /// The pages, back to back.
    pub data: &'a [u8],
    pub descriptor: &'a ColumnDescriptor,
}

/// The mathematical form of [`PageColumn`].
pub ghost struct PageColumnView {
    pub column_start: u64,
    pub num_values: i64,
    pub codec: Codec,
    pub data: Seq<u8>,
    pub descriptor: ColumnDescriptor,
}

impl<'a> View for PageColumn<'a> {
    type V = PageColumnView;

    open spec fn view(&self) -> PageColumnView {
        PageColumnView {
            column_start: self.column_start,
            num_values: self.num_values,
            codec: self.codec,
            data: self.data@,
            descriptor: *self.descriptor,
        }
    }
}

/// Page columns in their mathematical form, in order.
pub open spec fn page_column_views(columns: Seq<PageColumn>) -> Seq<PageColumnView> {
    columns.map_values(|column: PageColumn| column@)
}

/// How a leaf column of a parquet schema is stored.
pub open spec fn stored_leaf(descriptor: ColumnDescriptor) -> LeafColumn {
    let (physical, repetition, def_level, rep_level) = leaf_parts(descriptor);
    LeafColumn { physical, repetition, def_level, rep_level, unit: leaf_unit(descriptor) }
}

/// How the leaf columns of a parquet schema are stored, in order.
pub open spec fn stored_leaves(descriptors: Seq<ColumnDescriptor>) -> Seq<LeafColumn> {
    descriptors.map_values(|descriptor: ColumnDescriptor| stored_leaf(descriptor))
}

/// The leaf columns that pages belong to, in order.
pub open spec fn page_descriptors(columns: Seq<PageColumnView>) -> Seq<ColumnDescriptor> {
    columns.map_values(|column: PageColumnView| column.descriptor)
}

/// Whether all arrays have the same number of rows.
pub open spec fn same_rows(arrays: Seq<ArrowArray>) -> bool {
    forall|i: int, j: int|
        0 <= i < arrays.len() && 0 <= j < arrays.len() ==> #[trigger] array_len(arrays[i])
            == #[trigger] array_len(arrays[j])
}

/// `parquet2::read::PageReader::new_with_page_meta`, `parquet2::read::BasicDecompressor::new` and
/// `arrow2::io::parquet::read::column_iter_to_arrays`.
///
/// Claims that the outcome is a function of the columns, the field and the two numbers, and that an array is
/// of the type of the field, as far as that is said here for a field of byte strings. No page is filtered
/// out, pages of any size are taken, and the scratch buffers start empty: they only spare allocations.
///
/// Asks for columns that go with the field and for pages that can be decoded, or are refused: elsewhere
/// `arrow2` may panic, here or when the array is asked for, in some builds or in all, or not return. Asks for
/// one chunk, or for a field without fields below it.
///
/// Unsaid: which rows come out of which pages, and that memory is asked for for all rows at once.
#[verifier::external_body]
pub(crate) fn array_iter<'a>(
    columns: &Vec<PageColumn<'a>>,
    field: &Field,
    chunk_size: Option<usize>,
    num_rows: usize,
) -> (r: Result<ArrowArrays<'a>, ArrowError>)
    requires
        columns_sound(page_column_views(columns@), *field, num_rows),
        match chunk_size {
            Some(n) => n == num_rows,
            None => field_shape(*field) is Leaf,
        },
    ensures
        match r {
            Ok(arrays) => decoder_error(page_column_views(columns@), *field, chunk_size, num_rows) is None
                && first_item(arrays) == first_array_of(
                page_column_views(columns@),
                *field,
                chunk_size,
                num_rows,
            ),
            Err(e) => decoder_error(page_column_views(columns@), *field, chunk_size, num_rows) == Some(e),
        },
        (exists|name: Seq<char>| *field == #[trigger] binary_field_named(name)) ==> (r matches Ok(arrays)
            ==> (first_item(arrays) matches Some(Ok(array)) ==> binary_values(array) is Some)),
{
    let pages = columns.iter().map(|c| {
        let meta = PageMetaData::new(c.column_start, c.num_values, c.codec, c.descriptor.descriptor.clone());
        let reader = PageReader::new_with_page_meta(c.data, meta, Arc::new(|_, _| true), vec![], usize::MAX);
        BasicDecompressor::new(reader, vec![])
    }).collect();
    let types = columns.iter().map(|c| &c.descriptor.descriptor.primitive_type).collect();
    Ok(ArrowArrays(column_iter_to_arrays(pages, types, field.clone(), chunk_size, num_rows)?))
}

/// `next` of an `arrow2::io::parquet::read::ArrayIter`, once.
#[verifier::external_body]
pub(crate) fn first_array(arrays: ArrowArrays<'_>) -> (r: Option<Result<ArrowArray, ArrowError>>)
    ensures
        r == first_item(arrays),
{
    let mut arrays = arrays;
    Some(arrays.0.next()?.map(ArrowArray))
}

/// The variants of `parquet2::compression::Compression`, one for one.
///
/// Claims that the codec is a function of the compression.
#[verifier::external_body]
pub(crate) fn codec(compression: ParquetCompression) -> (r: Codec)
    ensures
        r == codec_of(compression),
{
    match compression {
        ParquetCompression::Uncompressed => Codec::Uncompressed,
        ParquetCompression::Snappy => Codec::Snappy,
        ParquetCompression::Gzip => Codec::Gzip,
        ParquetCompression::Zstd => Codec::Zstd,
        ParquetCompression::Lz4Raw => Codec::Lz4Raw,
    }
}

/// `is_nullable` of an `arrow2::datatypes::Field`, and `arrow2::datatypes::DataType::to_logical_type`
/// of its type, which takes an extension type for the type below it.
///
/// Claims that the fields below the field, with what else comes out, make the shape of the field. The
/// values of a dictionary come as a field of their type.
#[verifier::external_body]
pub(crate) fn outline(field: &Field) -> (r: Outline<'_>)
    ensures
        field_shape(*field) == r.shape(*field),
{
    let parts = match field.data_type.to_logical_type() {
        DataType::Dictionary(_, values, _) => OutlineParts::Dictionary(Field::new("", *values.clone(), false)),
        DataType::List(item) => OutlineParts::List(item),
        DataType::LargeList(item) => OutlineParts::LargeList(item),
        DataType::FixedSizeList(item, size) => OutlineParts::FixedSizeList(item, *size),
        DataType::Struct(fields) => OutlineParts::Struct(fields),
        DataType::Map(entries, _) => OutlineParts::Mapping(entries),
        _ => OutlineParts::Leaf,
    };
    let extension = matches!(field.data_type, DataType::Extension(..));
    Outline { nullable: field.is_nullable, extension, parts }
}

/// The variant of `arrow2::datatypes::DataType` that `arrow2::datatypes::DataType::to_logical_type` gives for
/// the type of a field, as far as it matters beside how the values lie in memory.
#[verifier::external_body]
pub(crate) fn kind(field: &Field) -> (r: LeafKind)
    ensures
        r == field_kind(*field),
{
    match field.data_type.to_logical_type() {
        DataType::FixedSizeBinary(size) => LeafKind::FixedSizeBinary(*size),
        DataType::Timestamp(TimeUnit::Second, _) => LeafKind::Timestamp(Unit::Second),
        DataType::Timestamp(TimeUnit::Millisecond, _) => LeafKind::Timestamp(Unit::Millisecond),
        DataType::Timestamp(TimeUnit::Microsecond, _) => LeafKind::Timestamp(Unit::Microsecond),
        DataType::Timestamp(TimeUnit::Nanosecond, _) => LeafKind::Timestamp(Unit::Nanosecond),
        DataType::Interval(_) => LeafKind::Interval,
        _ => LeafKind::Plain,
    }
}

/// `arrow2::datatypes::DataType::to_physical_type` of the type of a field, one for one.
#[verifier::external_body]
pub(crate) fn layout(field: &Field) -> (r: PhysicalLayout)
    ensures
        r == field_layout(*field),
{
    match field.data_type.to_physical_type() {
        PhysicalType::Null => PhysicalLayout::Null, PhysicalType::Boolean => PhysicalLayout::Boolean,
        PhysicalType::Primitive(_) => PhysicalLayout::Primitive,
        PhysicalType::Binary => PhysicalLayout::Binary, PhysicalType::Utf8 => PhysicalLayout::Utf8,
        PhysicalType::FixedSizeBinary => PhysicalLayout::FixedSizeBinary,
        PhysicalType::LargeBinary => PhysicalLayout::LargeBinary,
        PhysicalType::LargeUtf8 => PhysicalLayout::LargeUtf8, PhysicalType::List => PhysicalLayout::List,
        PhysicalType::FixedSizeList => PhysicalLayout::FixedSizeList,
        PhysicalType::LargeList => PhysicalLayout::LargeList,
        PhysicalType::Struct => PhysicalLayout::Struct, PhysicalType::Union => PhysicalLayout::Union,
        PhysicalType::Map => PhysicalLayout::Mapping,
        PhysicalType::Dictionary(_) => PhysicalLayout::Dictionary,
    }
}

/// The `arrow2::datatypes::PrimitiveType` that `arrow2::datatypes::DataType::to_physical_type` gives
/// for the type of a field, one for one.
#[verifier::external_body]
pub(crate) fn number(field: &Field) -> (r: Option<Number>)
    ensures
        r == field_number(*field),
{
    let PhysicalType::Primitive(primitive) = field.data_type.to_physical_type() else { return None };
    Some(match primitive {
        PrimitiveType::Int8 => Number::Int8, PrimitiveType::Int16 => Number::Int16,
        PrimitiveType::Int32 => Number::Int32, PrimitiveType::Int64 => Number::Int64,
        PrimitiveType::Int128 => Number::Int128, PrimitiveType::Int256 => Number::Int256,
        PrimitiveType::UInt8 => Number::UInt8, PrimitiveType::UInt16 => Number::UInt16,
        PrimitiveType::UInt32 => Number::UInt32, PrimitiveType::UInt64 => Number::UInt64,
        PrimitiveType::Float16 => Number::Float16, PrimitiveType::Float32 => Number::Float32,
        PrimitiveType::Float64 => Number::Float64, PrimitiveType::DaysMs => Number::DaysMs,
        PrimitiveType::MonthDayNano => Number::MonthDayNano,
    })
}

/// The `arrow2::datatypes::IntegerType` of the keys that `arrow2::datatypes::DataType::to_physical_type`
/// gives for the type of a field, one for one.
#[verifier::external_body]
pub(crate) fn key_type(field: &Field) -> (r: Option<Number>)
    ensures
        r == field_key(*field),
{
    let PhysicalType::Dictionary(key) = field.data_type.to_physical_type() else { return None };
    Some(match key {
        IntegerType::Int8 => Number::Int8,
        IntegerType::Int16 => Number::Int16,
        IntegerType::Int32 => Number::Int32,
        IntegerType::Int64 => Number::Int64,
        IntegerType::UInt8 => Number::UInt8,
        IntegerType::UInt16 => Number::UInt16,
        IntegerType::UInt32 => Number::UInt32,
        IntegerType::UInt64 => Number::UInt64,
    })
}

/// The `descriptor` of a `parquet2::metadata::ColumnDescriptor`: the physical type, the repetition
/// and the two levels, one for one.
#[verifier::external_body]
fn parts_of_leaf(descriptor: &ColumnDescriptor) -> (r: (LeafPhysical, LeafRepetition, i16, i16))
    ensures
        r == leaf_parts(*descriptor),
{
    let physical = match descriptor.descriptor.primitive_type.physical_type {
        ParquetType::Boolean => LeafPhysical::Boolean, ParquetType::Int32 => LeafPhysical::Int32,
        ParquetType::Int64 => LeafPhysical::Int64, ParquetType::Int96 => LeafPhysical::Int96,
        ParquetType::Float => LeafPhysical::Float, ParquetType::Double => LeafPhysical::Double,
        ParquetType::ByteArray => LeafPhysical::ByteArray,
        ParquetType::FixedLenByteArray(size) => LeafPhysical::FixedLenByteArray(size),
    };
    let repetition = match descriptor.descriptor.primitive_type.field_info.repetition {
        Repetition::Required => LeafRepetition::Required, Repetition::Optional => LeafRepetition::Optional,
        Repetition::Repeated => LeafRepetition::Repeated,
    };
    (physical, repetition, descriptor.descriptor.max_def_level, descriptor.descriptor.max_rep_level)
}

/// The unit of the `logical_type` of the primitive type of a `parquet2::metadata::ColumnDescriptor`, one for
/// one, where that is the type of timestamps.
#[verifier::external_body]
fn unit_of_leaf(descriptor: &ColumnDescriptor) -> (r: Option<Unit>)
    ensures
        r == leaf_unit(*descriptor),
{
    let logical = descriptor.descriptor.primitive_type.logical_type?;
    let PrimitiveLogicalType::Timestamp { unit, .. } = logical else { return None };
    Some(match unit {
        ParquetTimeUnit::Milliseconds => Unit::Millisecond,
        ParquetTimeUnit::Microseconds => Unit::Microsecond,
        ParquetTimeUnit::Nanoseconds => Unit::Nanosecond,
    })
}

/// Tells how a leaf column of a parquet schema is stored.
pub(crate) fn leaf_column(descriptor: &ColumnDescriptor) -> (r: LeafColumn)
    ensures
        r == stored_leaf(*descriptor),
{
    let (physical, repetition, def_level, rep_level) = parts_of_leaf(descriptor);
    LeafColumn { physical, repetition, def_level, rep_level, unit: unit_of_leaf(descriptor) }
}

/// The `name` of an `arrow2::datatypes::Field`.
#[verifier::external_body]
pub(crate) fn name_of(field: &Field) -> (r: String)
    ensures
        r@ == field_name(*field),
{
    field.name.clone()
}

/// `arrow2::datatypes::Field::new`, with the type `Binary` and no nulls.
///
/// Claims that the field is a function of the name, and what its shape is.
#[verifier::external_body]
pub(crate) fn binary_field(name: String) -> (r: Field)
    ensures
        r == binary_field_named(name@),
        field_shape(r) == byte_string_shape(),
{
    Field::new(name, DataType::Binary, false)
}

/// `parquet2::metadata::SchemaDescriptor::columns`: the leaf columns of the schema.
pub assume_specification[ SchemaDescriptor::columns ](schema: &SchemaDescriptor) -> (r: &[ColumnDescriptor])
    ensures
        r@ == schema_columns(*schema),
;

/// The first entry of `path_in_schema` of a `parquet2::metadata::ColumnDescriptor`.
#[verifier::external_body]
pub(crate) fn root_name(descriptor: &ColumnDescriptor) -> (r: Option<String>)
    ensures
        match r {
            Some(name) => column_root(*descriptor) == Some(name@),
            None => column_root(*descriptor) is None,
        },
{
    descriptor.path_in_schema.first().cloned()
}

/// `data_page_offset` and `total_compressed_size` of the `meta_data` of
/// `parquet2::metadata::ColumnChunkMetaData::column_chunk`, which `metadata` hands out as well,
/// with a panic where there are none.
#[verifier::external_body]
pub(crate) fn extent(meta: &ColumnChunkMetaData) -> (r: Option<(i64, i64)>)
    ensures
        r == chunk_extent(*meta),
{
    meta.column_chunk().meta_data.as_ref().map(|m| (m.data_page_offset, m.total_compressed_size))
}

/// `parquet2::metadata::ColumnChunkMetaData::descriptor`, cloned.
#[verifier::external_body]
pub(crate) fn descriptor_of(meta: &ColumnChunkMetaData) -> (r: ColumnDescriptor)
    ensures
        r == chunk_descriptor(*meta),
{
    meta.descriptor().clone()
}

/// `clone` of a `Box<dyn arrow2::array::Array>`, which shares the values.
///
/// Claims that the clone is the same array.
#[verifier::external_body]
pub(crate) fn array_clone(array: &ArrowArray) -> (r: ArrowArray)
    ensures
        r == *array,
{
    ArrowArray(array.0.clone())
}

/// `arrow2::array::BinaryArray::values_iter` of an array that is a `BinaryArray<i32>`.
///
/// Claims that the values come row by row, and that there are none for an array of another type.
#[verifier::external_body]
pub(crate) fn values(array: &ArrowArray) -> (r: Option<Vec<Vec<u8>>>)
    ensures
        match r {
            Some(values) => binary_values(*array) == Some(values.deep_view()),
            None => binary_values(*array) is None,
        },
{
    let binary = array.0.as_any().downcast_ref::<BinaryArray<i32>>()?;
    Some(binary.values_iter().map(|value| value.to_vec()).collect())
}

/// `arrow2::chunk::Chunk::try_new`.
///
/// Claims that a chunk is made of the arrays if and only if they all have the same number of rows,
/// and that it then holds them in order. The error is a function of the arrays.
#[verifier::external_body]
pub(crate) fn chunk_try_new(arrays: Vec<ArrowArray>) -> (r: Result<ArrowChunk, ArrowError>)
    ensures
        r is Ok <==> (forall|i: int, j: int|
            0 <= i < arrays@.len() && 0 <= j < arrays@.len() ==> #[trigger] array_len(arrays@[i])
                == #[trigger] array_len(arrays@[j])),
        match r {
            Ok(chunk) => chunk_arrays(chunk) == arrays@,
            Err(e) => e == chunk_error(arrays@),
        },
{
    Chunk::try_new(arrays.into_iter().map(|array| array.0).collect()).map(ArrowChunk)
}

} // verus!
