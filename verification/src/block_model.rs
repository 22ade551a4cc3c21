//! What reading a block means: which columns a block is made of, where their values come from, and
//! when a read fails.

use std::sync::Arc;

use arrow2::datatypes::Field;
use arrow2::error::Error as ArrowError;
use parquet2::metadata::SchemaDescriptor;
use vstd::prelude::*;

use crate::arrow::chunk_error;
use crate::arrow::codec_of;
use crate::arrow::decoder_error;
use crate::arrow::field_name;
use crate::arrow::first_array_of;
use crate::arrow::same_rows;
use crate::arrow::schema_columns;
use crate::arrow::ArrowArray;
use crate::arrow::PageColumnView;
use crate::arrow::ParquetCompression;
use crate::block::BlockPartsView;
use crate::block::BlockReadView;
use crate::block::CacheItemView;
use crate::column::ColumnId;
use crate::column::ColumnNodeView;
use crate::column::ContextView;
use crate::column::DataItem;
use crate::column::DeserializedArray;
use crate::column::FieldLeafView;
use crate::column::SizedColumnArray;
use crate::column::TableCompression;
use crate::decoding::columns_sound;
use crate::error::no_array_error;
use crate::error::ErrorCodeView;

verus! {

/// What is said of a table that is compressed in the one way that is no longer read.
pub const LZ4_DEPRECATED: &'static str = r#"Deprecated compression algorithm [Lz4] detected.

                                        The Legacy compression algorithm [Lz4] is no longer supported.
                                        To migrate data from old format, please consider re-create the table,
                                        by using an old compatible version [v0.8.25-nightly … v0.7.12-nightly].

                                        - Bring up the compatible version of databend-query
                                        - re-create the table
                                           Suppose the name of table is T
                                            ~~~
                                            create table tmp_t as select * from T;
                                            drop table T all;
                                            alter table tmp_t rename to T;
                                            ~~~
                                        Please note that the history of table T WILL BE LOST.
                                       "#;

/// The compression of the pages of a table.
pub open spec fn parquet_compression(compression: TableCompression) -> Result<
    ParquetCompression,
    ErrorCodeView,
> {
    match compression {
        TableCompression::Lz4 => Err(ErrorCodeView::StorageOther(LZ4_DEPRECATED@)),
        TableCompression::Lz4Raw => Ok(ParquetCompression::Lz4Raw),
        TableCompression::Snappy => Ok(ParquetCompression::Snappy),
        TableCompression::Zstd => Ok(ParquetCompression::Zstd),
        TableCompression::Gzip => Ok(ParquetCompression::Gzip),
        TableCompression::Uncompressed => Ok(ParquetCompression::Uncompressed),
    }
}

/// What a block has of a leaf column.
pub ghost enum LeafState<'a> {
    /// The block does not know the column.
    NoMeta,
    /// The block knows the column, but nothing was fetched of it.
    NoData,
    /// The decoded array.
    Cached(&'a Arc<SizedColumnArray>),
    /// The pages.
    Raw(Seq<u8>),
}

/// What a block has of the leaf column with a given id.
pub open spec fn leaf_state<'a>(ctx: ContextView<'a>, id: ColumnId) -> LeafState<'a> {
    if !ctx.metas.contains_key(id) {
        LeafState::NoMeta
    } else if !ctx.chunks.contains_key(id) {
        LeafState::NoData
    } else {
        match ctx.chunks[id] {
            DataItem::RawData(data) => LeafState::Raw(data@),
            DataItem::ColumnArray(sized) => LeafState::Cached(sized),
        }
    }
}

/// The first position, from `i` on, of a leaf whose pages are not at hand; the number of leaves if
/// there is none.
pub open spec fn raw_end(ctx: ContextView, ids: Seq<ColumnId>, i: nat) -> nat
    decreases ids.len() - i,
{
    if i < ids.len() && leaf_state(ctx, ids[i as int]) is Raw {
        raw_end(ctx, ids, i + 1)
    } else {
        i
    }
}

/// The number of bytes of the pages of the first `k` leaves.
pub open spec fn raw_size(ctx: ContextView, ids: Seq<ColumnId>, k: nat) -> nat
    decreases k,
{
    if k == 0 {
        0
    } else {
        raw_size(ctx, ids, (k - 1) as nat) + leaf_state(ctx, ids[k - 1])->Raw_0.len()
    }
}

/// The pages of fewer leaves have no more bytes.
pub proof fn lemma_raw_size_is_monotone(ctx: ContextView, ids: Seq<ColumnId>, i: nat, k: nat)
    requires
        i <= k,
    ensures
        raw_size(ctx, ids, i) <= raw_size(ctx, ids, k),
    decreases k,
{
    if i < k {
        lemma_raw_size_is_monotone(ctx, ids, i, (k - 1) as nat);
    }
}

/// The leaves whose pages are at hand end among the leaves.
pub proof fn lemma_raw_end_bounds(ctx: ContextView, ids: Seq<ColumnId>, i: nat)
    requires
        i <= ids.len(),
    ensures
        i <= raw_end(ctx, ids, i) <= ids.len(),
    decreases ids.len() - i,
{
    if i < ids.len() && leaf_state(ctx, ids[i as int]) is Raw {
        lemma_raw_end_bounds(ctx, ids, i + 1);
    }
}

/// Before the first leaf whose pages are not at hand, the pages of each leaf are.
pub proof fn lemma_raw_before_end(ctx: ContextView, ids: Seq<ColumnId>, i: nat, j: nat)
    requires
        i <= j < raw_end(ctx, ids, i),
    ensures
        j < ids.len(),
        leaf_state(ctx, ids[j as int]) is Raw,
    decreases j - i,
{
    if i < j {
        lemma_raw_before_end(ctx, ids, i + 1, j);
    }
}

/// What the leaves of a field come to.
pub ghost enum FieldScan<'a> {
    /// The pages of so many leaves, from the first on.
    Leaves(nat),
    /// The decoded array of the field.
    Cached(&'a Arc<SizedColumnArray>),
    /// A decoded array where there should be pages.
    NestedCached,
    /// Nothing was fetched of a leaf that the block has.
    DataNotFound,
}

/// What the leaves of a field come to. They are taken in order, up to the first one whose pages are
/// not at hand, which decides.
pub open spec fn field_scan<'a>(ctx: ContextView<'a>, node: ColumnNodeView) -> FieldScan<'a> {
    let ids = node.ids();
    let k = raw_end(ctx, ids, 0);
    if k >= ids.len() {
        FieldScan::Leaves(k)
    } else {
        match leaf_state(ctx, ids[k as int]) {
            LeafState::NoData => FieldScan::DataNotFound,
            LeafState::Cached(sized) => if node.has_children {
                FieldScan::NestedCached
            } else {
                FieldScan::Cached(sized)
            },
            _ => FieldScan::Leaves(k),
        }
    }
}

/// The first `k` leaves of a field, whose pages are at hand.
pub open spec fn field_leaves(
    schema: SchemaDescriptor,
    ctx: ContextView,
    node: ColumnNodeView,
    k: nat,
) -> Seq<FieldLeafView> {
    Seq::new(
        k,
        |i: int|
            FieldLeafView {
                meta: ctx.metas[node.ids()[i]],
                data: leaf_state(ctx, node.ids()[i])->Raw_0,
                descriptor: schema_columns(schema)[node.leaf_indices[i] as int],
            },
    )
}

/// The pages of a leaf.
pub open spec fn page_column(leaf: FieldLeafView, compression: ParquetCompression) -> PageColumnView {
    PageColumnView {
        column_start: leaf.meta->Parquet_0.offset,
        num_values: leaf.meta->Parquet_0.num_values as i64,
        codec: codec_of(compression),
        data: leaf.data,
        descriptor: leaf.descriptor,
    }
}

/// The pages of leaves, in order.
pub open spec fn page_columns(leaves: Seq<FieldLeafView>, compression: ParquetCompression) -> Seq<PageColumnView> {
    leaves.map_values(|leaf: FieldLeafView| page_column(leaf, compression))
}

/// The first array that a decoder of the leaves of a field gives, which is to have all the rows of the
/// block; or why no decoder can be set up.
pub open spec fn array_of_leaves(
    leaves: Seq<FieldLeafView>,
    num_rows: usize,
    field: Field,
    compression: TableCompression,
) -> Result<Option<Result<ArrowArray, ArrowError>>, ErrorCodeView> {
    match parquet_compression(compression) {
        Err(e) => Err(e),
        Ok(c) => match decoder_error(page_columns(leaves, c), field, Some(num_rows), num_rows) {
            Some(e) => Err(ErrorCodeView::Arrow(e)),
            None => Ok(first_array_of(page_columns(leaves, c), field, Some(num_rows), num_rows)),
        },
    }
}

/// What becomes of a field, from the first array that its leaves are decoded to: a plain column belongs in
/// the array cache, a field with columns below it does not.
pub open spec fn finished_field<'a>(
    node: ColumnNodeView,
    first: Option<Result<ArrowArray, ArrowError>>,
    size: usize,
) -> Result<Option<DeserializedArray<'a>>, ErrorCodeView> {
    match first {
        Some(Err(e)) => Err(ErrorCodeView::Arrow(e)),
        None => Err(no_array_error(field_name(node.field))),
        Some(Ok(array)) => Ok(
            Some(
                if node.has_children {
                    DeserializedArray::NoNeedToCache(array)
                } else {
                    DeserializedArray::Deserialized((node.ids()[0], array, size))
                },
            ),
        ),
    }
}

/// What comes of reading a field: its array, or nothing if the block does not have it.
pub open spec fn field_result<'a>(
    schema: SchemaDescriptor,
    ctx: ContextView<'a>,
    node: ColumnNodeView,
) -> Result<Option<DeserializedArray<'a>>, ErrorCodeView> {
    match field_scan(ctx, node) {
        FieldScan::DataNotFound => Err(
            ErrorCodeView::StorageOther("unexpected: column data not found"@),
        ),
        FieldScan::NestedCached => Err(
            ErrorCodeView::StorageOther("unexpected nested field: nested leaf field hits cached"@),
        ),
        FieldScan::Cached(sized) => Ok(Some(DeserializedArray::Cached(sized))),
        FieldScan::Leaves(k) => if k == 0 {
            Ok(None)
        } else {
            match array_of_leaves(
                field_leaves(schema, ctx, node, k),
                ctx.num_rows,
                node.field,
                ctx.compression,
            ) {
                Err(e) => Err(e),
                Ok(first) => finished_field(node, first, raw_size(ctx, node.ids(), k) as usize),
            }
        },
    }
}

/// Whether leaves can be handed to a parquet decoder: they are parquet columns, and the rows of the field can
/// be decoded from them, or are refused. A table that is refused for its compression is refused at the first
/// leaf.
pub open spec fn leaves_readable(
    leaves: Seq<FieldLeafView>,
    num_rows: usize,
    field: Field,
    compression: TableCompression,
) -> bool {
    &&& leaves.len() > 0
    &&& leaves[0].meta is Parquet
    &&& parquet_compression(compression) matches Ok(c) ==> {
        &&& forall|i: int| 0 <= i < leaves.len() ==> (#[trigger] leaves[i]).meta is Parquet
        &&& columns_sound(page_columns(leaves, c), field, num_rows)
    }
}

/// Whether a field can be read from a block: the leaves whose pages are at hand lie in the parquet
/// schema, the bytes of their pages can be counted, and, if it comes to that, they can be decoded.
pub open spec fn field_readable(schema: SchemaDescriptor, ctx: ContextView, node: ColumnNodeView) -> bool {
    let ids = node.ids();
    let end = raw_end(ctx, ids, 0);
    &&& raw_size(ctx, ids, end) <= usize::MAX
    &&& forall|i: int|
        0 <= i < end ==> (#[trigger] node.leaf_indices[i]) < schema_columns(schema).len()
    &&& field_scan(ctx, node) matches FieldScan::Leaves(k) ==> k > 0 ==> leaves_readable(
        field_leaves(schema, ctx, node, k),
        ctx.num_rows,
        node.field,
        ctx.compression,
    )
}

/// The mathematical form of a block reader.
pub ghost struct BlockReaderView<D, S> {
    pub data_schema: D,
    pub nodes: Seq<ColumnNodeView>,
    pub default_vals: Seq<S>,
    pub schema: SchemaDescriptor,
}

/// What comes of reading the first `k` of some fields, in order: what each came to, or the first
/// failure.
pub open spec fn fields_result<'a>(
    schema: SchemaDescriptor,
    ctx: ContextView<'a>,
    nodes: Seq<ColumnNodeView>,
    k: nat,
) -> Result<Seq<Option<DeserializedArray<'a>>>, ErrorCodeView>
    decreases k,
{
    if k == 0 {
        Ok(seq![])
    } else {
        match fields_result(schema, ctx, nodes, (k - 1) as nat) {
            Err(e) => Err(e),
            Ok(fields) => match field_result(schema, ctx, nodes[k - 1]) {
                Err(e) => Err(e),
                Ok(field) => Ok(fields.push(field)),
            },
        }
    }
}

/// Once a field has failed, the fields after it do not matter.
pub proof fn lemma_first_failure(
    schema: SchemaDescriptor,
    ctx: ContextView,
    nodes: Seq<ColumnNodeView>,
    i: nat,
    k: nat,
)
    requires
        i <= k,
        fields_result(schema, ctx, nodes, i) is Err,
    ensures
        fields_result(schema, ctx, nodes, k) == fields_result(schema, ctx, nodes, i),
    decreases k,
{
    if i < k {
        lemma_first_failure(schema, ctx, nodes, i, (k - 1) as nat);
    }
}

/// The fields that a block has, in order.
pub open spec fn present<'a>(fields: Seq<Option<DeserializedArray<'a>>>) -> Seq<DeserializedArray<'a>>
    decreases fields.len(),
{
    if fields.len() == 0 {
        seq![]
    } else {
        match fields.last() {
            Some(array) => present(fields.drop_last()).push(array),
            None => present(fields.drop_last()),
        }
    }
}

/// The arrays of fields, in order.
pub open spec fn arrays_of(arrays: Seq<DeserializedArray>) -> Seq<ArrowArray> {
    arrays.map_values(|array: DeserializedArray| array.array())
}

/// What is to be kept in the array cache of fields that were read: those that were decoded and are
/// plain columns, in order.
pub open spec fn cache_items_of(block_path: Seq<char>, arrays: Seq<DeserializedArray>) -> Seq<CacheItemView>
    decreases arrays.len(),
{
    if arrays.len() == 0 {
        seq![]
    } else {
        let rest = cache_items_of(block_path, arrays.drop_last());
        match arrays.last() {
            DeserializedArray::Deserialized((column_id, array, size)) => rest.push(
                CacheItemView { block_path, column_id, array: (array, size) },
            ),
            _ => rest,
        }
    }
}

/// The default values of the fields that a block does not have.
pub open spec fn missing_defaults<S>(
    fields: Seq<Option<DeserializedArray>>,
    default_vals: Seq<S>,
) -> Seq<Option<S>> {
    Seq::new(
        fields.len(),
        |i: int|
            if fields[i] is None {
                Some(default_vals[i])
            } else {
                None
            },
    )
}

/// What a block is made of that has none of the columns.
pub open spec fn default_parts<D, S>(reader: BlockReaderView<D, S>, num_rows: usize) -> BlockPartsView<D, S> {
    BlockPartsView::DefaultValues {
        schema: reader.data_schema,
        default_vals: reader.default_vals,
        num_rows,
    }
}

/// What a block is made of, from what its fields came to.
pub open spec fn assembled<D, S>(
    reader: BlockReaderView<D, S>,
    block_path: Seq<char>,
    num_rows: usize,
    fields: Seq<Option<DeserializedArray>>,
) -> Result<BlockReadView<D, S>, ErrorCodeView> {
    let arrays = arrays_of(present(fields));
    if same_rows(arrays) {
        Ok(
            BlockReadView {
                parts: if present(fields).len() == fields.len() {
                    BlockPartsView::Columns { schema: reader.data_schema, arrays }
                } else {
                    BlockPartsView::ColumnsAndDefaults {
                        schema: reader.data_schema,
                        arrays,
                        missing_vals: missing_defaults(fields, reader.default_vals),
                        num_rows,
                    }
                },
                cache_items: cache_items_of(block_path, present(fields)),
            },
        )
    } else {
        Err(ErrorCodeView::Arrow(chunk_error(arrays)))
    }
}

/// What comes of reading a block. One of which no column was fetched is made of default values.
pub open spec fn block_result<D, S>(
    reader: BlockReaderView<D, S>,
    block_path: Seq<char>,
    ctx: ContextView,
) -> Result<BlockReadView<D, S>, ErrorCodeView> {
    if ctx.chunks.is_empty() {
        Ok(BlockReadView { parts: default_parts(reader, ctx.num_rows), cache_items: seq![] })
    } else {
        match fields_result(reader.schema, ctx, reader.nodes, reader.nodes.len()) {
            Err(e) => Err(e),
            Ok(fields) => assembled(reader, block_path, ctx.num_rows, fields),
        }
    }
}

/// Whether each field that a block does not have has a default value.
pub open spec fn defaults_there(fields: Seq<Option<DeserializedArray>>, defaults: nat) -> bool {
    forall|i: int| 0 <= i < fields.len() && (#[trigger] fields[i]) is None ==> i < defaults
}

/// Whether fields can be put together to a block: each that the block does not have has a default value, or
/// the arrays of the others do not make a chunk.
pub open spec fn can_assemble(fields: Seq<Option<DeserializedArray>>, defaults: nat) -> bool {
    same_rows(arrays_of(present(fields))) ==> defaults_there(fields, defaults)
}

/// Whether a block can be read: each field can, up to the first one that fails, and, if there is none, the
/// fields can be put together.
pub open spec fn block_readable<D, S>(reader: BlockReaderView<D, S>, ctx: ContextView) -> bool {
    let nodes = reader.nodes;
    ctx.chunks.is_empty() || {
        &&& forall|j: int|
            0 <= j < nodes.len() && fields_result(reader.schema, ctx, nodes, j as nat) is Ok ==> field_readable(
                reader.schema,
                ctx,
                #[trigger] nodes[j],
            )
        &&& fields_result(reader.schema, ctx, nodes, nodes.len()) matches Ok(fields) ==> can_assemble(
            fields,
            reader.default_vals.len(),
        )
    }
}

} // verus!
