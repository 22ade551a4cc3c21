//! What a read of a block does with what it is given: which bytes each field is decoded from, for how many
//! rows, and what the block is made of.


use arrow2::datatypes::Field;
use parquet2::compression::Compression as Codec;
use parquet2::metadata::SchemaDescriptor;
use vstd::prelude::*;

use crate::arrow::array_len;
use crate::arrow::chunk_error;
use crate::arrow::codec_of;
use crate::arrow::decoder_error;
use crate::arrow::field_name;
use crate::arrow::first_array_of;
use crate::arrow::same_rows;
use crate::arrow::schema_columns;
use crate::arrow::ArrowArray;
use crate::arrow::PageColumnView;
use crate::arrow::ParquetCompression;
use crate::block::BlockColumn;
use crate::block::BlockPartsView;
use crate::block_laws::lemma_fields_come_in_order;
use crate::block_model::array_of_leaves;
use crate::block_model::arrays_of;
use crate::block_model::block_readable;
use crate::block_model::block_result;
use crate::block_model::cache_items_of;
use crate::block_model::field_leaves;
use crate::block_model::field_readable;
use crate::block_model::field_result;
use crate::block_model::fields_result;
use crate::block_model::leaves_readable;
use crate::block_model::page_columns;
use crate::block_model::parquet_compression;
use crate::block_model::present;
use crate::block_model::raw_end;
use crate::block_model::raw_size;
use crate::block_model::BlockReaderView;
use crate::block_model::LZ4_DEPRECATED;
use crate::column::ColumnMeta;
use crate::column::ColumnNodeView;
use crate::column::ContextView;
use crate::column::DataItem;
use crate::column::DeserializedArray;
use crate::column::FieldLeafView;
use crate::column::ParquetColumnMeta;
use crate::column::TableCompression;
use crate::decoding::columns_sound;
use crate::error::ErrorCodeView;

verus! {

/// Each compression of a table is the compression of the same name of its pages, but for the one that is no
/// longer read.
pub proof fn law_compressions_keep_their_names(compression: TableCompression)
    ensures
        match compression {
            TableCompression::Lz4 => parquet_compression(compression) matches Err(ErrorCodeView::StorageOther(m))
                && m == LZ4_DEPRECATED@,
            TableCompression::Lz4Raw => parquet_compression(compression) matches Ok(c) && c
                == ParquetCompression::Lz4Raw,
            TableCompression::Snappy => parquet_compression(compression) matches Ok(c) && c
                == ParquetCompression::Snappy,
            TableCompression::Zstd => parquet_compression(compression) matches Ok(c) && c
                == ParquetCompression::Zstd,
            TableCompression::Gzip => parquet_compression(compression) matches Ok(c) && c
                == ParquetCompression::Gzip,
            TableCompression::Uncompressed => parquet_compression(compression) matches Ok(c) && c
                == ParquetCompression::Uncompressed,
        },
{
}

/// What is said of a table in the compression that is no longer read tells how to get its data out, to the end.
pub proof fn law_deprecation_tells_how_to_migrate(compression: TableCompression)
    requires
        compression is Lz4,
    ensures
        parquet_compression(compression) matches Err(ErrorCodeView::StorageOther(message)) && message
            == r#"Deprecated compression algorithm [Lz4] detected.

                                        The Legacy compression algorithm [Lz4] is no longer supported.
                                        To migrate data from old format, please consider re-create the table,
                                        by using an old compatible version [v0.8.25-nightly … v0.7.12-nightly].

                                        - Bring up the compatible version of databend-query
                                        - re-create the table
                                           Suppose the name of table is T
                                            ~~~
                                            create table tmp_t as select * from T;
                                            drop table T all;
                                            alter table tmp_t rename to T;
                                            ~~~
                                        Please note that the history of table T WILL BE LOST.
                                       "#@,
{
}

/// The leaves of a field are decoded together, in order, each from its own pages, and for as many rows as are
/// asked for, all of them in one array.
pub proof fn law_leaves_are_decoded_for_all_rows(
    leaves: Seq<FieldLeafView>,
    num_rows: usize,
    field: Field,
    compression: TableCompression,
    metas: Seq<ParquetColumnMeta>,
    codec: Codec,
    columns: Seq<PageColumnView>,
)
    requires
        match compression {
            TableCompression::Lz4 => false,
            TableCompression::Lz4Raw => codec == codec_of(ParquetCompression::Lz4Raw),
            TableCompression::Snappy => codec == codec_of(ParquetCompression::Snappy),
            TableCompression::Zstd => codec == codec_of(ParquetCompression::Zstd),
            TableCompression::Gzip => codec == codec_of(ParquetCompression::Gzip),
            TableCompression::Uncompressed => codec == codec_of(ParquetCompression::Uncompressed),
        },
        columns.len() == leaves.len(),
        forall|j: int| 0 <= j < leaves.len() ==> (#[trigger] leaves[j]).meta == ColumnMeta::Parquet(metas[j]),
        forall|j: int|
            0 <= j < leaves.len() ==> #[trigger] columns[j] == (PageColumnView {
                column_start: metas[j].offset,
                num_values: metas[j].num_values as i64,
                codec,
                data: leaves[j].data,
                descriptor: leaves[j].descriptor,
            }),
    ensures
        match decoder_error(columns, field, Some(num_rows), num_rows) {
            Some(e) => array_of_leaves(leaves, num_rows, field, compression) matches Err(ErrorCodeView::Arrow(x))
                && x == e,
            None => array_of_leaves(leaves, num_rows, field, compression) matches Ok(first) && first
                == first_array_of(columns, field, Some(num_rows), num_rows),
        },
        leaves_readable(leaves, num_rows, field, compression) <==> leaves.len() > 0 && columns_sound(
            columns,
            field,
            num_rows,
        ),
{
    if let Ok(c) = parquet_compression(compression) {
        assert forall|j: int| 0 <= j < leaves.len() implies #[trigger] columns[j] == page_columns(leaves, c)[j] by {
            assert(leaves[j].meta == ColumnMeta::Parquet(metas[j]));
        }
        assert(columns =~= page_columns(leaves, c));
    }
    if leaves.len() > 0 {
        assert(leaves[0].meta == ColumnMeta::Parquet(metas[0]));
    }
}

/// The leaves before the one at `k`, whose pages are at hand, are the leaves that a field is read from.
proof fn lemma_raw_prefix(ctx: ContextView, node: ColumnNodeView, i: nat, k: nat)
    requires
        i <= k <= node.leaf_indices.len() <= node.leaf_column_ids.len(),
        forall|j: int|
            0 <= j < k ==> {
                let id = #[trigger] node.leaf_column_ids[j];
                ctx.metas.contains_key(id) && ctx.chunks.contains_key(id) && ctx.chunks[id] is RawData
            },
        k < node.leaf_indices.len() ==> {
            let id = node.leaf_column_ids[k as int];
            !(ctx.metas.contains_key(id) && ctx.chunks.contains_key(id) && ctx.chunks[id] is RawData)
        },
    ensures
        raw_end(ctx, node.ids(), i) == k,
    decreases k - i,
{
    if i < k {
        assert(node.ids()[i as int] == node.leaf_column_ids[i as int]);
        lemma_raw_prefix(ctx, node, i + 1, k);
    } else if k < node.leaf_indices.len() {
        assert(node.ids()[k as int] == node.leaf_column_ids[k as int]);
    }
}

/// A field is decoded from the pages of its own leaves, in order, up to the first leaf that the block does not
/// know: the bytes and the metadata of a leaf are those of its column id, and its column is that at its
/// position in the schema. It is decoded for all the rows of the block, to one array.
///
/// What comes out are the numbers of bytes of the first leaves: a plain column is to be kept under the id of
/// its first leaf, with the number of bytes of all of them.
pub proof fn law_field_is_decoded_from_its_own_pages<'a>(
    schema: SchemaDescriptor,
    ctx: ContextView<'a>,
    node: ColumnNodeView,
    metas: Seq<ParquetColumnMeta>,
    pages: Seq<&'a [u8]>,
    codec: Codec,
    columns: Seq<PageColumnView>,
) -> (sizes: Seq<nat>)
    requires
        match ctx.compression {
            TableCompression::Lz4 => false,
            TableCompression::Lz4Raw => codec == codec_of(ParquetCompression::Lz4Raw),
            TableCompression::Snappy => codec == codec_of(ParquetCompression::Snappy),
            TableCompression::Zstd => codec == codec_of(ParquetCompression::Zstd),
            TableCompression::Gzip => codec == codec_of(ParquetCompression::Gzip),
            TableCompression::Uncompressed => codec == codec_of(ParquetCompression::Uncompressed),
        },
        0 < columns.len() <= node.leaf_indices.len() <= node.leaf_column_ids.len(),
        columns.len() < node.leaf_indices.len() ==> !ctx.metas.contains_key(
            node.leaf_column_ids[columns.len() as int],
        ),
        forall|j: int|
            0 <= j < columns.len() ==> ctx.metas.contains_pair(
                #[trigger] node.leaf_column_ids[j],
                ColumnMeta::Parquet(metas[j]),
            ),
        forall|j: int|
            0 <= j < columns.len() ==> ctx.chunks.contains_pair(
                #[trigger] node.leaf_column_ids[j],
                DataItem::RawData(pages[j]),
            ),
        forall|j: int|
            0 <= j < columns.len() ==> #[trigger] columns[j] == (PageColumnView {
                column_start: metas[j].offset,
                num_values: metas[j].num_values as i64,
                codec,
                data: pages[j]@,
                descriptor: schema_columns(schema)[node.leaf_indices[j] as int],
            }),
    ensures
        sizes.len() == columns.len() + 1,
        sizes[0] == 0,
        forall|j: int| 0 <= j < columns.len() ==> #[trigger] sizes[j + 1] == sizes[j] + pages[j]@.len(),
        match decoder_error(columns, node.field, Some(ctx.num_rows), ctx.num_rows) {
            Some(e) => field_result(schema, ctx, node) matches Err(ErrorCodeView::Arrow(x)) && x == e,
            None => match first_array_of(columns, node.field, Some(ctx.num_rows), ctx.num_rows) {
                Some(Err(e)) => field_result(schema, ctx, node) matches Err(ErrorCodeView::Arrow(x)) && x == e,
                None => field_result(schema, ctx, node) matches Err(ErrorCodeView::StorageOther(message))
                    && message == "unexpected deserialization error, no array found for field "@ + field_name(
                    node.field,
                ) + " "@,
                Some(Ok(array)) => if node.has_children {
                    field_result(schema, ctx, node) matches Ok(Some(DeserializedArray::NoNeedToCache(decoded)))
                        && decoded == array
                } else {
                    field_result(schema, ctx, node) matches Ok(
                        Some(DeserializedArray::Deserialized((id, decoded, size))),
                    ) && id == node.leaf_column_ids[0] && decoded == array && (sizes.last() <= usize::MAX ==> size
                        == sizes.last())
                },
            },
        },
        field_readable(schema, ctx, node) <==> {
            &&& sizes.last() <= usize::MAX
            &&& forall|j: int|
                0 <= j < columns.len() ==> (#[trigger] node.leaf_indices[j]) < schema_columns(schema).len()
            &&& columns_sound(columns, node.field, ctx.num_rows)
        },
{
    let ids = node.ids();
    let k = columns.len();
    let leaves = field_leaves(schema, ctx, node, k);
    assert forall|j: int| 0 <= j < k implies {
        let id = #[trigger] node.leaf_column_ids[j];
        ctx.metas.contains_key(id) && ctx.chunks.contains_key(id) && ctx.chunks[id] is RawData
    } by {
        assert(ctx.chunks.contains_pair(node.leaf_column_ids[j], DataItem::RawData(pages[j])));
    }
    lemma_raw_prefix(ctx, node, 0, k);
    let sizes = Seq::new(k + 1, |j: int| raw_size(ctx, ids, j as nat));
    assert forall|j: int| 0 <= j < k implies (#[trigger] leaves[j]).meta == ColumnMeta::Parquet(metas[j])
        && leaves[j].data == pages[j]@ && leaves[j].descriptor == schema_columns(
        schema,
    )[node.leaf_indices[j] as int] && sizes[j + 1] == sizes[j] + pages[j]@.len() by {
        assert(ids[j] == node.leaf_column_ids[j]);
        assert(ctx.chunks.contains_pair(node.leaf_column_ids[j], DataItem::RawData(pages[j])));
    }
    assert forall|j: int| 0 <= j < k implies #[trigger] sizes[j + 1] == sizes[j] + pages[j]@.len() by {
        assert(leaves[j].data == pages[j]@);
    }
    assert forall|j: int| 0 <= j < k implies #[trigger] columns[j] == (PageColumnView {
        column_start: metas[j].offset,
        num_values: metas[j].num_values as i64,
        codec,
        data: leaves[j].data,
        descriptor: leaves[j].descriptor,
    }) by {
        assert(leaves[j].data == pages[j]@);
    }
    law_leaves_are_decoded_for_all_rows(leaves, ctx.num_rows, node.field, ctx.compression, metas, codec, columns);
    assert(ids[0] == node.leaf_column_ids[0]);
    if k < node.leaf_indices.len() {
        assert(ids[k as int] == node.leaf_column_ids[k as int]);
    }
    sizes
}

/// A field all of whose leaves are at hand is decoded from the pages of all of them, each its own.
pub proof fn lemma_whole_field<'a>(schema: SchemaDescriptor, ctx: ContextView<'a>, node: ColumnNodeView)
    requires
        0 < node.leaf_indices.len() <= node.leaf_column_ids.len(),
        !(ctx.compression is Lz4),
        forall|j: int|
            0 <= j < node.leaf_indices.len() ==> ctx.metas.contains_key(#[trigger] node.leaf_column_ids[j])
                && ctx.metas[node.leaf_column_ids[j]] is Parquet && ctx.chunks.contains_key(
                node.leaf_column_ids[j],
            ) && ctx.chunks[node.leaf_column_ids[j]] is RawData,
    ensures
        ({
            let metas = ctx.metas;
            let chunks = ctx.chunks;
            let rows = ctx.num_rows;
            let ids = node.leaf_column_ids;
            let indices = node.leaf_indices;
            let codec = match ctx.compression {
                TableCompression::Lz4Raw => codec_of(ParquetCompression::Lz4Raw),
                TableCompression::Snappy => codec_of(ParquetCompression::Snappy),
                TableCompression::Zstd => codec_of(ParquetCompression::Zstd),
                TableCompression::Gzip => codec_of(ParquetCompression::Gzip),
                _ => codec_of(ParquetCompression::Uncompressed),
            };
            let columns = Seq::new(
                indices.len(),
                |j: int|
                    (PageColumnView {
                        column_start: metas[ids[j]]->Parquet_0.offset,
                        num_values: metas[ids[j]]->Parquet_0.num_values as i64,
                        codec,
                        data: chunks[ids[j]]->RawData_0@,
                        descriptor: schema_columns(schema)[indices[j] as int],
                    }),
            );
            match decoder_error(columns, node.field, Some(rows), rows) {
                Some(e) => field_result(schema, ctx, node) matches Err(ErrorCodeView::Arrow(x)) && x == e,
                None => match first_array_of(columns, node.field, Some(rows), rows) {
                    Some(Ok(array)) => if node.has_children {
                        field_result(schema, ctx, node) matches Ok(Some(DeserializedArray::NoNeedToCache(decoded)))
                            && decoded == array
                    } else {
                        field_result(schema, ctx, node) matches Ok(
                            Some(DeserializedArray::Deserialized((id, decoded, _))),
                        ) && id == ids[0] && decoded == array
                    },
                    Some(Err(e)) => field_result(schema, ctx, node) matches Err(ErrorCodeView::Arrow(x)) && x == e,
                    None => field_result(schema, ctx, node) matches Err(ErrorCodeView::StorageOther(message))
                        && message == "unexpected deserialization error, no array found for field "@ + field_name(
                        node.field,
                    ) + " "@,
                },
            }
        }),
{
    let metas = ctx.metas;
    let chunks = ctx.chunks;
    let ids = node.leaf_column_ids;
    let indices = node.leaf_indices;
    let codec = match ctx.compression {
        TableCompression::Lz4Raw => codec_of(ParquetCompression::Lz4Raw),
        TableCompression::Snappy => codec_of(ParquetCompression::Snappy),
        TableCompression::Zstd => codec_of(ParquetCompression::Zstd),
        TableCompression::Gzip => codec_of(ParquetCompression::Gzip),
        _ => codec_of(ParquetCompression::Uncompressed),
    };
    let columns = Seq::new(
        indices.len(),
        |j: int|
            (PageColumnView {
                column_start: metas[ids[j]]->Parquet_0.offset,
                num_values: metas[ids[j]]->Parquet_0.num_values as i64,
                codec,
                data: chunks[ids[j]]->RawData_0@,
                descriptor: schema_columns(schema)[indices[j] as int],
            }),
    );
    let parquet_metas = Seq::new(indices.len(), |j: int| metas[ids[j]]->Parquet_0);
    let pages = Seq::new(indices.len(), |j: int| chunks[ids[j]]->RawData_0);
    let sizes = law_field_is_decoded_from_its_own_pages(schema, ctx, node, parquet_metas, pages, codec, columns);
}

/// A field of a table in the compression that is no longer read is refused, once there are pages of it.
pub proof fn law_deprecated_compression_is_refused<'a>(
    schema: SchemaDescriptor,
    ctx: ContextView<'a>,
    node: ColumnNodeView,
    pages: Seq<&'a [u8]>,
) -> (sizes: Seq<nat>)
    requires
        0 < pages.len() <= node.leaf_indices.len() <= node.leaf_column_ids.len(),
        ctx.compression is Lz4,
        forall|j: int|
            0 <= j < pages.len() ==> ctx.metas.contains_key(#[trigger] node.leaf_column_ids[j])
                && ctx.chunks.contains_pair(node.leaf_column_ids[j], DataItem::RawData(pages[j])),
        pages.len() < node.leaf_indices.len() ==> !ctx.metas.contains_key(
            node.leaf_column_ids[pages.len() as int],
        ),
    ensures
        sizes.len() == pages.len() + 1,
        sizes[0] == 0,
        forall|j: int| 0 <= j < pages.len() ==> #[trigger] sizes[j + 1] == sizes[j] + pages[j]@.len(),
        field_result(schema, ctx, node) matches Err(ErrorCodeView::StorageOther(message)) && message
            == LZ4_DEPRECATED@,
        field_readable(schema, ctx, node) <==> {
            &&& sizes.last() <= usize::MAX
            &&& forall|j: int|
                0 <= j < pages.len() ==> (#[trigger] node.leaf_indices[j]) < schema_columns(schema).len()
            &&& ctx.metas[node.leaf_column_ids[0]] is Parquet
        },
{
    let ids = node.ids();
    let k = pages.len();
    let leaves = field_leaves(schema, ctx, node, k);
    lemma_raw_prefix(ctx, node, 0, k);
    if k < node.leaf_indices.len() {
        assert(ids[k as int] == node.leaf_column_ids[k as int]);
    }
    assert(ids[0] == node.leaf_column_ids[0]);
    assert(leaves[0].meta == ctx.metas[node.leaf_column_ids[0]]);
    lemma_sizes(ctx, node, pages)
}

/// The numbers of bytes of the pages of the first leaves.
proof fn lemma_sizes<'a>(ctx: ContextView<'a>, node: ColumnNodeView, pages: Seq<&'a [u8]>) -> (sizes: Seq<nat>)
    requires
        pages.len() <= node.leaf_indices.len() <= node.leaf_column_ids.len(),
        forall|j: int|
            0 <= j < pages.len() ==> ctx.metas.contains_key(#[trigger] node.leaf_column_ids[j])
                && ctx.chunks.contains_pair(node.leaf_column_ids[j], DataItem::RawData(pages[j])),
    ensures
        sizes.len() == pages.len() + 1,
        sizes[0] == 0,
        forall|j: int| 0 <= j < pages.len() ==> #[trigger] sizes[j + 1] == sizes[j] + pages[j]@.len(),
        sizes.last() == raw_size(ctx, node.ids(), pages.len()),
{
    let ids = node.ids();
    let sizes = Seq::new(pages.len() + 1, |j: int| raw_size(ctx, ids, j as nat));
    assert forall|j: int| 0 <= j < pages.len() implies #[trigger] sizes[j + 1] == sizes[j] + pages[j]@.len() by {
        assert(ids[j] == node.leaf_column_ids[j]);
        assert(ctx.chunks.contains_pair(node.leaf_column_ids[j], DataItem::RawData(pages[j])));
    }
    sizes
}

/// The first leaf whose pages are not at hand decides, where the block knows it. Where its array was fetched,
/// that is the field, unless the field has columns below it. Where nothing was fetched, the read fails. The pages
/// of the leaves before it are counted, and looked up in the schema, but not decoded.
pub proof fn law_first_leaf_without_pages_decides<'a>(
    schema: SchemaDescriptor,
    ctx: ContextView<'a>,
    node: ColumnNodeView,
    pages: Seq<&'a [u8]>,
) -> (sizes: Seq<nat>)
    requires
        pages.len() < node.leaf_indices.len() <= node.leaf_column_ids.len(),
        forall|j: int|
            0 <= j < pages.len() ==> ctx.metas.contains_key(#[trigger] node.leaf_column_ids[j])
                && ctx.chunks.contains_pair(node.leaf_column_ids[j], DataItem::RawData(pages[j])),
        ctx.metas.contains_key(node.leaf_column_ids[pages.len() as int]),
        ctx.chunks.contains_key(node.leaf_column_ids[pages.len() as int])
            ==> ctx.chunks[node.leaf_column_ids[pages.len() as int]] is ColumnArray,
    ensures
        sizes.len() == pages.len() + 1,
        sizes[0] == 0,
        forall|j: int| 0 <= j < pages.len() ==> #[trigger] sizes[j + 1] == sizes[j] + pages[j]@.len(),
        if !ctx.chunks.contains_key(node.leaf_column_ids[pages.len() as int]) {
            field_result(schema, ctx, node) matches Err(ErrorCodeView::StorageOther(message)) && message
                == "unexpected: column data not found"@
        } else if node.has_children {
            field_result(schema, ctx, node) matches Err(ErrorCodeView::StorageOther(message)) && message
                == "unexpected nested field: nested leaf field hits cached"@
        } else {
            field_result(schema, ctx, node) matches Ok(Some(DeserializedArray::Cached(taken))) && taken
                == ctx.chunks[node.leaf_column_ids[pages.len() as int]]->ColumnArray_0
        },
        field_readable(schema, ctx, node) <==> {
            &&& sizes.last() <= usize::MAX
            &&& forall|j: int|
                0 <= j < pages.len() ==> (#[trigger] node.leaf_indices[j]) < schema_columns(schema).len()
        },
{
    let k = pages.len();
    assert(node.ids()[k as int] == node.leaf_column_ids[k as int]);
    lemma_raw_prefix(ctx, node, 0, k);
    lemma_sizes(ctx, node, pages)
}

/// A field without leaves, or whose first leaf the block does not know, is not in the block, and can be read.
pub proof fn law_field_unknown_to_the_block_is_absent(
    schema: SchemaDescriptor,
    ctx: ContextView,
    node: ColumnNodeView,
)
    requires
        node.leaf_indices.len() <= node.leaf_column_ids.len(),
        node.leaf_indices.len() == 0 || !ctx.metas.contains_key(node.leaf_column_ids[0]),
    ensures
        field_result(schema, ctx, node) matches Ok(None),
        field_readable(schema, ctx, node),
{
    lemma_raw_prefix(ctx, node, 0, 0);
    if node.leaf_indices.len() > 0 {
        assert(node.ids()[0] == node.leaf_column_ids[0]);
    }
}

/// With other bytes for one leaf of a field, which has its id to itself, exactly that one of the columns that
/// are decoded has other bytes.
pub proof fn law_bytes_of_a_leaf_are_its_own<'a>(
    schema: SchemaDescriptor,
    ctx: ContextView<'a>,
    node: ColumnNodeView,
    metas: Seq<ParquetColumnMeta>,
    pages: Seq<&'a [u8]>,
    codec: Codec,
    columns: Seq<PageColumnView>,
    leaf: int,
    bytes: &'a [u8],
)
    requires
        match ctx.compression {
            TableCompression::Lz4 => false,
            TableCompression::Lz4Raw => codec == codec_of(ParquetCompression::Lz4Raw),
            TableCompression::Snappy => codec == codec_of(ParquetCompression::Snappy),
            TableCompression::Zstd => codec == codec_of(ParquetCompression::Zstd),
            TableCompression::Gzip => codec == codec_of(ParquetCompression::Gzip),
            TableCompression::Uncompressed => codec == codec_of(ParquetCompression::Uncompressed),
        },
        0 < columns.len() <= node.leaf_indices.len() <= node.leaf_column_ids.len(),
        columns.len() < node.leaf_indices.len() ==> !ctx.metas.contains_key(
            node.leaf_column_ids[columns.len() as int],
        ),
        forall|j: int|
            0 <= j < columns.len() ==> ctx.metas.contains_pair(
                #[trigger] node.leaf_column_ids[j],
                ColumnMeta::Parquet(metas[j]),
            ),
        forall|j: int|
            0 <= j < columns.len() ==> ctx.chunks.contains_pair(
                #[trigger] node.leaf_column_ids[j],
                DataItem::RawData(pages[j]),
            ),
        forall|j: int|
            0 <= j < columns.len() ==> #[trigger] columns[j] == (PageColumnView {
                column_start: metas[j].offset,
                num_values: metas[j].num_values as i64,
                codec,
                data: pages[j]@,
                descriptor: schema_columns(schema)[node.leaf_indices[j] as int],
            }),
        pages.len() == columns.len(),
        0 <= leaf < columns.len(),
        forall|j: int|
            0 <= j < columns.len() && j != leaf ==> #[trigger] node.leaf_column_ids[j]
                != node.leaf_column_ids[leaf],
    ensures
        ({
            let changed = columns.update(leaf, PageColumnView { data: bytes@, ..columns[leaf] });
            let other = ContextView {
                chunks: ctx.chunks.insert(node.leaf_column_ids[leaf], DataItem::RawData(bytes)),
                ..ctx
            };
            match decoder_error(changed, node.field, Some(ctx.num_rows), ctx.num_rows) {
                Some(e) => field_result(schema, other, node) matches Err(ErrorCodeView::Arrow(x)) && x == e,
                None => match first_array_of(changed, node.field, Some(ctx.num_rows), ctx.num_rows) {
                    Some(Err(e)) => field_result(schema, other, node) matches Err(ErrorCodeView::Arrow(x)) && x
                        == e,
                    Some(Ok(array)) => field_result(schema, other, node) matches Ok(Some(field)) && match field {
                        DeserializedArray::NoNeedToCache(decoded) => decoded == array,
                        DeserializedArray::Deserialized((_, decoded, _)) => decoded == array,
                        DeserializedArray::Cached(_) => false,
                    },
                    None => field_result(schema, other, node) is Err,
                },
            }
        }),
{
    let changed = columns.update(leaf, PageColumnView { data: bytes@, ..columns[leaf] });
    let other = ContextView {
        chunks: ctx.chunks.insert(node.leaf_column_ids[leaf], DataItem::RawData(bytes)),
        ..ctx
    };
    let changed_pages = pages.update(leaf, bytes);
    assert forall|j: int| 0 <= j < changed.len() implies other.metas.contains_pair(
        #[trigger] node.leaf_column_ids[j],
        ColumnMeta::Parquet(metas[j]),
    ) && other.chunks.contains_pair(node.leaf_column_ids[j], DataItem::RawData(changed_pages[j])) by {
        assert(ctx.chunks.contains_pair(node.leaf_column_ids[j], DataItem::RawData(pages[j])));
    }
    assert forall|j: int| 0 <= j < changed.len() implies #[trigger] changed[j] == (PageColumnView {
        column_start: metas[j].offset,
        num_values: metas[j].num_values as i64,
        codec,
        data: changed_pages[j]@,
        descriptor: schema_columns(schema)[node.leaf_indices[j] as int],
    }) by {
        assert(columns[j].codec == codec);
    }
    let sizes = law_field_is_decoded_from_its_own_pages(
        schema,
        other,
        node,
        metas,
        changed_pages,
        codec,
        changed,
    );
}

/// Where the fields stand that a block has.
proof fn lemma_positions_of_present<'a>(fields: Seq<Option<DeserializedArray<'a>>>) -> (at: Seq<int>)
    ensures
        at.len() == present(fields).len(),
        forall|n: int|
            0 <= n < at.len() ==> 0 <= #[trigger] at[n] < fields.len() && fields[at[n]] == Some(
                present(fields)[n],
            ),
        forall|m: int, n: int| 0 <= m < n < at.len() ==> #[trigger] at[m] < #[trigger] at[n],
        forall|i: int| 0 <= i < fields.len() && (#[trigger] fields[i]) is Some ==> at.contains(i),
    decreases fields.len(),
{
    if fields.len() == 0 {
        seq![]
    } else {
        let front = fields.drop_last();
        let last = fields.len() - 1;
        let before = lemma_positions_of_present(front);
        let at = if fields.last() is Some {
            before.push(last)
        } else {
            before
        };
        assert forall|n: int| 0 <= n < at.len() implies 0 <= #[trigger] at[n] < fields.len() && fields[at[n]]
            == Some(present(fields)[n]) by {
            if n < before.len() {
                assert(at[n] == before[n]);
                assert(front[before[n]] == fields[at[n]]);
            }
        }
        assert forall|i: int| 0 <= i < fields.len() && (#[trigger] fields[i]) is Some implies at.contains(i) by {
            if i < last {
                assert(front[i] is Some);
                let n = choose|n: int| 0 <= n < before.len() && before[n] == i;
                assert(at[n] == i);
            } else {
                assert(at[before.len() as int] == i);
            }
        }
        at
    }
}

/// A block is made of the arrays of its fields, in the order of the fields, where they have as many rows as
/// each other. A field that the block does not have is its own default value, for each row of the block, also
/// where other fields are in the block.
///
/// What comes out are the positions of the fields that the block has, and their arrays.
pub proof fn law_block_is_made_of_its_fields<'a, D, S>(
    reader: BlockReaderView<D, S>,
    block_path: Seq<char>,
    ctx: ContextView<'a>,
    fields: Seq<Option<DeserializedArray<'a>>>,
) -> (r: (Seq<int>, Seq<ArrowArray>))
    requires
        !ctx.chunks.is_empty(),
        fields.len() == reader.nodes.len(),
        forall|i: int|
            0 <= i < fields.len() ==> field_result(reader.schema, ctx, reader.nodes[i]) == Ok::<_, ErrorCodeView>(
                #[trigger] fields[i],
            ),
    ensures
        r.0.len() == r.1.len(),
        forall|m: int, n: int| 0 <= m < n < r.0.len() ==> #[trigger] r.0[m] < #[trigger] r.0[n],
        forall|n: int| 0 <= n < r.0.len() ==> 0 <= #[trigger] r.0[n] < fields.len(),
        forall|i: int| 0 <= i < fields.len() && (#[trigger] fields[i]) is Some ==> r.0.contains(i),
        forall|n: int|
            0 <= n < r.0.len() ==> match fields[#[trigger] r.0[n]] {
                None => false,
                Some(DeserializedArray::Cached(sized)) => r.1[n] == sized.0,
                Some(DeserializedArray::Deserialized((_, array, _))) => r.1[n] == array,
                Some(DeserializedArray::NoNeedToCache(array)) => r.1[n] == array,
            },
        if forall|m: int, n: int|
            0 <= m < n < r.1.len() ==> array_len(#[trigger] r.1[m]) == array_len(#[trigger] r.1[n]) {
            block_result(reader, block_path, ctx) matches Ok(read) && if r.0.len() == fields.len() {
                read.parts == (BlockPartsView::<D, S>::Columns { schema: reader.data_schema, arrays: r.1 })
            } else {
                read.parts matches BlockPartsView::ColumnsAndDefaults { schema, arrays, missing_vals, num_rows }
                    && schema == reader.data_schema && arrays == r.1 && num_rows == ctx.num_rows
                    && missing_vals.len() == fields.len() && forall|i: int|
                    0 <= i < fields.len() ==> #[trigger] missing_vals[i] == (if fields[i] is None {
                        Some(reader.default_vals[i])
                    } else {
                        None
                    })
            }
        } else {
            block_result(reader, block_path, ctx) matches Err(ErrorCodeView::Arrow(e)) && e == chunk_error(r.1)
        },
{
    let nodes = reader.nodes;
    lemma_fields_come_in_order(reader.schema, ctx, nodes, nodes.len());
    assert forall|i: int| 0 <= i < nodes.len() implies field_result(reader.schema, ctx, #[trigger] nodes[i]) is Ok by {
        assert(field_result(reader.schema, ctx, nodes[i]) == Ok::<_, ErrorCodeView>(fields[i]));
    }
    let found = fields_result(reader.schema, ctx, nodes, nodes.len())->Ok_0;
    assert(found =~= fields) by {
        assert forall|i: int| 0 <= i < fields.len() implies found[i] == #[trigger] fields[i] by {
            assert(field_result(reader.schema, ctx, nodes[i]) == Ok::<_, ErrorCodeView>(found[i]));
        }
    }
    let at = lemma_positions_of_present(fields);
    let arrays = arrays_of(present(fields));
    assert forall|n: int| 0 <= n < at.len() implies match fields[#[trigger] at[n]] {
        None => false,
        Some(DeserializedArray::Cached(sized)) => arrays[n] == sized.0,
        Some(DeserializedArray::Deserialized((_, array, _))) => arrays[n] == array,
        Some(DeserializedArray::NoNeedToCache(array)) => arrays[n] == array,
    } by {
        assert(fields[at[n]] == Some(present(fields)[n]));
    }
    if forall|m: int, n: int|
        0 <= m < n < arrays.len() ==> array_len(#[trigger] arrays[m]) == array_len(#[trigger] arrays[n]) {
        assert forall|m: int, n: int| 0 <= m < arrays.len() && 0 <= n < arrays.len() implies #[trigger] array_len(
            arrays[m],
        ) == #[trigger] array_len(arrays[n]) by {
            if m < n {
                assert(array_len(arrays[m]) == array_len(arrays[n]));
            } else if n < m {
                assert(array_len(arrays[n]) == array_len(arrays[m]));
            }
        }
        assert(same_rows(arrays));
    } else {
        let (m, n) = choose|m: int, n: int|
            0 <= m < n < arrays.len() && array_len(#[trigger] arrays[m]) != array_len(#[trigger] arrays[n]);
        assert(array_len(arrays[m]) != array_len(arrays[n]));
        assert(!same_rows(arrays));
    }
    (at, arrays)
}

/// A projected column that a block does not have is its own default value, repeated for each row of the block,
/// wherever it stands, and whatever other columns the block has.
pub proof fn law_absent_column_is_its_default<D, S>(
    reader: BlockReaderView<D, S>,
    block_path: Seq<char>,
    ctx: ContextView,
    i: int,
)
    requires
        0 <= i < reader.nodes.len(),
        ctx.chunks.is_empty() || (field_result(reader.schema, ctx, reader.nodes[i]) matches Ok(None)),
    ensures
        block_result(reader, block_path, ctx) matches Ok(read) ==> {
            &&& read.parts.column(i) == BlockColumn::Repeated(reader.default_vals[i], ctx.num_rows)
            &&& match read.parts {
                BlockPartsView::DefaultValues { schema, default_vals, num_rows } => ctx.chunks.is_empty() && schema
                    == reader.data_schema && default_vals[i] == reader.default_vals[i] && num_rows == ctx.num_rows,
                BlockPartsView::Columns { .. } => false,
                BlockPartsView::ColumnsAndDefaults { schema, missing_vals, num_rows, .. } => !ctx.chunks.is_empty()
                    && schema == reader.data_schema && missing_vals[i] == Some(reader.default_vals[i]) && num_rows
                    == ctx.num_rows,
            }
        },
{
    if !ctx.chunks.is_empty() && block_result(reader, block_path, ctx) is Ok {
        let nodes = reader.nodes;
        lemma_fields_come_in_order(reader.schema, ctx, nodes, nodes.len());
        let fields = fields_result(reader.schema, ctx, nodes, nodes.len())->Ok_0;
        let (at, arrays) = law_block_is_made_of_its_fields(reader, block_path, ctx, fields);
        assert(field_result(reader.schema, ctx, nodes[i]) == Ok::<_, ErrorCodeView>(fields[i]));
        if at.len() == fields.len() {
            lemma_all_positions(at, fields.len());
            assert(fields[at[i]] is Some);
        }
    }
}

/// As many positions as there are, in order, are all of them.
proof fn lemma_all_positions(at: Seq<int>, k: nat)
    requires
        at.len() == k,
        forall|m: int, n: int| 0 <= m < n < at.len() ==> #[trigger] at[m] < #[trigger] at[n],
        forall|n: int| 0 <= n < at.len() ==> 0 <= #[trigger] at[n] < k,
    ensures
        forall|n: int| 0 <= n < at.len() ==> #[trigger] at[n] == n,
    decreases k,
{
    if k > 0 {
        let front = at.drop_last();
        assert forall|n: int| 0 <= n < front.len() implies 0 <= #[trigger] front[n] < k - 1 by {
            assert(at[n] < at[k - 1]);
        }
        lemma_all_positions(front, (k - 1) as nat);
        if k > 1 {
            assert(front[k - 2] == k - 2);
            assert(at[k - 2] < at[k - 1]);
        }
        assert forall|n: int| 0 <= n < at.len() implies #[trigger] at[n] == n by {
            if n < k - 1 {
                assert(front[n] == n);
            }
        }
    }
}

/// A block whose fields can all be read, and do not fail, can be read if and only if each field that it does not
/// have has a default value, or the arrays of the others do not have as many rows as each other.
pub proof fn law_when_fields_can_be_put_together<'a, D, S>(
    reader: BlockReaderView<D, S>,
    ctx: ContextView<'a>,
    fields: Seq<Option<DeserializedArray<'a>>>,
) -> (r: (Seq<int>, Seq<ArrowArray>))
    requires
        !ctx.chunks.is_empty(),
        fields.len() == reader.nodes.len(),
        forall|i: int|
            0 <= i < fields.len() ==> field_result(reader.schema, ctx, reader.nodes[i]) == Ok::<_, ErrorCodeView>(
                #[trigger] fields[i],
            ),
        forall|i: int| 0 <= i < reader.nodes.len() ==> field_readable(reader.schema, ctx, #[trigger] reader.nodes[i]),
    ensures
        r.0.len() == r.1.len(),
        forall|m: int, n: int| 0 <= m < n < r.0.len() ==> #[trigger] r.0[m] < #[trigger] r.0[n],
        forall|n: int| 0 <= n < r.0.len() ==> 0 <= #[trigger] r.0[n] < fields.len(),
        forall|i: int| 0 <= i < fields.len() && (#[trigger] fields[i]) is Some ==> r.0.contains(i),
        forall|n: int|
            0 <= n < r.0.len() ==> match fields[#[trigger] r.0[n]] {
                None => false,
                Some(DeserializedArray::Cached(sized)) => r.1[n] == sized.0,
                Some(DeserializedArray::Deserialized((_, array, _))) => r.1[n] == array,
                Some(DeserializedArray::NoNeedToCache(array)) => r.1[n] == array,
            },
        block_readable(reader, ctx) <==> {
            ||| forall|i: int|
                0 <= i < fields.len() && (#[trigger] fields[i]) is None ==> i < reader.default_vals.len()
            ||| exists|m: int, n: int|
                0 <= m < n < r.1.len() && array_len(#[trigger] r.1[m]) != array_len(#[trigger] r.1[n])
        },
{
    let nodes = reader.nodes;
    let (at, arrays) = law_block_is_made_of_its_fields(reader, seq![], ctx, fields);
    lemma_fields_come_in_order(reader.schema, ctx, nodes, nodes.len());
    assert forall|i: int| 0 <= i < nodes.len() implies field_result(reader.schema, ctx, #[trigger] nodes[i]) is Ok by {
        assert(field_result(reader.schema, ctx, nodes[i]) == Ok::<_, ErrorCodeView>(fields[i]));
    }
    let found = fields_result(reader.schema, ctx, nodes, nodes.len())->Ok_0;
    assert(found =~= fields) by {
        assert forall|i: int| 0 <= i < fields.len() implies found[i] == #[trigger] fields[i] by {
            assert(field_result(reader.schema, ctx, nodes[i]) == Ok::<_, ErrorCodeView>(found[i]));
        }
    }
    (at, arrays)
}

/// Each plain column that was decoded is to be kept once, in the order of the fields, under the block and its
/// id, with its number of bytes; nothing else is.
///
/// What comes out are the positions of those columns among the fields.
pub proof fn law_decoded_columns_are_kept_once<'a, D, S>(
    reader: BlockReaderView<D, S>,
    block_path: Seq<char>,
    ctx: ContextView<'a>,
    fields: Seq<Option<DeserializedArray<'a>>>,
) -> (at: Seq<int>)
    requires
        !ctx.chunks.is_empty(),
        fields.len() == reader.nodes.len(),
        forall|i: int|
            0 <= i < fields.len() ==> field_result(reader.schema, ctx, reader.nodes[i]) == Ok::<_, ErrorCodeView>(
                #[trigger] fields[i],
            ),
        block_result(reader, block_path, ctx) is Ok,
    ensures
        forall|m: int, n: int| 0 <= m < n < at.len() ==> #[trigger] at[m] < #[trigger] at[n],
        forall|n: int| 0 <= n < at.len() ==> 0 <= #[trigger] at[n] < fields.len(),
        forall|i: int|
            0 <= i < fields.len() ==> ((#[trigger] fields[i] matches Some(DeserializedArray::Deserialized(_)))
                <==> at.contains(i)),
        block_result(reader, block_path, ctx) matches Ok(read) && read.cache_items.len() == at.len() && forall|n: int|
            0 <= n < at.len() ==> (fields[#[trigger] at[n]] matches Some(
                DeserializedArray::Deserialized((id, array, size)),
            ) && read.cache_items[n].block_path == block_path && read.cache_items[n].column_id == id
                && read.cache_items[n].array.0 == array && read.cache_items[n].array.1 == size),
{
    let nodes = reader.nodes;
    lemma_fields_come_in_order(reader.schema, ctx, nodes, nodes.len());
    let found = fields_result(reader.schema, ctx, nodes, nodes.len())->Ok_0;
    assert(found =~= fields) by {
        assert forall|i: int| 0 <= i < fields.len() implies found[i] == #[trigger] fields[i] by {
            assert(field_result(reader.schema, ctx, nodes[i]) == Ok::<_, ErrorCodeView>(found[i]));
        }
    }
    lemma_positions_of_kept(block_path, fields)
}

/// Where the plain columns stand that were decoded.
proof fn lemma_positions_of_kept<'a>(block_path: Seq<char>, fields: Seq<Option<DeserializedArray<'a>>>) -> (at: Seq<
    int,
>)
    ensures
        forall|m: int, n: int| 0 <= m < n < at.len() ==> #[trigger] at[m] < #[trigger] at[n],
        forall|n: int| 0 <= n < at.len() ==> 0 <= #[trigger] at[n] < fields.len(),
        forall|i: int|
            0 <= i < fields.len() ==> ((#[trigger] fields[i] matches Some(DeserializedArray::Deserialized(_)))
                <==> at.contains(i)),
        ({
            let items = cache_items_of(block_path, present(fields));
            items.len() == at.len() && forall|n: int|
                0 <= n < at.len() ==> (fields[#[trigger] at[n]] matches Some(
                    DeserializedArray::Deserialized((id, array, size)),
                ) && items[n].block_path == block_path && items[n].column_id == id && items[n].array.0 == array
                    && items[n].array.1 == size)
        }),
    decreases fields.len(),
{
    if fields.len() == 0 {
        seq![]
    } else {
        let front = fields.drop_last();
        let last = fields.len() - 1;
        let before = lemma_positions_of_kept(block_path, front);
        let kept = fields.last() matches Some(DeserializedArray::Deserialized(_));
        if fields.last() is Some {
            assert(present(fields).drop_last() =~= present(front));
        }
        let items = cache_items_of(block_path, present(fields));
        let at = if kept {
            before.push(last)
        } else {
            before
        };
        assert forall|n: int| 0 <= n < at.len() implies (fields[#[trigger] at[n]] matches Some(
            DeserializedArray::Deserialized((id, array, size)),
        ) && items[n].block_path == block_path && items[n].column_id == id && items[n].array.0 == array
            && items[n].array.1 == size) by {
            if n < before.len() {
                assert(at[n] == before[n]);
                assert(front[before[n]] == fields[at[n]]);
            }
        }
        assert forall|i: int| 0 <= i < fields.len() implies ((#[trigger] fields[i] matches Some(
            DeserializedArray::Deserialized(_),
        )) <==> at.contains(i)) by {
            if i < last {
                assert(front[i] == fields[i]);
                if front[i] matches Some(DeserializedArray::Deserialized(_)) {
                    let n = choose|n: int| 0 <= n < before.len() && before[n] == i;
                    assert(at[n] == i);
                }
                if at.contains(i) {
                    let n = choose|n: int| 0 <= n < at.len() && at[n] == i;
                    assert(before[n] == i);
                }
            } else if kept {
                assert(at[before.len() as int] == i);
            } else if at.contains(i) {
                let n = choose|n: int| 0 <= n < at.len() && at[n] == i;
                assert(before[n] < front.len());
            }
        }
        at
    }
}

/// A block of which nothing was fetched can be read, and is made of the default values of the reader, all of
/// them, for each row of the block. Nothing is to be kept.
pub proof fn law_block_without_chunks_is_the_defaults<D, S>(
    reader: BlockReaderView<D, S>,
    block_path: Seq<char>,
    ctx: ContextView,
)
    requires
        ctx.chunks.is_empty(),
    ensures
        block_readable(reader, ctx),
        block_result(reader, block_path, ctx) matches Ok(read) && read.cache_items.len() == 0 && read.parts
            == (BlockPartsView::<D, S>::DefaultValues {
            schema: reader.data_schema,
            default_vals: reader.default_vals,
            num_rows: ctx.num_rows,
        }),
{
}

/// A block can be read where each field can, up to the first one that fails. Where none fails, it can be read if
/// each field that it does not have has a default value, or the arrays of the others do not make a chunk.
pub proof fn law_when_a_block_can_be_read<'a, D, S>(
    reader: BlockReaderView<D, S>,
    ctx: ContextView<'a>,
    k: int,
)
    requires
        !ctx.chunks.is_empty(),
        0 <= k <= reader.nodes.len(),
        forall|j: int| 0 <= j < k ==> field_result(reader.schema, ctx, #[trigger] reader.nodes[j]) is Ok,
        k < reader.nodes.len() ==> field_result(reader.schema, ctx, reader.nodes[k]) is Err,
    ensures
        block_readable(reader, ctx) ==> forall|j: int|
            0 <= j <= k && j < reader.nodes.len() ==> field_readable(
                reader.schema,
                ctx,
                #[trigger] reader.nodes[j],
            ),
        k < reader.nodes.len() && (forall|j: int|
            0 <= j <= k ==> field_readable(reader.schema, ctx, #[trigger] reader.nodes[j])) ==> block_readable(
            reader,
            ctx,
        ),
        k == reader.nodes.len() && (forall|j: int|
            0 <= j < k ==> field_readable(reader.schema, ctx, #[trigger] reader.nodes[j])) && (forall|j: int|
            0 <= j < k && (field_result(reader.schema, ctx, #[trigger] reader.nodes[j]) matches Ok(None)) ==> j
                < reader.default_vals.len()) ==> block_readable(reader, ctx),
{
    let nodes = reader.nodes;
    lemma_fields_come_in_order(reader.schema, ctx, nodes, nodes.len());
    assert forall|j: int| 0 <= j < nodes.len() implies (j <= k <==> #[trigger] fields_result(
        reader.schema,
        ctx,
        nodes,
        j as nat,
    ) is Ok) by {
        lemma_fields_come_in_order(reader.schema, ctx, nodes, j as nat);
    }
    if let Ok(fields) = fields_result(reader.schema, ctx, nodes, nodes.len()) {
        assert forall|i: int| 0 <= i < fields.len() && (#[trigger] fields[i]) is None implies field_result(
            reader.schema,
            ctx,
            nodes[i],
        ) matches Ok(None) by {
            assert(field_result(reader.schema, ctx, nodes[i]) == Ok::<_, ErrorCodeView>(fields[i]));
        }
    }
}

} // verus!
