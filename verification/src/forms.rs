//! What the mathematical forms keep: each stands for its value whole, and sequences of them keep the order.

use vstd::prelude::*;

use crate::arrow::chunk_arrays;
use crate::arrow::first_item;
use crate::arrow::page_column_views;
use crate::arrow::ArrowArrays;
use crate::arrow::PageColumn;
use crate::block::cache_item_views;
use crate::block::BlockParts;
use crate::block::BlockPartsView;
use crate::block::BlockRead;
use crate::block::CacheItem;
use crate::block_reader::block_read_view;
use crate::block_reader::first_item_view;
use crate::block_reader::node_views;
use crate::bloom::filter_view;
use crate::column::leaf_views;
use crate::column::ColumnId;
use crate::column::ColumnNode;
use crate::column::DataItem;
use crate::column::FieldDeserializationContext;
use crate::column::FieldLeaf;
use crate::column::FusePartInfo;
use crate::error::result_view;
use crate::error::ErrorCode;
use crate::error::ErrorCodeView;
use crate::nesting::all_page_views;
use crate::parquet::PlainPage;
use crate::parquet::PlainPageView;

verus! {

/// The projected fields of a reader keep their order.
pub proof fn law_nodes_keep_their_order(nodes: Seq<ColumnNode>)
    ensures
        node_views(nodes).len() == nodes.len(),
        forall|i: int| 0 <= i < nodes.len() ==> #[trigger] node_views(nodes)[i] == nodes[i]@,
{
}

/// The leaves of a field keep their order, their metadata, all of their bytes and their columns.
pub proof fn law_leaves_keep_their_order(leaves: Seq<FieldLeaf>)
    ensures
        leaf_views(leaves).len() == leaves.len(),
        forall|i: int|
            0 <= i < leaves.len() ==> (#[trigger] leaf_views(leaves)[i]).meta == *leaves[i].meta && leaf_views(
                leaves,
            )[i].data == leaves[i].data@ && leaf_views(leaves)[i].descriptor == *leaves[i].descriptor,
{
}

/// The columns that are decoded keep their order, and all that the decoder goes by.
pub proof fn law_columns_keep_their_pages(columns: Seq<PageColumn>)
    ensures
        page_column_views(columns).len() == columns.len(),
        forall|i: int|
            0 <= i < columns.len() ==> {
                let view = #[trigger] page_column_views(columns)[i];
                &&& view.column_start == columns[i].column_start
                &&& view.num_values == columns[i].num_values
                &&& view.codec == columns[i].codec
                &&& view.data == columns[i].data@
                &&& view.descriptor == *columns[i].descriptor
            },
{
}

/// The arrays to keep stay in order, each under its block and its column.
pub proof fn law_cache_items_keep_their_keys(items: Seq<CacheItem>)
    ensures
        cache_item_views(items).len() == items.len(),
        forall|i: int|
            0 <= i < items.len() ==> {
                let view = #[trigger] cache_item_views(items)[i];
                &&& view.block_path == items[i].key.block_path@
                &&& view.column_id == items[i].key.column_id
                &&& view.array == items[i].array
            },
{
}

/// What a block is made of is told whole.
pub proof fn law_parts_are_told_whole<D, S>(read: BlockRead<D, S>)
    ensures
        read@.cache_items == cache_item_views(read.cache_items@),
        match (read.parts, read@.parts) {
            (
                BlockParts::DefaultValues { schema, default_vals, num_rows },
                BlockPartsView::DefaultValues { schema: told, default_vals: values, num_rows: rows },
            ) => told == *schema && values == default_vals@ && rows == num_rows,
            (
                BlockParts::Columns { schema, chunk },
                BlockPartsView::Columns { schema: told, arrays },
            ) => told == *schema && arrays == chunk_arrays(chunk),
            (
                BlockParts::ColumnsAndDefaults { schema, chunk, missing_vals, num_rows },
                BlockPartsView::ColumnsAndDefaults { schema: told, arrays, missing_vals: values, num_rows: rows },
            ) => {
                &&& told == *schema
                &&& arrays == chunk_arrays(chunk)
                &&& values.len() == missing_vals@.len()
                &&& forall|i: int|
                    0 <= i < values.len() ==> match (#[trigger] values[i], missing_vals@[i]) {
                        (Some(value), Some(missing)) => value == *missing,
                        (None, None) => true,
                        _ => false,
                    }
                &&& rows == num_rows
            },
            _ => false,
        },
{
}

/// What is known of a block is told whole, also where a part of a table names it.
pub proof fn law_context_is_told_whole<'a>(
    context: FieldDeserializationContext<'_, 'a>,
    part: FusePartInfo,
    chunks: Map<ColumnId, DataItem<'a>>,
)
    ensures
        context@.metas == context.column_metas@,
        context@.chunks == context.column_chunks@,
        context@.num_rows == context.num_rows,
        context@.compression == *context.compression,
        part.context(chunks).metas == part.columns_meta@,
        part.context(chunks).chunks == chunks,
        part.context(chunks).num_rows == part.nums_rows,
        part.context(chunks).compression == part.compression,
{
}

/// Results and errors are told whole.
pub proof fn law_results_are_told_whole<T, D, S>(
    error: ErrorCode,
    value: T,
    arrays: ArrowArrays,
    read: BlockRead<D, S>,
    bytes: Vec<u8>,
)
    ensures
        error matches ErrorCode::StorageOther(message) ==> error@ == ErrorCodeView::StorageOther(message@),
        error matches ErrorCode::Arrow(e) ==> error@ == ErrorCodeView::Arrow(e),
        result_view(Ok::<T, ErrorCode>(value)) == Ok::<T, ErrorCodeView>(value),
        result_view(Err::<T, ErrorCode>(error)) == Err::<T, ErrorCodeView>(error@),
        first_item_view(Ok(arrays)) == Ok::<_, ErrorCodeView>(first_item(arrays)),
        first_item_view(Err(error)) matches Err(e) && e == error@,
        block_read_view(Ok::<BlockRead<D, S>, ErrorCode>(read)) matches Ok(told) && told == read@,
        block_read_view(Err::<BlockRead<D, S>, ErrorCode>(error)) matches Err(e) && e == error@,
        filter_view(None) is None,
        filter_view(Some(Ok(bytes))) matches Some(Ok(told)) && told == bytes@,
        filter_view(Some(Err(error))) matches Some(Err(e)) && e == error@,
{
}

/// The pages of columns keep their order, and are told whole.
pub proof fn law_pages_are_told_whole(columns: Seq<Vec<Option<PlainPage>>>)
    ensures
        all_page_views(columns).len() == columns.len(),
        forall|i: int, j: int|
            0 <= i < columns.len() && 0 <= j < columns[i]@.len() ==> match (
                columns[i]@[j],
                #[trigger] all_page_views(columns)[i][j],
            ) {
                (None, None) => true,
                (
                    Some(PlainPage::Dictionary { count, bytes }),
                    Some(PlainPageView::Dictionary { count: told, bytes: seen }),
                ) => told == count && seen == bytes@,
                (Some(PlainPage::Data(page)), Some(PlainPageView::Data(told))) => told.count == page.count
                    && told.encoding == page.encoding && told.levels == page.levels && told.bytes == page.bytes@,
                _ => false,
            },
        forall|i: int|
            0 <= i < columns.len() ==> (#[trigger] all_page_views(columns)[i]).len() == columns[i]@.len(),
{
}

} // verus!
