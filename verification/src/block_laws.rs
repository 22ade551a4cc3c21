//! What holds of every read of a block.

use std::sync::Arc;

use parquet2::metadata::SchemaDescriptor;
use vstd::prelude::*;

use crate::block::count_missing;
use crate::block::BlockColumn;
use crate::block::CacheItemView;
use crate::block_model::arrays_of;
use crate::block_model::assembled;
use crate::block_model::block_readable;
use crate::block_model::block_result;
use crate::block_model::cache_items_of;
use crate::block_model::can_assemble;
use crate::block_model::default_parts;
use crate::block_model::defaults_there;
use crate::block_model::field_leaves;
use crate::block_model::field_readable;
use crate::block_model::field_result;
use crate::block_model::fields_result;
use crate::block_model::leaf_state;
use crate::block_model::lemma_first_failure;
use crate::block_model::lemma_raw_before_end;
use crate::block_model::lemma_raw_end_bounds;
use crate::block_model::missing_defaults;
use crate::block_model::parquet_compression;
use crate::block_model::present;
use crate::block_model::raw_end;
use crate::block_model::raw_size;
use crate::block_model::BlockReaderView;
use crate::block_model::LeafState;
use crate::column::ColumnId;
use crate::column::ColumnNodeView;
use crate::column::ContextView;
use crate::column::DataItem;
use crate::column::DeserializedArray;
use crate::column::SizedColumnArray;
use crate::column::TableCompression;
use crate::error::ErrorCodeView;

verus! {

/// One compression is refused, and each of the others has a codec of its own.
pub proof fn law_compressions(a: TableCompression, b: TableCompression)
    ensures
        parquet_compression(a) is Err <==> a is Lz4,
        parquet_compression(a) is Ok && parquet_compression(a) == parquet_compression(b) ==> a == b,
{
}

/// A field whose first leaf the block does not know is not in the block, whatever was fetched.
pub proof fn law_unknown_field_is_absent(schema: SchemaDescriptor, ctx: ContextView, node: ColumnNodeView)
    requires
        node.ids().len() > 0 ==> !ctx.metas.contains_key(node.ids()[0]),
    ensures
        field_result(schema, ctx, node) matches Ok(None),
{
}

/// A plain column whose array was fetched is that array.
pub proof fn law_cached_column_is_taken<'a>(
    schema: SchemaDescriptor,
    ctx: ContextView<'a>,
    node: ColumnNodeView,
    sized: &'a Arc<SizedColumnArray>,
)
    requires
        !node.has_children,
        node.ids().len() > 0,
        leaf_state(ctx, node.ids()[0]) == LeafState::Cached(sized),
    ensures
        field_result(schema, ctx, node) == Ok::<_, ErrorCodeView>(
            Some(DeserializedArray::Cached(sized)),
        ),
{
}

/// A field with columns below it neither comes from the array cache nor goes there.
pub proof fn law_nested_field_is_not_cached(schema: SchemaDescriptor, ctx: ContextView, node: ColumnNodeView)
    requires
        node.has_children,
    ensures
        field_result(schema, ctx, node) matches Ok(Some(array)) ==> array is NoNeedToCache,
{
}

/// Whether two contexts have the same of the leaves of a field.
pub open spec fn same_leaves<'a>(ctx: ContextView<'a>, other: ContextView<'a>, node: ColumnNodeView) -> bool {
    &&& ctx.num_rows == other.num_rows
    &&& ctx.compression == other.compression
    &&& forall|i: int|
        0 <= i < node.ids().len() ==> {
            let id = #[trigger] node.ids()[i];
            &&& ctx.metas.contains_key(id) <==> other.metas.contains_key(id)
            &&& ctx.metas.contains_key(id) ==> ctx.metas[id] == other.metas[id]
            &&& leaf_state(ctx, id) == leaf_state(other, id)
        }
}

/// The leaves whose pages are at hand are as many where the leaves are the same.
proof fn lemma_same_raw_end(ctx: ContextView, other: ContextView, node: ColumnNodeView, i: nat)
    requires
        same_leaves(ctx, other, node),
    ensures
        raw_end(ctx, node.ids(), i) == raw_end(other, node.ids(), i),
    decreases node.ids().len() - i,
{
    if i < node.ids().len() && leaf_state(ctx, node.ids()[i as int]) is Raw {
        lemma_same_raw_end(ctx, other, node, i + 1);
    }
}

/// The pages have as many bytes where the leaves are the same.
proof fn lemma_same_raw_size(ctx: ContextView, other: ContextView, node: ColumnNodeView, k: nat)
    requires
        same_leaves(ctx, other, node),
        k <= node.ids().len(),
    ensures
        raw_size(ctx, node.ids(), k) == raw_size(other, node.ids(), k),
    decreases k,
{
    if k > 0 {
        lemma_same_raw_size(ctx, other, node, (k - 1) as nat);
        let id = node.ids()[k - 1];
        assert(leaf_state(ctx, id) == leaf_state(other, id));
    }
}

/// The leaves whose pages are at hand are the same where the leaves are.
proof fn lemma_same_field_leaves(
    schema: SchemaDescriptor,
    ctx: ContextView,
    other: ContextView,
    node: ColumnNodeView,
)
    requires
        same_leaves(ctx, other, node),
    ensures
        ({
            let k = raw_end(ctx, node.ids(), 0);
            &&& raw_end(other, node.ids(), 0) == k
            &&& field_leaves(schema, ctx, node, k) == field_leaves(schema, other, node, k)
        }),
{
    let ids = node.ids();
    let k = raw_end(ctx, ids, 0);
    lemma_same_raw_end(ctx, other, node, 0);
    lemma_raw_end_bounds(ctx, ids, 0);
    assert forall|i: int| 0 <= i < k implies field_leaves(schema, ctx, node, k)[i] == field_leaves(
        schema,
        other,
        node,
        k,
    )[i] by {
        lemma_raw_before_end(ctx, ids, 0, i as nat);
        assert(leaf_state(ctx, ids[i]) == leaf_state(other, ids[i]));
    }
    assert(field_leaves(schema, ctx, node, k) =~= field_leaves(schema, other, node, k));
}

/// What comes of a field depends on its own leaves alone.
pub proof fn law_field_depends_on_its_leaves(
    schema: SchemaDescriptor,
    ctx: ContextView,
    other: ContextView,
    node: ColumnNodeView,
)
    requires
        same_leaves(ctx, other, node),
    ensures
        field_result(schema, ctx, node) == field_result(schema, other, node),
{
    let ids = node.ids();
    let k = raw_end(ctx, ids, 0);
    lemma_same_field_leaves(schema, ctx, other, node);
    lemma_raw_end_bounds(ctx, ids, 0);
    lemma_same_raw_size(ctx, other, node, k);
    if k < ids.len() {
        assert(leaf_state(ctx, ids[k as int]) == leaf_state(other, ids[k as int]));
    }
}

/// A read fails with the failure of the first field that fails.
pub proof fn law_first_failure_decides<D, S>(
    reader: BlockReaderView<D, S>,
    block_path: Seq<char>,
    ctx: ContextView,
    i: int,
)
    requires
        !ctx.chunks.is_empty(),
        0 <= i < reader.nodes.len(),
        forall|j: int| 0 <= j < i ==> field_result(reader.schema, ctx, #[trigger] reader.nodes[j]) is Ok,
        field_result(reader.schema, ctx, reader.nodes[i]) is Err,
    ensures
        block_result(reader, block_path, ctx) matches Err(e) && e == field_result(
            reader.schema,
            ctx,
            reader.nodes[i],
        )->Err_0,
{
    lemma_fields_come_in_order(reader.schema, ctx, reader.nodes, i as nat);
    lemma_first_failure(reader.schema, ctx, reader.nodes, (i + 1) as nat, reader.nodes.len());
}

/// Whether a field was decoded and is a plain column.
pub open spec fn is_decoded_plain(field: Option<DeserializedArray>) -> bool {
    field matches Some(array) && array is Deserialized
}

/// Whether a column goes to the array cache under its own id.
pub open spec fn is_kept(field: Option<DeserializedArray>, item: CacheItemView) -> bool {
    field matches Some(DeserializedArray::Deserialized((id, array, size))) && item.column_id == id
        && item.array == (array, size)
}

/// The arrays to keep are those of the fields that were decoded and are plain columns: none is
/// missing, and there are no others.
proof fn lemma_kept_arrays(block_path: Seq<char>, fields: Seq<Option<DeserializedArray>>)
    ensures
        ({
            let items = cache_items_of(block_path, present(fields));
            &&& forall|n: int|
                0 <= n < items.len() ==> (#[trigger] items[n]).block_path == block_path && exists|i: int|
                    0 <= i < fields.len() && is_kept(#[trigger] fields[i], items[n])
            &&& forall|i: int|
                0 <= i < fields.len() && is_decoded_plain(#[trigger] fields[i]) ==> exists|n: int|
                    0 <= n < items.len() && is_kept(fields[i], #[trigger] items[n])
        }),
    decreases fields.len(),
{
    if fields.len() > 0 {
        let front = fields.drop_last();
        lemma_kept_arrays(block_path, front);
        let before = cache_items_of(block_path, present(front));
        let items = cache_items_of(block_path, present(fields));
        if fields.last() is Some {
            assert(present(fields).drop_last() =~= present(front));
        }
        assert forall|n: int| 0 <= n < items.len() implies (#[trigger] items[n]).block_path == block_path
            && exists|i: int| 0 <= i < fields.len() && is_kept(#[trigger] fields[i], items[n]) by {
            if n < before.len() {
                assert(items[n] == before[n]);
                let i = choose|i: int| 0 <= i < front.len() && is_kept(#[trigger] front[i], before[n]);
                assert(is_kept(fields[i], items[n]));
            } else {
                assert(is_kept(fields[fields.len() - 1], items[n]));
            }
        }
        assert forall|i: int|
            0 <= i < fields.len() && is_decoded_plain(#[trigger] fields[i]) implies exists|n: int|
            0 <= n < items.len() && is_kept(fields[i], #[trigger] items[n]) by {
            if i < front.len() {
                assert(front[i] == fields[i]);
                let n = choose|n: int| 0 <= n < before.len() && is_kept(front[i], #[trigger] before[n]);
                assert(is_kept(fields[i], items[n]));
            } else {
                assert(is_kept(fields[i], items[items.len() - 1]));
            }
        }
    }
}

/// Fields that can be read come to what each comes to by itself, in order.
pub proof fn lemma_fields_come_in_order(
    schema: SchemaDescriptor,
    ctx: ContextView,
    nodes: Seq<ColumnNodeView>,
    k: nat,
)
    ensures
        fields_result(schema, ctx, nodes, k) is Ok <==> (forall|i: int|
            0 <= i < k ==> field_result(schema, ctx, #[trigger] nodes[i]) is Ok),
        fields_result(schema, ctx, nodes, k) matches Ok(fields) ==> fields.len() == k && forall|i: int|
            0 <= i < k ==> field_result(schema, ctx, nodes[i]) == Ok::<_, ErrorCodeView>(
                #[trigger] fields[i],
            ),
    decreases k,
{
    if k > 0 {
        lemma_fields_come_in_order(schema, ctx, nodes, (k - 1) as nat);
    }
}

/// A field that was decoded to a plain column had its pages at hand, and goes by its first leaf.
proof fn lemma_decoded_plain(schema: SchemaDescriptor, ctx: ContextView, node: ColumnNodeView)
    requires
        field_result(schema, ctx, node) matches Ok(field) && is_decoded_plain(field),
    ensures
        !node.has_children,
        node.ids().len() > 0,
        leaf_state(ctx, node.ids()[0]) is Raw,
        field_result(schema, ctx, node) matches Ok(Some(DeserializedArray::Deserialized((id, _, _)))) && id
            == node.ids()[0],
{
    lemma_raw_end_bounds(ctx, node.ids(), 0);
}

/// Whether an array to keep is that of a field of the reader.
pub open spec fn is_kept_of<D, S>(
    reader: BlockReaderView<D, S>,
    ctx: ContextView,
    node: ColumnNodeView,
    item: CacheItemView,
) -> bool {
    &&& !node.has_children
    &&& item.column_id == node.ids()[0]
    &&& field_result(reader.schema, ctx, node) matches Ok(field)
    &&& is_kept(field, item)
}

/// The arrays to keep are those of the plain columns that were decoded, each under the block and the
/// column: none is missing, and there are no others.
pub proof fn law_decoded_columns_are_kept<D, S>(
    reader: BlockReaderView<D, S>,
    block_path: Seq<char>,
    ctx: ContextView,
)
    requires
        !ctx.chunks.is_empty(),
    ensures
        block_result(reader, block_path, ctx) matches Ok(read) ==> {
            &&& forall|n: int|
                0 <= n < read.cache_items.len() ==> (#[trigger] read.cache_items[n]).block_path == block_path
                    && exists|i: int|
                    0 <= i < reader.nodes.len() && is_kept_of(
                        reader,
                        ctx,
                        #[trigger] reader.nodes[i],
                        read.cache_items[n],
                    )
            &&& forall|i: int|
                0 <= i < reader.nodes.len() && is_decoded_plain(
                    field_result(reader.schema, ctx, #[trigger] reader.nodes[i])->Ok_0,
                ) ==> exists|n: int|
                    0 <= n < read.cache_items.len() && is_kept_of(
                        reader,
                        ctx,
                        reader.nodes[i],
                        #[trigger] read.cache_items[n],
                    )
        },
{
    let nodes = reader.nodes;
    if let Ok(read) = block_result(reader, block_path, ctx) {
        let fields = fields_result(reader.schema, ctx, nodes, nodes.len())->Ok_0;
        let items = read.cache_items;
        lemma_fields_come_in_order(reader.schema, ctx, nodes, nodes.len());
        lemma_kept_arrays(block_path, fields);
        assert forall|n: int| 0 <= n < items.len() implies (#[trigger] items[n]).block_path == block_path
            && exists|i: int|
            0 <= i < nodes.len() && is_kept_of(reader, ctx, #[trigger] nodes[i], items[n]) by {
            let i = choose|i: int| 0 <= i < fields.len() && is_kept(#[trigger] fields[i], items[n]);
            assert(field_result(reader.schema, ctx, nodes[i]) == Ok::<_, ErrorCodeView>(fields[i]));
            lemma_decoded_plain(reader.schema, ctx, nodes[i]);
            assert(is_kept_of(reader, ctx, nodes[i], items[n]));
        }
        assert forall|i: int|
            0 <= i < nodes.len() && is_decoded_plain(
                field_result(reader.schema, ctx, #[trigger] nodes[i])->Ok_0,
            ) implies exists|n: int|
            0 <= n < items.len() && is_kept_of(reader, ctx, nodes[i], #[trigger] items[n]) by {
            assert(field_result(reader.schema, ctx, nodes[i]) == Ok::<_, ErrorCodeView>(fields[i]));
            lemma_decoded_plain(reader.schema, ctx, nodes[i]);
            let n = choose|n: int| 0 <= n < items.len() && is_kept(fields[i], #[trigger] items[n]);
            assert(is_kept_of(reader, ctx, nodes[i], items[n]));
        }
    }
}

/// What goes to the array cache was decoded from pages: an array that came from the cache does not go
/// there again.
pub proof fn law_only_pages_are_kept<D, S>(
    reader: BlockReaderView<D, S>,
    block_path: Seq<char>,
    ctx: ContextView,
)
    ensures
        block_result(reader, block_path, ctx) matches Ok(read) ==> forall|n: int|
            0 <= n < read.cache_items.len() ==> leaf_state(
                ctx,
                (#[trigger] read.cache_items[n]).column_id,
            ) is Raw,
{
    if let Ok(read) = block_result(reader, block_path, ctx) {
        let items = read.cache_items;
        if !ctx.chunks.is_empty() {
            law_decoded_columns_are_kept(reader, block_path, ctx);
            assert forall|n: int| 0 <= n < items.len() implies leaf_state(
                ctx,
                (#[trigger] items[n]).column_id,
            ) is Raw by {
                assert(items[n].block_path == block_path);
                let i = choose|i: int|
                    0 <= i < reader.nodes.len() && is_kept_of(
                        reader,
                        ctx,
                        #[trigger] reader.nodes[i],
                        items[n],
                    );
                lemma_decoded_plain(reader.schema, ctx, reader.nodes[i]);
            }
        }
    }
}

/// What is known of a block, with arrays from the array cache in place of pages.
pub open spec fn with_cached<'a>(
    ctx: ContextView<'a>,
    kept: Map<ColumnId, &'a Arc<SizedColumnArray>>,
) -> ContextView<'a> {
    ContextView {
        chunks: Map::new(
            |id: ColumnId| ctx.chunks.contains_key(id) || kept.contains_key(id),
            |id: ColumnId|
                if kept.contains_key(id) {
                    DataItem::ColumnArray(kept[id])
                } else {
                    ctx.chunks[id]
                },
        ),
        ..ctx
    }
}

/// Whether the columns whose arrays are kept have their ids to themselves: no other field has such a
/// column among its leaves.
pub open spec fn own_ids(
    nodes: Seq<ColumnNodeView>,
    kept: Map<ColumnId, &Arc<SizedColumnArray>>,
) -> bool {
    forall|i: int, j: int, a: int|
        #![trigger nodes[i], nodes[j].ids()[a]]
        0 <= i < nodes.len() && 0 <= j < nodes.len() && 0 <= a < nodes[j].ids().len()
            && !nodes[i].has_children && nodes[i].ids().len() > 0 && kept.contains_key(
            nodes[i].ids()[0],
        ) && nodes[i].ids()[0] == nodes[j].ids()[a] ==> a == 0 && nodes[i] == nodes[j]
}

/// Whether the array cache holds arrays that a read of the block gave it to keep, some or all.
pub open spec fn kept_from(
    items: Seq<CacheItemView>,
    kept: Map<ColumnId, &Arc<SizedColumnArray>>,
) -> bool {
    forall|id: ColumnId| #[trigger]
        kept.contains_key(id) ==> exists|n: int|
            0 <= n < items.len() && (#[trigger] items[n]).column_id == id && *kept[id] == items[n].array
}

/// Whether a field comes to the same array, perhaps from the array cache this time.
pub open spec fn same_array(field: Option<DeserializedArray>, again: Option<DeserializedArray>) -> bool {
    match field {
        None => again is None,
        Some(array) => again matches Some(other) && other.array() == array.array(),
    }
}

/// A leaf whose array the cache holds is the one leaf of a plain column that was decoded.
proof fn lemma_kept_leaf<'a, D, S>(
    reader: BlockReaderView<D, S>,
    block_path: Seq<char>,
    ctx: ContextView<'a>,
    kept: Map<ColumnId, &'a Arc<SizedColumnArray>>,
    i: int,
    a: int,
)
    requires
        !ctx.chunks.is_empty(),
        own_ids(reader.nodes, kept),
        0 <= i < reader.nodes.len(),
        0 <= a < reader.nodes[i].ids().len(),
        kept.contains_key(reader.nodes[i].ids()[a]),
        block_result(reader, block_path, ctx) matches Ok(read) && kept_from(read.cache_items, kept),
    ensures
        a == 0,
        !reader.nodes[i].has_children,
        leaf_state(ctx, reader.nodes[i].ids()[0]) is Raw,
        field_result(reader.schema, ctx, reader.nodes[i]) matches Ok(Some(array)) && array.array()
            == kept[reader.nodes[i].ids()[0]].0,
{
    let id = reader.nodes[i].ids()[a];
    let items = block_result(reader, block_path, ctx)->Ok_0.cache_items;
    law_decoded_columns_are_kept(reader, block_path, ctx);
    let n = choose|n: int|
        0 <= n < items.len() && (#[trigger] items[n]).column_id == id && *kept[id] == items[n].array;
    assert(items[n].block_path == block_path);
    let j = choose|j: int|
        0 <= j < reader.nodes.len() && is_kept_of(reader, ctx, #[trigger] reader.nodes[j], items[n]);
    lemma_decoded_plain(reader.schema, ctx, reader.nodes[j]);
    assert(reader.nodes[j].ids()[0] == reader.nodes[i].ids()[a]);
}

/// A field comes to the same array once the array cache has what a read gave it to keep.
proof fn lemma_field_through_cache<'a, D, S>(
    reader: BlockReaderView<D, S>,
    block_path: Seq<char>,
    ctx: ContextView<'a>,
    kept: Map<ColumnId, &'a Arc<SizedColumnArray>>,
    i: int,
)
    requires
        !ctx.chunks.is_empty(),
        own_ids(reader.nodes, kept),
        0 <= i < reader.nodes.len(),
        block_result(reader, block_path, ctx) matches Ok(read) && kept_from(read.cache_items, kept),
    ensures
        field_result(reader.schema, with_cached(ctx, kept), reader.nodes[i]) is Ok,
        same_array(
            field_result(reader.schema, ctx, reader.nodes[i])->Ok_0,
            field_result(reader.schema, with_cached(ctx, kept), reader.nodes[i])->Ok_0,
        ),
{
    let node = reader.nodes[i];
    let ids = node.ids();
    let cached = with_cached(ctx, kept);
    if exists|a: int| 0 <= a < ids.len() && kept.contains_key(#[trigger] ids[a]) {
        let a = choose|a: int| 0 <= a < ids.len() && kept.contains_key(#[trigger] ids[a]);
        lemma_kept_leaf(reader, block_path, ctx, kept, i, a);
        assert(leaf_state(cached, ids[0]) == LeafState::Cached(kept[ids[0]]));
        law_cached_column_is_taken(reader.schema, cached, node, kept[ids[0]]);
    } else {
        lemma_fields_come_in_order(reader.schema, ctx, reader.nodes, reader.nodes.len());
        assert(same_leaves(ctx, cached, node));
        law_field_depends_on_its_leaves(reader.schema, ctx, cached, node);
    }
}

/// Fields that come to the same arrays make the same chunk and need the same default values.
proof fn lemma_same_arrays<S>(
    fields: Seq<Option<DeserializedArray>>,
    again: Seq<Option<DeserializedArray>>,
    default_vals: Seq<S>,
)
    requires
        fields.len() == again.len(),
        forall|i: int| 0 <= i < fields.len() ==> same_array(#[trigger] fields[i], again[i]),
    ensures
        arrays_of(present(fields)) == arrays_of(present(again)),
        missing_defaults(fields, default_vals) == missing_defaults(again, default_vals),
    decreases fields.len(),
{
    assert forall|i: int| 0 <= i < fields.len() implies (#[trigger] fields[i] is None
        <==> again[i] is None) by {
        assert(same_array(fields[i], again[i]));
    }
    assert(missing_defaults(fields, default_vals) =~= missing_defaults(again, default_vals));
    if fields.len() > 0 {
        assert forall|i: int| 0 <= i < fields.len() - 1 implies same_array(
            #[trigger] fields.drop_last()[i],
            again.drop_last()[i],
        ) by {
            assert(same_array(fields[i], again[i]));
        }
        lemma_same_arrays(fields.drop_last(), again.drop_last(), default_vals);
        assert(same_array(fields[fields.len() - 1], again[fields.len() - 1]));
        assert(arrays_of(present(fields)) =~= if fields.last() is Some {
            arrays_of(present(fields.drop_last())).push(fields.last()->0.array())
        } else {
            arrays_of(present(fields.drop_last()))
        });
        assert(arrays_of(present(again)) =~= if again.last() is Some {
            arrays_of(present(again.drop_last())).push(again.last()->0.array())
        } else {
            arrays_of(present(again.drop_last()))
        });
    }
}

/// A read through the array cache gives back what the read before it gave: with arrays that a read
/// gave the cache to keep, some or all, in place of their pages, the block is made of the same parts.
pub proof fn law_cache_is_transparent<'a, D, S>(
    reader: BlockReaderView<D, S>,
    block_path: Seq<char>,
    ctx: ContextView<'a>,
    kept: Map<ColumnId, &'a Arc<SizedColumnArray>>,
)
    requires
        !ctx.chunks.is_empty(),
        own_ids(reader.nodes, kept),
        block_result(reader, block_path, ctx) matches Ok(read) && kept_from(read.cache_items, kept),
    ensures
        block_result(reader, block_path, with_cached(ctx, kept)) matches Ok(again) && again.parts
            == block_result(reader, block_path, ctx)->Ok_0.parts,
{
    let nodes = reader.nodes;
    let cached = with_cached(ctx, kept);
    let id = choose|id: ColumnId| ctx.chunks.contains_key(id);
    assert(cached.chunks.contains_key(id));
    lemma_fields_come_in_order(reader.schema, ctx, nodes, nodes.len());
    lemma_fields_come_in_order(reader.schema, cached, nodes, nodes.len());
    assert forall|i: int| 0 <= i < nodes.len() implies field_result(
        reader.schema,
        cached,
        #[trigger] nodes[i],
    ) is Ok by {
        lemma_field_through_cache(reader, block_path, ctx, kept, i);
    }
    let fields = fields_result(reader.schema, ctx, nodes, nodes.len())->Ok_0;
    let again = fields_result(reader.schema, cached, nodes, nodes.len())->Ok_0;
    assert forall|i: int| 0 <= i < fields.len() implies same_array(#[trigger] fields[i], again[i]) by {
        lemma_field_through_cache(reader, block_path, ctx, kept, i);
        assert(field_result(reader.schema, ctx, nodes[i]) == Ok::<_, ErrorCodeView>(fields[i]));
        assert(field_result(reader.schema, cached, nodes[i]) == Ok::<_, ErrorCodeView>(again[i]));
    }
    lemma_same_arrays(fields, again, reader.default_vals);
    assert(arrays_of(present(fields)).len() == arrays_of(present(again)).len());
}

/// Whether a field can be read depends on its own leaves alone.
proof fn lemma_same_readable(
    schema: SchemaDescriptor,
    ctx: ContextView,
    other: ContextView,
    node: ColumnNodeView,
)
    requires
        same_leaves(ctx, other, node),
    ensures
        field_readable(schema, ctx, node) == field_readable(schema, other, node),
{
    let ids = node.ids();
    let k = raw_end(ctx, ids, 0);
    lemma_same_field_leaves(schema, ctx, other, node);
    lemma_raw_end_bounds(ctx, ids, 0);
    lemma_same_raw_size(ctx, other, node, k);
    if k < ids.len() {
        assert(leaf_state(ctx, ids[k as int]) == leaf_state(other, ids[k as int]));
    }
}

/// A block that was read can be read again through the array cache.
pub proof fn law_cached_block_is_readable<'a, D, S>(
    reader: BlockReaderView<D, S>,
    block_path: Seq<char>,
    ctx: ContextView<'a>,
    kept: Map<ColumnId, &'a Arc<SizedColumnArray>>,
)
    requires
        !ctx.chunks.is_empty(),
        block_readable(reader, ctx),
        own_ids(reader.nodes, kept),
        block_result(reader, block_path, ctx) matches Ok(read) && kept_from(read.cache_items, kept),
    ensures
        block_readable(reader, with_cached(ctx, kept)),
{
    let nodes = reader.nodes;
    let cached = with_cached(ctx, kept);
    lemma_fields_come_in_order(reader.schema, ctx, nodes, nodes.len());
    assert forall|j: int| 0 <= j < nodes.len() implies field_readable(
        reader.schema,
        cached,
        #[trigger] nodes[j],
    ) by {
        let ids = nodes[j].ids();
        assert(fields_result(reader.schema, ctx, nodes, j as nat) is Ok) by {
            lemma_fields_come_in_order(reader.schema, ctx, nodes, j as nat);
        }
        assert(field_readable(reader.schema, ctx, nodes[j]));
        if exists|a: int| 0 <= a < ids.len() && kept.contains_key(#[trigger] ids[a]) {
            let a = choose|a: int| 0 <= a < ids.len() && kept.contains_key(#[trigger] ids[a]);
            lemma_kept_leaf(reader, block_path, ctx, kept, j, a);
            assert(leaf_state(cached, ids[0]) == LeafState::Cached(kept[ids[0]]));
        } else {
            assert(same_leaves(ctx, cached, nodes[j]));
            lemma_same_readable(reader.schema, ctx, cached, nodes[j]);
        }
    }
    lemma_fields_come_in_order(reader.schema, cached, nodes, nodes.len());
    let fields = fields_result(reader.schema, ctx, nodes, nodes.len())->Ok_0;
    if let Ok(again) = fields_result(reader.schema, cached, nodes, nodes.len()) {
        assert(defaults_there(fields, reader.default_vals.len()));
        assert forall|i: int| 0 <= i < again.len() && (#[trigger] again[i]) is None implies i
            < reader.default_vals.len() by {
            lemma_field_through_cache(reader, block_path, ctx, kept, i);
            assert(field_result(reader.schema, ctx, nodes[i]) == Ok::<_, ErrorCodeView>(fields[i]));
            assert(field_result(reader.schema, cached, nodes[i]) == Ok::<_, ErrorCodeView>(again[i]));
            assert(same_array(fields[i], again[i]));
            assert(fields[i] is None);
        }
        assert(can_assemble(again, reader.default_vals.len()));
    }
}

/// The default values to fill in are missing where the block has a field.
proof fn lemma_count_missing<S>(fields: Seq<Option<DeserializedArray>>, default_vals: Seq<S>)
    ensures
        count_missing(missing_defaults(fields, default_vals)) == present(fields).len(),
        present(fields).len() <= fields.len(),
        present(fields).len() == fields.len() <==> (forall|i: int|
            0 <= i < fields.len() ==> (#[trigger] fields[i]) is Some),
    decreases fields.len(),
{
    if fields.len() > 0 {
        let front = fields.drop_last();
        lemma_count_missing(front, default_vals);
        assert(missing_defaults(fields, default_vals).drop_last() =~= missing_defaults(front, default_vals));
        if present(fields).len() == fields.len() {
            assert forall|i: int| 0 <= i < fields.len() implies (#[trigger] fields[i]) is Some by {
                if i < front.len() {
                    assert(front[i] is Some);
                }
            }
        }
        if forall|i: int| 0 <= i < fields.len() ==> (#[trigger] fields[i]) is Some {
            assert forall|i: int| 0 <= i < front.len() implies (#[trigger] front[i]) is Some by {
                assert(fields[i] is Some);
            }
            assert(fields[fields.len() - 1] is Some);
        }
    }
}

/// The array of a field that a block has comes after those of the fields before it.
proof fn lemma_array_of_field(fields: Seq<Option<DeserializedArray>>, i: int)
    requires
        0 <= i < fields.len(),
        fields[i] is Some,
    ensures
        present(fields.take(i)).len() < arrays_of(present(fields)).len(),
        arrays_of(present(fields))[present(fields.take(i)).len() as int] == fields[i]->0.array(),
    decreases fields.len(),
{
    if i == fields.len() - 1 {
        assert(fields.take(i) =~= fields.drop_last());
    } else {
        lemma_array_of_field(fields.drop_last(), i);
        assert(fields.drop_last().take(i) =~= fields.take(i));
        assert(fields.drop_last()[i] == fields[i]);
    }
}

/// The columns of a block stand in the order of the fields: a field that the block has is its array,
/// and a field that it does not have is its default value, repeated for each row.
pub proof fn law_columns_keep_their_order<D, S>(
    reader: BlockReaderView<D, S>,
    block_path: Seq<char>,
    num_rows: usize,
    fields: Seq<Option<DeserializedArray>>,
    i: int,
)
    requires
        0 <= i < fields.len(),
    ensures
        assembled(reader, block_path, num_rows, fields) matches Ok(read) ==> {
            &&& read.parts.schema() == reader.data_schema
            &&& read.parts.width() == fields.len()
            &&& read.parts.column(i) == match fields[i] {
                Some(array) => BlockColumn::Array(array.array()),
                None => BlockColumn::Repeated(reader.default_vals[i], num_rows),
            }
        },
{
    let missing = missing_defaults(fields, reader.default_vals);
    lemma_count_missing(fields, reader.default_vals);
    lemma_count_missing(fields.take(i), reader.default_vals);
    assert(missing.take(i) =~= missing_defaults(fields.take(i), reader.default_vals));
    if fields[i] is Some {
        lemma_array_of_field(fields, i);
    }
    if present(fields).len() == fields.len() {
        assert(fields[i] is Some);
        assert forall|j: int| 0 <= j < i implies (#[trigger] fields.take(i)[j]) is Some by {
            assert(fields[j] is Some);
        }
    }
}

/// A block that knows none of the fields is made as the default block is: each column is its default
/// value, repeated for each row. Nothing is kept, and the compression does not matter.
pub proof fn law_unknown_block_is_the_default_block<D, S>(
    reader: BlockReaderView<D, S>,
    block_path: Seq<char>,
    ctx: ContextView,
)
    requires
        reader.nodes.len() > 0,
        reader.default_vals.len() == reader.nodes.len(),
        forall|i: int, a: int|
            #![trigger reader.nodes[i].ids()[a]]
            0 <= i < reader.nodes.len() && 0 <= a < reader.nodes[i].ids().len()
                ==> !ctx.metas.contains_key(reader.nodes[i].ids()[a]),
    ensures
        block_readable(reader, ctx),
        ({
            let default_block = default_parts(reader, ctx.num_rows);
            &&& block_result(reader, block_path, ctx) matches Ok(read)
            &&& read.cache_items == Seq::<CacheItemView>::empty()
            &&& read.parts.schema() == default_block.schema()
            &&& read.parts.width() == default_block.width()
            &&& forall|i: int|
                0 <= i < default_block.width() ==> #[trigger] read.parts.column(i) == default_block.column(i)
                    && read.parts.column(i) == BlockColumn::Repeated(reader.default_vals[i], ctx.num_rows)
        }),
{
    let nodes = reader.nodes;
    assert forall|i: int| 0 <= i < nodes.len() implies field_readable(
        reader.schema,
        ctx,
        #[trigger] nodes[i],
    ) && field_result(reader.schema, ctx, nodes[i]) matches Ok(None) by {
        let ids = nodes[i].ids();
        if ids.len() > 0 {
            assert(!ctx.metas.contains_key(reader.nodes[i].ids()[0]));
        }
    }
    if !ctx.chunks.is_empty() {
        lemma_fields_come_in_order(reader.schema, ctx, nodes, nodes.len());
        let fields = fields_result(reader.schema, ctx, nodes, nodes.len())->Ok_0;
        assert forall|i: int| 0 <= i < fields.len() implies (#[trigger] fields[i]) is None by {
            assert(field_result(reader.schema, ctx, nodes[i]) == Ok::<_, ErrorCodeView>(fields[i]));
        }
        lemma_all_absent(fields);
        assert forall|i: int| 0 <= i < nodes.len() implies #[trigger] block_result(
            reader,
            block_path,
            ctx,
        )->Ok_0.parts.column(i) == BlockColumn::<S>::Repeated(reader.default_vals[i], ctx.num_rows) by {
            law_columns_keep_their_order(reader, block_path, ctx.num_rows, fields, i);
            assert(fields[i] is None);
        }
        law_columns_keep_their_order(reader, block_path, ctx.num_rows, fields, 0);
    }
}

/// Of fields that a block does not have, none is present.
proof fn lemma_all_absent(fields: Seq<Option<DeserializedArray>>)
    requires
        forall|i: int| 0 <= i < fields.len() ==> (#[trigger] fields[i]) is None,
    ensures
        present(fields) == Seq::<DeserializedArray>::empty(),
    decreases fields.len(),
{
    if fields.len() > 0 {
        assert forall|i: int| 0 <= i < fields.len() - 1 implies (#[trigger] fields.drop_last()[i]) is None by {
            assert(fields[i] is None);
        }
        assert(fields[fields.len() - 1] is None);
        lemma_all_absent(fields.drop_last());
    }
}

} // verus!
