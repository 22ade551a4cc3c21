//! Reading the columns of a block that is stored as parquet.

use std::collections::HashMap;

use arrow2::datatypes::Field;
use arrow2::error::Error as ArrowError;
use parquet2::metadata::SchemaDescriptor;
use vstd::prelude::*;

use crate::arrow::array_clone;
use crate::arrow::chunk_try_new;
use crate::arrow::chunk_arrays;
use crate::arrow::codec;
use crate::arrow::codec_of;
use crate::arrow::decoder_error;
use crate::arrow::array_iter;
use crate::arrow::field_name;
use crate::arrow::first_array;
use crate::arrow::first_array_of;
use crate::arrow::first_item;
use crate::arrow::name_of;
use crate::arrow::page_column_views;
use crate::arrow::schema_columns;
use crate::arrow::ArrowArray;
use crate::arrow::ArrowArrays;
use crate::arrow::PageColumn;
use crate::arrow::PageColumnView;
use crate::arrow::ParquetCompression;
use crate::block::cache_item_views;
use crate::block::owned;
use crate::block::BlockParts;
use crate::block::BlockRead;
use crate::block::BlockReadView;
use crate::block::CacheItem;
use crate::block::TableDataCacheKey;
use crate::block_model::array_of_leaves;
use crate::block_model::arrays_of;
use crate::block_model::assembled;
use crate::block_model::block_readable;
use crate::block_model::block_result;
use crate::block_model::can_assemble;
use crate::block_model::cache_items_of;
use crate::block_model::default_parts;
use crate::block_model::defaults_there;
use crate::block_model::fields_result;
use crate::block_model::lemma_first_failure;
use crate::block_model::missing_defaults;
use crate::block_model::present;
use crate::block_model::field_leaves;
use crate::block_model::field_readable;
use crate::block_model::field_result;
use crate::block_model::field_scan;
use crate::block_model::finished_field;
use crate::block_model::leaf_state;
use crate::block_model::leaves_readable;
use crate::block_model::BlockReaderView;
use crate::block_model::lemma_raw_end_bounds;
use crate::block_model::lemma_raw_size_is_monotone;
use crate::block_model::page_column;
use crate::block_model::page_columns;
use crate::block_model::parquet_compression;
use crate::block_model::raw_end;
use crate::block_model::raw_size;
use crate::block_model::FieldScan;
use crate::block_model::LZ4_DEPRECATED;
use crate::column::leaf_views;
use crate::column::ColumnId;
use crate::column::ColumnMeta;
use crate::column::ColumnNode;
use crate::column::ColumnNodeView;
use crate::column::ContextView;
use crate::column::DataItem;
use crate::column::DeserializedArray;
use crate::column::FieldDeserializationContext;
use crate::column::FieldLeaf;
use crate::column::FusePartInfo;
use crate::column::TableCompression;
use crate::decoding::check_columns;
use crate::read_laws::lemma_whole_field;
use crate::error::result_view;
use crate::error::ErrorCode;
use crate::error::ErrorCodeView;

verus! {

broadcast use vstd::std_specs::hash::group_hash_axioms;

/// Reads the projected fields of a table from its blocks.
///
/// `D` is the schema of the blocks that come out, `S` a value of a column.
pub struct BlockReader<D, S> {
    data_schema: D,
    project_column_nodes: Vec<ColumnNode>,
    default_vals: Vec<S>,
    parquet_schema_descriptor: SchemaDescriptor,
}

/// Column nodes in their mathematical form, in order.
pub open spec fn node_views(nodes: Seq<ColumnNode>) -> Seq<ColumnNodeView> {
    nodes.map_values(|node: ColumnNode| node@)
}

impl<D, S> View for BlockReader<D, S> {
    type V = BlockReaderView<D, S>;

    closed spec fn view(&self) -> BlockReaderView<D, S> {
        BlockReaderView {
            data_schema: self.data_schema,
            nodes: node_views(self.project_column_nodes@),
            default_vals: self.default_vals@,
            schema: self.parquet_schema_descriptor,
        }
    }
}

impl<D, S> BlockReader<D, S> {
    /// A reader of the given fields.
    pub fn new(
        data_schema: D,
        project_column_nodes: Vec<ColumnNode>,
        default_vals: Vec<S>,
        parquet_schema_descriptor: SchemaDescriptor,
    ) -> (r: BlockReader<D, S>)
        ensures
            r@ == (BlockReaderView {
                data_schema,
                nodes: node_views(project_column_nodes@),
                default_vals: default_vals@,
                schema: parquet_schema_descriptor,
            }),
            r@.nodes.len() == project_column_nodes@.len(),
            forall|i: int|
                0 <= i < project_column_nodes@.len() ==> #[trigger] r@.nodes[i] == project_column_nodes@[i]@,
    {
        BlockReader { data_schema, project_column_nodes, default_vals, parquet_schema_descriptor }
    }

    /// What a block is made of that has none of the columns: the default values.
    pub fn build_default_values_block(&self, num_rows: usize) -> (r: BlockParts<'_, D, S>)
        ensures
            r@ == default_parts(self@, num_rows),
            r matches BlockParts::DefaultValues { schema, default_vals, num_rows: rows } && *schema
                == self@.data_schema && default_vals@ == self@.default_vals && rows == num_rows,
    {
        BlockParts::DefaultValues { schema: &self.data_schema, default_vals: &self.default_vals, num_rows }
    }

    /// The compression of the pages of a table.
    pub fn to_parquet_compression(meta_compression: &TableCompression) -> (r: Result<
        ParquetCompression,
        ErrorCode,
    >)
        ensures
            result_view(r) == parquet_compression(*meta_compression),
            match *meta_compression {
                TableCompression::Lz4 => r matches Err(ErrorCode::StorageOther(message)) && message@
                    == LZ4_DEPRECATED@,
                TableCompression::Lz4Raw => r == Ok::<_, ErrorCode>(ParquetCompression::Lz4Raw),
                TableCompression::Snappy => r == Ok::<_, ErrorCode>(ParquetCompression::Snappy),
                TableCompression::Zstd => r == Ok::<_, ErrorCode>(ParquetCompression::Zstd),
                TableCompression::Gzip => r == Ok::<_, ErrorCode>(ParquetCompression::Gzip),
                TableCompression::Uncompressed => r == Ok::<_, ErrorCode>(ParquetCompression::Uncompressed),
            },
    {
        match meta_compression {
            TableCompression::Lz4 => Err(ErrorCode::storage_other(LZ4_DEPRECATED)),
            TableCompression::Lz4Raw => Ok(ParquetCompression::Lz4Raw),
            TableCompression::Snappy => Ok(ParquetCompression::Snappy),
            TableCompression::Zstd => Ok(ParquetCompression::Zstd),
            TableCompression::Gzip => Ok(ParquetCompression::Gzip),
            TableCompression::Uncompressed => Ok(ParquetCompression::Uncompressed),
        }
    }

    /// The pages of leaves that are parquet columns; `None` if one of them is not.
    fn page_columns_of<'a>(leaves: &Vec<FieldLeaf<'a>>, compression: ParquetCompression) -> (r: Option<
        Vec<PageColumn<'a>>,
    >)
        ensures
            match r {
                Some(columns) => page_column_views(columns@) == page_columns(leaf_views(leaves@), compression)
                    && forall|i: int|
                    0 <= i < leaves.len() ==> (#[trigger] leaf_views(leaves@)[i]).meta is Parquet,
                None => exists|i: int|
                    0 <= i < leaves.len() && !((#[trigger] leaf_views(leaves@)[i]).meta is Parquet),
            },
    {
        let ghost views = leaf_views(leaves@);
        let mut columns: Vec<PageColumn> = Vec::with_capacity(leaves.len());
        for i in 0..leaves.len()
            invariant
                columns.len() == i,
                views == leaf_views(leaves@),
                forall|j: int| 0 <= j < i ==> (#[trigger] views[j]).meta is Parquet,
                forall|j: int|
                    0 <= j < i ==> (#[trigger] columns@[j])@ == page_column(leaves@[j]@, compression),
        {
            let leaf = &leaves[i];
            assert(views[i as int] == leaf@);
            match leaf.meta {
                ColumnMeta::Parquet(meta) => {
                    columns.push(
                        PageColumn {
                            column_start: meta.offset,
                            num_values: meta.num_values as i64,
                            codec: codec(compression),
                            data: leaf.data,
                            descriptor: leaf.descriptor,
                        },
                    );
                },
                ColumnMeta::Native => {
                    assert(!(views[i as int].meta is Parquet));
                    return None;
                },
            }
        }
        assert(page_column_views(columns@) =~= page_columns(views, compression));
        Some(columns)
    }

    /// Tells whether leaves can be handed to a parquet decoder.
    pub fn check_leaves(
        leaves: &Vec<FieldLeaf<'_>>,
        rows: usize,
        field: &Field,
        compression: &TableCompression,
    ) -> (r: bool)
        ensures
            r == leaves_readable(leaf_views(leaves@), rows, *field, *compression),
    {
        if leaves.len() == 0 {
            return false;
        }
        assert(leaf_views(leaves@)[0] == leaves@[0]@);
        let compression = match Self::to_parquet_compression(compression) {
            Ok(compression) => compression,
            Err(_) => return match leaves[0].meta {
                ColumnMeta::Parquet(_) => true,
                ColumnMeta::Native => false,
            },
        };
        match Self::page_columns_of(leaves, compression) {
            Some(columns) => check_columns(&columns, field, rows),
            None => false,
        }
    }

    /// Sets up a decoder of the leaves of a field, for one array with all the rows.
    pub fn chunks_to_parquet_array_iter<'a>(
        leaves: &Vec<FieldLeaf<'a>>,
        rows: usize,
        field: &Field,
        compression: &TableCompression,
    ) -> (r: Result<ArrowArrays<'a>, ErrorCode>)
        requires
            leaves_readable(leaf_views(leaves@), rows, *field, *compression),
        ensures
            first_item_view(r) == array_of_leaves(leaf_views(leaves@), rows, *field, *compression),
            *compression is Lz4 ==> (r matches Err(ErrorCode::StorageOther(message)) && message@
                == LZ4_DEPRECATED@),
            !(*compression is Lz4) ==> ({
                let codec = match *compression {
                    TableCompression::Lz4Raw => codec_of(ParquetCompression::Lz4Raw),
                    TableCompression::Snappy => codec_of(ParquetCompression::Snappy),
                    TableCompression::Zstd => codec_of(ParquetCompression::Zstd),
                    TableCompression::Gzip => codec_of(ParquetCompression::Gzip),
                    _ => codec_of(ParquetCompression::Uncompressed),
                };
                let columns = Seq::new(
                    leaves@.len(),
                    |j: int|
                        (PageColumnView {
                            column_start: leaves@[j].meta->Parquet_0.offset,
                            num_values: leaves@[j].meta->Parquet_0.num_values as i64,
                            codec,
                            data: leaves@[j].data@,
                            descriptor: *leaves@[j].descriptor,
                        }),
                );
                match r {
                    Ok(arrays) => decoder_error(columns, *field, Some(rows), rows) is None && first_item(arrays)
                        == first_array_of(columns, *field, Some(rows), rows),
                    Err(e) => e matches ErrorCode::Arrow(error) && decoder_error(
                        columns,
                        *field,
                        Some(rows),
                        rows,
                    ) == Some(error),
                }
            }),
    {
        let compression = match Self::to_parquet_compression(compression) {
            Ok(compression) => compression,
            Err(e) => return Err(e),
        };
        let columns = Self::page_columns_of(leaves, compression).unwrap();
        proof {
            let codec = codec_of(compression);
            assert(page_column_views(columns@) =~= Seq::new(
                leaves@.len(),
                |j: int|
                    (PageColumnView {
                        column_start: leaves@[j].meta->Parquet_0.offset,
                        num_values: leaves@[j].meta->Parquet_0.num_values as i64,
                        codec,
                        data: leaves@[j].data@,
                        descriptor: *leaves@[j].descriptor,
                    }),
            ));
        }
        match array_iter(&columns, field, Some(rows), rows) {
            Ok(arrays) => Ok(arrays),
            Err(e) => Err(ErrorCode::Arrow(e)),
        }
    }

    /// Tells what becomes of a field, from the first array that its leaves were decoded to.
    pub fn finish_field<'a>(
        column: &ColumnNode,
        first: Option<Result<ArrowArray, ArrowError>>,
        uncompressed_size: usize,
    ) -> (r: Result<Option<DeserializedArray<'a>>, ErrorCode>)
        requires
            column@.ids().len() > 0,
        ensures
            result_view(r) == finished_field(column@, first, uncompressed_size),
            match first {
                Some(Err(error)) => r matches Err(ErrorCode::Arrow(e)) && e == error,
                None => r matches Err(ErrorCode::StorageOther(message)) && message@
                    == "unexpected deserialization error, no array found for field "@ + field_name(column@.field)
                    + " "@,
                Some(Ok(array)) => if column@.has_children {
                    r matches Ok(Some(DeserializedArray::NoNeedToCache(decoded))) && decoded == array
                } else {
                    r matches Ok(Some(DeserializedArray::Deserialized((id, decoded, size)))) && id
                        == column@.leaf_column_ids[0] && decoded == array && size == uncompressed_size
                },
            },
    {
        match first {
            Some(Err(e)) => Err(ErrorCode::Arrow(e)),
            None => {
                let field_name = name_of(column.field());
                Err(ErrorCode::no_array(field_name.as_str()))
            },
            Some(Ok(array)) => {
                if column.has_children() {
                    Ok(Some(DeserializedArray::NoNeedToCache(array)))
                } else {
                    let column_id: ColumnId = column.leaf_column_ids()[0];
                    Ok(Some(DeserializedArray::Deserialized((column_id, array, uncompressed_size))))
                }
            },
        }
    }

    /// Tells whether a field can be read from a block.
    pub fn check_field(
        &self,
        deserialization_context: &FieldDeserializationContext<'_, '_>,
        column: &ColumnNode,
    ) -> (r: bool)
        ensures
            r == field_readable(self@.schema, deserialization_context@, column@),
    {
        let ghost ctx = deserialization_context@;
        let ghost node = column@;
        let ghost ids = node.ids();
        let ghost schema = self@.schema;
        let indices = column.leaf_indices();
        let column_ids = column.leaf_column_ids();
        let descriptors = self.parquet_schema_descriptor.columns();
        let mut leaves: Vec<FieldLeaf> = Vec::with_capacity(indices.len());
        let mut size: usize = 0;
        let mut i: usize = 0;
        while i < indices.len()
            invariant_except_break
                raw_end(ctx, ids, 0) == raw_end(ctx, ids, i as nat),
            invariant
                ctx == deserialization_context@,
                node == column@,
                ids == node.ids(),
                node.valid(),
                indices@ == node.leaf_indices,
                column_ids@ == node.leaf_column_ids,
                descriptors@ == schema_columns(schema),
                schema == self@.schema,
                i <= ids.len(),
                leaves.len() == i,
                forall|j: int|
                    0 <= j < i ==> (#[trigger] leaves@[j])@ == field_leaves(schema, ctx, node, i as nat)[j],
                forall|j: int| 0 <= j < i ==> (#[trigger] node.leaf_indices[j]) < schema_columns(schema).len(),
                size == raw_size(ctx, ids, i as nat),
            ensures
                raw_end(ctx, ids, 0) == i,
                field_scan(ctx, node) == FieldScan::Leaves(i as nat),
            decreases indices.len() - i,
        {
            let column_id: ColumnId = column_ids[i];
            match deserialization_context.column_metas.get(&column_id) {
                Some(column_meta) => match deserialization_context.column_chunks.get(&column_id) {
                    Some(DataItem::RawData(data)) => {
                        proof {
                            lemma_raw_end_bounds(ctx, ids, (i + 1) as nat);
                            lemma_raw_size_is_monotone(ctx, ids, (i + 1) as nat, raw_end(ctx, ids, 0));
                        }
                        size = match size.checked_add(data.len()) {
                            Some(size) => size,
                            None => return false,
                        };
                        if indices[i] >= descriptors.len() {
                            assert(node.leaf_indices[i as int] >= schema_columns(schema).len());
                            return false;
                        }
                        leaves.push(
                            FieldLeaf {
                                meta: column_meta,
                                data: *data,
                                descriptor: &descriptors[indices[i]],
                            },
                        );
                    },
                    Some(DataItem::ColumnArray(_)) => return true,
                    None => return true,
                },
                None => break,
            }
            i = i + 1;
        }
        if i == 0 {
            return true;
        }
        assert(leaf_views(leaves@) =~= field_leaves(schema, ctx, node, i as nat));
        Self::check_leaves(
            &leaves,
            deserialization_context.num_rows,
            column.field(),
            deserialization_context.compression,
        )
    }

    /// Reads a field: its array, or nothing if the block does not have it.
    ///
    /// A plain column may come from the array cache. A field with columns below it may not.
    pub fn deserialize_field<'a>(
        &self,
        deserialization_context: &FieldDeserializationContext<'_, 'a>,
        column: &ColumnNode,
    ) -> (r: Result<Option<DeserializedArray<'a>>, ErrorCode>)
        requires
            field_readable(self@.schema, deserialization_context@, column@),
        ensures
            result_view(r) == field_result(self@.schema, deserialization_context@, column@),
            ({
                let metas = deserialization_context.column_metas@;
                let chunks = deserialization_context.column_chunks@;
                let compression = *deserialization_context.compression;
                let rows = deserialization_context.num_rows;
                let field = column@.field;
                let ids = column@.leaf_column_ids;
                let indices = column@.leaf_indices;
                let codec = match compression {
                    TableCompression::Lz4Raw => codec_of(ParquetCompression::Lz4Raw),
                    TableCompression::Snappy => codec_of(ParquetCompression::Snappy),
                    TableCompression::Zstd => codec_of(ParquetCompression::Zstd),
                    TableCompression::Gzip => codec_of(ParquetCompression::Gzip),
                    _ => codec_of(ParquetCompression::Uncompressed),
                };
                let columns = Seq::new(
                    indices.len(),
                    |j: int|
                        (PageColumnView {
                            column_start: metas[ids[j]]->Parquet_0.offset,
                            num_values: metas[ids[j]]->Parquet_0.num_values as i64,
                            codec,
                            data: chunks[ids[j]]->RawData_0@,
                            descriptor: schema_columns(self@.schema)[indices[j] as int],
                        }),
                );
                indices.len() > 0 && !(compression is Lz4) && (forall|j: int|
                    0 <= j < indices.len() ==> metas.contains_key(#[trigger] ids[j]) && metas[ids[j]] is Parquet
                        && chunks.contains_key(ids[j]) && chunks[ids[j]] is RawData) ==> match decoder_error(
                    columns,
                    field,
                    Some(rows),
                    rows,
                ) {
                    Some(error) => r matches Err(ErrorCode::Arrow(e)) && e == error,
                    None => match first_array_of(columns, field, Some(rows), rows) {
                        Some(Ok(array)) => if column@.has_children {
                            r matches Ok(Some(DeserializedArray::NoNeedToCache(decoded))) && decoded == array
                        } else {
                            r matches Ok(Some(DeserializedArray::Deserialized((id, decoded, _)))) && id == ids[0]
                                && decoded == array
                        },
                        Some(Err(error)) => r matches Err(ErrorCode::Arrow(e)) && e == error,
                        None => r matches Err(ErrorCode::StorageOther(message)) && message@
                            == "unexpected deserialization error, no array found for field "@ + field_name(field)
                            + " "@,
                    },
                }
            }),
    {
        let ghost ctx = deserialization_context@;
        let ghost node = column@;
        let ghost ids = node.ids();
        let ghost schema = self@.schema;
        let indices = column.leaf_indices();
        let column_ids = column.leaf_column_ids();
        let is_nested: bool = column.has_children();
        proof {
            if indices.len() > 0 && !(ctx.compression is Lz4) && (forall|j: int|
                0 <= j < indices.len() ==> ctx.metas.contains_key(#[trigger] node.leaf_column_ids[j])
                    && ctx.metas[node.leaf_column_ids[j]] is Parquet && ctx.chunks.contains_key(
                    node.leaf_column_ids[j],
                ) && ctx.chunks[node.leaf_column_ids[j]] is RawData) {
                lemma_whole_field(schema, ctx, node);
            }
        }
        let descriptors = self.parquet_schema_descriptor.columns();
        let mut leaves: Vec<FieldLeaf> = Vec::with_capacity(indices.len());
        let mut field_uncompressed_size: usize = 0;
        let mut i: usize = 0;
        while i < indices.len()
            invariant_except_break
                raw_end(ctx, ids, 0) == raw_end(ctx, ids, i as nat),
            invariant
                ctx == deserialization_context@,
                node == column@,
                ids == node.ids(),
                node.valid(),
                indices@ == node.leaf_indices,
                column_ids@ == node.leaf_column_ids,
                is_nested == node.has_children,
                descriptors@ == schema_columns(schema),
                schema == self@.schema,
                field_readable(schema, ctx, node),
                i <= ids.len(),
                leaves.len() == i,
                forall|j: int|
                    0 <= j < i ==> (#[trigger] leaves@[j])@ == field_leaves(schema, ctx, node, i as nat)[j],
                field_uncompressed_size == raw_size(ctx, ids, i as nat),
            ensures
                raw_end(ctx, ids, 0) == i,
                field_scan(ctx, node) == FieldScan::Leaves(i as nat),
            decreases indices.len() - i,
        {
            let column_id: ColumnId = column_ids[i];
            proof {
                lemma_raw_end_bounds(ctx, ids, (i + 1) as nat);
                if leaf_state(ctx, column_id) is Raw {
                    lemma_raw_size_is_monotone(ctx, ids, (i + 1) as nat, raw_end(ctx, ids, 0));
                }
            }
            match deserialization_context.column_metas.get(&column_id) {
                Some(column_meta) => match deserialization_context.column_chunks.get(&column_id) {
                    Some(DataItem::RawData(data)) => {
                        leaves.push(
                            FieldLeaf {
                                meta: column_meta,
                                data: *data,
                                descriptor: &descriptors[indices[i]],
                            },
                        );
                        field_uncompressed_size = field_uncompressed_size + data.len();
                    },
                    Some(DataItem::ColumnArray(column_array)) => {
                        if is_nested {
                            return Err(
                                ErrorCode::storage_other(
                                    "unexpected nested field: nested leaf field hits cached",
                                ),
                            );
                        }
                        return Ok(Some(DeserializedArray::Cached(*column_array)));
                    },
                    None => {
                        return Err(ErrorCode::storage_other("unexpected: column data not found"));
                    },
                },
                None => break,
            }
            i = i + 1;
        }
        if leaves.len() == 0 {
            return Ok(None);
        }
        assert(leaf_views(leaves@) =~= field_leaves(schema, ctx, node, i as nat));
        let arrays = match Self::chunks_to_parquet_array_iter(
            &leaves,
            deserialization_context.num_rows,
            column.field(),
            deserialization_context.compression,
        ) {
            Ok(arrays) => arrays,
            Err(e) => return Err(e),
        };
        Self::finish_field(column, first_array(arrays), field_uncompressed_size)
    }

    /// Puts a block together from what its fields came to; `None` if the fields that the block has make a
    /// chunk, and one that it does not have has no default value.
    pub fn assemble(
        &self,
        block_path: &str,
        num_rows: usize,
        fields: &Vec<Option<DeserializedArray<'_>>>,
    ) -> (r: Option<Result<BlockRead<'_, D, S>, ErrorCode>>)
        ensures
            r is Some <==> can_assemble(fields@, self@.default_vals.len()),
            r matches Some(read) ==> block_read_view(read) == assembled(
                self@,
                block_path@,
                num_rows,
                fields@,
            ),
            r matches Some(Ok(read)) ==> match read.parts {
                BlockParts::DefaultValues { .. } => false,
                BlockParts::Columns { schema, chunk } => *schema == self@.data_schema && chunk_arrays(chunk).len()
                    == fields@.len(),
                BlockParts::ColumnsAndDefaults { schema, missing_vals, num_rows: rows, .. } => {
                    &&& *schema == self@.data_schema
                    &&& rows == num_rows
                    &&& missing_vals@.len() == fields@.len()
                    &&& forall|i: int|
                        0 <= i < fields@.len() ==> match #[trigger] missing_vals@[i] {
                            Some(value) => fields@[i] is None && *value == self@.default_vals[i],
                            None => fields@[i] is Some,
                        }
                },
            },
    {
        let mut chunk_arrays: Vec<ArrowArray> = Vec::new();
        let mut default_vals: Vec<Option<&S>> = Vec::with_capacity(fields.len());
        let mut cache_items: Vec<CacheItem> = Vec::new();
        let mut complete: bool = true;
        for i in 0..fields.len()
            invariant
                complete == defaults_there(fields@.take(i as int), self.default_vals.len() as nat),
                chunk_arrays@ == arrays_of(present(fields@.take(i as int))),
                present(fields@.take(i as int)).len() <= i,
                default_vals.len() == i,
                complete ==> forall|j: int|
                    0 <= j < i ==> #[trigger] default_vals@[j] == (if fields@[j] is None {
                        Some(&self.default_vals@[j])
                    } else {
                        None
                    }),
                cache_item_views(cache_items@) == cache_items_of(
                    block_path@,
                    present(fields@.take(i as int)),
                ),
        {
            let ghost before = fields@.take(i as int);
            let ghost after = fields@.take(i + 1);
            assert(after.drop_last() =~= before);
            assert(forall|j: int| 0 <= j < i ==> #[trigger] after[j] == before[j]);
            assert(after[i as int] == fields@[i as int]);
            match &fields[i] {
                None => {
                    if i < self.default_vals.len() {
                        default_vals.push(Some(&self.default_vals[i]));
                    } else {
                        assert(after[i as int] is None);
                        default_vals.push(None);
                        complete = false;
                    }
                },
                Some(field) => {
                    default_vals.push(None);
                    proof {
                        assert(present(after).drop_last() =~= present(before));
                    }
                    match field {
                        DeserializedArray::Deserialized((column_id, array, size)) => {
                            chunk_arrays.push(array_clone(array));
                            cache_items.push(
                                CacheItem {
                                    key: TableDataCacheKey {
                                        block_path: block_path.to_owned(),
                                        column_id: *column_id,
                                    },
                                    array: (array_clone(array), *size),
                                },
                            );
                        },
                        DeserializedArray::NoNeedToCache(array) => {
                            chunk_arrays.push(array_clone(array));
                        },
                        DeserializedArray::Cached(sized_column) => {
                            chunk_arrays.push(array_clone(&sized_column.0));
                        },
                    }
                },
            }
            assert(chunk_arrays@ =~= arrays_of(present(after)));
            assert(cache_item_views(cache_items@) =~= cache_items_of(block_path@, present(after)));
        }
        assert(fields@.take(fields.len() as int) =~= fields@);
        assert(complete ==> owned(default_vals@) =~= missing_defaults(fields@, self.default_vals@));
        let found: usize = chunk_arrays.len();
        let chunk = match chunk_try_new(chunk_arrays) {
            Ok(chunk) => chunk,
            Err(e) => return Some(Err(ErrorCode::Arrow(e))),
        };
        if !complete {
            return None;
        }
        let parts = if found == fields.len() {
            BlockParts::Columns { schema: &self.data_schema, chunk }
        } else {
            BlockParts::ColumnsAndDefaults {
                schema: &self.data_schema,
                chunk,
                missing_vals: default_vals,
                num_rows,
            }
        };
        Some(Ok(BlockRead { parts, cache_items }))
    }

    /// Reads the projected fields of a block from what was fetched of its columns; `None` if the block cannot
    /// be read.
    pub fn try_deserialize_parquet_chunks_with_buffer(
        &self,
        block_path: &str,
        num_rows: usize,
        compression: &TableCompression,
        column_metas: &HashMap<ColumnId, ColumnMeta>,
        column_chunks: HashMap<ColumnId, DataItem<'_>>,
    ) -> (r: Option<Result<BlockRead<'_, D, S>, ErrorCode>>)
        ensures
            ({
                let ctx = ContextView {
                    metas: column_metas@,
                    chunks: column_chunks@,
                    num_rows,
                    compression: *compression,
                };
                match r {
                    Some(read) => block_readable(self@, ctx) && block_read_view(read) == block_result(
                        self@,
                        block_path@,
                        ctx,
                    ),
                    None => !block_readable(self@, ctx),
                }
            }),
            r matches Some(Ok(read)) ==> match read.parts {
                BlockParts::DefaultValues { schema, default_vals, num_rows: rows } => column_chunks@.is_empty()
                    && *schema == self@.data_schema && default_vals@ == self@.default_vals && rows == num_rows,
                BlockParts::Columns { schema, chunk } => !column_chunks@.is_empty() && *schema
                    == self@.data_schema && chunk_arrays(chunk).len() == self@.nodes.len(),
                BlockParts::ColumnsAndDefaults { schema, missing_vals, num_rows: rows, .. } => {
                    &&& !column_chunks@.is_empty()
                    &&& *schema == self@.data_schema
                    &&& rows == num_rows
                    &&& missing_vals@.len() == self@.nodes.len()
                    &&& forall|i: int|
                        0 <= i < missing_vals@.len() ==> ((#[trigger] missing_vals@[i]) matches Some(value)
                            ==> *value == self@.default_vals[i])
                },
            },
    {
        if column_chunks.is_empty() {
            let read = BlockRead {
                parts: self.build_default_values_block(num_rows),
                cache_items: Vec::new(),
            };
            assert(cache_item_views(read.cache_items@) =~= seq![]);
            return Some(Ok(read));
        }
        let field_deserialization_ctx = FieldDeserializationContext {
            column_metas,
            column_chunks: &column_chunks,
            num_rows,
            compression,
        };
        let ghost ctx = field_deserialization_ctx@;
        let ghost nodes = self@.nodes;
        let mut fields: Vec<Option<DeserializedArray>> = Vec::with_capacity(
            self.project_column_nodes.len(),
        );
        for i in 0..self.project_column_nodes.len()
            invariant
                ctx == field_deserialization_ctx@,
                ctx == (ContextView {
                    metas: column_metas@,
                    chunks: column_chunks@,
                    num_rows,
                    compression: *compression,
                }),
                nodes == self@.nodes,
                !ctx.chunks.is_empty(),
                fields_result(self@.schema, ctx, nodes, i as nat) == Ok::<_, ErrorCodeView>(fields@),
                fields.len() == i,
                forall|j: int| 0 <= j < i ==> field_readable(self@.schema, ctx, #[trigger] nodes[j]),
        {
            assert(nodes[i as int] == self.project_column_nodes@[i as int]@);
            if !self.check_field(&field_deserialization_ctx, &self.project_column_nodes[i]) {
                assert(!field_readable(self@.schema, ctx, nodes[i as int]));
                return None;
            }
            match self.deserialize_field(&field_deserialization_ctx, &self.project_column_nodes[i]) {
                Ok(field) => {
                    fields.push(field);
                },
                Err(e) => {
                    proof {
                        assert forall|j: int|
                            0 <= j < nodes.len() && fields_result(self@.schema, ctx, nodes, j as nat)
                                is Ok implies field_readable(self@.schema, ctx, #[trigger] nodes[j]) by {
                            if j > i {
                                lemma_first_failure(self@.schema, ctx, nodes, (i + 1) as nat, j as nat);
                            }
                        }
                        lemma_first_failure(self@.schema, ctx, nodes, (i + 1) as nat, nodes.len());
                    }
                    return Some(Err(e));
                },
            }
        }
        self.assemble(block_path, num_rows, &fields)
    }

    /// Reads the projected fields of a block from what was fetched of its columns.
    pub fn deserialize_parquet_chunks_with_buffer(
        &self,
        block_path: &str,
        num_rows: usize,
        compression: &TableCompression,
        column_metas: &HashMap<ColumnId, ColumnMeta>,
        column_chunks: HashMap<ColumnId, DataItem<'_>>,
    ) -> (r: Result<BlockRead<'_, D, S>, ErrorCode>)
        requires
            block_readable(
                self@,
                ContextView {
                    metas: column_metas@,
                    chunks: column_chunks@,
                    num_rows,
                    compression: *compression,
                },
            ),
        ensures
            block_read_view(r) == block_result(
                self@,
                block_path@,
                ContextView {
                    metas: column_metas@,
                    chunks: column_chunks@,
                    num_rows,
                    compression: *compression,
                },
            ),
            r matches Ok(read) ==> match read.parts {
                BlockParts::DefaultValues { schema, default_vals, num_rows: rows } => column_chunks@.is_empty()
                    && *schema == self@.data_schema && default_vals@ == self@.default_vals && rows == num_rows,
                BlockParts::Columns { schema, chunk } => !column_chunks@.is_empty() && *schema
                    == self@.data_schema && chunk_arrays(chunk).len() == self@.nodes.len(),
                BlockParts::ColumnsAndDefaults { schema, missing_vals, num_rows: rows, .. } => {
                    &&& !column_chunks@.is_empty()
                    &&& *schema == self@.data_schema
                    &&& rows == num_rows
                    &&& missing_vals@.len() == self@.nodes.len()
                    &&& forall|i: int|
                        0 <= i < missing_vals@.len() ==> ((#[trigger] missing_vals@[i]) matches Some(value)
                            ==> *value == self@.default_vals[i])
                },
            },
    {
        self.try_deserialize_parquet_chunks_with_buffer(
            block_path,
            num_rows,
            compression,
            column_metas,
            column_chunks,
        ).unwrap()
    }

    /// Reads the projected fields of a block that a part of a table names.
    pub fn deserialize_parquet_chunks(
        &self,
        part: &FusePartInfo,
        chunks: HashMap<ColumnId, DataItem<'_>>,
    ) -> (r: Result<BlockRead<'_, D, S>, ErrorCode>)
        requires
            block_readable(self@, part.context(chunks@)),
        ensures
            block_read_view(r) == block_result(self@, part.location@, part.context(chunks@)),
            block_read_view(r) == block_result(
                self@,
                part.location@,
                (ContextView {
                    metas: part.columns_meta@,
                    chunks: chunks@,
                    num_rows: part.nums_rows,
                    compression: part.compression,
                }),
            ),
            r matches Ok(read) ==> match read.parts {
                BlockParts::DefaultValues { schema, default_vals, num_rows: rows } => chunks@.is_empty()
                    && *schema == self@.data_schema && default_vals@ == self@.default_vals && rows == part.nums_rows,
                BlockParts::Columns { schema, chunk } => !chunks@.is_empty() && *schema
                    == self@.data_schema && chunk_arrays(chunk).len() == self@.nodes.len(),
                BlockParts::ColumnsAndDefaults { schema, missing_vals, num_rows: rows, .. } => {
                    &&& !chunks@.is_empty()
                    &&& *schema == self@.data_schema
                    &&& rows == part.nums_rows
                    &&& missing_vals@.len() == self@.nodes.len()
                    &&& forall|i: int|
                        0 <= i < missing_vals@.len() ==> ((#[trigger] missing_vals@[i]) matches Some(value)
                            ==> *value == self@.default_vals[i])
                },
            },
    {
        self.try_deserialize_parquet_chunks(part, chunks).unwrap()
    }

    /// Reads the projected fields of a block that a part of a table names; `None` if the block cannot
    /// be read.
    pub fn try_deserialize_parquet_chunks(
        &self,
        part: &FusePartInfo,
        chunks: HashMap<ColumnId, DataItem<'_>>,
    ) -> (r: Option<Result<BlockRead<'_, D, S>, ErrorCode>>)
        ensures
            match r {
                Some(read) => block_readable(self@, part.context(chunks@)) && block_read_view(read)
                    == block_result(self@, part.location@, part.context(chunks@)),
                None => !block_readable(self@, part.context(chunks@)),
            },
            r matches Some(read) ==> block_read_view(read) == block_result(
                self@,
                part.location@,
                (ContextView {
                    metas: part.columns_meta@,
                    chunks: chunks@,
                    num_rows: part.nums_rows,
                    compression: part.compression,
                }),
            ),
            r matches Some(Ok(read)) ==> match read.parts {
                BlockParts::DefaultValues { schema, default_vals, num_rows: rows } => chunks@.is_empty()
                    && *schema == self@.data_schema && default_vals@ == self@.default_vals && rows == part.nums_rows,
                BlockParts::Columns { schema, chunk } => !chunks@.is_empty() && *schema
                    == self@.data_schema && chunk_arrays(chunk).len() == self@.nodes.len(),
                BlockParts::ColumnsAndDefaults { schema, missing_vals, num_rows: rows, .. } => {
                    &&& !chunks@.is_empty()
                    &&& *schema == self@.data_schema
                    &&& rows == part.nums_rows
                    &&& missing_vals@.len() == self@.nodes.len()
                    &&& forall|i: int|
                        0 <= i < missing_vals@.len() ==> ((#[trigger] missing_vals@[i]) matches Some(value)
                            ==> *value == self@.default_vals[i])
                },
            },
    {
        if chunks.is_empty() {
            let read = BlockRead {
                parts: self.build_default_values_block(part.nums_rows),
                cache_items: Vec::new(),
            };
            assert(cache_item_views(read.cache_items@) =~= seq![]);
            return Some(Ok(read));
        }
        self.try_deserialize_parquet_chunks_with_buffer(
            part.location.as_str(),
            part.nums_rows,
            &part.compression,
            &part.columns_meta,
            chunks,
        )
    }
}

/// The first array that a decoder gives, or why there is no decoder, in mathematical form.
pub open spec fn first_item_view(r: Result<ArrowArrays, ErrorCode>) -> Result<
    Option<Result<ArrowArray, ArrowError>>,
    ErrorCodeView,
> {
    match r {
        Ok(arrays) => Ok(first_item(arrays)),
        Err(e) => Err(e@),
    }
}

/// What comes out of a read, in mathematical form.
pub open spec fn block_read_view<D, S>(r: Result<BlockRead<D, S>, ErrorCode>) -> Result<
    BlockReadView<D, S>,
    ErrorCodeView,
> {
    match r {
        Ok(read) => Ok(read@),
        Err(e) => Err(e@),
    }
}

} // verus!
