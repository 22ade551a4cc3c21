//! What comes out of a read: the parts of a data block, and the arrays to keep for the next read.

use vstd::prelude::*;

use crate::arrow::chunk_arrays;
use crate::arrow::ArrowArray;
use crate::arrow::ArrowChunk;
use crate::column::ColumnId;
use crate::column::SizedColumnArray;

verus! {

/// What a data block is made of. `D` is the schema of the block, `S` a value of a column.
pub enum BlockParts<'r, D, S> {
    /// Each column is its default value, repeated.
    DefaultValues { schema: &'r D, default_vals: &'r Vec<S>, num_rows: usize },
    /// The columns are the arrays of the chunk, in order.
    Columns { schema: &'r D, chunk: ArrowChunk },
    /// A column with a value among the missing ones is that value, repeated. The others are the
    /// arrays of the chunk, in order.
    ColumnsAndDefaults {
        schema: &'r D,
        chunk: ArrowChunk,
        missing_vals: Vec<Option<&'r S>>,
        num_rows: usize,
    },
}

/// The mathematical form of [`BlockParts`].
pub ghost enum BlockPartsView<D, S> {
    DefaultValues { schema: D, default_vals: Seq<S>, num_rows: usize },
    Columns { schema: D, arrays: Seq<ArrowArray> },
    ColumnsAndDefaults {
        schema: D,
        arrays: Seq<ArrowArray>,
        missing_vals: Seq<Option<S>>,
        num_rows: usize,
    },
}

/// A column of a data block.
pub ghost enum BlockColumn<S> {
    Array(ArrowArray),
    /// A value, repeated so many times.
    Repeated(S, usize),
}

/// How many of some optional values are missing.
pub open spec fn count_missing<S>(vals: Seq<Option<S>>) -> nat
    decreases vals.len(),
{
    if vals.len() == 0 {
        0
    } else {
        count_missing(vals.drop_last()) + if vals.last() is None {
            1nat
        } else {
            0nat
        }
    }
}

impl<D, S> BlockPartsView<D, S> {
    /// The schema of the block.
    pub open spec fn schema(self) -> D {
        match self {
            BlockPartsView::DefaultValues { schema, .. } => schema,
            BlockPartsView::Columns { schema, .. } => schema,
            BlockPartsView::ColumnsAndDefaults { schema, .. } => schema,
        }
    }

    /// The number of columns.
    pub open spec fn width(self) -> nat {
        match self {
            BlockPartsView::DefaultValues { default_vals, .. } => default_vals.len(),
            BlockPartsView::Columns { arrays, .. } => arrays.len(),
            BlockPartsView::ColumnsAndDefaults { missing_vals, .. } => missing_vals.len(),
        }
    }

    /// The column at a position. A column that is not a value is the array after those of the columns
    /// before it.
    pub open spec fn column(self, i: int) -> BlockColumn<S> {
        match self {
            BlockPartsView::DefaultValues { default_vals, num_rows, .. } => BlockColumn::Repeated(
                default_vals[i],
                num_rows,
            ),
            BlockPartsView::Columns { arrays, .. } => BlockColumn::Array(arrays[i]),
            BlockPartsView::ColumnsAndDefaults { arrays, missing_vals, num_rows, .. } => {
                match missing_vals[i] {
                    Some(val) => BlockColumn::Repeated(val, num_rows),
                    None => BlockColumn::Array(arrays[count_missing(missing_vals.take(i)) as int]),
                }
            },
        }
    }
}

/// Optional values, taken from behind their references.
pub open spec fn owned<S>(vals: Seq<Option<&S>>) -> Seq<Option<S>> {
    vals.map_values(
        |val: Option<&S>|
            match val {
                Some(s) => Some(*s),
                None => None,
            },
    )
}

impl<'r, D, S> View for BlockParts<'r, D, S> {
    type V = BlockPartsView<D, S>;

    open spec fn view(&self) -> BlockPartsView<D, S> {
        match self {
            BlockParts::DefaultValues { schema, default_vals, num_rows } => {
                BlockPartsView::DefaultValues {
                    schema: **schema,
                    default_vals: default_vals@,
                    num_rows: *num_rows,
                }
            },
            BlockParts::Columns { schema, chunk } => BlockPartsView::Columns {
                schema: **schema,
                arrays: chunk_arrays(*chunk),
            },
            BlockParts::ColumnsAndDefaults { schema, chunk, missing_vals, num_rows } => {
                BlockPartsView::ColumnsAndDefaults {
                    schema: **schema,
                    arrays: chunk_arrays(*chunk),
                    missing_vals: owned(missing_vals@),
                    num_rows: *num_rows,
                }
            },
        }
    }
}

/// What the array of a column is kept under: the block and the column.
pub struct TableDataCacheKey {
    pub block_path: String,
    pub column_id: ColumnId,
}

/// An array to keep in the array cache, and what to keep it under.
pub struct CacheItem {
    pub key: TableDataCacheKey,
    pub array: SizedColumnArray,
}

/// The mathematical form of [`CacheItem`].
pub ghost struct CacheItemView {
    pub block_path: Seq<char>,
    pub column_id: ColumnId,
    pub array: SizedColumnArray,
}

impl View for CacheItem {
    type V = CacheItemView;

    open spec fn view(&self) -> CacheItemView {
        CacheItemView {
            block_path: self.key.block_path@,
            column_id: self.key.column_id,
            array: self.array,
        }
    }
}

/// Cache items in their mathematical form, in order.
pub open spec fn cache_item_views(items: Seq<CacheItem>) -> Seq<CacheItemView> {
    items.map_values(|item: CacheItem| item@)
}

/// What comes out of a read.
pub struct BlockRead<'r, D, S> {
    pub parts: BlockParts<'r, D, S>,
    /// What is to be kept in the array cache, where there is one, once the block is built.
    pub cache_items: Vec<CacheItem>,
}

/// The mathematical form of [`BlockRead`].
pub ghost struct BlockReadView<D, S> {
    pub parts: BlockPartsView<D, S>,
    pub cache_items: Seq<CacheItemView>,
}

impl<'r, D, S> View for BlockRead<'r, D, S> {
    type V = BlockReadView<D, S>;

    open spec fn view(&self) -> BlockReadView<D, S> {
        BlockReadView { parts: self.parts@, cache_items: cache_item_views(self.cache_items@) }
    }
}

} // verus!
