//! The columns that a block reader works on: their metadata, their data and what becomes of them.

use std::collections::HashMap;
use std::sync::Arc;

use arrow2::datatypes::Field;
use parquet2::metadata::ColumnDescriptor;
use vstd::prelude::*;

use crate::arrow::ArrowArray;

verus! {

/// The number by which a leaf column of a table is known in all of its blocks.
pub type ColumnId = u32;

/// A column array and the number of bytes that it was decoded from.
pub type SizedColumnArray = (ArrowArray, usize);

/// The compression that a table was written with.
#[derive(Clone, Copy, Debug, PartialEq, Eq, Structural)]
pub enum TableCompression {
    Lz4,
    Lz4Raw,
    Snappy,
    Zstd,
    Gzip,
    Uncompressed,
}

/// Where a parquet column lies in a block, and how many values it has.
#[derive(Clone, Copy, Debug, PartialEq, Eq, Structural)]
pub struct ParquetColumnMeta {
    pub offset: u64,
    pub num_values: u64,
}

/// What a block says of one of its leaf columns.
#[derive(Clone, Copy, Debug, PartialEq, Eq, Structural)]
pub enum ColumnMeta {
    Parquet(ParquetColumnMeta),
    /// A column that is not stored as parquet.
    Native,
}

/// What was fetched of a leaf column.
pub enum DataItem<'a> {
    /// The pages, as they are stored.
    RawData(&'a [u8]),
    /// The decoded array, from the array cache.
    ColumnArray(&'a Arc<SizedColumnArray>),
}

/// What became of a field that was read.
pub enum DeserializedArray<'a> {
    /// The array came from the array cache.
    Cached(&'a Arc<SizedColumnArray>),
    /// The array was decoded, and belongs in the array cache under this column, with the number of
    /// bytes that it was decoded from.
    Deserialized((ColumnId, ArrowArray, usize)),
    /// The array was decoded, and does not belong in the array cache.
    NoNeedToCache(ArrowArray),
}

impl<'a> DeserializedArray<'a> {
    /// The array, wherever it came from.
    pub open spec fn array(self) -> ArrowArray {
        match self {
            DeserializedArray::Cached(sized) => sized.0,
            DeserializedArray::Deserialized((_, array, _)) => array,
            DeserializedArray::NoNeedToCache(array) => array,
        }
    }
}

/// A field of a table: a plain column, or one with columns below it.
///
/// Its leaves are the parquet columns that it is stored in. A node has the position in the parquet
/// schema and the column id of each. Column ids after those of the leaves do not matter.
pub struct ColumnNode {
    field: Field,
    leaf_indices: Vec<usize>,
    leaf_column_ids: Vec<ColumnId>,
    has_children: bool,
}

/// The mathematical form of [`ColumnNode`].
pub ghost struct ColumnNodeView {
    pub field: Field,
    pub leaf_indices: Seq<usize>,
    pub leaf_column_ids: Seq<ColumnId>,
    pub has_children: bool,
}

impl ColumnNodeView {
    /// A column id for each leaf. There may be more.
    pub open spec fn valid(self) -> bool {
        self.leaf_column_ids.len() >= self.leaf_indices.len()
    }

    /// The column id of each leaf.
    pub open spec fn ids(self) -> Seq<ColumnId> {
        self.leaf_column_ids.take(self.leaf_indices.len() as int)
    }
}

impl View for ColumnNode {
    type V = ColumnNodeView;

    closed spec fn view(&self) -> ColumnNodeView {
        ColumnNodeView {
            field: self.field,
            leaf_indices: self.leaf_indices@,
            leaf_column_ids: self.leaf_column_ids@,
            has_children: self.has_children,
        }
    }
}

impl ColumnNode {
    #[verifier::type_invariant]
    spec fn well_formed(self) -> bool {
        self@.valid()
    }

    /// The node of a field whose leaves are given; `None` if there are more positions than ids.
    pub fn try_new(
        field: Field,
        leaf_indices: Vec<usize>,
        leaf_column_ids: Vec<ColumnId>,
        has_children: bool,
    ) -> (r: Option<ColumnNode>)
        ensures
            ({
                let node = ColumnNodeView {
                    field,
                    leaf_indices: leaf_indices@,
                    leaf_column_ids: leaf_column_ids@,
                    has_children,
                };
                match r {
                    Some(n) => node.valid() && n@ == node,
                    None => !node.valid(),
                }
            }),
    {
        if leaf_indices.len() <= leaf_column_ids.len() {
            Some(ColumnNode { field, leaf_indices, leaf_column_ids, has_children })
        } else {
            None
        }
    }

    /// The field.
    pub fn field(&self) -> (r: &Field)
        ensures
            *r == self@.field,
            self@.valid(),
    {
        proof {
            use_type_invariant(self);
        }
        &self.field
    }

    /// The position of each leaf in the parquet schema.
    pub fn leaf_indices(&self) -> (r: &Vec<usize>)
        ensures
            r@ == self@.leaf_indices,
            self@.valid(),
    {
        proof {
            use_type_invariant(self);
        }
        &self.leaf_indices
    }

    /// The column ids, those of the leaves first.
    pub fn leaf_column_ids(&self) -> (r: &Vec<ColumnId>)
        ensures
            r@ == self@.leaf_column_ids,
            self@.valid(),
    {
        proof {
            use_type_invariant(self);
        }
        &self.leaf_column_ids
    }

    /// Whether the field has columns below it.
    pub fn has_children(&self) -> (r: bool)
        ensures
            r == self@.has_children,
    {
        self.has_children
    }
}

/// A leaf of a field whose pages are at hand.
pub struct FieldLeaf<'a> {
    pub meta: &'a ColumnMeta,
    pub data: &'a [u8],
    pub descriptor: &'a ColumnDescriptor,
}

/// The mathematical form of [`FieldLeaf`].
pub ghost struct FieldLeafView {
    pub meta: ColumnMeta,
    pub data: Seq<u8>,
    pub descriptor: ColumnDescriptor,
}

impl<'a> View for FieldLeaf<'a> {
    type V = FieldLeafView;

    open spec fn view(&self) -> FieldLeafView {
        FieldLeafView { meta: *self.meta, data: self.data@, descriptor: *self.descriptor }
    }
}

/// Leaves in their mathematical form, in order.
pub open spec fn leaf_views(leaves: Seq<FieldLeaf>) -> Seq<FieldLeafView> {
    leaves.map_values(|leaf: FieldLeaf| leaf@)
}

/// What is known of the block that a field is read from.
pub struct FieldDeserializationContext<'c, 'a> {
    pub column_metas: &'c HashMap<ColumnId, ColumnMeta>,
    pub column_chunks: &'c HashMap<ColumnId, DataItem<'a>>,
    pub num_rows: usize,
    pub compression: &'c TableCompression,
}

/// The mathematical form of [`FieldDeserializationContext`].
pub ghost struct ContextView<'a> {
    pub metas: Map<ColumnId, ColumnMeta>,
    pub chunks: Map<ColumnId, DataItem<'a>>,
    pub num_rows: usize,
    pub compression: TableCompression,
}

impl<'c, 'a> View for FieldDeserializationContext<'c, 'a> {
    type V = ContextView<'a>;

    open spec fn view(&self) -> ContextView<'a> {
        ContextView {
            metas: self.column_metas@,
            chunks: self.column_chunks@,
            num_rows: self.num_rows,
            compression: *self.compression,
        }
    }
}

/// What a table says of one of its blocks.
pub struct FusePartInfo {
    /// The path of the block.
    pub location: String,
    pub nums_rows: usize,
    pub columns_meta: HashMap<ColumnId, ColumnMeta>,
    pub compression: TableCompression,
}

impl FusePartInfo {
    /// What is known of the block, with what was fetched of its columns.
    pub open spec fn context<'a>(self, chunks: Map<ColumnId, DataItem<'a>>) -> ContextView<'a> {
        ContextView {
            metas: self.columns_meta@,
            chunks,
            num_rows: self.nums_rows,
            compression: self.compression,
        }
    }
}

} // verus!
