//! Which columns can be handed to a decoder of the field that they are stored for.

use arrow2::datatypes::Field;
use vstd::prelude::*;

use crate::arrow::field_shape;
use crate::arrow::leaf_column;
use crate::arrow::page_column_views;
use crate::arrow::page_descriptors;
use crate::arrow::stored_leaves;
use crate::arrow::PageColumn;
use crate::arrow::PageColumnView;
use crate::nesting::all_page_views;
use crate::nesting::check_pages;
use crate::nesting::pages_sound;
use crate::parquet::check_levels;
use crate::parquet::column_pages;
use crate::parquet::levels_add_up;
use crate::parquet::page_views;
use crate::parquet::plain_pages;
use crate::parquet::PlainPage;
use crate::parquet::PlainPageView;
use crate::shape::check_set_up;
use crate::shape::decoder_set_up;
use crate::shape::shape_of;
use crate::shape::LeafColumn;
use crate::shape::SetUp;

verus! {

/// The pages of columns, in order.
pub open spec fn pages_of_columns(columns: Seq<PageColumnView>) -> Seq<Seq<Option<PlainPageView>>> {
    columns.map_values(|column: PageColumnView| column_pages(column))
}

/// Whether so many rows of a field can be decoded from columns, or are refused. Where a type in the field is
/// refused, no page is read.
pub open spec fn columns_sound(columns: Seq<PageColumnView>, field: Field, num_rows: usize) -> bool {
    let stored = stored_leaves(page_descriptors(columns));
    decoder_set_up(field_shape(field), stored, num_rows) is Refused || {
        &&& forall|i: int| 0 <= i < columns.len() ==> levels_add_up(#[trigger] columns[i])
        &&& pages_sound(field_shape(field), stored, pages_of_columns(columns), num_rows)
    }
}

/// Tells whether so many rows of a field can be decoded from columns, or are refused.
pub fn check_columns(columns: &Vec<PageColumn<'_>>, field: &Field, num_rows: usize) -> (r: bool)
    ensures
        r == columns_sound(page_column_views(columns@), *field, num_rows),
{
    let ghost views = page_column_views(columns@);
    let mut stored: Vec<LeafColumn> = Vec::with_capacity(columns.len());
    for i in 0..columns.len()
        invariant
            views == page_column_views(columns@),
            stored.len() == i,
            forall|j: int| 0 <= j < i ==> #[trigger] stored@[j] == stored_leaves(page_descriptors(views))[j],
    {
        stored.push(leaf_column(columns[i].descriptor));
    }
    assert(stored@ =~= stored_leaves(page_descriptors(views)));
    let shape = shape_of(field);
    match check_set_up(&shape, &stored, num_rows) {
        SetUp::Broken => return false,
        SetUp::Refused => return true,
        SetUp::Ready => {},
    }
    let mut pages: Vec<Vec<Option<PlainPage>>> = Vec::with_capacity(columns.len());
    for i in 0..columns.len()
        invariant
            views == page_column_views(columns@),
            !(decoder_set_up(field_shape(*field), stored_leaves(page_descriptors(views)), num_rows) is Refused),
            pages.len() == i,
            forall|j: int| 0 <= j < i ==> levels_add_up(#[trigger] views[j]),
            forall|j: int|
                0 <= j < i ==> page_views((#[trigger] pages@[j])@) == pages_of_columns(views)[j],
    {
        assert(views[i as int] == columns@[i as int]@);
        if !check_levels(&columns[i]) {
            return false;
        }
        pages.push(plain_pages(&columns[i]));
    }
    assert(all_page_views(pages@) =~= pages_of_columns(views));
    check_pages(&shape, &stored, &pages, num_rows)
}

} // verus!
