//! Reading the bloom index of a column.

use arrow2::error::Error as ArrowError;
use parquet2::metadata::ColumnChunkMetaData;
use parquet2::metadata::ColumnDescriptor;
use vstd::prelude::*;
use vstd::string::StringExecFns;

use crate::arrow::array_iter;
use crate::arrow::binary_field;
use crate::arrow::binary_field_named;
use crate::arrow::binary_values;
use crate::arrow::chunk_descriptor;
use crate::arrow::chunk_extent;
use crate::arrow::codec;
use crate::arrow::codec_of;
use crate::arrow::column_root;
use crate::arrow::decoded_array;
use crate::arrow::decoder_error;
use crate::arrow::descriptor_of;
use crate::arrow::extent;
use crate::arrow::first_array;
use crate::arrow::first_array_of;
use crate::arrow::page_column_views;
use crate::arrow::root_name;
use crate::arrow::values;
use crate::arrow::ArrowArray;
use crate::arrow::PageColumn;
use crate::arrow::PageColumnView;
use crate::arrow::ParquetCompression;
use crate::column::ColumnId;
use crate::decimal::append_decimal;
use crate::decimal::decimal;
use crate::decimal::lemma_decimal_has_digits;
use crate::decimal::lemma_decimal_is_injective;
use crate::decoding::check_columns;
use crate::decoding::columns_sound;
use crate::error::ErrorCode;
use crate::error::ErrorCodeView;

verus! {

/// What to load.
pub struct LoadParams {
    /// The path of the object.
    pub location: String,
    /// The length of the object, where it is known.
    pub len_hint: Option<u64>,
    /// The version of the format.
    pub ver: u64,
}

/// Loads the filter of a column from a range of the index object. `O` is what reads objects.
pub struct Xor8Loader<O> {
    pub offset: u64,
    pub len: u64,
    /// What the filter is kept under once it is loaded.
    pub cache_key: String,
    pub operator: O,
    pub column_descriptor: ColumnDescriptor,
}

/// A loader behind a cache of the given name.
pub struct CachedReader<O> {
    pub name: String,
    pub loader: Xor8Loader<O>,
}

/// Reads the filter of one column of a bloom index, through the cache of such filters.
pub struct BloomIndexColumnReader<O> {
    pub cached_reader: CachedReader<O>,
    pub param: LoadParams,
}

/// What the filter of a column is kept under.
pub open spec fn index_cache_key(index_path: Seq<char>, column_id: ColumnId) -> Seq<char> {
    index_path + "-"@ + decimal(column_id as nat)
}

impl<O> BloomIndexColumnReader<O> {
    /// Whether this reads the filter of a column of the index at a path, which lies where the
    /// metadata of the column chunk say.
    pub open spec fn reads(
        self,
        index_path: Seq<char>,
        column_id: ColumnId,
        colum_chunk_meta: ColumnChunkMetaData,
        operator: O,
    ) -> bool {
        &&& chunk_extent(colum_chunk_meta) matches Some((offset, len))
        &&& self.cached_reader.name@ == "bloom_index_data_cache"@
        &&& self.cached_reader.loader.offset == offset as u64
        &&& self.cached_reader.loader.len == len as u64
        &&& self.cached_reader.loader.cache_key@ == index_cache_key(index_path, column_id)
        &&& self.cached_reader.loader.operator == operator
        &&& self.cached_reader.loader.column_descriptor == chunk_descriptor(colum_chunk_meta)
        &&& self.param.location@ == index_path
        &&& self.param.len_hint is None
        &&& self.param.ver == 0
    }

    /// The reader of the filter of a column of the index at a path.
    pub fn new(
        index_path: String,
        column_id: ColumnId,
        colum_chunk_meta: &ColumnChunkMetaData,
        operator: O,
    ) -> (r: BloomIndexColumnReader<O>)
        requires
            chunk_extent(*colum_chunk_meta) is Some,
        ensures
            r.reads(index_path@, column_id, *colum_chunk_meta, operator),
            r.param.location@ == index_path@,
            r.param.len_hint is None,
            r.param.ver == 0,
            r.cached_reader.name@ == "bloom_index_data_cache"@,
            r.cached_reader.loader.cache_key@ == index_path@ + "-"@ + decimal(column_id as nat),
            r.cached_reader.loader.operator == operator,
            r.cached_reader.loader.column_descriptor == chunk_descriptor(*colum_chunk_meta),
            chunk_extent(*colum_chunk_meta) matches Some((offset, len)) && r.cached_reader.loader.offset
                == offset as u64 && r.cached_reader.loader.len == len as u64,
    {
        let (offset, len): (i64, i64) = extent(colum_chunk_meta).unwrap();
        let mut cache_key: String = index_path.clone();
        cache_key.append("-");
        append_decimal(&mut cache_key, column_id);
        let loader = Xor8Loader {
            offset: offset as u64,
            len: len as u64,
            cache_key,
            operator,
            column_descriptor: descriptor_of(colum_chunk_meta),
        };
        let cached_reader = CachedReader { name: "bloom_index_data_cache".to_owned(), loader };
        let param = LoadParams { location: index_path, len_hint: None, ver: 0 };
        BloomIndexColumnReader { cached_reader, param }
    }

    /// The reader of the filter of a column of the index at a path; `None` where the column chunk
    /// has no metadata.
    pub fn try_new(
        index_path: String,
        column_id: ColumnId,
        colum_chunk_meta: &ColumnChunkMetaData,
        operator: O,
    ) -> (r: Option<BloomIndexColumnReader<O>>)
        ensures
            match r {
                Some(reader) => reader.reads(index_path@, column_id, *colum_chunk_meta, operator),
                None => chunk_extent(*colum_chunk_meta) is None,
            },
            match (r, chunk_extent(*colum_chunk_meta)) {
                (Some(reader), Some((offset, len))) => {
                    &&& reader.param.location@ == index_path@
                    &&& reader.param.len_hint is None
                    &&& reader.param.ver == 0
                    &&& reader.cached_reader.name@ == "bloom_index_data_cache"@
                    &&& reader.cached_reader.loader.cache_key@ == index_path@ + "-"@ + decimal(column_id as nat)
                    &&& reader.cached_reader.loader.operator == operator
                    &&& reader.cached_reader.loader.column_descriptor == chunk_descriptor(*colum_chunk_meta)
                    &&& reader.cached_reader.loader.offset == offset as u64
                    &&& reader.cached_reader.loader.len == len as u64
                },
                (Some(_), None) => false,
                (None, extent) => extent is None,
            },
    {
        if extent(colum_chunk_meta).is_some() {
            Some(BloomIndexColumnReader::new(index_path, column_id, colum_chunk_meta, operator))
        } else {
            None
        }
    }
}

/// The bytes of the filter, from what the page of the index was decoded to: the one value that it
/// holds. `None` where it was decoded to an array without values.
pub open spec fn filter_of(decoded: Result<Option<ArrowArray>, ArrowError>) -> Option<
    Result<Seq<u8>, ErrorCodeView>,
> {
    match decoded {
        Err(e) => Some(Err(ErrorCodeView::Arrow(e))),
        Ok(None) => Some(
            Err(ErrorCodeView::StorageOther("bloom index data not available as expected"@)),
        ),
        Ok(Some(array)) => match binary_values(array) {
            Some(values) => if values.len() > 0 {
                Some(Ok(values[0]))
            } else {
                None
            },
            None => None,
        },
    }
}

/// The page of an index: one value, stored as it is.
pub open spec fn index_page(bytes: Seq<u8>, descriptor: ColumnDescriptor) -> PageColumnView {
    PageColumnView {
        column_start: 0,
        num_values: 1,
        codec: codec_of(ParquetCompression::Uncompressed),
        data: bytes,
        descriptor,
    }
}

/// What the page of a column of an index is decoded to.
pub open spec fn decoded_page(
    bytes: Seq<u8>,
    descriptor: ColumnDescriptor,
    name: Seq<char>,
) -> Result<Option<ArrowArray>, ArrowError> {
    decoded_array(seq![index_page(bytes, descriptor)], binary_field_named(name), None, 1)
}

/// Whether the page of a column of an index, of a given name, can be decoded to byte strings, or is refused.
pub open spec fn page_sound(bytes: Seq<u8>, descriptor: ColumnDescriptor, name: Seq<char>) -> bool {
    columns_sound(seq![index_page(bytes, descriptor)], binary_field_named(name), 1)
}

/// The bytes of the filter that the page of a column of an index holds. `None` where the column has no name,
/// the page cannot be decoded, or it holds no value.
pub open spec fn filter_in_page(bytes: Seq<u8>, descriptor: ColumnDescriptor) -> Option<
    Result<Seq<u8>, ErrorCodeView>,
> {
    match column_root(descriptor) {
        Some(name) => if page_sound(bytes, descriptor, name) {
            filter_of(decoded_page(bytes, descriptor, name))
        } else {
            None
        },
        None => None,
    }
}

/// The bytes of a filter in mathematical form.
pub open spec fn filter_view(r: Option<Result<Vec<u8>, ErrorCode>>) -> Option<
    Result<Seq<u8>, ErrorCodeView>,
> {
    match r {
        Some(Ok(bytes)) => Some(Ok(bytes@)),
        Some(Err(e)) => Some(Err(e@)),
        None => None,
    }
}

impl<O> Xor8Loader<O> {
    /// The range of the object to read: its start, and the position after its end.
    pub fn range(&self) -> (r: (u64, u64))
        requires
            self.offset + self.len <= u64::MAX,
        ensures
            r.0 == self.offset,
            r.1 == self.offset + self.len,
    {
        (self.offset, self.offset + self.len)
    }

    /// Tells the bytes of the filter from what the page of the index was decoded to.
    pub fn finish(decoded: Result<Option<ArrowArray>, ArrowError>) -> (r: Option<
        Result<Vec<u8>, ErrorCode>,
    >)
        ensures
            filter_view(r) == filter_of(decoded),
            match decoded {
                Err(error) => r matches Some(Err(ErrorCode::Arrow(e))) && e == error,
                Ok(None) => r matches Some(Err(ErrorCode::StorageOther(message))) && message@
                    == "bloom index data not available as expected"@,
                Ok(Some(array)) => match binary_values(array) {
                    None => r is None,
                    Some(values) => if values.len() == 0 {
                        r is None
                    } else {
                        r matches Some(Ok(bytes)) && bytes@.len() == values[0].len() && forall|i: int|
                            0 <= i < values[0].len() ==> #[trigger] bytes@[i] == values[0][i]
                    },
                },
            },
    {
        match decoded {
            Err(e) => Some(Err(ErrorCode::Arrow(e))),
            Ok(None) => Some(
                Err(ErrorCode::storage_other("bloom index data not available as expected")),
            ),
            Ok(Some(array)) => match values(&array) {
                Some(mut values) => {
                    if values.len() > 0 {
                        assert(values.deep_view()[0] =~= values@[0]@);
                        Some(Ok(values.swap_remove(0)))
                    } else {
                        None
                    }
                },
                None => None,
            },
        }
    }

    /// The bytes of the filter, from the bytes that were read.
    pub fn filter_bytes(&self, bytes: &[u8]) -> (r: Option<Result<Vec<u8>, ErrorCode>>)
        ensures
            filter_view(r) == filter_in_page(bytes@, self.column_descriptor),
            column_root(self.column_descriptor) matches Some(name) ==> (page_sound(
                bytes@,
                self.column_descriptor,
                name,
            ) ==> (r is None ==> (decoded_page(bytes@, self.column_descriptor, name) matches Ok(Some(array))
                && binary_values(array) == Some(Seq::<Seq<u8>>::empty())))),
            column_root(self.column_descriptor) is None ==> r is None,
            column_root(self.column_descriptor) matches Some(name) ==> ({
                let field = binary_field_named(name);
                let pages = seq![
                    (PageColumnView {
                        column_start: 0,
                        num_values: 1,
                        codec: codec_of(ParquetCompression::Uncompressed),
                        data: bytes@,
                        descriptor: self.column_descriptor,
                    }),
                ];
                if !columns_sound(pages, field, 1) {
                    r is None
                } else {
                    match (decoder_error(pages, field, None, 1), first_array_of(pages, field, None, 1)) {
                        (Some(error), _) => r matches Some(Err(ErrorCode::Arrow(e))) && e == error,
                        (None, Some(Err(error))) => r matches Some(Err(ErrorCode::Arrow(e))) && e == error,
                        (None, None) => r matches Some(Err(ErrorCode::StorageOther(message))) && message@
                            == "bloom index data not available as expected"@,
                        (None, Some(Ok(array))) => match binary_values(array) {
                            None => r is None,
                            Some(values) => if values.len() == 0 {
                                r is None
                            } else {
                                r matches Some(Ok(filter)) && filter@.len() == values[0].len() && forall|i: int|
                                    0 <= i < values[0].len() ==> #[trigger] filter@[i] == values[0][i]
                            },
                        },
                    }
                }
            }),
    {
        let field = match root_name(&self.column_descriptor) {
            Some(name) => binary_field(name),
            None => return None,
        };
        let column = PageColumn {
            column_start: 0,
            num_values: 1,
            codec: codec(ParquetCompression::Uncompressed),
            data: bytes,
            descriptor: &self.column_descriptor,
        };
        let columns = vec![column];
        assert(page_column_views(columns@) =~= seq![index_page(bytes@, self.column_descriptor)]);
        if !check_columns(&columns, &field, 1) {
            return None;
        }
        let decoded = match array_iter(&columns, &field, None, 1) {
            Err(e) => Err(e),
            Ok(arrays) => match first_array(arrays) {
                None => Ok(None),
                Some(Ok(array)) => Ok(Some(array)),
                Some(Err(e)) => Err(e),
            },
        };
        Self::finish(decoded)
    }

    /// What the filter is kept under once it is loaded, whatever is loaded.
    pub fn cache_key(&self, _params: &LoadParams) -> (r: String)
        ensures
            r@ == self.cache_key@,
    {
        self.cache_key.clone()
    }
}

/// The filter is the first value of the array that the page is decoded to, with all of its bytes, whatever
/// values come after it. An array without values holds none.
pub proof fn law_filter_is_the_first_value(array: ArrowArray, values: Seq<Seq<u8>>)
    requires
        binary_values(array) == Some(values),
    ensures
        values.len() > 0 ==> (filter_of(Ok::<_, ArrowError>(Some(array))) matches Some(Ok(bytes)) && bytes.len()
            == values[0].len() && forall|i: int| 0 <= i < bytes.len() ==> #[trigger] bytes[i] == values[0][i]),
        values.len() == 0 ==> filter_of(Ok::<_, ArrowError>(Some(array))) is None,
{
}

/// Arrays hold the same filter if and only if they have the same first value.
pub proof fn law_filters_tell_values_apart(
    array: ArrowArray,
    values: Seq<Seq<u8>>,
    other: ArrowArray,
    other_values: Seq<Seq<u8>>,
)
    requires
        binary_values(array) == Some(values),
        binary_values(other) == Some(other_values),
        values.len() > 0,
        other_values.len() > 0,
    ensures
        filter_of(Ok::<_, ArrowError>(Some(array))) == filter_of(Ok::<_, ArrowError>(Some(other))) <==> values[0]
            == other_values[0],
{
    law_filter_is_the_first_value(array, values);
    law_filter_is_the_first_value(other, other_values);
}

/// The filter of a column is the first value in the page that was read, which is taken as it is stored, as one
/// value of byte strings under the name of the column. Where the page is refused, or is decoded to no array, that
/// is the failure.
pub proof fn law_filter_is_read_from_its_page(
    bytes: Seq<u8>,
    descriptor: ColumnDescriptor,
    name: Seq<char>,
    page: PageColumnView,
)
    requires
        column_root(descriptor) == Some(name),
        page.column_start == 0,
        page.num_values == 1,
        page.codec == codec_of(ParquetCompression::Uncompressed),
        page.data == bytes,
        page.descriptor == descriptor,
        columns_sound(seq![page], binary_field_named(name), 1),
    ensures
        decoder_error(seq![page], binary_field_named(name), None, 1) matches Some(error) ==> (filter_in_page(
            bytes,
            descriptor,
        ) matches Some(Err(ErrorCodeView::Arrow(e))) && e == error),
        decoder_error(seq![page], binary_field_named(name), None, 1) is None ==> match first_array_of(
            seq![page],
            binary_field_named(name),
            None,
            1,
        ) {
            None => filter_in_page(bytes, descriptor) matches Some(Err(ErrorCodeView::StorageOther(message)))
                && message == "bloom index data not available as expected"@,
            Some(Err(error)) => filter_in_page(bytes, descriptor) matches Some(Err(ErrorCodeView::Arrow(e))) && e
                == error,
            Some(Ok(array)) => binary_values(array) matches Some(values) ==> values.len() > 0 ==> (filter_in_page(
                bytes,
                descriptor,
            ) matches Some(Ok(filter)) && filter.len() == values[0].len() && forall|i: int|
                0 <= i < filter.len() ==> #[trigger] filter[i] == values[0][i]),
        },
{
    assert(page == index_page(bytes, descriptor));
}

/// A reader of the filter of a column loads the range of the index that the metadata of the column chunk give,
/// and keeps the filter under the path, a hyphen and the column id.
pub proof fn law_reader_loads_its_own_column<O>(
    reader: BloomIndexColumnReader<O>,
    index_path: Seq<char>,
    column_id: ColumnId,
    colum_chunk_meta: ColumnChunkMetaData,
    operator: O,
)
    requires
        reader.reads(index_path, column_id, colum_chunk_meta, operator),
    ensures
        reader.param.location@ == index_path,
        reader.param.len_hint is None,
        reader.param.ver == 0,
        reader.cached_reader.name@ == "bloom_index_data_cache"@,
        reader.cached_reader.loader.cache_key@ == index_path + "-"@ + decimal(column_id as nat),
        reader.cached_reader.loader.operator == operator,
        reader.cached_reader.loader.column_descriptor == chunk_descriptor(colum_chunk_meta),
        chunk_extent(colum_chunk_meta) matches Some((offset, len)) && reader.cached_reader.loader.offset
            == offset as u64 && reader.cached_reader.loader.len == len as u64,
{
}

/// Filters of different columns, or of different indexes, are kept apart.
pub proof fn law_cache_keys_are_distinct(
    path: Seq<char>,
    column_id: ColumnId,
    other_path: Seq<char>,
    other_column_id: ColumnId,
)
    ensures
        index_cache_key(path, column_id) == index_cache_key(other_path, other_column_id) <==> path
            == other_path && column_id == other_column_id,
{
    reveal_strlit("-");
    let key = index_cache_key(path, column_id);
    let other = index_cache_key(other_path, other_column_id);
    if key == other {
        let a = decimal(column_id as nat);
        let b = decimal(other_column_id as nat);
        lemma_decimal_has_digits(column_id as nat);
        lemma_decimal_has_digits(other_column_id as nat);
        assert("-"@.len() == 1);
        assert(key.len() == path.len() + 1 + a.len());
        assert(other.len() == other_path.len() + 1 + b.len());
        assert(key[path.len() as int] == '-');
        assert(other[other_path.len() as int] == '-');
        if path.len() < other_path.len() {
            assert(key[other_path.len() as int] == a[other_path.len() - path.len() - 1]);
        } else if other_path.len() < path.len() {
            assert(other[path.len() as int] == b[path.len() - other_path.len() - 1]);
        }
        assert(path =~= key.take(path.len() as int));
        assert(other_path =~= other.take(other_path.len() as int));
        assert(a =~= key.skip(path.len() + 1int));
        assert(b =~= other.skip(other_path.len() + 1int));
        lemma_decimal_is_injective(column_id as nat, other_column_id as nat);
    }
}

} // verus!
