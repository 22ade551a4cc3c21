use std::io::Cursor;

use arrow2::array::Array;
use arrow2::array::Int32Array;
use arrow2::array::ListArray;
use arrow2::chunk::Chunk;
use arrow2::datatypes::DataType;
use arrow2::datatypes::Field;
use arrow2::datatypes::IntegerType;
use arrow2::datatypes::Schema;
use arrow2::io::parquet::read::read_metadata;
use arrow2::io::parquet::write::transverse;
use arrow2::io::parquet::write::CompressionOptions;
use arrow2::io::parquet::write::FileWriter;
use arrow2::io::parquet::write::RowGroupIterator;
use arrow2::io::parquet::write::Version;
use arrow2::io::parquet::write::WriteOptions;
use arrow2::offset::OffsetsBuffer;
use databend_query::arrow::PageColumn;
use databend_query::block_reader::BlockReader;
use databend_query::column::ColumnMeta;
use databend_query::column::FieldLeaf;
use databend_query::column::ParquetColumnMeta;
use databend_query::column::TableCompression;
use databend_query::decoding::check_columns;
use databend_query::encoding::check_delta;
use databend_query::encoding::check_runs;
use databend_query::encoding::check_runs_sound;
use databend_query::encoding::find_byte_strings;
use databend_query::nesting::check_pages;
use databend_query::pages::MOST_PAGES;
use databend_query::pages::MOST_VALUES;
use databend_query::parquet::plain_pages;
use databend_query::parquet::DataPage;
use databend_query::parquet::PageLevels;
use databend_query::parquet::PlainPage;
use databend_query::shape::shape_of;
use databend_query::shape::LeafColumn;
use databend_query::shape::LeafPhysical;
use databend_query::shape::LeafRepetition;
use parquet2::compression::Compression;
use parquet2::encoding::Encoding;

fn required(data_type: DataType) -> Field {
    Field::new("f", data_type, false)
}

fn nullable(data_type: DataType) -> Field {
    Field::new("f", data_type, true)
}

/// A column of a field without fields below it.
fn plain_column(optional: bool) -> LeafColumn {
    LeafColumn {
        physical: LeafPhysical::Int32,
        repetition: if optional { LeafRepetition::Optional } else { LeafRepetition::Required },
        def_level: optional as i16,
        rep_level: 0,
        unit: None,
    }
}

fn data(count: usize, encoding: Encoding, bytes: &[u8]) -> Option<PlainPage> {
    let bytes = bytes.to_vec();
    Some(PlainPage::Data(DataPage { count, encoding, levels: PageLevels::V1, bytes }))
}

/// A page of values that may be null: the definition levels after their length, and the values.
fn nullable_data(count: usize, encoding: Encoding, levels: &[u8], values: &[u8]) -> Option<PlainPage> {
    let mut bytes = (levels.len() as u32).to_le_bytes().to_vec();
    bytes.extend_from_slice(levels);
    bytes.extend_from_slice(values);
    data(count, encoding, &bytes)
}

fn dictionary(count: usize, bytes: &[u8]) -> Option<PlainPage> {
    Some(PlainPage::Dictionary { count, bytes: bytes.to_vec() })
}

fn is_sound(field: &Field, column: LeafColumn, pages: Vec<Option<PlainPage>>) -> bool {
    check_pages(&shape_of(field), &vec![column], &vec![pages], 3)
}

fn is_required_sound(data_type: DataType, pages: Vec<Option<PlainPage>>) -> bool {
    is_sound(&required(data_type), plain_column(false), pages)
}

fn is_nullable_sound(data_type: DataType, pages: Vec<Option<PlainPage>>) -> bool {
    is_sound(&nullable(data_type), plain_column(true), pages)
}

#[test]
fn numbers_fill_a_page() {
    let page = |bytes: &[u8]| vec![data(3, Encoding::Plain, bytes)];
    assert!(is_required_sound(DataType::Int32, page(&[0; 12])));
    assert!(is_required_sound(DataType::Int32, page(&[0; 8])));
    assert!(!is_required_sound(DataType::Int32, page(&[0; 11])));
    assert!(!is_required_sound(DataType::Int64, page(&[0; 12])));
    assert!(is_required_sound(DataType::Float64, page(&[0; 24])));
}

#[test]
fn there_is_a_number_for_each_that_is_not_null() {
    // One packed run of eight values: two of the first three are there.
    let page = |values: &[u8]| vec![nullable_data(3, Encoding::Plain, &[3, 0b101], values)];
    assert!(is_nullable_sound(DataType::Int32, page(&[0; 8])));
    assert!(is_nullable_sound(DataType::Int32, page(&[0; 12])));
    assert!(!is_nullable_sound(DataType::Int32, page(&[0; 4])));
    assert!(is_nullable_sound(DataType::Boolean, page(&[1])));
    assert!(!is_nullable_sound(DataType::Boolean, page(&[])));
    assert!(is_nullable_sound(DataType::FixedSizeBinary(2), page(&[0; 4])));
    assert!(!is_nullable_sound(DataType::FixedSizeBinary(2), page(&[0; 3])));
    // A repeated run of three values that are there.
    let repeated = |values: &[u8]| vec![nullable_data(3, Encoding::Plain, &[6, 1], values)];
    assert!(is_nullable_sound(DataType::Int32, repeated(&[0; 12])));
    assert!(!is_nullable_sound(DataType::Int32, repeated(&[0; 8])));
}

#[test]
fn levels_tell_of_each_value() {
    let page = |levels: &[u8]| vec![nullable_data(3, Encoding::Plain, levels, &[0; 12])];
    assert!(is_nullable_sound(DataType::Int32, page(&[6, 0])));
    assert!(!is_nullable_sound(DataType::Int32, page(&[4, 0])));
    assert!(!is_nullable_sound(DataType::Int32, page(&[])));
    assert!(!is_nullable_sound(DataType::Int32, page(&[6])));
    assert!(!is_nullable_sound(DataType::Int32, page(&[0, 1, 6, 1])));
    // Levels that break off are refused, and so is all that comes after them.
    assert!(is_nullable_sound(DataType::Int32, vec![data(3, Encoding::Plain, &[9, 0, 0, 0, 1]), None]));
}

#[test]
fn levels_of_the_second_version_lie_in_the_page() {
    let page = |rep, def| {
        let levels = PageLevels::V2 { rep, def };
        let bytes = vec![6, 1, 0, 0, 0, 0];
        vec![Some(PlainPage::Data(DataPage { count: 1, encoding: Encoding::Plain, levels, bytes }))]
    };
    assert!(is_nullable_sound(DataType::Int32, page(0, 2)));
    assert!(!is_nullable_sound(DataType::Int32, page(3, 4)));
    assert!(!is_nullable_sound(DataType::Int32, page(i32::MAX, i32::MAX)));
    assert!(is_nullable_sound(DataType::Int32, page(-1, 2)));
}

#[test]
fn an_index_lies_in_the_dictionary() {
    // Two bits for each index, in one repeated run of three.
    let pages = |index, entries: usize| {
        vec![
            dictionary(entries, &vec![0; 4 * entries]),
            data(3, Encoding::RleDictionary, &[2, 6, index]),
        ]
    };
    assert!(is_required_sound(DataType::Int32, pages(1, 2)));
    assert!(!is_required_sound(DataType::Int32, pages(2, 2)));
    assert!(is_required_sound(DataType::Int32, pages(2, 3)));
    let bare = vec![data(3, Encoding::RleDictionary, &[2, 6, 9])];
    assert!(is_required_sound(DataType::Int32, bare));
    let with = |indices: &[u8]| vec![dictionary(1, &[0; 4]), data(3, Encoding::PlainDictionary, indices)];
    assert!(is_required_sound(DataType::Int32, with(&[0])));
    assert!(!is_required_sound(DataType::Int32, with(&[])));
    assert!(!is_required_sound(DataType::Int32, with(&[33, 0])));
}

#[test]
fn only_indices_of_values_that_are_there_count() {
    let pages = |levels: &[u8]| {
        vec![
            dictionary(1, &[0; 4]),
            // Packed indices of one bit: zero, one, one.
            nullable_data(3, Encoding::RleDictionary, levels, &[1, 3, 0b110]),
        ]
    };
    assert!(is_nullable_sound(DataType::Int32, pages(&[3, 0b001])));
    assert!(!is_nullable_sound(DataType::Int32, pages(&[3, 0b101])));
}

#[test]
fn byte_strings_lie_in_the_page() {
    let page = |bytes: &[u8]| vec![data(2, Encoding::Plain, bytes)];
    assert!(is_required_sound(DataType::Utf8, page(&[1, 0, 0, 0, b'a', 0, 0, 0, 0])));
    assert!(is_required_sound(DataType::Utf8, page(&[1, 0, 0, 0, b'a'])));
    assert!(!is_required_sound(DataType::Utf8, page(&[2, 0, 0, 0, b'a'])));
    assert!(!is_required_sound(DataType::LargeBinary, page(&[1, 0, 0, 0, b'a', 0, 0])));
    // What is not text is refused, not unsound.
    assert!(is_required_sound(DataType::Utf8, page(&[1, 0, 0, 0, 0xff])));
    assert_eq!(find_byte_strings(&[1, 0, 0, 0, b'a', 2, 0, 0, 0, b'b', b'c'], 9), Some(vec![(4, 5), (9, 11)]));
    assert_eq!(find_byte_strings(&[1, 0, 0, 0, b'a', 2, 0, 0, 0, b'b'], 1), Some(vec![(4, 5)]));
    assert_eq!(find_byte_strings(&[1, 0, 0, 0, b'a', 2, 0, 0, 0, b'b'], 2), None);
}

#[test]
fn byte_strings_are_counted_by_their_offsets() {
    // A dictionary of one byte string, that each of many indices stands for.
    let size = 0x4000_0000usize;
    let mut entry = (size as u32).to_le_bytes().to_vec();
    entry.resize(4 + size, b'x');
    let pages = |times: u8| {
        vec![
            Some(PlainPage::Dictionary { count: 1, bytes: entry.clone() }),
            data(times as usize, Encoding::RleDictionary, &[1, 2 * times, 0]),
        ]
    };
    assert!(is_required_sound(DataType::Binary, pages(1)));
    assert!(!is_required_sound(DataType::Binary, pages(2)));
    assert!(is_required_sound(DataType::LargeBinary, pages(2)));
}

#[test]
fn text_in_a_dictionary_is_text() {
    let names = |values| DataType::Dictionary(IntegerType::Int32, Box::new(values), false);
    let pages = |byte: u8| {
        vec![dictionary(1, &[1, 0, 0, 0, byte]), data(3, Encoding::RleDictionary, &[1, 6, 0])]
    };
    assert!(is_required_sound(names(DataType::Utf8), pages(b'a')));
    assert!(!is_required_sound(names(DataType::Utf8), pages(0xff)));
    assert!(is_required_sound(names(DataType::Binary), pages(0xff)));
    let short = vec![dictionary(3, &[1, 0, 0, 0, b'a']), data(3, Encoding::RleDictionary, &[1, 6, 0])];
    assert!(!is_required_sound(names(DataType::Utf8), short));
}

#[test]
fn keys_fit_their_type() {
    let names = |key| DataType::Dictionary(key, Box::new(DataType::Int32), false);
    let pages = || vec![dictionary(1, &[0; 4]), data(3, Encoding::RleDictionary, &[8, 6, 128])];
    assert!(!is_required_sound(names(IntegerType::Int8), pages()));
    assert!(is_required_sound(names(IntegerType::UInt8), pages()));
    assert!(is_required_sound(names(IntegerType::UInt64), pages()));
}

#[test]
fn delta_encoded_numbers_are_enough() {
    // A block of 128 values in four parts, two values, the first of them one, then a difference of one.
    let two = [128, 1, 4, 2, 2, 2, 0, 0, 0, 0];
    assert_eq!(check_delta(&two, 1), Some(2));
    assert_eq!(check_delta(&two[..8], 1), None);
    assert_eq!(check_delta(&[127, 4, 1, 2], 1), None);
    assert_eq!(check_delta(&[128, 1, 0, 1, 2], 1), None);
    let page = |levels: &[u8]| vec![nullable_data(3, Encoding::DeltaBinaryPacked, levels, &two)];
    assert!(is_nullable_sound(DataType::Int32, page(&[3, 0b011])));
    assert!(!is_nullable_sound(DataType::Int32, page(&[3, 0b111])));
    // Other types are refused in this encoding.
    assert!(is_nullable_sound(DataType::Float32, page(&[3, 0b111])));
}

#[test]
fn delta_encoded_numbers_have_64_bits() {
    // One value, then one difference that is the least one: the first value and the difference are varints.
    let numbers = |first: &[u8], least: &[u8]| {
        let mut bytes = vec![128, 1, 4, 2];
        bytes.extend_from_slice(first);
        bytes.extend_from_slice(least);
        bytes.extend_from_slice(&[0; 4]);
        bytes
    };
    let largest = [254, 255, 255, 255, 255, 255, 255, 255, 255, 1];
    assert_eq!(check_delta(&numbers(&largest, &[0]), 1), Some(2));
    assert_eq!(check_delta(&numbers(&largest, &[1]), 1), Some(2));
    assert_eq!(check_delta(&numbers(&largest, &[2]), 1), None);
    // A difference of eight bits over the least one.
    let packed = |least: u8, difference: u8| {
        let mut bytes = vec![128, 1, 4, 2, 0, least, 8, 0, 0, 0, difference];
        bytes.extend_from_slice(&[0; 31]);
        bytes
    };
    assert_eq!(check_delta(&packed(2, 255), 1), Some(2));
    assert_eq!(check_delta(&packed(2, 255), i64::MAX / 256), Some(2));
    assert_eq!(check_delta(&packed(2, 255), i64::MAX / 256 + 1), None);
    assert_eq!(check_delta(&packed(2, 255)[..41], 1), None);
}

#[test]
fn instants_have_64_bits() {
    let time = DataType::Timestamp(arrow2::datatypes::TimeUnit::Nanosecond, None);
    let column = LeafColumn { physical: LeafPhysical::Int96, ..plain_column(false) };
    let check = |nanoseconds: i64, day: u32| {
        let mut bytes = nanoseconds.to_le_bytes().to_vec();
        bytes.extend_from_slice(&day.to_le_bytes());
        let page = || data(1, Encoding::Plain, &bytes);
        let pages = || vec![dictionary(1, &bytes), data(1, Encoding::RleDictionary, &[1, 2, 0])];
        let sound = is_sound(&required(time.clone()), column, vec![page()]);
        assert_eq!(is_sound(&required(time.clone()), column, pages()), sound);
        let keys = DataType::Dictionary(IntegerType::Int32, Box::new(time.clone()), false);
        assert_eq!(is_sound(&required(keys), column, pages()), sound);
        sound
    };
    assert!(check(0, 2440588));
    assert!(check(i64::MAX, 2440588));
    assert!(!check(i64::MAX, 2440589));
    assert!(check(0, 2440588 + 106751));
    assert!(!check(0, 2440588 + 106752));
    assert!(!check(0, u32::MAX));
}

#[test]
fn what_comes_after_the_rows_is_not_looked_at() {
    // A run of three values, and a run that breaks off. The page tells of six rows.
    let page = |values: &[u8]| vec![nullable_data(6, Encoding::Plain, &[6, 1, 6], values)];
    assert!(is_nullable_sound(DataType::Int32, page(&[0; 12])));
    assert!(!is_nullable_sound(DataType::Int32, page(&[0; 8])));
    assert!(!is_nullable_sound(DataType::Binary, page(&[0; 12])));
    let more = check_pages(
        &shape_of(&nullable(DataType::Int32)),
        &vec![plain_column(true)],
        &vec![page(&[0; 12])],
        4,
    );
    assert!(!more);
    // A page that tells of as many rows as there can be is no harder to look at.
    let indices = [1, 254, 255, 255, 255, 15, 0];
    let pages = vec![dictionary(1, &[0; 4]), data(MOST_VALUES, Encoding::RleDictionary, &indices)];
    assert!(is_required_sound(DataType::Int32, pages));
}

#[test]
fn delta_encoded_lengths_lie_in_the_page() {
    // Two lengths, one and two.
    let lengths = [128, 1, 4, 2, 2, 2, 0, 0, 0, 0];
    let page = |rest: &[u8]| {
        let mut bytes = lengths.to_vec();
        bytes.extend_from_slice(rest);
        vec![data(2, Encoding::DeltaLengthByteArray, &bytes)]
    };
    assert!(is_required_sound(DataType::Binary, page(b"abc")));
    assert!(is_required_sound(DataType::Binary, page(b"abcd")));
    assert!(!is_required_sound(DataType::Binary, page(b"ab")));
}

#[test]
fn booleans_and_sized_byte_strings_fill_a_page() {
    let page = |count, bytes: &[u8]| vec![data(count, Encoding::Plain, bytes)];
    let booleans = |count, num_rows| {
        let shape = shape_of(&required(DataType::Boolean));
        check_pages(&shape, &vec![plain_column(false)], &vec![page(count, &[0])], num_rows)
    };
    assert!(booleans(8, 9));
    assert!(!booleans(9, 9));
    assert!(booleans(9, 8));
    assert!(is_required_sound(DataType::FixedSizeBinary(3), page(3, &[0; 9])));
    assert!(!is_required_sound(DataType::FixedSizeBinary(3), page(3, &[0; 10])));
}

#[test]
fn what_comes_after_a_refusal_is_not_looked_at() {
    let broken = || data(3, Encoding::Plain, &[0; 11]);
    assert!(!is_required_sound(DataType::Int32, vec![broken()]));
    assert!(is_required_sound(DataType::Int32, vec![None, broken()]));
    let refused = data(3, Encoding::ByteStreamSplit, &[0; 12]);
    assert!(is_required_sound(DataType::Int32, vec![refused, broken()]));
    let shape = shape_of(&required(DataType::Int32));
    assert!(check_pages(&shape, &vec![plain_column(false)], &vec![vec![broken()]], 0));
    let refused = shape_of(&required(DataType::Float16));
    assert!(check_pages(&refused, &vec![plain_column(false)], &vec![vec![broken()]], 3));
    assert!(!check_pages(&shape, &vec![plain_column(false)], &vec![], 3));
}

#[test]
fn pages_and_values_are_counted() {
    let page = |count| data(count, Encoding::Plain, &[]);
    let pages = |n| (0..n).map(|_| page(0)).collect::<Vec<_>>();
    assert!(is_required_sound(DataType::Int32, pages(MOST_PAGES)));
    assert!(!is_required_sound(DataType::Int32, pages(MOST_PAGES + 1)));
    assert!(is_required_sound(DataType::Null, vec![page(MOST_VALUES)]));
    assert!(!is_required_sound(DataType::Null, vec![page(MOST_VALUES + 1)]));
}

#[test]
fn runs_have_the_values_that_are_asked_for() {
    // A repeated run of three, and a packed run of eight.
    let runs = [6, 1, 3, 0xff];
    assert!(check_runs(&runs, 1, 11, false));
    assert!(!check_runs(&runs, 1, 12, false));
    assert!(check_runs(&runs, 1, 12, true));
    assert!(check_runs(&[6, 1, 0, 0], 1, 3, false));
    assert!(!check_runs(&[6, 1, 0, 0], 1, 4, true));
    assert!(check_runs(&[], 1, 0, false));
    assert!(!check_runs(&[], 1, 1, false));
    assert!(check_runs_sound(&[], 0, 5));
    assert!(check_runs_sound(&[2], 9, 0));
    assert!(!check_runs_sound(&[2, 1], 9, 0));
    assert!(check_runs_sound(&[2, 1, 0], 9, 1));
}

/// A file with one column, with so many bytes to a page.
fn store(
    field: Field,
    array: Box<dyn Array>,
    compression: CompressionOptions,
    data_pagesize_limit: Option<usize>,
) -> (Vec<u8>, parquet2::metadata::FileMetaData) {
    let options = WriteOptions { write_statistics: false, compression, version: Version::V2, data_pagesize_limit };
    let plain = arrow2::io::parquet::write::Encoding::Plain;
    let encodings = vec![transverse(&field.data_type, |_| plain)];
    let schema = Schema::from(vec![field]);
    let chunk = Chunk::new(vec![array]);
    let groups =
        RowGroupIterator::try_new(vec![Ok(chunk)].into_iter(), &schema, options, encodings).unwrap();
    let mut writer = FileWriter::try_new(Cursor::new(Vec::new()), schema, options).unwrap();
    for group in groups {
        writer.write(group.unwrap()).unwrap();
    }
    writer.end(None).unwrap();
    let file = writer.into_inner().into_inner();
    let metadata = read_metadata(&mut Cursor::new(&file)).unwrap();
    (file, metadata)
}

fn stored_list(compression: CompressionOptions) -> (Vec<u8>, parquet2::metadata::FileMetaData) {
    let offsets: OffsetsBuffer<i32> = vec![0, 2, 2, 3].try_into().unwrap();
    let items = Int32Array::from([Some(7), None, Some(9)]).boxed();
    let array = ListArray::new(list_field().data_type, offsets, items, None).boxed();
    store(list_field(), array, compression, None)
}

fn list_field() -> Field {
    let item = Field::new("item", DataType::Int32, true);
    Field::new("l", DataType::List(Box::new(item)), false)
}

#[test]
fn pages_are_read_from_a_column() {
    for (written, codec) in [
        (CompressionOptions::Uncompressed, Compression::Uncompressed),
        (CompressionOptions::Zstd(None), Compression::Zstd),
    ] {
        let (file, metadata) = stored_list(written);
        let column = &metadata.row_groups[0].columns()[0];
        let (start, len) = column.byte_range();
        let bytes = &file[start as usize..(start + len) as usize];
        let descriptor = column.descriptor();
        let make = |data, codec| PageColumn {
            column_start: start,
            num_values: column.num_values(),
            codec,
            data,
            descriptor,
        };
        let pages = plain_pages(&make(bytes, codec));
        assert_eq!(pages.len(), 1);
        match &pages[0] {
            Some(PlainPage::Data(page)) => {
                assert_eq!(page.count, 4);
                assert_eq!(page.encoding, Encoding::Plain);
                assert!(matches!(page.levels, PageLevels::V2 { .. }));
                assert!(page.bytes.ends_with(&[7, 0, 0, 0, 9, 0, 0, 0]));
            }
            _ => panic!("no page of values"),
        }
        assert!(matches!(plain_pages(&make(&bytes[..len as usize - 1], codec))[..], [None]));
        assert!(check_columns(&vec![make(bytes, codec)], &list_field(), 3));
        assert!(!check_columns(&vec![make(bytes, codec)], &required(DataType::Int64), 3));
        assert!(!check_columns(&vec![], &list_field(), 3));
    }
}

#[test]
fn as_many_pages_are_read_as_are_counted() {
    for extra in [0, 1] {
        let numbers: Vec<i32> = (0..2 * (MOST_PAGES + extra) as i32).collect();
        let array = Int32Array::from_slice(&numbers).boxed();
        let field = required(DataType::Int32);
        let (file, metadata) = store(field.clone(), array.clone(), CompressionOptions::Uncompressed, Some(8));
        let column = &metadata.row_groups[0].columns()[0];
        let (start, len) = column.byte_range();
        let num_values = column.num_values() as u64;
        let meta = ColumnMeta::Parquet(ParquetColumnMeta { offset: start, num_values });
        let data = &file[start as usize..(start + len) as usize];
        let leaves = vec![FieldLeaf { meta: &meta, data, descriptor: column.descriptor() }];
        let compression = TableCompression::Uncompressed;
        let readable = BlockReader::<(), ()>::check_leaves(&leaves, numbers.len(), &field, &compression);
        assert_eq!(readable, extra == 0);
        if readable {
            let arrays = BlockReader::<(), ()>::chunks_to_parquet_array_iter(
                &leaves,
                numbers.len(),
                &field,
                &compression,
            );
            assert_eq!(arrays.unwrap().0.next().unwrap().unwrap(), array);
        }
    }
}

/// A column of a list of numbers, each of which may be null.
fn list_column() -> LeafColumn {
    LeafColumn {
        physical: LeafPhysical::Int32,
        repetition: LeafRepetition::Optional,
        def_level: 2,
        rep_level: 1,
        unit: None,
    }
}

/// A page of that column, with its levels packed: one bit for each repetition level, two for each
/// definition level.
fn list_page(count: usize, reps: &[u8], defs: &[u8], values: &[u8]) -> Option<PlainPage> {
    let levels = PageLevels::V2 { rep: reps.len() as i32, def: defs.len() as i32 };
    let bytes = [reps, defs, values].concat();
    Some(PlainPage::Data(DataPage { count, encoding: Encoding::Plain, levels, bytes }))
}

#[test]
fn lists_are_cut_by_their_levels() {
    let shape = shape_of(&list_field());
    let check = |page, rows| check_pages(&shape, &vec![list_column()], &vec![vec![page]], rows);
    // Three lists: two items of which the second is null, none, and one.
    let page = |values: &[u8]| list_page(4, &[3, 0b0010], &[3, 0b10_00_01_10, 0], values);
    assert!(check(page(&[0; 8]), 3));
    assert!(check(page(&[0; 8]), 1));
    assert!(!check(page(&[0; 7]), 3));
    assert!(check(list_page(4, &[4], &[3, 0, 0], &[]), 3));
    assert!(!check(list_page(4, &[0, 1], &[3, 0, 0], &[]), 3));
}

#[test]
fn lists_of_one_size_have_that_size() {
    let item = Field::new("item", DataType::Int32, true);
    let fixed = |size| shape_of(&required(DataType::FixedSizeList(Box::new(item.clone()), size)));
    // Two lists of two items.
    let page = || list_page(4, &[3, 0b1010], &[3, 0b10_10_10_10, 0], &[0; 16]);
    let check = |size, rows| check_pages(&fixed(size), &vec![list_column()], &vec![vec![page()]], rows);
    assert!(check(2, 2));
    assert!(check(4, 2));
    assert!(!check(3, 2));
    assert!(check(2, 1));
    assert!(!check(4, 1));
}

#[test]
fn the_fields_of_a_struct_have_as_many_values() {
    let item = || Box::new(Field::new("item", DataType::Int32, true));
    let fields = vec![
        Field::new("x", DataType::List(item()), false),
        Field::new("y", DataType::Int32, false),
    ];
    let shape = shape_of(&required(DataType::Struct(fields)));
    let columns = vec![list_column(), plain_column(false)];
    let lists = || vec![list_page(4, &[3, 0b0010], &[3, 0b10_00_01_10, 0], &[0; 8])];
    let numbers = |count: usize| vec![data(count, Encoding::Plain, &vec![0; 4 * count])];
    let check = |count| check_pages(&shape, &columns, &vec![lists(), numbers(count)], 3);
    assert!(check(3));
    assert!(!check(2));
    assert!(check_pages(&shape, &columns, &vec![lists(), vec![]], 3));
    assert!(check_pages(&shape, &columns, &vec![lists(), vec![None]], 3));
}
