//! What the library takes from `parquet2`: the pages of a column, one after the other, and the numbers
//! that are encoded in them.
//!
//! Only the loops that go through the pages are proved. Each other item says in its own comment what it
//! claims.

use std::sync::Arc;

use parquet2::encoding::bitpacked;
use parquet2::encoding::delta_bitpacked;
use parquet2::encoding::hybrid_rle::HybridRleDecoder;
use parquet2::encoding::Encoding;
use parquet2::page::CompressedPage;
use parquet2::page::DataPageHeader;
use parquet2::page::Page;
use parquet2::read::BasicDecompressor;
use parquet2::read::PageMetaData;
use parquet2::read::PageReader;
use parquet2::FallibleStreamingIterator;
use vstd::prelude::*;
use vstd::utf8::valid_utf8;

use crate::arrow::PageColumn;
use crate::arrow::PageColumnView;
use crate::encoding::is_delta;
use crate::encoding::runs_sound;

verus! {

/// A `parquet2::read::PageReader` of bytes: the pages of a column that are still to be read, as they are
/// stored.
#[verifier::external_body]
pub struct StoredPages<'a>(PageReader<&'a [u8]>);

/// A `parquet2::read::BasicDecompressor` of bytes: the pages of a column that are still to be read.
#[verifier::external_body]
pub struct Pages<'a>(BasicDecompressor<PageReader<&'a [u8]>>);

/// `parquet2::encoding::Encoding`: how the values of a page are encoded.
#[verifier::external_type_specification]
#[verifier::external_body]
pub struct ExEncoding(parquet2::encoding::Encoding);

/// The lengths of levels that the headers of the pages give that a reader still hands out, up to the first
/// page that cannot be read: those of the repetition levels and of the definition levels, or `None` where a
/// header gives none.
pub uninterp spec fn levels_ahead(pages: StoredPages) -> Seq<Option<(i32, i32)>>;

/// The lengths of levels that the headers of the pages of a column give, up to the first page that cannot be
/// read.
pub uninterp spec fn stored_levels(column: PageColumnView) -> Seq<Option<(i32, i32)>>;

/// The pages that a reader still hands out, decompressed, up to the first that cannot be had, which is
/// `None`.
pub uninterp spec fn pages_ahead(pages: Pages) -> Seq<Option<PlainPageView>>;

/// The pages of a column, decompressed, up to the first that cannot be had, which is `None`.
pub uninterp spec fn column_pages(column: PageColumnView) -> Seq<Option<PlainPageView>>;

/// Which encoding an encoding is.
pub uninterp spec fn encoding_kind(encoding: Encoding) -> PageEncoding;

/// So many values that runs of values of so many bits hold.
pub uninterp spec fn run_values(bytes: Seq<u8>, bits: u32, count: usize) -> Seq<u32>;

/// So many 64-bit numbers that bytes hold in so many bits each.
pub uninterp spec fn packed_values(bytes: Seq<u8>, bits: usize, count: usize) -> Seq<u64>;

/// The numbers that delta-encoded bytes hold, and the number of bytes that hold them; `None` where they
/// cannot be decoded.
pub uninterp spec fn delta_values(bytes: Seq<u8>) -> Option<(Seq<i64>, usize)>;

/// How the values of a page are encoded.
#[derive(Clone, Copy, Debug, PartialEq, Eq, Structural)]
pub enum PageEncoding {
    Plain,
    PlainDictionary,
    Rle,
    BitPacked,
    DeltaBinaryPacked,
    DeltaLengthByteArray,
    DeltaByteArray,
    RleDictionary,
    ByteStreamSplit,
}

/// Where the levels of a page lie, before its values.
#[derive(Clone, Copy, Debug, PartialEq, Eq, Structural)]
pub enum PageLevels {
    /// Each after its length.
    V1,
    /// In so many bytes: the repetition levels, and the definition levels.
    V2 { rep: i32, def: i32 },
}

/// A page of values.
pub struct DataPage {
    /// The number of values, nulls among them.
    pub count: usize,
    pub encoding: Encoding,
    pub levels: PageLevels,
    /// The levels and the values.
    pub bytes: Vec<u8>,
}

/// The mathematical form of [`DataPage`].
pub ghost struct DataPageView {
    pub count: usize,
    pub encoding: Encoding,
    pub levels: PageLevels,
    pub bytes: Seq<u8>,
}

impl View for DataPage {
    type V = DataPageView;

    open spec fn view(&self) -> DataPageView {
        DataPageView {
            count: self.count,
            encoding: self.encoding,
            levels: self.levels,
            bytes: self.bytes@,
        }
    }
}

/// A page, decompressed.
pub enum PlainPage {
    /// The values of a dictionary.
    Dictionary { count: usize, bytes: Vec<u8> },
    Data(DataPage),
}

/// The mathematical form of [`PlainPage`].
pub ghost enum PlainPageView {
    Dictionary { count: usize, bytes: Seq<u8> },
    Data(DataPageView),
}

impl View for PlainPage {
    type V = PlainPageView;

    open spec fn view(&self) -> PlainPageView {
        match self {
            PlainPage::Dictionary { count, bytes } => PlainPageView::Dictionary {
                count: *count,
                bytes: bytes@,
            },
            PlainPage::Data(page) => PlainPageView::Data(page@),
        }
    }
}

/// A page in its mathematical form.
pub open spec fn page_view(page: Option<PlainPage>) -> Option<PlainPageView> {
    match page {
        Some(page) => Some(page@),
        None => None,
    }
}

/// Pages in their mathematical form, in order.
pub open spec fn page_views(pages: Seq<Option<PlainPage>>) -> Seq<Option<PlainPageView>> {
    pages.map_values(|page: Option<PlainPage>| page_view(page))
}

/// `parquet2::read::PageReader::new_with_page_meta`. No page is filtered out, pages of any size are taken, and
/// the scratch buffer starts empty: it only spares allocations.
///
/// Claims that the headers of the pages are a function of the column.
#[verifier::external_body]
fn stored_pages_of<'a>(column: &PageColumn<'a>) -> (r: StoredPages<'a>)
    ensures
        levels_ahead(r) == stored_levels(column@),
{
    let descriptor = column.descriptor.descriptor.clone();
    let meta = PageMetaData::new(column.column_start, column.num_values, column.codec, descriptor);
    StoredPages(
        PageReader::new_with_page_meta(column.data, meta, Arc::new(|_, _| true), vec![], usize::MAX),
    )
}

/// `next` of `parquet2::read::PageReader`, and `repetition_levels_byte_length` and
/// `definition_levels_byte_length` of the second version of `parquet2::page::DataPageHeader`.
///
/// Claims that the pages come in order, and end: each takes bytes.
#[verifier::external_body]
fn next_levels(pages: &mut StoredPages<'_>) -> (r: Option<Option<(i32, i32)>>)
    ensures
        match r {
            None => levels_ahead(*old(pages)).len() == 0,
            Some(levels) => levels_ahead(*old(pages)) == seq![levels] + levels_ahead(*final(pages)),
        },
{
    let CompressedPage::Data(page) = pages.0.next()?.ok()? else { return Some(None) };
    Some(match page.header() {
        DataPageHeader::V1(_) => None,
        DataPageHeader::V2(h) => Some((h.repetition_levels_byte_length, h.definition_levels_byte_length)),
    })
}

/// Whether the lengths of levels of a page can be added up.
pub open spec fn adds_up(levels: Option<(i32, i32)>) -> bool {
    levels matches Some((rep, def)) ==> i32::MIN <= rep + def <= i32::MAX
}

/// Whether the lengths of levels of each page of a column can be added up.
pub open spec fn levels_add_up(column: PageColumnView) -> bool {
    forall|i: int| 0 <= i < stored_levels(column).len() ==> adds_up(#[trigger] stored_levels(column)[i])
}

/// Tells whether the lengths of levels of each page of a column can be added up.
pub fn check_levels(column: &PageColumn<'_>) -> (r: bool)
    ensures
        r == levels_add_up(column@),
{
    let mut ahead = stored_pages_of(column);
    let ghost all = stored_levels(column@);
    let ghost mut k: int = 0;
    loop
        invariant
            all == stored_levels(column@),
            0 <= k <= all.len(),
            levels_ahead(ahead) == all.skip(k),
            forall|i: int| 0 <= i < k ==> adds_up(#[trigger] all[i]),
        decreases levels_ahead(ahead).len(),
    {
        let ghost before = levels_ahead(ahead);
        match next_levels(&mut ahead) {
            None => return true,
            Some(levels) => {
                assert(before[0] == levels && before[0] == all[k]);
                assert(levels_ahead(ahead) =~= before.skip(1));
                assert(before.skip(1) =~= all.skip(k + 1));
                if let Some((rep, def)) = levels {
                    let sum: i64 = rep as i64 + def as i64;
                    if sum < i32::MIN as i64 || sum > i32::MAX as i64 {
                        assert(!adds_up(all[k]));
                        return false;
                    }
                }
                proof {
                    k = k + 1;
                }
            },
        }
    }
}

/// `parquet2::read::PageReader::new_with_page_meta` and `parquet2::read::BasicDecompressor::new`. No page is
/// filtered out, pages of any size are taken, and the scratch buffers start empty: they only spare
/// allocations.
///
/// Claims that the pages are a function of the column. Asks that the lengths of levels can be added up, which
/// is done as pages are decompressed, without a check.
#[verifier::external_body]
fn pages_of<'a>(column: &PageColumn<'a>) -> (r: Pages<'a>)
    requires
        levels_add_up(column@),
    ensures
        pages_ahead(r) == column_pages(column@),
{
    let descriptor = column.descriptor.descriptor.clone();
    let meta = PageMetaData::new(column.column_start, column.num_values, column.codec, descriptor);
    let reader = PageReader::new_with_page_meta(column.data, meta, Arc::new(|_, _| true), vec![], usize::MAX);
    Pages(BasicDecompressor::new(reader, vec![]))
}

/// `next` of `parquet2::read::BasicDecompressor`, and the fields of the page.
///
/// Claims that the pages come in order, and end: each takes bytes, and no bytes are a page that cannot be
/// had. Unsaid: what the bytes of a page are.
#[verifier::external_body]
fn next_page(pages: &mut Pages<'_>) -> (r: Option<Option<PlainPage>>)
    ensures
        match r {
            None => pages_ahead(*old(pages)).len() == 0,
            Some(None) => pages_ahead(*old(pages)) == seq![None::<PlainPageView>],
            Some(Some(page)) => pages_ahead(*old(pages)) == seq![Some(page@)] + pages_ahead(*final(pages)),
        },
{
    let Ok(next) = pages.0.next() else { return Some(None) };
    Some(Some(match next? {
        Page::Dict(page) => PlainPage::Dictionary { count: page.num_values, bytes: page.buffer.clone() },
        Page::Data(page) => {
            let levels = match page.header() {
                DataPageHeader::V1(_) => PageLevels::V1,
                DataPageHeader::V2(h) => PageLevels::V2 {
                    rep: h.repetition_levels_byte_length, def: h.definition_levels_byte_length,
                },
            };
            let (encoding, bytes) = (page.encoding(), page.buffer().to_vec());
            PlainPage::Data(DataPage { count: page.num_values(), encoding, levels, bytes })
        },
    }))
}

/// The variants of `parquet2::encoding::Encoding`, one for one.
#[verifier::external_body]
pub(crate) fn kind_of(encoding: &Encoding) -> (r: PageEncoding)
    ensures
        r == encoding_kind(*encoding),
{
    match encoding {
        Encoding::Plain => PageEncoding::Plain,
        Encoding::PlainDictionary => PageEncoding::PlainDictionary,
        Encoding::Rle => PageEncoding::Rle,
        Encoding::BitPacked => PageEncoding::BitPacked,
        Encoding::DeltaBinaryPacked => PageEncoding::DeltaBinaryPacked,
        Encoding::DeltaLengthByteArray => PageEncoding::DeltaLengthByteArray,
        Encoding::DeltaByteArray => PageEncoding::DeltaByteArray,
        Encoding::RleDictionary => PageEncoding::RleDictionary,
        Encoding::ByteStreamSplit => PageEncoding::ByteStreamSplit,
    }
}

/// `parquet2::encoding::hybrid_rle::HybridRleDecoder::try_new`, and the items that the iterator gives.
///
/// Claims that there are as many values as are asked for: zeros where the runs end. Asks for sound runs.
#[verifier::external_body]
pub(crate) fn decode_runs(bytes: &[u8], bits: u32, count: usize) -> (r: Vec<u32>)
    requires
        bits <= 32,
        runs_sound(bytes@, bits as nat, count),
    ensures
        r@ == run_values(bytes@, bits, count),
        r.len() == count,
{
    let values = HybridRleDecoder::try_new(bytes, bits, count).unwrap();
    values.collect::<Result<Vec<_>, _>>().unwrap()
}

/// `parquet2::encoding::bitpacked::Decoder::try_new` of 64-bit numbers, and the items that the iterator
/// gives.
///
/// Claims that there are as many values as are asked for. Asks for bytes that hold them.
#[verifier::external_body]
pub(crate) fn unpack(bytes: &[u8], bits: usize, count: usize) -> (r: Vec<u64>)
    requires
        0 < bits <= 64,
        count * bits <= 8 * bytes.len(),
        count * bits <= usize::MAX,
        8 * bytes.len() <= usize::MAX,
        bytes.len() > 0,
    ensures
        r@ == packed_values(bytes@, bits, count),
        r.len() == count,
{
    bitpacked::Decoder::<u64>::try_new(bytes, bits, count).unwrap().collect()
}

/// `parquet2::encoding::delta_bitpacked::Decoder::try_new`, the items that the iterator gives, and
/// `consumed_bytes` after them.
///
/// Claims that the outcome is a function of the bytes, and that no more bytes are consumed than there are.
/// Asks for sound blocks whose numbers have 64 bits.
#[verifier::external_body]
pub(crate) fn decode_delta(bytes: &[u8]) -> (r: Option<(Vec<i64>, usize)>)
    requires
        is_delta(bytes@, 1),
    ensures
        match r {
            Some((values, consumed)) => delta_values(bytes@) == Some((values@, consumed)) && consumed <= bytes.len(),
            None => delta_values(bytes@) is None,
        },
{
    let mut decoder = delta_bitpacked::Decoder::try_new(bytes).ok()?;
    let values = decoder.by_ref().collect::<Result<Vec<_>, _>>().ok()?;
    Some((values, decoder.consumed_bytes()))
}

/// `std::str::from_utf8`, which takes all bytes that are UTF-8, and no others.
#[verifier::external_body]
pub(crate) fn is_text(bytes: &[u8]) -> (r: bool)
    ensures
        r == valid_utf8(bytes@),
{
    std::str::from_utf8(bytes).is_ok()
}

/// Reads the pages of a column.
pub fn plain_pages(column: &PageColumn<'_>) -> (r: Vec<Option<PlainPage>>)
    requires
        levels_add_up(column@),
    ensures
        page_views(r@) == column_pages(column@),
{
    let mut ahead = pages_of(column);
    let mut pages: Vec<Option<PlainPage>> = Vec::new();
    assert(page_views(pages@) =~= seq![]);
    loop
        invariant
            column_pages(column@) == page_views(pages@) + pages_ahead(ahead),
        decreases pages_ahead(ahead).len(),
    {
        let ghost before = page_views(pages@);
        let ghost rest = pages_ahead(ahead);
        match next_page(&mut ahead) {
            None => return pages,
            Some(page) => {
                let last = page.is_none();
                let ghost view = page_view(page);
                pages.push(page);
                assert(page_views(pages@) =~= before.push(view));
                if last {
                    assert(before + rest =~= page_views(pages@));
                    return pages;
                }
                assert(before + rest =~= page_views(pages@) + pages_ahead(ahead));
            },
        }
    }
}

} // verus!
