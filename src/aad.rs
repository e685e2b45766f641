//! Associated data of each encrypted module.
use vstd::prelude::*;
use crate::bytes::copy_bytes;

verus! {

/// The kind of an encrypted module; each has its own one-byte tag.
#[derive(Debug, Clone, Copy, PartialEq, Eq, Structural)]
pub enum ModuleType {
    Footer,
    ColumnMetaData,
    DataPage,
    DictionaryPage,
    DataPageHeader,
    DictionaryPageHeader,
    ColumnIndex,
    OffsetIndex,
    BloomFilterHeader,
    BloomFilterBitset,
}

impl ModuleType {
    /// The tag byte of the module type.
    pub open spec fn tag(self) -> u8 {
        match self {
            ModuleType::Footer => 0,
            ModuleType::ColumnMetaData => 1,
            ModuleType::DataPage => 2,
            ModuleType::DictionaryPage => 3,
            ModuleType::DataPageHeader => 4,
            ModuleType::DictionaryPageHeader => 5,
            ModuleType::ColumnIndex => 6,
            ModuleType::OffsetIndex => 7,
            ModuleType::BloomFilterHeader => 8,
            ModuleType::BloomFilterBitset => 9,
        }
    }

    /// Whether the module is a page or a page header, whose AAD holds a page ordinal.
    pub open spec fn is_page_module(self) -> bool {
        match self {
            ModuleType::DataPage | ModuleType::DictionaryPage | ModuleType::DataPageHeader
            | ModuleType::DictionaryPageHeader => true,
            _ => false,
        }
    }

    pub fn to_byte(&self) -> (r: u8)
        ensures
            r == self.tag(),
    {
        match self {
            ModuleType::Footer => 0,
            ModuleType::ColumnMetaData => 1,
            ModuleType::DataPage => 2,
            ModuleType::DictionaryPage => 3,
            ModuleType::DataPageHeader => 4,
            ModuleType::DictionaryPageHeader => 5,
            ModuleType::ColumnIndex => 6,
            ModuleType::OffsetIndex => 7,
            ModuleType::BloomFilterHeader => 8,
            ModuleType::BloomFilterBitset => 9,
        }
    }
}

/// The two little-endian bytes of an ordinal.
pub open spec fn le_i16(x: i16) -> Seq<u8> {
    seq![(x as u16) as u8, ((x as u16) >> 8u16) as u8]
}

/// AAD of the footer: the file AAD followed by the footer tag.
pub open spec fn footer_aad_bytes(file_aad: Seq<u8>) -> Seq<u8> {
    file_aad.push(ModuleType::Footer.tag())
}

/// AAD of a column chunk's module: file AAD, tag, row group and column ordinals.
pub open spec fn column_chunk_aad_bytes(file_aad: Seq<u8>, t: ModuleType, row_group: i16, column: i16) -> Seq<u8> {
    file_aad.push(t.tag()) + le_i16(row_group) + le_i16(column)
}

/// AAD of a page's module: file AAD, tag, row group, column and page ordinals.
pub open spec fn page_aad_bytes(
    file_aad: Seq<u8>,
    t: ModuleType,
    row_group: i16,
    column: i16,
    page: i16,
) -> Seq<u8> {
    column_chunk_aad_bytes(file_aad, t, row_group, column) + le_i16(page)
}

/// The mathematical value of an [`AAD`].
pub struct AadModel {
    pub file_aad: Seq<u8>,
    pub row_group_ordinal: i16,
    pub column_ordinal: i16,
    pub page_ordinal: i16,
}

/// The file AAD together with the ordinals of one module instance.
#[derive(Clone)]
pub struct AAD {
    file_aad: Vec<u8>,
    row_group_ordinal: i16,
    column_ordinal: i16,
    page_ordinal: i16,
}

impl View for AAD {
    type V = AadModel;

    closed spec fn view(&self) -> AadModel {
        AadModel {
            file_aad: self.file_aad@,
            row_group_ordinal: self.row_group_ordinal,
            column_ordinal: self.column_ordinal,
            page_ordinal: self.page_ordinal,
        }
    }
}

fn push_le_i16(v: &mut Vec<u8>, x: i16)
    ensures
        final(v)@ == old(v)@ + le_i16(x),
{
    let u: u16 = x as u16;
    v.push(u as u8);
    v.push((u >> 8u16) as u8);
    assert(v@ =~= old(v)@ + le_i16(x));
}
impl AAD {
    /// An AAD for the given file AAD, with every ordinal 0.
    pub fn new(file_aad: &[u8]) -> (r: Self)
        ensures
            r@.file_aad == file_aad@,
            r@.row_group_ordinal == 0,
            r@.column_ordinal == 0,
            r@.page_ordinal == 0,
    {
        AAD { file_aad: copy_bytes(file_aad), row_group_ordinal: 0, column_ordinal: 0, page_ordinal: 0 }
    }

    fn copy(&self) -> (r: Self)
        ensures
            r@ == self@,
    {
        AAD {
            file_aad: copy_bytes(self.file_aad.as_slice()),
            row_group_ordinal: self.row_group_ordinal,
            column_ordinal: self.column_ordinal,
            page_ordinal: self.page_ordinal,
        }
    }

    /// A copy with the row group ordinal replaced.
    pub fn with_row_group_ordinal(&self, ordinal: i16) -> (r: Self)
        ensures
            r@ == (AadModel { row_group_ordinal: ordinal, ..self@ }),
    {
        let mut a = self.copy();
        a.row_group_ordinal = ordinal;
        a
    }

    /// A copy with the column ordinal replaced.
    pub fn with_column_ordinal(&self, ordinal: i16) -> (r: Self)
        ensures
            r@ == (AadModel { column_ordinal: ordinal, ..self@ }),
    {
        let mut a = self.copy();
        a.column_ordinal = ordinal;
        a
    }

    /// A copy with the page ordinal replaced.
    pub fn with_page_ordinal(&self, ordinal: i16) -> (r: Self)
        ensures
            r@ == (AadModel { page_ordinal: ordinal, ..self@ }),
    {
        let mut a = self.copy();
        a.page_ordinal = ordinal;
        a
    }

    /// The AAD of the footer.
    pub fn footer_add(&self) -> (r: Vec<u8>)
        ensures
            r@ == footer_aad_bytes(self@.file_aad),
    {
        let mut v = copy_bytes(self.file_aad.as_slice());
        v.push(ModuleType::Footer.to_byte());
        v
    }

    /// The AAD of a column chunk's metadata.
    pub fn column_chunk_aad(self, t: ModuleType) -> (r: Vec<u8>)
        requires
            t == ModuleType::ColumnMetaData,
        ensures
            r@ == column_chunk_aad_bytes(self@.file_aad, t, self@.row_group_ordinal, self@.column_ordinal),
    {
        let mut v = copy_bytes(self.file_aad.as_slice());
        v.push(t.to_byte());
        push_le_i16(&mut v, self.row_group_ordinal);
        push_le_i16(&mut v, self.column_ordinal);
        v
    }

    /// The AAD of a page or a page header.
    pub fn page_aad(self, t: ModuleType) -> (r: Vec<u8>)
        requires
            t.is_page_module(),
        ensures
            r@ == page_aad_bytes(
                self@.file_aad,
                t,
                self@.row_group_ordinal,
                self@.column_ordinal,
                self@.page_ordinal,
            ),
    {
        let mut v = copy_bytes(self.file_aad.as_slice());
        v.push(t.to_byte());
        push_le_i16(&mut v, self.row_group_ordinal);
        push_le_i16(&mut v, self.column_ordinal);
        push_le_i16(&mut v, self.page_ordinal);
        v
    }
}

proof fn lemma_le_i16_injective(x: i16, y: i16)
    requires
        le_i16(x) == le_i16(y),
    ensures
        x == y,
{
    assert(le_i16(x)[0] == le_i16(y)[0] && le_i16(x)[1] == le_i16(y)[1]);
    assert(((x as u16) as u8 == (y as u16) as u8 && ((x as u16) >> 8u16) as u8 == ((y as u16)
        >> 8u16) as u8) ==> x == y) by (bit_vector);
}

/// Two column chunks of one file whose (row group, column) ordinals differ get
/// different AADs, for any module type.
pub proof fn lemma_column_chunk_aad_distinct(
    file_aad: Seq<u8>,
    t: ModuleType,
    rg1: i16,
    col1: i16,
    rg2: i16,
    col2: i16,
)
    requires
        rg1 != rg2 || col1 != col2,
    ensures
        column_chunk_aad_bytes(file_aad, t, rg1, col1) != column_chunk_aad_bytes(file_aad, t, rg2, col2),
{
    let a = column_chunk_aad_bytes(file_aad, t, rg1, col1);
    let b = column_chunk_aad_bytes(file_aad, t, rg2, col2);
    let n: int = file_aad.len() as int + 1;
    if a == b {
        assert(a.subrange(n, n + 2) =~= le_i16(rg1));
        assert(b.subrange(n, n + 2) =~= le_i16(rg2));
        assert(a.subrange(n + 2, n + 4) =~= le_i16(col1));
        assert(b.subrange(n + 2, n + 4) =~= le_i16(col2));
        lemma_le_i16_injective(rg1, rg2);
        lemma_le_i16_injective(col1, col2);
    }
}

/// Two pages of one file whose (row group, column, page) ordinals differ get
/// different AADs, for any module type.
pub proof fn lemma_page_aad_distinct(
    file_aad: Seq<u8>,
    t: ModuleType,
    rg1: i16,
    col1: i16,
    page1: i16,
    rg2: i16,
    col2: i16,
    page2: i16,
)
    requires
        rg1 != rg2 || col1 != col2 || page1 != page2,
    ensures
        page_aad_bytes(file_aad, t, rg1, col1, page1) != page_aad_bytes(file_aad, t, rg2, col2, page2),
{
    let a = page_aad_bytes(file_aad, t, rg1, col1, page1);
    let b = page_aad_bytes(file_aad, t, rg2, col2, page2);
    let n: int = file_aad.len() as int + 1;
    if a == b {
        assert(a.subrange(n, n + 2) =~= le_i16(rg1));
        assert(b.subrange(n, n + 2) =~= le_i16(rg2));
        assert(a.subrange(n + 2, n + 4) =~= le_i16(col1));
        assert(b.subrange(n + 2, n + 4) =~= le_i16(col2));
        assert(a.subrange(n + 4, n + 6) =~= le_i16(page1));
        assert(b.subrange(n + 4, n + 6) =~= le_i16(page2));
        lemma_le_i16_injective(rg1, rg2);
        lemma_le_i16_injective(col1, col2);
        lemma_le_i16_injective(page1, page2);
    }
}

} // verus!
