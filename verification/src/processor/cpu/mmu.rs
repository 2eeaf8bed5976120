//! Paged memory: a 32-bit address space whose 256-byte pages come into
//! existence when they are first written; a byte never written reads as
//! zero.
use std::collections::HashMap;
use vstd::prelude::*;

verus! {

broadcast use vstd::std_specs::hash::group_hash_axioms;

/// Mask of the in-page part of an address.
pub const PAGE_MASK: usize = 0xff;

/// Number of bytes in a page.
pub const PAGE_SIZE: usize = 256;

/// The number of the page that holds address `a`: bits 8 to 31 of it.
pub open spec fn page_number(a: usize) -> usize {
    (a & 0xFFFF_FF00) >> 8
}

/// The place of address `a` inside its page: its low eight bits.
pub open spec fn page_offset(a: usize) -> usize {
    a & 0xff
}

/// `a + k`, wrapping around the machine word as release builds do.
pub open spec fn addr_add(a: usize, k: usize) -> usize {
    vstd::wrapping::usize_specs::wrapping_add(a, k)
}

/// A page of a fresh memory: every byte zero.
pub open spec fn zero_page() -> Seq<u8> {
    Seq::new(PAGE_SIZE as nat, |i: int| 0u8)
}

/// Whether the page holding `a` exists in the memory `m`.
pub open spec fn mapped(m: Map<usize, Seq<u8>>, a: usize) -> bool {
    m.contains_key(page_number(a))
}

/// The byte at address `a` of the memory `m`: zero in a page that does not
/// exist yet.
pub open spec fn byte_at(m: Map<usize, Seq<u8>>, a: usize) -> u8 {
    if mapped(m, a) {
        m[page_number(a)][page_offset(a) as int]
    } else {
        0
    }
}

/// The memory `m` after `v` is written at address `a`: the page that holds
/// `a` is created, zeroed, where it did not exist.
pub open spec fn store_byte(m: Map<usize, Seq<u8>>, a: usize, v: u8) -> Map<usize, Seq<u8>> {
    let p = page_number(a);
    let old_page = if m.contains_key(p) { m[p] } else { zero_page() };
    m.insert(p, old_page.update(page_offset(a) as int, v))
}

/// Every page of `m` holds exactly one page of bytes.
pub open spec fn pages_well_formed(m: Map<usize, Seq<u8>>) -> bool {
    forall|p: usize| #[trigger] m.contains_key(p) ==> m[p].len() == PAGE_SIZE
}

/// Whether the four bytes from `a` on are all mapped.
pub open spec fn mapped4(m: Map<usize, Seq<u8>>, a: usize) -> bool {
    &&& mapped(m, a)
    &&& mapped(m, addr_add(a, 1))
    &&& mapped(m, addr_add(a, 2))
    &&& mapped(m, addr_add(a, 3))
}

/// The big-endian 32-bit word stored from `a` on.
pub open spec fn word_at(m: Map<usize, Seq<u8>>, a: usize) -> u32 {
    (byte_at(m, a) as int * 0x100_0000 + byte_at(m, addr_add(a, 1)) as int * 0x1_0000
        + byte_at(m, addr_add(a, 2)) as int * 0x100 + byte_at(m, addr_add(a, 3)) as int) as u32
}

/// The big-endian 24-bit value stored from `a` on.
pub open spec fn u24_at(m: Map<usize, Seq<u8>>, a: usize) -> u32 {
    (byte_at(m, a) as int * 0x1_0000 + byte_at(m, addr_add(a, 1)) as int * 0x100 + byte_at(
        m,
        addr_add(a, 2),
    ) as int) as u32
}

/// The big-endian 16-bit value stored from `a` on.
pub open spec fn u16_at(m: Map<usize, Seq<u8>>, a: usize) -> u16 {
    (byte_at(m, a) as int * 0x100 + byte_at(m, addr_add(a, 1)) as int) as u16
}

/// The memory `m` after the big-endian word `v` is written from `a` on.
pub open spec fn store_word(m: Map<usize, Seq<u8>>, a: usize, v: u32) -> Map<usize, Seq<u8>> {
    let m1 = store_byte(m, a, ((v >> 24) & 0xff) as u8);
    let m2 = store_byte(m1, addr_add(a, 1), ((v >> 16) & 0xff) as u8);
    let m3 = store_byte(m2, addr_add(a, 2), ((v >> 8) & 0xff) as u8);
    store_byte(m3, addr_add(a, 3), (v & 0xff) as u8)
}

/// The message every out-of-range access is refused with.
pub open spec fn illicit_access_message() -> Seq<char> {
    "Illicit memory access"@
}

/// One page of memory.
pub struct Page {
    data: Vec<u8>,
}

impl Page {
    /// The bytes of the page.
    pub closed spec fn view(&self) -> Seq<u8> {
        self.data@
    }

    /// A page of zeroes.
    pub fn new() -> (p: Self)
        ensures
            p@ == zero_page(),
    {
        let p = Page { data: vec![0u8; PAGE_SIZE] };
        assert(p@ =~= zero_page());
        p
    }
}

/// The memory of the processor, allocated a page at a time.
pub struct MMU {
    pages: HashMap<usize, Page>,
}

impl MMU {
    /// The pages that exist, each by its number.
    pub closed spec fn view(&self) -> Map<usize, Seq<u8>> {
        Map::new(|p: usize| self.pages@.contains_key(p), |p: usize| self.pages@[p]@)
    }

    /// Every page that exists is a whole page.
    pub open spec fn wf(&self) -> bool {
        pages_well_formed(self@)
    }

    /// An empty memory: no page exists yet.
    pub fn new() -> (m: Self)
        ensures
            m.wf(),
            m@ == Map::<usize, Seq<u8>>::empty(),
    {
        let m = MMU { pages: HashMap::new() };
        assert(m@ =~= Map::<usize, Seq<u8>>::empty());
        m
    }

    /// Splits an address into its page number and its place in the page.
    fn locate(a: usize) -> (r: (usize, usize))
        ensures
            r.0 == page_number(a),
            r.1 == page_offset(a),
            r.1 < PAGE_SIZE,
    {
        let page_num = (a & (0xFFFF_FFFF - PAGE_MASK)) >> 8;
        let offset = a & PAGE_MASK;
        assert(a & 0xff < 256) by (bit_vector);
        (page_num, offset)
    }

    /// Whether a page with this number exists.
    fn check_page(&self, page_num: usize) -> (r: bool)
        ensures
            r == self@.contains_key(page_num),
    {
        match self.pages.get(&page_num) {
            Some(_) => true,
            None => false,
        }
    }

    /// Whether the page holding `a` exists, so that `a` can be read.
    pub fn is_mapped(&self, a: usize) -> (r: bool)
        ensures
            r == mapped(self@, a),
    {
        let (page_num, _) = Self::locate(a);
        self.check_page(page_num)
    }

    /// The byte at address `a`; zero where nothing was ever written.
    pub fn read(&self, a: usize) -> (v: u8)
        requires
            self.wf(),
        ensures
            v == byte_at(self@, a),
    {
        let (page_num, offset) = Self::locate(a);
        match self.pages.get(&page_num) {
            Some(page) => {
                assert(self@.contains_key(page_num));
                assert(page@ == self@[page_num]);
                assert(page@.len() == PAGE_SIZE);
                page.data[offset]
            },
            None => 0,
        }
    }

    /// Writes `v` at address `a`, creating the page that holds it if needed.
    pub fn write(&mut self, a: usize, v: u8)
        requires
            old(self).wf(),
        ensures
            final(self).wf(),
            final(self)@ == store_byte(old(self)@, a, v),
    {
        let (page_num, offset) = Self::locate(a);
        let ghost before = self@;
        let mut page = match self.pages.remove(&page_num) {
            Some(p) => {
                assert(before.contains_key(page_num));
                p
            },
            None => Page::new(),
        };
        assert(page@.len() == PAGE_SIZE);
        page.data[offset] = v;
        self.pages.insert(page_num, page);
        assert(self@ =~= store_byte(before, a, v));
    }

    /// Reads the big-endian word at `offset`. Offsets past the 32-bit
    /// address space are refused.
    pub fn get_u32(&self, offset: usize) -> (r: Result<u32, String>)
        requires
            self.wf(),
        ensures
            offset > u32::MAX ==> (r matches Err(e) && e@ == illicit_access_message()),
            offset <= u32::MAX ==> r == Ok::<u32, String>(word_at(self@, offset)),
    {
        if offset > u32::MAX as usize {
            return Err("Illicit memory access".to_string());
        }
        let b0 = self.read(offset) as u32;
        let b1 = self.read(offset.wrapping_add(1)) as u32;
        let b2 = self.read(offset.wrapping_add(2)) as u32;
        let b3 = self.read(offset.wrapping_add(3)) as u32;
        assert(b0 << 24 == b0 * 0x100_0000 && b1 << 16 == b1 * 0x1_0000 && b2 << 8 == b2 * 0x100)
            by (bit_vector)
            requires
                b0 < 256 && b1 < 256 && b2 < 256,
        ;
        let mut ret = 0u32;
        ret += b0 << 24;
        ret += b1 << 16;
        ret += b2 << 8;
        ret += b3;
        Ok(ret)
    }

    /// Reads the big-endian 24-bit value at `offset`, as `get_u32` does.
    pub fn get_u24(&self, offset: usize) -> (r: Result<u32, String>)
        requires
            self.wf(),
        ensures
            offset > u32::MAX ==> (r matches Err(e) && e@ == illicit_access_message()),
            offset <= u32::MAX ==> r == Ok::<u32, String>(u24_at(self@, offset)),
    {
        if offset > u32::MAX as usize {
            return Err("Illicit memory access".to_string());
        }
        let b0 = self.read(offset) as u32;
        let b1 = self.read(offset.wrapping_add(1)) as u32;
        let b2 = self.read(offset.wrapping_add(2)) as u32;
        assert(b0 << 16 == b0 * 0x1_0000 && b1 << 8 == b1 * 0x100) by (bit_vector)
            requires
                b0 < 256 && b1 < 256,
        ;
        let mut ret: u32 = 0;
        ret += b0 << 16;
        ret += b1 << 8;
        ret += b2;
        Ok(ret)
    }

    /// Reads the big-endian 16-bit value at `offset`, as `get_u32` does.
    pub fn get_u16(&self, offset: usize) -> (r: Result<u16, String>)
        requires
            self.wf(),
        ensures
            offset > u32::MAX ==> (r matches Err(e) && e@ == illicit_access_message()),
            offset <= u32::MAX ==> r == Ok::<u16, String>(u16_at(self@, offset)),
    {
        if offset > u32::MAX as usize {
            return Err("Illicit memory access".to_string());
        }
        let b0 = self.read(offset) as u16;
        let b1 = self.read(offset.wrapping_add(1)) as u16;
        assert(b0 << 8 == b0 * 0x100) by (bit_vector)
            requires
                b0 < 256,
        ;
        let mut ret: u16 = 0;
        ret += b0 << 8;
        ret += b1;
        Ok(ret)
    }

    /// Writes `data` big-endian from `offset` on. Offsets past the 32-bit
    /// address space are refused and leave the memory as it was.
    pub fn write_u32(&mut self, offset: usize, data: u32) -> (r: Result<(), String>)
        requires
            old(self).wf(),
        ensures
            final(self).wf(),
            offset > u32::MAX ==> (r matches Err(e) && e@ == illicit_access_message()
                && final(self)@ == old(self)@),
            offset <= u32::MAX ==> r is Ok && final(self)@ == store_word(old(self)@, offset, data),
            offset <= u32::MAX ==> word_at(final(self)@, offset) == data,
    {
        proof {
            if offset <= u32::MAX {
                lemma_word_roundtrip(old(self)@, offset, data);
            }
        }
        if offset > u32::MAX as usize {
            return Err("Illicit memory access".to_string());
        }
        self.write(offset, ((data >> 24) & 0xFF) as u8);
        self.write(offset.wrapping_add(1), ((data >> 16) & 0xFF) as u8);
        self.write(offset.wrapping_add(2), ((data >> 8) & 0xFF) as u8);
        self.write(offset.wrapping_add(3), (data & 0xFF) as u8);
        Ok(())
    }
}

/// Where in the paged memory the address `a + k` lies, computed as a plain
/// number: the page and offset of `(a + k) mod 2^32`.
proof fn lemma_place_of_next(a: usize, k: usize)
    requires
        a <= u32::MAX,
        k <= 3,
    ensures
        page_number(addr_add(a, k)) == ((a + k) % 0x1_0000_0000) / 256,
        page_offset(addr_add(a, k)) == (a + k) % 256,
{
    let b = addr_add(a, k);
    if a + k > usize::MAX {
        assert(usize::MAX == 0xFFFF_FFFF);
        assert(b == a + k - 0x1_0000_0000);
        assert(page_number(b) == ((a + k) % 0x1_0000_0000) / 256 && page_offset(b) == (a + k) % 256)
            by (bit_vector)
            requires
                a <= 0xFFFF_FFFF,
                k <= 3,
                b == a + k - 0x1_0000_0000,
        ;
    } else {
        assert(b == a + k);
        assert(page_number(b) == ((a + k) % 0x1_0000_0000) / 256 && page_offset(b) == (a + k) % 256)
            by (bit_vector)
            requires
                a <= 0xFFFF_FFFF,
                k <= 3,
                b == a + k,
        ;
    }
}

/// Two addresses lie at one place of the memory.
pub open spec fn same_place(a: usize, b: usize) -> bool {
    page_number(a) == page_number(b) && page_offset(a) == page_offset(b)
}

/// The four bytes of a word lie at four different places.
proof fn lemma_word_places_distinct(a: usize)
    requires
        a <= u32::MAX,
    ensures
        addr_add(a, 0) == a,
        !same_place(a, addr_add(a, 1)),
        !same_place(a, addr_add(a, 2)),
        !same_place(a, addr_add(a, 3)),
        !same_place(addr_add(a, 1), addr_add(a, 2)),
        !same_place(addr_add(a, 1), addr_add(a, 3)),
        !same_place(addr_add(a, 2), addr_add(a, 3)),
{
    lemma_place_of_next(a, 0);
    lemma_place_of_next(a, 1);
    lemma_place_of_next(a, 2);
    lemma_place_of_next(a, 3);
}

/// A write is seen by the next read of the same address, and by no read of
/// any other place; a read of another place sees what it saw before, or a
/// zero where the write created the page.
pub proof fn lemma_store_byte_read(m: Map<usize, Seq<u8>>, a: usize, v: u8, b: usize)
    requires
        pages_well_formed(m),
    ensures
        pages_well_formed(store_byte(m, a, v)),
        mapped(store_byte(m, a, v), a),
        byte_at(store_byte(m, a, v), a) == v,
        mapped(store_byte(m, a, v), b) == (mapped(m, b) || page_number(b) == page_number(a)),
        !same_place(a, b) ==> byte_at(store_byte(m, a, v), b) == byte_at(m, b),
{
    assert(page_offset(a) < 256 && page_offset(b) < 256) by (bit_vector);
}

/// What `write_u32` stores, `get_u32` reads back: a word written at an
/// address of the 32-bit space is mapped and reads as the value written.
pub proof fn lemma_word_roundtrip(m: Map<usize, Seq<u8>>, a: usize, v: u32)
    requires
        pages_well_formed(m),
        a <= u32::MAX,
    ensures
        pages_well_formed(store_word(m, a, v)),
        mapped4(store_word(m, a, v), a),
        word_at(store_word(m, a, v), a) == v,
{
    lemma_word_places_distinct(a);
    let a1 = addr_add(a, 1);
    let a2 = addr_add(a, 2);
    let a3 = addr_add(a, 3);
    let b0 = ((v >> 24) & 0xff) as u8;
    let b1 = ((v >> 16) & 0xff) as u8;
    let b2 = ((v >> 8) & 0xff) as u8;
    let b3 = (v & 0xff) as u8;
    let m1 = store_byte(m, a, b0);
    let m2 = store_byte(m1, a1, b1);
    let m3 = store_byte(m2, a2, b2);
    let m4 = store_byte(m3, a3, b3);
    lemma_store_byte_read(m, a, b0, a);
    lemma_store_byte_read(m1, a1, b1, a);
    lemma_store_byte_read(m2, a2, b2, a);
    lemma_store_byte_read(m3, a3, b3, a);
    lemma_store_byte_read(m1, a1, b1, a1);
    lemma_store_byte_read(m2, a2, b2, a1);
    lemma_store_byte_read(m3, a3, b3, a1);
    lemma_store_byte_read(m2, a2, b2, a2);
    lemma_store_byte_read(m3, a3, b3, a2);
    lemma_store_byte_read(m3, a3, b3, a3);
    assert(b0 as int * 0x100_0000 + b1 as int * 0x1_0000 + b2 as int * 0x100 + b3 as int == v)
        by (bit_vector)
        requires
            b0 == ((v >> 24) & 0xff) as u8,
            b1 == ((v >> 16) & 0xff) as u8,
            b2 == ((v >> 8) & 0xff) as u8,
            b3 == (v & 0xff) as u8,
    ;
}

/// A word written at one place of the 32-bit space leaves every byte at a
/// place outside its four bytes as it was.
pub proof fn lemma_word_write_elsewhere(m: Map<usize, Seq<u8>>, a: usize, v: u32, b: usize)
    requires
        pages_well_formed(m),
        a <= u32::MAX,
        !same_place(a, b),
        !same_place(addr_add(a, 1), b),
        !same_place(addr_add(a, 2), b),
        !same_place(addr_add(a, 3), b),
    ensures
        byte_at(store_word(m, a, v), b) == byte_at(m, b),
{
    let m1 = store_byte(m, a, ((v >> 24) & 0xff) as u8);
    let m2 = store_byte(m1, addr_add(a, 1), ((v >> 16) & 0xff) as u8);
    let m3 = store_byte(m2, addr_add(a, 2), ((v >> 8) & 0xff) as u8);
    lemma_store_byte_read(m, a, ((v >> 24) & 0xff) as u8, b);
    lemma_store_byte_read(m1, addr_add(a, 1), ((v >> 16) & 0xff) as u8, b);
    lemma_store_byte_read(m2, addr_add(a, 2), ((v >> 8) & 0xff) as u8, b);
    lemma_store_byte_read(m3, addr_add(a, 3), (v & 0xff) as u8, b);
}

/// The 32-bit address space has no aliases: two different addresses in it
/// lie at different places of memory, so a write at one leaves the byte at
/// the other as it was.
pub proof fn lemma_distinct_addresses(m: Map<usize, Seq<u8>>, a: usize, b: usize, v: u8)
    requires
        pages_well_formed(m),
        a <= u32::MAX,
        b <= u32::MAX,
        a != b,
    ensures
        !same_place(a, b),
        byte_at(store_byte(m, a, v), b) == byte_at(m, b),
        byte_at(store_byte(m, a, v), a) == v,
{
    assert(!(((a & 0xFFFF_FF00) >> 8) == ((b & 0xFFFF_FF00) >> 8) && (a & 0xff) == (b & 0xff)))
        by (bit_vector)
        requires
            a <= 0xFFFF_FFFF,
            b <= 0xFFFF_FFFF,
            a != b,
    ;
    lemma_store_byte_read(m, a, v, b);
    lemma_store_byte_read(m, a, v, a);
}

} // verus!
