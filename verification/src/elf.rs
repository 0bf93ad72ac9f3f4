use vstd::prelude::*;

verus! {

/// Bytes of an ELF64 file header.
pub const EHDR_SIZE: usize = 64;
/// Bytes of an ELF64 program header.
pub const PHDR_SIZE: usize = 56;
/// Program-header type of a loadable segment.
pub const PT_LOAD: u32 = 1;

/// The little-endian 16-bit value at `off`.
pub open spec fn le16(b: Seq<u8>, off: int) -> u16 {
    ((b[off] as u16) | ((b[off + 1] as u16) << 8u16)) as u16
}

/// The little-endian 32-bit value at `off`.
pub open spec fn le32(b: Seq<u8>, off: int) -> u32 {
    ((b[off] as u32) | ((b[off + 1] as u32) << 8u32) | ((b[off + 2] as u32) << 16u32) | ((b[off + 3] as u32) << 24u32)) as u32
}

/// The little-endian 64-bit value at `off`.
pub open spec fn le64(b: Seq<u8>, off: int) -> u64 {
    ((le32(b, off) as u64) | ((le32(b, off + 4) as u64) << 32u64)) as u64
}

fn read_u16(b: &[u8], off: usize) -> (v: u16)
    requires
        off + 2 <= b@.len(),
    ensures
        v == le16(b@, off as int),
{
    (b[off] as u16) | ((b[off + 1] as u16) << 8u16)
}

fn read_u32(b: &[u8], off: usize) -> (v: u32)
    requires
        off + 4 <= b@.len(),
    ensures
        v == le32(b@, off as int),
{
    (b[off] as u32) | ((b[off + 1] as u32) << 8u32) | ((b[off + 2] as u32) << 16u32) | ((b[off + 3] as u32) << 24u32)
}

fn read_u64(b: &[u8], off: usize) -> (v: u64)
    requires
        off + 8 <= b@.len(),
    ensures
        v == le64(b@, off as int),
{
    let _n = b.len();
    let lo = read_u32(b, off);
    let hi = read_u32(b, off + 4);
    (lo as u64) | ((hi as u64) << 32u64)
}

/// The fields of an ELF64 file header that loading uses.
#[derive(Debug, Clone, Copy, PartialEq, Eq, Structural)]
pub struct Elf64Header {
    pub e_entry: u64,
    pub e_phoff: u64,
    pub e_phnum: u16,
}

/// The file starts with the ELF magic `7f 45 4c 46`.
pub open spec fn has_elf_magic(b: Seq<u8>) -> bool {
    b.len() >= 4 && b[0] == 0x7F && b[1] == 0x45 && b[2] == 0x4C && b[3] == 0x46
}

/// The header fields of an image of at least `EHDR_SIZE` bytes.
pub open spec fn header_of(b: Seq<u8>) -> Elf64Header {
    Elf64Header { e_entry: le64(b, 24), e_phoff: le64(b, 32), e_phnum: le16(b, 56) }
}

/// Reads the file header of `b`: `None` when `b` is shorter than a header
/// or does not start with the ELF magic.
pub fn parse_header(b: &[u8]) -> (r: Option<Elf64Header>)
    ensures
        match r {
            Some(h) => b@.len() >= EHDR_SIZE && has_elf_magic(b@) && h == header_of(b@),
            None => !(b@.len() >= EHDR_SIZE && has_elf_magic(b@)),
        },
{
    if b.len() < EHDR_SIZE {
        return None;
    }
    if !(b[0] == 0x7F && b[1] == 0x45 && b[2] == 0x4C && b[3] == 0x46) {
        return None;
    }
    Some(Elf64Header { e_entry: read_u64(b, 24), e_phoff: read_u64(b, 32), e_phnum: read_u16(b, 56) })
}

/// The fields of an ELF64 program header that loading uses.
#[derive(Debug, Clone, Copy, PartialEq, Eq, Structural)]
pub struct Elf64Phdr {
    pub p_type: u32,
    pub p_offset: u64,
    pub p_vaddr: u64,
    pub p_filesz: u64,
    pub p_memsz: u64,
}

/// Program header `i` of an image whose table starts at `phoff`.
pub open spec fn phdr_of(b: Seq<u8>, phoff: int, i: int) -> Elf64Phdr {
    let o = phoff + i * PHDR_SIZE;
    Elf64Phdr {
        p_type: le32(b, o),
        p_offset: le64(b, o + 8),
        p_vaddr: le64(b, o + 16),
        p_filesz: le64(b, o + 32),
        p_memsz: le64(b, o + 40),
    }
}

/// Reads program header `i` of the table at `phoff`.
pub fn parse_phdr(b: &[u8], phoff: usize, i: usize) -> (p: Elf64Phdr)
    requires
        phoff + (i + 1) * PHDR_SIZE <= b@.len(),
    ensures
        p == phdr_of(b@, phoff as int, i as int),
{
    let _n = b.len();
    proof {
        assert(i * PHDR_SIZE + PHDR_SIZE == (i + 1) * PHDR_SIZE) by (nonlinear_arith);
    }
    let o = phoff + i * PHDR_SIZE;
    Elf64Phdr {
        p_type: read_u32(b, o),
        p_offset: read_u64(b, o + 8),
        p_vaddr: read_u64(b, o + 16),
        p_filesz: read_u64(b, o + 32),
        p_memsz: read_u64(b, o + 40),
    }
}


/// The number the `n` bytes at `off` of `b` stand for, least significant
/// byte first: `b[off] + 256 * b[off + 1] + ... + 256^(n-1) * b[off + n - 1]`.
pub open spec fn bytes_value(b: Seq<u8>, off: int, n: nat) -> int
    decreases n,
{
    if n == 0 { 0 } else { b[off] + 256 * bytes_value(b, off + 1, (n - 1) as nat) }
}

proof fn lemma_le32_value(b: Seq<u8>, off: int)
    requires
        0 <= off,
        off + 4 <= b.len(),
    ensures
        le32(b, off) == b[off] + 256 * b[off + 1] + 65536 * b[off + 2] + 16777216 * b[off + 3],
{
    let x0 = b[off];
    let x1 = b[off + 1];
    let x2 = b[off + 2];
    let x3 = b[off + 3];
    assert((((x0 as u32) | ((x1 as u32) << 8u32) | ((x2 as u32) << 16u32) | ((x3 as u32) << 24u32)) as u32)
        == x0 + 256 * x1 + 65536 * x2 + 16777216 * x3) by (bit_vector);
}

/// Every multi-byte field is read little-endian over all of its bytes: a
/// 16-, 32- or 64-bit field at `off` is the number its 2, 4 or 8 bytes
/// stand for; so a 64-bit field with any nonzero byte among its upper four
/// is at least 2^32.
pub proof fn law_fields_little_endian(b: Seq<u8>, off: int)
    requires
        0 <= off,
        off + 8 <= b.len(),
    ensures
        le16(b, off) == bytes_value(b, off, 2),
        le32(b, off) == bytes_value(b, off, 4),
        le64(b, off) == bytes_value(b, off, 8),
        (b[off + 4] != 0 || b[off + 5] != 0 || b[off + 6] != 0 || b[off + 7] != 0) ==> le64(b, off) >= 0x1_0000_0000,
{
    reveal_with_fuel(bytes_value, 9);
    let x0 = b[off];
    let x1 = b[off + 1];
    assert((((x0 as u16) | ((x1 as u16) << 8u16)) as u16) == x0 + 256 * x1) by (bit_vector);
    lemma_le32_value(b, off);
    lemma_le32_value(b, off + 4);
    let lo = le32(b, off);
    let hi = le32(b, off + 4);
    assert((((lo as u64) | ((hi as u64) << 32u64)) as u64) == lo + 4294967296 * hi) by (bit_vector);
    assert(bytes_value(b, off, 8) == b[off] + 256 * b[off + 1] + 65536 * b[off + 2] + 16777216 * b[off + 3]
        + 4294967296 * (b[off + 4] + 256 * b[off + 5] + 65536 * b[off + 6] + 16777216 * b[off + 7]));
}

/// The header fields are the little-endian values of the ELF64 header's
/// bytes 24..32 (entry point), 32..40 (program-header table offset) and
/// 56..58 (number of program headers).
pub proof fn law_header_fields(b: Seq<u8>)
    requires
        b.len() >= EHDR_SIZE,
    ensures
        header_of(b).e_entry == bytes_value(b, 24, 8),
        header_of(b).e_phoff == bytes_value(b, 32, 8),
        header_of(b).e_phnum == bytes_value(b, 56, 2),
{
    law_fields_little_endian(b, 24);
    law_fields_little_endian(b, 32);
    law_fields_little_endian(b, 56);
}

/// The fields of program header `i` are the little-endian values of its
/// bytes: type at 0..4, file offset at 8..16, address at 16..24, file size
/// at 32..40 and memory size at 40..48 of the header.
pub proof fn law_phdr_fields(b: Seq<u8>, phoff: int, i: int)
    requires
        0 <= phoff,
        0 <= i,
        phoff + (i + 1) * PHDR_SIZE <= b.len(),
    ensures
        ({
            let o = phoff + i * PHDR_SIZE;
            let p = phdr_of(b, phoff, i);
            &&& p.p_type == bytes_value(b, o, 4)
            &&& p.p_offset == bytes_value(b, o + 8, 8)
            &&& p.p_vaddr == bytes_value(b, o + 16, 8)
            &&& p.p_filesz == bytes_value(b, o + 32, 8)
            &&& p.p_memsz == bytes_value(b, o + 40, 8)
        }),
{
    let o = phoff + i * PHDR_SIZE;
    assert(i * PHDR_SIZE >= 0) by (nonlinear_arith) requires i >= 0;
    assert(i * 56 + 56 == (i + 1) * 56) by (nonlinear_arith);
    law_fields_little_endian(b, o);
    law_fields_little_endian(b, o + 8);
    law_fields_little_endian(b, o + 16);
    law_fields_little_endian(b, o + 32);
    law_fields_little_endian(b, o + 40);
}

} // verus!
