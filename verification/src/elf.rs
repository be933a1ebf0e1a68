//! Reading ELF images: trusted bindings to the `xmas_elf` parser, over
//! a plain view of the loadable program headers.
//!
//! What the parser returns is a function of the image bytes alone, so
//! the results are named (`elf_loads`, `elf_entry`, `elf_parses`)
//! rather than spelled out; the logic that consumes them —
//! `MemorySet::from_elf` — is verified over those names.
//!
//! The parser panics rather than erring on some malformed images: a
//! truncated header after a good magic, or a program-header table whose
//! offset, count or entry size reach past the image. `elf_image_tame`
//! reads the fixed-offset header fields and holds exactly when no call
//! of the parser made here can panic; the bindings require it, and
//! `elf_image_check` decides it in verified code so that callers can
//! reject wild images instead of proving anything about them.

use vstd::prelude::*;

verus! {

/// One loadable program header, as plain values.
#[derive(Clone, Copy, Debug, PartialEq, Eq, Structural)]
pub struct ElfSegment {
    /// First virtual address of the segment.
    pub vaddr: u64,
    /// Size of the segment in memory; the part past `file_size` is
    /// zero-filled.
    pub mem_size: u64,
    /// Where the segment's bytes start in the image.
    pub offset: u64,
    /// How many bytes the image holds for the segment.
    pub file_size: u64,
    /// Whether the segment is to be mapped readable.
    pub readable: bool,
    /// Whether the segment is to be mapped writable.
    pub writable: bool,
    /// Whether the segment is to be mapped executable.
    pub executable: bool,
}

/// The loadable program headers an ELF image's bytes describe, in file
/// order.
pub uninterp spec fn elf_loads(data: Seq<u8>) -> Seq<ElfSegment>;

/// The entry address an ELF image's bytes name.
pub uninterp spec fn elf_entry(data: Seq<u8>) -> u64;

/// Whether the image's header parses: what `xmas_elf::ElfFile::new`
/// accepts, a function of the bytes alone.
pub uninterp spec fn elf_parses(data: Seq<u8>) -> bool;

/// The little-endian 16-bit value at byte offset `i`.
pub open spec fn elf_u16_at(data: Seq<u8>, i: int) -> int {
    data[i] + data[i + 1] * 0x100
}

/// The little-endian 64-bit value at byte offset `i`.
pub open spec fn elf_u64_at(data: Seq<u8>, i: int) -> int {
    data[i] + data[i + 1] * 0x100 + data[i + 2] * 0x1_0000 + data[i + 3] * 0x100_0000 + data[i
        + 4] * 0x1_0000_0000 + data[i + 5] * 0x100_0000_0000 + data[i + 6] * 0x1_0000_0000_0000
        + data[i + 7] * 0x100_0000_0000_0000
}

/// Whether the bytes start with the ELF magic number.
pub open spec fn elf_magic_ok(data: Seq<u8>) -> bool {
    &&& data.len() >= 16
    &&& data[0] == 0x7Fu8
    &&& data[1] == 0x45u8
    &&& data[2] == 0x4Cu8
    &&& data[3] == 0x46u8
}

/// The program-header table of a 64-bit image stays inside the image:
/// either the parser skips it (no headers, or a zero offset or entry
/// size, which it rejects per header), or every entry is at least a
/// full 56-byte header, eight-byte aligned, and in bounds.
pub open spec fn elf64_table_tame(data: Seq<u8>) -> bool {
    let ph_offset = elf_u64_at(data, 32);
    let ph_entry_size = elf_u16_at(data, 54);
    let ph_count = elf_u16_at(data, 56);
    ||| ph_count == 0
    ||| ph_offset == 0
    ||| ph_entry_size == 0
    ||| (ph_entry_size >= 56 && ph_offset % 8 == 0 && ph_entry_size % 8 == 0 && ph_offset
        + ph_count * ph_entry_size <= data.len())
}

/// No call of the parser made by the bindings below can panic on this
/// image: the parser either rejects it before any unchecked read — too
/// short for the magic, a bad magic, a class byte it refuses — or the
/// image is a 64-bit one with a full header and a tame program-header
/// table. 32-bit images are left out: the kernel does not load them.
pub open spec fn elf_image_tame(data: Seq<u8>) -> bool {
    if data.len() < 16 {
        true
    } else if !elf_magic_ok(data) {
        true
    } else if data[4] == 2u8 {
        data.len() >= 64 && elf64_table_tame(data)
    } else {
        data[4] != 1u8
    }
}

/// Decide `elf_image_tame` by reading the header fields.
pub fn elf_image_check(data: &Vec<u8>) -> (r: bool)
    ensures
        r == elf_image_tame(data@),
{
    let n = data.len();
    if n < 16 {
        return true;
    }
    if !(data[0] == 0x7F && data[1] == 0x45 && data[2] == 0x4C && data[3] == 0x46) {
        return true;
    }
    if data[4] == 1 {
        return false;
    }
    if data[4] != 2 {
        return true;
    }
    if n < 64 {
        return false;
    }
    let ph_offset = read_u64_at(data, 32);
    let ph_entry_size = read_u16_at(data, 54);
    let ph_count = read_u16_at(data, 56);
    if ph_count == 0 || ph_offset == 0 || ph_entry_size == 0 {
        return true;
    }
    if ph_entry_size < 56 || ph_offset % 8 != 0 || ph_entry_size % 8 != 0 {
        return false;
    }
    if ph_offset > n as u64 {
        return false;
    }
    proof {
        assert((ph_count as int) * (ph_entry_size as int) <= 0xFFFF * 0xFFFF)
            by (nonlinear_arith)
            requires ph_count <= 0xFFFF, ph_entry_size <= 0xFFFF,
        ;
    }
    let table = (ph_count as u64) * (ph_entry_size as u64);
    table <= n as u64 - ph_offset
}

/// Read the little-endian 16-bit value at byte offset `i`.
fn read_u16_at(data: &Vec<u8>, i: usize) -> (r: u16)
    requires
        i + 2 <= data@.len(),
    ensures
        r == elf_u16_at(data@, i as int),
{
    let n = data.len();
    (data[i] as u16) + (data[i + 1] as u16) * 0x100
}

/// Read the little-endian 64-bit value at byte offset `i`.
fn read_u64_at(data: &Vec<u8>, i: usize) -> (r: u64)
    requires
        i + 8 <= data@.len(),
    ensures
        r == elf_u64_at(data@, i as int),
{
    let n = data.len();
    (data[i] as u64) + (data[i + 1] as u64) * 0x100 + (data[i + 2] as u64) * 0x1_0000 + (data[i
        + 3] as u64) * 0x100_0000 + (data[i + 4] as u64) * 0x1_0000_0000 + (data[i + 5] as u64)
        * 0x100_0000_0000 + (data[i + 6] as u64) * 0x1_0000_0000_0000 + (data[i + 7] as u64)
        * 0x100_0000_0000_0000
}

/// Relies on `xmas_elf::ElfFile::new`, `ElfFile::program_iter` and the
/// `ProgramHeader` accessors `get_type`, `virtual_addr`, `mem_size`,
/// `offset`, `file_size` and `flags`: the loadable program headers are
/// read off the image, a function of the bytes alone, and on a tame
/// image parsing succeeds exactly for the ELF magic and the 64-bit
/// class byte — the header holds nothing else the parser checks.
/// `elf_image_tame` keeps every slice and size check inside the parser
/// in bounds; the eight-byte alignment it demands of the table rests on
/// `Vec`'s buffer coming from the global allocator at least eight-byte
/// aligned.
#[verifier::external_body]
pub fn parse_load_segments(data: &Vec<u8>) -> (r: Result<Vec<ElfSegment>, &'static str>)
    requires
        elf_image_tame(data@),
    ensures
        r is Ok <==> elf_parses(data@),
        r is Ok <==> (elf_magic_ok(data@) && data@[4] == 2u8),
        r matches Ok(v) ==> v@ == elf_loads(data@),
{
    let elf = xmas_elf::ElfFile::new(data.as_slice())?;
    let mut out = Vec::new();
    for ph in elf.program_iter() {
        if ph.get_type() == Ok(xmas_elf::program::Type::Load) {
            out.push(ElfSegment {
                vaddr: ph.virtual_addr(),
                mem_size: ph.mem_size(),
                offset: ph.offset(),
                file_size: ph.file_size(),
                readable: ph.flags().is_read(),
                writable: ph.flags().is_write(),
                executable: ph.flags().is_execute() });
        }
    }
    Ok(out)
}

/// Relies on `xmas_elf::ElfFile::new` and `HeaderPt2::entry_point`: the
/// entry address of a parsed 64-bit image is the little-endian word at
/// byte offset 24 — the `entry_point` field of the header, read
/// natively on the little-endian targets this kernel runs on.
/// `elf_image_tame` keeps the header reads in bounds, as above.
#[verifier::external_body]
pub fn parse_entry_point(data: &Vec<u8>) -> (r: Result<u64, &'static str>)
    requires
        elf_image_tame(data@),
    ensures
        r is Ok <==> elf_parses(data@),
        r is Ok <==> (elf_magic_ok(data@) && data@[4] == 2u8),
        r matches Ok(e) ==> e == elf_entry(data@),
        r matches Ok(e) ==> e as int == elf_u64_at(data@, 24),
{
    let elf = xmas_elf::ElfFile::new(data.as_slice())?;
    Ok(elf.header.pt2.entry_point())
}

} // verus!
