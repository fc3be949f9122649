//! Minimal ELF64 little-endian loader, just enough for riscv-tests and
//! kernel-style static images. No relocation, no dynamic linking.

use vstd::prelude::*;

use crate::mem::{le_u64, le_value, ram_offset, splice, GuestRam};

verus! {

#[derive(Debug, Clone, Copy, PartialEq, Eq, Structural)]
pub enum ElfError {
    Truncated,
    BadMagic,
    Unsupported,
    OutOfRam,
}

/// A loadable segment.
pub const PT_LOAD: u64 = 1;

/// A symbol table.
pub const SHT_SYMTAB: u64 = 2;

/// The `n`-byte little-endian field at the offset; None past the end.
pub open spec fn field(image: Seq<u8>, off: int, n: int) -> Option<u64> {
    if 0 <= off && off + n <= image.len() {
        Some(le_value(image.subrange(off, off + n)) as u64)
    } else {
        None
    }
}

/// What is wrong with the header, if anything: it is cut short, has another
/// magic number, or is not that of a 64-bit little-endian file.
pub open spec fn header_fault(image: Seq<u8>) -> Option<ElfError> {
    if image.len() < 64 {
        Some(ElfError::Truncated)
    } else if image[0] != 0x7f || image[1] != 0x45 || image[2] != 0x4c || image[3] != 0x46 {
        Some(ElfError::BadMagic)
    } else if image[4] != 2 || image[5] != 1 {
        Some(ElfError::Unsupported)
    } else {
        None
    }
}

/// RAM after the segment of the program header at `ph`: the bytes of the file,
/// then zeros up to the size in memory.
pub open spec fn segment_loaded(image: Seq<u8>, base: u64, ram: Seq<u8>, ph: int) -> (
    Seq<u8>,
    Result<(), ElfError>,
) {
    match field(image, ph, 4) {
        None => (ram, Err(ElfError::Truncated)),
        Some(p_type) => if p_type != PT_LOAD {
            (ram, Ok(()))
        } else {
            match (
                field(image, ph + 8, 8),
                field(image, ph + 24, 8),
                field(image, ph + 32, 8),
                field(image, ph + 40, 8),
            ) {
                (Some(offset), Some(paddr), Some(filesz), Some(memsz)) => segment_placed(
                    image,
                    base,
                    ram,
                    offset,
                    paddr,
                    filesz,
                    memsz,
                ),
                _ => (ram, Err(ElfError::Truncated)),
            }
        },
    }
}

/// RAM after one segment, by its header's fields.
pub open spec fn segment_placed(
    image: Seq<u8>,
    base: u64,
    ram: Seq<u8>,
    offset: u64,
    paddr: u64,
    filesz: u64,
    memsz: u64,
) -> (Seq<u8>, Result<(), ElfError>) {
    if offset + filesz > image.len() {
        (ram, Err(ElfError::Truncated))
    } else {
        match ram_offset(base, ram.len(), paddr, filesz as int) {
            None => (ram, Err(ElfError::OutOfRam)),
            Some(at) => {
                let copied = splice(
                    ram,
                    at,
                    image.subrange(offset as int, offset + filesz),
                );
                if memsz <= filesz {
                    (copied, Ok(()))
                } else if paddr + filesz > u64::MAX {
                    (copied, Err(ElfError::OutOfRam))
                } else {
                    let zeros = (memsz - filesz) as nat;
                    match ram_offset(base, ram.len(), (paddr + filesz) as u64, zeros as int) {
                        None => (copied, Err(ElfError::OutOfRam)),
                        Some(z) => (splice(copied, z, Seq::new(zeros, |i: int| 0u8)), Ok(())),
                    }
                }
            },
        }
    }
}

/// RAM after the segments from number `i` on; the first fault stops.
pub open spec fn segments_loaded(
    image: Seq<u8>,
    base: u64,
    ram: Seq<u8>,
    phoff: int,
    entsize: int,
    i: int,
    n: int,
) -> (Seq<u8>, Result<(), ElfError>)
    decreases n - i,
{
    if i >= n {
        (ram, Ok(()))
    } else {
        let (ram1, r) = segment_loaded(image, base, ram, phoff + i * entsize);
        match r {
            Ok(()) => segments_loaded(image, base, ram1, phoff, entsize, i + 1, n),
            Err(e) => (ram1, Err(e)),
        }
    }
}

/// RAM after the whole image.
pub open spec fn image_loaded(image: Seq<u8>, base: u64, ram: Seq<u8>) -> (
    Seq<u8>,
    Result<u64, ElfError>,
) {
    match header_fault(image) {
        Some(e) => (ram, Err(e)),
        None => {
            let (ram1, r) = segments_loaded(
                image,
                base,
                ram,
                field(image, 32, 8)->0 as int,
                field(image, 54, 2)->0 as int,
                0,
                field(image, 56, 2)->0 as int,
            );
            match r {
                Ok(()) => (ram1, Ok(field(image, 24, 8)->0)),
                Err(e) => (ram1, Err(e)),
            }
        },
    }
}

/// Where the string at `at` ends: the first zero, or the end of the table.
pub open spec fn terminator(table: Seq<u8>, at: int) -> int
    decreases table.len() - at,
{
    if at >= table.len() || table[at] == 0 {
        at
    } else {
        terminator(table, at + 1)
    }
}

/// The zero-terminated string at `at`.
pub open spec fn c_string(table: Seq<u8>, at: int) -> Option<Seq<u8>> {
    let end = terminator(table, at);
    if 0 <= at && end < table.len() {
        Some(table.subrange(at, end))
    } else {
        None
    }
}

/// The value of the first symbol of the name from byte `s` of a symbol table
/// on. None where the image is cut short, Some(None) where there is none.
pub open spec fn symbol_at(
    image: Seq<u8>,
    sym_off: int,
    sym_size: int,
    entsize: int,
    strtab: Seq<u8>,
    name: Seq<u8>,
    s: int,
) -> Option<Option<u64>>
    decreases
        (if s < sym_size {
            sym_size - s
        } else {
            0
        }),
{
    if s >= sym_size || entsize <= 0 {
        Some(None)
    } else {
        match (field(image, sym_off + s, 4), field(image, sym_off + s + 8, 8)) {
            (Some(st_name), Some(st_value)) => match c_string(strtab, st_name as int) {
                None => None,
                Some(found) => if found == name {
                    Some(Some(st_value))
                } else {
                    symbol_at(image, sym_off, sym_size, entsize, strtab, name, s + entsize)
                },
            },
            _ => None,
        }
    }
}

/// The value of the symbol in the symbol table whose section header is at `sh`.
pub open spec fn symbol_in(
    image: Seq<u8>,
    shoff: int,
    shentsize: int,
    sh: int,
    name: Seq<u8>,
) -> Option<Option<u64>> {
    match (
        field(image, sh + 24, 8),
        field(image, sh + 32, 8),
        field(image, sh + 56, 8),
        field(image, sh + 40, 4),
    ) {
        (Some(sym_off), Some(sym_size), Some(entsize), Some(link)) => {
            let str_sh = shoff + link * shentsize;
            match (field(image, str_sh + 24, 8), field(image, str_sh + 32, 8)) {
                (Some(str_off), Some(str_size)) => if str_off + str_size > image.len() {
                    None
                } else {
                    symbol_at(
                        image,
                        sym_off as int,
                        sym_size as int,
                        entsize as int,
                        image.subrange(str_off as int, str_off + str_size),
                        name,
                        0,
                    )
                },
                _ => None,
            }
        },
        _ => None,
    }
}

/// The value of the symbol in the sections from number `i` on.
pub open spec fn symbol_from(
    image: Seq<u8>,
    shoff: int,
    shentsize: int,
    name: Seq<u8>,
    i: int,
    n: int,
) -> Option<u64>
    decreases n - i,
{
    if i >= n {
        None
    } else {
        let sh = shoff + i * shentsize;
        match field(image, sh + 4, 4) {
            None => None,
            Some(kind) => if kind != SHT_SYMTAB {
                symbol_from(image, shoff, shentsize, name, i + 1, n)
            } else {
                match symbol_in(image, shoff, shentsize, sh, name) {
                    None => None,
                    Some(Some(v)) => Some(v),
                    Some(None) => symbol_from(image, shoff, shentsize, name, i + 1, n),
                }
            },
        }
    }
}

/// The value of the symbol in the image.
pub open spec fn symbol_of(image: Seq<u8>, name: Seq<u8>) -> Option<u64> {
    if header_fault(image) is Some {
        None
    } else {
        symbol_from(
            image,
            field(image, 40, 8)->0 as int,
            field(image, 58, 2)->0 as int,
            name,
            0,
            field(image, 60, 2)->0 as int,
        )
    }
}

fn read_field(image: &[u8], off: u128, n: usize) -> (r: Option<u64>)
    requires
        n <= 8,
        off <= 0x1_0000_0000_0000_0000_0000_0000,
    ensures
        r == field(image@, off as int, n as int),
        n == 2 && r is Some ==> r->0 < 0x1_0000,
        n == 4 && r is Some ==> r->0 < 0x1_0000_0000,
{
    if off + n as u128 <= image.len() as u128 {
        let at: usize = off as usize;
        let bytes = vstd::slice::slice_subrange(image, at, at + n);
        proof {
            crate::mem::le_value_bound(bytes@);
            crate::mem::lemma_pow256_values();
        }
        Some(le_u64(bytes))
    } else {
        None
    }
}

fn check_header(image: &[u8]) -> (r: Result<(), ElfError>)
    ensures
        r == (match header_fault(image@) {
            None => Ok(()),
            Some(e) => Err(e),
        }),
{
    if image.len() < 64 {
        return Err(ElfError::Truncated);
    }
    if image[0] != 0x7f || image[1] != 0x45 || image[2] != 0x4c || image[3] != 0x46 {
        return Err(ElfError::BadMagic);
    }
    // ELFCLASS64, little-endian.
    if image[4] != 2 || image[5] != 1 {
        return Err(ElfError::Unsupported);
    }
    Ok(())
}

/// The header field at a fixed offset of a checked image.
fn header_field(image: &[u8], off: usize, n: usize) -> (r: u64)
    requires
        n <= 8,
        off + n <= 64 <= image@.len(),
    ensures
        field(image@, off as int, n as int) == Some(r),
        n == 2 ==> r < 0x1_0000,
{
    match read_field(image, off as u128, n) {
        Some(v) => v,
        None => 0,
    }
}

/// The offset of entry `i` of a table.
fn entry_offset(off: u64, i: u64, entsize: u64) -> (r: u128)
    requires
        i <= 0xffff_ffff,
        entsize < 0x1_0000,
    ensures
        r == off + i * entsize,
        r <= 0x2_0000_0000_0000_0000,
{
    assert(i * entsize <= 0xffff_ffff * 0xffff) by (nonlinear_arith)
        requires
            i <= 0xffff_ffff,
            entsize <= 0xffff,
    ;
    off as u128 + (i as u128) * (entsize as u128)
}

fn load_segment(image: &[u8], ram: &mut GuestRam, ph: u128) -> (r: Result<(), ElfError>)
    requires
        ph <= 0x2_0000_0000_0000_0000,
    ensures
        final(ram).base() == old(ram).base(),
        (final(ram)@, r) == segment_loaded(image@, old(ram).base(), old(ram)@, ph as int),
{
    let p_type: u64 = match read_field(image, ph, 4) {
        Some(v) => v,
        None => return Err(ElfError::Truncated),
    };
    if p_type != PT_LOAD {
        return Ok(());
    }
    let (offset, paddr, filesz, memsz): (u64, u64, u64, u64) = match (
        read_field(image, ph + 8, 8),
        read_field(image, ph + 24, 8),
        read_field(image, ph + 32, 8),
        read_field(image, ph + 40, 8),
    ) {
        (Some(a), Some(b), Some(c), Some(d)) => (a, b, c, d),
        _ => return Err(ElfError::Truncated),
    };
    if offset as u128 + filesz as u128 > image.len() as u128 {
        return Err(ElfError::Truncated);
    }
    let data = vstd::slice::slice_subrange(
        image,
        offset as usize,
        (offset + filesz) as usize,
    );
    if ram.write_slice(paddr, data).is_none() {
        return Err(ElfError::OutOfRam);
    }
    if memsz > filesz {
        let zero: u64 = match paddr.checked_add(filesz) {
            Some(z) => z,
            None => return Err(ElfError::OutOfRam),
        };
        if ram.fill_zero(zero, memsz - filesz).is_none() {
            return Err(ElfError::OutOfRam);
        }
    }
    Ok(())
}

/// Copy all PT_LOAD segments into RAM by physical address; returns the entry
/// point.
pub fn load(image: &[u8], ram: &mut GuestRam) -> (r: Result<u64, ElfError>)
    ensures
        final(ram).base() == old(ram).base(),
        (final(ram)@, r) == image_loaded(image@, old(ram).base(), old(ram)@),
{
    match check_header(image) {
        Ok(()) => (),
        Err(e) => return Err(e),
    }
    let entry: u64 = header_field(image, 24, 8);
    let phoff: u64 = header_field(image, 32, 8);
    let phentsize: u64 = header_field(image, 54, 2);
    let phnum: u64 = header_field(image, 56, 2);
    let ghost base = ram.base();
    let ghost whole = segments_loaded(
        image@,
        base,
        ram@,
        phoff as int,
        phentsize as int,
        0,
        phnum as int,
    );
    let mut i: u64 = 0;
    while i < phnum
        invariant
            i <= phnum < 0x1_0000,
            phentsize < 0x1_0000,
            ram.base() == base,
            base == old(ram).base(),
            header_fault(image@) is None,
            field(image@, 24, 8) == Some(entry),
            field(image@, 32, 8) == Some(phoff),
            field(image@, 54, 2) == Some(phentsize),
            field(image@, 56, 2) == Some(phnum),
            whole == segments_loaded(
                image@,
                base,
                ram@,
                phoff as int,
                phentsize as int,
                i as int,
                phnum as int,
            ),
            whole == segments_loaded(
                image@,
                base,
                old(ram)@,
                phoff as int,
                phentsize as int,
                0,
                phnum as int,
            ),
        decreases phnum - i,
    {
        let ph: u128 = entry_offset(phoff, i, phentsize);
        match load_segment(image, ram, ph) {
            Ok(()) => (),
            Err(e) => return Err(e),
        }
        i += 1;
    }
    Ok(entry)
}

/// Whether the zero-terminated string at `at` is the name; None where it has
/// no end.
fn string_is(table: &[u8], at: usize, name: &[u8]) -> (r: Option<bool>)
    requires
        at <= table@.len(),
    ensures
        match c_string(table@, at as int) {
            Some(s) => r == Some(s == name@),
            None => r is None,
        },
{
    let mut end: usize = at;
    while end < table.len() && table[end] != 0
        invariant
            at <= end <= table@.len(),
            terminator(table@, at as int) == terminator(table@, end as int),
        decreases table@.len() - end,
    {
        end += 1;
    }
    if end == table.len() {
        return None;
    }
    let ghost s = table@.subrange(at as int, end as int);
    if end - at != name.len() {
        return Some(false);
    }
    let mut k: usize = 0;
    while k < name.len()
        invariant
            k <= name@.len() == end - at,
            end < table@.len(),
            s == table@.subrange(at as int, end as int),
            c_string(table@, at as int) == Some(s),
            forall|j: int| 0 <= j < k ==> #[trigger] name@[j] == s[j],
        decreases name@.len() - k,
    {
        if table[at + k] != name[k] {
            assert(s[k as int] != name@[k as int]);
            return Some(false);
        }
        k += 1;
    }
    assert(s =~= name@);
    Some(true)
}

fn find_in_table(
    image: &[u8],
    sym_off: u64,
    sym_size: u64,
    entsize: u64,
    strtab: &[u8],
    name: &[u8],
) -> (r: Option<Option<u64>>)
    ensures
        r == symbol_at(
            image@,
            sym_off as int,
            sym_size as int,
            entsize as int,
            strtab@,
            name@,
            0,
        ),
{
    if entsize == 0 {
        return Some(None);
    }
    let mut s: u128 = 0;
    while s < sym_size as u128
        invariant
            s <= 0x2_0000_0000_0000_0000,
            entsize > 0,
            symbol_at(
                image@,
                sym_off as int,
                sym_size as int,
                entsize as int,
                strtab@,
                name@,
                0,
            ) == symbol_at(
                image@,
                sym_off as int,
                sym_size as int,
                entsize as int,
                strtab@,
                name@,
                s as int,
            ),
        decreases 0x2_0000_0000_0000_0000 - s,
    {
        let at: u128 = sym_off as u128 + s;
        let (st_name, st_value): (u64, u64) = match (
            read_field(image, at, 4),
            read_field(image, at + 8, 8),
        ) {
            (Some(a), Some(b)) => (a, b),
            _ => return None,
        };
        if st_name > strtab.len() as u64 {
            proof {
                reveal_with_fuel(terminator, 2);
            }
            return None;
        }
        match string_is(strtab, st_name as usize, name) {
            None => return None,
            Some(true) => return Some(Some(st_value)),
            Some(false) => (),
        }
        s = s + entsize as u128;
    }
    Some(None)
}

fn find_in_section(image: &[u8], shoff: u64, shentsize: u64, sh: u128, name: &[u8]) -> (r: Option<
    Option<u64>,
>)
    requires
        sh <= 0x2_0000_0000_0000_0000,
        shentsize < 0x1_0000,
    ensures
        r == symbol_in(image@, shoff as int, shentsize as int, sh as int, name@),
{
    let (sym_off, sym_size, entsize, link): (u64, u64, u64, u64) = match (
        read_field(image, sh + 24, 8),
        read_field(image, sh + 32, 8),
        read_field(image, sh + 56, 8),
        read_field(image, sh + 40, 4),
    ) {
        (Some(a), Some(b), Some(c), Some(d)) => (a, b, c, d),
        _ => return None,
    };
    let str_sh: u128 = entry_offset(shoff, link, shentsize);
    let (str_off, str_size): (u64, u64) = match (
        read_field(image, str_sh + 24, 8),
        read_field(image, str_sh + 32, 8),
    ) {
        (Some(a), Some(b)) => (a, b),
        _ => return None,
    };
    if str_off as u128 + str_size as u128 > image.len() as u128 {
        return None;
    }
    let strtab = vstd::slice::slice_subrange(
        image,
        str_off as usize,
        (str_off + str_size) as usize,
    );
    find_in_table(image, sym_off, sym_size, entsize, strtab, name)
}

/// Look up a symbol (e.g. "tohost") in the symtab; returns its value.
pub fn find_symbol(image: &[u8], name: &str) -> (r: Option<u64>)
    ensures
        r == symbol_of(image@, vstd::utf8::encode_utf8(name@)),
{
    if check_header(image).is_err() {
        return None;
    }
    let name_bytes = name.as_bytes();
    let shoff: u64 = header_field(image, 40, 8);
    let shentsize: u64 = header_field(image, 58, 2);
    let shnum: u64 = header_field(image, 60, 2);
    let ghost whole = symbol_from(
        image@,
        shoff as int,
        shentsize as int,
        name_bytes@,
        0,
        shnum as int,
    );
    let mut i: u64 = 0;
    while i < shnum
        invariant
            i <= shnum < 0x1_0000,
            shentsize < 0x1_0000,
            whole == symbol_from(
                image@,
                shoff as int,
                shentsize as int,
                name_bytes@,
                i as int,
                shnum as int,
            ),
            whole == symbol_of(image@, vstd::utf8::encode_utf8(name@)),
        decreases shnum - i,
    {
        let sh: u128 = entry_offset(shoff, i, shentsize);
        let kind: u64 = match read_field(image, sh + 4, 4) {
            Some(v) => v,
            None => return None,
        };
        if kind == SHT_SYMTAB {
            match find_in_section(image, shoff, shentsize, sh, name_bytes) {
                None => return None,
                Some(Some(v)) => return Some(v),
                Some(None) => (),
            }
        }
        i += 1;
    }
    None
}

} // verus!
