//! What an executable's headers promise: which bytes of memory hold what once
//! it has been loaded, and which symbol a name stands for. Header fields are
//! read byte by byte, lowest byte first.

use vstd::prelude::*;

use crate::elf::{
    c_string, field, header_fault, image_loaded, segment_loaded, segments_loaded, symbol_at,
    symbol_from, symbol_in, symbol_of, terminator, ElfError,
};
use crate::mem::le_value;

verus! {

#[verifier::opaque]
pub open spec fn half(image: Seq<u8>, at: int) -> int {
    image[at] + 0x100 * image[at + 1]
}

#[verifier::opaque]
pub open spec fn word(image: Seq<u8>, at: int) -> int {
    half(image, at) + 0x1_0000 * half(image, at + 2)
}

#[verifier::opaque]
pub open spec fn dword(image: Seq<u8>, at: int) -> int {
    word(image, at) + 0x1_0000_0000 * word(image, at + 4)
}

proof fn lemma_le_step(image: Seq<u8>, a: int, b: int)
    requires
        0 <= a < b <= image.len(),
    ensures
        le_value(image.subrange(a, b)) == image[a] + 256 * le_value(image.subrange(a + 1, b)),
{
    assert(image.subrange(a, b).drop_first() =~= image.subrange(a + 1, b));
}

proof fn lemma_le_half(image: Seq<u8>, a: int, b: int)
    requires
        0 <= a,
        a + 2 <= b <= image.len(),
    ensures
        le_value(image.subrange(a, b)) == half(image, a) + 0x1_0000 * le_value(
            image.subrange(a + 2, b),
        ),
{
    reveal(half);
    lemma_le_step(image, a, b);
    lemma_le_step(image, a + 1, b);
}

/// A header field is the number that its bytes spell.
pub proof fn lemma_field(image: Seq<u8>, at: int)
    ensures
        0 <= at && at + 2 <= image.len() ==> field(image, at, 2) == Some(half(image, at) as u64)
            && 0 <= half(image, at) < 0x1_0000,
        0 <= at && at + 4 <= image.len() ==> field(image, at, 4) == Some(word(image, at) as u64)
            && 0 <= word(image, at) < 0x1_0000_0000,
        0 <= at && at + 8 <= image.len() ==> field(image, at, 8) == Some(dword(image, at) as u64)
            && 0 <= dword(image, at) < 0x1_0000_0000_0000_0000,
        at < 0 || at + 2 > image.len() ==> field(image, at, 2) is None,
        at < 0 || at + 4 > image.len() ==> field(image, at, 4) is None,
        at < 0 || at + 8 > image.len() ==> field(image, at, 8) is None,
{
    reveal(half);
    reveal(word);
    reveal(dword);
    if 0 <= at && at + 2 <= image.len() {
        lemma_le_half(image, at, at + 2);
        assert(image.subrange(at + 2, at + 2).len() == 0);
    }
    if 0 <= at && at + 4 <= image.len() {
        lemma_le_half(image, at, at + 4);
        lemma_le_half(image, at + 2, at + 4);
        assert(image.subrange(at + 4, at + 4).len() == 0);
    }
    if 0 <= at && at + 8 <= image.len() {
        lemma_le_half(image, at, at + 8);
        lemma_le_half(image, at + 2, at + 8);
        lemma_le_half(image, at + 4, at + 8);
        lemma_le_half(image, at + 6, at + 8);
        assert(image.subrange(at + 8, at + 8).len() == 0);
    }
}

/// How many program headers the image has.
pub open spec fn segments(image: Seq<u8>) -> int {
    half(image, 56)
}

/// Where a program header stands.
pub open spec fn header_at(image: Seq<u8>, i: int) -> int {
    dword(image, 32) + i * half(image, 54)
}

/// Whether a program header asks for its segment to be loaded.
pub open spec fn loadable(image: Seq<u8>, i: int) -> bool {
    word(image, header_at(image, i)) == 1
}

/// Where a segment's bytes stand in the image.
pub open spec fn source(image: Seq<u8>, i: int) -> int {
    dword(image, header_at(image, i) + 8)
}

/// The address that a segment is loaded to.
pub open spec fn target(image: Seq<u8>, i: int) -> int {
    dword(image, header_at(image, i) + 24)
}

/// How many bytes of a segment the image holds.
pub open spec fn stored_size(image: Seq<u8>, i: int) -> int {
    dword(image, header_at(image, i) + 32)
}

/// How many bytes of memory a segment takes.
pub open spec fn memory_size(image: Seq<u8>, i: int) -> int {
    dword(image, header_at(image, i) + 40)
}

/// Whether a segment sets the byte at an address.
pub open spec fn sets(image: Seq<u8>, i: int, addr: int) -> bool {
    &&& loadable(image, i)
    &&& target(image, i) <= addr
    &&& addr < target(image, i) + stored_size(image, i) || addr < target(image, i) + memory_size(
        image,
        i,
    )
}

/// The byte that a segment puts at an address that it sets.
pub open spec fn byte_set(image: Seq<u8>, i: int, addr: int) -> u8 {
    if addr < target(image, i) + stored_size(image, i) {
        image[source(image, i) + addr - target(image, i)]
    } else {
        0
    }
}

/// Whether a segment's headers and bytes lie in the image.
pub open spec fn whole(image: Seq<u8>, i: int) -> bool {
    &&& header_at(image, i) + 4 <= image.len()
    &&& loadable(image, i) ==> header_at(image, i) + 48 <= image.len() && source(image, i)
        + stored_size(image, i) <= image.len()
}

/// Whether the memory that a segment takes lies in RAM.
pub open spec fn fits(image: Seq<u8>, i: int, base: u64, len: nat) -> bool {
    loadable(image, i) ==> {
        &&& base <= target(image, i)
        &&& target(image, i) + stored_size(image, i) <= base + len
        &&& memory_size(image, i) > stored_size(image, i) ==> target(image, i) + memory_size(
            image,
            i,
        ) <= base + len && target(image, i) + stored_size(image, i) < 0x1_0000_0000_0000_0000
    }
}

/// One segment.
#[verifier::rlimit(50)]
proof fn lemma_segment(image: Seq<u8>, base: u64, ram: Seq<u8>, i: int)
    requires
        image.len() >= 64,
        image.len() < 0x1_0000_0000_0000_0000,
        0 <= i,
    ensures
        ({
            let (out, r) = segment_loaded(image, base, ram, header_at(image, i));
            &&& !whole(image, i) ==> r == Err::<(), ElfError>(ElfError::Truncated)
            &&& whole(image, i) && !fits(image, i, base, ram.len()) ==> r == Err::<(), ElfError>(
                ElfError::OutOfRam,
            )
            &&& whole(image, i) && fits(image, i, base, ram.len()) ==> r == Ok::<(), ElfError>(())
            &&& r is Ok ==> out.len() == ram.len() && forall|k: int|
                0 <= k < ram.len() ==> #[trigger] out[k] == (if sets(image, i, base + k) {
                    byte_set(image, i, base + k)
                } else {
                    ram[k]
                })
        }),
{
    let ph = header_at(image, i);
    lemma_field(image, 32);
    lemma_field(image, 54);
    assert(ph >= 0) by (nonlinear_arith)
        requires
            ph == dword(image, 32) + i * half(image, 54),
            dword(image, 32) >= 0,
            half(image, 54) >= 0,
            i >= 0,
    ;
    lemma_field(image, ph);
    lemma_field(image, ph + 8);
    lemma_field(image, ph + 24);
    lemma_field(image, ph + 32);
    lemma_field(image, ph + 40);
}

/// The segments from the `i`th on.
#[verifier::rlimit(50)]
proof fn lemma_segments(image: Seq<u8>, base: u64, ram: Seq<u8>, i: int, n: int)
    requires
        image.len() >= 64,
        image.len() < 0x1_0000_0000_0000_0000,
        0 <= i,
    ensures
        ({
            let (out, r) = segments_loaded(
                image,
                base,
                ram,
                dword(image, 32),
                half(image, 54),
                i,
                n,
            );
            &&& r is Ok <==> forall|j: int|
                i <= j < n ==> #[trigger] whole(image, j) && fits(image, j, base, ram.len())
            &&& forall|j: int|
                i <= j < n && (forall|l: int|
                    i <= l < j ==> #[trigger] whole(image, l) && fits(image, l, base, ram.len()))
                    ==> {
                    &&& !#[trigger] whole(image, j) ==> r == Err::<(), ElfError>(
                        ElfError::Truncated,
                    )
                    &&& whole(image, j) && !fits(image, j, base, ram.len()) ==> r == Err::<
                        (),
                        ElfError,
                    >(ElfError::OutOfRam)
                }
            &&& r is Ok ==> out.len() == ram.len()
            &&& r is Ok ==> forall|k: int|
                0 <= k < ram.len() && (forall|j: int|
                    i <= j < n ==> !#[trigger] sets(image, j, base + k)) ==> #[trigger] out[k]
                    == ram[k]
            &&& r is Ok ==> forall|k: int, j: int|
                0 <= k < ram.len() && i <= j < n && #[trigger] sets(image, j, base + k) && (forall|
                    l: int,
                |
                    j < l < n ==> !#[trigger] sets(image, l, base + k)) ==> #[trigger] out[k]
                    == byte_set(image, j, base + k)
        }),
    decreases n - i,
{
    if i < n {
        lemma_segment(image, base, ram, i);
        let (ram1, r1) = segment_loaded(image, base, ram, header_at(image, i));
        assert(dword(image, 32) + i * half(image, 54) == header_at(image, i));
        assert(whole(image, i) && fits(image, i, base, ram.len()) <==> r1 is Ok);
        if r1 is Ok {
            lemma_segments(image, base, ram1, i + 1, n);
            let (out, r) = segments_loaded(
                image,
                base,
                ram,
                dword(image, 32),
                half(image, 54),
                i,
                n,
            );
            if r is Ok {
                assert forall|k: int|
                    0 <= k < ram.len() && (forall|j: int|
                        i <= j < n ==> !#[trigger] sets(image, j, base + k)) implies #[trigger] out[k]
                    == ram[k] by {
                    assert(!sets(image, i, base + k));
                }
                assert forall|k: int, j: int|
                    0 <= k < ram.len() && i <= j < n && #[trigger] sets(image, j, base + k) && (
                    forall|l: int| j < l < n ==> !#[trigger] sets(image, l, base + k)) implies
                    #[trigger] out[k] == byte_set(image, j, base + k) by {
                    if j == i {
                        assert(out[k] == ram1[k]);
                    }
                }
            }
        }
    }
}

/// Loading puts every segment at its own address: a byte of memory holds what
/// the last segment that sets it puts there, out of the image or a zero, and a
/// byte that no segment sets is as it was. The entry point is the one in the
/// header.
pub proof fn segments_land_at_their_addresses(image: Seq<u8>, base: u64, ram: Seq<u8>)
    requires
        image.len() < 0x1_0000_0000_0000_0000,
        image_loaded(image, base, ram).1 is Ok,
    ensures
        ({
            let (out, r) = image_loaded(image, base, ram);
            &&& r == Ok::<u64, ElfError>(dword(image, 24) as u64)
            &&& out.len() == ram.len()
            &&& forall|k: int|
                0 <= k < ram.len() && (forall|i: int|
                    0 <= i < segments(image) ==> !#[trigger] sets(image, i, base + k))
                    ==> #[trigger] out[k] == ram[k]
            &&& forall|k: int, i: int|
                0 <= k < ram.len() && 0 <= i < segments(image) && #[trigger] sets(
                    image,
                    i,
                    base + k,
                ) && (forall|j: int| i < j < segments(image) ==> !#[trigger] sets(image, j, base + k))
                    ==> #[trigger] out[k] == byte_set(image, i, base + k)
        }),
{
    lemma_field(image, 24);
    lemma_field(image, 32);
    lemma_field(image, 54);
    lemma_field(image, 56);
    lemma_segments(image, base, ram, 0, segments(image));
}

/// An image loads exactly where its first bytes are those of a 64-bit
/// little-endian ELF file and all its segments are whole and fit in RAM; the
/// first segment that is not or does not tells why not.
pub proof fn images_load_where_they_fit(image: Seq<u8>, base: u64, ram: Seq<u8>)
    requires
        image.len() < 0x1_0000_0000_0000_0000,
    ensures
        ({
            let r = image_loaded(image, base, ram).1;
            let magic = image.len() >= 64 && image.take(4) == seq![0x7fu8, 0x45, 0x4c, 0x46];
            let known = magic && image[4] == 2 && image[5] == 1;
            &&& r is Ok <==> known && forall|i: int|
                0 <= i < segments(image) ==> #[trigger] whole(image, i) && fits(
                    image,
                    i,
                    base,
                    ram.len(),
                )
            &&& image.len() < 64 ==> r == Err::<u64, ElfError>(ElfError::Truncated)
            &&& image.len() >= 64 && !magic ==> r == Err::<u64, ElfError>(ElfError::BadMagic)
            &&& magic && !known ==> r == Err::<u64, ElfError>(ElfError::Unsupported)
            &&& known ==> forall|i: int|
                0 <= i < segments(image) && (forall|j: int|
                    0 <= j < i ==> #[trigger] whole(image, j) && fits(image, j, base, ram.len()))
                    ==> {
                    &&& !#[trigger] whole(image, i) ==> r == Err::<u64, ElfError>(
                        ElfError::Truncated,
                    )
                    &&& whole(image, i) && !fits(image, i, base, ram.len()) ==> r == Err::<
                        u64,
                        ElfError,
                    >(ElfError::OutOfRam)
                }
        }),
{
    if image.len() >= 64 {
        let m = seq![0x7fu8, 0x45, 0x4c, 0x46];
        assert(image.take(4)[0] == image[0] && image.take(4)[1] == image[1] && image.take(4)[2]
            == image[2] && image.take(4)[3] == image[3]);
        assert(image.take(4) =~= m <==> image[0] == 0x7f && image[1] == 0x45 && image[2] == 0x4c
            && image[3] == 0x46) by {
            if image.take(4) =~= m {
                assert(image.take(4)[0] == m[0]);
            }
        }
        lemma_field(image, 24);
        lemma_field(image, 32);
        lemma_field(image, 54);
        lemma_field(image, 56);
        lemma_segments(image, base, ram, 0, segments(image));
    }
}

/// How many section headers the image has.
pub open spec fn sections(image: Seq<u8>) -> int {
    half(image, 60)
}

/// Where a section header stands.
pub open spec fn section_at(image: Seq<u8>, i: int) -> int {
    dword(image, 40) + i * half(image, 58)
}

/// Whether a section holds symbols.
pub open spec fn holds_symbols(image: Seq<u8>, i: int) -> bool {
    word(image, section_at(image, i) + 4) == 2
}

/// Whether a section header can be read and is that of another kind of section.
pub open spec fn passed_over(image: Seq<u8>, i: int) -> bool {
    section_at(image, i) + 8 <= image.len() && !holds_symbols(image, i)
}

/// Where the `k`th symbol of a section stands.
pub open spec fn symbol_place(image: Seq<u8>, i: int, k: int) -> int {
    dword(image, section_at(image, i) + 24) + k * dword(image, section_at(image, i) + 56)
}

/// The section that holds the names of a section's symbols.
pub open spec fn names_of(image: Seq<u8>, i: int) -> int {
    word(image, section_at(image, i) + 40)
}

/// Where the name of the `k`th symbol of a section starts in its table.
pub open spec fn name_place(image: Seq<u8>, i: int, k: int) -> int {
    word(image, symbol_place(image, i, k))
}

/// The table of names of a section's symbols.
pub open spec fn names(image: Seq<u8>, i: int) -> Seq<u8> {
    let t = section_at(image, names_of(image, i));
    image.subrange(dword(image, t + 24), dword(image, t + 24) + dword(image, t + 32))
}

/// Whether a section's headers and its table of names lie in the image.
pub open spec fn readable(image: Seq<u8>, i: int) -> bool {
    let (sh, t) = (section_at(image, i), section_at(image, names_of(image, i)));
    &&& sh + 64 <= image.len()
    &&& t + 40 <= image.len()
    &&& dword(image, t + 24) + dword(image, t + 32) <= image.len()
    &&& dword(image, sh + 56) > 0
}

/// Whether the `k`th symbol of a section stands in the section and in the
/// image, and its name ends in the table of names.
pub open spec fn present(image: Seq<u8>, i: int, k: int) -> bool {
    &&& 0 <= k
    &&& k * dword(image, section_at(image, i) + 56) < dword(image, section_at(image, i) + 32)
    &&& symbol_place(image, i, k) + 16 <= image.len()
    &&& ends(names(image, i), name_place(image, i, k))
}

/// Whether a zero follows in a table.
pub open spec fn ends(t: Seq<u8>, at: int) -> bool {
    exists|e: int| at <= e < t.len() && #[trigger] t[e] == 0
}

/// Whether a name, ended by a zero, stands in a table.
pub open spec fn spelled(t: Seq<u8>, at: int, name: Seq<u8>) -> bool {
    &&& 0 <= at
    &&& at + name.len() < t.len()
    &&& t.subrange(at, at + name.len()) == name
    &&& t[at + name.len()] == 0
    &&& !name.contains(0)
}

/// Whether the `k`th symbol of a section bears a name.
pub open spec fn bears(image: Seq<u8>, i: int, k: int, name: Seq<u8>) -> bool {
    spelled(names(image, i), name_place(image, i, k), name)
}

/// Whether the `m`th symbol of a section is there and, before the `k`th, bears
/// another name.
pub open spec fn leads_to(image: Seq<u8>, i: int, m: int, k: int, name: Seq<u8>) -> bool {
    present(image, i, m) && (m < k ==> !bears(image, i, m, name))
}

proof fn lemma_terminator(t: Seq<u8>, at: int)
    requires
        0 <= at,
    ensures
        at <= t.len() ==> at <= terminator(t, at) <= t.len(),
        at > t.len() ==> terminator(t, at) == at,
        terminator(t, at) < t.len() ==> t[terminator(t, at)] == 0,
        forall|j: int| at <= j < terminator(t, at) && j < t.len() ==> #[trigger] t[j] != 0,
    decreases t.len() - at,
{
    if at < t.len() && t[at] != 0 {
        lemma_terminator(t, at + 1);
    }
}

/// A name is what stands before the first zero.
proof fn lemma_spelled(t: Seq<u8>, at: int, name: Seq<u8>)
    requires
        0 <= at,
    ensures
        spelled(t, at, name) <==> c_string(t, at) == Some(name),
        c_string(t, at) is Some <==> ends(t, at),
{
    lemma_terminator(t, at);
    let e = terminator(t, at);
    if e < t.len() {
        assert(t[e] == 0);
    }
    if spelled(t, at, name) {
        let z = at + name.len();
        assert(t[z] == 0);
        if e < z {
            assert(t.subrange(at, z)[e - at] == t[e]);
            assert(name.contains(0));
        }
        assert(e == z);
    }
    if c_string(t, at) == Some(name) {
        assert(t.subrange(at, at + name.len()) =~= name);
        if name.contains(0) {
            let j = choose|j: int| 0 <= j < name.len() && name[j] == 0;
            assert(t[at + j] == 0);
        }
    }
}

/// Offsets in headers are not negative.
proof fn lemma_places(image: Seq<u8>, i: int)
    requires
        image.len() >= 64,
        0 <= i,
    ensures
        section_at(image, i) >= 0,
{
    lemma_field(image, 40);
    lemma_field(image, 58);
    assert(dword(image, 40) + i * half(image, 58) >= 0) by (nonlinear_arith)
        requires
            dword(image, 40) >= 0,
            half(image, 58) >= 0,
            i >= 0,
    ;
}

/// The search of a section's symbols from the `k`th one on.
#[verifier::rlimit(50)]
proof fn lemma_symbols(image: Seq<u8>, i: int, name: Seq<u8>, k: int)
    requires
        image.len() >= 64,
        0 <= i,
        0 <= k,
        readable(image, i),
    ensures
        ({
            let sh = section_at(image, i);
            let r = symbol_at(
                image,
                dword(image, sh + 24),
                dword(image, sh + 32),
                dword(image, sh + 56),
                names(image, i),
                name,
                k * dword(image, sh + 56),
            );
            &&& r matches Some(Some(v)) ==> exists|l: int|
                k <= l && present(image, i, l) && #[trigger] bears(image, i, l, name) && v == dword(
                    image,
                    symbol_place(image, i, l) + 8,
                )
            &&& forall|l: int|
                k <= l && (forall|m: int| k <= m <= l ==> #[trigger] leads_to(image, i, m, l, name))
                && #[trigger] bears(image, i, l, name) ==> r == Some(
                    Some(dword(image, symbol_place(image, i, l) + 8) as u64),
                )
        }),
    decreases
        (if k * dword(image, section_at(image, i) + 56) < dword(image, section_at(image, i) + 32) {
            dword(image, section_at(image, i) + 32) - k * dword(image, section_at(image, i) + 56)
        } else {
            0
        }),
{
    let sh = section_at(image, i);
    lemma_places(image, i);
    lemma_field(image, sh + 24);
    lemma_field(image, sh + 32);
    lemma_field(image, sh + 56);
    let step = dword(image, sh + 56);
    let s = k * step;
    let at = symbol_place(image, i, k);
    assert((k + 1) * step == s + step) by (nonlinear_arith)
        requires
            s == k * step,
    ;
    assert(s >= 0) by (nonlinear_arith)
        requires
            s == k * step,
            k >= 0,
            step > 0,
    ;
    assert(dword(image, sh + 24) + s == at);
    if s < dword(image, sh + 32) {
        lemma_field(image, at);
        lemma_field(image, at + 8);
        if at + 16 <= image.len() {
            lemma_spelled(names(image, i), name_place(image, i, k), name);
            lemma_symbols(image, i, name, k + 1);
        }
    }
    let r = symbol_at(
        image,
        dword(image, sh + 24),
        dword(image, sh + 32),
        step,
        names(image, i),
        name,
        s,
    );
    if let Some(Some(v)) = r {
        assert(s < dword(image, sh + 32));
        assert(field(image, at, 4) is Some);
        assert(field(image, at + 8, 8) is Some);
        assert(at + 16 <= image.len());
        let t = names(image, i);
        assert(c_string(t, name_place(image, i, k)) is Some);
        let e = terminator(t, name_place(image, i, k));
        lemma_terminator(t, name_place(image, i, k));
        assert(name_place(image, i, k) <= e < t.len() && t[e] == 0);
        assert(k * dword(image, sh + 56) < dword(image, sh + 32));
        assert(present(image, i, k));
        if bears(image, i, k, name) {
            assert(v == dword(image, symbol_place(image, i, k) + 8));
        } else {
            assert(symbol_at(
                image,
                dword(image, sh + 24),
                dword(image, sh + 32),
                step,
                t,
                name,
                (k + 1) * step,
            ) == r);
        }
    }
    assert forall|l: int|
        k <= l && (forall|m: int| k <= m <= l ==> #[trigger] leads_to(image, i, m, l, name))
                && #[trigger] bears(image, i, l, name) implies r == Some(
        Some(dword(image, symbol_place(image, i, l) + 8) as u64),
    ) by {
        let t = names(image, i);
        let at_name = name_place(image, i, k);
        assert(leads_to(image, i, k, l, name));
        assert(at + 16 <= image.len());
        assert(c_string(t, at_name) is Some);
        if l > k {
            assert(!bears(image, i, k, name));
            assert(c_string(t, at_name) != Some(name));
            assert(r == symbol_at(
                image,
                dword(image, sh + 24),
                dword(image, sh + 32),
                step,
                t,
                name,
                (k + 1) * step,
            ));
            assert(forall|m: int| k + 1 <= m <= l ==> #[trigger] leads_to(image, i, m, l, name));
        } else {
            assert(c_string(t, at_name) == Some(name));
            assert(r == Some(Some(dword(image, at + 8) as u64)));
        }
    }
}

/// A symbol that is found stands in a section of symbols and bears the name
/// that was asked for, and what is given is its value.
pub proof fn found_symbols_bear_the_name(image: Seq<u8>, name: Seq<u8>)
    ensures
        symbol_of(image, name) matches Some(v) ==> exists|i: int, k: int|
            0 <= i < sections(image) && holds_symbols(image, i) && present(image, i, k)
                && #[trigger] bears(image, i, k, name) && v == dword(
                image,
                symbol_place(image, i, k) + 8,
            ),
{
    if header_fault(image) is None {
        lemma_field(image, 40);
        lemma_field(image, 58);
        lemma_field(image, 60);
        lemma_sections(image, name, 0, sections(image));
    }
}

/// The first symbol that bears a name is found in the first section of
/// symbols, where the headers before it can be read.
pub proof fn the_first_symbol_is_found(image: Seq<u8>, name: Seq<u8>, i: int, k: int)
    requires
        header_fault(image) is None,
        0 <= i < sections(image),
        forall|j: int| 0 <= j < i ==> #[trigger] passed_over(image, j),
        holds_symbols(image, i),
        readable(image, i),
        0 <= k,
        bears(image, i, k, name),
        forall|m: int| 0 <= m <= k ==> #[trigger] leads_to(image, i, m, k, name),
    ensures
        symbol_of(image, name) == Some(dword(image, symbol_place(image, i, k) + 8) as u64),
{
    lemma_field(image, 40);
    lemma_field(image, 58);
    lemma_field(image, 60);
    lemma_skipped(image, name, i, 0);
    lemma_places(image, i);
    lemma_field(image, section_at(image, i) + 4);
    lemma_symbols(image, i, name, 0);
    lemma_section(image, name, i);
    let sh = section_at(image, i);
    assert(0 * dword(image, sh + 56) == 0);
    assert(leads_to(image, i, k, k, name));
    assert(symbol_in(image, dword(image, 40), half(image, 58), sh, name) == Some(
        Some(dword(image, symbol_place(image, i, k) + 8) as u64),
    ));
    assert(field(image, sh + 4, 4) == Some(2u64));
}

/// Sections that hold no symbols are passed over.
proof fn lemma_skipped(image: Seq<u8>, name: Seq<u8>, i: int, j: int)
    requires
        image.len() >= 64,
        0 <= j <= i < sections(image),
        forall|l: int| j <= l < i ==> #[trigger] passed_over(image, l),
    ensures
        symbol_from(image, dword(image, 40), half(image, 58), name, j, sections(image))
            == symbol_from(image, dword(image, 40), half(image, 58), name, i, sections(image)),
    decreases i - j,
{
    if j < i {
        lemma_places(image, j);
        lemma_field(image, section_at(image, j) + 4);
        assert(passed_over(image, j));
        lemma_skipped(image, name, i, j + 1);
    }
}

/// What is looked up in one section.
proof fn lemma_section(image: Seq<u8>, name: Seq<u8>, i: int)
    requires
        image.len() >= 64,
        0 <= i,
    ensures
        ({
            let sh = section_at(image, i);
            let r = symbol_in(image, dword(image, 40), half(image, 58), sh, name);
            &&& r matches Some(Some(v)) ==> readable(image, i)
            &&& readable(image, i) ==> r == symbol_at(
                image,
                dword(image, sh + 24),
                dword(image, sh + 32),
                dword(image, sh + 56),
                names(image, i),
                name,
                0,
            )
        }),
{
    let sh = section_at(image, i);
    lemma_places(image, i);
    lemma_field(image, sh + 24);
    lemma_field(image, sh + 32);
    lemma_field(image, sh + 40);
    lemma_field(image, sh + 56);
    if sh + 64 <= image.len() {
        let link = names_of(image, i);
        lemma_places(image, link);
        let t = section_at(image, link);
        lemma_field(image, t + 24);
        lemma_field(image, t + 32);
    }
}

/// The sections from the `i`th on.
proof fn lemma_sections(image: Seq<u8>, name: Seq<u8>, i: int, n: int)
    requires
        image.len() >= 64,
        0 <= i,
        n == sections(image),
    ensures
        symbol_from(image, dword(image, 40), half(image, 58), name, i, n) matches Some(v) ==> exists|
            j: int,
            k: int,
        |
            i <= j < n && holds_symbols(image, j) && present(image, j, k) && #[trigger] bears(
                image,
                j,
                k,
                name,
            ) && v == dword(image, symbol_place(image, j, k) + 8),
    decreases n - i,
{
    if i < n {
        let sh = section_at(image, i);
        lemma_places(image, i);
        lemma_field(image, sh + 4);
        lemma_section(image, name, i);
        lemma_sections(image, name, i + 1, n);
        if readable(image, i) {
            lemma_symbols(image, i, name, 0);
            assert(0 * dword(image, sh + 56) == 0);
        }
    }
}

} // verus!
