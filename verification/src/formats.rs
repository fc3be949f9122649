//! Where things stand in the files of a snapshot: the manifests and the state
//! of a processor, byte by byte.

use vstd::prelude::*;
use vstd::utf8::encode_utf8;

use crate::hvf::{list_encoded, numbers_encoded, pairs_encoded, state_encoded, VcpuNumbers};
use crate::images::{dword, half, lemma_field, word};
use crate::manifest::{
    fork_encoded, fork_region_encoded, fork_regions_encoded, guardian_encoded, guardian_region_ok,
    guardian_valid, portable_encoded, portable_layout, portable_region_ok, regions_encoded,
    total_len, ForkRegion, Guardian, MemoryRegionDesc,
};
use crate::mem::{le_bytes, le_bytes_len, le_value_of_le_bytes, lemma_pow256_values, pow256};

verus! {

/// A number that is written stands where it was written.
proof fn lemma_dword(a: Seq<u8>, v: nat, b: Seq<u8>)
    requires
        v < 0x1_0000_0000_0000_0000,
    ensures
        dword(a + le_bytes(v, 8) + b, a.len() as int) == v,
        le_bytes(v, 8).len() == 8,
{
    lemma_pow256_values();
    le_value_of_le_bytes(v, 8);
    let s = a + le_bytes(v, 8) + b;
    lemma_field(s, a.len() as int);
    assert(s.subrange(a.len() as int, a.len() as int + 8) =~= le_bytes(v, 8));
}

proof fn lemma_word(a: Seq<u8>, v: nat, b: Seq<u8>)
    requires
        v < 0x1_0000_0000,
    ensures
        word(a + le_bytes(v, 4) + b, a.len() as int) == v,
        le_bytes(v, 4).len() == 4,
{
    lemma_pow256_values();
    le_value_of_le_bytes(v, 4);
    let s = a + le_bytes(v, 4) + b;
    lemma_field(s, a.len() as int);
    assert(s.subrange(a.len() as int, a.len() as int + 4) =~= le_bytes(v, 4));
}

/// What stands at a place does not depend on what stands before it.
proof fn lemma_shifted(a: Seq<u8>, b: Seq<u8>, at: int)
    requires
        0 <= at,
    ensures
        at + 4 <= b.len() ==> word(a + b, a.len() + at) == word(b, at),
        at + 8 <= b.len() ==> dword(a + b, a.len() + at) == dword(b, at),
{
    reveal(half);
    reveal(word);
    reveal(dword);
    let s = a + b;
    assert(forall|i: int| 0 <= i < b.len() ==> s[a.len() + i] == b[i]);
    if at + 4 <= b.len() {
        assert(s[a.len() + at] == b[at] && s[a.len() + at + 1] == b[at + 1]);
        assert(s[a.len() + at + 2] == b[at + 2] && s[a.len() + at + 3] == b[at + 3]);
    }
    if at + 8 <= b.len() {
        assert(s[a.len() + at + 4] == b[at + 4] && s[a.len() + at + 5] == b[at + 5]);
        assert(s[a.len() + at + 6] == b[at + 6] && s[a.len() + at + 7] == b[at + 7]);
    }
}

/// What stands at a place does not depend on what stands behind it.
proof fn lemma_before(a: Seq<u8>, b: Seq<u8>, at: int)
    requires
        0 <= at,
    ensures
        at + 4 <= a.len() ==> word(a + b, at) == word(a, at),
        at + 8 <= a.len() ==> dword(a + b, at) == dword(a, at),
{
    reveal(half);
    reveal(word);
    reveal(dword);
    let s = a + b;
    assert(forall|i: int| 0 <= i < a.len() ==> s[i] == a[i]);
}

/// A list of regions is an address and a length for each, eight bytes each, in
/// their order.
pub proof fn regions_stand_in_order(s: Seq<MemoryRegionDesc>, i: int)
    ensures
        regions_encoded(s).len() == 16 * s.len(),
        0 <= i < s.len() ==> dword(regions_encoded(s), 16 * i) == s[i].gpa && dword(
            regions_encoded(s),
            16 * i + 8,
        ) == s[i].len,
    decreases s.len(),
{
    if s.len() > 0 {
        let rest = regions_encoded(s.drop_first());
        let (g, l) = (le_bytes(s[0].gpa as nat, 8), le_bytes(s[0].len as nat, 8));
        let b = g + l + rest;
        le_bytes_len(s[0].gpa as nat, 8);
        le_bytes_len(s[0].len as nat, 8);
        regions_stand_in_order(s.drop_first(), i - 1);
        if i == 0 {
            lemma_dword(Seq::empty(), s[0].gpa as nat, l + rest);
            assert(Seq::<u8>::empty() + g + (l + rest) =~= b);
            lemma_dword(g, s[0].len as nat, rest);
        } else if 0 < i < s.len() {
            lemma_shifted(g + l, rest, 16 * (i - 1));
            lemma_shifted(g + l, rest, 16 * (i - 1) + 8);
            assert(s.drop_first()[i - 1] == s[i]);
        }
    }
}

/// A portable manifest: its mark, its version, how many regions it has, and the
/// regions.
pub proof fn portable_manifests_are_laid_out(s: Seq<MemoryRegionDesc>, i: int)
    requires
        s.len() < 0x1_0000_0000,
        0 <= i < s.len(),
    ensures
        ({
            let b = portable_encoded(s);
            &&& b.len() == 16 + 16 * s.len()
            &&& dword(b, 0) == 0x534d_4f4c_504f_5254
            &&& word(b, 8) == 1
            &&& word(b, 12) == s.len()
            &&& dword(b, 16 + 16 * i) == s[i].gpa
            &&& dword(b, 24 + 16 * i) == s[i].len
        }),
{
    let b = portable_encoded(s);
    let m = le_bytes(0x534d_4f4c_504f_5254nat, 8);
    let v = le_bytes(1nat, 4);
    let n = le_bytes(s.len(), 4);
    let r = regions_encoded(s);
    lemma_dword(Seq::empty(), 0x534d_4f4c_504f_5254nat, v + (n + r));
    assert(Seq::<u8>::empty() + m + (v + (n + r)) =~= b);
    lemma_word(m, 1, n + r);
    assert(m + v + (n + r) =~= b);
    lemma_word(m + v, s.len(), r);
    assert(m + v + n + r =~= b);
    regions_stand_in_order(s, i);
    lemma_shifted(m + v + n, r, 16 * i);
    lemma_shifted(m + v + n, r, 16 * i + 8);
}

/// What a portable manifest may hold: regions that are not empty, do not reach
/// the end of the address space, and follow one another without overlap; they
/// can be counted together.
pub proof fn portable_regions_follow_one_another(s: Seq<MemoryRegionDesc>, i: int, j: int)
    requires
        portable_layout(s),
        0 <= i < j < s.len(),
    ensures
        s.len() <= 4096,
        0 < s[i].len,
        0 < s[j].len,
        s[j].gpa + s[j].len < 0x1_0000_0000_0000_0000,
        s[i].gpa + s[i].len <= s[j].gpa,
        total_len(s.take(j)) + s[j].len < 0x1_0000_0000_0000_0000,
    decreases j - i,
{
    assert(portable_region_ok(s, i));
    assert(portable_region_ok(s, j));
    assert(s.subrange(0, j).last() == s[j - 1]);
    assert(s.take(j) =~= s.subrange(0, j));
    if i < j - 1 {
        portable_regions_follow_one_another(s, i, j - 1);
    }
}

/// The length of several regions is the sum of their lengths.
pub proof fn lengths_add_up(s: Seq<MemoryRegionDesc>, r: MemoryRegionDesc)
    ensures
        total_len(Seq::empty()) == 0,
        total_len(s.push(r)) == total_len(s) + r.len,
{
    assert(s.push(r).drop_last() =~= s);
}

/// A region of a clone: its address and length, the descriptor as a signed
/// word, its place in the file, and its path with its length before it.
#[verifier::rlimit(50)]
pub proof fn clone_regions_are_laid_out(d: ForkRegion)
    requires
        encode_utf8(d.path).len() < 0x1_0000_0000,
    ensures
        ({
            let b = fork_region_encoded(d);
            let path = encode_utf8(d.path);
            &&& b.len() == 32 + path.len()
            &&& dword(b, 0) == d.gpa
            &&& dword(b, 8) == d.len
            &&& word(b, 16) == (if d.fd < 0 {
                d.fd + 0x1_0000_0000
            } else {
                d.fd as int
            })
            &&& dword(b, 20) == d.offset
            &&& word(b, 28) == path.len()
            &&& b.skip(32) == path
        }),
{
    let b = fork_region_encoded(d);
    let path = encode_utf8(d.path);
    let fd: nat = crate::manifest::word_of(d.fd);
    let (p1, p2, p3, p4, p5) = (
        le_bytes(d.gpa as nat, 8),
        le_bytes(d.len as nat, 8),
        le_bytes(fd, 4),
        le_bytes(d.offset as nat, 8),
        le_bytes(path.len(), 4),
    );
    reveal(fork_region_encoded);
    le_bytes_len(d.gpa as nat, 8);
    le_bytes_len(d.len as nat, 8);
    le_bytes_len(fd, 4);
    le_bytes_len(d.offset as nat, 8);
    le_bytes_len(path.len(), 4);
    assert(b == p1 + (p2 + (p3 + (p4 + (p5 + path)))));
    lemma_dword(Seq::empty(), d.gpa as nat, p2 + (p3 + (p4 + (p5 + path))));
    assert(Seq::<u8>::empty() + p1 + (p2 + (p3 + (p4 + (p5 + path)))) =~= b);
    lemma_dword(p1, d.len as nat, p3 + (p4 + (p5 + path)));
    assert(p1 + p2 + (p3 + (p4 + (p5 + path))) =~= b);
    lemma_word(p1 + p2, fd, p4 + (p5 + path));
    assert(p1 + p2 + p3 + (p4 + (p5 + path)) =~= b);
    lemma_dword(p1 + p2 + p3, d.offset as nat, p5 + path);
    assert(p1 + p2 + p3 + p4 + (p5 + path) =~= b);
    lemma_word(p1 + p2 + p3 + p4, path.len(), path);
    assert(p1 + p2 + p3 + p4 + p5 + path =~= b);
    assert(b.skip(32) =~= path);
}

/// The manifest of a clone: its mark, the process that owns the memory, how
/// many regions there are, and the regions one after the other.
pub proof fn clone_manifests_are_laid_out(pid: i32, first: ForkRegion, rest: Seq<ForkRegion>)
    requires
        rest.len() + 1 < 0x1_0000_0000,
    ensures
        ({
            let s = seq![first] + rest;
            let b = fork_encoded(pid, s);
            &&& dword(b, 0) == 0x534d_4f4c_464f_524b
            &&& word(b, 8) == (if pid < 0 {
                pid + 0x1_0000_0000
            } else {
                pid as int
            })
            &&& word(b, 12) == s.len()
            &&& b.skip(16) == fork_region_encoded(first) + fork_regions_encoded(rest)
        }),
        fork_regions_encoded(Seq::empty()).len() == 0,
{
    let s = seq![first] + rest;
    let b = fork_encoded(pid, s);
    let p: nat = crate::manifest::word_of(pid);
    let m = le_bytes(0x534d_4f4c_464f_524bnat, 8);
    let w = le_bytes(p, 4);
    let n = le_bytes(s.len(), 4);
    let r = fork_regions_encoded(s);
    lemma_dword(Seq::empty(), 0x534d_4f4c_464f_524bnat, w + (n + r));
    assert(Seq::<u8>::empty() + m + (w + (n + r)) =~= b);
    lemma_word(m, p, n + r);
    assert(m + w + (n + r) =~= b);
    lemma_word(m + w, s.len(), r);
    assert(m + w + n + r =~= b);
    assert(b.skip(16) =~= r);
    assert(s.drop_first() =~= rest);
}

/// A guardian's manifest: its mark and version, no flags, the process and when
/// it was started, how long its socket's path is and how many regions there
/// are, the token, the path, and the regions.
#[verifier::rlimit(50)]
pub proof fn guardian_manifests_are_laid_out(g: Guardian, i: int)
    requires
        guardian_valid(g),
        0 <= i < g.regions.len(),
    ensures
        ({
            let b = guardian_encoded(g);
            let n = g.socket.len() as int;
            &&& b.len() == 72 + n + 16 * g.regions.len()
            &&& dword(b, 0) == 0x534d_4f4c_4752_444e
            &&& word(b, 8) == 1
            &&& word(b, 12) == 0
            &&& word(b, 16) == g.pid
            &&& word(b, 20) == 0
            &&& dword(b, 24) == g.start_time
            &&& word(b, 32) == n
            &&& word(b, 36) == g.regions.len()
            &&& b.subrange(40, 72) == g.token
            &&& b.subrange(72, 72 + n) == g.socket
            &&& dword(b, 72 + n + 16 * i) == g.regions[i].gpa
            &&& dword(b, 80 + n + 16 * i) == g.regions[i].len
        }),
{
    let b = guardian_encoded(g);
    let pid: nat = crate::manifest::word_of(g.pid);
    let m = le_bytes(0x534d_4f4c_4752_444enat, 8);
    let v = le_bytes(1nat, 4);
    let z = le_bytes(0nat, 4);
    let p = le_bytes(pid, 4);
    let t = le_bytes(g.start_time as nat, 8);
    let k = le_bytes(g.socket.len(), 4);
    let c = le_bytes(g.regions.len(), 4);
    let r = regions_encoded(g.regions);
    let tail = g.token + (g.socket + r);
    lemma_dword(Seq::empty(), 0x534d_4f4c_4752_444enat, v + (z + (p + (z + (t + (k + (c + tail)))))));
    assert(Seq::<u8>::empty() + m + (v + (z + (p + (z + (t + (k + (c + tail))))))) =~= b);
    lemma_word(m, 1, z + (p + (z + (t + (k + (c + tail))))));
    assert(m + v + (z + (p + (z + (t + (k + (c + tail)))))) =~= b);
    let h2 = m + v;
    lemma_word(h2, 0, p + (z + (t + (k + (c + tail)))));
    assert(h2 + z + (p + (z + (t + (k + (c + tail))))) =~= b);
    let h3 = h2 + z;
    lemma_word(h3, pid, z + (t + (k + (c + tail))));
    assert(h3 + p + (z + (t + (k + (c + tail)))) =~= b);
    let h4 = h3 + p;
    lemma_word(h4, 0, t + (k + (c + tail)));
    assert(h4 + z + (t + (k + (c + tail))) =~= b);
    let h5 = h4 + z;
    lemma_dword(h5, g.start_time as nat, k + (c + tail));
    assert(h5 + t + (k + (c + tail)) =~= b);
    let h6 = h5 + t;
    lemma_word(h6, g.socket.len(), c + tail);
    assert(h6 + k + (c + tail) =~= b);
    let h7 = h6 + k;
    lemma_word(h7, g.regions.len(), tail);
    assert(h7 + c + tail =~= b);
    let h8 = h7 + c;
    regions_stand_in_order(g.regions, i);
    assert(b.subrange(40, 72) =~= g.token);
    assert(b.subrange(72, 72 + g.socket.len() as int) =~= g.socket);
    let front = h8 + g.token + g.socket;
    assert(front + r =~= b);
    lemma_shifted(front, r, 16 * i);
    lemma_shifted(front, r, 16 * i + 8);
}

/// What a guardian serves: whole pages, in regions that follow one another.
pub proof fn guardian_regions_follow_one_another(g: Guardian, i: int, j: int)
    requires
        guardian_valid(g),
        0 <= i < j < g.regions.len(),
    ensures
        g.regions[i].len > 0 && g.regions[i].len % 4096 == 0,
        g.regions[j].len > 0 && g.regions[j].len % 4096 == 0,
        g.regions[j].gpa + g.regions[j].len < 0x1_0000_0000_0000_0000,
        g.regions[i].gpa + g.regions[i].len <= g.regions[j].gpa,
        0 < g.socket.len() <= 100 && g.socket[0] == 0x2f,
        g.regions.len() <= 256,
    decreases j - i,
{
    let s = g.regions;
    assert(guardian_region_ok(s, i));
    assert(guardian_region_ok(s, j));
    assert(s.subrange(0, j).last() == s[j - 1]);
    if i < j - 1 {
        guardian_regions_follow_one_another(g, i, j - 1);
    }
}

/// Numbers of eight bytes stand one after the other.
proof fn lemma_numbers(s: Seq<nat>, i: int)
    requires
        forall|k: int| 0 <= k < s.len() ==> #[trigger] s[k] < pow256(8),
    ensures
        numbers_encoded(s, 8).len() == 8 * s.len(),
        0 <= i < s.len() ==> dword(numbers_encoded(s, 8), 8 * i) == s[i],
    decreases s.len(),
{
    if s.len() > 0 {
        lemma_pow256_values();
        let rest = numbers_encoded(s.drop_first(), 8);
        let h = le_bytes(s[0], 8);
        le_bytes_len(s[0], 8);
        assert forall|k: int| 0 <= k < s.drop_first().len() implies #[trigger] s.drop_first()[k]
            < pow256(8) by {
            assert(s.drop_first()[k] == s[k + 1]);
        }
        lemma_numbers(s.drop_first(), i - 1);
        if i == 0 {
            lemma_dword(Seq::empty(), s[0], rest);
            assert(Seq::<u8>::empty() + h + rest =~= h + rest);
        } else if 0 < i < s.len() {
            lemma_shifted(h, rest, 8 * (i - 1));
            assert(s.drop_first()[i - 1] == s[i]);
        }
    }
}

proof fn lemma_wide_len(s: Seq<nat>)
    ensures
        numbers_encoded(s, 16).len() == 16 * s.len(),
    decreases s.len(),
{
    if s.len() > 0 {
        le_bytes_len(s[0], 16);
        lemma_wide_len(s.drop_first());
    }
}

/// The state of a processor: its general registers, program counter and status
/// words first, eight bytes each, then the vector registers, sixteen bytes
/// each, then how many system registers follow.
pub proof fn processor_states_are_laid_out(m: VcpuNumbers, i: int)
    requires
        m.wf(),
        0 <= i < 35,
    ensures
        ({
            let b = state_encoded(m);
            &&& dword(b, 8 * i) == m.words[i]
            &&& word(b, 792) == m.sys.len()
            &&& b.subrange(280, 792) == numbers_encoded(m.simd, 16)
        }),
{
    let b = state_encoded(m);
    let words = numbers_encoded(m.words, 8);
    let simd = numbers_encoded(m.simd, 16);
    let rest = list_encoded(m.gic_redist, 4) + (list_encoded(m.gic_icc, 4) + le_bytes(
        m.vtimer_offset,
        8,
    ));
    lemma_pow256_values();
    lemma_numbers(m.words, i);
    lemma_wide_len(m.simd);
    lemma_before(words, simd + (list_encoded(m.sys, 2) + rest), 8 * i);
    let front = words + simd;
    let n = le_bytes(m.sys.len(), 4);
    let p = pairs_encoded(m.sys, 2);
    lemma_word(front, m.sys.len(), p + rest);
    assert(front + n + (p + rest) =~= b);
    assert(b.subrange(280, 792) =~= simd);
}

} // verus!
