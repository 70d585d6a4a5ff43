//! Minimal ELF64 program-image parsing.
//!
//! The loader needs only the entry point and the program-header table: for
//! every loadable segment its flags, file span and memory span. The headers
//! are fixed-offset little-endian fields, stated byte by byte.
use vstd::prelude::*;

verus! {

/// Segment type tag of a loadable segment.
pub const PT_LOAD: u64 = 1;

/// Executable segment flag.
pub const PF_X: u64 = 1;

/// Writable segment flag.
pub const PF_W: u64 = 2;

/// Readable segment flag.
pub const PF_R: u64 = 4;

/// Size in bytes of the ELF64 file header.
pub const EHDR_SIZE: u64 = 64;

/// Size in bytes of one ELF64 program header.
pub const PHDR_SIZE: u64 = 56;

/// A malformed program image.
#[derive(Clone, Copy, PartialEq, Eq, Structural, Debug)]
pub struct ElfError;

/// One program header, with the fields the loader reads.
#[derive(Clone, Copy, PartialEq, Eq, Structural, Debug)]
pub struct ElfSegment {
    /// Segment type tag; only `PT_LOAD` segments are loaded.
    pub p_type: u64,
    /// Read/write/execute flags.
    pub p_flags: u64,
    /// Offset of the segment's bytes in the image.
    pub p_offset: u64,
    /// Virtual address the segment is loaded at.
    pub p_vaddr: u64,
    /// Number of bytes present in the image.
    pub p_filesz: u64,
    /// Number of bytes the segment occupies in memory.
    pub p_memsz: u64,
}

/// The parsed program image: entry point and program headers.
pub struct ElfInfo {
    /// Initial program counter.
    pub entry: u64,
    /// All program headers, in table order.
    pub segments: Vec<ElfSegment>,
}

/// The little-endian integer of `n` bytes at offset `off`.
pub open spec fn read_le(bytes: Seq<u8>, off: int, n: int) -> int
    decreases n,
{
    if n <= 0 {
        0
    } else {
        bytes[off] + 256 * read_le(bytes, off + 1, n - 1)
    }
}

/// 256 to the power `n`: the number of values of an `n`-byte field.
pub open spec fn pow256(n: int) -> int
    decreases n,
{
    if n <= 0 {
        1
    } else {
        256 * pow256(n - 1)
    }
}

/// A little-endian field of `n` bytes is below 256 to the `n`.
pub proof fn lemma_read_le_bound(bytes: Seq<u8>, off: int, n: int)
    requires
        0 <= n,
        0 <= off,
        off + n <= bytes.len(),
    ensures
        0 <= read_le(bytes, off, n) < pow256(n),
    decreases n,
{
    if n > 0 {
        lemma_read_le_bound(bytes, off + 1, n - 1);
    }
}

/// Whether the image has a well-formed ELF64 little-endian header and a
/// program-header table whose entries, including their file spans, lie
/// within the image.
pub open spec fn spec_elf_wf(b: Seq<u8>) -> bool {
    &&& b.len() >= EHDR_SIZE
    &&& b[0] == 0x7f
    &&& b[1] == 0x45
    &&& b[2] == 0x4c
    &&& b[3] == 0x46
    &&& b[4] == 2
    &&& b[5] == 1
    &&& read_le(b, 54, 2) == PHDR_SIZE
    &&& read_le(b, 32, 8) + read_le(b, 56, 2) * (PHDR_SIZE as int) <= b.len()
    &&& forall|i: int|
        0 <= i < read_le(b, 56, 2) ==> #[trigger] spec_segment(b, i).p_offset + spec_segment(
            b,
            i,
        ).p_filesz <= b.len()
}

/// Program header `i` of the image, by its fixed field offsets.
pub open spec fn spec_segment(b: Seq<u8>, i: int) -> ElfSegment {
    let off = read_le(b, 32, 8) + i * (PHDR_SIZE as int);
    ElfSegment {
        p_type: read_le(b, off, 4) as u64,
        p_flags: read_le(b, off + 4, 4) as u64,
        p_offset: read_le(b, off + 8, 8) as u64,
        p_vaddr: read_le(b, off + 16, 8) as u64,
        p_filesz: read_le(b, off + 32, 8) as u64,
        p_memsz: read_le(b, off + 40, 8) as u64,
    }
}


/// Reads the little-endian integer of `n` bytes at offset `off`.
pub fn read_le_bytes(b: &[u8], off: usize, n: usize) -> (r: u64)
    requires
        n <= 8,
        off + n <= b@.len(),
    ensures
        r == read_le(b@, off as int, n as int),
{
    proof {
        reveal_with_fuel(pow256, 9);
        lemma_read_le_bound(b@, off as int, n as int);
    }
    let blen = b.len();
    let mut acc: u64 = 0;
    let mut i: usize = n;
    while i > 0
        invariant
            i <= n <= 8,
            blen == b@.len(),
            off + n <= blen,
            acc == read_le(b@, off + i, n - i),
            acc < pow256(n - i),
            pow256(8) == 0x1_0000_0000_0000_0000,
            forall|m: int| 0 <= m < 8 ==> #[trigger] pow256(m) < pow256(8),
            forall|m: int| 0 < m <= 8 ==> #[trigger] pow256(m) == 256 * pow256(m - 1),
        decreases i,
    {
        let ghost acc0 = acc;
        proof {
            lemma_read_le_bound(b@, off + i, n - i);
            assert(acc * 256 + 255 < 0x1_0000_0000_0000_0000) by {
                assert(pow256(n - i) <= pow256(7)) by {
                    lemma_pow256_ordered(n - i, 7);
                }
                assert(acc <= pow256(7) - 1);
                vstd::arithmetic::mul::lemma_mul_inequality(
                    acc as int,
                    pow256(7) - 1,
                    256,
                );
                assert((pow256(7) - 1) * 256 == pow256(8) - 256) by {
                    vstd::arithmetic::mul::lemma_mul_is_distributive_sub(256, pow256(7), 1);
                    vstd::arithmetic::mul::lemma_mul_is_commutative(256, pow256(7));
                    vstd::arithmetic::mul::lemma_mul_is_commutative(256, pow256(7) - 1);
                }
            }
        }
        let idx: usize = off + (i - 1);
        acc = acc * 256 + (b[idx] as u64);
        i = i - 1;
        proof {
            assert(acc == b@[off + i] + 256 * acc0);
            assert(acc == read_le(b@, off + i, n - i));
            lemma_read_le_bound(b@, off + i, n - i);
        }
    }
    acc
}

/// `pow256` is positive and monotone.
pub proof fn lemma_pow256_ordered(m: int, n: int)
    requires
        m <= n,
    ensures
        1 <= pow256(m) <= pow256(n),
    decreases n - m,
{
    lemma_pow256_positive(m);
    if m < n {
        lemma_pow256_ordered(m, n - 1);
        lemma_pow256_positive(n - 1);
    }
}

/// `pow256` is at least one.
pub proof fn lemma_pow256_positive(n: int)
    ensures
        pow256(n) >= 1,
    decreases n,
{
    if n > 0 {
        lemma_pow256_positive(n - 1);
    }
}



/// Parses the ELF64 header and program-header table of `b`. Succeeds exactly
/// when the image is well formed per `spec_elf_wf`, returning the entry point
/// and every program header in table order.
pub fn parse_elf(b: &[u8]) -> (r: Result<ElfInfo, ElfError>)
    ensures
        match r {
            Ok(info) => {
                &&& spec_elf_wf(b@)
                &&& info.entry == read_le(b@, 24, 8)
                &&& info.segments@.len() == read_le(b@, 56, 2)
                &&& forall|i: int|
                    0 <= i < info.segments@.len() ==> #[trigger] info.segments@[i]
                        == spec_segment(b@, i)
            },
            Err(_) => !spec_elf_wf(b@),
        },
{
    let blen = b.len();
    if blen < EHDR_SIZE as usize {
        return Err(ElfError);
    }
    if b[0] != 0x7f || b[1] != 0x45 || b[2] != 0x4c || b[3] != 0x46 {
        return Err(ElfError);
    }
    if b[4] != 2 || b[5] != 1 {
        return Err(ElfError);
    }
    let phentsize = read_le_bytes(b, 54, 2);
    if phentsize != PHDR_SIZE {
        return Err(ElfError);
    }
    let entry = read_le_bytes(b, 24, 8);
    let phoff = read_le_bytes(b, 32, 8);
    let phnum = read_le_bytes(b, 56, 2);
    proof {
        reveal_with_fuel(pow256, 9);
        lemma_read_le_bound(b@, 56, 2);
        lemma_read_le_bound(b@, 32, 8);
    }
    if phoff > blen as u64 || phnum * PHDR_SIZE > blen as u64 - phoff {
        return Err(ElfError);
    }
    let mut segments: Vec<ElfSegment> = Vec::new();
    let mut i: u64 = 0;
    while i < phnum
        invariant
            blen == b@.len(),
            blen >= EHDR_SIZE,
            phoff == read_le(b@, 32, 8),
            phnum == read_le(b@, 56, 2),
            phnum < 0x1_0000,
            phoff + phnum * PHDR_SIZE <= blen,
            i <= phnum,
            segments@.len() == i,
            forall|j: int|
                0 <= j < i ==> #[trigger] segments@[j] == spec_segment(b@, j) && spec_segment(
                    b@,
                    j,
                ).p_offset + spec_segment(b@, j).p_filesz <= blen,
        decreases phnum - i,
    {
        proof {
            assert((i as int + 1) * (PHDR_SIZE as int) <= phnum * (PHDR_SIZE as int)) by {
                vstd::arithmetic::mul::lemma_mul_inequality(
                    i as int + 1,
                    phnum as int,
                    PHDR_SIZE as int,
                );
            }
            assert(i as int * (PHDR_SIZE as int) + (PHDR_SIZE as int) == (i as int + 1) * (
            PHDR_SIZE as int)) by {
                vstd::arithmetic::mul::lemma_mul_is_distributive_add(PHDR_SIZE as int, i as int, 1);
                vstd::arithmetic::mul::lemma_mul_is_commutative(PHDR_SIZE as int, i as int);
                vstd::arithmetic::mul::lemma_mul_is_commutative(PHDR_SIZE as int, i as int + 1);
            }
        }
        let off = (phoff + i * PHDR_SIZE) as usize;
        proof {
            reveal_with_fuel(pow256, 9);
            lemma_read_le_bound(b@, off as int, 4);
            lemma_read_le_bound(b@, off + 4, 4);
            lemma_read_le_bound(b@, off + 8, 8);
            lemma_read_le_bound(b@, off + 16, 8);
            lemma_read_le_bound(b@, off + 32, 8);
            lemma_read_le_bound(b@, off + 40, 8);
        }
        let seg = ElfSegment {
            p_type: read_le_bytes(b, off, 4),
            p_flags: read_le_bytes(b, off + 4, 4),
            p_offset: read_le_bytes(b, off + 8, 8),
            p_vaddr: read_le_bytes(b, off + 16, 8),
            p_filesz: read_le_bytes(b, off + 32, 8),
            p_memsz: read_le_bytes(b, off + 40, 8),
        };
        if seg.p_offset > blen as u64 || seg.p_filesz > blen as u64 - seg.p_offset {
            proof {
                assert(seg == spec_segment(b@, i as int));
                assert(!(spec_segment(b@, i as int).p_offset + spec_segment(b@, i as int).p_filesz
                    <= b@.len()));
            }
            return Err(ElfError);
        }
        proof {
            let so = read_le(b@, 32, 8) + i as int * (PHDR_SIZE as int);
            assert(off as int == so);
            assert(seg.p_type == spec_segment(b@, i as int).p_type);
            assert(seg.p_flags == spec_segment(b@, i as int).p_flags);
            assert(seg.p_offset == spec_segment(b@, i as int).p_offset);
            assert(seg.p_vaddr == spec_segment(b@, i as int).p_vaddr);
            assert(seg.p_filesz == spec_segment(b@, i as int).p_filesz);
            assert(seg.p_memsz == spec_segment(b@, i as int).p_memsz);
            assert(seg == spec_segment(b@, i as int));
        }
        segments.push(seg);
        i = i + 1;
    }
    proof {
        assert forall|j: int| 0 <= j < phnum implies #[trigger] spec_segment(b@, j).p_offset
            + spec_segment(b@, j).p_filesz <= blen by {
            assert(segments@[j] == spec_segment(b@, j));
        }
    }
    Ok(ElfInfo { entry, segments })
}



/// How many of the first `upto` program headers are loadable.
pub open spec fn num_loads(b: Seq<u8>, upto: int) -> int
    decreases upto,
{
    if upto <= 0 {
        0
    } else {
        num_loads(b, upto - 1) + if spec_segment(b, upto - 1).p_type == PT_LOAD {
            1int
        } else {
            0int
        }
    }
}

/// The bytes the image supplies for program header `h`.
pub open spec fn seg_bytes(b: Seq<u8>, h: int) -> Seq<u8> {
    b.subrange(
        spec_segment(b, h).p_offset as int,
        spec_segment(b, h).p_offset + spec_segment(b, h).p_filesz,
    )
}

/// The load count never exceeds the header count and grows one at a time.
pub proof fn lemma_num_loads_bounds(b: Seq<u8>, upto: int)
    requires
        0 <= upto,
    ensures
        0 <= num_loads(b, upto) <= upto,
    decreases upto,
{
    if upto > 0 {
        lemma_num_loads_bounds(b, upto - 1);
    }
}


} // verus!
