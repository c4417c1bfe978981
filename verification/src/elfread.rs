//! Reading the dynamic section of an ELF image held in memory. The container
//! (header and section table) is parsed by the elfkit crate behind one
//! trusted wrapper; the dynamic entry table and the string table lookups are
//! decoded here, verified, directly from the section bytes.

use vstd::prelude::*;
use crate::textenc::utf8_lossy;
use crate::textenc::utf8_lossy_of;

verus! {

/// Dynamic tag of a needed-library entry.
pub const DT_NEEDED: u64 = 1;

/// Dynamic tag of an RPATH entry.
pub const DT_RPATH: u64 = 15;

/// Dynamic tag of a RUNPATH entry.
pub const DT_RUNPATH: u64 = 29;

/// Section type of a dynamic section.
pub const SHT_DYNAMIC: u32 = 6;

/// The kinds of dynamic entries the resolver reads.
#[derive(Debug, Clone, Copy, PartialEq, Eq, Structural)]
pub enum DynKind {
    Needed,
    RPath,
    RunPath,
}

impl View for DynKind {
    type V = DynKind;

    open spec fn view(&self) -> DynKind {
        *self
    }
}

impl DeepView for DynKind {
    type V = DynKind;

    open spec fn deep_view(&self) -> DynKind {
        *self
    }
}

/// One section of a parsed ELF image: its type, the index of the section it
/// links to (for a dynamic section, its string table), and its raw bytes.
pub struct RawSection {
    pub shtype: u32,
    pub link: u32,
    pub data: Vec<u8>,
}

impl RawSection {
    /// The mathematical value of this section.
    pub open spec fn abs(&self) -> (u32, u32, Seq<u8>) {
        (self.shtype, self.link, self.data@)
    }
}

/// The association sequence a section vector stands for.
pub open spec fn sections_abs(v: Seq<RawSection>) -> Seq<(u32, u32, Seq<u8>)> {
    v.map_values(|s: RawSection| (s.shtype, s.link, s.data@))
}

/// What parsing the ELF container of given bytes yields: whether the image
/// is 64-bit, whether it is little-endian, and the section table with each
/// section's type, link and raw content; `None` when the image is
/// malformed. The result is a function of the bytes alone.
pub uninterp spec fn elf_sections_of(b: Seq<u8>) -> Option<(bool, bool, Seq<(u32, u32, Seq<u8>)>)>;

/// Relies on elfkit's Elf::from_reader: it parses an ELF image (header,
/// segment and section tables, raw section content) from a reader, failing
/// on malformed input; the result is a function of the bytes alone. The
/// precondition excludes the inputs on which that parse would panic rather
/// than fail: a section name offset past the end of the section-name string
/// table (an unguarded slice), and a section body that does not lie within
/// the image (whose size would otherwise reach an unchecked allocation);
/// `elf_preflight` decides it in verified code before the call.
#[verifier::external_body]
fn elf_sections(bytes: &Vec<u8>) -> (r: Option<(bool, bool, Vec<RawSection>)>)
    requires
        elf_safe_spec(bytes@),
    ensures
        match r {
            Some(s) => elf_sections_of(bytes@) == Some((s.0, s.1, sections_abs(s.2@))),
            None => elf_sections_of(bytes@) is None,
        },
{
    let mut cur = std::io::Cursor::new(bytes.as_slice());
    let elf = match elfkit::Elf::from_reader(&mut cur) {
        Ok(e) => e,
        Err(_) => return None,
    };
    let class64 = matches!(elf.header.ident_class, elfkit::types::Class::Class64);
    let little = matches!(elf.header.ident_endianness, elfkit::types::Endianness::LittleEndian);
    let mut out = Vec::new();
    for s in elf.sections.iter() {
        let data = match &s.content { elfkit::SectionContent::Raw(b) => b.clone(), _ => Vec::new() };
        out.push(RawSection { shtype: s.header.shtype.to_u32(), link: s.header.link, data });
    }
    Some((class64, little, out))
}

/// 256 to the `n`.
pub open spec fn pow256(n: nat) -> nat
    decreases n,
{
    if n == 0 {
        1
    } else {
        256 * pow256((n - 1) as nat)
    }
}

proof fn lemma_pow256_mono(a: nat, b: nat)
    requires
        a <= b,
    ensures
        pow256(a) <= pow256(b),
        pow256(a) >= 1,
    decreases b,
{
    if b > 0 {
        if a == b {
            lemma_pow256_mono((a - 1) as nat, (b - 1) as nat);
        } else {
            lemma_pow256_mono(a, (b - 1) as nat);
        }
    }
}

/// The unsigned integer stored at `b[off .. off + size]`, least significant
/// byte first when `little`, most significant first otherwise.
pub open spec fn uint_at(b: Seq<u8>, off: int, size: nat, little: bool) -> nat
    decreases size,
{
    if size == 0 {
        0
    } else if little {
        (b[off] as nat) + 256 * uint_at(b, off + 1, (size - 1) as nat, little)
    } else {
        256 * uint_at(b, off, (size - 1) as nat, little) + (b[off + size - 1] as nat)
    }
}

proof fn lemma_uint_bound(b: Seq<u8>, off: int, size: nat, little: bool)
    requires
        0 <= off,
        off + size <= b.len(),
    ensures
        uint_at(b, off, size, little) < pow256(size),
    decreases size,
{
    if size > 0 {
        if little {
            lemma_uint_bound(b, off + 1, (size - 1) as nat, little);
            assert((b[off] as nat) + 256 * uint_at(b, off + 1, (size - 1) as nat, little) < 256 * pow256((size - 1) as nat)) by (nonlinear_arith)
                requires
                    uint_at(b, off + 1, (size - 1) as nat, little) < pow256((size - 1) as nat),
                    (b[off] as nat) < 256,
            ;
        } else {
            lemma_uint_bound(b, off, (size - 1) as nat, little);
            assert(256 * uint_at(b, off, (size - 1) as nat, little) + (b[off + size - 1] as nat) < 256 * pow256((size - 1) as nat)) by (nonlinear_arith)
                requires
                    uint_at(b, off, (size - 1) as nat, little) < pow256((size - 1) as nat),
                    (b[off + size - 1] as nat) < 256,
            ;
        }
    }
}

/// Reads the unsigned integer stored at `b[off .. off + size]`.
pub fn read_uint(b: &Vec<u8>, off: usize, size: usize, little: bool) -> (r: u64)
    requires
        size <= 8,
        off + size <= b@.len(),
    ensures
        r as nat == uint_at(b@, off as int, size as nat, little),
{
    let n = b.len();
    if little {
        let mut v: u64 = 0;
        let mut i: usize = size;
        while i > 0
            invariant
                0 <= i <= size <= 8,
                off + size <= n == b@.len(),
                v as nat == uint_at(b@, off + i, (size - i) as nat, true),
            decreases i,
        {
            proof {
                lemma_uint_bound(b@, off + i, (size - i) as nat, true);
                lemma_pow256_mono((size - i) as nat, 7);
                reveal_with_fuel(pow256, 9);
                assert(v < 72057594037927936);
            }
            let idx = off + i - 1;
            let byte = b[idx];
            v = v * 256 + (byte as u64);
            i = i - 1;
        }
        v
    } else {
        let mut v: u64 = 0;
        let mut i: usize = 0;
        while i < size
            invariant
                0 <= i <= size <= 8,
                off + size <= n == b@.len(),
                v as nat == uint_at(b@, off as int, i as nat, false),
            decreases size - i,
        {
            proof {
                lemma_uint_bound(b@, off as int, i as nat, false);
                lemma_pow256_mono(i as nat, 7);
                reveal_with_fuel(pow256, 9);
                assert(v < 72057594037927936);
            }
            let idx = off + i;
            let byte = b[idx];
            v = v * 256 + (byte as u64);
            i = i + 1;
        }
        v
    }
}

/// Whether the sections of a table starting at `shoff`, from index `i` on,
/// are safe for the container parser: every section name offset lies within
/// the section-name string table, and the body of every section whose
/// content is read lies within the image.
#[verifier::opaque]
pub open spec fn sections_safe(
    b: Seq<u8>,
    shoff: int,
    shentsize: int,
    shnum: int,
    strtab_size: nat,
    class64: bool,
    little: bool,
    i: int,
) -> bool
    decreases shnum - i,
{
    if i < 0 || i >= shnum {
        true
    } else {
        let base = shoff + i * shentsize;
        let name = uint_at(b, base, 4, little);
        let st = uint_at(b, base + 4, 4, little);
        let csz: nat = if class64 { 8 } else { 4 };
        let offs = uint_at(b, base + (if class64 { 24int } else { 16int }), csz, little);
        let size = uint_at(b, base + (if class64 { 32int } else { 20int }), csz, little);
        &&& name <= strtab_size
        &&& (st != 0 && st != 8 ==> (size == 0 || offs + size <= b.len()))
        &&& sections_safe(b, shoff, shentsize, shnum, strtab_size, class64, little, i + 1)
    }
}

/// Whether the container parser accepts or cleanly rejects the image: the
/// identification, header and section table are readable, the section-name
/// string table is a real section, and `sections_safe` holds of every
/// section. Every image this refuses is malformed; on every image this
/// accepts the container parse returns without panicking.
#[verifier::opaque]
pub open spec fn elf_safe_spec(b: Seq<u8>) -> bool {
    if b.len() < 16 {
        false
    } else if !(b[0] == 0x7f && b[1] == 0x45 && b[2] == 0x4c && b[3] == 0x46) {
        false
    } else if !(b[4] == 1 || b[4] == 2) || !(b[5] == 1 || b[5] == 2) {
        false
    } else {
        let class64 = b[4] == 2;
        let little = b[5] == 1;
        let hdr: int = if class64 { 64 } else { 52 };
        if b.len() < hdr {
            false
        } else {
            let csz: nat = if class64 { 8 } else { 4 };
            let shoff = uint_at(b, if class64 { 40int } else { 32int }, csz, little);
            let shentsize = uint_at(b, if class64 { 58int } else { 46int }, 2, little);
            let shnum = uint_at(b, if class64 { 60int } else { 48int }, 2, little);
            let shstrndx = uint_at(b, if class64 { 62int } else { 50int }, 2, little);
            let shmin: nat = if class64 { 64 } else { 40 };
            if shentsize < shmin || shnum == 0 || shoff + shnum * shentsize > b.len() || shstrndx >= shnum {
                false
            } else {
                let sbase: int = (shoff + shstrndx * shentsize) as int;
                let sst = uint_at(b, sbase + 4, 4, little);
                let strtab_size = uint_at(b, sbase + (if class64 { 32int } else { 20int }), csz, little);
                if sst == 0 || sst == 8 {
                    false
                } else {
                    sections_safe(b, shoff as int, shentsize as int, shnum as int, strtab_size, class64, little, 0)
                }
            }
        }
    }
}

/// Decides `elf_safe_spec` by decoding the identification, header and
/// section table of the image.
pub(crate) fn elf_preflight(b: &Vec<u8>) -> (r: bool)
    ensures
        r == elf_safe_spec(b@),
{
    proof {
        reveal(elf_safe_spec);
    }
    let len = b.len();
    if len < 16 {
        return false;
    }
    if !(b[0] == 0x7f && b[1] == 0x45 && b[2] == 0x4c && b[3] == 0x46) {
        return false;
    }
    if !(b[4] == 1 || b[4] == 2) || !(b[5] == 1 || b[5] == 2) {
        return false;
    }
    let class64 = b[4] == 2;
    let little = b[5] == 1;
    let hdr: usize = if class64 { 64 } else { 52 };
    if len < hdr {
        return false;
    }
    let csz: usize = if class64 { 8 } else { 4 };
    let shoff = read_uint(b, if class64 { 40 } else { 32 }, csz, little);
    let shentsize = read_uint(b, if class64 { 58 } else { 46 }, 2, little);
    let shnum = read_uint(b, if class64 { 60 } else { 48 }, 2, little);
    let shstrndx = read_uint(b, if class64 { 62 } else { 50 }, 2, little);
    let shmin: u64 = if class64 { 64 } else { 40 };
    proof {
        lemma_uint_bound(b@, if class64 { 58int } else { 46int }, 2, little);
        lemma_uint_bound(b@, if class64 { 60int } else { 48int }, 2, little);
        lemma_uint_bound(b@, if class64 { 62int } else { 50int }, 2, little);
        reveal_with_fuel(pow256, 3);
        assert(shentsize < 65536 && shnum < 65536 && shstrndx < 65536);
    }
    if shentsize < shmin || shnum == 0 {
        return false;
    }
    proof {
        assert(shnum * shentsize <= 65535 * 65535) by (nonlinear_arith)
            requires
                shnum <= 65535,
                shentsize <= 65535,
        ;
    }
    let need = shnum * shentsize;
    if shoff > len as u64 || need > (len as u64) - shoff {
        return false;
    }
    if shstrndx >= shnum {
        return false;
    }
    proof {
        assert((shstrndx + 1) * shentsize <= shnum * shentsize) by (nonlinear_arith)
            requires
                shstrndx + 1 <= shnum,
                shentsize >= 0,
        ;
        assert((shstrndx + 1) * shentsize == shstrndx * shentsize + shentsize) by (nonlinear_arith);
    }
    let sbase = (shoff + shstrndx * shentsize) as usize;
    let size_off: usize = if class64 { 32 } else { 20 };
    let off_off: usize = if class64 { 24 } else { 16 };
    let sst = read_uint(b, sbase + 4, 4, little);
    let strtab_size = read_uint(b, sbase + size_off, csz, little);
    if sst == 0 || sst == 8 {
        return false;
    }
    let ghost ssz: nat = strtab_size as nat;
    proof {
        assert(sbase == shoff + shstrndx * shentsize);
        assert(elf_safe_spec(b@) == sections_safe(b@, shoff as int, shentsize as int, shnum as int, ssz, class64, little, 0));
    }
    let nsec = shnum as usize;
    let mut i: usize = 0;
    while i < nsec
        invariant
            0 <= i <= nsec,
            nsec == shnum,
            len == b@.len(),
            shentsize as nat >= shmin as nat >= (if class64 { 64nat } else { 40nat }),
            shoff + shnum * shentsize <= len,
            csz == (if class64 { 8int } else { 4int }),
            off_off == (if class64 { 24int } else { 16int }),
            size_off == (if class64 { 32int } else { 20int }),
            ssz == strtab_size as nat,
            elf_safe_spec(b@) == sections_safe(b@, shoff as int, shentsize as int, shnum as int, ssz, class64, little, 0),
            sections_safe(b@, shoff as int, shentsize as int, shnum as int, ssz, class64, little, 0) == sections_safe(b@, shoff as int, shentsize as int, shnum as int, ssz, class64, little, i as int),
        decreases nsec - i,
    {
        proof {
            reveal(sections_safe);
            assert((i + 1) * shentsize <= shnum * shentsize) by (nonlinear_arith)
                requires
                    i + 1 <= shnum,
                    shentsize >= 0,
            ;
            assert((i as u64 + 1) * shentsize == i as u64 * shentsize + shentsize) by (nonlinear_arith);
            assert(shoff + (i as u64) * shentsize + shentsize <= len);
            assert(off_off + csz <= shentsize && size_off + csz <= shentsize && 8 <= shentsize);
        }
        let base = (shoff + (i as u64) * shentsize) as usize;
        proof {
            assert(base == shoff + (i as u64) * shentsize);
            assert(base + shentsize <= len);
        }
        let name = read_uint(b, base, 4, little);
        let st = read_uint(b, base + 4, 4, little);
        let offs = read_uint(b, base + off_off, csz, little);
        let size = read_uint(b, base + size_off, csz, little);
        if name > strtab_size {
            proof {
                reveal(sections_safe);
                assert(!sections_safe(b@, shoff as int, shentsize as int, shnum as int, ssz, class64, little, i as int));
            }
            return false;
        }
        if st != 0 && st != 8 {
            if !(size == 0 || (size <= len as u64 && offs <= (len as u64) - size)) {
                proof {
                    reveal(sections_safe);
                    assert(!sections_safe(b@, shoff as int, shentsize as int, shnum as int, ssz, class64, little, i as int));
                }
                return false;
            }
        }
        i += 1;
    }
    proof {
        reveal(sections_safe);
        assert(sections_safe(b@, shoff as int, shentsize as int, shnum as int, ssz, class64, little, nsec as int));
    }
    true
}

/// The (tag, value) pairs of a dynamic table held in `b`, starting at
/// `off`, up to the first NULL tag or the end of whole entries.
pub open spec fn dyn_pairs_from(b: Seq<u8>, off: int, class64: bool, little: bool) -> Seq<(nat, nat)>
    decreases b.len() - off,
{
    let esz: int = if class64 { 16 } else { 8 };
    let half: int = esz / 2;
    if off < 0 || off + esz > b.len() {
        Seq::<(nat, nat)>::empty()
    } else {
        let tag = uint_at(b, off, half as nat, little);
        let val = uint_at(b, off + half, half as nat, little);
        if tag == 0 {
            Seq::<(nat, nat)>::empty()
        } else {
            seq![(tag, val)] + dyn_pairs_from(b, off + esz, class64, little)
        }
    }
}

/// Decodes the (tag, value) pairs of a dynamic section.
pub fn parse_dyn_pairs(b: &Vec<u8>, class64: bool, little: bool) -> (r: Vec<(u64, u64)>)
    ensures
        r@.map_values(|p: (u64, u64)| (p.0 as nat, p.1 as nat)) =~= dyn_pairs_from(b@, 0, class64, little),
{
    let esz: usize = if class64 { 16 } else { 8 };
    let half: usize = esz / 2;
    let n = b.len();
    let mut r: Vec<(u64, u64)> = Vec::new();
    let mut off: usize = 0;
    while off <= n && n - off >= esz
        invariant
            esz == (if class64 { 16int } else { 8int }),
            half == esz / 2,
            n == b@.len(),
            0 <= off <= n,
            r@.map_values(|p: (u64, u64)| (p.0 as nat, p.1 as nat)) + dyn_pairs_from(b@, off as int, class64, little) =~= dyn_pairs_from(b@, 0, class64, little),
        decreases n - off,
    {
        let tag = read_uint(b, off, half, little);
        let val = read_uint(b, off + half, half, little);
        proof {
            lemma_uint_bound(b@, off as int, half as nat, little);
            lemma_uint_bound(b@, off + half, half as nat, little);
        }
        if tag == 0 {
            proof {
                assert(dyn_pairs_from(b@, off as int, class64, little) =~= Seq::<(nat, nat)>::empty());
                assert(r@.map_values(|p: (u64, u64)| (p.0 as nat, p.1 as nat)) =~= dyn_pairs_from(b@, 0, class64, little));
            }
            return r;
        }
        r.push((tag, val));
        proof {
            assert(r@.map_values(|p: (u64, u64)| (p.0 as nat, p.1 as nat)) + dyn_pairs_from(b@, off + esz, class64, little) =~= dyn_pairs_from(b@, 0, class64, little));
        }
        off = off + esz;
    }
    proof {
        assert(dyn_pairs_from(b@, off as int, class64, little) =~= Seq::<(nat, nat)>::empty());
        assert(r@.map_values(|p: (u64, u64)| (p.0 as nat, p.1 as nat)) =~= dyn_pairs_from(b@, 0, class64, little));
    }
    r
}

/// The NUL-terminated byte string stored at `off` in a string table; out of
/// range offsets yield the empty string.
pub open spec fn cstr_at(b: Seq<u8>, off: int) -> Seq<u8>
    decreases b.len() - off,
{
    if off < 0 || off >= b.len() || b[off] == 0 {
        Seq::<u8>::empty()
    } else {
        seq![b[off]] + cstr_at(b, off + 1)
    }
}

/// Reads the NUL-terminated string at `off` in a string table.
pub fn read_cstr(b: &Vec<u8>, off: u64) -> (r: Vec<u8>)
    ensures
        r@ == cstr_at(b@, off as int),
{
    let n = b.len();
    if off >= n as u64 {
        let r: Vec<u8> = Vec::new();
        proof {
            assert(cstr_at(b@, off as int) =~= Seq::<u8>::empty());
        }
        return r;
    }
    let mut i: usize = off as usize;
    let mut r: Vec<u8> = Vec::new();
    while i < n && b[i] != 0
        invariant
            off <= i <= n == b@.len(),
            r@ + cstr_at(b@, i as int) =~= cstr_at(b@, off as int),
        decreases n - i,
    {
        r.push(b[i]);
        proof {
            assert(r@ + cstr_at(b@, i + 1) =~= cstr_at(b@, off as int));
        }
        i += 1;
    }
    proof {
        assert(cstr_at(b@, i as int) =~= Seq::<u8>::empty());
        assert(r@ =~= cstr_at(b@, off as int));
    }
    r
}

/// The string table that section `link` of the table provides, or the
/// empty table when the link is out of range.
pub open spec fn strtab_of(secs: Seq<(u32, u32, Seq<u8>)>, link: u32) -> Seq<u8> {
    if 0 <= link < secs.len() {
        secs[link as int].2
    } else {
        Seq::<u8>::empty()
    }
}

/// The dynamic entries a list of (tag, value) pairs stands for, with each
/// string read from the given string table: NEEDED, RPATH and RUNPATH
/// entries are kept, in table order, and all others are ignored.
pub open spec fn entries_of_pairs(pairs: Seq<(nat, nat)>, strtab: Seq<u8>) -> Seq<(DynKind, Seq<char>)>
    decreases pairs.len(),
{
    if pairs.len() == 0 {
        Seq::<(DynKind, Seq<char>)>::empty()
    } else {
        let rest = entries_of_pairs(pairs.drop_first(), strtab);
        let tag = pairs[0].0;
        let val = pairs[0].1;
        if tag == DT_NEEDED as nat {
            seq![(DynKind::Needed, utf8_lossy_of(cstr_at(strtab, val as int)))] + rest
        } else if tag == DT_RPATH as nat {
            seq![(DynKind::RPath, utf8_lossy_of(cstr_at(strtab, val as int)))] + rest
        } else if tag == DT_RUNPATH as nat {
            seq![(DynKind::RunPath, utf8_lossy_of(cstr_at(strtab, val as int)))] + rest
        } else {
            rest
        }
    }
}

/// The dynamic entries of the section table from index `i` on: each
/// dynamic section contributes the entries of its table, decoded against
/// the string table its link names.
pub open spec fn entries_of_sections(secs: Seq<(u32, u32, Seq<u8>)>, class64: bool, little: bool, i: int) -> Seq<(DynKind, Seq<char>)>
    decreases secs.len() - i,
{
    if i < 0 || i >= secs.len() {
        Seq::<(DynKind, Seq<char>)>::empty()
    } else {
        let head = if secs[i].0 == SHT_DYNAMIC {
            entries_of_pairs(dyn_pairs_from(secs[i].2, 0, class64, little), strtab_of(secs, secs[i].1))
        } else {
            Seq::<(DynKind, Seq<char>)>::empty()
        };
        head + entries_of_sections(secs, class64, little, i + 1)
    }
}

/// The NEEDED, RPATH and RUNPATH entries of an ELF image held in given
/// bytes, in file order, or `None` when the image is malformed — which
/// includes every image `elf_safe_spec` refuses. A binary without a dynamic
/// section yields the empty list.
pub open spec fn elf_dyn_entries_of(b: Seq<u8>) -> Option<Seq<(DynKind, Seq<char>)>> {
    if !elf_safe_spec(b) {
        None
    } else {
        match elf_sections_of(b) {
            None => None,
            Some((class64, little, secs)) => Some(entries_of_sections(secs, class64, little, 0)),
        }
    }
}

/// Extracts the NEEDED, RPATH and RUNPATH entries of an ELF image, each as
/// a decoded string; `None` means the image could not be parsed.
pub fn read_dynamic_entries(bytes: &Vec<u8>) -> (r: Option<Vec<(DynKind, String)>>)
    ensures
        match r {
            Some(v) => elf_dyn_entries_of(bytes@) is Some && v.deep_view() == elf_dyn_entries_of(bytes@)->Some_0,
            None => elf_dyn_entries_of(bytes@) is None,
        },
{
    if !elf_preflight(bytes) {
        return None;
    }
    let parsed = elf_sections(bytes);
    match parsed {
        None => None,
        Some(tup) => {
            let (class64, little, secs) = tup;
            let ghost sv = sections_abs(secs@);
            let n = secs.len();
            let mut out: Vec<(DynKind, String)> = Vec::new();
            let mut i: usize = 0;
            while i < n
                invariant
                    0 <= i <= n == secs@.len(),
                    sv == sections_abs(secs@),
                    n == sv.len(),
                    out.deep_view() + entries_of_sections(sv, class64, little, i as int) =~= entries_of_sections(sv, class64, little, 0),
                decreases n - i,
            {
                proof {
                    assert(sv[i as int] == (secs@[i as int].shtype, secs@[i as int].link, secs@[i as int].data@));
                }
                if secs[i].shtype == SHT_DYNAMIC {
                    let pairs = parse_dyn_pairs(&secs[i].data, class64, little);
                    let ghost pairs_spec = dyn_pairs_from(sv[i as int].2, 0, class64, little);
                    proof {
                        assert(pairs@.map_values(|p: (u64, u64)| (p.0 as nat, p.1 as nat)) =~= pairs_spec);
                    }
                    let link = secs[i].link;
                    let empty_tab: Vec<u8> = Vec::new();
                    let strtab: &Vec<u8> = if (link as usize) < n {
                        &secs[link as usize].data
                    } else {
                        &empty_tab
                    };
                    proof {
                        assert(strtab@ == strtab_of(sv, link));
                        assert(pairs_spec.subrange(0, pairs_spec.len() as int) =~= pairs_spec);
                    }
                    let m = pairs.len();
                    let mut k: usize = 0;
                    while k < m
                        invariant
                            0 <= k <= m == pairs@.len(),
                            m == pairs_spec.len(),
                            forall|j: int| 0 <= j < m ==> ((#[trigger] pairs@[j]).0 as nat == pairs_spec[j].0 && pairs@[j].1 as nat == pairs_spec[j].1),
                            strtab@ == strtab_of(sv, link),
                            out.deep_view() + entries_of_pairs(pairs_spec.subrange(k as int, m as int), strtab@) + entries_of_sections(sv, class64, little, i + 1) =~= entries_of_sections(sv, class64, little, 0),
                        decreases m - k,
                    {
                        proof {
                            assert(pairs@.map_values(|p: (u64, u64)| (p.0 as nat, p.1 as nat))[k as int] == pairs_spec[k as int]);
                            assert(pairs_spec.subrange(k as int, m as int).drop_first() =~= pairs_spec.subrange(k + 1, m as int));
                            assert(pairs_spec.subrange(k as int, m as int)[0] == pairs_spec[k as int]);
                        }
                        let tag = pairs[k].0;
                        let val = pairs[k].1;
                        if tag == DT_NEEDED || tag == DT_RPATH || tag == DT_RUNPATH {
                            let name_bytes = read_cstr(strtab, val);
                            let name = utf8_lossy(name_bytes.as_slice());
                            let kind = if tag == DT_NEEDED {
                                DynKind::Needed
                            } else if tag == DT_RPATH {
                                DynKind::RPath
                            } else {
                                DynKind::RunPath
                            };
                            out.push((kind, name));
                        }
                        proof {
                            assert(out.deep_view() + entries_of_pairs(pairs_spec.subrange(k + 1, m as int), strtab@) + entries_of_sections(sv, class64, little, i + 1) =~= entries_of_sections(sv, class64, little, 0));
                        }
                        k += 1;
                    }
                    proof {
                        assert(entries_of_pairs(pairs_spec.subrange(m as int, m as int), strtab@) =~= Seq::<(DynKind, Seq<char>)>::empty());
                        assert(out.deep_view() + entries_of_sections(sv, class64, little, i + 1) =~= entries_of_sections(sv, class64, little, 0));
                    }
                } else {
                    proof {
                        assert(out.deep_view() + entries_of_sections(sv, class64, little, i + 1) =~= entries_of_sections(sv, class64, little, 0));
                    }
                }
                i += 1;
            }
            proof {
                assert(entries_of_sections(sv, class64, little, n as int) =~= Seq::<(DynKind, Seq<char>)>::empty());
                assert(out.deep_view() =~= entries_of_sections(sv, class64, little, 0));
            }
            Some(out)
        },
    }
}

} // verus!
