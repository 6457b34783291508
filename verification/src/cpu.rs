//! CPU instruction-set levels and extensions.
//!
//! A [`CpuIsa`] is an ordered [`CpuLevel`] plus a set of optional extension
//! bits (`EXT_*`). [`CpuIsa::from_x86`] derives it from the feature flags and
//! CPUID leaves that the caller has read; [`CpuIsa::as_str`] names it.
use vstd::prelude::*;

verus! {

/// FMA3 extension bit.
pub const EXT_FMA3: u32 = 1u32 << 0u32;
/// FMA4 extension bit.
pub const EXT_FMA4: u32 = 1u32 << 1u32;
/// AES-NI extension bit.
pub const EXT_AES: u32 = 1u32 << 2u32;
/// AVX-512 Foundation.
pub const EXT_AVX512F: u32 = 1u32 << 16u32;
/// AVX-512 Doubleword and Quadword.
pub const EXT_AVX512DQ: u32 = 1u32 << 17u32;
/// AVX-512 Integer Fused Multiply-Add.
pub const EXT_AVX512IFMA: u32 = 1u32 << 18u32;
/// AVX-512 Prefetch.
pub const EXT_AVX512PF: u32 = 1u32 << 19u32;
/// AVX-512 Exponential and Reciprocal.
pub const EXT_AVX512ER: u32 = 1u32 << 20u32;
/// AVX-512 Conflict Detection.
pub const EXT_AVX512CD: u32 = 1u32 << 21u32;
/// AVX-512 Byte and Word.
pub const EXT_AVX512BW: u32 = 1u32 << 22u32;
/// AVX-512 Vector Length.
pub const EXT_AVX512VL: u32 = 1u32 << 23u32;
/// AVX-512 Vector Byte Manipulation.
pub const EXT_AVX512VBMI: u32 = 1u32 << 24u32;
/// AVX-512 Vector Neural Network.
pub const EXT_AVX512VNNI: u32 = 1u32 << 25u32;
/// AVX-512 Vector Byte Manipulation 2.
pub const EXT_AVX512VBMI2: u32 = 1u32 << 26u32;

/// Ordered instruction-set level; [`CpuLevel::code`] gives the order.
#[derive(Clone, Copy, Debug, PartialEq, Eq, Structural)]
pub enum CpuLevel {
    NoIsa,
    Sse,
    Sse2,
    Sse3,
    Ssse3,
    Power9,
    Neon,
    Sse41,
    Sse41x,
    Sse42,
    Avx,
    Avx2,
    Avx512,
}

/// Ordering code of a level (higher is more capable).
pub open spec fn level_code(l: CpuLevel) -> u32 {
    match l {
        CpuLevel::NoIsa => 0x00,
        CpuLevel::Sse => 0x10,
        CpuLevel::Sse2 => 0x20,
        CpuLevel::Sse3 => 0x30,
        CpuLevel::Ssse3 => 0x32,
        CpuLevel::Power9 => 0x34,
        CpuLevel::Neon => 0x38,
        CpuLevel::Sse41 => 0x40,
        CpuLevel::Sse41x => 0x41,
        CpuLevel::Sse42 => 0x42,
        CpuLevel::Avx => 0x50,
        CpuLevel::Avx2 => 0x60,
        CpuLevel::Avx512 => 0x80,
    }
}

impl CpuLevel {
    /// Ordering code of this level: levels compare by their codes.
    pub fn code(&self) -> (r: u32)
        ensures
            r == level_code(*self),
    {
        match self {
            CpuLevel::NoIsa => 0x00,
            CpuLevel::Sse => 0x10,
            CpuLevel::Sse2 => 0x20,
            CpuLevel::Sse3 => 0x30,
            CpuLevel::Ssse3 => 0x32,
            CpuLevel::Power9 => 0x34,
            CpuLevel::Neon => 0x38,
            CpuLevel::Sse41 => 0x40,
            CpuLevel::Sse41x => 0x41,
            CpuLevel::Sse42 => 0x42,
            CpuLevel::Avx => 0x50,
            CpuLevel::Avx2 => 0x60,
            CpuLevel::Avx512 => 0x80,
        }
    }
}

/// `ext` holds the extension bit `flag`.
pub open spec fn has_ext(ext: u32, flag: u32) -> bool {
    ext & flag == flag
}

/// An instruction-set level with its extensions.
#[derive(Clone, Copy, Debug)]
pub struct CpuIsa {
    level: CpuLevel,
    ext: u32,
}

/// x86 feature flags as the runtime detection reports them.
pub struct X86Features {
    pub avx512f: bool,
    pub avx2: bool,
    pub avx: bool,
    pub sse42: bool,
    pub sse41: bool,
    pub ssse3: bool,
    pub sse3: bool,
    pub sse2: bool,
    pub sse: bool,
    pub popcnt: bool,
    pub aes: bool,
    pub fma: bool,
}

/// The level of an x86 CPU with features `f`: the highest level present,
/// SSE4.1 refined to SSE4.1 with POPCNT.
pub open spec fn x86_level(f: X86Features) -> CpuLevel {
    if f.avx512f {
        CpuLevel::Avx512
    } else if f.avx2 {
        CpuLevel::Avx2
    } else if f.avx {
        CpuLevel::Avx
    } else if f.sse42 {
        CpuLevel::Sse42
    } else if f.sse41 {
        if f.popcnt {
            CpuLevel::Sse41x
        } else {
            CpuLevel::Sse41
        }
    } else if f.ssse3 {
        CpuLevel::Ssse3
    } else if f.sse3 {
        CpuLevel::Sse3
    } else if f.sse2 {
        CpuLevel::Sse2
    } else if f.sse {
        CpuLevel::Sse
    } else {
        CpuLevel::NoIsa
    }
}

/// `flag` when `c` holds, else no bit.
pub open spec fn bit_if(c: bool, flag: u32) -> u32 {
    if c {
        flag
    } else {
        0
    }
}

/// The AVX-512 extension bits that CPUID leaf 7 (`ebx`, `ecx`) reports.
pub open spec fn leaf7_ext(ebx: u32, ecx: u32) -> u32 {
    bit_if(ebx & (1u32 << 16u32) != 0, EXT_AVX512F) | bit_if(ebx & (1u32 << 17u32) != 0, EXT_AVX512DQ)
        | bit_if(ebx & (1u32 << 21u32) != 0, EXT_AVX512IFMA) | bit_if(
        ebx & (1u32 << 26u32) != 0,
        EXT_AVX512PF,
    ) | bit_if(ebx & (1u32 << 27u32) != 0, EXT_AVX512ER) | bit_if(
        ebx & (1u32 << 28u32) != 0,
        EXT_AVX512CD,
    ) | bit_if(ebx & (1u32 << 30u32) != 0, EXT_AVX512BW) | bit_if(
        ebx & (1u32 << 31u32) != 0,
        EXT_AVX512VL,
    ) | bit_if(ecx & (1u32 << 1u32) != 0, EXT_AVX512VBMI) | bit_if(
        ecx & (1u32 << 6u32) != 0,
        EXT_AVX512VBMI2,
    ) | bit_if(ecx & (1u32 << 11u32) != 0, EXT_AVX512VNNI)
}

/// The extension bits of an x86 CPU at level `l`: AES when present, FMA3
/// and FMA4 from AVX on, and at AVX-512 the bits of CPUID leaf 7 (only
/// AVX-512F when the leaf is not available).
pub open spec fn x86_ext(f: X86Features, l: CpuLevel, leaf7: Option<(u32, u32)>, fma4: bool) -> u32 {
    let avx = level_code(l) >= 0x50;
    bit_if(f.aes, EXT_AES) | bit_if(avx && f.fma, EXT_FMA3) | bit_if(avx && fma4, EXT_FMA4) | (
    if l == CpuLevel::Avx512 {
        match leaf7 {
            Some((ebx, ecx)) => leaf7_ext(ebx, ecx),
            None => EXT_AVX512F,
        }
    } else {
        0
    })
}

/// Name of an AVX-512 CPU: its most specific extension.
pub open spec fn avx512_name_spec(ext: u32) -> Seq<char> {
    if has_ext(ext, EXT_AVX512VBMI2) {
        "avx512vbmi2"@
    } else if has_ext(ext, EXT_AVX512VBMI) {
        "avx512vbmi"@
    } else if has_ext(ext, EXT_AVX512VNNI) {
        "avx512vnni"@
    } else if has_ext(ext, EXT_AVX512VL) {
        "avx512vl"@
    } else if has_ext(ext, EXT_AVX512BW) {
        "avx512bw"@
    } else if has_ext(ext, EXT_AVX512CD) {
        "avx512cd"@
    } else if has_ext(ext, EXT_AVX512ER) {
        "avx512er"@
    } else if has_ext(ext, EXT_AVX512PF) {
        "avx512pf"@
    } else if has_ext(ext, EXT_AVX512IFMA) {
        "avx512ifma"@
    } else if has_ext(ext, EXT_AVX512DQ) {
        "avx512dq"@
    } else if has_ext(ext, EXT_AVX512F) {
        "avx512f"@
    } else {
        "avx512"@
    }
}

/// Name of an AVX CPU: `avx` and its FMA3, FMA4 and AES extensions.
pub open spec fn avx_name_spec(ext: u32) -> Seq<char> {
    let fma3 = has_ext(ext, EXT_FMA3);
    let fma4 = has_ext(ext, EXT_FMA4);
    let aes = has_ext(ext, EXT_AES);
    if !aes {
        if !fma4 {
            if !fma3 { "avx"@ } else { "avx+fma3"@ }
        } else {
            if !fma3 { "avx+fma4"@ } else { "avx+fma3+fma4"@ }
        }
    } else {
        if !fma4 {
            if !fma3 { "avx+aes"@ } else { "avx+fma3+aes"@ }
        } else {
            if !fma3 { "avx+fma4+aes"@ } else { "avx+fma3+fma4+aes"@ }
        }
    }
}

/// `part` when `present`, nothing otherwise.
pub open spec fn part_if(present: bool, part: Seq<char>) -> Seq<char> {
    if present { part } else { Seq::empty() }
}

/// The name of an AVX CPU lists exactly the extensions it has, in the order
/// FMA3, FMA4, AES, each after a `+`: for example `avx+aes` for AES without
/// FMA, `avx+fma3+aes` for FMA3 and AES.
pub proof fn law_avx_name_lists_extensions(ext: u32)
    ensures
        avx_name_spec(ext) == "avx"@ + part_if(has_ext(ext, EXT_FMA3), "+fma3"@) + part_if(has_ext(ext, EXT_FMA4), "+fma4"@)
            + part_if(has_ext(ext, EXT_AES), "+aes"@),
{
    reveal_strlit("avx");
    reveal_strlit("+fma3");
    reveal_strlit("+fma4");
    reveal_strlit("+aes");
    reveal_strlit("avx+fma3");
    reveal_strlit("avx+fma4");
    reveal_strlit("avx+fma3+fma4");
    reveal_strlit("avx+aes");
    reveal_strlit("avx+fma3+aes");
    reveal_strlit("avx+fma4+aes");
    reveal_strlit("avx+fma3+fma4+aes");
    let fma3 = has_ext(ext, EXT_FMA3);
    let fma4 = has_ext(ext, EXT_FMA4);
    let aes = has_ext(ext, EXT_AES);
    let built = "avx"@ + part_if(fma3, "+fma3"@) + part_if(fma4, "+fma4"@) + part_if(aes, "+aes"@);
    assert(avx_name_spec(ext) =~= built);
}

/// Every feature of `f` is a feature of `g`.
pub open spec fn features_within(f: X86Features, g: X86Features) -> bool {
    &&& f.avx512f ==> g.avx512f
    &&& f.avx2 ==> g.avx2
    &&& f.avx ==> g.avx
    &&& f.sse42 ==> g.sse42
    &&& f.sse41 ==> g.sse41
    &&& f.ssse3 ==> g.ssse3
    &&& f.sse3 ==> g.sse3
    &&& f.sse2 ==> g.sse2
    &&& f.sse ==> g.sse
    &&& f.popcnt ==> g.popcnt
}

/// The level of an x86 CPU is one of its features: more features never give
/// a lower level, and the level names a feature the CPU has (SSE4.1 with
/// POPCNT only with both).
pub proof fn law_x86_level(f: X86Features, g: X86Features)
    ensures
        features_within(f, g) ==> level_code(x86_level(f)) <= level_code(x86_level(g)),
        x86_level(f) is Avx512 <==> f.avx512f,
        x86_level(f) is Avx2 ==> f.avx2,
        x86_level(f) is Avx ==> f.avx,
        x86_level(f) is Sse42 ==> f.sse42,
        x86_level(f) is Sse41x ==> f.sse41 && f.popcnt,
        x86_level(f) is Sse41 ==> f.sse41 && !f.popcnt,
        x86_level(f) is Ssse3 ==> f.ssse3,
        x86_level(f) is NoIsa ==> !f.sse && !f.sse2 && !f.sse3 && !f.ssse3 && !f.sse41 && !f.sse42 && !f.avx && !f.avx2
            && !f.avx512f,
{
}

/// The extension bits of an x86 CPU are the extensions it reports: AES
/// whenever present, FMA3 and FMA4 from AVX on, and AVX-512 bits only at
/// AVX-512: there AVX-512F alone without CPUID leaf 7, else F, DQ, IFMA,
/// PF, ER, CD, BW and VL from bits 16, 17, 21, 26, 27, 28, 30 and 31 of
/// `ebx`, and VBMI, VBMI2 and VNNI from bits 1, 6 and 11 of `ecx`.
pub proof fn law_x86_extensions(f: X86Features, l: CpuLevel, leaf7: Option<(u32, u32)>, fma4: bool)
    ensures
        ({
            let e = x86_ext(f, l, leaf7, fma4);
            let avx = level_code(l) >= level_code(CpuLevel::Avx);
            &&& has_ext(e, EXT_AES) <==> f.aes
            &&& has_ext(e, EXT_FMA3) <==> avx && f.fma
            &&& has_ext(e, EXT_FMA4) <==> avx && fma4
            &&& l != CpuLevel::Avx512 ==> e < 8
            &&& l == CpuLevel::Avx512 && leaf7 is None ==> e / 0x10000 == 1
            &&& l == CpuLevel::Avx512 ==> (leaf7 matches Some((b, c)) ==> {
                let ebx = b as int;
                let ecx = c as int;
                &&& has_ext(e, EXT_AVX512F) <==> (ebx / 0x10000) % 2 == 1
                &&& has_ext(e, EXT_AVX512DQ) <==> (ebx / 0x20000) % 2 == 1
                &&& has_ext(e, EXT_AVX512IFMA) <==> (ebx / 0x200000) % 2 == 1
                &&& has_ext(e, EXT_AVX512PF) <==> (ebx / 0x4000000) % 2 == 1
                &&& has_ext(e, EXT_AVX512ER) <==> (ebx / 0x8000000) % 2 == 1
                &&& has_ext(e, EXT_AVX512CD) <==> (ebx / 0x10000000) % 2 == 1
                &&& has_ext(e, EXT_AVX512BW) <==> (ebx / 0x40000000) % 2 == 1
                &&& has_ext(e, EXT_AVX512VL) <==> (ebx / 0x80000000) % 2 == 1
                &&& has_ext(e, EXT_AVX512VBMI) <==> (ecx / 2) % 2 == 1
                &&& has_ext(e, EXT_AVX512VBMI2) <==> (ecx / 0x40) % 2 == 1
                &&& has_ext(e, EXT_AVX512VNNI) <==> (ecx / 0x800) % 2 == 1
            })
        }),
{
    let e = x86_ext(f, l, leaf7, fma4);
    let avx = level_code(l) >= level_code(CpuLevel::Avx);
    let is512 = l == CpuLevel::Avx512;
    let a1 = f.aes;
    let a2 = avx && f.fma;
    let a3 = avx && fma4;
    let some = leaf7 is Some;
    let (ebx, ecx): (u32, u32) = match leaf7 {
        Some(p) => p,
        None => (0u32, 0u32),
    };
    assert(e == bit_if(a1, EXT_AES) | bit_if(a2, EXT_FMA3) | bit_if(a3, EXT_FMA4) | (if is512 {
        if some { leaf7_ext(ebx, ecx) } else { EXT_AVX512F }
    } else {
        0u32
    }));
    assert({
        &&& has_ext(e, EXT_AES) == a1
        &&& has_ext(e, EXT_FMA3) == a2
        &&& has_ext(e, EXT_FMA4) == a3
        &&& !is512 ==> e < 8
        &&& is512 && !some ==> e / 0x10000 == 1
        &&& is512 && some ==> {
            &&& has_ext(e, EXT_AVX512F) == ((ebx / 0x10000) % 2 == 1)
            &&& has_ext(e, EXT_AVX512DQ) == ((ebx / 0x20000) % 2 == 1)
            &&& has_ext(e, EXT_AVX512IFMA) == ((ebx / 0x200000) % 2 == 1)
            &&& has_ext(e, EXT_AVX512PF) == ((ebx / 0x4000000) % 2 == 1)
            &&& has_ext(e, EXT_AVX512ER) == ((ebx / 0x8000000) % 2 == 1)
            &&& has_ext(e, EXT_AVX512CD) == ((ebx / 0x10000000) % 2 == 1)
            &&& has_ext(e, EXT_AVX512BW) == ((ebx / 0x40000000) % 2 == 1)
            &&& has_ext(e, EXT_AVX512VL) == ((ebx / 0x80000000) % 2 == 1)
            &&& has_ext(e, EXT_AVX512VBMI) == ((ecx / 2) % 2 == 1)
            &&& has_ext(e, EXT_AVX512VBMI2) == ((ecx / 0x40) % 2 == 1)
            &&& has_ext(e, EXT_AVX512VNNI) == ((ecx / 0x800) % 2 == 1)
        }
    }) by (bit_vector)
        requires
            e == bit_if(a1, EXT_AES) | bit_if(a2, EXT_FMA3) | bit_if(a3, EXT_FMA4) | (if is512 {
                if some { leaf7_ext(ebx, ecx) } else { EXT_AVX512F }
            } else {
                0u32
            }),
    ;
}

/// An AVX-512 CPU is named after its most specific extension: a CPU with
/// VBMI2 is `avx512vbmi2`, one with VBMI and not VBMI2 is `avx512vbmi`, and
/// every name begins with `avx512`.
pub proof fn law_avx512_name(ext: u32)
    ensures
        has_ext(ext, EXT_AVX512VBMI2) ==> avx512_name_spec(ext) == "avx512vbmi2"@,
        has_ext(ext, EXT_AVX512VBMI) && !has_ext(ext, EXT_AVX512VBMI2) ==> avx512_name_spec(ext) == "avx512vbmi"@,
        avx512_name_spec(ext).subrange(0, 6) == "avx512"@,
{
    reveal_strlit("avx512vbmi2");
    reveal_strlit("avx512vbmi");
    reveal_strlit("avx512vnni");
    reveal_strlit("avx512vl");
    reveal_strlit("avx512bw");
    reveal_strlit("avx512cd");
    reveal_strlit("avx512er");
    reveal_strlit("avx512pf");
    reveal_strlit("avx512ifma");
    reveal_strlit("avx512dq");
    reveal_strlit("avx512f");
    reveal_strlit("avx512");
    assert(avx512_name_spec(ext).subrange(0, 6) =~= "avx512"@);
}

/// Name of an instruction-set level with extensions `ext`.
pub open spec fn isa_name(l: CpuLevel, ext: u32) -> Seq<char> {
    match l {
        CpuLevel::Avx512 => avx512_name_spec(ext),
        CpuLevel::Avx2 => "avx2"@,
        CpuLevel::Avx => avx_name_spec(ext),
        CpuLevel::Sse42 => "sse4.2"@,
        CpuLevel::Sse41x => "sse4.1+popcnt"@,
        CpuLevel::Sse41 => "sse4.1"@,
        CpuLevel::Ssse3 => "ssse3"@,
        CpuLevel::Sse3 => "sse3"@,
        CpuLevel::Sse2 => "sse2"@,
        CpuLevel::Sse => "sse"@,
        CpuLevel::Neon => "arm_neon"@,
        CpuLevel::Power9 => "power9"@,
        CpuLevel::NoIsa => "none"@,
    }
}

/// `ext` holds the extension bit `flag`.
pub fn contains(ext: u32, flag: u32) -> (r: bool)
    ensures
        r == has_ext(ext, flag),
{
    ext & flag == flag
}

/// Name of an AVX-512 CPU: the first extension present in the order VBMI2,
/// VBMI, VNNI, VL, BW, CD, ER, PF, IFMA, DQ, F.
pub fn avx512_name(ext: u32) -> (r: &'static str)
    ensures
        r@ == avx512_name_spec(ext),
{
    if contains(ext, EXT_AVX512VBMI2) {
        "avx512vbmi2"
    } else if contains(ext, EXT_AVX512VBMI) {
        "avx512vbmi"
    } else if contains(ext, EXT_AVX512VNNI) {
        "avx512vnni"
    } else if contains(ext, EXT_AVX512VL) {
        "avx512vl"
    } else if contains(ext, EXT_AVX512BW) {
        "avx512bw"
    } else if contains(ext, EXT_AVX512CD) {
        "avx512cd"
    } else if contains(ext, EXT_AVX512ER) {
        "avx512er"
    } else if contains(ext, EXT_AVX512PF) {
        "avx512pf"
    } else if contains(ext, EXT_AVX512IFMA) {
        "avx512ifma"
    } else if contains(ext, EXT_AVX512DQ) {
        "avx512dq"
    } else if contains(ext, EXT_AVX512F) {
        "avx512f"
    } else {
        "avx512"
    }
}

/// Name of an AVX CPU: the table entry indexed by the FMA3, FMA4 and AES
/// bits.
pub fn avx_name(ext: u32) -> (r: &'static str)
    ensures
        r@ == avx_name_spec(ext),
{
    let names: [&'static str; 8] = [
        "avx",
        "avx+fma3",
        "avx+fma4",
        "avx+fma3+fma4",
        "avx+aes",
        "avx+fma3+aes",
        "avx+fma4+aes",
        "avx+fma3+fma4+aes",
    ];
    let idx: usize = (if contains(ext, EXT_FMA3) { 1usize } else { 0usize }) + (if contains(
        ext,
        EXT_FMA4,
    ) {
        2usize
    } else {
        0usize
    }) + (if contains(ext, EXT_AES) { 4usize } else { 0usize });
    names[idx]
}

impl CpuIsa {
    /// The level of this ISA.
    pub closed spec fn level_spec(&self) -> CpuLevel {
        self.level
    }

    /// The extension bits of this ISA.
    pub closed spec fn ext_spec(&self) -> u32 {
        self.ext
    }

    /// No SIMD level and no extension.
    pub fn none() -> (r: Self)
        ensures
            r.level_spec() == CpuLevel::NoIsa,
            r.ext_spec() == 0,
    {
        CpuIsa { level: CpuLevel::NoIsa, ext: 0 }
    }

    /// The ISA of an x86 CPU from its runtime feature flags, its CPUID leaf 7
    /// (`ebx`, `ecx`) when available, and its FMA4 bit.
    pub fn from_x86(f: &X86Features, leaf7: Option<(u32, u32)>, fma4: bool) -> (r: Self)
        ensures
            r.level_spec() == x86_level(*f),
            r.ext_spec() == x86_ext(*f, x86_level(*f), leaf7, fma4),
    {
        let level = if f.avx512f {
            CpuLevel::Avx512
        } else if f.avx2 {
            CpuLevel::Avx2
        } else if f.avx {
            CpuLevel::Avx
        } else if f.sse42 {
            CpuLevel::Sse42
        } else if f.sse41 {
            if f.popcnt {
                CpuLevel::Sse41x
            } else {
                CpuLevel::Sse41
            }
        } else if f.ssse3 {
            CpuLevel::Ssse3
        } else if f.sse3 {
            CpuLevel::Sse3
        } else if f.sse2 {
            CpuLevel::Sse2
        } else if f.sse {
            CpuLevel::Sse
        } else {
            CpuLevel::NoIsa
        };
        let avx = level.code() >= 0x50;
        let e_aes: u32 = if f.aes { EXT_AES } else { 0 };
        let e_fma3: u32 = if avx && f.fma { EXT_FMA3 } else { 0 };
        let e_fma4: u32 = if avx && fma4 { EXT_FMA4 } else { 0 };
        let e512: u32 = if level == CpuLevel::Avx512 {
            match leaf7 {
                Some((ebx, ecx)) => leaf7_bits(ebx, ecx),
                None => EXT_AVX512F,
            }
        } else {
            0
        };
        CpuIsa { level, ext: e_aes | e_fma3 | e_fma4 | e512 }
    }

    /// The level of this ISA.
    pub fn level(&self) -> (r: CpuLevel)
        ensures
            r == self.level_spec(),
    {
        self.level
    }

    /// The extension bits of this ISA.
    pub fn ext(&self) -> (r: u32)
        ensures
            r == self.ext_spec(),
    {
        self.ext
    }

    /// Human name of the level and its active extensions.
    pub fn as_str(&self) -> (r: &'static str)
        ensures
            r@ == isa_name(self.level_spec(), self.ext_spec()),
    {
        match self.level {
            CpuLevel::Avx512 => avx512_name(self.ext),
            CpuLevel::Avx2 => "avx2",
            CpuLevel::Avx => avx_name(self.ext),
            CpuLevel::Sse42 => "sse4.2",
            CpuLevel::Sse41x => "sse4.1+popcnt",
            CpuLevel::Sse41 => "sse4.1",
            CpuLevel::Ssse3 => "ssse3",
            CpuLevel::Sse3 => "sse3",
            CpuLevel::Sse2 => "sse2",
            CpuLevel::Sse => "sse",
            CpuLevel::Neon => "arm_neon",
            CpuLevel::Power9 => "power9",
            CpuLevel::NoIsa => "none",
        }
    }
}

impl Default for CpuIsa {
    fn default() -> (r: Self)
        ensures
            r.level_spec() == CpuLevel::NoIsa,
            r.ext_spec() == 0,
    {
        Self::none()
    }
}

/// The AVX-512 extension bits of CPUID leaf 7.
pub fn leaf7_bits(ebx: u32, ecx: u32) -> (r: u32)
    ensures
        r == leaf7_ext(ebx, ecx),
{
    (if ebx & (1u32 << 16u32) != 0 { EXT_AVX512F } else { 0 }) | (if ebx & (1u32 << 17u32) != 0 {
        EXT_AVX512DQ
    } else {
        0
    }) | (if ebx & (1u32 << 21u32) != 0 { EXT_AVX512IFMA } else { 0 }) | (if ebx & (1u32 << 26u32)
        != 0 {
        EXT_AVX512PF
    } else {
        0
    }) | (if ebx & (1u32 << 27u32) != 0 { EXT_AVX512ER } else { 0 }) | (if ebx & (1u32 << 28u32)
        != 0 {
        EXT_AVX512CD
    } else {
        0
    }) | (if ebx & (1u32 << 30u32) != 0 { EXT_AVX512BW } else { 0 }) | (if ebx & (1u32 << 31u32)
        != 0 {
        EXT_AVX512VL
    } else {
        0
    }) | (if ecx & (1u32 << 1u32) != 0 { EXT_AVX512VBMI } else { 0 }) | (if ecx & (1u32 << 6u32)
        != 0 {
        EXT_AVX512VBMI2
    } else {
        0
    }) | (if ecx & (1u32 << 11u32) != 0 { EXT_AVX512VNNI } else { 0 })
}

} // verus!
