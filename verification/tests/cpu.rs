use oxid64::engine::CpuFeatures;
use oxid64::perf::mode_supported;
use oxid64::cpu::{
    CpuIsa, CpuLevel, X86Features, EXT_AES, EXT_AVX512BW, EXT_AVX512F, EXT_AVX512VBMI,
    EXT_FMA3, EXT_FMA4,
};

fn features() -> X86Features {
    X86Features {
        avx512f: false,
        avx2: false,
        avx: false,
        sse42: false,
        sse41: false,
        ssse3: false,
        sse3: false,
        sse2: false,
        sse: false,
        popcnt: false,
        aes: false,
        fma: false,
    }
}

#[test]
fn level_codes_are_ordered() {
    assert!(CpuLevel::Avx512.code() > CpuLevel::Avx2.code());
    assert!(CpuLevel::Avx2.code() > CpuLevel::Avx.code());
    assert!(CpuLevel::Sse41x.code() > CpuLevel::Sse41.code());
    assert_eq!(CpuLevel::Ssse3.code(), 0x32);
    assert_eq!(CpuLevel::NoIsa.code(), 0);
}

#[test]
fn isa_from_features_and_names() {
    let isa = CpuIsa::from_x86(&features(), None, false);
    assert_eq!(isa.level(), CpuLevel::NoIsa);
    assert_eq!(isa.as_str(), "none");
    assert_eq!(CpuIsa::default().as_str(), "none");

    let mut f = features();
    f.sse41 = true;
    f.popcnt = true;
    assert_eq!(CpuIsa::from_x86(&f, None, false).as_str(), "sse4.1+popcnt");
    f.popcnt = false;
    assert_eq!(CpuIsa::from_x86(&f, None, false).as_str(), "sse4.1");

    let mut f = features();
    f.avx = true;
    f.fma = true;
    f.aes = true;
    let isa = CpuIsa::from_x86(&f, None, true);
    assert_eq!(isa.level(), CpuLevel::Avx);
    assert_eq!(isa.ext(), EXT_AES | EXT_FMA3 | EXT_FMA4);
    assert_eq!(isa.as_str(), "avx+fma3+fma4+aes");

    // FMA bits need AVX; AES does not.
    let mut f = features();
    f.sse42 = true;
    f.fma = true;
    f.aes = true;
    let isa = CpuIsa::from_x86(&f, None, true);
    assert_eq!(isa.ext(), EXT_AES);
    assert_eq!(isa.as_str(), "sse4.2");

    let mut f = features();
    f.avx512f = true;
    let isa = CpuIsa::from_x86(&f, None, false);
    assert_eq!(isa.ext(), EXT_AVX512F);
    assert_eq!(isa.as_str(), "avx512f");
    let isa = CpuIsa::from_x86(&f, Some(((1 << 16) | (1 << 30), 1 << 1)), false);
    assert_eq!(isa.ext(), EXT_AVX512F | EXT_AVX512BW | EXT_AVX512VBMI);
    assert_eq!(isa.as_str(), "avx512vbmi");
    let isa = CpuIsa::from_x86(&f, Some((0, 0)), false);
    assert_eq!(isa.as_str(), "avx512");
}

#[test]
fn bench_modes_follow_cpu_features() {
    let x86 = CpuFeatures { avx512vbmi: false, avx2: true, ssse3: true, neon: false, simd128: false };
    assert!(mode_supported("oxid64-ssse3-decode-api", &x86));
    assert!(mode_supported("tb64-avx2-encode", &x86));
    assert!(!mode_supported("oxid64-avx512-decode-kernel", &x86));
    assert!(!mode_supported("oxid64-neon-decode-api", &x86));
    assert!(!mode_supported("oxid64-scalar", &x86));
    assert!(!mode_supported("oxid64", &x86));
    let arm = CpuFeatures { avx512vbmi: false, avx2: false, ssse3: false, neon: true, simd128: false };
    assert!(mode_supported("oxid64-neon-encode-kernel", &arm));
    assert!(!mode_supported("oxid64-ssse3-decode-api", &arm));
}
