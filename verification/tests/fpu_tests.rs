use krun::fpu::{
    box32, f32_fma, f32_minmax, f32_op2, f64_op2, f64_to_f32_rm, fcvt_to_int, unbox32, Fmt,
    IntKind, Op2, Rm, DZ, NV, NX, QNAN32, QNAN64,
};

#[test]
fn add_flags_exact_and_inexact() {
    // 1.0 + 2.0 = 3.0 exact
    let (r, fl) = f32_op2(0x3f80_0000, 0x4000_0000, Op2::Add, Rm::Rne);
    assert_eq!(f32::from_bits(r), 3.0);
    assert_eq!(fl, 0);
    // 1.0 + 2^-30: inexact
    let tiny = (1.0f32 / (1u64 << 30) as f32).to_bits();
    let (r, fl) = f32_op2(0x3f80_0000, tiny, Op2::Add, Rm::Rne);
    assert_eq!(f32::from_bits(r), 1.0);
    assert_eq!(fl, NX);
}

#[test]
fn div_by_zero_and_invalid() {
    let one = 1.0f64.to_bits();
    let zero = 0.0f64.to_bits();
    let (r, fl) = f64_op2(one, zero, Op2::Div, Rm::Rne);
    assert!(f64::from_bits(r).is_infinite());
    assert_eq!(fl, DZ);
    let (r, fl) = f64_op2(zero, zero, Op2::Div, Rm::Rne);
    assert_eq!(r, QNAN64);
    assert_eq!(fl, NV);
}

#[test]
fn minmax_zero_and_nan() {
    let nz = 0x8000_0000u32; // -0.0f32
    let pz = 0u32;
    assert_eq!(f32_minmax(nz, pz, false).0, nz);
    assert_eq!(f32_minmax(nz, pz, true).0, pz);
    let qnan = QNAN32;
    assert_eq!(f32_minmax(qnan, pz, false), (pz, 0));
    let snan = 0x7f80_0001u32;
    assert_eq!(f32_minmax(snan, pz, false), (pz, NV));
    assert_eq!(f32_minmax(qnan, qnan, true), (QNAN32, 0));
}

#[test]
fn cvt_wu_negative_saturates() {
    let (r, fl) = fcvt_to_int(Fmt::Double, (-3.0f64).to_bits(), IntKind::Wu, Rm::Rtz);
    assert_eq!(r, 0);
    assert_eq!(fl, NV);
    let (r, fl) = fcvt_to_int(Fmt::Double, (-0.9f64).to_bits(), IntKind::Wu, Rm::Rtz);
    assert_eq!(r, 0);
    assert_eq!(fl, NX);
}

#[test]
fn cvt_round_modes() {
    let (r, fl) = fcvt_to_int(Fmt::Double, (-1.1f64).to_bits(), IntKind::W, Rm::Rtz);
    assert_eq!(r as i64, -1);
    assert_eq!(fl, NX);
    let (r, _) = fcvt_to_int(Fmt::Double, (-1.1f64).to_bits(), IntKind::W, Rm::Rdn);
    assert_eq!(r as i64, -2);
    let (r, _) = fcvt_to_int(Fmt::Double, (1.5f64).to_bits(), IntKind::W, Rm::Rne);
    assert_eq!(r as i64, 2);
    let (r, _) = fcvt_to_int(Fmt::Double, (2.5f64).to_bits(), IntKind::W, Rm::Rne);
    assert_eq!(r as i64, 2);
}

#[test]
fn f64_to_f32_rounding() {
    // A value exactly between two f32s rounds to even.
    let v = 0x3ff0_0000_1000_0000u64;
    let (bits, fl) = f64_to_f32_rm(v, Rm::Rne);
    assert_eq!(bits, 0x3f80_0000);
    assert_eq!(fl, NX);
    let (bits, _) = f64_to_f32_rm(v, Rm::Rup);
    assert_eq!(bits, 0x3f80_0001);
    // sNaN in -> NV + canonical qNaN out.
    let (bits, fl) = f64_to_f32_rm(0x7ff0_0000_0000_0001, Rm::Rne);
    assert_eq!(bits, QNAN32);
    assert_eq!(fl, NV);
}

#[test]
fn fma_invalid_zero_times_inf() {
    let (r, fl) = f32_fma(0, 0x7f80_0000, QNAN32, false, false);
    assert_eq!(r, QNAN32);
    assert_eq!(fl, NV);
}

#[test]
fn nan_boxing() {
    assert_eq!(unbox32(box32(0x3f80_0000)), 0x3f80_0000);
    assert_eq!(unbox32(0x0000_0000_3f80_0000), QNAN32);
}
