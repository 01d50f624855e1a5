use dungeon_cracker::lcg::LCG;
use dungeon_cracker::chunk_rand::{ChunkRand, MCVersion};

#[test]
fn test_java_lcg_basic() {
    let lcg = LCG::java();
    let s1 = lcg.next_seed(0);
    assert_eq!(s1, 0xB);
    let s2 = lcg.next_seed(s1);
    assert_eq!(s2, (0xB_i64.wrapping_mul(0x5DEECE66D) + 0xB) & ((1 << 48) - 1));
}

#[test]
fn test_combine_identity() {
    let lcg = LCG::java();
    let combined = lcg.combine(1);
    assert_eq!(combined.multiplier, lcg.multiplier);
    assert_eq!(combined.addend, lcg.addend);
}

#[test]
fn test_combine_invert() {
    let lcg = LCG::java();
    let inv = lcg.invert();
    let seed: i64 = 12345;
    let next = lcg.next_seed(seed);
    let back = inv.next_seed(next);
    assert_eq!(back, seed);
}

#[test]
fn test_mod_inverse_16_of_3() {
    let r = dungeon_cracker::mth::mod_inverse_16(3);
    assert_eq!((3 * r) & 0xFFFF, 1);
}

#[test]
fn test_next_long_reverser_zero() {
    let ws = dungeon_cracker::next_long_reverser::get_next_long_equivalents(0);
    assert!(ws.contains(&0));
}

#[test]
fn test_population_seed_forward() {
    let mut r = ChunkRand::new();
    let p = r.set_population_seed(12345, 16, -32, MCVersion::V1_14);
    assert!(p >= 0 && p < (1i64 << 48));
    let mut r2 = ChunkRand::new();
    assert_eq!(r2.set_population_seed(12345, 16, -32, MCVersion::V1_14), p);
}

#[test]
fn test_mod_inverse_large_odd() {
    let x: i64 = 0x7FFF_FFFF_FFFF_FFFB; // large odd value
    let r = dungeon_cracker::mth::mod_inverse(x, 16);
    assert_eq!(x.wrapping_mul(r) & 0xFFFF, 1);
    let rn = dungeon_cracker::mth::mod_inverse(-3, 16);
    assert_eq!((-3i64).wrapping_mul(rn) & 0xFFFF, 1);
}
