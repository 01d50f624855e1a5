use dungeon_cracker::dungeon_data_parser::DungeonDataParser;
use dungeon_cracker::reverser_instruction::InstructionType;
use dungeon_cracker::reverse_dungeon::{get_salts, get_sequence, BiomeType, FloorSize};
use dungeon_cracker::chunk_rand::MCVersion;
use dungeon_cracker::population_reverser::reverse_population_seed;
use dungeon_cracker::chunk_rand::ChunkRand;
use dungeon_cracker::filtered_skip::{FilterKind, FilteredSkip};
use dungeon_cracker::lcg::LCG;
use dungeon_cracker::rand::Rand;

#[test]
fn test_parse_mixed_sequence() {
    // A mix of all five digit tiles parses and expands.
    let seq: Vec<u8> = b"112311421".to_vec();
    let possibilities = DungeonDataParser::get_all_possibilities(&seq).unwrap();
    // One mutable unknown with range [0, 1]: two concrete programs.
    assert_eq!(possibilities.len(), 2);
    for program in &possibilities {
        for instr in program {
            assert!(instr.instruction_type != InstructionType::MutableSkip);
        }
    }
}

#[test]
fn test_parse_all_air() {
    // All-air yields a single empty program.
    let seq: Vec<u8> = b"22222".to_vec();
    let possibilities = DungeonDataParser::get_all_possibilities(&seq).unwrap();
    assert_eq!(possibilities.len(), 1);
    assert!(possibilities[0].is_empty());
}

#[test]
fn test_parse_merges_unknown_runs() {
    // Three consecutive unknowns merge into one mutable skip of range [0, 3]:
    // four concrete programs.
    let seq: Vec<u8> = b"1333".to_vec();
    // Trailing mutable skips are elided entirely.
    let possibilities = DungeonDataParser::get_all_possibilities(&seq).unwrap();
    assert_eq!(possibilities.len(), 1);
    assert_eq!(possibilities[0].len(), 1);
    // With a cobble after them they stay.
    let seq2: Vec<u8> = b"13331".to_vec();
    let possibilities2 = DungeonDataParser::get_all_possibilities(&seq2).unwrap();
    assert_eq!(possibilities2.len(), 4);
}

#[test]
fn test_parse_too_many_possibilities() {
    // Eight separated unknowns: 2^8 = 256 > 128 programs.
    let seq: Vec<u8> = b"313131313131313131".to_vec();
    assert!(DungeonDataParser::get_all_possibilities(&seq).is_none());
}

#[test]
fn test_get_salts() {
    assert_eq!(get_salts(MCVersion::V1_13, BiomeType::NotDesert), vec![20003]);
    assert_eq!(get_salts(MCVersion::V1_16, BiomeType::Desert), vec![30003]);
    assert_eq!(get_salts(MCVersion::V1_16, BiomeType::NotDesert), vec![30002]);
    assert_eq!(get_salts(MCVersion::V1_16, BiomeType::Unknown), vec![30002, 30003]);
}

#[test]
fn test_get_sequence_window() {
    let mut floor: Vec<Vec<u8>> = vec![vec![4u8; 9]; 9];
    floor[0][0] = 1;
    floor[4][4] = 2;
    let seq = get_sequence(&floor, FloorSize::S9x9);
    assert_eq!(seq.len(), 81);
    assert_eq!(seq[0], b'1'); // x=0, z=0
    assert_eq!(seq[4 * 9 + 4], b'2');
    let seq7 = get_sequence(&floor, FloorSize::S7x7);
    assert_eq!(seq7.len(), 49);
    assert_eq!(seq7[0], b'4'); // window starts at (1, 1)
}

#[test]
fn test_population_reverse_round_trip() {
    // Forward-compute a population seed, then check the reverser finds the
    // world seed again.
    let ws: i64 = 987654321;
    let (x, z) = (160i32, -96i32);
    let mut r = ChunkRand::new();
    let pop = r.set_population_seed(ws, x, z, MCVersion::V1_14);
    let found = reverse_population_seed(pop, x, z, MCVersion::V1_14);
    assert!(found.contains(&(ws & 0xFFFF_FFFF_FFFF)));
    for s in &found {
        let mut r2 = ChunkRand::new();
        assert_eq!(r2.set_population_seed(*s, x, z, MCVersion::V1_14), pop);
    }
}

#[test]
fn test_filtered_skip_check() {
    let skip = FilteredSkip::new(3, FilterKind::NextIntNotZero { bound: 4 });
    let java = LCG::java();
    let mut rand = Rand::of_internal_seed(&java, 123456789);
    let passed = skip.check_state(&mut rand);
    // Reference: advance three steps by hand, then draw nextInt(4).
    let mut reference = Rand::of_internal_seed(&java, 123456789);
    reference.advance(3);
    let expected = reference.next_int(4) != 0;
    assert_eq!(passed, expected);
}
