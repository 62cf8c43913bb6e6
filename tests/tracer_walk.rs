use cairo_vm::types::instruction::{Op1Addr, Opcode};
use cairo_vm::Felt252;
use tracer::felt::{next_address, Felt};
use tracer::tracer::{
    get_instruction_encoding, make_tracer_data, max_trace_pc, memory_display_map, TraceEntry,
    TraceError,
};

// [ap] = imm; ap++ : carries an immediate in the next cell.
const PUSH_IMM: u64 = 0x480680017fff8000;
// ret : one cell.
const RET: u64 = 0x208b7fff7fff7ffe;
// op1 source 3 matches no operand kind.
const BAD: u64 = 0x000c000000000000;

fn felt(v: u64) -> Felt {
    let mut bytes_le = [0u8; 32];
    bytes_le[..8].copy_from_slice(&v.to_le_bytes());
    Felt { bytes_le }
}

fn entry(pc: usize) -> TraceEntry {
    TraceEntry { pc, ap: 100 + pc, fp: 200 }
}

fn program() -> Vec<Option<Felt>> {
    vec![
        None,
        Some(felt(PUSH_IMM)),
        Some(felt(5)),
        Some(felt(RET)),
        Some(felt(RET)),
    ]
}

#[test]
fn walk_skips_immediate_cell() {
    let data = make_tracer_data(vec![entry(1), entry(3), entry(4)], program()).unwrap();
    let mut keys: Vec<usize> = data.pc_inst_map.keys().copied().collect();
    keys.sort();
    assert_eq!(keys, vec![1, 3, 4]);
    assert_eq!(data.pc_inst_map[&1].op1_addr, Op1Addr::Imm);
    assert_eq!(data.pc_inst_map[&1].opcode, Opcode::AssertEq);
    assert_eq!(data.pc_inst_map[&3].opcode, Opcode::Ret);
    assert!(!data.pc_inst_map.contains_key(&2));
    assert_eq!(data.pc_to_inst_indexes_map[&3], data.pc_to_inst_indexes_map[&1] + 1);
}

#[test]
fn walk_indexes_count_up_from_zero() {
    let data = make_tracer_data(vec![entry(4), entry(1)], program()).unwrap();
    let mut pairs: Vec<(usize, usize)> =
        data.pc_to_inst_indexes_map.iter().map(|(k, v)| (*k, *v)).collect();
    pairs.sort();
    assert_eq!(pairs, vec![(1, 0), (3, 1), (4, 2)]);
}

#[test]
fn walk_covers_every_address_up_to_max_pc() {
    let data = make_tracer_data(vec![entry(3)], program()).unwrap();
    for a in 1..=3usize {
        let covered = data.pc_inst_map.contains_key(&a)
            || (data.pc_inst_map.contains_key(&(a - 1))
                && data.pc_inst_map[&(a - 1)].op1_addr == Op1Addr::Imm);
        assert!(covered);
    }
    assert!(!data.pc_inst_map.contains_key(&4));
}

#[test]
fn walk_is_deterministic() {
    let a = make_tracer_data(vec![entry(1), entry(4)], program()).unwrap();
    let b = make_tracer_data(vec![entry(1), entry(4)], program()).unwrap();
    assert_eq!(a.pc_inst_map, b.pc_inst_map);
    assert_eq!(a.pc_to_inst_indexes_map, b.pc_to_inst_indexes_map);
    assert_eq!(a.memory, b.memory);
    assert_eq!(a.trace, b.trace);
}

#[test]
fn walk_keeps_trace() {
    let trace = vec![entry(3), entry(1), entry(3)];
    let data = make_tracer_data(trace.clone(), program()).unwrap();
    assert_eq!(data.trace, trace);
}

#[test]
fn empty_trace_gives_empty_maps() {
    let data = make_tracer_data(Vec::new(), program()).unwrap();
    assert!(data.pc_inst_map.is_empty());
    assert!(data.pc_to_inst_indexes_map.is_empty());
    assert_eq!(data.memory.len(), 4);
}

#[test]
fn gap_fails_with_unmapped_pc() {
    let memory = vec![None, Some(felt(RET)), None, Some(felt(RET))];
    let r = make_tracer_data(vec![entry(3)], memory);
    assert!(matches!(r, Err(TraceError::UnmappedProgramCounter { pc: 2 })));
}

#[test]
fn pc_past_memory_fails_with_unmapped_pc() {
    let r = make_tracer_data(vec![entry(9)], program());
    assert!(matches!(r, Err(TraceError::UnmappedProgramCounter { pc: 5 })));
}

#[test]
fn bad_encoding_fails() {
    let memory = vec![None, Some(felt(RET)), Some(felt(BAD))];
    let r = make_tracer_data(vec![entry(2)], memory);
    assert!(matches!(r, Err(TraceError::MalformedEncoding { pc: 2 })));
}

#[test]
fn immediate_cell_may_be_anything() {
    let memory = vec![None, Some(felt(PUSH_IMM)), Some(felt(BAD)), Some(felt(RET))];
    let data = make_tracer_data(vec![entry(3)], memory).unwrap();
    assert_eq!(data.pc_to_inst_indexes_map[&3], 1);
}

#[test]
fn memory_display_is_one_based() {
    let mut memory: Vec<Option<Felt>> = vec![None; 6];
    memory[0] = Some(felt(10));
    memory[2] = Some(felt(255));
    memory[5] = Some(felt(0));
    let display = memory_display_map(&memory);
    let mut keys: Vec<usize> = display.keys().copied().collect();
    keys.sort();
    assert_eq!(keys, vec![1, 3, 6]);
    assert_eq!(display[&1], "0xa");
    assert_eq!(display[&3], "0xff");
    assert_eq!(display[&6], "0x0");
    assert_eq!(display[&3], Felt252::from(255u64).to_hex_string());
}

#[test]
fn felt_hex_of_large_value() {
    let f = Felt { bytes_le: Felt252::from(u128::MAX).to_bytes_le() };
    assert_eq!(f.to_hex_string(), "0xffffffffffffffffffffffffffffffff");
}

#[test]
fn felt_low_word() {
    assert_eq!(felt(0x1122334455667788).low_u64(), 0x1122334455667788);
    let mut bytes_le = [0u8; 32];
    bytes_le[8] = 1;
    assert_eq!(Felt { bytes_le }.low_u64(), 0);
}

#[test]
fn encoding_with_immediate() {
    let memory = program();
    let (word, imm) = get_instruction_encoding(1, &memory).unwrap();
    assert_eq!(word, felt(PUSH_IMM));
    assert_eq!(imm, Some(felt(5)));
    let (_, last) = get_instruction_encoding(4, &memory).unwrap();
    assert_eq!(last, None);
    assert_eq!(get_instruction_encoding(0, &memory), Err(TraceError::UnmappedProgramCounter { pc: 0 }));
    assert_eq!(get_instruction_encoding(7, &memory), Err(TraceError::UnmappedProgramCounter { pc: 7 }));
}

#[test]
fn next_address_reduces() {
    assert_eq!(next_address(5), Some(6));
    assert_eq!(next_address(0), Some(1));
    assert_eq!(next_address(usize::MAX), None);
}

#[test]
fn max_pc_of_trace() {
    assert_eq!(max_trace_pc(&vec![entry(3), entry(7), entry(2)]), 7);
    assert_eq!(max_trace_pc(&Vec::new()), 0);
}
