//! Exact values of the parts of the library.
use copy_circuit::binary_number::BinaryNumberConfig;
use copy_circuit::constraint_builder::{and, not, or, ConstraintBuilder};
use copy_circuit::constraint_system::{ConstraintSystem, LookupTable};
use copy_circuit::copy_circuit::{number_or_hash_to_field, CopyCircuit};
use copy_circuit::copy_event::{Block, CopyDataType, CopyEvent, NumberOrHash};
use copy_circuit::copy_table::{build_tx_log_address, CopyTable};
use copy_circuit::expression::{
    query_advice, query_fixed, query_instance, query_selector, AdviceColumn, Expression,
    FixedColumn, Rotation,
};
use copy_circuit::field::Felt;
use copy_circuit::less_than::LtConfig;
use copy_circuit::region::{Annotation, Assignment, Label, Region};
use copy_circuit::rlc::random_linear_combine;

/// The element of a number of 128 bits.
fn felt(n: u128) -> Felt {
    let mut repr = [0; 32];
    repr[..16].copy_from_slice(&n.to_le_bytes());
    Felt::from_repr(repr).unwrap()
}

/// The bytes of the modulus, the lowest first.
fn modulus() -> [u8; 32] {
    let mut repr = [0; 32];
    repr[0] = 1;
    repr[4..16].copy_from_slice(&[
        0xed, 0x30, 0x2d, 0x99, 0x1b, 0xf9, 0x4c, 0x09, 0xfc, 0x98, 0x46, 0x22,
    ]);
    repr[31] = 0x40;
    repr
}

fn minus_one() -> Felt {
    Felt::from_u64(0).sub(Felt::from_u64(1))
}

#[test]
fn field_elements_of_numbers() {
    let mut repr = [0; 32];
    repr[0] = 0x34;
    repr[1] = 0x12;
    assert_eq!(Felt::from_u64(0x1234).to_repr(), repr);
    assert_eq!(Felt::from_bool(true), Felt::from_u64(1));
    assert_eq!(Felt::from_bool(false), Felt::from_u64(0));
    assert_eq!(felt(u64::MAX as u128), Felt::from_u64(u64::MAX));
}

#[test]
fn field_operations() {
    assert_eq!(Felt::from_u64(20).add(Felt::from_u64(22)), Felt::from_u64(42));
    assert_eq!(Felt::from_u64(50).sub(Felt::from_u64(8)), Felt::from_u64(42));
    assert_eq!(Felt::from_u64(6).mul(Felt::from_u64(7)), Felt::from_u64(42));
    assert_eq!(felt(1 << 80).mul(felt(1 << 40)), felt(1 << 120));
    assert!(Felt::from_u64(3).lt(&Felt::from_u64(4)));
    assert!(!Felt::from_u64(4).lt(&Felt::from_u64(4)));
    assert!(!Felt::from_u64(5).lt(&Felt::from_u64(4)));
}

#[test]
fn field_operations_wrap_at_the_modulus() {
    let mut below = modulus();
    below[0] = 0;
    assert_eq!(minus_one().to_repr(), below);
    assert_eq!(minus_one().add(Felt::from_u64(3)), Felt::from_u64(2));
    assert_eq!(minus_one().mul(minus_one()), Felt::from_u64(1));
    assert!(Felt::from_u64(0).lt(&minus_one()));
}

#[test]
fn only_canonical_bytes_are_elements() {
    let mut below = modulus();
    below[0] = 0;
    assert_eq!(Felt::from_repr(below), Some(minus_one()));
    assert_eq!(Felt::from_repr(modulus()), None);
    assert_eq!(Felt::from_repr([0xff; 32]), None);
    assert_eq!(Felt::from_repr([0; 32]), Some(Felt::from_u64(0)));
}

#[test]
fn number_is_encoded_as_itself() {
    let r = Felt::from_u64(1000);
    assert_eq!(number_or_hash_to_field(&NumberOrHash::Number(77), r), Felt::from_u64(77));
    assert_eq!(number_or_hash_to_field(&NumberOrHash::Number(0), r), Felt::from_u64(0));
}

#[test]
fn hash_is_combined_from_its_last_byte_on() {
    let mut hash = [0; 32];
    hash[31] = 5;
    hash[30] = 6;
    hash[29] = 7;
    let r = Felt::from_u64(1000);
    let value = number_or_hash_to_field(&NumberOrHash::Hash(hash), r);
    assert_eq!(value, Felt::from_u64(7_006_005));
    let mut high = [0; 32];
    high[0] = 1;
    let power = number_or_hash_to_field(&NumberOrHash::Hash(high), Felt::from_u64(2));
    assert_eq!(power, Felt::from_u64(1 << 31));
}

#[test]
fn linear_combination_starts_with_the_constant() {
    let r = Felt::from_u64(10);
    assert_eq!(random_linear_combine(&[1, 2, 3], r), Felt::from_u64(321));
    assert_eq!(random_linear_combine(&[], r), Felt::from_u64(0));
    assert_eq!(random_linear_combine(&[9], minus_one()), Felt::from_u64(9));
    assert_eq!(random_linear_combine(&[9, 4], minus_one()), Felt::from_u64(5));
}

#[test]
fn log_address_holds_index_field_and_log() {
    assert_eq!(build_tx_log_address(7, 0), Felt::from_u64((3 << 32) + 7));
    assert_eq!(build_tx_log_address(7, 2), Felt::from_u64((2 << 48) + (3 << 32) + 7));
    let far = build_tx_log_address(u64::MAX, u64::MAX);
    assert_eq!(far, felt(u64::MAX as u128 + (3 << 32) + ((u64::MAX as u128) << 48)));
}

#[test]
fn types_have_bits() {
    assert_eq!(CopyDataType::Bytecode.as_bits(), [false, false, true]);
    assert_eq!(CopyDataType::Memory.as_bits(), [false, true, false]);
    assert_eq!(CopyDataType::TxCalldata.as_bits(), [false, true, true]);
    assert_eq!(CopyDataType::TxLog.as_bits(), [true, false, false]);
    assert_eq!(CopyDataType::RlcAcc.as_bits(), [true, false, true]);
    assert_eq!(CopyDataType::default(), CopyDataType::Memory);
}

#[test]
fn labels_have_names() {
    let labels = [
        (Label::IsFirst, "is_first"),
        (Label::Id, "id"),
        (Label::Addr, "addr"),
        (Label::SrcAddrEnd, "src_addr_end"),
        (Label::BytesLeft, "bytes_left"),
        (Label::RlcAcc, "rlc_acc"),
        (Label::RwCounter, "rw_counter"),
        (Label::RwcIncLeft, "rwc_inc_left"),
        (Label::IsLast, "is_last"),
        (Label::Value, "value"),
        (Label::IsPad, "is_pad"),
        (Label::IsCode, "is_code"),
    ];
    for (label, name) in labels {
        assert_eq!(label.name(), name);
    }
}

/// Three bytes of memory to a log, the last one beyond the source.
fn event() -> CopyEvent {
    CopyEvent {
        src_addr: 10,
        src_addr_end: 12,
        src_type: CopyDataType::Memory,
        src_id: NumberOrHash::Number(3),
        dst_addr: 0,
        dst_type: CopyDataType::TxLog,
        dst_id: NumberOrHash::Number(4),
        log_id: Some(1),
        rw_counter_start: 100,
        bytes: vec![(5, false), (6, true), (0, false)],
    }
}

#[test]
fn rw_counter_counts_operations() {
    let e = event();
    let counters: Vec<u64> = (0..=6).map(|step| e.rw_counter(step)).collect();
    assert_eq!(counters, vec![100, 101, 102, 103, 104, 104, 105]);
    let left: Vec<u64> = (0..=6).map(|step| e.rw_counter_increase_left(step)).collect();
    assert_eq!(left, vec![5, 4, 3, 2, 1, 1, 0]);
}

#[test]
fn rw_counter_stands_still_without_operations() {
    let mut e = event();
    e.src_type = CopyDataType::TxCalldata;
    e.dst_type = CopyDataType::RlcAcc;
    assert_eq!(e.rw_counter(6), 100);
    assert_eq!(e.rw_counter_increase_left(0), 0);
    e.src_type = CopyDataType::Memory;
    e.src_addr = 20;
    assert_eq!(e.rw_counter(6), 100);
}

#[test]
fn well_formed_events() {
    assert!(event().is_well_formed());
    let mut e = event();
    e.log_id = None;
    assert!(!e.is_well_formed());
    e.dst_type = CopyDataType::Memory;
    assert!(e.is_well_formed());
    e.src_type = CopyDataType::TxLog;
    assert!(!e.is_well_formed());
    e.src_type = CopyDataType::RlcAcc;
    assert!(!e.is_well_formed());
    e.src_type = CopyDataType::Bytecode;
    assert!(e.is_well_formed());
    e.dst_type = CopyDataType::TxCalldata;
    assert!(!e.is_well_formed());
}

#[test]
fn well_formed_events_fit_their_counters() {
    let mut e = event();
    e.src_addr = u64::MAX - 2;
    assert!(e.is_well_formed());
    e.src_addr = u64::MAX - 1;
    assert!(!e.is_well_formed());
    e.src_addr = 0;
    e.dst_addr = u64::MAX - 1;
    assert!(!e.is_well_formed());
    e.dst_addr = 0;
    // Two reads within the source and three writes to a log.
    e = event();
    e.rw_counter_start = u64::MAX - 5;
    assert!(e.is_well_formed());
    assert_eq!(e.rw_counter(6), u64::MAX);
    e.rw_counter_start = u64::MAX - 4;
    assert!(!e.is_well_formed());
    e.dst_type = CopyDataType::RlcAcc;
    assert!(e.is_well_formed());
}

#[test]
fn events_without_bytes_are_well_formed() {
    let mut e = event();
    e.bytes.clear();
    e.src_type = CopyDataType::TxLog;
    e.dst_type = CopyDataType::TxCalldata;
    e.log_id = None;
    e.src_addr = u64::MAX;
    e.rw_counter_start = u64::MAX;
    assert!(e.is_well_formed());
    assert_eq!(CopyTable::assignments(&e, Felt::from_u64(1000)).len(), 0);
}

#[test]
fn assignable_blocks() {
    assert!(Block { copy_events: vec![] }.can_be_assigned());
    assert!(Block { copy_events: vec![event(), event()] }.can_be_assigned());
    let mut e = event();
    e.log_id = None;
    assert!(!Block { copy_events: vec![event(), e] }.can_be_assigned());
}

#[test]
fn rows_of_an_event() {
    let rows = CopyTable::assignments(&event(), Felt::from_u64(1000));
    assert_eq!(rows.len(), 6);
    let log = (1 << 48) + (3 << 32);
    let tables: Vec<[u64; 8]> = vec![
        [1, 3, 10, 12, 3, 0, 100, 5],
        [0, 4, log, 12, 2, 0, 101, 4],
        [0, 3, 11, 12, 2, 0, 102, 3],
        [0, 4, log + 1, 12, 1, 0, 103, 2],
        [0, 3, 12, 12, 1, 0, 104, 1],
        [0, 4, log + 2, 12, 0, 0, 104, 1],
    ];
    let circuits: Vec<[u64; 4]> = vec![
        [0, 5, 0, 0],
        [0, 5, 0, 0],
        [0, 6, 0, 0],
        [0, 6, 0, 0],
        [0, 0, 1, 0],
        [1, 0, 0, 0],
    ];
    for (i, (tag, table, circuit)) in rows.iter().enumerate() {
        let expected = [CopyDataType::Memory, CopyDataType::TxLog][i % 2];
        assert_eq!(*tag, expected);
        for j in 0..8 {
            assert_eq!(table[j].0, Felt::from_u64(tables[i][j]), "row {} cell {}", i, j);
        }
        for j in 0..4 {
            assert_eq!(circuit[j].0, Felt::from_u64(circuits[i][j]), "row {} cell {}", i, j);
        }
    }
    assert_eq!(rows[0].1[3].1, Label::SrcAddrEnd);
    assert_eq!(rows[0].2[1].1, Label::Value);
}

#[test]
fn accumulated_rows_of_an_event() {
    let mut e = event();
    e.dst_type = CopyDataType::RlcAcc;
    e.src_addr_end = 13;
    e.bytes[2].0 = 7;
    let rows = CopyTable::assignments(&e, Felt::from_u64(1000));
    let values: Vec<Felt> = rows.iter().map(|row| row.2[1].0).collect();
    let expected = [5, 5, 6, 5_006, 7, 5_006_007].map(Felt::from_u64);
    assert_eq!(values, expected);
    for row in rows.iter() {
        assert_eq!(row.1[5].0, Felt::from_u64(5_006_007));
    }
}

#[test]
fn accumulating_is_combining_in_reverse() {
    let mut e = event();
    e.dst_type = CopyDataType::RlcAcc;
    let r = minus_one().sub(Felt::from_u64(41));
    let rows = CopyTable::assignments(&e, r);
    assert_eq!(rows[0].1[5].0, random_linear_combine(&[0, 6, 5], r));
    assert_eq!(rows[3].2[1].0, random_linear_combine(&[6, 5], r));
}

#[test]
fn opcodes_are_marked_in_bytecode_alone() {
    let mut e = event();
    e.src_type = CopyDataType::Bytecode;
    let rows = CopyTable::assignments(&e, Felt::from_u64(1000));
    let marks: Vec<Felt> = rows.iter().map(|row| row.2[3].0).collect();
    assert_eq!(marks, [0, 0, 1, 0, 0, 0].map(Felt::from_u64));
}

/// The circuit over tables of these widths.
fn configured(tx: usize, rw: usize, bytecode: usize) -> (ConstraintSystem, CopyCircuit) {
    let mut system = ConstraintSystem::new();
    let mut table = |width: usize| LookupTable {
        exprs: (0..width).map(|_| query_fixed(system.fixed_column())).collect(),
    };
    let (tx_table, rw_table, bytecode_table) = (table(tx), table(rw), table(bytecode));
    let q_enable = system.fixed_column();
    let copy_table = CopyTable::construct(&mut system, q_enable);
    let circuit = CopyCircuit::configure(
        &mut system,
        &tx_table,
        &rw_table,
        &bytecode_table,
        copy_table,
        q_enable,
        Expression::constant(123456),
    );
    (system, circuit)
}

#[test]
fn configured_system() {
    let (system, circuit) = configured(4, 11, 5);
    assert_eq!(system.num_advice, 24);
    assert_eq!(system.num_fixed, 21);
    assert_eq!(system.num_instance, 0);
    assert_eq!(system.num_selectors, 1);
    let gates: Vec<(&str, usize)> =
        system.gates.iter().map(|gate| (gate.name, gate.constraints.len())).collect();
    let bit = ("bit column is 0 or 1", 1);
    assert_eq!(
        gates,
        vec![
            bit,
            bit,
            bit,
            ("binary number value in range", 3),
            ("lt gate", 2),
            ("verify row", 13),
            ("verify step (q_step == 1)", 7),
            ("verify_step (q_step == 0)", 1),
        ]
    );
    assert_eq!(system.gates[5].constraints[4].name, "rows[0].id == rows[2].id");
    let lookups: Vec<(&str, usize)> =
        system.lookups.iter().map(|lookup| (lookup.name, lookup.pairs.len())).collect();
    assert_eq!(
        lookups,
        vec![
            ("Memory lookup", 11),
            ("TxLog lookup", 11),
            ("Bytecode lookup", 5),
            ("Tx calldata lookup", 4),
        ]
    );
    assert!(matches!(
        system.lookups[2].pairs[0].1,
        Expression::Fixed(FixedColumn { index: 15 })
    ));
    assert_eq!(circuit.is_last, AdviceColumn { index: 11 });
    assert_eq!(circuit.q_step.index, 0);
}

#[test]
fn narrow_tables_are_looked_up_on_their_columns() {
    let (system, _) = configured(2, 20, 5);
    assert_eq!(system.lookups[0].pairs.len(), 11);
    assert_eq!(system.lookups[3].pairs.len(), 2);
}

#[test]
fn columns_of_the_circuit_are_distinct() {
    let (system, circuit) = configured(4, 11, 5);
    let mut indices: Vec<usize> = circuit.copy_table.columns().iter().map(|c| c.index).collect();
    indices.extend(circuit.copy_table.tag.bits.iter().map(|c| c.index));
    indices.extend([
        circuit.is_last.index,
        circuit.value.index,
        circuit.is_pad.index,
        circuit.is_code.index,
        circuit.addr_lt_addr_end.lt.index,
    ]);
    indices.extend(circuit.addr_lt_addr_end.diff.iter().map(|c| c.index));
    indices.sort();
    assert_eq!(indices, (0..system.num_advice).collect::<Vec<_>>());
}

/// The last value of an advice cell.
fn cell(region: &Region, column: AdviceColumn, row: usize) -> Option<Felt> {
    region.assignments.iter().rev().find_map(|assignment| match assignment {
        Assignment::Advice { column: c, offset, value, .. } if *c == column && *offset == row => {
            Some(*value)
        }
        _ => None,
    })
}

#[test]
fn assigned_block() {
    let (_, circuit) = configured(4, 11, 5);
    let t = circuit.copy_table;
    let block = Block { copy_events: vec![event(), event()] };
    let mut region = Region::new();
    circuit.assign_block(&mut region, &block, Felt::from_u64(1000));
    for start in [0, 6] {
        assert_eq!(cell(&region, t.is_first, start), Some(Felt::from_u64(1)));
        assert_eq!(cell(&region, t.src_addr_end, start), Some(Felt::from_u64(12)));
        assert_eq!(cell(&region, t.bytes_left, start + 2), Some(Felt::from_u64(2)));
        assert_eq!(cell(&region, t.src_addr_end, start + 1), None);
        assert_eq!(cell(&region, t.bytes_left, start + 1), None);
        assert_eq!(cell(&region, circuit.addr_lt_addr_end.lt, start + 2), Some(Felt::from_u64(1)));
        assert_eq!(cell(&region, circuit.addr_lt_addr_end.lt, start + 4), Some(Felt::from_u64(0)));
        assert_eq!(cell(&region, circuit.addr_lt_addr_end.lt, start + 1), None);
        assert_eq!(cell(&region, circuit.is_last, start + 5), Some(Felt::from_u64(1)));
        assert_eq!(cell(&region, t.tag.bits[0], start + 1), Some(Felt::from_u64(1)));
    }
    let mut enabled = Vec::new();
    let mut switched = Vec::new();
    for assignment in region.assignments.iter() {
        match assignment {
            Assignment::Enable { offset, .. } => enabled.push(*offset),
            Assignment::Fixed { offset, value, annotation, .. } => {
                assert_eq!(*annotation, Annotation::QEnable);
                switched.push((*offset, *value));
            }
            _ => {}
        }
    }
    assert_eq!(enabled, vec![0, 2, 4, 6, 8, 10]);
    let expected: Vec<(usize, Felt)> =
        (0..14).map(|row| (row, Felt::from_bool(row < 12))).collect();
    assert_eq!(switched, expected);
}

#[test]
fn assigned_padding_rows() {
    let (_, circuit) = configured(4, 11, 5);
    let mut region = Region::new();
    circuit.assign_block(&mut region, &Block { copy_events: vec![] }, Felt::from_u64(1000));
    assert_eq!(region.assignments.len(), 32);
    let t = circuit.copy_table;
    let zero = Felt::from_u64(0);
    for row in 0..2 {
        let assignments = &region.assignments[16 * row..16 * row + 16];
        let fixed = Assignment::Fixed {
            annotation: Annotation::QEnable,
            column: circuit.q_enable,
            offset: row,
            value: zero,
        };
        assert_eq!(assignments[0], fixed);
        let columns = [
            (Label::IsFirst, t.is_first),
            (Label::IsLast, circuit.is_last),
            (Label::Id, t.id),
            (Label::Addr, t.addr),
            (Label::SrcAddrEnd, t.src_addr_end),
            (Label::BytesLeft, t.bytes_left),
            (Label::Value, circuit.value),
            (Label::RlcAcc, t.rlc_acc),
            (Label::IsCode, circuit.is_code),
            (Label::IsPad, circuit.is_pad),
            (Label::RwCounter, t.rw_counter),
            (Label::RwcIncLeft, t.rwc_inc_left),
        ];
        for (i, (label, column)) in columns.iter().enumerate() {
            let annotation = Annotation::Assign(*label);
            let advice =
                Assignment::Advice { annotation, column: *column, offset: row, value: zero };
            assert_eq!(assignments[i + 1], advice);
        }
        let bits: Vec<Option<Felt>> =
            t.tag.bits.iter().map(|column| cell(&region, *column, row)).collect();
        assert_eq!(bits, [0, 1, 0].map(|b| Some(Felt::from_u64(b))));
    }
}

#[test]
fn assigned_padding_rows_stay() {
    let (system, circuit) = configured(4, 11, 5);
    let r = Felt::from_u64(1000);
    let rows = |region: &Region| -> Vec<Option<Felt>> {
        (0..2 * system.num_advice)
            .map(|i| cell(region, AdviceColumn { index: i / 2 }, i % 2))
            .collect()
    };
    let mut region = Region::new();
    circuit.assign_block(&mut region, &Block { copy_events: vec![] }, r);
    let once = rows(&region);
    for i in 0..system.num_advice {
        assert_eq!(once[2 * i], once[2 * i + 1]);
    }
    circuit.assign_block(&mut region, &Block { copy_events: vec![] }, r);
    assert_eq!(rows(&region), once);
}

#[test]
fn assigned_comparison() {
    let mut system = ConstraintSystem::new();
    let zero = || Expression::constant(0);
    let config = LtConfig::configure(&mut system, zero(), zero(), zero());
    let bytes = |region: &Region, row: usize| -> Vec<Felt> {
        config.diff.iter().map(|column| cell(region, *column, row).unwrap()).collect()
    };
    let mut region = Region::new();
    config.assign(&mut region, 0, Felt::from_u64(0x300), Felt::from_u64(0x101));
    config.assign(&mut region, 1, Felt::from_u64(5), Felt::from_u64(6));
    config.assign(&mut region, 2, Felt::from_u64(6), Felt::from_u64(6));
    assert_eq!(cell(&region, config.lt, 0), Some(Felt::from_u64(0)));
    assert_eq!(bytes(&region, 0), [0xff, 1, 0, 0, 0, 0, 0, 0].map(Felt::from_u64));
    assert_eq!(cell(&region, config.lt, 1), Some(Felt::from_u64(1)));
    assert_eq!(bytes(&region, 1), [0xff; 8].map(Felt::from_u64));
    assert_eq!(cell(&region, config.lt, 2), Some(Felt::from_u64(0)));
    assert_eq!(bytes(&region, 2), [0; 8].map(Felt::from_u64));
}

#[test]
fn assigned_tag() {
    let mut system = ConstraintSystem::new();
    let enable = system.fixed_column();
    let config = BinaryNumberConfig::configure(&mut system, enable);
    let mut region = Region::new();
    config.assign(&mut region, 3, &CopyDataType::RlcAcc);
    let bits: Vec<Option<Felt>> =
        config.bits.iter().map(|column| cell(&region, *column, 3)).collect();
    assert_eq!(bits, [1, 0, 1].map(|b| Some(Felt::from_u64(b))));
}

/// The value of an expression where column `i` of every kind holds `i + 2` at
/// the current row, and ten times that one row on.
fn eval(e: &Expression) -> Felt {
    let at = |index: usize, rotation: i32| {
        let here = Felt::from_u64(index as u64 + 2);
        match rotation {
            0 => here,
            1 => here.mul(Felt::from_u64(10)),
            _ => unreachable!(),
        }
    };
    match e {
        Expression::Constant(c) => *c,
        Expression::Selector(s) => at(s.index, 0),
        Expression::Fixed(c) => at(c.index, 0),
        Expression::Advice(c, rotation) => at(c.index, rotation.0),
        Expression::Instance(c, rotation) => at(c.index, rotation.0),
        Expression::Negated(a) => Felt::from_u64(0).sub(eval(a)),
        Expression::Sum(a, b) => eval(a).add(eval(b)),
        Expression::Product(a, b) => eval(a).mul(eval(b)),
    }
}

#[test]
fn expressions() {
    let mut system = ConstraintSystem::new();
    let a = system.advice_column();
    let b = system.advice_column();
    let f = system.fixed_column();
    let i = system.instance_column();
    let s = system.complex_selector();
    let x = || query_advice(a, Rotation::cur());
    let y = || query_advice(b, Rotation::next());
    assert_eq!(eval(&x().plus(y())), Felt::from_u64(32));
    assert_eq!(eval(&y().minus(x())), Felt::from_u64(28));
    assert_eq!(eval(&x().times(y())), Felt::from_u64(60));
    assert_eq!(eval(&y().clone()), Felt::from_u64(30));
    assert_eq!(eval(&query_fixed(f)), Felt::from_u64(2));
    assert_eq!(eval(&query_instance(i, Rotation::next())), Felt::from_u64(20));
    assert_eq!(eval(&query_selector(s)), Felt::from_u64(2));
    assert_eq!(eval(&not(Expression::constant(1))), Felt::from_u64(0));
    assert_eq!(eval(&and(x(), y())), Felt::from_u64(60));
    assert_eq!(eval(&or(Expression::constant(1), Expression::constant(0))), Felt::from_u64(1));
    assert_eq!(eval(&or(Expression::constant(0), Expression::constant(0))), Felt::from_u64(0));
}

#[test]
fn built_constraints() {
    let c = Expression::constant;
    let mut cb = ConstraintBuilder::new();
    cb.require_zero("zero", c(5));
    cb.require_boolean("boolean", c(3));
    cb.begin_condition(c(7));
    cb.require_equal("equal", c(9), c(4));
    cb.end_condition();
    cb.require_equal("equal again", c(9), c(4));
    let constraints = cb.gate(c(2));
    let names: Vec<&str> = constraints.iter().map(|constraint| constraint.name).collect();
    assert_eq!(names, vec!["zero", "boolean", "equal", "equal again"]);
    let values: Vec<Felt> = constraints.iter().map(|constraint| eval(&constraint.poly)).collect();
    let minus_twelve = Felt::from_u64(0).sub(Felt::from_u64(12));
    assert_eq!(
        values,
        vec![Felt::from_u64(10), minus_twelve, Felt::from_u64(70), Felt::from_u64(10)]
    );
}

#[test]
fn tag_expressions() {
    let mut system = ConstraintSystem::new();
    let enable = system.fixed_column();
    let config = BinaryNumberConfig::configure(&mut system, enable);
    // The bits hold 2, 3 and 4: the number is 4 * 2 + 2 * 3 + 4.
    assert_eq!(eval(&config.value(Rotation::cur())), Felt::from_u64(18));
    // Bits 1, 0, 1 of the accumulator: 2 * (1 - 3) * 4.
    let expected = Felt::from_u64(0).sub(Felt::from_u64(16));
    assert_eq!(eval(&config.value_equals(CopyDataType::RlcAcc, Rotation::cur())), expected);
}
