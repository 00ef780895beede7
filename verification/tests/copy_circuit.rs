//! Blocks of copy events, checked by halo2's mock prover.
use copy_circuit::constraint_system::{ConstraintSystem, LookupTable};
use copy_circuit::copy_circuit::{number_or_hash_to_field, CopyCircuit};
use copy_circuit::copy_event::{Block, CopyDataType, CopyEvent, NumberOrHash};
use copy_circuit::copy_table::{build_tx_log_address, CopyTable};
use copy_circuit::expression::{query_fixed, query_instance, Expression, Rotation};
use copy_circuit::field::Felt;
use copy_circuit::region::{Assignment, Region};
use ff::{Field, PrimeField};
use halo2_proofs::circuit::{Layouter, SimpleFloorPlanner, Value};
use halo2_proofs::dev::{MockProver, VerifyFailure};
use halo2_proofs::pasta::Fp;
use halo2_proofs::plonk;
use std::collections::HashMap;

fn fp(x: Felt) -> Fp {
    Fp::from_repr(x.to_repr()).unwrap()
}

fn felt(x: Fp) -> Felt {
    Felt::from_repr(x.to_repr()).unwrap()
}

/// The halo2 columns of a constraint system, by index.
#[derive(Clone)]
struct Columns {
    advice: Vec<plonk::Column<plonk::Advice>>,
    fixed: Vec<FixedColumn>,
    instance: Vec<plonk::Column<plonk::Instance>>,
    selectors: Vec<Switch>,
}

/// A fixed column, or one that lookups point at.
#[derive(Clone, Copy)]
enum FixedColumn {
    Plain(plonk::Column<plonk::Fixed>),
    Table(plonk::TableColumn),
}

/// A selector, as such or as a fixed column of zeros and ones. With a
/// selector the prover also demands that the cells which its gates refer to
/// are assigned, in time that grows with the square of the number of rows.
#[derive(Clone)]
enum Switch {
    Selector(plonk::Selector),
    Column(plonk::Column<plonk::Fixed>),
}

impl Columns {
    fn allocate(
        meta: &mut plonk::ConstraintSystem<Fp>,
        system: &ConstraintSystem,
        use_selectors: bool,
    ) -> Columns {
        let looked_up = |index: usize| {
            system
                .lookups
                .iter()
                .flat_map(|lookup| lookup.pairs.iter())
                .any(|(_, table)| matches!(table, Expression::Fixed(c) if c.index == index))
        };
        Columns {
            advice: (0..system.num_advice).map(|_| meta.advice_column()).collect(),
            fixed: (0..system.num_fixed)
                .map(|index| match looked_up(index) {
                    true => FixedColumn::Table(meta.lookup_table_column()),
                    false => FixedColumn::Plain(meta.fixed_column()),
                })
                .collect(),
            instance: (0..system.num_instance).map(|_| meta.instance_column()).collect(),
            selectors: (0..system.num_selectors)
                .map(|_| match use_selectors {
                    true => Switch::Selector(meta.complex_selector()),
                    false => Switch::Column(meta.fixed_column()),
                })
                .collect(),
        }
    }

    fn plain(&self, index: usize) -> plonk::Column<plonk::Fixed> {
        match self.fixed[index] {
            FixedColumn::Plain(column) => column,
            FixedColumn::Table(_) => panic!("a table is not queried"),
        }
    }

    fn table(&self, e: &Expression) -> plonk::TableColumn {
        match e {
            Expression::Fixed(c) => match self.fixed[c.index] {
                FixedColumn::Plain(_) => panic!("a plain column is not looked up"),
                FixedColumn::Table(column) => column,
            },
            _ => panic!("the prover looks up in fixed columns"),
        }
    }

    /// Lowers an expression. A cell that was queried before is not queried
    /// again.
    fn lower(
        &self,
        cells: &mut plonk::VirtualCells<'_, Fp>,
        queried: &mut HashMap<(usize, i32), plonk::Expression<Fp>>,
        e: &Expression,
    ) -> plonk::Expression<Fp> {
        match e {
            Expression::Constant(c) => plonk::Expression::Constant(fp(*c)),
            Expression::Selector(s) => match self.selectors[s.index] {
                Switch::Selector(selector) => cells.query_selector(selector),
                Switch::Column(column) => cells.query_fixed(column),
            },
            Expression::Fixed(c) => cells.query_fixed(self.plain(c.index)),
            Expression::Advice(c, at) => queried
                .entry((c.index, at.0))
                .or_insert_with(|| {
                    let at = halo2_proofs::poly::Rotation(at.0);
                    cells.query_advice(self.advice[c.index], at)
                })
                .clone(),
            Expression::Instance(c, at) => {
                let at = halo2_proofs::poly::Rotation(at.0);
                cells.query_instance(self.instance[c.index], at)
            }
            Expression::Negated(a) => -self.lower(cells, queried, a),
            Expression::Sum(a, b) => {
                self.lower(cells, queried, a) + self.lower(cells, queried, b)
            }
            Expression::Product(a, b) => {
                self.lower(cells, queried, a) * self.lower(cells, queried, b)
            }
        }
    }

    fn lower_system(&self, meta: &mut plonk::ConstraintSystem<Fp>, system: &ConstraintSystem) {
        for gate in system.gates.iter() {
            meta.create_gate(gate.name, |cells| {
                let mut queried = HashMap::new();
                gate.constraints
                    .iter()
                    .map(|c| (c.name, self.lower(cells, &mut queried, &c.poly)))
                    .collect::<Vec<_>>()
            });
        }
        for lookup in system.lookups.iter() {
            meta.lookup(|cells| {
                let mut queried = HashMap::new();
                lookup
                    .pairs
                    .iter()
                    .map(|(e, table)| (self.lower(cells, &mut queried, e), self.table(table)))
                    .collect()
            });
        }
    }
}

/// A block, the tables that its copies are looked up in, and the challenge.
#[derive(Clone, Default)]
struct Tester<const SELECTORS: bool> {
    block: Vec<CopyEvent>,
    tx_rows: Vec<[Fp; 4]>,
    rw_rows: Vec<[Fp; 11]>,
    bytecode_rows: Vec<[Fp; 5]>,
    randomness: Fp,
    /// An advice cell, by column and row, and what to put there instead.
    tampered: Option<(usize, usize, Fp)>,
}

#[derive(Clone)]
struct TesterConfig {
    columns: Columns,
    circuit: CopyCircuit,
}

fn table(system: &mut ConstraintSystem, width: usize) -> LookupTable {
    LookupTable { exprs: (0..width).map(|_| query_fixed(system.fixed_column())).collect() }
}

/// The system of the circuit, with the transaction table in the first four
/// fixed columns, then the read-write table, then the bytecode table.
fn copy_system() -> (ConstraintSystem, CopyCircuit) {
    let mut system = ConstraintSystem::new();
    let tx_table = table(&mut system, 4);
    let rw_table = table(&mut system, 11);
    let bytecode_table = table(&mut system, 5);
    let q_enable = system.fixed_column();
    let challenge = system.instance_column();
    let copy_table = CopyTable::construct(&mut system, q_enable);
    let circuit = CopyCircuit::configure(
        &mut system,
        &tx_table,
        &rw_table,
        &bytecode_table,
        copy_table,
        q_enable,
        query_instance(challenge, Rotation::cur()),
    );
    (system, circuit)
}

fn load<const N: usize>(
    layouter: &mut impl Layouter<Fp>,
    columns: &Columns,
    first: usize,
    rows: &[[Fp; N]],
) -> Result<(), plonk::Error> {
    layouter.assign_table(
        || "table",
        |mut table| {
            for j in 0..N {
                let column = match columns.fixed[first + j] {
                    FixedColumn::Table(column) => column,
                    FixedColumn::Plain(_) => unreachable!(),
                };
                table.assign_cell(|| "no record", column, 0, || Value::known(Fp::zero()))?;
                for (i, row) in rows.iter().enumerate() {
                    table.assign_cell(|| "record", column, i + 1, || Value::known(row[j]))?;
                }
            }
            Ok(())
        },
    )
}

impl<const SELECTORS: bool> plonk::Circuit<Fp> for Tester<SELECTORS> {
    type Config = TesterConfig;
    type FloorPlanner = SimpleFloorPlanner;

    fn without_witnesses(&self) -> Self {
        Tester::default()
    }

    fn configure(meta: &mut plonk::ConstraintSystem<Fp>) -> TesterConfig {
        let (system, circuit) = copy_system();
        let columns = Columns::allocate(meta, &system, SELECTORS);
        columns.lower_system(meta, &system);
        TesterConfig { columns, circuit }
    }

    fn synthesize(
        &self,
        config: TesterConfig,
        mut layouter: impl Layouter<Fp>,
    ) -> Result<(), plonk::Error> {
        let columns = &config.columns;
        load(&mut layouter, columns, 0, &self.tx_rows)?;
        load(&mut layouter, columns, 4, &self.rw_rows)?;
        load(&mut layouter, columns, 15, &self.bytecode_rows)?;
        let block = Block { copy_events: self.block.clone() };
        assert!(block.can_be_assigned());
        let mut assigned = Region::new();
        config.circuit.assign_block(&mut assigned, &block, felt(self.randomness));
        layouter.assign_region(
            || "assign copy table",
            |mut region| {
                for assignment in assigned.assignments.iter() {
                    match assignment {
                        Assignment::Advice { column, offset, value, .. } => {
                            let value = match self.tampered {
                                Some((c, o, v)) if c == column.index && o == *offset => v,
                                _ => fp(*value),
                            };
                            region.assign_advice(
                                || "cell",
                                columns.advice[column.index],
                                *offset,
                                || Value::known(value),
                            )?;
                        }
                        Assignment::Fixed { column, offset, value, .. } => {
                            region.assign_fixed(
                                || "cell",
                                columns.plain(column.index),
                                *offset,
                                || Value::known(fp(*value)),
                            )?;
                        }
                        Assignment::Enable { selector, offset } => {
                            match columns.selectors[selector.index] {
                                Switch::Selector(selector) => {
                                    selector.enable(&mut region, *offset)?;
                                }
                                Switch::Column(column) => {
                                    let one = || Value::known(Fp::one());
                                    region.assign_fixed(|| "selector", column, *offset, one)?;
                                }
                            }
                        }
                    }
                }
                Ok(())
            },
        )
    }
}

impl<const SELECTORS: bool> Tester<SELECTORS> {
    /// A tester for one copy event, with what the event does in its tables.
    fn new(event: CopyEvent) -> Self {
        let mut tester = Tester {
            randomness: Fp::random(rand::thread_rng()),
            ..Tester::default()
        };
        tester.record(&event);
        tester.block.push(event);
        tester
    }

    /// Puts into the tables what a copy event reads and writes.
    fn record(&mut self, event: &CopyEvent) {
        let number = |id: &NumberOrHash| fp(number_or_hash_to_field(id, felt(self.randomness)));
        let src_id = number(&event.src_id);
        let dst_id = number(&event.dst_id);
        let mut rw_counter = event.rw_counter_start;
        let mut rw = |is_write: u64, tag: u64, id: Fp, addr: Fp, value: u8| {
            let zero = Fp::zero();
            let row = [
                Fp::from(rw_counter),
                Fp::from(is_write),
                Fp::from(tag),
                id,
                addr,
                zero,
                zero,
                Fp::from(value as u64),
                zero,
                zero,
                zero,
            ];
            rw_counter += 1;
            row
        };
        for (i, (value, is_code)) in event.bytes.iter().enumerate() {
            let src = event.src_addr + i as u64;
            let dst = event.dst_addr + i as u64;
            if src < event.src_addr_end {
                match event.src_type {
                    CopyDataType::Memory => {
                        self.rw_rows.push(rw(0, 3, src_id, Fp::from(src), *value));
                    }
                    CopyDataType::Bytecode => self.bytecode_rows.push([
                        src_id,
                        Fp::one(),
                        Fp::from(src),
                        Fp::from(*is_code as u64),
                        Fp::from(*value as u64),
                    ]),
                    CopyDataType::TxCalldata => self.tx_rows.push([
                        src_id,
                        Fp::from(11),
                        Fp::from(src),
                        Fp::from(*value as u64),
                    ]),
                    _ => unreachable!(),
                }
            }
            match event.dst_type {
                CopyDataType::Memory => {
                    self.rw_rows.push(rw(1, 3, dst_id, Fp::from(dst), *value));
                }
                CopyDataType::TxLog => {
                    let addr = fp(build_tx_log_address(dst, event.log_id.unwrap()));
                    self.rw_rows.push(rw(1, 11, dst_id, addr, *value));
                }
                CopyDataType::Bytecode => self.bytecode_rows.push([
                    dst_id,
                    Fp::one(),
                    Fp::from(dst),
                    Fp::from(*is_code as u64),
                    Fp::from(*value as u64),
                ]),
                _ => {}
            }
        }
    }

    fn test(&self, k: u32) -> Result<(), Vec<VerifyFailure>> {
        let instance = vec![vec![self.randomness; (1 << k) - 6]];
        MockProver::run(k, self, instance).unwrap().verify()
    }
}

fn test_copy_circuit(k: u32, event: CopyEvent) -> Result<(), Vec<VerifyFailure>> {
    Tester::<true>::new(event).test(k)
}

fn rand_bytes(n: usize) -> Vec<(u8, bool)> {
    (0..n).map(|_| (rand::random::<u8>(), false)).collect()
}

/// CALLDATACOPY of 0x0fff bytes of a transaction's random calldata.
fn gen_calldatacopy_data() -> CopyEvent {
    CopyEvent {
        src_addr: 0,
        src_addr_end: 0x0fff,
        src_type: CopyDataType::TxCalldata,
        src_id: NumberOrHash::Number(1),
        dst_addr: 0,
        dst_type: CopyDataType::Memory,
        dst_id: NumberOrHash::Number(1),
        log_id: None,
        rw_counter_start: 28,
        bytes: rand_bytes(0x0fff),
    }
}

/// PUSH32 0x20, PUSH32 0, PUSH32 0, CODECOPY, STOP: each byte with whether it
/// is an opcode.
fn codecopy_code() -> Vec<(u8, bool)> {
    let mut code = Vec::new();
    for last in [0x20u8, 0x00, 0x00] {
        code.push((0x7f, true));
        code.extend([(0, false); 31]);
        code.push((last, false));
    }
    code.push((0x39, true));
    code.push((0x00, true));
    code
}

const CODE_HASH: [u8; 32] = [
    0xd9, 0xe2, 0xc4, 0xf7, 0x89, 0xe0, 0x0a, 0x45, 0x66, 0xc7, 0x26, 0x86, 0x46, 0x80, 0x7e, 0xed,
    0x4b, 0xab, 0xd1, 0xad, 0xdf, 0x2e, 0xd9, 0xe3, 0xa0, 0x65, 0x2f, 0xf8, 0xa8, 0xa4, 0x56, 0x06,
];

/// CODECOPY of the first 0x20 bytes of the code above.
fn gen_codecopy_data() -> CopyEvent {
    let code = codecopy_code();
    CopyEvent {
        src_addr: 0,
        src_addr_end: code.len() as u64,
        src_type: CopyDataType::Bytecode,
        src_id: NumberOrHash::Hash(CODE_HASH),
        dst_addr: 0,
        dst_type: CopyDataType::Memory,
        dst_id: NumberOrHash::Number(1),
        log_id: None,
        rw_counter_start: 28,
        bytes: code[..0x20].to_vec(),
    }
}

/// SHA3 of 0x200 bytes of memory from 0x20 on.
fn gen_sha3_data() -> CopyEvent {
    CopyEvent {
        src_addr: 0x20,
        src_addr_end: 0x220,
        src_type: CopyDataType::Memory,
        src_id: NumberOrHash::Number(1),
        dst_addr: 0,
        dst_type: CopyDataType::RlcAcc,
        dst_id: NumberOrHash::Number(1),
        log_id: None,
        rw_counter_start: 600,
        bytes: rand_bytes(0x200),
    }
}

/// LOG1 of the 32 bytes of memory that hold the word 200.
fn gen_tx_log_data() -> CopyEvent {
    let mut bytes = vec![(0, false); 32];
    bytes[31] = (200, false);
    CopyEvent {
        src_addr: 0,
        src_addr_end: 32,
        src_type: CopyDataType::Memory,
        src_id: NumberOrHash::Number(1),
        dst_addr: 0,
        dst_type: CopyDataType::TxLog,
        dst_id: NumberOrHash::Number(1),
        log_id: Some(1),
        rw_counter_start: 75,
        bytes,
    }
}

#[test]
fn copy_circuit_valid_calldatacopy() {
    // Without a selector: the check of assigned cells behind one is quadratic,
    // and `law_cells_of_steps_are_assigned` states what it would find.
    assert_eq!(Tester::<false>::new(gen_calldatacopy_data()).test(14), Ok(()));
}

#[test]
fn copy_circuit_valid_codecopy() {
    assert_eq!(test_copy_circuit(10, gen_codecopy_data()), Ok(()));
}

#[test]
fn copy_circuit_valid_sha3() {
    // The copy takes 1026 rows. 2^20 rows would only add empty ones, for which
    // the mock prover takes about a minute in a build without optimisation.
    assert_eq!(test_copy_circuit(14, gen_sha3_data()), Ok(()));
}

#[test]
fn copy_circuit_tx_log() {
    assert_eq!(test_copy_circuit(10, gen_tx_log_data()), Ok(()));
}

/// A copy of three bytes from memory, with one byte of padding behind it.
fn small_copy(dst_type: CopyDataType) -> CopyEvent {
    CopyEvent {
        src_addr: 5,
        src_addr_end: 8,
        src_type: CopyDataType::Memory,
        src_id: NumberOrHash::Number(3),
        dst_addr: 9,
        dst_type,
        dst_id: NumberOrHash::Number(4),
        log_id: Some(2),
        rw_counter_start: 17,
        bytes: vec![(11, false), (22, false), (33, false), (0, false)],
    }
}

#[test]
fn every_destination_is_accepted() {
    for dst_type in [
        CopyDataType::Bytecode,
        CopyDataType::Memory,
        CopyDataType::TxLog,
        CopyDataType::RlcAcc,
    ] {
        assert_eq!(test_copy_circuit(6, small_copy(dst_type)), Ok(()));
    }
}

#[test]
fn empty_block_is_accepted() {
    let tester = Tester::<true> { randomness: Fp::from(7), ..Tester::default() };
    assert_eq!(tester.test(5), Ok(()));
}

#[test]
fn empty_copy_is_accepted() {
    let mut event = small_copy(CopyDataType::Memory);
    event.bytes.clear();
    assert_eq!(test_copy_circuit(5, event.clone()), Ok(()));
    event.src_type = CopyDataType::RlcAcc;
    event.dst_type = CopyDataType::TxCalldata;
    assert_eq!(test_copy_circuit(5, event), Ok(()));
}

#[test]
fn events_behind_each_other_are_accepted() {
    let mut tester = Tester::<true>::new(small_copy(CopyDataType::RlcAcc));
    for event in [
        gen_tx_log_data(),
        small_copy(CopyDataType::Bytecode),
        gen_codecopy_data(),
        small_copy(CopyDataType::RlcAcc),
    ] {
        tester.record(&event);
        tester.block.push(event);
    }
    assert_eq!(tester.test(9), Ok(()));
}

#[test]
fn source_wholly_beyond_its_end_is_padding() {
    let mut event = small_copy(CopyDataType::Memory);
    event.src_addr = 100;
    for byte in event.bytes.iter_mut() {
        byte.0 = 0;
    }
    assert_eq!(test_copy_circuit(6, event), Ok(()));
}

#[test]
fn addresses_at_the_edge_are_accepted() {
    let mut event = small_copy(CopyDataType::Memory);
    event.src_addr = u64::MAX - 3;
    event.src_addr_end = u64::MAX;
    event.dst_addr = u64::MAX - 3;
    assert_eq!(test_copy_circuit(6, event), Ok(()));
}

#[test]
fn padding_that_is_not_zero_is_rejected() {
    let mut event = small_copy(CopyDataType::Memory);
    event.bytes[3].0 = 1;
    assert!(test_copy_circuit(6, event).is_err());
}

#[test]
fn read_that_is_not_recorded_is_rejected() {
    let mut tester = Tester::<true>::new(small_copy(CopyDataType::Memory));
    tester.rw_rows.remove(0);
    assert!(tester.test(6).is_err());
}

#[test]
fn calldata_that_is_not_recorded_is_rejected() {
    let mut event = small_copy(CopyDataType::Memory);
    event.src_type = CopyDataType::TxCalldata;
    let mut tester = Tester::<true>::new(event);
    assert_eq!(tester.test(6), Ok(()));
    tester.tx_rows[1][3] = Fp::from(23);
    assert!(tester.test(6).is_err());
}

#[test]
fn opcode_that_is_recorded_as_data_is_rejected() {
    let mut tester = Tester::<true>::new(gen_codecopy_data());
    tester.bytecode_rows[0][3] = Fp::zero();
    assert!(tester.test(8).is_err());
}

/// Every advice cell of a read row and of a write row but `is_code`, which is
/// free where no bytecode is copied, is tied down by a constraint or a lookup.
#[test]
fn tampered_cells_are_rejected() {
    let (_, circuit) = copy_system();
    let t = circuit.copy_table;
    let columns = [
        t.is_first,
        t.id,
        t.addr,
        t.rlc_acc,
        t.rw_counter,
        t.rwc_inc_left,
        t.tag.bits[0],
        t.tag.bits[1],
        t.tag.bits[2],
        circuit.is_last,
        circuit.value,
        circuit.is_pad,
    ];
    let read_columns = [
        t.src_addr_end,
        t.bytes_left,
        circuit.addr_lt_addr_end.lt,
        circuit.addr_lt_addr_end.diff[0],
        circuit.addr_lt_addr_end.diff[7],
    ];
    for (row, columns) in [(2, &columns[..]), (3, &columns[..]), (2, &read_columns[..])] {
        for column in columns {
            let mut tester = Tester::<true>::new(small_copy(CopyDataType::Memory));
            tester.tampered = Some((column.index, row, Fp::from(1234567)));
            assert!(tester.test(6).is_err(), "column {} row {}", column.index, row);
        }
    }
}

#[test]
fn tampered_accumulation_is_rejected() {
    let (_, circuit) = copy_system();
    for row in [1, 3, 5, 7] {
        let mut tester = Tester::<true>::new(small_copy(CopyDataType::RlcAcc));
        tester.tampered = Some((circuit.value.index, row, Fp::from(99)));
        assert!(tester.test(6).is_err());
    }
}

#[test]
fn challenge_other_than_that_of_the_assignment_is_rejected() {
    let tester = Tester::<true>::new(small_copy(CopyDataType::RlcAcc));
    let instance = vec![vec![tester.randomness + Fp::one(); (1 << 6) - 6]];
    assert!(MockProver::run(6, &tester, instance).unwrap().verify().is_err());
}
