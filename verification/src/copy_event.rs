//! The copy events of a block: which bytes went from where to where.
use vstd::prelude::*;

verus! {

/// Where the bytes of a copy come from or go to.
#[derive(Clone, Copy, Debug, PartialEq, Eq, Structural)]
pub enum CopyDataType {
    /// The bytecode of a contract.
    Bytecode,
    /// The memory of a call.
    Memory,
    /// The calldata of a transaction.
    TxCalldata,
    /// The log of a transaction.
    TxLog,
    /// No place: the bytes are only accumulated.
    RlcAcc,
}

impl CopyDataType {
    /// The number that stands for the type in the tag columns.
    pub open spec fn code(self) -> int {
        match self {
            CopyDataType::Bytecode => 1,
            CopyDataType::Memory => 2,
            CopyDataType::TxCalldata => 3,
            CopyDataType::TxLog => 4,
            CopyDataType::RlcAcc => 5,
        }
    }

    /// The three bits of the number, the highest first.
    pub open spec fn bits(self) -> Seq<bool> {
        seq![self.code() / 4 == 1, (self.code() / 2) % 2 == 1, self.code() % 2 == 1]
    }

    /// The three bits of the number, the highest first.
    pub fn as_bits(&self) -> (r: [bool; 3])
        ensures
            r@ == self.bits(),
            r@ == (match *self {
                CopyDataType::Bytecode => seq![false, false, true],
                CopyDataType::Memory => seq![false, true, false],
                CopyDataType::TxCalldata => seq![false, true, true],
                CopyDataType::TxLog => seq![true, false, false],
                CopyDataType::RlcAcc => seq![true, false, true],
            }),
    {
        let r = match self {
            CopyDataType::Bytecode => [false, false, true],
            CopyDataType::Memory => [false, true, false],
            CopyDataType::TxCalldata => [false, true, true],
            CopyDataType::TxLog => [true, false, false],
            CopyDataType::RlcAcc => [true, false, true],
        };
        assert(r@ =~= self.bits());
        r
    }

    /// Whether bytes can be copied from there.
    pub open spec fn is_source(self) -> bool {
        self is Bytecode || self is Memory || self is TxCalldata
    }

    /// Whether bytes can be copied there.
    pub open spec fn is_destination(self) -> bool {
        self is Bytecode || self is Memory || self is TxLog || self is RlcAcc
    }
}

impl Default for CopyDataType {
    fn default() -> (r: CopyDataType)
        ensures
            r == CopyDataType::Memory,
    {
        CopyDataType::Memory
    }
}

/// What identifies a source or destination: a call or transaction number, or
/// the hash of a bytecode, its highest byte first.
#[derive(Clone, Copy, Debug, PartialEq, Eq)]
pub enum NumberOrHash {
    Number(usize),
    Hash([u8; 32]),
}

/// One copy of consecutive bytes.
#[derive(Clone, Debug, PartialEq, Eq)]
pub struct CopyEvent {
    /// The address of the first byte at the source.
    pub src_addr: u64,
    /// The end of the source: bytes at or beyond it are padding.
    pub src_addr_end: u64,
    pub src_type: CopyDataType,
    pub src_id: NumberOrHash,
    /// The address of the first byte at the destination.
    pub dst_addr: u64,
    pub dst_type: CopyDataType,
    pub dst_id: NumberOrHash,
    /// The number of the log that the bytes go to, where they go to one.
    pub log_id: Option<u64>,
    /// The read-write counter before the first step.
    pub rw_counter_start: u64,
    /// The bytes, each with whether it is an opcode in a bytecode.
    pub bytes: Vec<(u8, bool)>,
}

/// The witness of a block, as far as copies are concerned.
#[derive(Clone, Debug, PartialEq, Eq)]
pub struct Block {
    pub copy_events: Vec<CopyEvent>,
}

/// The lesser of two numbers.
pub open spec fn min_of(a: int, b: int) -> int {
    if a < b {
        a
    } else {
        b
    }
}

impl CopyEvent {
    /// The number of rows of the event: a read row and a write row per byte.
    pub open spec fn rows(self) -> int {
        2 * self.bytes@.len() as int
    }

    /// Whether the types fit their roles and a log copy names its log, where
    /// there is a byte to copy, and every address and counter of the event
    /// fits its machine type.
    pub open spec fn well_formed(self) -> bool {
        &&& self.bytes@.len() > 0 ==> {
            &&& self.src_type.is_source()
            &&& self.dst_type.is_destination()
            &&& self.dst_type is TxLog ==> self.log_id is Some
        }
        &&& self.rows() <= usize::MAX
        &&& self.src_addr + self.bytes@.len() <= u64::MAX + 1
        &&& self.dst_addr + self.bytes@.len() <= u64::MAX + 1
        &&& self.rw_counter_start + self.rw_increase(self.rows()) <= u64::MAX
    }

    /// Whether the event is well-formed.
    pub fn is_well_formed(&self) -> (r: bool)
        ensures
            r == self.well_formed(),
    {
        let source = match self.src_type {
            CopyDataType::Bytecode => true,
            CopyDataType::Memory => true,
            CopyDataType::TxCalldata => true,
            _ => false,
        };
        let destination = match self.dst_type {
            CopyDataType::Bytecode => true,
            CopyDataType::Memory => true,
            CopyDataType::TxLog => self.log_id.is_some(),
            CopyDataType::RlcAcc => true,
            _ => false,
        };
        let len: usize = self.bytes.len();
        if len > usize::MAX / 2 || len > 0 && !(source && destination) {
            return false;
        }
        let n: u128 = len as u128;
        let limit: u128 = 0x1_0000_0000_0000_0000;
        self.src_addr as u128 + n <= limit && self.dst_addr as u128 + n <= limit
            && self.rw_counter_start <= u64::MAX - self.rw_counter_increase(len * 2)
    }

    /// Whether every byte beyond the end of the source is zero.
    pub open spec fn padded_with_zeros(self) -> bool {
        forall|i: int|
            0 <= i < self.bytes@.len() && self.src_addr + i >= self.src_addr_end
                ==> (#[trigger] self.bytes@[i]).0 == 0
    }

    /// The number of read-write operations before a step: a write to memory
    /// or to a log is one, and so is a read from memory within the source.
    pub open spec fn rw_increase(self, step: int) -> int {
        let source = if self.src_type is Memory {
            min_of(
                (step + 1) / 2,
                if self.src_addr_end >= self.src_addr {
                    self.src_addr_end - self.src_addr
                } else {
                    0
                },
            )
        } else {
            0
        };
        let destination = if self.dst_type is Memory || self.dst_type is TxLog {
            step / 2
        } else {
            0
        };
        source + destination
    }

    /// The number of read-write operations before a step.
    fn rw_counter_increase(&self, step: usize) -> (r: u64)
        requires
            step <= self.rows() <= usize::MAX,
        ensures
            r == self.rw_increase(step as int),
            r <= step,
    {
        let done: u64 = step as u64;
        let source: u64 = match self.src_type {
            CopyDataType::Memory => {
                let reads: u64 = done / 2 + done % 2;
                let available: u64 = if self.src_addr_end >= self.src_addr {
                    self.src_addr_end - self.src_addr
                } else {
                    0
                };
                if reads < available {
                    reads
                } else {
                    available
                }
            },
            _ => 0,
        };
        let destination: u64 = match self.dst_type {
            CopyDataType::Memory => done / 2,
            CopyDataType::TxLog => done / 2,
            _ => 0,
        };
        source + destination
    }

    /// The read-write counter at a step.
    pub fn rw_counter(&self, step: usize) -> (r: u64)
        requires
            self.well_formed(),
            step <= self.rows(),
        ensures
            r == self.rw_counter_start + self.rw_increase(step as int),
    {
        self.rw_counter_start + self.rw_counter_increase(step)
    }

    /// The number of read-write operations from a step to the end.
    pub fn rw_counter_increase_left(&self, step: usize) -> (r: u64)
        requires
            self.well_formed(),
            step <= self.rows(),
        ensures
            r == self.rw_increase(self.rows()) - self.rw_increase(step as int),
    {
        self.rw_counter_increase(self.bytes.len() * 2) - self.rw_counter_increase(step)
    }
}

} // verus!
