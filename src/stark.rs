//! The tables of the machine.
use vstd::prelude::*;

verus! {

/// The tables of the machine, by their index in a list of traces.
#[derive(Debug, Copy, Clone, Eq, PartialEq, Structural)]
pub enum Table {
    Arith,
    Bits,
    Bytes,
    Cpu,
    Mem,
}

/// The index of a table.
pub open spec fn table_index(t: Table) -> int {
    match t {
        Table::Arith => 0,
        Table::Bits => 1,
        Table::Bytes => 2,
        Table::Cpu => 3,
        Table::Mem => 4,
    }
}

impl Table {
    /// The index of the table in a list of traces.
    pub fn index(self) -> (r: usize)
        ensures
            r == table_index(self),
    {
        match self {
            Table::Arith => 0,
            Table::Bits => 1,
            Table::Bytes => 2,
            Table::Cpu => 3,
            Table::Mem => 4,
        }
    }
}

/// The largest degree of any constraint of any table.
pub const CONSTRAINT_DEGREE: usize = 3;

/// The CPU's arithmetic instructions and ordered branches against the
/// arithmetic table.
pub open spec fn is_ctl_arith(c: crate::ctl::CrossTableLookup) -> bool {
    &&& c.looking@.len() == 3
    &&& crate::cpu::looking_arith_reg(c.looking@[0])
    &&& crate::cpu::looking_arith_imm(c.looking@[1])
    &&& crate::cpu::looking_branch(c.looking@[2])
    &&& crate::arith::looked_arith(c.looked)
}

/// The CPU's logic instructions against the bits table.
pub open spec fn is_ctl_bits(c: crate::ctl::CrossTableLookup) -> bool {
    &&& c.looking@.len() == 2
    &&& crate::cpu::looking_logic_reg(c.looking@[0])
    &&& crate::cpu::looking_logic_imm(c.looking@[1])
    &&& crate::bits::looked_logic(c.looked)
}

/// The CPU's loads and stores against the byte-packing table.
pub open spec fn is_ctl_bytes(c: crate::ctl::CrossTableLookup) -> bool {
    &&& c.looking@.len() == 2
    &&& crate::cpu::looking_pack(c.looking@[0])
    &&& crate::cpu::looking_unpack(c.looking@[1])
    &&& crate::bytes::looked_bytes(c.looked)
}

/// Every memory channel of the CPU and every byte of the byte-packing table
/// against the memory table.
pub open spec fn is_ctl_mem(c: crate::ctl::CrossTableLookup) -> bool {
    &&& c.looking@.len() == 7
    &&& forall|k: int| 0 <= k < 3 ==> crate::cpu::looking_cpu_mem(#[trigger] c.looking@[k], k as usize)
    &&& forall|k: int| 3 <= k < 7 ==> crate::bytes::looking_bytes_mem(#[trigger] c.looking@[k], (k - 3) as usize)
    &&& crate::mem::looked_mem(c.looked)
}

/// The lookups that join the tables: the CPU's arithmetic instructions and
/// ordered branches against the arithmetic table, its logic instructions
/// against the bits table, its loads and stores against the byte-packing
/// table, and every memory access of the CPU and the byte-packing table
/// against the memory table.
pub fn all_cross_table_lookups() -> (r: Vec<crate::ctl::CrossTableLookup>)
    ensures
        r@.len() == 4,
        is_ctl_arith(r@[0]),
        is_ctl_bits(r@[1]),
        is_ctl_bytes(r@[2]),
        is_ctl_mem(r@[3]),
{
    vec![ctl_arith(), ctl_bits(), ctl_bytes(), ctl_mem()]
}

/// The CPU's arithmetic instructions and ordered branches against the
/// arithmetic table.
pub fn ctl_arith() -> (r: crate::ctl::CrossTableLookup)
    ensures
        is_ctl_arith(r),
{
    let looking = vec![
        crate::cpu::ctl_looking_arith_reg(),
        crate::cpu::ctl_looking_arith_imm(),
        crate::cpu::ctl_looking_branch(),
    ];
    crate::ctl::CrossTableLookup::new(looking, crate::arith::ctl_looked())
}

/// The CPU's logic instructions against the bits table.
pub fn ctl_bits() -> (r: crate::ctl::CrossTableLookup)
    ensures
        is_ctl_bits(r),
{
    let looking = vec![crate::cpu::ctl_looking_logic_reg(), crate::cpu::ctl_looking_logic_imm()];
    crate::ctl::CrossTableLookup::new(looking, crate::bits::ctl_looked_logic())
}

/// The CPU's loads and stores against the byte-packing table.
pub fn ctl_bytes() -> (r: crate::ctl::CrossTableLookup)
    ensures
        is_ctl_bytes(r),
{
    let looking = vec![crate::cpu::ctl_looking_pack(), crate::cpu::ctl_looking_unpack()];
    crate::ctl::CrossTableLookup::new(looking, crate::bytes::ctl_looked())
}

/// Every memory channel of the CPU and every byte of the byte-packing table
/// against the memory table.
pub fn ctl_mem() -> (r: crate::ctl::CrossTableLookup)
    ensures
        is_ctl_mem(r),
{
    let mut looking: Vec<crate::ctl::TableWithColumns> = Vec::new();
    let mut c: usize = 0;
    while c < 3
        invariant
            c <= 3,
            looking@.len() == c,
            forall|k: int| 0 <= k < c ==> crate::cpu::looking_cpu_mem(#[trigger] looking@[k], k as usize),
        decreases 3 - c,
    {
        looking.push(crate::cpu::ctl_looking_mem(c));
        c += 1;
    }
    let mut i: usize = 0;
    while i < 4
        invariant
            i <= 4,
            looking@.len() == 3 + i,
            forall|k: int| 0 <= k < 3 ==> crate::cpu::looking_cpu_mem(#[trigger] looking@[k], k as usize),
            forall|k: int| 3 <= k < 3 + i ==> crate::bytes::looking_bytes_mem(#[trigger] looking@[k], (k - 3) as usize),
        decreases 4 - i,
    {
        looking.push(crate::bytes::ctl_looking_mem(i));
        i += 1;
    }
    crate::ctl::CrossTableLookup::new(looking, crate::mem::ctl_looked())
}

} // verus!
