//! 6502 instruction-set tables: addressing modes, register sets, and the
//! 256-entry opcode table with per-opcode register effects.

use vstd::prelude::*;
use crate::text::{chars_of, ci_eq, eq_ignore_ascii_case};

verus! {

/// 6502 addressing modes.
#[derive(Debug, Clone, Copy, PartialEq, Eq, Hash, Structural)]
pub enum AddressingMode {
    Implied,
    Accumulator,
    Relative,
    Immediate,
    ZeroPage,
    ZeroPageX,
    ZeroPageY,
    Absolute,
    AbsoluteY,
    AbsoluteX,
    Indirect,
    IndirectX,
    IndirectY,
}

impl AddressingMode {
    /// Number of operand bytes the mode encodes.
    pub open spec fn spec_operand_bytes(self) -> u8 {
        match self {
            AddressingMode::Implied | AddressingMode::Accumulator => 0,
            AddressingMode::Relative
            | AddressingMode::Immediate
            | AddressingMode::ZeroPage
            | AddressingMode::ZeroPageX
            | AddressingMode::ZeroPageY
            | AddressingMode::IndirectX
            | AddressingMode::IndirectY => 1,
            AddressingMode::Absolute
            | AddressingMode::AbsoluteX
            | AddressingMode::AbsoluteY
            | AddressingMode::Indirect => 2,
        }
    }

    /// Number of operand bytes this addressing mode encodes (0, 1, or 2):
    /// the instruction length minus one.
    pub fn operand_bytes(self) -> (r: u8)
        ensures
            r == self.spec_operand_bytes(),
            r <= 2,
    {
        match self {
            AddressingMode::Implied | AddressingMode::Accumulator => 0,
            AddressingMode::Relative
            | AddressingMode::Immediate
            | AddressingMode::ZeroPage
            | AddressingMode::ZeroPageX
            | AddressingMode::ZeroPageY
            | AddressingMode::IndirectX
            | AddressingMode::IndirectY => 1,
            AddressingMode::Absolute
            | AddressingMode::AbsoluteX
            | AddressingMode::AbsoluteY
            | AddressingMode::Indirect => 2,
        }
    }

    /// The short human-readable label of the mode.
    pub open spec fn spec_label(self) -> &'static str {
        match self {
            AddressingMode::Implied => "implied",
            AddressingMode::Accumulator => "accumulator",
            AddressingMode::Relative => "relative",
            AddressingMode::Immediate => "immediate",
            AddressingMode::ZeroPage => "zeropage",
            AddressingMode::ZeroPageX => "zeropage,x",
            AddressingMode::ZeroPageY => "zeropage,y",
            AddressingMode::Absolute => "absolute",
            AddressingMode::AbsoluteX => "absolute,x",
            AddressingMode::AbsoluteY => "absolute,y",
            AddressingMode::Indirect => "indirect",
            AddressingMode::IndirectX => "indirect,x",
            AddressingMode::IndirectY => "indirect,y",
        }
    }

    /// A short human-readable label for the mode (e.g. `"zeropage,x"`).
    pub fn label(self) -> (r: &'static str)
        ensures
            r == self.spec_label(),
    {
        match self {
            AddressingMode::Implied => "implied",
            AddressingMode::Accumulator => "accumulator",
            AddressingMode::Relative => "relative",
            AddressingMode::Immediate => "immediate",
            AddressingMode::ZeroPage => "zeropage",
            AddressingMode::ZeroPageX => "zeropage,x",
            AddressingMode::ZeroPageY => "zeropage,y",
            AddressingMode::Absolute => "absolute",
            AddressingMode::AbsoluteX => "absolute,x",
            AddressingMode::AbsoluteY => "absolute,y",
            AddressingMode::Indirect => "indirect",
            AddressingMode::IndirectX => "indirect,x",
            AddressingMode::IndirectY => "indirect,y",
        }
    }

    /// The register bits the mode adds on top of its mnemonic's own effects:
    /// indexed modes read their index register, accumulator mode reads and
    /// writes `A`. `(writes, reads)`.
    pub open spec fn spec_mode_effects(self) -> (u8, u8) {
        match self {
            AddressingMode::Accumulator => (REG_A, REG_A),
            AddressingMode::ZeroPageX | AddressingMode::AbsoluteX | AddressingMode::IndirectX => (
                0,
                REG_X,
            ),
            AddressingMode::ZeroPageY | AddressingMode::AbsoluteY | AddressingMode::IndirectY => (
                0,
                REG_Y,
            ),
            _ => (0, 0),
        }
    }

    /// The register bits the mode implies.
    pub fn mode_effects(self) -> (r: (u8, u8))
        ensures
            r == self.spec_mode_effects(),
    {
        match self {
            AddressingMode::Accumulator => (REG_A, REG_A),
            AddressingMode::ZeroPageX | AddressingMode::AbsoluteX | AddressingMode::IndirectX => (
                0,
                REG_X,
            ),
            AddressingMode::ZeroPageY | AddressingMode::AbsoluteY | AddressingMode::IndirectY => (
                0,
                REG_Y,
            ),
            _ => (0, 0),
        }
    }
}

/// Opcode has no special metadata.
pub const META_NONE: u8 = 0;

/// Instruction may incur a page-boundary timing penalty.
pub const META_BOUNDARY: u8 = 1;

/// Instruction is an undocumented ("illegal") opcode.
pub const META_UNDOCUMENTED: u8 = 2;

/// The accumulator bit of a [`RegSet`].
pub const REG_A: u8 = 1;

/// The `X` bit of a [`RegSet`].
pub const REG_X: u8 = 2;

/// The `Y` bit of a [`RegSet`].
pub const REG_Y: u8 = 4;

/// The stack-pointer bit of a [`RegSet`].
pub const REG_S: u8 = 8;

/// A set of 6502 registers, as a bitmask over `A`, `X`, `Y`, and `S`.
#[derive(Debug, Clone, Copy, PartialEq, Eq, Structural)]
pub struct RegSet(u8);

impl RegSet {
    /// The raw bits, for specifications.
    pub closed spec fn spec_bits(self) -> u8 {
        self.0
    }

    /// The empty set.
    pub fn empty() -> (r: RegSet)
        ensures
            r.spec_bits() == 0,
    {
        RegSet(0)
    }

    /// Build a set from its raw bits (`REG_*`).
    pub fn from_bits(bits: u8) -> (r: RegSet)
        ensures
            r.spec_bits() == bits,
    {
        RegSet(bits)
    }

    /// The raw bits.
    pub fn bits(self) -> (r: u8)
        ensures
            r == self.spec_bits(),
    {
        self.0
    }

    /// Whether the set is empty.
    pub fn is_empty(self) -> (r: bool)
        ensures
            r == (self.spec_bits() == 0),
    {
        self.0 == 0
    }

    /// Whether every register of `other` is in this set.
    pub open spec fn spec_contains(self, other: RegSet) -> bool {
        self.spec_bits() & other.spec_bits() == other.spec_bits()
    }

    /// Whether every register in `other` is in this set.
    pub fn contains(self, other: RegSet) -> (r: bool)
        ensures
            r == self.spec_contains(other),
    {
        self.0 & other.0 == other.0
    }

    /// The union of two sets.
    pub fn union(self, other: RegSet) -> (r: RegSet)
        ensures
            r.spec_bits() == self.spec_bits() | other.spec_bits(),
            r == self.spec_union(other),
    {
        RegSet(self.0 | other.0)
    }
}

/// A union contains each of its operands.
pub proof fn lemma_union_contains_operands(a: RegSet, b: RegSet)
    ensures
        RegSet::from_bits_spec(a.spec_bits() | b.spec_bits()).spec_contains(a),
        RegSet::from_bits_spec(a.spec_bits() | b.spec_bits()).spec_contains(b),
{
    let x = a.spec_bits();
    let y = b.spec_bits();
    assert((x | y) & x == x) by (bit_vector);
    assert((x | y) & y == y) by (bit_vector);
}

/// Every set contains itself, and the empty set is contained in every set.
pub proof fn lemma_contains_reflexive(a: RegSet)
    ensures
        a.spec_contains(a),
        a.spec_contains(RegSet::from_bits_spec(0)),
{
    let x = a.spec_bits();
    assert(x & x == x) by (bit_vector);
    assert(x & 0 == 0) by (bit_vector);
}

impl RegSet {
    /// The set with the given bits.
    pub closed spec fn from_bits_spec(bits: u8) -> RegSet {
        RegSet(bits)
    }

    /// Sets are determined by their bits.
    pub proof fn lemma_bits(bits: u8)
        ensures
            RegSet::from_bits_spec(bits).spec_bits() == bits,
    {
    }

    /// The union of two sets, for specifications.
    pub open spec fn spec_union(self, other: RegSet) -> RegSet {
        RegSet::from_bits_spec(self.spec_bits() | other.spec_bits())
    }

    /// Two sets with the same bits are the same set.
    pub proof fn lemma_bits_determine(a: RegSet, b: RegSet)
        ensures
            a.spec_bits() == b.spec_bits() <==> a == b,
    {
    }
}

/// Union is commutative, associative and idempotent, has the empty set as
/// identity, contains both operands, and `a` contains `b` exactly when adding
/// `b` to `a` leaves `a` as it is.
pub proof fn lemma_union_laws(a: RegSet, b: RegSet, c: RegSet)
    ensures
        a.spec_union(b).spec_bits() == a.spec_bits() | b.spec_bits(),
        a.spec_union(b) == b.spec_union(a),
        a.spec_union(b).spec_union(c) == a.spec_union(b.spec_union(c)),
        a.spec_union(a) == a,
        a.spec_union(RegSet::from_bits_spec(0)) == a,
        a.spec_union(b).spec_contains(a) && a.spec_union(b).spec_contains(b),
        a.spec_contains(b) <==> a.spec_union(b) == a,
{
    let x = a.spec_bits();
    let y = b.spec_bits();
    let z = c.spec_bits();
    RegSet::lemma_bits(x | y);
    RegSet::lemma_bits(y | x);
    RegSet::lemma_bits(x | y | z);
    RegSet::lemma_bits(y | z);
    RegSet::lemma_bits(x | (y | z));
    RegSet::lemma_bits(x | x);
    RegSet::lemma_bits(0);
    RegSet::lemma_bits(x | 0);
    assert(x | y == y | x) by (bit_vector);
    assert((x | y) | z == x | (y | z)) by (bit_vector);
    assert(x | x == x) by (bit_vector);
    assert(x | 0 == x) by (bit_vector);
    assert((x | y) & x == x) by (bit_vector);
    assert((x | y) & y == y) by (bit_vector);
    assert((x & y == y) <==> (x | y == x)) by (bit_vector);
    RegSet::lemma_bits_determine(a.spec_union(b), b.spec_union(a));
    RegSet::lemma_bits_determine(a.spec_union(b).spec_union(c), a.spec_union(b.spec_union(c)));
    RegSet::lemma_bits_determine(a.spec_union(a), a);
    RegSet::lemma_bits_determine(a.spec_union(RegSet::from_bits_spec(0)), a);
    RegSet::lemma_bits_determine(a.spec_union(b), a);
}

/// A single 6502 opcode definition.
#[derive(Debug, Clone, Copy)]
pub struct Opcode {
    /// Mnemonic, e.g. `"LDA"`, upper-case.
    pub mnemonic: &'static str,
    /// Addressing mode.
    pub mode: AddressingMode,
    /// Opcode byte value.
    pub opcode: u8,
    /// Total instruction length in bytes (opcode + operands).
    pub length: u8,
    /// Base cycle count.
    pub timing: u8,
    /// Metadata bitmask (see `META_*`).
    pub meta: u8,
    /// Registers this instruction writes, including those its addressing mode
    /// implies. Empty when `effects_known` is false.
    pub writes: RegSet,
    /// Registers this instruction reads, including those its addressing mode
    /// implies.
    pub reads: RegSet,
    /// Whether the register effects are recorded for this opcode.
    pub effects_known: bool,
}

impl Opcode {
    /// Whether the undocumented bit of the metadata is set.
    pub open spec fn spec_is_undocumented(&self) -> bool {
        self.meta & META_UNDOCUMENTED != 0
    }

    /// Whether this is an undocumented ("illegal") opcode.
    pub fn is_undocumented(&self) -> (r: bool)
        ensures
            r == self.spec_is_undocumented(),
    {
        self.meta & META_UNDOCUMENTED != 0
    }

    /// Whether this opcode carries the page-boundary timing flag.
    pub fn is_boundary(&self) -> (r: bool)
        ensures
            r == (self.meta & META_BOUNDARY != 0),
    {
        self.meta & META_BOUNDARY != 0
    }
}

/// Every mnemonic in the opcode table, documented and undocumented.
#[derive(Debug, Clone, Copy, PartialEq, Eq, Hash, Structural)]
pub enum Mnemonic {
    Adc,
    Ahx,
    Alr,
    Anc,
    And,
    Arr,
    Asl,
    Axs,
    Bcc,
    Bcs,
    Beq,
    Bit,
    Bmi,
    Bne,
    Bpl,
    Brk,
    Bvc,
    Bvs,
    Clc,
    Cld,
    Cli,
    Clv,
    Cmp,
    Cpx,
    Cpy,
    Dcp,
    Dec,
    Dex,
    Dey,
    Eor,
    Inc,
    Inx,
    Iny,
    Isc,
    Jmp,
    Jsr,
    Kil,
    Las,
    Lax,
    Lda,
    Ldx,
    Ldy,
    Lsr,
    Nop,
    Ora,
    Pha,
    Php,
    Pla,
    Plp,
    Rla,
    Rol,
    Ror,
    Rra,
    Rti,
    Rts,
    Sax,
    Sbc,
    Sec,
    Sed,
    Sei,
    Shx,
    Shy,
    Slo,
    Sre,
    Sta,
    Stx,
    Sty,
    Tas,
    Tax,
    Tay,
    Tsx,
    Txa,
    Txs,
    Tya,
    Xaa,
}

impl Mnemonic {
    /// The upper-case spelling of the mnemonic.
    pub open spec fn spec_name(self) -> &'static str {
        match self {
            Mnemonic::Adc => "ADC",
            Mnemonic::Ahx => "AHX",
            Mnemonic::Alr => "ALR",
            Mnemonic::Anc => "ANC",
            Mnemonic::And => "AND",
            Mnemonic::Arr => "ARR",
            Mnemonic::Asl => "ASL",
            Mnemonic::Axs => "AXS",
            Mnemonic::Bcc => "BCC",
            Mnemonic::Bcs => "BCS",
            Mnemonic::Beq => "BEQ",
            Mnemonic::Bit => "BIT",
            Mnemonic::Bmi => "BMI",
            Mnemonic::Bne => "BNE",
            Mnemonic::Bpl => "BPL",
            Mnemonic::Brk => "BRK",
            Mnemonic::Bvc => "BVC",
            Mnemonic::Bvs => "BVS",
            Mnemonic::Clc => "CLC",
            Mnemonic::Cld => "CLD",
            Mnemonic::Cli => "CLI",
            Mnemonic::Clv => "CLV",
            Mnemonic::Cmp => "CMP",
            Mnemonic::Cpx => "CPX",
            Mnemonic::Cpy => "CPY",
            Mnemonic::Dcp => "DCP",
            Mnemonic::Dec => "DEC",
            Mnemonic::Dex => "DEX",
            Mnemonic::Dey => "DEY",
            Mnemonic::Eor => "EOR",
            Mnemonic::Inc => "INC",
            Mnemonic::Inx => "INX",
            Mnemonic::Iny => "INY",
            Mnemonic::Isc => "ISC",
            Mnemonic::Jmp => "JMP",
            Mnemonic::Jsr => "JSR",
            Mnemonic::Kil => "KIL",
            Mnemonic::Las => "LAS",
            Mnemonic::Lax => "LAX",
            Mnemonic::Lda => "LDA",
            Mnemonic::Ldx => "LDX",
            Mnemonic::Ldy => "LDY",
            Mnemonic::Lsr => "LSR",
            Mnemonic::Nop => "NOP",
            Mnemonic::Ora => "ORA",
            Mnemonic::Pha => "PHA",
            Mnemonic::Php => "PHP",
            Mnemonic::Pla => "PLA",
            Mnemonic::Plp => "PLP",
            Mnemonic::Rla => "RLA",
            Mnemonic::Rol => "ROL",
            Mnemonic::Ror => "ROR",
            Mnemonic::Rra => "RRA",
            Mnemonic::Rti => "RTI",
            Mnemonic::Rts => "RTS",
            Mnemonic::Sax => "SAX",
            Mnemonic::Sbc => "SBC",
            Mnemonic::Sec => "SEC",
            Mnemonic::Sed => "SED",
            Mnemonic::Sei => "SEI",
            Mnemonic::Shx => "SHX",
            Mnemonic::Shy => "SHY",
            Mnemonic::Slo => "SLO",
            Mnemonic::Sre => "SRE",
            Mnemonic::Sta => "STA",
            Mnemonic::Stx => "STX",
            Mnemonic::Sty => "STY",
            Mnemonic::Tas => "TAS",
            Mnemonic::Tax => "TAX",
            Mnemonic::Tay => "TAY",
            Mnemonic::Tsx => "TSX",
            Mnemonic::Txa => "TXA",
            Mnemonic::Txs => "TXS",
            Mnemonic::Tya => "TYA",
            Mnemonic::Xaa => "XAA",
        }
    }

    /// The upper-case spelling of the mnemonic.
    pub fn name(self) -> (r: &'static str)
        ensures
            r == self.spec_name(),
    {
        match self {
            Mnemonic::Adc => "ADC",
            Mnemonic::Ahx => "AHX",
            Mnemonic::Alr => "ALR",
            Mnemonic::Anc => "ANC",
            Mnemonic::And => "AND",
            Mnemonic::Arr => "ARR",
            Mnemonic::Asl => "ASL",
            Mnemonic::Axs => "AXS",
            Mnemonic::Bcc => "BCC",
            Mnemonic::Bcs => "BCS",
            Mnemonic::Beq => "BEQ",
            Mnemonic::Bit => "BIT",
            Mnemonic::Bmi => "BMI",
            Mnemonic::Bne => "BNE",
            Mnemonic::Bpl => "BPL",
            Mnemonic::Brk => "BRK",
            Mnemonic::Bvc => "BVC",
            Mnemonic::Bvs => "BVS",
            Mnemonic::Clc => "CLC",
            Mnemonic::Cld => "CLD",
            Mnemonic::Cli => "CLI",
            Mnemonic::Clv => "CLV",
            Mnemonic::Cmp => "CMP",
            Mnemonic::Cpx => "CPX",
            Mnemonic::Cpy => "CPY",
            Mnemonic::Dcp => "DCP",
            Mnemonic::Dec => "DEC",
            Mnemonic::Dex => "DEX",
            Mnemonic::Dey => "DEY",
            Mnemonic::Eor => "EOR",
            Mnemonic::Inc => "INC",
            Mnemonic::Inx => "INX",
            Mnemonic::Iny => "INY",
            Mnemonic::Isc => "ISC",
            Mnemonic::Jmp => "JMP",
            Mnemonic::Jsr => "JSR",
            Mnemonic::Kil => "KIL",
            Mnemonic::Las => "LAS",
            Mnemonic::Lax => "LAX",
            Mnemonic::Lda => "LDA",
            Mnemonic::Ldx => "LDX",
            Mnemonic::Ldy => "LDY",
            Mnemonic::Lsr => "LSR",
            Mnemonic::Nop => "NOP",
            Mnemonic::Ora => "ORA",
            Mnemonic::Pha => "PHA",
            Mnemonic::Php => "PHP",
            Mnemonic::Pla => "PLA",
            Mnemonic::Plp => "PLP",
            Mnemonic::Rla => "RLA",
            Mnemonic::Rol => "ROL",
            Mnemonic::Ror => "ROR",
            Mnemonic::Rra => "RRA",
            Mnemonic::Rti => "RTI",
            Mnemonic::Rts => "RTS",
            Mnemonic::Sax => "SAX",
            Mnemonic::Sbc => "SBC",
            Mnemonic::Sec => "SEC",
            Mnemonic::Sed => "SED",
            Mnemonic::Sei => "SEI",
            Mnemonic::Shx => "SHX",
            Mnemonic::Shy => "SHY",
            Mnemonic::Slo => "SLO",
            Mnemonic::Sre => "SRE",
            Mnemonic::Sta => "STA",
            Mnemonic::Stx => "STX",
            Mnemonic::Sty => "STY",
            Mnemonic::Tas => "TAS",
            Mnemonic::Tax => "TAX",
            Mnemonic::Tay => "TAY",
            Mnemonic::Tsx => "TSX",
            Mnemonic::Txa => "TXA",
            Mnemonic::Txs => "TXS",
            Mnemonic::Tya => "TYA",
            Mnemonic::Xaa => "XAA",
        }
    }

    /// The registers a documented mnemonic writes and reads, as `REG_*` bits;
    /// `None` for the undocumented mnemonics, whose effects are unknown.
    pub open spec fn spec_effects(self) -> Option<(u8, u8)> {
        match self {
            Mnemonic::Adc => Some((1, 1)),
            Mnemonic::And => Some((1, 1)),
            Mnemonic::Asl => Some((0, 0)),
            Mnemonic::Bcc => Some((0, 0)),
            Mnemonic::Bcs => Some((0, 0)),
            Mnemonic::Beq => Some((0, 0)),
            Mnemonic::Bit => Some((0, 1)),
            Mnemonic::Bmi => Some((0, 0)),
            Mnemonic::Bne => Some((0, 0)),
            Mnemonic::Bpl => Some((0, 0)),
            Mnemonic::Brk => Some((0, 0)),
            Mnemonic::Bvc => Some((0, 0)),
            Mnemonic::Bvs => Some((0, 0)),
            Mnemonic::Clc => Some((0, 0)),
            Mnemonic::Cld => Some((0, 0)),
            Mnemonic::Cli => Some((0, 0)),
            Mnemonic::Clv => Some((0, 0)),
            Mnemonic::Cmp => Some((0, 1)),
            Mnemonic::Cpx => Some((0, 2)),
            Mnemonic::Cpy => Some((0, 4)),
            Mnemonic::Dec => Some((0, 0)),
            Mnemonic::Dex => Some((2, 2)),
            Mnemonic::Dey => Some((4, 4)),
            Mnemonic::Eor => Some((1, 1)),
            Mnemonic::Inc => Some((0, 0)),
            Mnemonic::Inx => Some((2, 2)),
            Mnemonic::Iny => Some((4, 4)),
            Mnemonic::Jmp => Some((0, 0)),
            Mnemonic::Jsr => Some((0, 0)),
            Mnemonic::Lda => Some((1, 0)),
            Mnemonic::Ldx => Some((2, 0)),
            Mnemonic::Ldy => Some((4, 0)),
            Mnemonic::Lsr => Some((0, 0)),
            Mnemonic::Nop => Some((0, 0)),
            Mnemonic::Ora => Some((1, 1)),
            Mnemonic::Pha => Some((0, 1)),
            Mnemonic::Php => Some((0, 0)),
            Mnemonic::Pla => Some((1, 0)),
            Mnemonic::Plp => Some((0, 0)),
            Mnemonic::Rol => Some((0, 0)),
            Mnemonic::Ror => Some((0, 0)),
            Mnemonic::Rti => Some((0, 0)),
            Mnemonic::Rts => Some((0, 0)),
            Mnemonic::Sbc => Some((1, 1)),
            Mnemonic::Sec => Some((0, 0)),
            Mnemonic::Sed => Some((0, 0)),
            Mnemonic::Sei => Some((0, 0)),
            Mnemonic::Sta => Some((0, 1)),
            Mnemonic::Stx => Some((0, 2)),
            Mnemonic::Sty => Some((0, 4)),
            Mnemonic::Tax => Some((2, 1)),
            Mnemonic::Tay => Some((4, 1)),
            Mnemonic::Tsx => Some((2, 8)),
            Mnemonic::Txa => Some((1, 2)),
            Mnemonic::Txs => Some((8, 2)),
            Mnemonic::Tya => Some((1, 4)),
            _ => None,
        }
    }

    /// The registers a documented mnemonic writes and reads.
    pub fn effects(self) -> (r: Option<(u8, u8)>)
        ensures
            r == self.spec_effects(),
    {
        match self {
            Mnemonic::Adc => Some((1, 1)),
            Mnemonic::And => Some((1, 1)),
            Mnemonic::Asl => Some((0, 0)),
            Mnemonic::Bcc => Some((0, 0)),
            Mnemonic::Bcs => Some((0, 0)),
            Mnemonic::Beq => Some((0, 0)),
            Mnemonic::Bit => Some((0, 1)),
            Mnemonic::Bmi => Some((0, 0)),
            Mnemonic::Bne => Some((0, 0)),
            Mnemonic::Bpl => Some((0, 0)),
            Mnemonic::Brk => Some((0, 0)),
            Mnemonic::Bvc => Some((0, 0)),
            Mnemonic::Bvs => Some((0, 0)),
            Mnemonic::Clc => Some((0, 0)),
            Mnemonic::Cld => Some((0, 0)),
            Mnemonic::Cli => Some((0, 0)),
            Mnemonic::Clv => Some((0, 0)),
            Mnemonic::Cmp => Some((0, 1)),
            Mnemonic::Cpx => Some((0, 2)),
            Mnemonic::Cpy => Some((0, 4)),
            Mnemonic::Dec => Some((0, 0)),
            Mnemonic::Dex => Some((2, 2)),
            Mnemonic::Dey => Some((4, 4)),
            Mnemonic::Eor => Some((1, 1)),
            Mnemonic::Inc => Some((0, 0)),
            Mnemonic::Inx => Some((2, 2)),
            Mnemonic::Iny => Some((4, 4)),
            Mnemonic::Jmp => Some((0, 0)),
            Mnemonic::Jsr => Some((0, 0)),
            Mnemonic::Lda => Some((1, 0)),
            Mnemonic::Ldx => Some((2, 0)),
            Mnemonic::Ldy => Some((4, 0)),
            Mnemonic::Lsr => Some((0, 0)),
            Mnemonic::Nop => Some((0, 0)),
            Mnemonic::Ora => Some((1, 1)),
            Mnemonic::Pha => Some((0, 1)),
            Mnemonic::Php => Some((0, 0)),
            Mnemonic::Pla => Some((1, 0)),
            Mnemonic::Plp => Some((0, 0)),
            Mnemonic::Rol => Some((0, 0)),
            Mnemonic::Ror => Some((0, 0)),
            Mnemonic::Rti => Some((0, 0)),
            Mnemonic::Rts => Some((0, 0)),
            Mnemonic::Sbc => Some((1, 1)),
            Mnemonic::Sec => Some((0, 0)),
            Mnemonic::Sed => Some((0, 0)),
            Mnemonic::Sei => Some((0, 0)),
            Mnemonic::Sta => Some((0, 1)),
            Mnemonic::Stx => Some((0, 2)),
            Mnemonic::Sty => Some((0, 4)),
            Mnemonic::Tax => Some((2, 1)),
            Mnemonic::Tay => Some((4, 1)),
            Mnemonic::Tsx => Some((2, 8)),
            Mnemonic::Txa => Some((1, 2)),
            Mnemonic::Txs => Some((8, 2)),
            Mnemonic::Tya => Some((1, 4)),
            _ => None,
        }
    }
}

/// The opcode table row for byte `b`: mnemonic, addressing mode, base cycle
/// count, and metadata bits (`META_*`).
#[verifier::opaque]
pub open spec fn spec_row(b: u8) -> (Mnemonic, AddressingMode, u8, u8) {
    match b {
        0x00 => (Mnemonic::Brk, AddressingMode::Implied, 7, 0x00),
        0x01 => (Mnemonic::Ora, AddressingMode::IndirectX, 6, 0x00),
        0x02 => (Mnemonic::Kil, AddressingMode::Implied, 0, 0x02),
        0x03 => (Mnemonic::Slo, AddressingMode::IndirectX, 8, 0x02),
        0x04 => (Mnemonic::Nop, AddressingMode::ZeroPage, 3, 0x02),
        0x05 => (Mnemonic::Ora, AddressingMode::ZeroPage, 3, 0x00),
        0x06 => (Mnemonic::Asl, AddressingMode::ZeroPage, 5, 0x00),
        0x07 => (Mnemonic::Slo, AddressingMode::ZeroPage, 5, 0x02),
        0x08 => (Mnemonic::Php, AddressingMode::Implied, 3, 0x00),
        0x09 => (Mnemonic::Ora, AddressingMode::Immediate, 2, 0x00),
        0x0A => (Mnemonic::Asl, AddressingMode::Accumulator, 2, 0x00),
        0x0B => (Mnemonic::Anc, AddressingMode::Immediate, 2, 0x02),
        0x0C => (Mnemonic::Nop, AddressingMode::Absolute, 4, 0x02),
        0x0D => (Mnemonic::Ora, AddressingMode::Absolute, 4, 0x00),
        0x0E => (Mnemonic::Asl, AddressingMode::Absolute, 6, 0x00),
        0x0F => (Mnemonic::Slo, AddressingMode::Absolute, 6, 0x02),
        0x10 => (Mnemonic::Bpl, AddressingMode::Relative, 2, 0x01),
        0x11 => (Mnemonic::Ora, AddressingMode::IndirectY, 5, 0x01),
        0x12 => (Mnemonic::Kil, AddressingMode::Implied, 0, 0x02),
        0x13 => (Mnemonic::Slo, AddressingMode::IndirectY, 8, 0x02),
        0x14 => (Mnemonic::Nop, AddressingMode::ZeroPageX, 4, 0x02),
        0x15 => (Mnemonic::Ora, AddressingMode::ZeroPageX, 4, 0x00),
        0x16 => (Mnemonic::Asl, AddressingMode::ZeroPageX, 6, 0x00),
        0x17 => (Mnemonic::Slo, AddressingMode::ZeroPageX, 6, 0x02),
        0x18 => (Mnemonic::Clc, AddressingMode::Implied, 2, 0x00),
        0x19 => (Mnemonic::Ora, AddressingMode::AbsoluteY, 4, 0x01),
        0x1A => (Mnemonic::Nop, AddressingMode::Implied, 2, 0x02),
        0x1B => (Mnemonic::Slo, AddressingMode::AbsoluteY, 7, 0x02),
        0x1C => (Mnemonic::Nop, AddressingMode::AbsoluteX, 4, 0x03),
        0x1D => (Mnemonic::Ora, AddressingMode::AbsoluteX, 4, 0x01),
        0x1E => (Mnemonic::Asl, AddressingMode::AbsoluteX, 7, 0x00),
        0x1F => (Mnemonic::Slo, AddressingMode::AbsoluteX, 7, 0x02),
        0x20 => (Mnemonic::Jsr, AddressingMode::Absolute, 6, 0x00),
        0x21 => (Mnemonic::And, AddressingMode::IndirectX, 6, 0x00),
        0x22 => (Mnemonic::Kil, AddressingMode::Implied, 0, 0x02),
        0x23 => (Mnemonic::Rla, AddressingMode::IndirectX, 8, 0x02),
        0x24 => (Mnemonic::Bit, AddressingMode::ZeroPage, 3, 0x00),
        0x25 => (Mnemonic::And, AddressingMode::ZeroPage, 3, 0x00),
        0x26 => (Mnemonic::Rol, AddressingMode::ZeroPage, 5, 0x00),
        0x27 => (Mnemonic::Rla, AddressingMode::ZeroPage, 5, 0x02),
        0x28 => (Mnemonic::Plp, AddressingMode::Implied, 4, 0x00),
        0x29 => (Mnemonic::And, AddressingMode::Immediate, 2, 0x00),
        0x2A => (Mnemonic::Rol, AddressingMode::Accumulator, 2, 0x00),
        0x2B => (Mnemonic::Anc, AddressingMode::Immediate, 2, 0x02),
        0x2C => (Mnemonic::Bit, AddressingMode::Absolute, 4, 0x00),
        0x2D => (Mnemonic::And, AddressingMode::Absolute, 4, 0x00),
        0x2E => (Mnemonic::Rol, AddressingMode::Absolute, 6, 0x00),
        0x2F => (Mnemonic::Rla, AddressingMode::Absolute, 6, 0x02),
        0x30 => (Mnemonic::Bmi, AddressingMode::Relative, 2, 0x01),
        0x31 => (Mnemonic::And, AddressingMode::IndirectY, 5, 0x01),
        0x32 => (Mnemonic::Kil, AddressingMode::Implied, 0, 0x02),
        0x33 => (Mnemonic::Rla, AddressingMode::IndirectY, 8, 0x02),
        0x34 => (Mnemonic::Nop, AddressingMode::ZeroPageX, 4, 0x02),
        0x35 => (Mnemonic::And, AddressingMode::ZeroPageX, 4, 0x00),
        0x36 => (Mnemonic::Rol, AddressingMode::ZeroPageX, 6, 0x00),
        0x37 => (Mnemonic::Rla, AddressingMode::ZeroPageX, 6, 0x02),
        0x38 => (Mnemonic::Sec, AddressingMode::Implied, 2, 0x00),
        0x39 => (Mnemonic::And, AddressingMode::AbsoluteY, 4, 0x01),
        0x3A => (Mnemonic::Nop, AddressingMode::Implied, 2, 0x02),
        0x3B => (Mnemonic::Rla, AddressingMode::AbsoluteY, 7, 0x02),
        0x3C => (Mnemonic::Nop, AddressingMode::AbsoluteX, 4, 0x03),
        0x3D => (Mnemonic::And, AddressingMode::AbsoluteX, 4, 0x01),
        0x3E => (Mnemonic::Rol, AddressingMode::AbsoluteX, 7, 0x00),
        0x3F => (Mnemonic::Rla, AddressingMode::AbsoluteX, 7, 0x02),
        0x40 => (Mnemonic::Rti, AddressingMode::Implied, 6, 0x00),
        0x41 => (Mnemonic::Eor, AddressingMode::IndirectX, 6, 0x00),
        0x42 => (Mnemonic::Kil, AddressingMode::Implied, 0, 0x02),
        0x43 => (Mnemonic::Sre, AddressingMode::IndirectX, 8, 0x02),
        0x44 => (Mnemonic::Nop, AddressingMode::ZeroPage, 3, 0x02),
        0x45 => (Mnemonic::Eor, AddressingMode::ZeroPage, 3, 0x00),
        0x46 => (Mnemonic::Lsr, AddressingMode::ZeroPage, 5, 0x00),
        0x47 => (Mnemonic::Sre, AddressingMode::ZeroPage, 5, 0x02),
        0x48 => (Mnemonic::Pha, AddressingMode::Implied, 3, 0x00),
        0x49 => (Mnemonic::Eor, AddressingMode::Immediate, 2, 0x00),
        0x4A => (Mnemonic::Lsr, AddressingMode::Accumulator, 2, 0x00),
        0x4B => (Mnemonic::Alr, AddressingMode::Immediate, 2, 0x02),
        0x4C => (Mnemonic::Jmp, AddressingMode::Absolute, 3, 0x00),
        0x4D => (Mnemonic::Eor, AddressingMode::Absolute, 4, 0x00),
        0x4E => (Mnemonic::Lsr, AddressingMode::Absolute, 6, 0x00),
        0x4F => (Mnemonic::Sre, AddressingMode::Absolute, 6, 0x02),
        0x50 => (Mnemonic::Bvc, AddressingMode::Relative, 2, 0x01),
        0x51 => (Mnemonic::Eor, AddressingMode::IndirectY, 5, 0x01),
        0x52 => (Mnemonic::Kil, AddressingMode::Implied, 0, 0x02),
        0x53 => (Mnemonic::Sre, AddressingMode::IndirectY, 8, 0x02),
        0x54 => (Mnemonic::Nop, AddressingMode::ZeroPageX, 4, 0x02),
        0x55 => (Mnemonic::Eor, AddressingMode::ZeroPageX, 4, 0x00),
        0x56 => (Mnemonic::Lsr, AddressingMode::ZeroPageX, 6, 0x00),
        0x57 => (Mnemonic::Sre, AddressingMode::ZeroPageX, 6, 0x02),
        0x58 => (Mnemonic::Cli, AddressingMode::Implied, 2, 0x00),
        0x59 => (Mnemonic::Eor, AddressingMode::AbsoluteY, 4, 0x01),
        0x5A => (Mnemonic::Nop, AddressingMode::Implied, 2, 0x02),
        0x5B => (Mnemonic::Sre, AddressingMode::AbsoluteY, 7, 0x02),
        0x5C => (Mnemonic::Nop, AddressingMode::AbsoluteX, 4, 0x03),
        0x5D => (Mnemonic::Eor, AddressingMode::AbsoluteX, 4, 0x01),
        0x5E => (Mnemonic::Lsr, AddressingMode::AbsoluteX, 7, 0x00),
        0x5F => (Mnemonic::Sre, AddressingMode::AbsoluteX, 7, 0x02),
        0x60 => (Mnemonic::Rts, AddressingMode::Implied, 6, 0x00),
        0x61 => (Mnemonic::Adc, AddressingMode::IndirectX, 6, 0x00),
        0x62 => (Mnemonic::Kil, AddressingMode::Implied, 0, 0x02),
        0x63 => (Mnemonic::Rra, AddressingMode::IndirectX, 8, 0x02),
        0x64 => (Mnemonic::Nop, AddressingMode::ZeroPage, 3, 0x02),
        0x65 => (Mnemonic::Adc, AddressingMode::ZeroPage, 3, 0x00),
        0x66 => (Mnemonic::Ror, AddressingMode::ZeroPage, 5, 0x00),
        0x67 => (Mnemonic::Rra, AddressingMode::ZeroPage, 5, 0x02),
        0x68 => (Mnemonic::Pla, AddressingMode::Implied, 4, 0x00),
        0x69 => (Mnemonic::Adc, AddressingMode::Immediate, 2, 0x00),
        0x6A => (Mnemonic::Ror, AddressingMode::Accumulator, 2, 0x00),
        0x6B => (Mnemonic::Arr, AddressingMode::Immediate, 2, 0x02),
        0x6C => (Mnemonic::Jmp, AddressingMode::Indirect, 5, 0x00),
        0x6D => (Mnemonic::Adc, AddressingMode::Absolute, 4, 0x00),
        0x6E => (Mnemonic::Ror, AddressingMode::Absolute, 6, 0x00),
        0x6F => (Mnemonic::Rra, AddressingMode::Absolute, 6, 0x02),
        0x70 => (Mnemonic::Bvs, AddressingMode::Relative, 2, 0x01),
        0x71 => (Mnemonic::Adc, AddressingMode::IndirectY, 5, 0x01),
        0x72 => (Mnemonic::Kil, AddressingMode::Implied, 0, 0x02),
        0x73 => (Mnemonic::Rra, AddressingMode::IndirectY, 8, 0x02),
        0x74 => (Mnemonic::Nop, AddressingMode::ZeroPageX, 4, 0x02),
        0x75 => (Mnemonic::Adc, AddressingMode::ZeroPageX, 4, 0x00),
        0x76 => (Mnemonic::Ror, AddressingMode::ZeroPageX, 6, 0x00),
        0x77 => (Mnemonic::Rra, AddressingMode::ZeroPageX, 6, 0x02),
        0x78 => (Mnemonic::Sei, AddressingMode::Implied, 2, 0x00),
        0x79 => (Mnemonic::Adc, AddressingMode::AbsoluteY, 4, 0x01),
        0x7A => (Mnemonic::Nop, AddressingMode::Implied, 2, 0x02),
        0x7B => (Mnemonic::Rra, AddressingMode::AbsoluteY, 7, 0x02),
        0x7C => (Mnemonic::Nop, AddressingMode::AbsoluteX, 4, 0x03),
        0x7D => (Mnemonic::Adc, AddressingMode::AbsoluteX, 4, 0x01),
        0x7E => (Mnemonic::Ror, AddressingMode::AbsoluteX, 7, 0x00),
        0x7F => (Mnemonic::Rra, AddressingMode::AbsoluteX, 7, 0x02),
        0x80 => (Mnemonic::Nop, AddressingMode::Immediate, 2, 0x02),
        0x81 => (Mnemonic::Sta, AddressingMode::IndirectX, 6, 0x00),
        0x82 => (Mnemonic::Nop, AddressingMode::Immediate, 2, 0x02),
        0x83 => (Mnemonic::Sax, AddressingMode::IndirectX, 6, 0x02),
        0x84 => (Mnemonic::Sty, AddressingMode::ZeroPage, 3, 0x00),
        0x85 => (Mnemonic::Sta, AddressingMode::ZeroPage, 3, 0x00),
        0x86 => (Mnemonic::Stx, AddressingMode::ZeroPage, 3, 0x00),
        0x87 => (Mnemonic::Sax, AddressingMode::ZeroPage, 3, 0x02),
        0x88 => (Mnemonic::Dey, AddressingMode::Implied, 2, 0x00),
        0x89 => (Mnemonic::Nop, AddressingMode::Immediate, 2, 0x02),
        0x8A => (Mnemonic::Txa, AddressingMode::Implied, 2, 0x00),
        0x8B => (Mnemonic::Xaa, AddressingMode::Immediate, 2, 0x02),
        0x8C => (Mnemonic::Sty, AddressingMode::Absolute, 4, 0x00),
        0x8D => (Mnemonic::Sta, AddressingMode::Absolute, 4, 0x00),
        0x8E => (Mnemonic::Stx, AddressingMode::Absolute, 4, 0x00),
        0x8F => (Mnemonic::Sax, AddressingMode::Absolute, 4, 0x02),
        0x90 => (Mnemonic::Bcc, AddressingMode::Relative, 2, 0x01),
        0x91 => (Mnemonic::Sta, AddressingMode::IndirectY, 6, 0x00),
        0x92 => (Mnemonic::Kil, AddressingMode::Implied, 0, 0x02),
        0x93 => (Mnemonic::Ahx, AddressingMode::IndirectY, 6, 0x02),
        0x94 => (Mnemonic::Sty, AddressingMode::ZeroPageX, 4, 0x00),
        0x95 => (Mnemonic::Sta, AddressingMode::ZeroPageX, 4, 0x00),
        0x96 => (Mnemonic::Stx, AddressingMode::ZeroPageY, 4, 0x00),
        0x97 => (Mnemonic::Sax, AddressingMode::ZeroPageY, 4, 0x02),
        0x98 => (Mnemonic::Tya, AddressingMode::Implied, 2, 0x00),
        0x99 => (Mnemonic::Sta, AddressingMode::AbsoluteY, 5, 0x00),
        0x9A => (Mnemonic::Txs, AddressingMode::Implied, 2, 0x00),
        0x9B => (Mnemonic::Tas, AddressingMode::AbsoluteY, 5, 0x02),
        0x9C => (Mnemonic::Shy, AddressingMode::AbsoluteX, 5, 0x02),
        0x9D => (Mnemonic::Sta, AddressingMode::AbsoluteX, 5, 0x00),
        0x9E => (Mnemonic::Shx, AddressingMode::AbsoluteY, 5, 0x02),
        0x9F => (Mnemonic::Ahx, AddressingMode::AbsoluteY, 5, 0x02),
        0xA0 => (Mnemonic::Ldy, AddressingMode::Immediate, 2, 0x00),
        0xA1 => (Mnemonic::Lda, AddressingMode::IndirectX, 6, 0x00),
        0xA2 => (Mnemonic::Ldx, AddressingMode::Immediate, 2, 0x00),
        0xA3 => (Mnemonic::Lax, AddressingMode::IndirectX, 6, 0x02),
        0xA4 => (Mnemonic::Ldy, AddressingMode::ZeroPage, 3, 0x00),
        0xA5 => (Mnemonic::Lda, AddressingMode::ZeroPage, 3, 0x00),
        0xA6 => (Mnemonic::Ldx, AddressingMode::ZeroPage, 3, 0x00),
        0xA7 => (Mnemonic::Lax, AddressingMode::ZeroPage, 3, 0x02),
        0xA8 => (Mnemonic::Tay, AddressingMode::Implied, 2, 0x00),
        0xA9 => (Mnemonic::Lda, AddressingMode::Immediate, 2, 0x00),
        0xAA => (Mnemonic::Tax, AddressingMode::Implied, 2, 0x00),
        0xAB => (Mnemonic::Lax, AddressingMode::Immediate, 2, 0x02),
        0xAC => (Mnemonic::Ldy, AddressingMode::Absolute, 4, 0x00),
        0xAD => (Mnemonic::Lda, AddressingMode::Absolute, 4, 0x00),
        0xAE => (Mnemonic::Ldx, AddressingMode::Absolute, 4, 0x00),
        0xAF => (Mnemonic::Lax, AddressingMode::Absolute, 4, 0x02),
        0xB0 => (Mnemonic::Bcs, AddressingMode::Relative, 2, 0x01),
        0xB1 => (Mnemonic::Lda, AddressingMode::IndirectY, 5, 0x01),
        0xB2 => (Mnemonic::Kil, AddressingMode::Implied, 0, 0x02),
        0xB3 => (Mnemonic::Lax, AddressingMode::IndirectY, 5, 0x03),
        0xB4 => (Mnemonic::Ldy, AddressingMode::ZeroPageX, 4, 0x00),
        0xB5 => (Mnemonic::Lda, AddressingMode::ZeroPageX, 4, 0x00),
        0xB6 => (Mnemonic::Ldx, AddressingMode::ZeroPageY, 4, 0x00),
        0xB7 => (Mnemonic::Lax, AddressingMode::ZeroPageY, 4, 0x02),
        0xB8 => (Mnemonic::Clv, AddressingMode::Implied, 2, 0x00),
        0xB9 => (Mnemonic::Lda, AddressingMode::AbsoluteY, 4, 0x01),
        0xBA => (Mnemonic::Tsx, AddressingMode::Implied, 2, 0x00),
        0xBB => (Mnemonic::Las, AddressingMode::AbsoluteY, 4, 0x03),
        0xBC => (Mnemonic::Ldy, AddressingMode::AbsoluteX, 4, 0x01),
        0xBD => (Mnemonic::Lda, AddressingMode::AbsoluteX, 4, 0x01),
        0xBE => (Mnemonic::Ldx, AddressingMode::AbsoluteY, 4, 0x01),
        0xBF => (Mnemonic::Lax, AddressingMode::AbsoluteY, 4, 0x03),
        0xC0 => (Mnemonic::Cpy, AddressingMode::Immediate, 2, 0x00),
        0xC1 => (Mnemonic::Cmp, AddressingMode::IndirectX, 6, 0x00),
        0xC2 => (Mnemonic::Nop, AddressingMode::Immediate, 2, 0x02),
        0xC3 => (Mnemonic::Dcp, AddressingMode::IndirectX, 8, 0x02),
        0xC4 => (Mnemonic::Cpy, AddressingMode::ZeroPage, 3, 0x00),
        0xC5 => (Mnemonic::Cmp, AddressingMode::ZeroPage, 3, 0x00),
        0xC6 => (Mnemonic::Dec, AddressingMode::ZeroPage, 5, 0x00),
        0xC7 => (Mnemonic::Dcp, AddressingMode::ZeroPage, 5, 0x02),
        0xC8 => (Mnemonic::Iny, AddressingMode::Implied, 2, 0x00),
        0xC9 => (Mnemonic::Cmp, AddressingMode::Immediate, 2, 0x00),
        0xCA => (Mnemonic::Dex, AddressingMode::Implied, 2, 0x00),
        0xCB => (Mnemonic::Axs, AddressingMode::Immediate, 2, 0x02),
        0xCC => (Mnemonic::Cpy, AddressingMode::Absolute, 4, 0x00),
        0xCD => (Mnemonic::Cmp, AddressingMode::Absolute, 4, 0x00),
        0xCE => (Mnemonic::Dec, AddressingMode::Absolute, 6, 0x00),
        0xCF => (Mnemonic::Dcp, AddressingMode::Absolute, 6, 0x02),
        0xD0 => (Mnemonic::Bne, AddressingMode::Relative, 2, 0x01),
        0xD1 => (Mnemonic::Cmp, AddressingMode::IndirectY, 5, 0x01),
        0xD2 => (Mnemonic::Kil, AddressingMode::Implied, 0, 0x02),
        0xD3 => (Mnemonic::Dcp, AddressingMode::IndirectY, 8, 0x02),
        0xD4 => (Mnemonic::Nop, AddressingMode::ZeroPageX, 4, 0x02),
        0xD5 => (Mnemonic::Cmp, AddressingMode::ZeroPageX, 4, 0x00),
        0xD6 => (Mnemonic::Dec, AddressingMode::ZeroPageX, 6, 0x00),
        0xD7 => (Mnemonic::Dcp, AddressingMode::ZeroPageX, 6, 0x02),
        0xD8 => (Mnemonic::Cld, AddressingMode::Implied, 2, 0x00),
        0xD9 => (Mnemonic::Cmp, AddressingMode::AbsoluteY, 4, 0x01),
        0xDA => (Mnemonic::Nop, AddressingMode::Implied, 2, 0x02),
        0xDB => (Mnemonic::Dcp, AddressingMode::AbsoluteY, 7, 0x02),
        0xDC => (Mnemonic::Nop, AddressingMode::AbsoluteX, 4, 0x03),
        0xDD => (Mnemonic::Cmp, AddressingMode::AbsoluteX, 4, 0x01),
        0xDE => (Mnemonic::Dec, AddressingMode::AbsoluteX, 7, 0x00),
        0xDF => (Mnemonic::Dcp, AddressingMode::AbsoluteX, 7, 0x02),
        0xE0 => (Mnemonic::Cpx, AddressingMode::Immediate, 2, 0x00),
        0xE1 => (Mnemonic::Sbc, AddressingMode::IndirectX, 6, 0x00),
        0xE2 => (Mnemonic::Nop, AddressingMode::Immediate, 2, 0x02),
        0xE3 => (Mnemonic::Isc, AddressingMode::IndirectX, 8, 0x02),
        0xE4 => (Mnemonic::Cpx, AddressingMode::ZeroPage, 3, 0x00),
        0xE5 => (Mnemonic::Sbc, AddressingMode::ZeroPage, 3, 0x00),
        0xE6 => (Mnemonic::Inc, AddressingMode::ZeroPage, 5, 0x00),
        0xE7 => (Mnemonic::Isc, AddressingMode::ZeroPage, 5, 0x02),
        0xE8 => (Mnemonic::Inx, AddressingMode::Implied, 2, 0x00),
        0xE9 => (Mnemonic::Sbc, AddressingMode::Immediate, 2, 0x00),
        0xEA => (Mnemonic::Nop, AddressingMode::Implied, 2, 0x00),
        0xEB => (Mnemonic::Sbc, AddressingMode::Immediate, 2, 0x02),
        0xEC => (Mnemonic::Cpx, AddressingMode::Absolute, 4, 0x00),
        0xED => (Mnemonic::Sbc, AddressingMode::Absolute, 4, 0x00),
        0xEE => (Mnemonic::Inc, AddressingMode::Absolute, 6, 0x00),
        0xEF => (Mnemonic::Isc, AddressingMode::Absolute, 6, 0x02),
        0xF0 => (Mnemonic::Beq, AddressingMode::Relative, 2, 0x01),
        0xF1 => (Mnemonic::Sbc, AddressingMode::IndirectY, 5, 0x01),
        0xF2 => (Mnemonic::Kil, AddressingMode::Implied, 0, 0x02),
        0xF3 => (Mnemonic::Isc, AddressingMode::IndirectY, 8, 0x02),
        0xF4 => (Mnemonic::Nop, AddressingMode::ZeroPageX, 4, 0x02),
        0xF5 => (Mnemonic::Sbc, AddressingMode::ZeroPageX, 4, 0x00),
        0xF6 => (Mnemonic::Inc, AddressingMode::ZeroPageX, 6, 0x00),
        0xF7 => (Mnemonic::Isc, AddressingMode::ZeroPageX, 6, 0x02),
        0xF8 => (Mnemonic::Sed, AddressingMode::Implied, 2, 0x00),
        0xF9 => (Mnemonic::Sbc, AddressingMode::AbsoluteY, 4, 0x01),
        0xFA => (Mnemonic::Nop, AddressingMode::Implied, 2, 0x02),
        0xFB => (Mnemonic::Isc, AddressingMode::AbsoluteY, 7, 0x02),
        0xFC => (Mnemonic::Nop, AddressingMode::AbsoluteX, 4, 0x03),
        0xFD => (Mnemonic::Sbc, AddressingMode::AbsoluteX, 4, 0x01),
        0xFE => (Mnemonic::Inc, AddressingMode::AbsoluteX, 7, 0x00),
        _ => (Mnemonic::Isc, AddressingMode::AbsoluteX, 7, 0x02),
    }
}

/// The opcode table row for byte `b`.
#[verifier::rlimit(100)]
fn row(b: u8) -> (r: (Mnemonic, AddressingMode, u8, u8))
    ensures
        r == spec_row(b),
{
    reveal(spec_row);
    match b {
        0x00 => (Mnemonic::Brk, AddressingMode::Implied, 7, 0x00),
        0x01 => (Mnemonic::Ora, AddressingMode::IndirectX, 6, 0x00),
        0x02 => (Mnemonic::Kil, AddressingMode::Implied, 0, 0x02),
        0x03 => (Mnemonic::Slo, AddressingMode::IndirectX, 8, 0x02),
        0x04 => (Mnemonic::Nop, AddressingMode::ZeroPage, 3, 0x02),
        0x05 => (Mnemonic::Ora, AddressingMode::ZeroPage, 3, 0x00),
        0x06 => (Mnemonic::Asl, AddressingMode::ZeroPage, 5, 0x00),
        0x07 => (Mnemonic::Slo, AddressingMode::ZeroPage, 5, 0x02),
        0x08 => (Mnemonic::Php, AddressingMode::Implied, 3, 0x00),
        0x09 => (Mnemonic::Ora, AddressingMode::Immediate, 2, 0x00),
        0x0A => (Mnemonic::Asl, AddressingMode::Accumulator, 2, 0x00),
        0x0B => (Mnemonic::Anc, AddressingMode::Immediate, 2, 0x02),
        0x0C => (Mnemonic::Nop, AddressingMode::Absolute, 4, 0x02),
        0x0D => (Mnemonic::Ora, AddressingMode::Absolute, 4, 0x00),
        0x0E => (Mnemonic::Asl, AddressingMode::Absolute, 6, 0x00),
        0x0F => (Mnemonic::Slo, AddressingMode::Absolute, 6, 0x02),
        0x10 => (Mnemonic::Bpl, AddressingMode::Relative, 2, 0x01),
        0x11 => (Mnemonic::Ora, AddressingMode::IndirectY, 5, 0x01),
        0x12 => (Mnemonic::Kil, AddressingMode::Implied, 0, 0x02),
        0x13 => (Mnemonic::Slo, AddressingMode::IndirectY, 8, 0x02),
        0x14 => (Mnemonic::Nop, AddressingMode::ZeroPageX, 4, 0x02),
        0x15 => (Mnemonic::Ora, AddressingMode::ZeroPageX, 4, 0x00),
        0x16 => (Mnemonic::Asl, AddressingMode::ZeroPageX, 6, 0x00),
        0x17 => (Mnemonic::Slo, AddressingMode::ZeroPageX, 6, 0x02),
        0x18 => (Mnemonic::Clc, AddressingMode::Implied, 2, 0x00),
        0x19 => (Mnemonic::Ora, AddressingMode::AbsoluteY, 4, 0x01),
        0x1A => (Mnemonic::Nop, AddressingMode::Implied, 2, 0x02),
        0x1B => (Mnemonic::Slo, AddressingMode::AbsoluteY, 7, 0x02),
        0x1C => (Mnemonic::Nop, AddressingMode::AbsoluteX, 4, 0x03),
        0x1D => (Mnemonic::Ora, AddressingMode::AbsoluteX, 4, 0x01),
        0x1E => (Mnemonic::Asl, AddressingMode::AbsoluteX, 7, 0x00),
        0x1F => (Mnemonic::Slo, AddressingMode::AbsoluteX, 7, 0x02),
        0x20 => (Mnemonic::Jsr, AddressingMode::Absolute, 6, 0x00),
        0x21 => (Mnemonic::And, AddressingMode::IndirectX, 6, 0x00),
        0x22 => (Mnemonic::Kil, AddressingMode::Implied, 0, 0x02),
        0x23 => (Mnemonic::Rla, AddressingMode::IndirectX, 8, 0x02),
        0x24 => (Mnemonic::Bit, AddressingMode::ZeroPage, 3, 0x00),
        0x25 => (Mnemonic::And, AddressingMode::ZeroPage, 3, 0x00),
        0x26 => (Mnemonic::Rol, AddressingMode::ZeroPage, 5, 0x00),
        0x27 => (Mnemonic::Rla, AddressingMode::ZeroPage, 5, 0x02),
        0x28 => (Mnemonic::Plp, AddressingMode::Implied, 4, 0x00),
        0x29 => (Mnemonic::And, AddressingMode::Immediate, 2, 0x00),
        0x2A => (Mnemonic::Rol, AddressingMode::Accumulator, 2, 0x00),
        0x2B => (Mnemonic::Anc, AddressingMode::Immediate, 2, 0x02),
        0x2C => (Mnemonic::Bit, AddressingMode::Absolute, 4, 0x00),
        0x2D => (Mnemonic::And, AddressingMode::Absolute, 4, 0x00),
        0x2E => (Mnemonic::Rol, AddressingMode::Absolute, 6, 0x00),
        0x2F => (Mnemonic::Rla, AddressingMode::Absolute, 6, 0x02),
        0x30 => (Mnemonic::Bmi, AddressingMode::Relative, 2, 0x01),
        0x31 => (Mnemonic::And, AddressingMode::IndirectY, 5, 0x01),
        0x32 => (Mnemonic::Kil, AddressingMode::Implied, 0, 0x02),
        0x33 => (Mnemonic::Rla, AddressingMode::IndirectY, 8, 0x02),
        0x34 => (Mnemonic::Nop, AddressingMode::ZeroPageX, 4, 0x02),
        0x35 => (Mnemonic::And, AddressingMode::ZeroPageX, 4, 0x00),
        0x36 => (Mnemonic::Rol, AddressingMode::ZeroPageX, 6, 0x00),
        0x37 => (Mnemonic::Rla, AddressingMode::ZeroPageX, 6, 0x02),
        0x38 => (Mnemonic::Sec, AddressingMode::Implied, 2, 0x00),
        0x39 => (Mnemonic::And, AddressingMode::AbsoluteY, 4, 0x01),
        0x3A => (Mnemonic::Nop, AddressingMode::Implied, 2, 0x02),
        0x3B => (Mnemonic::Rla, AddressingMode::AbsoluteY, 7, 0x02),
        0x3C => (Mnemonic::Nop, AddressingMode::AbsoluteX, 4, 0x03),
        0x3D => (Mnemonic::And, AddressingMode::AbsoluteX, 4, 0x01),
        0x3E => (Mnemonic::Rol, AddressingMode::AbsoluteX, 7, 0x00),
        0x3F => (Mnemonic::Rla, AddressingMode::AbsoluteX, 7, 0x02),
        0x40 => (Mnemonic::Rti, AddressingMode::Implied, 6, 0x00),
        0x41 => (Mnemonic::Eor, AddressingMode::IndirectX, 6, 0x00),
        0x42 => (Mnemonic::Kil, AddressingMode::Implied, 0, 0x02),
        0x43 => (Mnemonic::Sre, AddressingMode::IndirectX, 8, 0x02),
        0x44 => (Mnemonic::Nop, AddressingMode::ZeroPage, 3, 0x02),
        0x45 => (Mnemonic::Eor, AddressingMode::ZeroPage, 3, 0x00),
        0x46 => (Mnemonic::Lsr, AddressingMode::ZeroPage, 5, 0x00),
        0x47 => (Mnemonic::Sre, AddressingMode::ZeroPage, 5, 0x02),
        0x48 => (Mnemonic::Pha, AddressingMode::Implied, 3, 0x00),
        0x49 => (Mnemonic::Eor, AddressingMode::Immediate, 2, 0x00),
        0x4A => (Mnemonic::Lsr, AddressingMode::Accumulator, 2, 0x00),
        0x4B => (Mnemonic::Alr, AddressingMode::Immediate, 2, 0x02),
        0x4C => (Mnemonic::Jmp, AddressingMode::Absolute, 3, 0x00),
        0x4D => (Mnemonic::Eor, AddressingMode::Absolute, 4, 0x00),
        0x4E => (Mnemonic::Lsr, AddressingMode::Absolute, 6, 0x00),
        0x4F => (Mnemonic::Sre, AddressingMode::Absolute, 6, 0x02),
        0x50 => (Mnemonic::Bvc, AddressingMode::Relative, 2, 0x01),
        0x51 => (Mnemonic::Eor, AddressingMode::IndirectY, 5, 0x01),
        0x52 => (Mnemonic::Kil, AddressingMode::Implied, 0, 0x02),
        0x53 => (Mnemonic::Sre, AddressingMode::IndirectY, 8, 0x02),
        0x54 => (Mnemonic::Nop, AddressingMode::ZeroPageX, 4, 0x02),
        0x55 => (Mnemonic::Eor, AddressingMode::ZeroPageX, 4, 0x00),
        0x56 => (Mnemonic::Lsr, AddressingMode::ZeroPageX, 6, 0x00),
        0x57 => (Mnemonic::Sre, AddressingMode::ZeroPageX, 6, 0x02),
        0x58 => (Mnemonic::Cli, AddressingMode::Implied, 2, 0x00),
        0x59 => (Mnemonic::Eor, AddressingMode::AbsoluteY, 4, 0x01),
        0x5A => (Mnemonic::Nop, AddressingMode::Implied, 2, 0x02),
        0x5B => (Mnemonic::Sre, AddressingMode::AbsoluteY, 7, 0x02),
        0x5C => (Mnemonic::Nop, AddressingMode::AbsoluteX, 4, 0x03),
        0x5D => (Mnemonic::Eor, AddressingMode::AbsoluteX, 4, 0x01),
        0x5E => (Mnemonic::Lsr, AddressingMode::AbsoluteX, 7, 0x00),
        0x5F => (Mnemonic::Sre, AddressingMode::AbsoluteX, 7, 0x02),
        0x60 => (Mnemonic::Rts, AddressingMode::Implied, 6, 0x00),
        0x61 => (Mnemonic::Adc, AddressingMode::IndirectX, 6, 0x00),
        0x62 => (Mnemonic::Kil, AddressingMode::Implied, 0, 0x02),
        0x63 => (Mnemonic::Rra, AddressingMode::IndirectX, 8, 0x02),
        0x64 => (Mnemonic::Nop, AddressingMode::ZeroPage, 3, 0x02),
        0x65 => (Mnemonic::Adc, AddressingMode::ZeroPage, 3, 0x00),
        0x66 => (Mnemonic::Ror, AddressingMode::ZeroPage, 5, 0x00),
        0x67 => (Mnemonic::Rra, AddressingMode::ZeroPage, 5, 0x02),
        0x68 => (Mnemonic::Pla, AddressingMode::Implied, 4, 0x00),
        0x69 => (Mnemonic::Adc, AddressingMode::Immediate, 2, 0x00),
        0x6A => (Mnemonic::Ror, AddressingMode::Accumulator, 2, 0x00),
        0x6B => (Mnemonic::Arr, AddressingMode::Immediate, 2, 0x02),
        0x6C => (Mnemonic::Jmp, AddressingMode::Indirect, 5, 0x00),
        0x6D => (Mnemonic::Adc, AddressingMode::Absolute, 4, 0x00),
        0x6E => (Mnemonic::Ror, AddressingMode::Absolute, 6, 0x00),
        0x6F => (Mnemonic::Rra, AddressingMode::Absolute, 6, 0x02),
        0x70 => (Mnemonic::Bvs, AddressingMode::Relative, 2, 0x01),
        0x71 => (Mnemonic::Adc, AddressingMode::IndirectY, 5, 0x01),
        0x72 => (Mnemonic::Kil, AddressingMode::Implied, 0, 0x02),
        0x73 => (Mnemonic::Rra, AddressingMode::IndirectY, 8, 0x02),
        0x74 => (Mnemonic::Nop, AddressingMode::ZeroPageX, 4, 0x02),
        0x75 => (Mnemonic::Adc, AddressingMode::ZeroPageX, 4, 0x00),
        0x76 => (Mnemonic::Ror, AddressingMode::ZeroPageX, 6, 0x00),
        0x77 => (Mnemonic::Rra, AddressingMode::ZeroPageX, 6, 0x02),
        0x78 => (Mnemonic::Sei, AddressingMode::Implied, 2, 0x00),
        0x79 => (Mnemonic::Adc, AddressingMode::AbsoluteY, 4, 0x01),
        0x7A => (Mnemonic::Nop, AddressingMode::Implied, 2, 0x02),
        0x7B => (Mnemonic::Rra, AddressingMode::AbsoluteY, 7, 0x02),
        0x7C => (Mnemonic::Nop, AddressingMode::AbsoluteX, 4, 0x03),
        0x7D => (Mnemonic::Adc, AddressingMode::AbsoluteX, 4, 0x01),
        0x7E => (Mnemonic::Ror, AddressingMode::AbsoluteX, 7, 0x00),
        0x7F => (Mnemonic::Rra, AddressingMode::AbsoluteX, 7, 0x02),
        0x80 => (Mnemonic::Nop, AddressingMode::Immediate, 2, 0x02),
        0x81 => (Mnemonic::Sta, AddressingMode::IndirectX, 6, 0x00),
        0x82 => (Mnemonic::Nop, AddressingMode::Immediate, 2, 0x02),
        0x83 => (Mnemonic::Sax, AddressingMode::IndirectX, 6, 0x02),
        0x84 => (Mnemonic::Sty, AddressingMode::ZeroPage, 3, 0x00),
        0x85 => (Mnemonic::Sta, AddressingMode::ZeroPage, 3, 0x00),
        0x86 => (Mnemonic::Stx, AddressingMode::ZeroPage, 3, 0x00),
        0x87 => (Mnemonic::Sax, AddressingMode::ZeroPage, 3, 0x02),
        0x88 => (Mnemonic::Dey, AddressingMode::Implied, 2, 0x00),
        0x89 => (Mnemonic::Nop, AddressingMode::Immediate, 2, 0x02),
        0x8A => (Mnemonic::Txa, AddressingMode::Implied, 2, 0x00),
        0x8B => (Mnemonic::Xaa, AddressingMode::Immediate, 2, 0x02),
        0x8C => (Mnemonic::Sty, AddressingMode::Absolute, 4, 0x00),
        0x8D => (Mnemonic::Sta, AddressingMode::Absolute, 4, 0x00),
        0x8E => (Mnemonic::Stx, AddressingMode::Absolute, 4, 0x00),
        0x8F => (Mnemonic::Sax, AddressingMode::Absolute, 4, 0x02),
        0x90 => (Mnemonic::Bcc, AddressingMode::Relative, 2, 0x01),
        0x91 => (Mnemonic::Sta, AddressingMode::IndirectY, 6, 0x00),
        0x92 => (Mnemonic::Kil, AddressingMode::Implied, 0, 0x02),
        0x93 => (Mnemonic::Ahx, AddressingMode::IndirectY, 6, 0x02),
        0x94 => (Mnemonic::Sty, AddressingMode::ZeroPageX, 4, 0x00),
        0x95 => (Mnemonic::Sta, AddressingMode::ZeroPageX, 4, 0x00),
        0x96 => (Mnemonic::Stx, AddressingMode::ZeroPageY, 4, 0x00),
        0x97 => (Mnemonic::Sax, AddressingMode::ZeroPageY, 4, 0x02),
        0x98 => (Mnemonic::Tya, AddressingMode::Implied, 2, 0x00),
        0x99 => (Mnemonic::Sta, AddressingMode::AbsoluteY, 5, 0x00),
        0x9A => (Mnemonic::Txs, AddressingMode::Implied, 2, 0x00),
        0x9B => (Mnemonic::Tas, AddressingMode::AbsoluteY, 5, 0x02),
        0x9C => (Mnemonic::Shy, AddressingMode::AbsoluteX, 5, 0x02),
        0x9D => (Mnemonic::Sta, AddressingMode::AbsoluteX, 5, 0x00),
        0x9E => (Mnemonic::Shx, AddressingMode::AbsoluteY, 5, 0x02),
        0x9F => (Mnemonic::Ahx, AddressingMode::AbsoluteY, 5, 0x02),
        0xA0 => (Mnemonic::Ldy, AddressingMode::Immediate, 2, 0x00),
        0xA1 => (Mnemonic::Lda, AddressingMode::IndirectX, 6, 0x00),
        0xA2 => (Mnemonic::Ldx, AddressingMode::Immediate, 2, 0x00),
        0xA3 => (Mnemonic::Lax, AddressingMode::IndirectX, 6, 0x02),
        0xA4 => (Mnemonic::Ldy, AddressingMode::ZeroPage, 3, 0x00),
        0xA5 => (Mnemonic::Lda, AddressingMode::ZeroPage, 3, 0x00),
        0xA6 => (Mnemonic::Ldx, AddressingMode::ZeroPage, 3, 0x00),
        0xA7 => (Mnemonic::Lax, AddressingMode::ZeroPage, 3, 0x02),
        0xA8 => (Mnemonic::Tay, AddressingMode::Implied, 2, 0x00),
        0xA9 => (Mnemonic::Lda, AddressingMode::Immediate, 2, 0x00),
        0xAA => (Mnemonic::Tax, AddressingMode::Implied, 2, 0x00),
        0xAB => (Mnemonic::Lax, AddressingMode::Immediate, 2, 0x02),
        0xAC => (Mnemonic::Ldy, AddressingMode::Absolute, 4, 0x00),
        0xAD => (Mnemonic::Lda, AddressingMode::Absolute, 4, 0x00),
        0xAE => (Mnemonic::Ldx, AddressingMode::Absolute, 4, 0x00),
        0xAF => (Mnemonic::Lax, AddressingMode::Absolute, 4, 0x02),
        0xB0 => (Mnemonic::Bcs, AddressingMode::Relative, 2, 0x01),
        0xB1 => (Mnemonic::Lda, AddressingMode::IndirectY, 5, 0x01),
        0xB2 => (Mnemonic::Kil, AddressingMode::Implied, 0, 0x02),
        0xB3 => (Mnemonic::Lax, AddressingMode::IndirectY, 5, 0x03),
        0xB4 => (Mnemonic::Ldy, AddressingMode::ZeroPageX, 4, 0x00),
        0xB5 => (Mnemonic::Lda, AddressingMode::ZeroPageX, 4, 0x00),
        0xB6 => (Mnemonic::Ldx, AddressingMode::ZeroPageY, 4, 0x00),
        0xB7 => (Mnemonic::Lax, AddressingMode::ZeroPageY, 4, 0x02),
        0xB8 => (Mnemonic::Clv, AddressingMode::Implied, 2, 0x00),
        0xB9 => (Mnemonic::Lda, AddressingMode::AbsoluteY, 4, 0x01),
        0xBA => (Mnemonic::Tsx, AddressingMode::Implied, 2, 0x00),
        0xBB => (Mnemonic::Las, AddressingMode::AbsoluteY, 4, 0x03),
        0xBC => (Mnemonic::Ldy, AddressingMode::AbsoluteX, 4, 0x01),
        0xBD => (Mnemonic::Lda, AddressingMode::AbsoluteX, 4, 0x01),
        0xBE => (Mnemonic::Ldx, AddressingMode::AbsoluteY, 4, 0x01),
        0xBF => (Mnemonic::Lax, AddressingMode::AbsoluteY, 4, 0x03),
        0xC0 => (Mnemonic::Cpy, AddressingMode::Immediate, 2, 0x00),
        0xC1 => (Mnemonic::Cmp, AddressingMode::IndirectX, 6, 0x00),
        0xC2 => (Mnemonic::Nop, AddressingMode::Immediate, 2, 0x02),
        0xC3 => (Mnemonic::Dcp, AddressingMode::IndirectX, 8, 0x02),
        0xC4 => (Mnemonic::Cpy, AddressingMode::ZeroPage, 3, 0x00),
        0xC5 => (Mnemonic::Cmp, AddressingMode::ZeroPage, 3, 0x00),
        0xC6 => (Mnemonic::Dec, AddressingMode::ZeroPage, 5, 0x00),
        0xC7 => (Mnemonic::Dcp, AddressingMode::ZeroPage, 5, 0x02),
        0xC8 => (Mnemonic::Iny, AddressingMode::Implied, 2, 0x00),
        0xC9 => (Mnemonic::Cmp, AddressingMode::Immediate, 2, 0x00),
        0xCA => (Mnemonic::Dex, AddressingMode::Implied, 2, 0x00),
        0xCB => (Mnemonic::Axs, AddressingMode::Immediate, 2, 0x02),
        0xCC => (Mnemonic::Cpy, AddressingMode::Absolute, 4, 0x00),
        0xCD => (Mnemonic::Cmp, AddressingMode::Absolute, 4, 0x00),
        0xCE => (Mnemonic::Dec, AddressingMode::Absolute, 6, 0x00),
        0xCF => (Mnemonic::Dcp, AddressingMode::Absolute, 6, 0x02),
        0xD0 => (Mnemonic::Bne, AddressingMode::Relative, 2, 0x01),
        0xD1 => (Mnemonic::Cmp, AddressingMode::IndirectY, 5, 0x01),
        0xD2 => (Mnemonic::Kil, AddressingMode::Implied, 0, 0x02),
        0xD3 => (Mnemonic::Dcp, AddressingMode::IndirectY, 8, 0x02),
        0xD4 => (Mnemonic::Nop, AddressingMode::ZeroPageX, 4, 0x02),
        0xD5 => (Mnemonic::Cmp, AddressingMode::ZeroPageX, 4, 0x00),
        0xD6 => (Mnemonic::Dec, AddressingMode::ZeroPageX, 6, 0x00),
        0xD7 => (Mnemonic::Dcp, AddressingMode::ZeroPageX, 6, 0x02),
        0xD8 => (Mnemonic::Cld, AddressingMode::Implied, 2, 0x00),
        0xD9 => (Mnemonic::Cmp, AddressingMode::AbsoluteY, 4, 0x01),
        0xDA => (Mnemonic::Nop, AddressingMode::Implied, 2, 0x02),
        0xDB => (Mnemonic::Dcp, AddressingMode::AbsoluteY, 7, 0x02),
        0xDC => (Mnemonic::Nop, AddressingMode::AbsoluteX, 4, 0x03),
        0xDD => (Mnemonic::Cmp, AddressingMode::AbsoluteX, 4, 0x01),
        0xDE => (Mnemonic::Dec, AddressingMode::AbsoluteX, 7, 0x00),
        0xDF => (Mnemonic::Dcp, AddressingMode::AbsoluteX, 7, 0x02),
        0xE0 => (Mnemonic::Cpx, AddressingMode::Immediate, 2, 0x00),
        0xE1 => (Mnemonic::Sbc, AddressingMode::IndirectX, 6, 0x00),
        0xE2 => (Mnemonic::Nop, AddressingMode::Immediate, 2, 0x02),
        0xE3 => (Mnemonic::Isc, AddressingMode::IndirectX, 8, 0x02),
        0xE4 => (Mnemonic::Cpx, AddressingMode::ZeroPage, 3, 0x00),
        0xE5 => (Mnemonic::Sbc, AddressingMode::ZeroPage, 3, 0x00),
        0xE6 => (Mnemonic::Inc, AddressingMode::ZeroPage, 5, 0x00),
        0xE7 => (Mnemonic::Isc, AddressingMode::ZeroPage, 5, 0x02),
        0xE8 => (Mnemonic::Inx, AddressingMode::Implied, 2, 0x00),
        0xE9 => (Mnemonic::Sbc, AddressingMode::Immediate, 2, 0x00),
        0xEA => (Mnemonic::Nop, AddressingMode::Implied, 2, 0x00),
        0xEB => (Mnemonic::Sbc, AddressingMode::Immediate, 2, 0x02),
        0xEC => (Mnemonic::Cpx, AddressingMode::Absolute, 4, 0x00),
        0xED => (Mnemonic::Sbc, AddressingMode::Absolute, 4, 0x00),
        0xEE => (Mnemonic::Inc, AddressingMode::Absolute, 6, 0x00),
        0xEF => (Mnemonic::Isc, AddressingMode::Absolute, 6, 0x02),
        0xF0 => (Mnemonic::Beq, AddressingMode::Relative, 2, 0x01),
        0xF1 => (Mnemonic::Sbc, AddressingMode::IndirectY, 5, 0x01),
        0xF2 => (Mnemonic::Kil, AddressingMode::Implied, 0, 0x02),
        0xF3 => (Mnemonic::Isc, AddressingMode::IndirectY, 8, 0x02),
        0xF4 => (Mnemonic::Nop, AddressingMode::ZeroPageX, 4, 0x02),
        0xF5 => (Mnemonic::Sbc, AddressingMode::ZeroPageX, 4, 0x00),
        0xF6 => (Mnemonic::Inc, AddressingMode::ZeroPageX, 6, 0x00),
        0xF7 => (Mnemonic::Isc, AddressingMode::ZeroPageX, 6, 0x02),
        0xF8 => (Mnemonic::Sed, AddressingMode::Implied, 2, 0x00),
        0xF9 => (Mnemonic::Sbc, AddressingMode::AbsoluteY, 4, 0x01),
        0xFA => (Mnemonic::Nop, AddressingMode::Implied, 2, 0x02),
        0xFB => (Mnemonic::Isc, AddressingMode::AbsoluteY, 7, 0x02),
        0xFC => (Mnemonic::Nop, AddressingMode::AbsoluteX, 4, 0x03),
        0xFD => (Mnemonic::Sbc, AddressingMode::AbsoluteX, 4, 0x01),
        0xFE => (Mnemonic::Inc, AddressingMode::AbsoluteX, 7, 0x00),
        _ => (Mnemonic::Isc, AddressingMode::AbsoluteX, 7, 0x02),
    }
}

impl RegSet {
    /// Just the accumulator.
    pub fn a() -> (r: RegSet)
        ensures
            r.spec_bits() == REG_A,
    {
        RegSet(REG_A)
    }

    /// Just `X`.
    pub fn x() -> (r: RegSet)
        ensures
            r.spec_bits() == REG_X,
    {
        RegSet(REG_X)
    }

    /// Just `Y`.
    pub fn y() -> (r: RegSet)
        ensures
            r.spec_bits() == REG_Y,
    {
        RegSet(REG_Y)
    }

    /// Just the stack pointer.
    pub fn s() -> (r: RegSet)
        ensures
            r.spec_bits() == REG_S,
    {
        RegSet(REG_S)
    }
}

/// The full definition of the opcode with byte value `b`: the table row, its
/// length derived from the addressing mode, and its register effects (the
/// mnemonic's own plus those the mode implies; unknown, and empty, for an
/// undocumented mnemonic).
pub open spec fn spec_opcode(b: u8) -> Opcode {
    let (m, mode, timing, meta) = spec_row(b);
    let (known, writes, reads) = match m.spec_effects() {
        Some((w, r)) => (true, w | mode.spec_mode_effects().0, r | mode.spec_mode_effects().1),
        None => (false, 0u8, 0u8),
    };
    Opcode {
        mnemonic: m.spec_name(),
        mode,
        opcode: b,
        length: (mode.spec_operand_bytes() + 1) as u8,
        timing,
        meta,
        writes: RegSet::from_bits_spec(writes),
        reads: RegSet::from_bits_spec(reads),
        effects_known: known,
    }
}

/// Look up the opcode definition for a given opcode byte.
pub fn by_byte(byte: u8) -> (r: Opcode)
    ensures
        r == spec_opcode(byte),
{
    let (m, mode, timing, meta) = row(byte);
    let (mw, mr) = mode.mode_effects();
    let (known, writes, reads) = match m.effects() {
        Some((w, r)) => (true, w | mw, r | mr),
        None => (false, 0u8, 0u8),
    };
    Opcode {
        mnemonic: m.name(),
        mode,
        opcode: byte,
        length: mode.operand_bytes() + 1,
        timing,
        meta,
        writes: RegSet::from_bits(writes),
        reads: RegSet::from_bits(reads),
        effects_known: known,
    }
}

/// The full 256-entry opcode table, indexed by opcode byte.
pub fn opcodes() -> (r: Vec<Opcode>)
    ensures
        r.len() == 256,
        forall|i: int| 0 <= i < 256 ==> #[trigger] r@[i] == spec_opcode(i as u8),
{
    let mut v: Vec<Opcode> = Vec::new();
    let mut i: u32 = 0;
    while i < 256
        invariant
            i <= 256,
            v.len() == i,
            forall|k: int| 0 <= k < i ==> #[trigger] v@[k] == spec_opcode(k as u8),
        decreases 256 - i,
    {
        v.push(by_byte(i as u8));
        i += 1;
    }
    v
}

/// Whether opcode `b` has addressing mode `mode` and a mnemonic equal to
/// `name` ignoring ASCII case.
pub open spec fn finds(b: u8, name: Seq<char>, mode: AddressingMode) -> bool {
    spec_opcode(b).mode == mode && ci_eq(spec_opcode(b).mnemonic@, name)
}

/// Find the opcode matching a mnemonic (case-insensitive) and addressing mode:
/// the first match in table order, or `None` when no opcode matches.
pub fn find(mnemonic: &str, mode: AddressingMode) -> (r: Option<Opcode>)
    ensures
        r matches Some(op) ==> op == spec_opcode(op.opcode) && finds(op.opcode, mnemonic@, mode)
            && forall|j: u8| j < op.opcode ==> !finds(j, mnemonic@, mode),
        r is None ==> forall|j: u8| !finds(j, mnemonic@, mode),
{
    let name = chars_of(mnemonic);
    let mut i: u32 = 0;
    while i < 256
        invariant
            i <= 256,
            name@ == mnemonic@,
            forall|j: u8| j < i ==> !finds(j, mnemonic@, mode),
        decreases 256 - i,
    {
        let op = by_byte(i as u8);
        let mn = chars_of(op.mnemonic);
        if op.mode == mode && eq_ignore_ascii_case(&mn, &name) {
            return Some(op);
        }
        i += 1;
    }
    None
}

/// On a metadata byte of the table (at most 3), the undocumented bit is the
/// value 2 or 3.
proof fn lemma_meta_bits(m: u8)
    requires
        m <= 3,
    ensures
        (m & META_UNDOCUMENTED != 0) <==> m >= 2,
        (m & META_BOUNDARY != 0) <==> (m == 1 || m == 3),
{
    assert((m & 2 != 0) <==> m >= 2) by (bit_vector)
        requires
            m <= 3,
    ;
    assert((m & 1 != 0) <==> (m == 1 || m == 3)) by (bit_vector)
        requires
            m <= 3,
    ;
}

/// Every opcode not flagged undocumented has recorded register effects.
#[verifier::rlimit(100)]
pub proof fn lemma_documented_opcodes_have_effects(b: u8)
    ensures
        !spec_opcode(b).spec_is_undocumented() ==> spec_opcode(b).effects_known,
{
    reveal(spec_row);
    lemma_meta_bits(spec_row(b).3);
}

/// The table is indexed by opcode byte, and every length is one more than the
/// addressing mode's operand bytes.
pub proof fn lemma_opcode_row_shape(b: u8)
    ensures
        spec_opcode(b).opcode == b,
        spec_opcode(b).length == spec_opcode(b).mode.spec_operand_bytes() + 1,
{
}

/// An opcode whose effects are unknown claims no writes.
pub proof fn lemma_unknown_effects_write_nothing(b: u8)
    ensures
        !spec_opcode(b).effects_known ==> spec_opcode(b).writes.spec_bits() == 0,
{
}

/// Among the opcodes with known effects, only `TXS` writes the stack pointer.
#[verifier::rlimit(100)]
pub proof fn lemma_only_txs_writes_s(b: u8)
    ensures
        spec_opcode(b).effects_known ==> (spec_opcode(b).writes.spec_contains(
            RegSet::from_bits_spec(REG_S),
        ) <==> spec_row(b).0 == Mnemonic::Txs),
{
    reveal(spec_row);
    let (m, mode, t, meta) = spec_row(b);
    if let Some((w, r)) = m.spec_effects() {
        let mw = mode.spec_mode_effects().0;
        assert(mw == 0 || mw == 1);
        assert(w == 0 || w == 1 || w == 2 || w == 4 || w == 8);
        assert(((w | mw) & 8 == 8) <==> w == 8) by (bit_vector)
            requires
                mw == 0 || mw == 1,
                w == 0 || w == 1 || w == 2 || w == 4 || w == 8,
        ;
    }
}


/// A mnemonic is spelled `TXS` exactly when it is `TXS`.
#[verifier::rlimit(50)]
pub proof fn lemma_named_txs(m: Mnemonic)
    ensures
        m.spec_name()@ == "TXS"@ <==> m == Mnemonic::Txs,
{
    reveal_strlit("TXS");
    match m {
        Mnemonic::Adc => {
            reveal_strlit("ADC");
            assert("ADC"@[0] != "TXS"@[0]);
        },
        Mnemonic::Ahx => {
            reveal_strlit("AHX");
            assert("AHX"@[0] != "TXS"@[0]);
        },
        Mnemonic::Alr => {
            reveal_strlit("ALR");
            assert("ALR"@[0] != "TXS"@[0]);
        },
        Mnemonic::Anc => {
            reveal_strlit("ANC");
            assert("ANC"@[0] != "TXS"@[0]);
        },
        Mnemonic::And => {
            reveal_strlit("AND");
            assert("AND"@[0] != "TXS"@[0]);
        },
        Mnemonic::Arr => {
            reveal_strlit("ARR");
            assert("ARR"@[0] != "TXS"@[0]);
        },
        Mnemonic::Asl => {
            reveal_strlit("ASL");
            assert("ASL"@[0] != "TXS"@[0]);
        },
        Mnemonic::Axs => {
            reveal_strlit("AXS");
            assert("AXS"@[0] != "TXS"@[0]);
        },
        Mnemonic::Bcc => {
            reveal_strlit("BCC");
            assert("BCC"@[0] != "TXS"@[0]);
        },
        Mnemonic::Bcs => {
            reveal_strlit("BCS");
            assert("BCS"@[0] != "TXS"@[0]);
        },
        Mnemonic::Beq => {
            reveal_strlit("BEQ");
            assert("BEQ"@[0] != "TXS"@[0]);
        },
        Mnemonic::Bit => {
            reveal_strlit("BIT");
            assert("BIT"@[0] != "TXS"@[0]);
        },
        Mnemonic::Bmi => {
            reveal_strlit("BMI");
            assert("BMI"@[0] != "TXS"@[0]);
        },
        Mnemonic::Bne => {
            reveal_strlit("BNE");
            assert("BNE"@[0] != "TXS"@[0]);
        },
        Mnemonic::Bpl => {
            reveal_strlit("BPL");
            assert("BPL"@[0] != "TXS"@[0]);
        },
        Mnemonic::Brk => {
            reveal_strlit("BRK");
            assert("BRK"@[0] != "TXS"@[0]);
        },
        Mnemonic::Bvc => {
            reveal_strlit("BVC");
            assert("BVC"@[0] != "TXS"@[0]);
        },
        Mnemonic::Bvs => {
            reveal_strlit("BVS");
            assert("BVS"@[0] != "TXS"@[0]);
        },
        Mnemonic::Clc => {
            reveal_strlit("CLC");
            assert("CLC"@[0] != "TXS"@[0]);
        },
        Mnemonic::Cld => {
            reveal_strlit("CLD");
            assert("CLD"@[0] != "TXS"@[0]);
        },
        Mnemonic::Cli => {
            reveal_strlit("CLI");
            assert("CLI"@[0] != "TXS"@[0]);
        },
        Mnemonic::Clv => {
            reveal_strlit("CLV");
            assert("CLV"@[0] != "TXS"@[0]);
        },
        Mnemonic::Cmp => {
            reveal_strlit("CMP");
            assert("CMP"@[0] != "TXS"@[0]);
        },
        Mnemonic::Cpx => {
            reveal_strlit("CPX");
            assert("CPX"@[0] != "TXS"@[0]);
        },
        Mnemonic::Cpy => {
            reveal_strlit("CPY");
            assert("CPY"@[0] != "TXS"@[0]);
        },
        Mnemonic::Dcp => {
            reveal_strlit("DCP");
            assert("DCP"@[0] != "TXS"@[0]);
        },
        Mnemonic::Dec => {
            reveal_strlit("DEC");
            assert("DEC"@[0] != "TXS"@[0]);
        },
        Mnemonic::Dex => {
            reveal_strlit("DEX");
            assert("DEX"@[0] != "TXS"@[0]);
        },
        Mnemonic::Dey => {
            reveal_strlit("DEY");
            assert("DEY"@[0] != "TXS"@[0]);
        },
        Mnemonic::Eor => {
            reveal_strlit("EOR");
            assert("EOR"@[0] != "TXS"@[0]);
        },
        Mnemonic::Inc => {
            reveal_strlit("INC");
            assert("INC"@[0] != "TXS"@[0]);
        },
        Mnemonic::Inx => {
            reveal_strlit("INX");
            assert("INX"@[0] != "TXS"@[0]);
        },
        Mnemonic::Iny => {
            reveal_strlit("INY");
            assert("INY"@[0] != "TXS"@[0]);
        },
        Mnemonic::Isc => {
            reveal_strlit("ISC");
            assert("ISC"@[0] != "TXS"@[0]);
        },
        Mnemonic::Jmp => {
            reveal_strlit("JMP");
            assert("JMP"@[0] != "TXS"@[0]);
        },
        Mnemonic::Jsr => {
            reveal_strlit("JSR");
            assert("JSR"@[0] != "TXS"@[0]);
        },
        Mnemonic::Kil => {
            reveal_strlit("KIL");
            assert("KIL"@[0] != "TXS"@[0]);
        },
        Mnemonic::Las => {
            reveal_strlit("LAS");
            assert("LAS"@[0] != "TXS"@[0]);
        },
        Mnemonic::Lax => {
            reveal_strlit("LAX");
            assert("LAX"@[0] != "TXS"@[0]);
        },
        Mnemonic::Lda => {
            reveal_strlit("LDA");
            assert("LDA"@[0] != "TXS"@[0]);
        },
        Mnemonic::Ldx => {
            reveal_strlit("LDX");
            assert("LDX"@[0] != "TXS"@[0]);
        },
        Mnemonic::Ldy => {
            reveal_strlit("LDY");
            assert("LDY"@[0] != "TXS"@[0]);
        },
        Mnemonic::Lsr => {
            reveal_strlit("LSR");
            assert("LSR"@[0] != "TXS"@[0]);
        },
        Mnemonic::Nop => {
            reveal_strlit("NOP");
            assert("NOP"@[0] != "TXS"@[0]);
        },
        Mnemonic::Ora => {
            reveal_strlit("ORA");
            assert("ORA"@[0] != "TXS"@[0]);
        },
        Mnemonic::Pha => {
            reveal_strlit("PHA");
            assert("PHA"@[0] != "TXS"@[0]);
        },
        Mnemonic::Php => {
            reveal_strlit("PHP");
            assert("PHP"@[0] != "TXS"@[0]);
        },
        Mnemonic::Pla => {
            reveal_strlit("PLA");
            assert("PLA"@[0] != "TXS"@[0]);
        },
        Mnemonic::Plp => {
            reveal_strlit("PLP");
            assert("PLP"@[0] != "TXS"@[0]);
        },
        Mnemonic::Rla => {
            reveal_strlit("RLA");
            assert("RLA"@[0] != "TXS"@[0]);
        },
        Mnemonic::Rol => {
            reveal_strlit("ROL");
            assert("ROL"@[0] != "TXS"@[0]);
        },
        Mnemonic::Ror => {
            reveal_strlit("ROR");
            assert("ROR"@[0] != "TXS"@[0]);
        },
        Mnemonic::Rra => {
            reveal_strlit("RRA");
            assert("RRA"@[0] != "TXS"@[0]);
        },
        Mnemonic::Rti => {
            reveal_strlit("RTI");
            assert("RTI"@[0] != "TXS"@[0]);
        },
        Mnemonic::Rts => {
            reveal_strlit("RTS");
            assert("RTS"@[0] != "TXS"@[0]);
        },
        Mnemonic::Sax => {
            reveal_strlit("SAX");
            assert("SAX"@[0] != "TXS"@[0]);
        },
        Mnemonic::Sbc => {
            reveal_strlit("SBC");
            assert("SBC"@[0] != "TXS"@[0]);
        },
        Mnemonic::Sec => {
            reveal_strlit("SEC");
            assert("SEC"@[0] != "TXS"@[0]);
        },
        Mnemonic::Sed => {
            reveal_strlit("SED");
            assert("SED"@[0] != "TXS"@[0]);
        },
        Mnemonic::Sei => {
            reveal_strlit("SEI");
            assert("SEI"@[0] != "TXS"@[0]);
        },
        Mnemonic::Shx => {
            reveal_strlit("SHX");
            assert("SHX"@[0] != "TXS"@[0]);
        },
        Mnemonic::Shy => {
            reveal_strlit("SHY");
            assert("SHY"@[0] != "TXS"@[0]);
        },
        Mnemonic::Slo => {
            reveal_strlit("SLO");
            assert("SLO"@[0] != "TXS"@[0]);
        },
        Mnemonic::Sre => {
            reveal_strlit("SRE");
            assert("SRE"@[0] != "TXS"@[0]);
        },
        Mnemonic::Sta => {
            reveal_strlit("STA");
            assert("STA"@[0] != "TXS"@[0]);
        },
        Mnemonic::Stx => {
            reveal_strlit("STX");
            assert("STX"@[0] != "TXS"@[0]);
        },
        Mnemonic::Sty => {
            reveal_strlit("STY");
            assert("STY"@[0] != "TXS"@[0]);
        },
        Mnemonic::Tas => {
            reveal_strlit("TAS");
            assert("TAS"@[1] != "TXS"@[1]);
        },
        Mnemonic::Tax => {
            reveal_strlit("TAX");
            assert("TAX"@[1] != "TXS"@[1]);
        },
        Mnemonic::Tay => {
            reveal_strlit("TAY");
            assert("TAY"@[1] != "TXS"@[1]);
        },
        Mnemonic::Tsx => {
            reveal_strlit("TSX");
            assert("TSX"@[1] != "TXS"@[1]);
        },
        Mnemonic::Txa => {
            reveal_strlit("TXA");
            assert("TXA"@[2] != "TXS"@[2]);
        },
        Mnemonic::Txs => {
            reveal_strlit("TXS");
        },
        Mnemonic::Tya => {
            reveal_strlit("TYA");
            assert("TYA"@[1] != "TXS"@[1]);
        },
        Mnemonic::Xaa => {
            reveal_strlit("XAA");
            assert("XAA"@[0] != "TXS"@[0]);
        },
    }
}

/// Among the opcodes with known effects, an opcode writes the stack pointer
/// exactly when its mnemonic is spelled `TXS`.
pub proof fn lemma_only_txs_named_writes_s(b: u8)
    ensures
        spec_opcode(b).effects_known ==> (spec_opcode(b).writes.spec_contains(
            RegSet::from_bits_spec(REG_S),
        ) <==> spec_opcode(b).mnemonic@ == "TXS"@),
{
    lemma_only_txs_writes_s(b);
    lemma_named_txs(spec_row(b).0);
}

/// Finding an opcode ignores the case of the name: a name and its
/// upper-cased form find the same opcodes, so `find` gives the same answer
/// for both.
pub proof fn lemma_find_ignores_case(name: Seq<char>, mode: AddressingMode)
    ensures
        forall|b: u8| #[trigger] finds(b, name, mode) <==> finds(b, crate::text::upper_seq(name), mode),
{
    assert forall|b: u8| #[trigger] finds(b, name, mode) <==> finds(b, crate::text::upper_seq(name), mode) by {
        crate::text::lemma_ci_eq_upper(spec_opcode(b).mnemonic@, name);
    }
}

/// `NOP` ($EA) is a documented, implied-mode, one-byte instruction.
pub proof fn lemma_nop_is_documented()
    ensures
        spec_opcode(0xEA).mnemonic == Mnemonic::Nop.spec_name(),
        spec_opcode(0xEA).mode == AddressingMode::Implied,
        spec_opcode(0xEA).length == 1,
        !spec_opcode(0xEA).spec_is_undocumented(),
{
    reveal(spec_row);
    lemma_meta_bits(spec_row(0xEA).3);
}


/// The assembler's directive catalog: each entry pairs one or more directive
/// spellings (slash-separated) with a one-line description.
pub open spec fn spec_directives() -> Seq<(&'static str, &'static str)> {
    seq![
        (".org", "set the program counter"),
        (".phase / .dephase", "assemble for a different run-time address"),
        (".db / .byte", "define bytes"),
        (".dw / .word", "define words (little-endian)"),
        (".ascii", "define bytes from a string"),
        (".fill", "fill a region with a byte"),
        (".hibytes / .lobytes", "define the high/low bytes of values"),
        (".checksum", "emit a CRC-32 of preceding data"),
        (".random", "emit pseudo-random bytes"),
        (".color", "emit nearest NES palette indices"),
        (".enum / .endenum", "assign incrementing constants"),
        (".rs / .rsset", "reserve sequential storage"),
        (".if / .ifdef / .ifndef / .else / .endif", "conditional assembly"),
        (".macro / .macrodef / .endm", "invoke / define macros"),
        (".include", "include another source file"),
        (".incbin", "include a raw binary"),
        (".incpng", "include a PNG as CHR tiles"),
        (".incpal", "include a PNG as a palette"),
        (".incrle", "include a run-length-encoded binary"),
        (".incwav", "include a WAV as DPCM"),
        (".font", "emit bundled font glyphs"),
        (".defchr", "define an 8x8 tile inline"),
        (".inesprg / .ineschr / .inesmap / .inesmir / .inesbat / .ines4scr / .inesprgram / .inestv / .inesvs / .inespc10 / .inestrn", "iNES header fields"),
        (".ines2 / .inessubmap / .inesprgnvram / .ineschrram / .ineschrnvram / .inestiming / .inesconsole / .inesvsppu / .inesvshw / .inesmiscrom / .inesexpansion", "NES 2.0 header fields"),
        (".prg / .chr / .segment", "select a PRG/CHR bank"),
    ]
}

/// The assembler's directive catalog, in presentation order.
pub fn directives() -> (r: Vec<(&'static str, &'static str)>)
    ensures
        r@ == spec_directives(),
{
    let mut v: Vec<(&'static str, &'static str)> = Vec::new();
    v.push((".org", "set the program counter"));
    v.push((".phase / .dephase", "assemble for a different run-time address"));
    v.push((".db / .byte", "define bytes"));
    v.push((".dw / .word", "define words (little-endian)"));
    v.push((".ascii", "define bytes from a string"));
    v.push((".fill", "fill a region with a byte"));
    v.push((".hibytes / .lobytes", "define the high/low bytes of values"));
    v.push((".checksum", "emit a CRC-32 of preceding data"));
    v.push((".random", "emit pseudo-random bytes"));
    v.push((".color", "emit nearest NES palette indices"));
    v.push((".enum / .endenum", "assign incrementing constants"));
    v.push((".rs / .rsset", "reserve sequential storage"));
    v.push((".if / .ifdef / .ifndef / .else / .endif", "conditional assembly"));
    v.push((".macro / .macrodef / .endm", "invoke / define macros"));
    v.push((".include", "include another source file"));
    v.push((".incbin", "include a raw binary"));
    v.push((".incpng", "include a PNG as CHR tiles"));
    v.push((".incpal", "include a PNG as a palette"));
    v.push((".incrle", "include a run-length-encoded binary"));
    v.push((".incwav", "include a WAV as DPCM"));
    v.push((".font", "emit bundled font glyphs"));
    v.push((".defchr", "define an 8x8 tile inline"));
    v.push((".inesprg / .ineschr / .inesmap / .inesmir / .inesbat / .ines4scr / .inesprgram / .inestv / .inesvs / .inespc10 / .inestrn", "iNES header fields"));
    v.push((".ines2 / .inessubmap / .inesprgnvram / .ineschrram / .ineschrnvram / .inestiming / .inesconsole / .inesvsppu / .inesvshw / .inesmiscrom / .inesexpansion", "NES 2.0 header fields"));
    v.push((".prg / .chr / .segment", "select a PRG/CHR bank"));
    assert(v@ =~= spec_directives());
    v
}

/// Whether the metadata bits mark an undocumented opcode (the
/// `META_UNDOCUMENTED` bit, read arithmetically).
pub open spec fn meta_undocumented(meta: u8) -> bool {
    (meta / 2) % 2 == 1
}

/// How many of the opcode bytes below `n` are undocumented.
pub open spec fn undocumented_below(n: nat) -> nat
    decreases n,
{
    if n == 0 {
        0
    } else {
        undocumented_below((n - 1) as nat) + if meta_undocumented(spec_row((n - 1) as u8).3) {
            1nat
        } else {
            0nat
        }
    }
}

/// More than a hundred of the 256 opcodes are undocumented; `by_byte(b)` is
/// undocumented exactly when row `b` of the table marks it so.
#[verifier::rlimit(100)]
pub proof fn lemma_many_undocumented(b: u8)
    ensures
        undocumented_below(256) > 100,
        spec_opcode(b).spec_is_undocumented() == meta_undocumented(spec_row(b).3),
{
    let m = spec_row(b).3;
    assert((m & 2 != 0) == ((m / 2) % 2 == 1)) by (bit_vector);
    reveal(spec_row);
    // The running count, eight rows at a time.
    assert(undocumented_below(8) == 4) by {
        reveal_with_fuel(undocumented_below, 9);
    }
    assert(undocumented_below(16) == 7) by {
        reveal_with_fuel(undocumented_below, 9);
    }
    assert(undocumented_below(24) == 11) by {
        reveal_with_fuel(undocumented_below, 9);
    }
    assert(undocumented_below(32) == 15) by {
        reveal_with_fuel(undocumented_below, 9);
    }
    assert(undocumented_below(40) == 18) by {
        reveal_with_fuel(undocumented_below, 9);
    }
    assert(undocumented_below(48) == 20) by {
        reveal_with_fuel(undocumented_below, 9);
    }
    assert(undocumented_below(56) == 24) by {
        reveal_with_fuel(undocumented_below, 9);
    }
    assert(undocumented_below(64) == 28) by {
        reveal_with_fuel(undocumented_below, 9);
    }
    assert(undocumented_below(72) == 32) by {
        reveal_with_fuel(undocumented_below, 9);
    }
    assert(undocumented_below(80) == 34) by {
        reveal_with_fuel(undocumented_below, 9);
    }
    assert(undocumented_below(88) == 38) by {
        reveal_with_fuel(undocumented_below, 9);
    }
    assert(undocumented_below(96) == 42) by {
        reveal_with_fuel(undocumented_below, 9);
    }
    assert(undocumented_below(104) == 46) by {
        reveal_with_fuel(undocumented_below, 9);
    }
    assert(undocumented_below(112) == 48) by {
        reveal_with_fuel(undocumented_below, 9);
    }
    assert(undocumented_below(120) == 52) by {
        reveal_with_fuel(undocumented_below, 9);
    }
    assert(undocumented_below(128) == 56) by {
        reveal_with_fuel(undocumented_below, 9);
    }
    assert(undocumented_below(136) == 60) by {
        reveal_with_fuel(undocumented_below, 9);
    }
    assert(undocumented_below(144) == 63) by {
        reveal_with_fuel(undocumented_below, 9);
    }
    assert(undocumented_below(152) == 66) by {
        reveal_with_fuel(undocumented_below, 9);
    }
    assert(undocumented_below(160) == 70) by {
        reveal_with_fuel(undocumented_below, 9);
    }
    assert(undocumented_below(168) == 72) by {
        reveal_with_fuel(undocumented_below, 9);
    }
    assert(undocumented_below(176) == 74) by {
        reveal_with_fuel(undocumented_below, 9);
    }
    assert(undocumented_below(184) == 77) by {
        reveal_with_fuel(undocumented_below, 9);
    }
    assert(undocumented_below(192) == 79) by {
        reveal_with_fuel(undocumented_below, 9);
    }
    assert(undocumented_below(200) == 82) by {
        reveal_with_fuel(undocumented_below, 9);
    }
    assert(undocumented_below(208) == 84) by {
        reveal_with_fuel(undocumented_below, 9);
    }
    assert(undocumented_below(216) == 88) by {
        reveal_with_fuel(undocumented_below, 9);
    }
    assert(undocumented_below(224) == 92) by {
        reveal_with_fuel(undocumented_below, 9);
    }
    assert(undocumented_below(232) == 95) by {
        reveal_with_fuel(undocumented_below, 9);
    }
    assert(undocumented_below(240) == 97) by {
        reveal_with_fuel(undocumented_below, 9);
    }
    assert(undocumented_below(248) == 101) by {
        reveal_with_fuel(undocumented_below, 9);
    }
    assert(undocumented_below(256) == 105) by {
        reveal_with_fuel(undocumented_below, 9);
    }
}

/// The documented 6502 instruction set, stated on its own: the opcode byte
/// of each documented mnemonic in each addressing mode the processor gives
/// it, and `None` for a mode it lacks (or a mnemonic it does not document).
pub open spec fn reference_opcode(m: Mnemonic, md: AddressingMode) -> Option<u8> {
    match m {
        Mnemonic::Adc => match md {
            AddressingMode::Immediate => Some(0x69u8),
            AddressingMode::ZeroPage => Some(0x65u8),
            AddressingMode::ZeroPageX => Some(0x75u8),
            AddressingMode::Absolute => Some(0x6Du8),
            AddressingMode::AbsoluteX => Some(0x7Du8),
            AddressingMode::AbsoluteY => Some(0x79u8),
            AddressingMode::IndirectX => Some(0x61u8),
            AddressingMode::IndirectY => Some(0x71u8),
            _ => None,
        },
        Mnemonic::And => match md {
            AddressingMode::Immediate => Some(0x29u8),
            AddressingMode::ZeroPage => Some(0x25u8),
            AddressingMode::ZeroPageX => Some(0x35u8),
            AddressingMode::Absolute => Some(0x2Du8),
            AddressingMode::AbsoluteX => Some(0x3Du8),
            AddressingMode::AbsoluteY => Some(0x39u8),
            AddressingMode::IndirectX => Some(0x21u8),
            AddressingMode::IndirectY => Some(0x31u8),
            _ => None,
        },
        Mnemonic::Asl => match md {
            AddressingMode::Accumulator => Some(0x0Au8),
            AddressingMode::ZeroPage => Some(0x06u8),
            AddressingMode::ZeroPageX => Some(0x16u8),
            AddressingMode::Absolute => Some(0x0Eu8),
            AddressingMode::AbsoluteX => Some(0x1Eu8),
            _ => None,
        },
        Mnemonic::Bcc => match md {
            AddressingMode::Relative => Some(0x90u8),
            _ => None,
        },
        Mnemonic::Bcs => match md {
            AddressingMode::Relative => Some(0xB0u8),
            _ => None,
        },
        Mnemonic::Beq => match md {
            AddressingMode::Relative => Some(0xF0u8),
            _ => None,
        },
        Mnemonic::Bit => match md {
            AddressingMode::ZeroPage => Some(0x24u8),
            AddressingMode::Absolute => Some(0x2Cu8),
            _ => None,
        },
        Mnemonic::Bmi => match md {
            AddressingMode::Relative => Some(0x30u8),
            _ => None,
        },
        Mnemonic::Bne => match md {
            AddressingMode::Relative => Some(0xD0u8),
            _ => None,
        },
        Mnemonic::Bpl => match md {
            AddressingMode::Relative => Some(0x10u8),
            _ => None,
        },
        Mnemonic::Brk => match md {
            AddressingMode::Implied => Some(0x00u8),
            _ => None,
        },
        Mnemonic::Bvc => match md {
            AddressingMode::Relative => Some(0x50u8),
            _ => None,
        },
        Mnemonic::Bvs => match md {
            AddressingMode::Relative => Some(0x70u8),
            _ => None,
        },
        Mnemonic::Clc => match md {
            AddressingMode::Implied => Some(0x18u8),
            _ => None,
        },
        Mnemonic::Cld => match md {
            AddressingMode::Implied => Some(0xD8u8),
            _ => None,
        },
        Mnemonic::Cli => match md {
            AddressingMode::Implied => Some(0x58u8),
            _ => None,
        },
        Mnemonic::Clv => match md {
            AddressingMode::Implied => Some(0xB8u8),
            _ => None,
        },
        Mnemonic::Cmp => match md {
            AddressingMode::Immediate => Some(0xC9u8),
            AddressingMode::ZeroPage => Some(0xC5u8),
            AddressingMode::ZeroPageX => Some(0xD5u8),
            AddressingMode::Absolute => Some(0xCDu8),
            AddressingMode::AbsoluteX => Some(0xDDu8),
            AddressingMode::AbsoluteY => Some(0xD9u8),
            AddressingMode::IndirectX => Some(0xC1u8),
            AddressingMode::IndirectY => Some(0xD1u8),
            _ => None,
        },
        Mnemonic::Cpx => match md {
            AddressingMode::Immediate => Some(0xE0u8),
            AddressingMode::ZeroPage => Some(0xE4u8),
            AddressingMode::Absolute => Some(0xECu8),
            _ => None,
        },
        Mnemonic::Cpy => match md {
            AddressingMode::Immediate => Some(0xC0u8),
            AddressingMode::ZeroPage => Some(0xC4u8),
            AddressingMode::Absolute => Some(0xCCu8),
            _ => None,
        },
        Mnemonic::Dec => match md {
            AddressingMode::ZeroPage => Some(0xC6u8),
            AddressingMode::ZeroPageX => Some(0xD6u8),
            AddressingMode::Absolute => Some(0xCEu8),
            AddressingMode::AbsoluteX => Some(0xDEu8),
            _ => None,
        },
        Mnemonic::Dex => match md {
            AddressingMode::Implied => Some(0xCAu8),
            _ => None,
        },
        Mnemonic::Dey => match md {
            AddressingMode::Implied => Some(0x88u8),
            _ => None,
        },
        Mnemonic::Eor => match md {
            AddressingMode::Immediate => Some(0x49u8),
            AddressingMode::ZeroPage => Some(0x45u8),
            AddressingMode::ZeroPageX => Some(0x55u8),
            AddressingMode::Absolute => Some(0x4Du8),
            AddressingMode::AbsoluteX => Some(0x5Du8),
            AddressingMode::AbsoluteY => Some(0x59u8),
            AddressingMode::IndirectX => Some(0x41u8),
            AddressingMode::IndirectY => Some(0x51u8),
            _ => None,
        },
        Mnemonic::Inc => match md {
            AddressingMode::ZeroPage => Some(0xE6u8),
            AddressingMode::ZeroPageX => Some(0xF6u8),
            AddressingMode::Absolute => Some(0xEEu8),
            AddressingMode::AbsoluteX => Some(0xFEu8),
            _ => None,
        },
        Mnemonic::Inx => match md {
            AddressingMode::Implied => Some(0xE8u8),
            _ => None,
        },
        Mnemonic::Iny => match md {
            AddressingMode::Implied => Some(0xC8u8),
            _ => None,
        },
        Mnemonic::Jmp => match md {
            AddressingMode::Absolute => Some(0x4Cu8),
            AddressingMode::Indirect => Some(0x6Cu8),
            _ => None,
        },
        Mnemonic::Jsr => match md {
            AddressingMode::Absolute => Some(0x20u8),
            _ => None,
        },
        Mnemonic::Lda => match md {
            AddressingMode::Immediate => Some(0xA9u8),
            AddressingMode::ZeroPage => Some(0xA5u8),
            AddressingMode::ZeroPageX => Some(0xB5u8),
            AddressingMode::Absolute => Some(0xADu8),
            AddressingMode::AbsoluteX => Some(0xBDu8),
            AddressingMode::AbsoluteY => Some(0xB9u8),
            AddressingMode::IndirectX => Some(0xA1u8),
            AddressingMode::IndirectY => Some(0xB1u8),
            _ => None,
        },
        Mnemonic::Ldx => match md {
            AddressingMode::Immediate => Some(0xA2u8),
            AddressingMode::ZeroPage => Some(0xA6u8),
            AddressingMode::ZeroPageY => Some(0xB6u8),
            AddressingMode::Absolute => Some(0xAEu8),
            AddressingMode::AbsoluteY => Some(0xBEu8),
            _ => None,
        },
        Mnemonic::Ldy => match md {
            AddressingMode::Immediate => Some(0xA0u8),
            AddressingMode::ZeroPage => Some(0xA4u8),
            AddressingMode::ZeroPageX => Some(0xB4u8),
            AddressingMode::Absolute => Some(0xACu8),
            AddressingMode::AbsoluteX => Some(0xBCu8),
            _ => None,
        },
        Mnemonic::Lsr => match md {
            AddressingMode::Accumulator => Some(0x4Au8),
            AddressingMode::ZeroPage => Some(0x46u8),
            AddressingMode::ZeroPageX => Some(0x56u8),
            AddressingMode::Absolute => Some(0x4Eu8),
            AddressingMode::AbsoluteX => Some(0x5Eu8),
            _ => None,
        },
        Mnemonic::Nop => match md {
            AddressingMode::Implied => Some(0xEAu8),
            _ => None,
        },
        Mnemonic::Ora => match md {
            AddressingMode::Immediate => Some(0x09u8),
            AddressingMode::ZeroPage => Some(0x05u8),
            AddressingMode::ZeroPageX => Some(0x15u8),
            AddressingMode::Absolute => Some(0x0Du8),
            AddressingMode::AbsoluteX => Some(0x1Du8),
            AddressingMode::AbsoluteY => Some(0x19u8),
            AddressingMode::IndirectX => Some(0x01u8),
            AddressingMode::IndirectY => Some(0x11u8),
            _ => None,
        },
        Mnemonic::Pha => match md {
            AddressingMode::Implied => Some(0x48u8),
            _ => None,
        },
        Mnemonic::Php => match md {
            AddressingMode::Implied => Some(0x08u8),
            _ => None,
        },
        Mnemonic::Pla => match md {
            AddressingMode::Implied => Some(0x68u8),
            _ => None,
        },
        Mnemonic::Plp => match md {
            AddressingMode::Implied => Some(0x28u8),
            _ => None,
        },
        Mnemonic::Rol => match md {
            AddressingMode::Accumulator => Some(0x2Au8),
            AddressingMode::ZeroPage => Some(0x26u8),
            AddressingMode::ZeroPageX => Some(0x36u8),
            AddressingMode::Absolute => Some(0x2Eu8),
            AddressingMode::AbsoluteX => Some(0x3Eu8),
            _ => None,
        },
        Mnemonic::Ror => match md {
            AddressingMode::Accumulator => Some(0x6Au8),
            AddressingMode::ZeroPage => Some(0x66u8),
            AddressingMode::ZeroPageX => Some(0x76u8),
            AddressingMode::Absolute => Some(0x6Eu8),
            AddressingMode::AbsoluteX => Some(0x7Eu8),
            _ => None,
        },
        Mnemonic::Rti => match md {
            AddressingMode::Implied => Some(0x40u8),
            _ => None,
        },
        Mnemonic::Rts => match md {
            AddressingMode::Implied => Some(0x60u8),
            _ => None,
        },
        Mnemonic::Sbc => match md {
            AddressingMode::Immediate => Some(0xE9u8),
            AddressingMode::ZeroPage => Some(0xE5u8),
            AddressingMode::ZeroPageX => Some(0xF5u8),
            AddressingMode::Absolute => Some(0xEDu8),
            AddressingMode::AbsoluteX => Some(0xFDu8),
            AddressingMode::AbsoluteY => Some(0xF9u8),
            AddressingMode::IndirectX => Some(0xE1u8),
            AddressingMode::IndirectY => Some(0xF1u8),
            _ => None,
        },
        Mnemonic::Sec => match md {
            AddressingMode::Implied => Some(0x38u8),
            _ => None,
        },
        Mnemonic::Sed => match md {
            AddressingMode::Implied => Some(0xF8u8),
            _ => None,
        },
        Mnemonic::Sei => match md {
            AddressingMode::Implied => Some(0x78u8),
            _ => None,
        },
        Mnemonic::Sta => match md {
            AddressingMode::ZeroPage => Some(0x85u8),
            AddressingMode::ZeroPageX => Some(0x95u8),
            AddressingMode::Absolute => Some(0x8Du8),
            AddressingMode::AbsoluteX => Some(0x9Du8),
            AddressingMode::AbsoluteY => Some(0x99u8),
            AddressingMode::IndirectX => Some(0x81u8),
            AddressingMode::IndirectY => Some(0x91u8),
            _ => None,
        },
        Mnemonic::Stx => match md {
            AddressingMode::ZeroPage => Some(0x86u8),
            AddressingMode::ZeroPageY => Some(0x96u8),
            AddressingMode::Absolute => Some(0x8Eu8),
            _ => None,
        },
        Mnemonic::Sty => match md {
            AddressingMode::ZeroPage => Some(0x84u8),
            AddressingMode::ZeroPageX => Some(0x94u8),
            AddressingMode::Absolute => Some(0x8Cu8),
            _ => None,
        },
        Mnemonic::Tax => match md {
            AddressingMode::Implied => Some(0xAAu8),
            _ => None,
        },
        Mnemonic::Tay => match md {
            AddressingMode::Implied => Some(0xA8u8),
            _ => None,
        },
        Mnemonic::Tsx => match md {
            AddressingMode::Implied => Some(0xBAu8),
            _ => None,
        },
        Mnemonic::Txa => match md {
            AddressingMode::Implied => Some(0x8Au8),
            _ => None,
        },
        Mnemonic::Txs => match md {
            AddressingMode::Implied => Some(0x9Au8),
            _ => None,
        },
        Mnemonic::Tya => match md {
            AddressingMode::Implied => Some(0x98u8),
            _ => None,
        },
        _ => None,
    }
}

/// Every opcode the table marks documented is the 6502's own: the byte the
/// 6502 gives its mnemonic in its addressing mode.
#[verifier::rlimit(100)]
pub proof fn lemma_documented_rows_are_the_6502s(b: u8)
    ensures
        !spec_opcode(b).spec_is_undocumented() ==> reference_opcode(spec_row(b).0, spec_row(b).1)
            == Some(b),
{
    reveal(spec_row);
    lemma_meta_bits(spec_row(b).3);
}

/// Every documented 6502 instruction is in the table at its own byte, marked
/// documented, with its mnemonic and addressing mode, so `find` on its name
/// and mode finds an opcode.
#[verifier::rlimit(100)]
pub proof fn lemma_every_6502_instruction_is_in_the_table(m: Mnemonic, md: AddressingMode)
    ensures
        reference_opcode(m, md) matches Some(b) ==> {
            &&& spec_opcode(b).mnemonic == m.spec_name()
            &&& spec_opcode(b).mode == md
            &&& !spec_opcode(b).spec_is_undocumented()
            &&& finds(b, m.spec_name()@, md)
        },
{
    reveal(spec_row);
    if let Some(b) = reference_opcode(m, md) {
        lemma_meta_bits(spec_row(b).3);
        assert(spec_row(b).0 == m && spec_row(b).1 == md && spec_row(b).3 < 2);
    }
}

} // verus!
