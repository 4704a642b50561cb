use nessemble::isa::{by_byte, find, opcodes, AddressingMode, RegSet};

#[test]
fn table_has_256_entries() {
    assert_eq!(opcodes().len(), 256);
}

#[test]
fn index_matches_opcode_value() {
    for (i, op) in opcodes().iter().enumerate() {
        assert_eq!(i as u8, op.opcode, "row {i} has opcode {:#04x}", op.opcode);
    }
}

#[test]
fn length_matches_mode_operand_bytes() {
    for op in &opcodes() {
        assert_eq!(
            op.length,
            op.mode.operand_bytes() + 1,
            "{} {:?} has length {} but mode implies {}",
            op.mnemonic,
            op.mode,
            op.length,
            op.mode.operand_bytes() + 1
        );
    }
}

#[test]
fn known_opcodes_are_correct() {
    let brk = by_byte(0x00);
    assert_eq!(brk.mnemonic, "BRK");
    assert_eq!(brk.mode, AddressingMode::Implied);
    assert_eq!(brk.length, 1);
    assert_eq!(brk.timing, 7);

    let lda_imm = by_byte(0xA9);
    assert_eq!(lda_imm.mnemonic, "LDA");
    assert_eq!(lda_imm.mode, AddressingMode::Immediate);
    assert_eq!(lda_imm.length, 2);

    let nop = by_byte(0xEA);
    assert_eq!(nop.mnemonic, "NOP");
    assert_eq!(nop.mode, AddressingMode::Implied);
    assert!(!nop.is_undocumented());
}

#[test]
fn every_documented_opcode_has_recorded_effects() {
    for op in opcodes().iter().filter(|o| !o.is_undocumented()) {
        assert!(
            op.effects_known,
            "{} ({:?}, {:#04x}) has no recorded effects",
            op.mnemonic, op.mode, op.opcode
        );
    }
}

#[test]
fn illegal_mnemonics_have_unknown_effects() {
    let table = opcodes();
    for op in &table {
        assert!(
            op.effects_known || op.writes.is_empty(),
            "{} has unknown effects but claims a write",
            op.mnemonic
        );
    }
    for mnemonic in ["SLO", "LAX", "KIL", "DCP", "ARR", "XAA"] {
        let op = table
            .iter()
            .find(|o| o.mnemonic == mnemonic)
            .unwrap_or_else(|| panic!("{mnemonic} is in the table"));
        assert!(!op.effects_known, "{mnemonic} claims known effects");
    }
}

#[test]
fn effects_follow_the_addressing_mode() {
    let asl_a = find("ASL", AddressingMode::Accumulator).expect("ASL A exists");
    assert!(asl_a.writes.contains(RegSet::a()));
    assert!(asl_a.reads.contains(RegSet::a()));
    let asl_abs = find("ASL", AddressingMode::Absolute).expect("ASL abs exists");
    assert!(asl_abs.writes.is_empty());

    let lda_zpx = find("LDA", AddressingMode::ZeroPageX).expect("LDA zp,X exists");
    assert!(lda_zpx.reads.contains(RegSet::x()));
    assert!(lda_zpx.writes.contains(RegSet::a()));
    let lda_zp = find("LDA", AddressingMode::ZeroPage).expect("LDA zp exists");
    assert!(!lda_zp.reads.contains(RegSet::x()));

    let lda_absy = find("LDA", AddressingMode::AbsoluteY).expect("LDA abs,Y exists");
    assert!(lda_absy.reads.contains(RegSet::y()));

    let sta_abs = find("STA", AddressingMode::Absolute).expect("STA abs exists");
    assert!(sta_abs.writes.is_empty());
    assert!(sta_abs.reads.contains(RegSet::a()));
}

#[test]
fn only_txs_writes_the_stack_pointer() {
    for op in opcodes().iter().filter(|o| o.effects_known) {
        assert_eq!(
            op.writes.contains(RegSet::s()),
            op.mnemonic == "TXS",
            "{} disagrees about writing S",
            op.mnemonic
        );
    }
}

#[test]
fn reg_set_is_a_set() {
    let ax = RegSet::a().union(RegSet::x());
    assert!(ax.contains(RegSet::a()));
    assert!(ax.contains(RegSet::x()));
    assert!(!ax.contains(RegSet::y()));
    assert!(ax.contains(ax));
    assert!(RegSet::empty().is_empty());
    assert!(!ax.is_empty());
}

#[test]
fn find_by_mnemonic_and_mode() {
    let op = find("lda", AddressingMode::Immediate).expect("LDA immediate exists");
    assert_eq!(op.opcode, 0xA9);
    assert!(find("LDA", AddressingMode::Indirect).is_none());
}

#[test]
fn has_expected_undocumented_count() {
    let undocumented = opcodes().iter().filter(|o| o.is_undocumented()).count();
    assert!(
        undocumented > 100,
        "expected many undocumented opcodes, found {undocumented}"
    );
}

#[test]
fn reg_set_bits_round_trip() {
    for bits in 0u8..16 {
        assert_eq!(RegSet::from_bits(bits).bits(), bits);
    }
    assert_eq!(RegSet::a().union(RegSet::y()).bits(), 0b0101);
}

#[test]
fn operand_bytes_and_labels_by_mode() {
    assert_eq!(AddressingMode::Implied.operand_bytes(), 0);
    assert_eq!(AddressingMode::Immediate.operand_bytes(), 1);
    assert_eq!(AddressingMode::Absolute.operand_bytes(), 2);
    assert_eq!(by_byte(0x6C).mode, AddressingMode::Indirect);
    assert_eq!(by_byte(0x6C).length, 3);
}
