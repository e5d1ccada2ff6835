use btcvalid::{
    parse_script, verify, Block, BlockHeader, BlockParseError, BlockValidationError, Executor,
    LittleEndianSerialization, Network, Opcode, Script, ScriptError, Transaction,
    TransactionFlags, TransactionInput, TransactionOutput,
};

fn hex_to_bytes(s: &str) -> Vec<u8> {
    let chars: Vec<u8> = s.bytes().collect();
    assert!(chars.len() % 2 == 0);
    let nibble = |c: u8| -> u8 {
        match c {
            b'0'..=b'9' => c - b'0',
            b'a'..=b'f' => c - b'a' + 10,
            _ => panic!("bad hex"),
        }
    };
    chars.chunks(2).map(|p| nibble(p[0]) * 16 + nibble(p[1])).collect()
}

fn hash_from_hex(s: &str) -> btcvalid::Hash {
    let v = hex_to_bytes(s);
    let mut arr = [0u8; 32];
    arr.copy_from_slice(&v);
    btcvalid::Hash::from_bytes(arr)
}

fn sample_input() -> TransactionInput {
    TransactionInput {
        txid: hash_from_hex("0102030405060708090a0b0c0d0e0f101112131415161718191a1b1c1d1e1f20"),
        vout: 7,
        unlock_script: vec![0x01, 0x03],
        sequence: 0xfffffffe,
        witness_stuff: Vec::new(),
    }
}

fn sample_tx() -> Transaction {
    Transaction {
        version: 2,
        flags: TransactionFlags::empty(),
        inputs: vec![sample_input()],
        outputs: vec![TransactionOutput { value: 5000, lock_script: vec![0x53, 0x87] }],
        locktime: 0,
    }
}

#[test]
fn hash_reverse_involution() {
    let mut arr = [0u8; 32];
    for i in 0..32 {
        arr[i] = (i as u8).wrapping_mul(37).wrapping_add(11);
    }
    let h = btcvalid::Hash::from_bytes(arr);
    assert_eq!(h.reverse().reverse(), h);
}

#[test]
fn hash_zero_hex() {
    let z = btcvalid::Hash::zero();
    let hex = z.to_hex();
    assert_eq!(hex.len(), 64);
    assert!(hex.iter().all(|&b| b == b'0'));
}

#[test]
fn block_id_display_is_64_lowercase_hex() {
    let block = Block {
        network: Network::MainNet,
        header: genesis_header(),
        transactions: Vec::new(),
    };
    let hex = block.id().reverse().to_hex();
    assert_eq!(hex.len(), 64);
    assert!(hex.iter().all(|&b| (b'0'..=b'9').contains(&b) || (b'a'..=b'f').contains(&b)));
}

fn genesis_header() -> BlockHeader {
    BlockHeader {
        version: 1,
        prev_block_hash: btcvalid::Hash::zero(),
        merkle_root: hash_from_hex(
            "3ba3edfd7a7b12b27ac72c3e67768f617fc81bc3888a51323a9fb8aa4b1e5e4a",
        ),
        time: 1231006505,
        bits: 0x1d00ffff,
        nonce: 2083236893,
    }
}

#[test]
fn genesis_block_id() {
    let block = Block {
        network: Network::MainNet,
        header: genesis_header(),
        transactions: Vec::new(),
    };
    let display = block.id().reverse().to_hex();
    assert_eq!(
        String::from_utf8(display).unwrap(),
        "000000000019d6689c085ae165831e934ff763ae46a2a6c172b3f1b60a8ce26f"
    );
}

#[test]
fn genesis_header_serialization() {
    let mut bytes = Vec::new();
    genesis_header().serialize_le(&mut bytes);
    let expected = hex_to_bytes(
        "0100000000000000000000000000000000000000000000000000000000000000000000003ba3edfd7a7b12b27ac72c3e67768f617fc81bc3888a51323a9fb8aa4b1e5e4a29ab5f49ffff001d1dac2b7c",
    );
    assert_eq!(bytes, expected);
}

#[test]
fn header_round_trip() {
    let h = genesis_header();
    let mut bytes = Vec::new();
    h.serialize_le(&mut bytes);
    let mut ix = 0usize;
    let back = BlockHeader::deserialize_le(&bytes, &mut ix).unwrap();
    assert_eq!(ix, bytes.len());
    assert_eq!(back, h);
}

#[test]
fn transaction_round_trip_legacy() {
    let tx = sample_tx();
    let mut bytes = Vec::new();
    tx.serialize_le(&mut bytes);
    let mut ix = 0usize;
    let back = Transaction::deserialize_le(&bytes, &mut ix).unwrap();
    assert_eq!(ix, bytes.len());
    assert_eq!(back, tx);
    // re-serializing what was decoded gives back the same bytes
    let mut again = Vec::new();
    back.serialize_le(&mut again);
    assert_eq!(again, bytes);
}

#[test]
fn transaction_round_trip_witness() {
    let mut input = sample_input();
    input.witness_stuff = vec![vec![0xde, 0xad], vec![], vec![0x01]];
    let tx = Transaction {
        version: 1,
        flags: TransactionFlags::witness(),
        inputs: vec![input],
        outputs: vec![TransactionOutput { value: 1, lock_script: vec![] }],
        locktime: 99,
    };
    let mut bytes = Vec::new();
    tx.serialize_le(&mut bytes);
    // marker and flag follow the version
    assert_eq!(bytes[4], 0x00);
    assert_eq!(bytes[5], 0x01);
    let mut ix = 0usize;
    let back = Transaction::deserialize_le(&bytes, &mut ix).unwrap();
    assert_eq!(ix, bytes.len());
    assert_eq!(back, tx);
}

#[test]
fn block_round_trip() {
    let block = Block {
        network: Network::TestNet3,
        header: genesis_header(),
        transactions: vec![sample_tx(), sample_tx()],
    };
    let mut bytes = Vec::new();
    block.serialize_le(&mut bytes);
    let mut ix = 0usize;
    let back = Block::deserialize_le(&bytes, &mut ix).unwrap();
    assert_eq!(ix, bytes.len());
    assert_eq!(back, block);
}

#[test]
fn block_unknown_magic() {
    let bytes = vec![0u8; 90];
    let mut ix = 0usize;
    assert_eq!(
        Block::deserialize_le(&bytes, &mut ix),
        Err(BlockParseError::UnknownMagic(0))
    );
}

#[test]
fn compact_size_round_trips() {
    for v in [0u64, 1, 0xfc, 0xfd, 0xffff, 0x10000, 0xffff_ffff, 0x1_0000_0000] {
        let mut bytes = Vec::new();
        btcvalid::parse::write_compact_size(&mut bytes, v);
        let mut ix = 0usize;
        let back = btcvalid::parse::read_compact_size(&bytes, &mut ix).unwrap();
        assert_eq!(back, v);
        assert_eq!(ix, bytes.len());
    }
}

#[test]
fn compact_size_non_canonical_rejected() {
    // 1 encoded in the three-byte form
    let bytes = vec![0xfd, 0x01, 0x00];
    let mut ix = 0usize;
    assert_eq!(
        btcvalid::parse::read_compact_size(&bytes, &mut ix),
        Err(BlockParseError::NonCanonical(0))
    );
}

#[test]
fn truncated_transaction() {
    let bytes = vec![0x02, 0x00];
    let mut ix = 0usize;
    assert_eq!(
        Transaction::deserialize_le(&bytes, &mut ix),
        Err(BlockParseError::Truncated(0))
    );
}

#[test]
fn bad_witness_flag() {
    // version, then marker 0x00 with a flag byte that is not 0x01
    let bytes = vec![0x02, 0x00, 0x00, 0x00, 0x00, 0x02];
    let mut ix = 0usize;
    assert_eq!(
        Transaction::deserialize_le(&bytes, &mut ix),
        Err(BlockParseError::BadWitnessFlag(5))
    );
}

#[test]
fn strip_witness_clears_flag_and_data() {
    let mut input = sample_input();
    input.witness_stuff = vec![vec![1, 2, 3]];
    let tx = Transaction {
        version: 1,
        flags: TransactionFlags::witness(),
        inputs: vec![input],
        outputs: Vec::new(),
        locktime: 0,
    };
    let stripped = tx.strip_witness_data();
    assert_eq!(stripped.flags, TransactionFlags::empty());
    assert!(stripped.inputs[0].witness_stuff.is_empty());
    assert_eq!(stripped.version, tx.version);
    assert_eq!(stripped.locktime, tx.locktime);
    assert_eq!(stripped.inputs[0].txid, tx.inputs[0].txid);
}

#[test]
fn opcode_decoding_total_over_all_byte_values() {
    for v in 0u16..=0xff {
        let b = v as u8;
        let bytes = [b];
        let mut ix = 0usize;
        let r = Opcode::deserialize_le(&bytes, &mut ix);
        if b == 0x00 || b > 0x4e {
            // every non-push byte decodes, as does the empty push
            assert!(r.is_ok(), "byte {:#x} should decode", b);
            assert_eq!(ix, 1);
        } else {
            // a push whose declared length exceeds the buffer fails
            assert!(r.is_err(), "byte {:#x} should fail as truncated push", b);
        }
    }
}

#[test]
fn opcode_classes() {
    let classify = |b: u8| {
        let bytes = [b, 0x00, 0x00, 0x00, 0x00];
        let mut ix = 0usize;
        Opcode::deserialize_le(&bytes, &mut ix).unwrap()
    };
    assert_eq!(classify(0x4f), Opcode::PushNumber(-1));
    assert_eq!(classify(0x51), Opcode::PushNumber(1));
    assert_eq!(classify(0x60), Opcode::PushNumber(16));
    assert_eq!(classify(0x50), Opcode::Reserved(0x50));
    assert_eq!(classify(0x89), Opcode::Reserved(0x89));
    assert_eq!(classify(0x61), Opcode::Nop(0x61));
    assert_eq!(classify(0xb0), Opcode::Nop(0xb0));
    assert_eq!(classify(0x7e), Opcode::Disabled(0x7e));
    assert_eq!(classify(0x95), Opcode::Disabled(0x95));
    assert_eq!(classify(0xba), Opcode::Invalid(0xba));
    assert_eq!(classify(0xff), Opcode::Invalid(0xff));
    assert_eq!(classify(0x93), Opcode::Add);
    assert_eq!(classify(0x87), Opcode::Equal);
    assert_eq!(classify(0x02), Opcode::PushArray(vec![0x00, 0x00]));
}

#[test]
fn parse_script_push_forms() {
    // direct push, 8-bit, 16-bit and 32-bit length prefixes
    let s = parse_script(&[0x01, 0xaa]).unwrap();
    assert_eq!(s.opcodes, vec![Opcode::PushArray(vec![0xaa])]);
    let s = parse_script(&[0x4c, 0x02, 0xaa, 0xbb]).unwrap();
    assert_eq!(s.opcodes, vec![Opcode::PushArray(vec![0xaa, 0xbb])]);
    let s = parse_script(&[0x4d, 0x01, 0x00, 0xcc]).unwrap();
    assert_eq!(s.opcodes, vec![Opcode::PushArray(vec![0xcc])]);
    let s = parse_script(&[0x4e, 0x01, 0x00, 0x00, 0x00, 0xdd]).unwrap();
    assert_eq!(s.opcodes, vec![Opcode::PushArray(vec![0xdd])]);
}

#[test]
fn parse_script_truncated_push() {
    assert_eq!(parse_script(&[0x05, 0x01]), Err(BlockParseError::Truncated(1)));
}

#[test]
fn opcode_round_trip() {
    let ops = vec![
        Opcode::PushArray(vec![]),
        Opcode::PushArray(vec![1, 2, 3]),
        Opcode::PushNumber(-1),
        Opcode::PushNumber(16),
        Opcode::Reserved(0x50),
        Opcode::Nop(0xb3),
        Opcode::Disabled(0x7e),
        Opcode::Invalid(0xba),
        Opcode::If,
        Opcode::Equal,
        Opcode::CheckMultisigVerify,
    ];
    let mut bytes = Vec::new();
    for op in &ops {
        op.serialize_le(&mut bytes);
    }
    let script = parse_script(&bytes).unwrap();
    assert_eq!(script.opcodes, ops);
}

#[test]
fn stack_underflow_on_add() {
    let mut executor = Executor::new();
    let script = Script { opcodes: vec![Opcode::Add] };
    assert_eq!(executor.execute(script), Err(BlockValidationError::StackUnderflow));
    let mut executor = Executor::new();
    let script = Script { opcodes: vec![Opcode::PushNumber(1), Opcode::Add] };
    assert_eq!(executor.execute(script), Err(BlockValidationError::StackUnderflow));
}

#[test]
fn reserved_opcode_fails_validation() {
    // parses fine, fails execution
    let script = parse_script(&[0x50]).unwrap();
    assert_eq!(script.opcodes, vec![Opcode::Reserved(0x50)]);
    assert_eq!(
        verify(&[0x50], &[]),
        Err(ScriptError::Validation(BlockValidationError::ReservedOpcode(0x50)))
    );
}

#[test]
fn disabled_opcode_fails_validation() {
    let script = parse_script(&[0x7e]).unwrap();
    assert_eq!(script.opcodes, vec![Opcode::Disabled(0x7e)]);
    assert_eq!(
        verify(&[0x7e], &[]),
        Err(ScriptError::Validation(BlockValidationError::DisabledOpcode(0x7e)))
    );
}

#[test]
fn verify_push_equal_succeeds() {
    // unlock: PushArray([3]); lock: PushNumber(3), Equal
    assert_eq!(verify(&[0x53, 0x87], &[0x01, 0x03]), Ok(true));
}

#[test]
fn verify_push_equal_mismatch_is_false_not_error() {
    // unlock: PushArray([3]); lock: PushNumber(4), Equal
    assert_eq!(verify(&[0x54, 0x87], &[0x01, 0x03]), Ok(false));
}

#[test]
fn verify_opcode_failure_modes() {
    // Return aborts
    assert_eq!(
        verify(&[0x6a], &[0x51]),
        Err(ScriptError::Validation(BlockValidationError::EarlyReturn))
    );
    // Verify on a false top fails
    assert_eq!(
        verify(&[0x69], &[0x00]),
        Err(ScriptError::Validation(BlockValidationError::VerifyFailed))
    );
    // If with an empty stack is unbalanced
    assert_eq!(
        verify(&[0x63], &[]),
        Err(ScriptError::Validation(BlockValidationError::UnbalancedConditional))
    );
    // an If left open at end of script is unbalanced
    assert_eq!(
        verify(&[0x63, 0x51], &[0x51]),
        Err(ScriptError::Validation(BlockValidationError::UnbalancedConditional))
    );
    // a five-byte number is out of range for arithmetic
    assert_eq!(
        verify(&[0x05, 1, 1, 1, 1, 1, 0x8b], &[]),
        Err(ScriptError::Validation(BlockValidationError::NumberOutOfRange))
    );
    // a non-minimal number (0x0100 encodes 1 with a useless sign byte... trailing zero) is rejected
    assert_eq!(
        verify(&[0x02, 0x01, 0x00, 0x8b], &[]),
        Err(ScriptError::Validation(BlockValidationError::NumberOutOfRange))
    );
    // invalid opcodes fail when executed
    assert_eq!(
        verify(&[0xba], &[]),
        Err(ScriptError::Validation(BlockValidationError::InvalidOpcode(0xba)))
    );
}

#[test]
fn verify_resource_limits() {
    // one push above the per-element ceiling
    let mut big_push = vec![0x4d, 0x09, 0x02]; // 521 bytes
    big_push.extend(std::iter::repeat(0u8).take(521));
    assert_eq!(
        verify(&big_push, &[]),
        Err(ScriptError::Validation(BlockValidationError::PushSize))
    );
    // more executed opcodes than the ceiling
    let many_nops = vec![0x61u8; 202];
    assert_eq!(
        verify(&many_nops, &[]),
        Err(ScriptError::Validation(BlockValidationError::OpCountLimit))
    );
    // deeper than the combined stack ceiling
    let many_pushes = vec![0x51u8; 1001];
    assert_eq!(
        verify(&many_pushes, &[]),
        Err(ScriptError::Validation(BlockValidationError::StackLimit))
    );
    // a script longer than the script ceiling
    let long_script = vec![0x61u8; 10001];
    assert_eq!(
        verify(&long_script, &[]),
        Err(ScriptError::Validation(BlockValidationError::ScriptSize))
    );
}

#[test]
fn verify_branches_and_alt_stack() {
    // unlock pushes 1; lock: IF 2 ELSE 3 ENDIF; 2 EQUAL
    assert_eq!(verify(&[0x63, 0x52, 0x67, 0x53, 0x68, 0x52, 0x87], &[0x51]), Ok(true));
    // unlock pushes 0; the ELSE branch runs
    assert_eq!(verify(&[0x63, 0x52, 0x67, 0x53, 0x68, 0x53, 0x87], &[0x00]), Ok(true));
    // a disabled opcode in the skipped branch still fails
    assert_eq!(
        verify(&[0x63, 0x7e, 0x67, 0x53, 0x68], &[0x00]),
        Err(ScriptError::Validation(BlockValidationError::DisabledOpcode(0x7e)))
    );
    // round trip through the alternate stack: 1 TOALTSTACK FROMALTSTACK
    assert_eq!(verify(&[0x6b, 0x6c], &[0x51]), Ok(true));
}

#[test]
fn verify_arithmetic_and_comparisons() {
    // 2 3 ADD 5 NUMEQUAL
    assert_eq!(verify(&[0x52, 0x53, 0x93, 0x55, 0x9c], &[]), Ok(true));
    // 7 3 SUB 4 NUMEQUAL
    assert_eq!(verify(&[0x57, 0x53, 0x94, 0x54, 0x9c], &[]), Ok(true));
    // 2 3 MIN 2 NUMEQUAL
    assert_eq!(verify(&[0x52, 0x53, 0xa3, 0x52, 0x9c], &[]), Ok(true));
    // 3 2 5 WITHIN -> 1 (2 <= 3 < 5)
    assert_eq!(verify(&[0x53, 0x52, 0x55, 0xa5], &[]), Ok(true));
    // 5 1SUB 4 NUMEQUAL
    assert_eq!(verify(&[0x55, 0x8c, 0x54, 0x9c], &[]), Ok(true));
    // -1 ABS 1 NUMEQUAL
    assert_eq!(verify(&[0x4f, 0x90, 0x51, 0x9c], &[]), Ok(true));
    // DEPTH on 1 1: stack 1 1 2 -> 2 EQUAL leaves 1 1 ... keep simple: 1 DEPTH -> 1 1; NUMEQUAL -> 1
    assert_eq!(verify(&[0x51, 0x74, 0x9c], &[]), Ok(true));
}

#[test]
fn verify_stack_shuffles() {
    // 1 2 SWAP -> 2 1 -> 1 EQUALVERIFY leaves 2; 2 EQUAL
    assert_eq!(verify(&[0x51, 0x52, 0x7c, 0x51, 0x88, 0x52, 0x87], &[]), Ok(true));
    // 1 2 DROP -> 1
    assert_eq!(verify(&[0x51, 0x52, 0x75], &[]), Ok(true));
    // 1 0 PICK duplicates the 1
    assert_eq!(verify(&[0x51, 0x00, 0x79, 0x9c], &[]), Ok(true));
    // SIZE: push [1,2], SIZE -> 2 on top; 2 NUMEQUAL; NIP drops the array
    assert_eq!(verify(&[0x02, 0x01, 0x02, 0x82, 0x52, 0x9c, 0x77], &[]), Ok(true));
}

#[test]
fn verify_sha256_opcode() {
    // SHA256 of [0x61] ("a"), checked against the known digest
    let digest = hex_to_bytes("ca978112ca1bbdcafac231b39a23dc4da786eff8147c4e72b9807785afee48bb");
    let mut lock = vec![0x01, 0x61, 0xa8, 0x20];
    lock.extend(digest);
    lock.push(0x87);
    assert_eq!(verify(&lock, &[]), Ok(true));
}

#[test]
fn merkle_root_empty_block_is_zero() {
    let block = Block {
        network: Network::MainNet,
        header: genesis_header(),
        transactions: Vec::new(),
    };
    assert_eq!(block.computed_merkle_root(), btcvalid::Hash::zero());
}

fn tx_with_locktime(locktime: u32) -> Transaction {
    let mut tx = sample_tx();
    tx.locktime = locktime;
    tx
}

#[test]
fn merkle_three_transactions_duplicates_last() {
    let header = genesis_header();
    let block3 = Block {
        network: Network::MainNet,
        header,
        transactions: vec![tx_with_locktime(1), tx_with_locktime(2), tx_with_locktime(3)],
    };
    let block4 = Block {
        network: Network::MainNet,
        header,
        transactions: vec![
            tx_with_locktime(1),
            tx_with_locktime(2),
            tx_with_locktime(3),
            tx_with_locktime(3),
        ],
    };
    assert_eq!(block3.computed_merkle_root(), block4.computed_merkle_root());
    // and a different third transaction changes the root
    let block3b = Block {
        network: Network::MainNet,
        header,
        transactions: vec![tx_with_locktime(1), tx_with_locktime(2), tx_with_locktime(4)],
    };
    assert_ne!(block3.computed_merkle_root(), block3b.computed_merkle_root());
}

#[test]
fn merkle_single_transaction_is_its_own_root() {
    // one transaction: the root is the leaf reversed back to display order
    let header = genesis_header();
    let block = Block {
        network: Network::MainNet,
        header,
        transactions: vec![sample_tx()],
    };
    let mut bytes = Vec::new();
    sample_tx().strip_witness_data().serialize_le(&mut bytes);
    let digest = hmac_sha256::Hash::hash(&hmac_sha256::Hash::hash(&bytes));
    assert_eq!(block.computed_merkle_root(), btcvalid::Hash::from_bytes(digest));
}

#[test]
fn merkle_witness_data_does_not_change_root() {
    let header = genesis_header();
    let plain = sample_tx();
    let mut witness_input = sample_input();
    witness_input.witness_stuff = vec![vec![9, 9, 9]];
    let witness_tx = Transaction {
        flags: TransactionFlags::witness(),
        inputs: vec![witness_input],
        ..sample_tx()
    };
    let b1 = Block { network: Network::MainNet, header, transactions: vec![plain] };
    let b2 = Block { network: Network::MainNet, header, transactions: vec![witness_tx] };
    assert_eq!(b1.computed_merkle_root(), b2.computed_merkle_root());
}

#[test]
fn validate_merkle_root_matches_header() {
    let mut header = genesis_header();
    let transactions = vec![sample_tx()];
    let probe = Block { network: Network::MainNet, header, transactions: transactions.clone() };
    assert_eq!(
        probe.validate_merkle_root(),
        Err(BlockValidationError::MerkleMismatch)
    );
    header.merkle_root = probe.computed_merkle_root();
    let block = Block { network: Network::MainNet, header, transactions };
    assert_eq!(block.validate_merkle_root(), Ok(()));
}
