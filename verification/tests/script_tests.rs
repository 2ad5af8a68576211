use utxo_wallet::error::Error;
use utxo_wallet::opcode::Opcode;
use utxo_wallet::script::{
    multisig_lock, pay_to_key_hash_lock, pay_to_key_hash_unlock, return_data, Script, ScriptOp,
};

fn script_of(ops: Vec<ScriptOp>) -> Script {
    Script { ops }
}

#[test]
fn opcode_bytes_round_trip() {
    let mut known = 0;
    for byte in 0u8..=255 {
        if let Some(op) = Opcode::from_byte(byte) {
            assert_eq!(op.to_byte(), byte);
            known += 1;
        }
    }
    assert_eq!(known, 89);
    assert_eq!(Opcode::OpDup.to_byte(), 0x76);
    assert_eq!(Opcode::OpHash160.to_byte(), 0xa9);
    assert_eq!(Opcode::OpEqualVerify.to_byte(), 0x88);
    assert_eq!(Opcode::OpCheckSig.to_byte(), 0xac);
    assert_eq!(Opcode::from_byte(0x00), None);
    assert_eq!(Opcode::from_byte(0x4e), None);
    assert_eq!(Opcode::from_byte(0x50), None);
    assert_eq!(Opcode::from_byte(0xff), None);
}

#[test]
fn disabled_opcodes_are_flagged() {
    for op in [
        Opcode::OpCat,
        Opcode::OpSubstr,
        Opcode::OpLeft,
        Opcode::OpRight,
        Opcode::OpInvert,
        Opcode::OpAnd,
        Opcode::OpOr,
        Opcode::OpXor,
        Opcode::Op2Mul,
        Opcode::Op2Div,
        Opcode::OpMul,
        Opcode::OpDiv,
        Opcode::OpMod,
        Opcode::OpLShift,
        Opcode::OpRShift,
    ] {
        assert!(op.is_disabled());
    }
    assert!(!Opcode::OpAdd.is_disabled());
    assert!(!Opcode::OpCheckSig.is_disabled());
}

#[test]
fn small_number_opcodes() {
    assert_eq!(Opcode::Op1Negate.small_number(), Some(-1));
    assert_eq!(Opcode::Op1.small_number(), Some(1));
    assert_eq!(Opcode::Op16.small_number(), Some(16));
    assert_eq!(Opcode::OpDup.small_number(), None);
}

#[test]
fn pay_to_key_hash_lock_bytes() {
    let hash = [0x11u8; 20];
    let script = pay_to_key_hash_lock(&hash);
    let mut expected = vec![0x76, 0xa9, 0x14];
    expected.extend_from_slice(&hash);
    expected.extend_from_slice(&[0x88, 0xac]);
    assert_eq!(script.to_bytes(), expected);
    assert_eq!(script.len(), 5);
    assert_eq!(script.as_pay_to_key_hash(), Some(hash));
}

#[test]
fn pay_to_key_hash_unlock_bytes() {
    let sig = vec![0x30u8; 71];
    let key = vec![0x02u8; 33];
    let script = pay_to_key_hash_unlock(&sig, &key);
    let bytes = script.to_bytes();
    assert_eq!(bytes.len(), 1 + 71 + 1 + 33);
    assert_eq!(bytes[0], 71);
    assert_eq!(bytes[72], 33);
    assert_eq!(script.as_pay_to_key_hash(), None);
}

#[test]
fn return_data_bytes() {
    let script = return_data(b"hello");
    assert_eq!(script.to_bytes(), vec![0x6a, 0x05, b'h', b'e', b'l', b'l', b'o']);
}

#[test]
fn multisig_lock_bytes_and_count_checks() {
    let keys = vec![vec![0x02u8; 33], vec![0x03u8; 33], vec![0x04u8; 33]];
    let script = multisig_lock(2, &keys).unwrap();
    let bytes = script.to_bytes();
    assert_eq!(bytes[0], 0x52);
    assert_eq!(bytes[1], 33);
    assert_eq!(bytes[bytes.len() - 2], 0x53);
    assert_eq!(bytes[bytes.len() - 1], 0xae);
    assert_eq!(bytes.len(), 1 + 3 * 34 + 2);
    assert_eq!(multisig_lock(0, &keys), Err(Error::MalformedScript));
    assert_eq!(multisig_lock(4, &keys), Err(Error::MalformedScript));
    assert_eq!(multisig_lock(1, &vec![]), Err(Error::MalformedScript));
    let many = vec![vec![0x02u8; 33]; 17];
    assert_eq!(multisig_lock(1, &many), Err(Error::MalformedScript));
    assert!(multisig_lock(16, &vec![vec![0x02u8; 33]; 16]).is_ok());
}

#[test]
fn push_prefix_depends_on_length() {
    let cases: [(usize, Vec<u8>); 6] = [
        (0, vec![0x00]),
        (1, vec![0x01]),
        (75, vec![0x4b]),
        (76, vec![0x4c, 76]),
        (255, vec![0x4c, 255]),
        (256, vec![0x4d, 0x00, 0x01]),
    ];
    for (len, prefix) in cases {
        let script = script_of(vec![ScriptOp::PushBytes(vec![0xab; len])]);
        let bytes = script.to_bytes();
        assert_eq!(&bytes[..prefix.len()], &prefix[..]);
        assert_eq!(bytes.len(), prefix.len() + len);
        assert_eq!(Script::from_bytes(&bytes), script);
    }
    let big = script_of(vec![ScriptOp::PushBytes(vec![0xcd; 70_000])]);
    let bytes = big.to_bytes();
    assert_eq!(&bytes[..5], &[0x4e, 0x70, 0x11, 0x01, 0x00]);
    assert_eq!(Script::from_bytes(&bytes), big);
}

#[test]
fn script_round_trip_mixed_ops() {
    let script = script_of(vec![
        ScriptOp::PushBytes(vec![]),
        ScriptOp::Opcode(Opcode::Op1Negate),
        ScriptOp::Opcode(Opcode::Op16),
        ScriptOp::Invalid,
        ScriptOp::PushBytes(vec![1, 2, 3]),
        ScriptOp::Opcode(Opcode::OpIf),
        ScriptOp::Opcode(Opcode::OpCat),
        ScriptOp::Opcode(Opcode::OpEndIf),
        ScriptOp::PushBytes(vec![0x99; 300]),
        ScriptOp::Opcode(Opcode::OpCheckMultiSigVerify),
    ]);
    assert!(script.is_wf());
    let bytes = script.to_bytes();
    assert_eq!(bytes[0], 0x00);
    assert_eq!(bytes[3], 0xff);
    assert_eq!(Script::from_bytes(&bytes), script);
}

#[test]
fn decode_accepts_non_canonical_pushes() {
    let script = Script::from_bytes(&[0x4c, 0x02, 0xaa, 0xbb, 0x4d, 0x01, 0x00, 0xcc, 0x4e, 0, 0, 0, 0]);
    assert_eq!(
        script,
        script_of(vec![
            ScriptOp::PushBytes(vec![0xaa, 0xbb]),
            ScriptOp::PushBytes(vec![0xcc]),
            ScriptOp::PushBytes(vec![]),
        ])
    );
    assert_eq!(script.to_bytes(), vec![0x02, 0xaa, 0xbb, 0x01, 0xcc, 0x00]);
}

#[test]
fn decode_truncated_push_is_invalid() {
    let script = Script::from_bytes(&[0x76, 0x05, 0x01, 0x02]);
    assert_eq!(script, script_of(vec![ScriptOp::Opcode(Opcode::OpDup), ScriptOp::Invalid]));
    let script = Script::from_bytes(&[0x4c]);
    assert_eq!(script, script_of(vec![ScriptOp::Invalid]));
    let script = Script::from_bytes(&[0x4d, 0x05]);
    assert_eq!(script, script_of(vec![ScriptOp::Invalid]));
    let script = Script::from_bytes(&[0x4e, 0x01, 0x00, 0x00, 0x00]);
    assert_eq!(script, script_of(vec![ScriptOp::Invalid]));
}

#[test]
fn decode_unknown_byte_is_invalid_and_decoding_goes_on() {
    let script = Script::from_bytes(&[0x50, 0x76, 0xba, 0x51]);
    assert_eq!(
        script,
        script_of(vec![
            ScriptOp::Invalid,
            ScriptOp::Opcode(Opcode::OpDup),
            ScriptOp::Invalid,
            ScriptOp::Opcode(Opcode::Op1),
        ])
    );
}

#[test]
fn empty_script_round_trip() {
    let script = Script::new();
    assert_eq!(script.len(), 0);
    assert_eq!(script.to_bytes(), Vec::<u8>::new());
    assert_eq!(Script::from_bytes(&[]), script);
}

#[test]
fn script_clone_is_equal() {
    let script = pay_to_key_hash_lock(&[7u8; 20]);
    assert_eq!(script.clone(), script);
}
