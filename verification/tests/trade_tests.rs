use utxo_wallet::builder::{UnsignedBuild, BUILD_SIGHASH_FLAGS};
use utxo_wallet::error::Error;
use utxo_wallet::hash::hash160;
use utxo_wallet::interpreter::validate_transaction;
use utxo_wallet::keys::SigningKey;
use utxo_wallet::opcode::Opcode;
use utxo_wallet::payment::output_is_dust;
use utxo_wallet::script::{multisig_lock, pay_to_key_hash_lock, Script, ScriptOp};
use utxo_wallet::sighash::{
    build_unlock_script, SIGHASH_ANYONECANPAY, SIGHASH_FORKID, SIGHASH_NONE, SIGHASH_SINGLE,
};
use utxo_wallet::tx::{check_inputs_wf, check_outputs_wf, OutPoint, Transaction, TxInput, TxOutput};

fn trade_key(byte: u8) -> SigningKey {
    SigningKey::from_secret(&[byte; 32]).unwrap()
}

fn key_lock(key: &SigningKey) -> Script {
    pay_to_key_hash_lock(&hash160(&key.public_key()))
}

fn outpoint(index: u32) -> OutPoint {
    OutPoint { txid: [0xbb; 32], index }
}

fn multisig_build(keys: &[&SigningKey], required: u8) -> UnsignedBuild {
    let pubkeys: Vec<Vec<u8>> = keys.iter().map(|k| k.public_key().to_vec()).collect();
    let mut build = UnsignedBuild::new();
    build.add_input(outpoint(0), 10_000, multisig_lock(required, &pubkeys).unwrap());
    build.add_output(TxOutput { value: 9_000, lock_script: pay_to_key_hash_lock(&[3; 20]) });
    build
}

#[test]
fn unlock_script_appends_flags_byte() {
    let script = build_unlock_script(&[0x30, 0x01], 0x41, &[0x02; 33]);
    assert_eq!(
        script,
        Script {
            ops: vec![
                ScriptOp::PushBytes(vec![0x30, 0x01, 0x41]),
                ScriptOp::PushBytes(vec![0x02; 33]),
            ]
        }
    );
}

#[test]
fn dust_test_is_strict() {
    assert!(output_is_dust(545, 546));
    assert!(!output_is_dust(546, 546));
    assert!(!output_is_dust(547, 546));
    assert!(!output_is_dust(0, 0));
}

#[test]
fn wire_format_checks_accept_ordinary_values() {
    let key = trade_key(0x31);
    let build = multisig_build(&[&key], 1);
    assert!(check_inputs_wf(&build.inputs));
    assert!(check_outputs_wf(&build.outputs));
    assert!(check_outputs_wf(&build.prior_outputs));
    let tx = Transaction::new(1, vec![], vec![], 0);
    assert!(tx.is_wf());
    assert!(build.outputs[0].is_wf());
    assert!(build.inputs[0].is_wf());
}

#[test]
fn finalize_with_key_hash_unlock_matches_sign() {
    let key = trade_key(0x31);
    let make = || {
        let mut build = UnsignedBuild::new();
        build.add_input(outpoint(0), 10_000, key_lock(&key));
        build.add_input(outpoint(1), 20_000, key_lock(&key));
        build.add_output(TxOutput { value: 29_000, lock_script: pay_to_key_hash_lock(&[3; 20]) });
        build
    };
    let build = make();
    let mut scripts = Vec::new();
    for i in 0..2 {
        let signature = build.sign_input(i, &key, BUILD_SIGHASH_FLAGS).unwrap();
        assert_eq!(signature[signature.len() - 1], 0x41);
        let der = &signature[..signature.len() - 1];
        scripts.push(build_unlock_script(der, BUILD_SIGHASH_FLAGS, &key.public_key()));
    }
    let finalized = build.finalize(scripts).unwrap();
    let signed = make().sign(&key).unwrap();
    assert_eq!(finalized, signed);
}

#[test]
fn finalize_rejects_wrong_script_count_and_empty_builds() {
    let key = trade_key(0x31);
    let build = multisig_build(&[&key], 1);
    assert_eq!(build.finalize(vec![]).err(), Some(Error::MalformedEncoding));
    let build = multisig_build(&[&key], 1);
    assert_eq!(
        build.finalize(vec![Script::new(), Script::new()]).err(),
        Some(Error::MalformedEncoding)
    );
    assert_eq!(UnsignedBuild::new().finalize(vec![]).err(), Some(Error::MalformedEncoding));
    let mut build = multisig_build(&[&key], 1);
    build.add_output(TxOutput { value: 1_001, lock_script: Script::new() });
    assert_eq!(build.finalize(vec![Script::new()]).err(), Some(Error::InsufficientFunds));
}

#[test]
fn finalize_rejects_scripts_that_do_not_unlock() {
    let key = trade_key(0x31);
    let build = multisig_build(&[&key], 1);
    assert_eq!(build.finalize(vec![Script::new()]).err(), Some(Error::StackUnderflow));
    let build = multisig_build(&[&key], 1);
    let junk = Script { ops: vec![ScriptOp::PushBytes(vec![]), ScriptOp::PushBytes(vec![0x30, 0x41])] };
    assert_eq!(build.finalize(vec![junk]).err(), Some(Error::SignatureInvalid));
}

#[test]
fn two_of_three_multisig_spend() {
    let (a, b, c) = (trade_key(0x41), trade_key(0x42), trade_key(0x43));
    let unlock_with = |build: &UnsignedBuild, signers: &[&SigningKey]| {
        let mut ops = vec![ScriptOp::PushBytes(vec![])];
        for key in signers {
            ops.push(ScriptOp::PushBytes(build.sign_input(0, key, BUILD_SIGHASH_FLAGS).unwrap()));
        }
        Script { ops }
    };
    for signers in [[&a, &b], [&a, &c], [&b, &c]] {
        let build = multisig_build(&[&a, &b, &c], 2);
        let unlock = unlock_with(&build, &signers);
        let spent = build.prior_outputs.clone();
        let tx = build.finalize(vec![unlock]).unwrap();
        assert_eq!(validate_transaction(&tx, &spent), Ok(()));
    }
    let build = multisig_build(&[&a, &b, &c], 2);
    let unlock = unlock_with(&build, &[&c, &a]);
    assert_eq!(build.finalize(vec![unlock]).err(), Some(Error::SignatureInvalid));
    let build = multisig_build(&[&a, &b, &c], 2);
    let unlock = unlock_with(&build, &[&a, &a]);
    assert_eq!(build.finalize(vec![unlock]).err(), Some(Error::SignatureInvalid));
    let build = multisig_build(&[&a, &b, &c], 2);
    let unlock = unlock_with(&build, &[&a]);
    assert_eq!(build.finalize(vec![unlock]).err(), Some(Error::StackUnderflow));
    let build = multisig_build(&[&a, &b, &c], 2);
    let outsider = trade_key(0x44);
    let unlock = unlock_with(&build, &[&a, &outsider]);
    assert_eq!(build.finalize(vec![unlock]).err(), Some(Error::SignatureInvalid));
}

#[test]
fn multisig_verify_variant_reports_signature() {
    let (a, b) = (trade_key(0x41), trade_key(0x42));
    let lock = |verify_first: bool| Script {
        ops: vec![
            ScriptOp::Opcode(Opcode::Op1),
            ScriptOp::PushBytes(a.public_key().to_vec()),
            ScriptOp::Opcode(Opcode::Op1),
            ScriptOp::Opcode(if verify_first {
                Opcode::OpCheckMultiSigVerify
            } else {
                Opcode::OpCheckMultiSig
            }),
            ScriptOp::Opcode(Opcode::Op1),
        ],
    };
    let make = |script: Script| {
        let mut build = UnsignedBuild::new();
        build.add_input(outpoint(0), 10_000, script);
        build.add_output(TxOutput { value: 9_000, lock_script: Script::new() });
        build
    };
    let build = make(lock(true));
    let good = Script {
        ops: vec![
            ScriptOp::PushBytes(vec![]),
            ScriptOp::PushBytes(build.sign_input(0, &a, BUILD_SIGHASH_FLAGS).unwrap()),
        ],
    };
    assert!(build.finalize(vec![good]).is_ok());
    let build = make(lock(true));
    let bad = Script {
        ops: vec![
            ScriptOp::PushBytes(vec![]),
            ScriptOp::PushBytes(build.sign_input(0, &b, BUILD_SIGHASH_FLAGS).unwrap()),
        ],
    };
    assert_eq!(build.finalize(vec![bad]).err(), Some(Error::SignatureInvalid));
}

#[test]
fn anyone_can_pay_signature_survives_added_inputs() {
    let key = trade_key(0x51);
    let other = trade_key(0x52);
    let flags = SIGHASH_SINGLE | SIGHASH_FORKID | SIGHASH_ANYONECANPAY;
    let mut build = UnsignedBuild::new();
    build.add_input(outpoint(0), 10_000, key_lock(&key));
    build.add_output(TxOutput { value: 9_000, lock_script: pay_to_key_hash_lock(&[3; 20]) });
    let early = build.sign_input(0, &key, flags).unwrap();
    assert_eq!(early[early.len() - 1], 0xc3);
    build.add_input(outpoint(1), 5_000, key_lock(&other));
    build.add_output(TxOutput { value: 4_000, lock_script: pay_to_key_hash_lock(&[4; 20]) });
    let late = build.sign_input(1, &other, BUILD_SIGHASH_FLAGS).unwrap();
    let scripts = vec![
        build_unlock_script(&early[..early.len() - 1], flags, &key.public_key()),
        build_unlock_script(&late[..late.len() - 1], BUILD_SIGHASH_FLAGS, &other.public_key()),
    ];
    assert!(build.finalize(scripts).is_ok());
}

#[test]
fn covering_signature_does_not_survive_added_outputs() {
    let key = trade_key(0x51);
    let mut build = UnsignedBuild::new();
    build.add_input(outpoint(0), 10_000, key_lock(&key));
    build.add_output(TxOutput { value: 5_000, lock_script: pay_to_key_hash_lock(&[3; 20]) });
    let all = build.sign_input(0, &key, BUILD_SIGHASH_FLAGS).unwrap();
    let none = build.sign_input(0, &key, SIGHASH_NONE | SIGHASH_FORKID).unwrap();
    build.add_output(TxOutput { value: 4_000, lock_script: pay_to_key_hash_lock(&[4; 20]) });
    let spent = build.prior_outputs.clone();
    let with = |signature: &Vec<u8>| TxInput {
        previous_output: outpoint(0),
        unlock_script: Script {
            ops: vec![
                ScriptOp::PushBytes(signature.clone()),
                ScriptOp::PushBytes(key.public_key().to_vec()),
            ],
        },
        sequence: 0xffff_ffff,
    };
    let tx = Transaction::new(1, vec![with(&all)], build.outputs.clone(), 0);
    assert_eq!(validate_transaction(&tx, &spent), Err(Error::SignatureInvalid));
    let tx = Transaction::new(1, vec![with(&none)], build.outputs.clone(), 0);
    assert_eq!(validate_transaction(&tx, &spent), Ok(()));
}

#[test]
fn signature_without_fork_marker_is_rejected() {
    let key = trade_key(0x51);
    let mut build = UnsignedBuild::new();
    build.add_input(outpoint(0), 10_000, key_lock(&key));
    build.add_output(TxOutput { value: 5_000, lock_script: pay_to_key_hash_lock(&[3; 20]) });
    let legacy = build.sign_input(0, &key, 0x01).unwrap();
    let unlock = build_unlock_script(&legacy[..legacy.len() - 1], 0x01, &key.public_key());
    assert_eq!(build.finalize(vec![unlock]).err(), Some(Error::SignatureInvalid));
}

#[test]
fn conditional_script_with_hash_lock_and_refund_branch() {
    let (taker, maker) = (trade_key(0x61), trade_key(0x62));
    let secret = b"swap secret".to_vec();
    let lock = Script {
        ops: vec![
            ScriptOp::Opcode(Opcode::OpIf),
            ScriptOp::Opcode(Opcode::OpHash160),
            ScriptOp::PushBytes(hash160(&secret).to_vec()),
            ScriptOp::Opcode(Opcode::OpEqualVerify),
            ScriptOp::PushBytes(taker.public_key().to_vec()),
            ScriptOp::Opcode(Opcode::OpElse),
            ScriptOp::PushBytes(maker.public_key().to_vec()),
            ScriptOp::Opcode(Opcode::OpEndIf),
            ScriptOp::Opcode(Opcode::OpCheckSig),
        ],
    };
    let make = || {
        let mut build = UnsignedBuild::new();
        build.add_input(outpoint(0), 10_000, lock.clone());
        build.add_output(TxOutput { value: 9_000, lock_script: Script::new() });
        build
    };
    let build = make();
    let claim = Script {
        ops: vec![
            ScriptOp::PushBytes(build.sign_input(0, &taker, BUILD_SIGHASH_FLAGS).unwrap()),
            ScriptOp::PushBytes(secret.clone()),
            ScriptOp::Opcode(Opcode::Op1),
        ],
    };
    assert!(build.finalize(vec![claim]).is_ok());
    let build = make();
    let refund = Script {
        ops: vec![
            ScriptOp::PushBytes(build.sign_input(0, &maker, BUILD_SIGHASH_FLAGS).unwrap()),
            ScriptOp::PushBytes(vec![]),
        ],
    };
    assert!(build.finalize(vec![refund]).is_ok());
    let build = make();
    let wrong_secret = Script {
        ops: vec![
            ScriptOp::PushBytes(build.sign_input(0, &taker, BUILD_SIGHASH_FLAGS).unwrap()),
            ScriptOp::PushBytes(b"guess".to_vec()),
            ScriptOp::Opcode(Opcode::Op1),
        ],
    };
    assert_eq!(build.finalize(vec![wrong_secret]).err(), Some(Error::ScriptEvaluationFailed));
    let build = make();
    let wrong_branch = Script {
        ops: vec![
            ScriptOp::PushBytes(build.sign_input(0, &taker, BUILD_SIGHASH_FLAGS).unwrap()),
            ScriptOp::PushBytes(vec![]),
        ],
    };
    assert_eq!(build.finalize(vec![wrong_branch]).err(), Some(Error::SignatureInvalid));
}
