use utxo_wallet::address::{address_for, locking_script_for, Address, AddressType};
use utxo_wallet::builder::{UnsignedBuild, BUILD_SIGHASH_FLAGS};
use utxo_wallet::error::Error;
use utxo_wallet::hash::hash160;
use utxo_wallet::interpreter::{is_valid, validate_transaction, verify_input};
use utxo_wallet::keys::SigningKey;
use utxo_wallet::payment::{parse_send_amount, plan_change, FEE_MARGIN};
use utxo_wallet::script::{multisig_lock, pay_to_key_hash_lock, Script, ScriptOp};
use utxo_wallet::sighash::sighash_preimage;
use utxo_wallet::tx::{OutPoint, Transaction, TxInput, TxOutput};

const DUST: u64 = 546;

fn key_of(byte: u8) -> SigningKey {
    SigningKey::from_secret(&[byte; 32]).unwrap()
}

fn lock_for(key: &SigningKey) -> Script {
    pay_to_key_hash_lock(&hash160(&key.public_key()))
}

fn funded_build(key: &SigningKey, values: &[u64]) -> UnsignedBuild {
    let mut build = UnsignedBuild::new();
    for (i, value) in values.iter().enumerate() {
        build.add_input(OutPoint { txid: [0xaa; 32], index: i as u32 }, *value, lock_for(key));
    }
    build
}

#[test]
fn secret_key_validation() {
    assert!(SigningKey::from_secret(&[1; 32]).is_some());
    assert!(SigningKey::from_secret(&[0; 32]).is_none());
    assert!(SigningKey::from_secret(&[0xff; 32]).is_none());
    assert!(SigningKey::from_secret(&[1; 31]).is_none());
    assert!(SigningKey::from_secret(&[1; 33]).is_none());
}

#[test]
fn public_key_of_secret_one() {
    let mut secret = [0u8; 32];
    secret[31] = 1;
    let key = SigningKey::from_secret(&secret).unwrap();
    let expected = [
        0x02, 0x79, 0xbe, 0x66, 0x7e, 0xf9, 0xdc, 0xbb, 0xac, 0x55, 0xa0, 0x62, 0x95, 0xce, 0x87,
        0x0b, 0x07, 0x02, 0x9b, 0xfc, 0xdb, 0x2d, 0xce, 0x28, 0xd9, 0x59, 0xf2, 0x81, 0x5b, 0x16,
        0xf8, 0x17, 0x98,
    ];
    assert_eq!(key.public_key(), expected);
    assert_eq!(
        hash160(&key.public_key()),
        [
            0x75, 0x1e, 0x76, 0xe8, 0x19, 0x91, 0x96, 0xd4, 0x54, 0x94, 0x1c, 0x45, 0xd1, 0xb3,
            0xa3, 0x23, 0xf1, 0x43, 0x3b, 0xd6
        ]
    );
}

#[test]
fn signing_is_deterministic_and_depends_on_the_message() {
    let key = key_of(0x11);
    let first = key.sign(b"preimage").unwrap();
    let second = key.sign(b"preimage").unwrap();
    let other = key.sign(b"another preimage").unwrap();
    assert_eq!(first, second);
    assert_ne!(first, other);
    assert!(first.len() <= 72);
    assert_eq!(first[0], 0x30);
    assert_ne!(key_of(0x12).sign(b"preimage").unwrap(), first);
}

#[test]
fn change_plan_formula() {
    assert_eq!(plan_change(100_000, 50_000, 226, 5, DUST), Ok(Some(49_769)));
    assert_eq!(plan_change(100_000, 99_000, 226, 5, DUST), Ok(Some(769)));
    assert_eq!(plan_change(1_000, 0, 0, 0, DUST), Ok(Some(1_000)));
}

#[test]
fn change_at_dust_threshold_is_kept_and_below_is_dropped() {
    assert_eq!(plan_change(100_000, 100_000 - 231 - DUST, 226, 5, DUST), Ok(Some(DUST)));
    assert_eq!(plan_change(100_000, 100_000 - 231 - DUST + 1, 226, 5, DUST), Ok(None));
    assert_eq!(plan_change(100_000, 100_000 - 231, 226, 5, DUST), Ok(None));
    assert_eq!(plan_change(100_000, 100_000 - 231, 226, 5, 0), Ok(Some(0)));
}

#[test]
fn change_plan_insufficient_funds() {
    assert_eq!(plan_change(100_000, 100_000 - 230, 226, 5, DUST), Err(Error::InsufficientFunds));
    assert_eq!(plan_change(0, 1, 0, 0, DUST), Err(Error::InsufficientFunds));
    assert_eq!(plan_change(u64::MAX, u64::MAX, u64::MAX, u64::MAX, DUST), Err(Error::InsufficientFunds));
    assert_eq!(plan_change(u64::MAX, 0, 0, 0, u64::MAX), Ok(Some(u64::MAX)));
}

#[test]
fn send_amount_parsing() {
    assert_eq!(parse_send_amount(b"all", 777), Some(777));
    assert_eq!(parse_send_amount(b"0", 777), Some(0));
    assert_eq!(parse_send_amount(b"50000", 777), Some(50_000));
    assert_eq!(parse_send_amount(b"+12", 777), Some(12));
    assert_eq!(parse_send_amount(b"007", 777), Some(7));
    assert_eq!(parse_send_amount(b"18446744073709551615", 777), Some(u64::MAX));
    assert_eq!(parse_send_amount(b"18446744073709551616", 777), None);
    assert_eq!(parse_send_amount(b"99999999999999999999999", 777), None);
    assert_eq!(parse_send_amount(b"", 777), None);
    assert_eq!(parse_send_amount(b"+", 777), None);
    assert_eq!(parse_send_amount(b"-1", 777), None);
    assert_eq!(parse_send_amount(b"12a", 777), None);
    assert_eq!(parse_send_amount(b"ALL", 777), None);
    assert_eq!(parse_send_amount(b" 1", 777), None);
    assert_eq!(parse_send_amount(b"++1", 777), None);
}

#[test]
fn address_adapter() {
    let address = Address { kind: AddressType::PayToKeyHash, hash: [0x42; 20] };
    let script = locking_script_for(&address).unwrap();
    assert_eq!(script, pay_to_key_hash_lock(&[0x42; 20]));
    assert_eq!(address_for(&script), Some(address));
    let other = Address { kind: AddressType::PayToScriptHash, hash: [0x42; 20] };
    assert_eq!(locking_script_for(&other), Err(Error::UnsupportedAddressType));
    assert_eq!(address_for(&Script::new()), None);
    let keys = vec![vec![2u8; 33]];
    assert_eq!(address_for(&multisig_lock(1, &keys).unwrap()), None);
}

#[test]
fn build_output_list_editing() {
    let key = key_of(0x11);
    let mut build = funded_build(&key, &[1_000]);
    let out = |value: u64| TxOutput { value, lock_script: Script::new() };
    assert_eq!(build.add_output(out(1)), 0);
    assert_eq!(build.add_output(out(2)), 1);
    assert_eq!(build.add_output(out(3)), 2);
    build.remove_output(1);
    assert_eq!(build.outputs.iter().map(|o| o.value).collect::<Vec<_>>(), vec![1, 3]);
    build.replace_output(0, out(9));
    assert_eq!(build.outputs.iter().map(|o| o.value).collect::<Vec<_>>(), vec![9, 3]);
    assert_eq!(build.output_total(), 12);
    assert_eq!(build.input_total(), 1_000);
    assert_eq!(build.balance(), Some(1_000));
    assert_eq!(build.inputs[0].sequence, 0xffff_ffff);
    assert_eq!(build.inputs[0].unlock_script.len(), 0);
}

#[test]
fn balance_overflow_is_reported() {
    let key = key_of(0x11);
    let build = funded_build(&key, &[u64::MAX, 1]);
    assert_eq!(build.balance(), None);
    assert_eq!(build.input_total(), u64::MAX as u128 + 1);
}

#[test]
fn estimate_for_one_input_two_key_hash_outputs() {
    let key = key_of(0x11);
    let mut build = funded_build(&key, &[100_000]);
    assert_eq!(build.estimate_size(), 4 + 1 + 148 + 1 + 4);
    build.add_output(TxOutput { value: 1, lock_script: pay_to_key_hash_lock(&[1; 20]) });
    assert_eq!(build.estimate_size(), 192);
    build.add_output(TxOutput { value: 0, lock_script: pay_to_key_hash_lock(&[2; 20]) });
    assert_eq!(build.estimate_size(), 226);
}

#[test]
fn estimate_is_never_below_signed_size() {
    let key = key_of(0x23);
    for inputs in 1..6usize {
        let mut build = funded_build(&key, &vec![10_000; inputs]);
        build.add_output(TxOutput { value: 5_000, lock_script: pay_to_key_hash_lock(&[1; 20]) });
        build.add_output(TxOutput { value: 100, lock_script: Script { ops: vec![ScriptOp::PushBytes(vec![7; 300])] } });
        let estimate = build.estimate_size();
        let tx = build.sign(&key).unwrap();
        assert!(tx.to_bytes().len() as u64 <= estimate);
        assert!(tx.to_bytes().len() as u64 + 2 * inputs as u64 >= estimate);
    }
}

#[test]
fn end_to_end_payment_with_change() {
    let key = key_of(0x11);
    let recipient = Address { kind: AddressType::PayToKeyHash, hash: [0x77; 20] };
    let mut build = funded_build(&key, &[100_000]);
    let balance = build.balance().unwrap();
    assert_eq!(balance, 100_000);
    let change = build.add_payment(
        balance,
        50_000,
        locking_script_for(&recipient).unwrap(),
        lock_for(&key),
        FEE_MARGIN,
        DUST,
    );
    assert_eq!(change, Ok(Some(49_769)));
    assert_eq!(build.estimate_size(), 226);
    assert_eq!(build.outputs.len(), 2);
    assert_eq!(build.outputs[0].value, 50_000);
    assert_eq!(build.outputs[0].lock_script, pay_to_key_hash_lock(&[0x77; 20]));
    assert_eq!(build.outputs[1].value, 49_769);
    assert_eq!(build.outputs[1].lock_script, lock_for(&key));
    let spent = build.prior_outputs.clone();
    let tx = build.sign(&key).unwrap();
    assert_eq!(tx.inputs().len(), 1);
    assert_eq!(tx.outputs().len(), 2);
    assert_eq!(validate_transaction(&tx, &spent), Ok(()));
    assert_eq!(verify_input(&tx, 0, &spent[0]), Ok(()));
    assert!(is_valid(&tx, &spent));
    assert_eq!(validate_transaction(&tx, &spent), Ok(()));
    assert!(tx.to_bytes().len() <= 226);
    let decoded = Transaction::from_bytes(&tx.to_bytes()).unwrap();
    assert_eq!(decoded, tx);
    assert_eq!(validate_transaction(&decoded, &spent), Ok(()));
}

#[test]
fn payment_with_dust_change_omits_change_output() {
    let key = key_of(0x11);
    let mut build = funded_build(&key, &[100_000]);
    let change = build.add_payment(
        100_000,
        100_000 - 231 - 545,
        pay_to_key_hash_lock(&[0x77; 20]),
        lock_for(&key),
        FEE_MARGIN,
        DUST,
    );
    assert_eq!(change, Ok(None));
    assert_eq!(build.outputs.len(), 1);
    assert_eq!(build.outputs[0].value, 100_000 - 231 - 545);
    let spent = build.prior_outputs.clone();
    let tx = build.sign(&key).unwrap();
    assert_eq!(validate_transaction(&tx, &spent), Ok(()));
}

#[test]
fn payment_at_dust_threshold_keeps_change_output() {
    let key = key_of(0x11);
    let mut build = funded_build(&key, &[100_000]);
    let change = build.add_payment(
        100_000,
        100_000 - 231 - DUST,
        pay_to_key_hash_lock(&[0x77; 20]),
        lock_for(&key),
        FEE_MARGIN,
        DUST,
    );
    assert_eq!(change, Ok(Some(DUST)));
    assert_eq!(build.outputs.len(), 2);
    assert_eq!(build.outputs[1].value, DUST);
}

#[test]
fn payment_beyond_balance_leaves_build_unchanged() {
    let key = key_of(0x11);
    let mut build = funded_build(&key, &[100_000]);
    build.add_output(TxOutput { value: 3, lock_script: Script::new() });
    let r = build.add_payment(
        100_000,
        99_900,
        pay_to_key_hash_lock(&[0x77; 20]),
        lock_for(&key),
        FEE_MARGIN,
        DUST,
    );
    assert_eq!(r, Err(Error::InsufficientFunds));
    assert_eq!(build.outputs.len(), 1);
    assert_eq!(build.outputs[0].value, 3);
}

#[test]
fn sign_rejects_empty_and_overdrawn_builds() {
    let key = key_of(0x11);
    let build = UnsignedBuild::new();
    assert_eq!(build.sign(&key).err(), Some(Error::MalformedEncoding));
    let build = funded_build(&key, &[1_000]);
    assert_eq!(build.sign(&key).err(), Some(Error::MalformedEncoding));
    let mut build = UnsignedBuild::new();
    build.add_output(TxOutput { value: 1, lock_script: Script::new() });
    assert_eq!(build.sign(&key).err(), Some(Error::MalformedEncoding));
    let mut build = funded_build(&key, &[1_000, 500]);
    build.add_output(TxOutput { value: 1_501, lock_script: Script::new() });
    assert_eq!(build.sign(&key).err(), Some(Error::InsufficientFunds));
    let mut build = funded_build(&key, &[1_000, 500]);
    build.add_output(TxOutput { value: 1_500, lock_script: Script::new() });
    assert!(build.sign(&key).is_ok());
}

#[test]
fn signed_inputs_carry_signature_with_flags_and_public_key() {
    let key = key_of(0x11);
    let mut build = funded_build(&key, &[1_000, 2_000]);
    build.add_output(TxOutput { value: 2_500, lock_script: pay_to_key_hash_lock(&[5; 20]) });
    let spent = build.prior_outputs.clone();
    let tx = build.sign(&key).unwrap();
    for (i, input) in tx.inputs().iter().enumerate() {
        assert_eq!(input.previous_output, OutPoint { txid: [0xaa; 32], index: i as u32 });
        assert_eq!(input.sequence, 0xffff_ffff);
        assert_eq!(input.unlock_script.len(), 2);
        let preimage = sighash_preimage(&tx, i, &spent[i].lock_script, spent[i].value, BUILD_SIGHASH_FLAGS);
        let mut expected = key.sign(&preimage).unwrap();
        expected.push(0x41);
        assert_eq!(input.unlock_script.ops[0], ScriptOp::PushBytes(expected));
        assert_eq!(input.unlock_script.ops[1], ScriptOp::PushBytes(key.public_key().to_vec()));
    }
    assert_eq!(validate_transaction(&tx, &spent), Ok(()));
}

#[test]
fn validation_against_another_keys_lock_fails() {
    let key = key_of(0x11);
    let other = key_of(0x12);
    let mut build = funded_build(&key, &[1_000]);
    build.add_output(TxOutput { value: 900, lock_script: pay_to_key_hash_lock(&[5; 20]) });
    let tx = build.sign(&key).unwrap();
    let wrong = vec![TxOutput { value: 1_000, lock_script: lock_for(&other) }];
    assert_eq!(validate_transaction(&tx, &wrong), Err(Error::ScriptEvaluationFailed));
    assert!(!is_valid(&tx, &wrong));
}

#[test]
fn validation_detects_changed_prior_value() {
    let key = key_of(0x11);
    let mut build = funded_build(&key, &[1_000]);
    build.add_output(TxOutput { value: 900, lock_script: pay_to_key_hash_lock(&[5; 20]) });
    let tx = build.sign(&key).unwrap();
    let wrong = vec![TxOutput { value: 1_001, lock_script: lock_for(&key) }];
    assert_eq!(validate_transaction(&tx, &wrong), Err(Error::SignatureInvalid));
}

#[test]
fn validation_detects_changed_outputs() {
    let key = key_of(0x11);
    let mut build = funded_build(&key, &[1_000]);
    build.add_output(TxOutput { value: 900, lock_script: pay_to_key_hash_lock(&[5; 20]) });
    let spent = build.prior_outputs.clone();
    let tx = build.sign(&key).unwrap();
    let tampered = Transaction::new(
        tx.version(),
        tx.inputs().clone(),
        vec![TxOutput { value: 900, lock_script: pay_to_key_hash_lock(&[6; 20]) }],
        tx.lock_time(),
    );
    assert_eq!(validate_transaction(&tampered, &spent), Err(Error::SignatureInvalid));
    let tampered = Transaction::new(
        tx.version(),
        tx.inputs().clone(),
        vec![TxOutput { value: 901, lock_script: pay_to_key_hash_lock(&[5; 20]) }],
        tx.lock_time(),
    );
    assert_eq!(validate_transaction(&tampered, &spent), Err(Error::SignatureInvalid));
}

#[test]
fn validation_needs_one_spent_output_per_input() {
    let key = key_of(0x11);
    let mut build = funded_build(&key, &[1_000]);
    build.add_output(TxOutput { value: 900, lock_script: pay_to_key_hash_lock(&[5; 20]) });
    let spent = build.prior_outputs.clone();
    let tx = build.sign(&key).unwrap();
    assert_eq!(validate_transaction(&tx, &vec![]), Err(Error::MalformedScript));
    let mut two = spent.clone();
    two.push(spent[0].clone());
    assert_eq!(validate_transaction(&tx, &two), Err(Error::MalformedScript));
}

#[test]
fn unsigned_input_does_not_validate() {
    let key = key_of(0x11);
    let tx = Transaction::new(
        1,
        vec![TxInput {
            previous_output: OutPoint { txid: [0xaa; 32], index: 0 },
            unlock_script: Script::new(),
            sequence: 0xffff_ffff,
        }],
        vec![TxOutput { value: 1, lock_script: Script::new() }],
        0,
    );
    let spent = vec![TxOutput { value: 1_000, lock_script: lock_for(&key) }];
    assert_eq!(validate_transaction(&tx, &spent), Err(Error::StackUnderflow));
}

#[test]
fn pay_builds_signs_and_validates() {
    let key = key_of(0x11);
    let own = Address { kind: AddressType::PayToKeyHash, hash: hash160(&key.public_key()) };
    let recipient = Address { kind: AddressType::PayToKeyHash, hash: [0x77; 20] };
    let build = funded_build(&key, &[100_000]);
    let spent = build.prior_outputs.clone();
    let tx = build.pay(&key, 100_000, 50_000, &recipient, &own, 5, DUST).unwrap();
    assert_eq!(tx.outputs().len(), 2);
    assert_eq!(tx.outputs()[0].value, 50_000);
    assert_eq!(tx.outputs()[0].lock_script, pay_to_key_hash_lock(&[0x77; 20]));
    assert_eq!(tx.outputs()[1].value, 100_000 - 50_000 - 226 - 5);
    assert_eq!(tx.outputs()[1].lock_script, lock_for(&key));
    assert_eq!(validate_transaction(&tx, &spent), Ok(()));
}

#[test]
fn pay_reports_each_failure() {
    let key = key_of(0x11);
    let own = Address { kind: AddressType::PayToKeyHash, hash: hash160(&key.public_key()) };
    let script_hash = Address { kind: AddressType::PayToScriptHash, hash: [0x77; 20] };
    let recipient = Address { kind: AddressType::PayToKeyHash, hash: [0x77; 20] };
    let make = || funded_build(&key, &[100_000]);
    assert_eq!(
        make().pay(&key, 100_000, 50_000, &script_hash, &own, 5, DUST).err(),
        Some(Error::UnsupportedAddressType)
    );
    assert_eq!(
        make().pay(&key, 100_000, 50_000, &recipient, &script_hash, 5, DUST).err(),
        Some(Error::UnsupportedAddressType)
    );
    assert_eq!(
        make().pay(&key, 100_000, 100_000, &recipient, &own, 5, DUST).err(),
        Some(Error::InsufficientFunds)
    );
    assert_eq!(
        make().pay(&key, 200_000, 150_000, &recipient, &own, 5, DUST).err(),
        Some(Error::InsufficientFunds)
    );
    assert_eq!(
        UnsignedBuild::new().pay(&key, 100_000, 50_000, &recipient, &own, 5, DUST).err(),
        Some(Error::MalformedEncoding)
    );
    let tx = make().pay(&key, 100_000, 100_000 - 231, &recipient, &own, 5, DUST).unwrap();
    assert_eq!(tx.outputs().len(), 1);
}
