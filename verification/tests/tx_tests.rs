use utxo_wallet::error::Error;
use utxo_wallet::hash::double_hash;
use utxo_wallet::opcode::Opcode;
use utxo_wallet::script::{pay_to_key_hash_lock, Script, ScriptOp};
use utxo_wallet::sighash::{
    sighash_preimage, SIGHASH_ALL, SIGHASH_ANYONECANPAY, SIGHASH_FORKID, SIGHASH_NONE,
    SIGHASH_SINGLE,
};
use utxo_wallet::tx::{OutPoint, Transaction, TxInput, TxOutput, SEQUENCE_FINAL};

fn sample_tx() -> Transaction {
    let input = TxInput {
        previous_output: OutPoint { txid: [0xaa; 32], index: 3 },
        unlock_script: Script {
            ops: vec![ScriptOp::PushBytes(vec![1, 2, 3]), ScriptOp::Opcode(Opcode::OpDrop)],
        },
        sequence: 0xffff_fffe,
    };
    let output_a = TxOutput { value: 50_000, lock_script: pay_to_key_hash_lock(&[0x11; 20]) };
    let output_b = TxOutput { value: 1, lock_script: Script::new() };
    Transaction::new(2, vec![input], vec![output_a, output_b], 500_000)
}

fn sample_tx_bytes() -> Vec<u8> {
    let mut bytes = vec![2, 0, 0, 0];
    bytes.push(1);
    bytes.extend_from_slice(&[0xaa; 32]);
    bytes.extend_from_slice(&[3, 0, 0, 0]);
    bytes.extend_from_slice(&[5, 3, 1, 2, 3, 0x75]);
    bytes.extend_from_slice(&[0xfe, 0xff, 0xff, 0xff]);
    bytes.push(2);
    bytes.extend_from_slice(&[0x50, 0xc3, 0, 0, 0, 0, 0, 0]);
    bytes.push(25);
    bytes.extend_from_slice(&[0x76, 0xa9, 0x14]);
    bytes.extend_from_slice(&[0x11; 20]);
    bytes.extend_from_slice(&[0x88, 0xac]);
    bytes.extend_from_slice(&[1, 0, 0, 0, 0, 0, 0, 0]);
    bytes.push(0);
    bytes.extend_from_slice(&[0x20, 0xa1, 0x07, 0x00]);
    bytes
}

#[test]
fn transaction_serializes_field_by_field() {
    assert_eq!(sample_tx().to_bytes(), sample_tx_bytes());
}

#[test]
fn transaction_round_trips() {
    let tx = sample_tx();
    let bytes = tx.to_bytes();
    assert_eq!(Transaction::from_bytes(&bytes), Ok(sample_tx()));
    let mut with_tail = bytes.clone();
    with_tail.push(0);
    let (decoded, used) = Transaction::decode(&with_tail).unwrap();
    assert_eq!(decoded, tx);
    assert_eq!(used, bytes.len());
}

#[test]
fn transaction_from_bytes_rejects_trailing_bytes() {
    let mut bytes = sample_tx_bytes();
    bytes.push(0);
    assert_eq!(Transaction::from_bytes(&bytes), Err(Error::MalformedEncoding));
}

#[test]
fn transaction_decode_rejects_every_truncation() {
    let bytes = sample_tx_bytes();
    for cut in 0..bytes.len() {
        assert_eq!(Transaction::decode(&bytes[..cut]).err(), Some(Error::MalformedEncoding));
    }
}

#[test]
fn transaction_decode_rejects_non_canonical_count() {
    let mut bytes = vec![2, 0, 0, 0];
    bytes.extend_from_slice(&[0xfd, 0x01, 0x00]);
    bytes.extend_from_slice(&[0xaa; 32]);
    bytes.extend_from_slice(&[3, 0, 0, 0, 0, 0xff, 0xff, 0xff, 0xff, 0, 0, 0, 0, 0]);
    assert_eq!(Transaction::decode(&bytes).err(), Some(Error::MalformedEncoding));
}

#[test]
fn transaction_accessors() {
    let tx = sample_tx();
    assert_eq!(tx.version(), 2);
    assert_eq!(tx.lock_time(), 500_000);
    assert_eq!(tx.inputs().len(), 1);
    assert_eq!(tx.outputs().len(), 2);
    assert_eq!(tx.inputs()[0].previous_output.index, 3);
    assert_eq!(tx.outputs()[0].value, 50_000);
}

#[test]
fn txid_is_double_hash_of_serialization() {
    let tx = sample_tx();
    assert_eq!(tx.txid(), double_hash(&tx.to_bytes()));
    let other = Transaction::new(2, vec![], vec![], 0);
    assert_ne!(tx.txid(), other.txid());
    assert_eq!(other.to_bytes(), vec![2, 0, 0, 0, 0, 0, 0, 0, 0, 0]);
}

#[test]
fn negative_version_round_trips() {
    let tx = Transaction::new(-5, vec![], vec![], 7);
    let bytes = tx.to_bytes();
    assert_eq!(&bytes[..4], &[0xfb, 0xff, 0xff, 0xff]);
    assert_eq!(Transaction::from_bytes(&bytes).unwrap().version(), -5);
}

fn two_input_tx() -> Transaction {
    let input = |index: u32, sequence: u32| TxInput {
        previous_output: OutPoint { txid: [index as u8 + 1; 32], index },
        unlock_script: Script::new(),
        sequence,
    };
    Transaction::new(
        1,
        vec![input(0, SEQUENCE_FINAL), input(1, 5)],
        vec![
            TxOutput { value: 10, lock_script: pay_to_key_hash_lock(&[1; 20]) },
            TxOutput { value: 20, lock_script: pay_to_key_hash_lock(&[2; 20]) },
        ],
        9,
    )
}

#[test]
fn preimage_layout_for_all_forkid() {
    let tx = two_input_tx();
    let prior = pay_to_key_hash_lock(&[9; 20]);
    let flags = SIGHASH_ALL | SIGHASH_FORKID;
    let preimage = sighash_preimage(&tx, 1, &prior, 12_345, flags);
    assert_eq!(preimage.len(), 4 + 32 + 32 + 36 + 26 + 8 + 4 + 32 + 4 + 4);
    assert_eq!(&preimage[..4], &[1, 0, 0, 0]);
    let mut prevouts = Vec::new();
    prevouts.extend_from_slice(&[1; 32]);
    prevouts.extend_from_slice(&[0, 0, 0, 0]);
    prevouts.extend_from_slice(&[2; 32]);
    prevouts.extend_from_slice(&[1, 0, 0, 0]);
    assert_eq!(&preimage[4..36], &double_hash(&prevouts));
    assert_eq!(&preimage[36..68], &double_hash(&[0xff, 0xff, 0xff, 0xff, 5, 0, 0, 0]));
    assert_eq!(&preimage[68..100], &[2; 32]);
    assert_eq!(&preimage[100..104], &[1, 0, 0, 0]);
    assert_eq!(preimage[104], 25);
    assert_eq!(&preimage[105..130], &prior.to_bytes()[..]);
    assert_eq!(&preimage[130..138], &[0x39, 0x30, 0, 0, 0, 0, 0, 0]);
    assert_eq!(&preimage[138..142], &[5, 0, 0, 0]);
    let mut outputs = Vec::new();
    for output in tx.outputs() {
        outputs.extend_from_slice(&output.value.to_le_bytes());
        let script = output.lock_script.to_bytes();
        outputs.push(script.len() as u8);
        outputs.extend_from_slice(&script);
    }
    assert_eq!(&preimage[142..174], &double_hash(&outputs));
    assert_eq!(&preimage[174..178], &[9, 0, 0, 0]);
    assert_eq!(&preimage[178..182], &[0x41, 0, 0, 0]);
}

#[test]
fn preimage_parts_are_zeroed_by_flags() {
    let tx = two_input_tx();
    let prior = pay_to_key_hash_lock(&[9; 20]);
    let zero = [0u8; 32];
    let acp = sighash_preimage(&tx, 0, &prior, 1, SIGHASH_ALL | SIGHASH_FORKID | SIGHASH_ANYONECANPAY);
    assert_eq!(&acp[4..36], &zero);
    assert_eq!(&acp[36..68], &zero);
    assert_ne!(&acp[142..174], &zero);
    assert_eq!(&acp[178..182], &[0xc1, 0, 0, 0]);
    let none = sighash_preimage(&tx, 0, &prior, 1, SIGHASH_NONE | SIGHASH_FORKID);
    assert_ne!(&none[4..36], &zero);
    assert_eq!(&none[36..68], &zero);
    assert_eq!(&none[142..174], &zero);
    let single = sighash_preimage(&tx, 1, &prior, 1, SIGHASH_SINGLE | SIGHASH_FORKID);
    assert_eq!(&single[36..68], &zero);
    let mut second = Vec::new();
    second.extend_from_slice(&20u64.to_le_bytes());
    second.push(25);
    second.extend_from_slice(&pay_to_key_hash_lock(&[2; 20]).to_bytes());
    assert_eq!(&single[142..174], &double_hash(&second));
}

#[test]
fn preimage_single_without_matching_output_is_zeroed() {
    let input = |index: u32| TxInput {
        previous_output: OutPoint { txid: [7; 32], index },
        unlock_script: Script::new(),
        sequence: SEQUENCE_FINAL,
    };
    let tx = Transaction::new(
        1,
        vec![input(0), input(1)],
        vec![TxOutput { value: 10, lock_script: Script::new() }],
        0,
    );
    let prior = Script::new();
    let single = sighash_preimage(&tx, 1, &prior, 1, SIGHASH_SINGLE | SIGHASH_FORKID);
    assert_eq!(&single[117..149], &[0u8; 32]);
}

#[test]
fn preimage_changes_with_any_output_change() {
    let tx = two_input_tx();
    let prior = pay_to_key_hash_lock(&[9; 20]);
    let flags = SIGHASH_ALL | SIGHASH_FORKID;
    let base = double_hash(&sighash_preimage(&tx, 0, &prior, 1, flags));
    let changed_value = Transaction::new(
        1,
        tx.inputs().clone(),
        vec![
            TxOutput { value: 11, lock_script: pay_to_key_hash_lock(&[1; 20]) },
            TxOutput { value: 20, lock_script: pay_to_key_hash_lock(&[2; 20]) },
        ],
        9,
    );
    let changed_script = Transaction::new(
        1,
        tx.inputs().clone(),
        vec![
            TxOutput { value: 10, lock_script: pay_to_key_hash_lock(&[1; 20]) },
            TxOutput { value: 20, lock_script: pay_to_key_hash_lock(&[3; 20]) },
        ],
        9,
    );
    assert_ne!(double_hash(&sighash_preimage(&changed_value, 0, &prior, 1, flags)), base);
    assert_ne!(double_hash(&sighash_preimage(&changed_script, 0, &prior, 1, flags)), base);
    let same = two_input_tx();
    assert_eq!(double_hash(&sighash_preimage(&same, 0, &prior, 1, flags)), base);
    assert_ne!(double_hash(&sighash_preimage(&tx, 0, &prior, 2, flags)), base);
}
