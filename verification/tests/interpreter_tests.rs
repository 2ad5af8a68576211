use utxo_wallet::error::Error;
use utxo_wallet::hash::{double_hash, hash160};
use utxo_wallet::interpreter::{evaluate, ExecutionContext, Machine};
use utxo_wallet::number::{decode_num, encode_num, is_truthy};
use utxo_wallet::opcode::Opcode;
use utxo_wallet::script::{Script, ScriptOp};
use utxo_wallet::tx::{OutPoint, Transaction, TxInput, TxOutput, SEQUENCE_FINAL};

fn dummy_tx() -> Transaction {
    Transaction::new(
        1,
        vec![TxInput {
            previous_output: OutPoint { txid: [1; 32], index: 0 },
            unlock_script: Script::new(),
            sequence: SEQUENCE_FINAL,
        }],
        vec![TxOutput { value: 1, lock_script: Script::new() }],
        0,
    )
}

fn push(data: &[u8]) -> ScriptOp {
    ScriptOp::PushBytes(data.to_vec())
}

fn op(code: Opcode) -> ScriptOp {
    ScriptOp::Opcode(code)
}

fn num(v: i64) -> ScriptOp {
    ScriptOp::PushBytes(encode_num(v))
}

fn eval(ops: Vec<ScriptOp>) -> Result<(), Error> {
    let tx = dummy_tx();
    let prior = TxOutput { value: 1, lock_script: Script::new() };
    let ctx = ExecutionContext::new(&tx, 0, &prior).unwrap();
    evaluate(&Script::new(), &Script { ops }, &ctx)
}

fn final_stack(ops: Vec<ScriptOp>) -> Result<Vec<Vec<u8>>, Error> {
    let tx = dummy_tx();
    let prior = TxOutput { value: 1, lock_script: Script::new() };
    let ctx = ExecutionContext::new(&tx, 0, &prior).unwrap();
    let mut machine = Machine::new();
    machine.run(&Script { ops }, &ctx)?;
    Ok(machine.stack)
}

#[test]
fn number_encoding_is_minimal_sign_magnitude() {
    assert_eq!(encode_num(0), Vec::<u8>::new());
    assert_eq!(encode_num(1), vec![0x01]);
    assert_eq!(encode_num(-1), vec![0x81]);
    assert_eq!(encode_num(127), vec![0x7f]);
    assert_eq!(encode_num(128), vec![0x80, 0x00]);
    assert_eq!(encode_num(-128), vec![0x80, 0x80]);
    assert_eq!(encode_num(255), vec![0xff, 0x00]);
    assert_eq!(encode_num(256), vec![0x00, 0x01]);
    assert_eq!(encode_num(-32768), vec![0x00, 0x80, 0x80]);
    assert_eq!(encode_num(0x7fff_ffff), vec![0xff, 0xff, 0xff, 0x7f]);
    assert_eq!(encode_num(-0x7fff_ffff), vec![0xff, 0xff, 0xff, 0xff]);
    assert_eq!(encode_num(0x8000_0000), vec![0x00, 0x00, 0x00, 0x80, 0x00]);
}

#[test]
fn number_decoding_round_trips_and_checks_width() {
    for v in [0i64, 1, -1, 127, -127, 128, -128, 255, 256, 65535, -65536, 0x7fff_ffff, -0x7fff_ffff] {
        assert_eq!(decode_num(&encode_num(v)), Ok(v));
    }
    assert_eq!(decode_num(&[0, 0, 0, 0x80, 0]), Err(Error::ScriptEvaluationFailed));
    assert_eq!(decode_num(&[1, 0]), Err(Error::PushNonMinimalData));
    assert_eq!(decode_num(&[0x80]), Err(Error::PushNonMinimalData));
    assert_eq!(decode_num(&[0x00]), Err(Error::PushNonMinimalData));
    assert_eq!(decode_num(&[0xff, 0x80]), Ok(-255));
}

#[test]
fn truthiness_of_items() {
    assert!(!is_truthy(&[]));
    assert!(!is_truthy(&[0]));
    assert!(!is_truthy(&[0, 0, 0]));
    assert!(!is_truthy(&[0x80]));
    assert!(!is_truthy(&[0, 0, 0x80]));
    assert!(is_truthy(&[1]));
    assert!(is_truthy(&[0x80, 0]));
    assert!(is_truthy(&[0, 1, 0x80]));
}

#[test]
fn one_true_item_is_success() {
    assert_eq!(eval(vec![op(Opcode::Op1)]), Ok(()));
    assert_eq!(eval(vec![push(&[5])]), Ok(()));
}

#[test]
fn final_stack_check_failures() {
    assert_eq!(eval(vec![]), Err(Error::ScriptEvaluationFailed));
    assert_eq!(eval(vec![push(&[])]), Err(Error::ScriptEvaluationFailed));
    assert_eq!(eval(vec![op(Opcode::Op1), op(Opcode::Op1)]), Err(Error::ScriptEvaluationFailed));
    assert_eq!(eval(vec![push(&[0x80])]), Err(Error::ScriptEvaluationFailed));
}

#[test]
fn non_minimal_operand_fails_arithmetic() {
    assert_eq!(
        eval(vec![push(&[0x01, 0x00]), op(Opcode::Op1Add)]),
        Err(Error::PushNonMinimalData)
    );
    assert_eq!(
        eval(vec![push(&[0x01, 0x00]), op(Opcode::Op1), op(Opcode::OpAdd)]),
        Err(Error::PushNonMinimalData)
    );
    assert_eq!(
        eval(vec![op(Opcode::Op1), push(&[0x00]), op(Opcode::OpNumEqual)]),
        Err(Error::PushNonMinimalData)
    );
    assert_eq!(eval(vec![push(&[0x01]), op(Opcode::Op1Add)]), Ok(()));
}

#[test]
fn oversized_operand_fails_arithmetic() {
    assert_eq!(
        eval(vec![push(&[1, 2, 3, 4, 5]), op(Opcode::Op1Add)]),
        Err(Error::ScriptEvaluationFailed)
    );
    assert_eq!(
        final_stack(vec![num(0x7fff_ffff), op(Opcode::Op1Add)]),
        Ok(vec![vec![0, 0, 0, 0x80, 0]])
    );
    assert_eq!(
        eval(vec![num(0x7fff_ffff), op(Opcode::Op1Add), op(Opcode::Op1Add)]),
        Err(Error::ScriptEvaluationFailed)
    );
}

#[test]
fn arithmetic_results() {
    let cases: Vec<(Vec<ScriptOp>, i64)> = vec![
        (vec![num(2), num(3), op(Opcode::OpAdd)], 5),
        (vec![num(2), num(3), op(Opcode::OpSub)], -1),
        (vec![num(-7), op(Opcode::OpAbs)], 7),
        (vec![num(7), op(Opcode::OpNegate)], -7),
        (vec![num(0), op(Opcode::OpNot)], 1),
        (vec![num(9), op(Opcode::OpNot)], 0),
        (vec![num(9), op(Opcode::Op0NotEqual)], 1),
        (vec![num(0), op(Opcode::Op0NotEqual)], 0),
        (vec![num(5), op(Opcode::Op1Sub)], 4),
        (vec![num(1), num(0), op(Opcode::OpBoolAnd)], 0),
        (vec![num(1), num(0), op(Opcode::OpBoolOr)], 1),
        (vec![num(4), num(4), op(Opcode::OpNumEqual)], 1),
        (vec![num(4), num(5), op(Opcode::OpNumNotEqual)], 1),
        (vec![num(4), num(5), op(Opcode::OpLessThan)], 1),
        (vec![num(4), num(5), op(Opcode::OpGreaterThan)], 0),
        (vec![num(5), num(5), op(Opcode::OpLessThanOrEqual)], 1),
        (vec![num(4), num(5), op(Opcode::OpGreaterThanOrEqual)], 0),
        (vec![num(4), num(5), op(Opcode::OpMin)], 4),
        (vec![num(4), num(5), op(Opcode::OpMax)], 5),
        (vec![num(3), num(3), num(5), op(Opcode::OpWithin)], 1),
        (vec![num(5), num(3), num(5), op(Opcode::OpWithin)], 0),
        (vec![num(2), num(3), num(5), op(Opcode::OpWithin)], 0),
        (vec![op(Opcode::Op1Negate)], -1),
        (vec![op(Opcode::Op16)], 16),
    ];
    for (ops, expected) in cases {
        assert_eq!(final_stack(ops), Ok(vec![encode_num(expected)]));
    }
}

#[test]
fn num_equal_verify() {
    assert_eq!(final_stack(vec![num(4), num(4), op(Opcode::OpNumEqualVerify)]), Ok(vec![]));
    assert_eq!(
        final_stack(vec![num(4), num(5), op(Opcode::OpNumEqualVerify)]),
        Err(Error::ScriptEvaluationFailed)
    );
}

#[test]
fn stack_ops_rearrange_items() {
    let a = || push(&[0xa]);
    let b = || push(&[0xb]);
    let c = || push(&[0xc]);
    let d = || push(&[0xd]);
    let e = || push(&[0xe]);
    let f = || push(&[0xf]);
    let s = |items: &[u8]| -> Result<Vec<Vec<u8>>, Error> {
        Ok(items.iter().map(|x| vec![*x]).collect())
    };
    assert_eq!(final_stack(vec![a(), op(Opcode::OpDup)]), s(&[0xa, 0xa]));
    assert_eq!(final_stack(vec![a(), b(), op(Opcode::OpDrop)]), s(&[0xa]));
    assert_eq!(final_stack(vec![a(), b(), op(Opcode::Op2Drop)]), s(&[]));
    assert_eq!(final_stack(vec![a(), b(), op(Opcode::Op2Dup)]), s(&[0xa, 0xb, 0xa, 0xb]));
    assert_eq!(
        final_stack(vec![a(), b(), c(), op(Opcode::Op3Dup)]),
        s(&[0xa, 0xb, 0xc, 0xa, 0xb, 0xc])
    );
    assert_eq!(final_stack(vec![a(), b(), op(Opcode::OpOver)]), s(&[0xa, 0xb, 0xa]));
    assert_eq!(
        final_stack(vec![a(), b(), c(), d(), op(Opcode::Op2Over)]),
        s(&[0xa, 0xb, 0xc, 0xd, 0xa, 0xb])
    );
    assert_eq!(final_stack(vec![a(), b(), c(), op(Opcode::OpRot)]), s(&[0xb, 0xc, 0xa]));
    assert_eq!(
        final_stack(vec![a(), b(), c(), d(), e(), f(), op(Opcode::Op2Rot)]),
        s(&[0xc, 0xd, 0xe, 0xf, 0xa, 0xb])
    );
    assert_eq!(final_stack(vec![a(), b(), op(Opcode::OpSwap)]), s(&[0xb, 0xa]));
    assert_eq!(
        final_stack(vec![a(), b(), c(), d(), op(Opcode::Op2Swap)]),
        s(&[0xc, 0xd, 0xa, 0xb])
    );
    assert_eq!(final_stack(vec![a(), b(), op(Opcode::OpNip)]), s(&[0xb]));
    assert_eq!(final_stack(vec![a(), b(), op(Opcode::OpTuck)]), s(&[0xb, 0xa, 0xb]));
    assert_eq!(final_stack(vec![a(), op(Opcode::OpIfDup)]), s(&[0xa, 0xa]));
    assert_eq!(final_stack(vec![push(&[]), op(Opcode::OpIfDup)]), Ok(vec![vec![]]));
    assert_eq!(final_stack(vec![a(), b(), op(Opcode::OpDepth)]), s(&[0xa, 0xb, 2]));
    assert_eq!(final_stack(vec![push(&[1, 2, 3]), op(Opcode::OpSize)]), Ok(vec![vec![1, 2, 3], vec![3]]));
    assert_eq!(final_stack(vec![a(), b(), c(), num(2), op(Opcode::OpPick)]), s(&[0xa, 0xb, 0xc, 0xa]));
    assert_eq!(final_stack(vec![a(), b(), c(), num(0), op(Opcode::OpPick)]), s(&[0xa, 0xb, 0xc, 0xc]));
    assert_eq!(final_stack(vec![a(), b(), c(), num(2), op(Opcode::OpRoll)]), s(&[0xb, 0xc, 0xa]));
    assert_eq!(final_stack(vec![a(), b(), c(), num(1), op(Opcode::OpRoll)]), s(&[0xa, 0xc, 0xb]));
    assert_eq!(
        final_stack(vec![a(), op(Opcode::OpToAltStack), b(), op(Opcode::OpFromAltStack)]),
        s(&[0xb, 0xa])
    );
}

#[test]
fn stack_underflow_is_reported() {
    for code in [
        Opcode::OpDup,
        Opcode::OpDrop,
        Opcode::Op2Drop,
        Opcode::OpSwap,
        Opcode::OpRot,
        Opcode::OpAdd,
        Opcode::Op1Add,
        Opcode::OpEqual,
        Opcode::OpVerify,
        Opcode::OpHash160,
        Opcode::OpCheckSig,
        Opcode::OpCheckMultiSig,
        Opcode::OpToAltStack,
        Opcode::OpFromAltStack,
        Opcode::OpPick,
        Opcode::OpSize,
        Opcode::OpIf,
        Opcode::OpWithin,
    ] {
        assert_eq!(eval(vec![op(code)]), Err(Error::StackUnderflow));
    }
    assert_eq!(eval(vec![op(Opcode::Op1), op(Opcode::OpSwap)]), Err(Error::StackUnderflow));
    assert_eq!(
        eval(vec![op(Opcode::Op1), num(1), op(Opcode::OpPick)]),
        Err(Error::StackUnderflow)
    );
    assert_eq!(
        eval(vec![op(Opcode::Op1), op(Opcode::Op1Negate), op(Opcode::OpRoll)]),
        Err(Error::StackUnderflow)
    );
}

#[test]
fn disabled_opcode_fails_even_in_untaken_branch() {
    assert_eq!(
        eval(vec![push(&[]), op(Opcode::OpIf), op(Opcode::OpCat), op(Opcode::OpEndIf), op(Opcode::Op1)]),
        Err(Error::DisabledOpcode)
    );
    assert_eq!(eval(vec![op(Opcode::Op1), op(Opcode::Op1), op(Opcode::OpMul)]), Err(Error::DisabledOpcode));
}

#[test]
fn invalid_op_fails_even_in_untaken_branch() {
    assert_eq!(
        eval(vec![push(&[]), op(Opcode::OpIf), ScriptOp::Invalid, op(Opcode::OpEndIf), op(Opcode::Op1)]),
        Err(Error::MalformedScript)
    );
}

#[test]
fn branches_select_ops() {
    let script = |cond: ScriptOp| {
        vec![cond, op(Opcode::OpIf), op(Opcode::Op2), op(Opcode::OpElse), op(Opcode::Op3), op(Opcode::OpEndIf)]
    };
    assert_eq!(final_stack(script(op(Opcode::Op1))), Ok(vec![vec![2]]));
    assert_eq!(final_stack(script(push(&[]))), Ok(vec![vec![3]]));
    let notif = vec![push(&[]), op(Opcode::OpNotIf), op(Opcode::Op2), op(Opcode::OpEndIf)];
    assert_eq!(final_stack(notif), Ok(vec![vec![2]]));
    let nested = vec![
        push(&[]),
        op(Opcode::OpIf),
        op(Opcode::Op1),
        op(Opcode::OpIf),
        op(Opcode::OpReturn),
        op(Opcode::OpElse),
        op(Opcode::OpReturn),
        op(Opcode::OpEndIf),
        op(Opcode::OpElse),
        op(Opcode::Op5),
        op(Opcode::OpEndIf),
    ];
    assert_eq!(final_stack(nested), Ok(vec![vec![5]]));
}

#[test]
fn unbalanced_branches_are_malformed() {
    assert_eq!(eval(vec![op(Opcode::Op1), op(Opcode::OpEndIf)]), Err(Error::MalformedScript));
    assert_eq!(eval(vec![op(Opcode::Op1), op(Opcode::OpElse)]), Err(Error::MalformedScript));
    assert_eq!(
        eval(vec![op(Opcode::Op1), op(Opcode::OpIf), op(Opcode::Op1)]),
        Err(Error::MalformedScript)
    );
}

#[test]
fn verify_and_return() {
    assert_eq!(eval(vec![op(Opcode::Op1), op(Opcode::Op1), op(Opcode::OpVerify)]), Ok(()));
    assert_eq!(
        eval(vec![op(Opcode::Op1), push(&[]), op(Opcode::OpVerify)]),
        Err(Error::ScriptEvaluationFailed)
    );
    assert_eq!(eval(vec![op(Opcode::Op1), op(Opcode::OpReturn)]), Err(Error::ScriptEvaluationFailed));
}

#[test]
fn equality_ops() {
    assert_eq!(final_stack(vec![push(&[1, 2]), push(&[1, 2]), op(Opcode::OpEqual)]), Ok(vec![vec![1]]));
    assert_eq!(final_stack(vec![push(&[1, 2]), push(&[1]), op(Opcode::OpEqual)]), Ok(vec![vec![]]));
    assert_eq!(final_stack(vec![push(&[1, 2]), push(&[1, 2]), op(Opcode::OpEqualVerify)]), Ok(vec![]));
    assert_eq!(
        final_stack(vec![push(&[1, 2]), push(&[1, 3]), op(Opcode::OpEqualVerify)]),
        Err(Error::ScriptEvaluationFailed)
    );
}

#[test]
fn hash_ops_push_digests() {
    assert_eq!(
        final_stack(vec![push(b"hello"), op(Opcode::OpHash160)]),
        Ok(vec![hash160(b"hello").to_vec()])
    );
    assert_eq!(
        final_stack(vec![push(b"hello"), op(Opcode::OpHash256)]),
        Ok(vec![double_hash(b"hello").to_vec()])
    );
    let sha = final_stack(vec![push(b""), op(Opcode::OpSha256)]).unwrap();
    assert_eq!(sha[0][..4], [0xe3, 0xb0, 0xc4, 0x42]);
    let ripemd = final_stack(vec![push(b""), op(Opcode::OpRipemd160)]).unwrap();
    assert_eq!(ripemd[0][..4], [0x9c, 0x11, 0x85, 0xa5]);
    assert_eq!(ripemd[0].len(), 20);
}

#[test]
fn push_size_limit() {
    assert_eq!(eval(vec![push(&[1; 520])]), Ok(()));
    assert_eq!(eval(vec![push(&[1; 521])]), Err(Error::MalformedScript));
    assert_eq!(
        eval(vec![push(&[]), op(Opcode::OpIf), push(&[1; 521]), op(Opcode::OpEndIf), op(Opcode::Op1)]),
        Err(Error::MalformedScript)
    );
}

#[test]
fn op_budget_limit() {
    let mut ops = vec![op(Opcode::Op1)];
    for _ in 0..201 {
        ops.push(op(Opcode::OpNop));
    }
    assert_eq!(eval(ops.clone()), Ok(()));
    ops.push(op(Opcode::OpNop));
    assert_eq!(eval(ops), Err(Error::MalformedScript));
    let mut pushes = vec![];
    for _ in 0..300 {
        pushes.push(op(Opcode::Op1));
        pushes.push(op(Opcode::Op1));
    }
    for _ in 0..100 {
        pushes.push(op(Opcode::Op2Drop));
    }
    assert_eq!(final_stack(pushes).map(|s| s.len()), Ok(400));
}

#[test]
fn stack_size_limit() {
    let mut ops = vec![];
    for _ in 0..1000 {
        ops.push(op(Opcode::Op1));
    }
    assert_eq!(final_stack(ops.clone()).map(|s| s.len()), Ok(1000));
    ops.push(op(Opcode::Op1));
    assert_eq!(final_stack(ops), Err(Error::ScriptEvaluationFailed));
    let mut split = vec![];
    for _ in 0..999 {
        split.push(push(&[]));
    }
    split.push(op(Opcode::OpToAltStack));
    split.push(push(&[]));
    assert_eq!(final_stack(split.clone()).map(|s| s.len()), Ok(999));
    split.push(push(&[]));
    assert_eq!(final_stack(split), Err(Error::ScriptEvaluationFailed));
}

#[test]
fn checksig_with_garbage_pushes_false_and_reports_signature() {
    assert_eq!(
        final_stack(vec![push(&[0x30, 0x41]), push(&[2; 33]), op(Opcode::OpCheckSig)]),
        Ok(vec![vec![]])
    );
    assert_eq!(
        eval(vec![push(&[0x30, 0x41]), push(&[2; 33]), op(Opcode::OpCheckSig)]),
        Err(Error::SignatureInvalid)
    );
    assert_eq!(
        eval(vec![push(&[]), push(&[2; 33]), op(Opcode::OpCheckSigVerify), op(Opcode::Op1)]),
        Err(Error::SignatureInvalid)
    );
}

#[test]
fn multisig_zero_of_zero_consumes_dummy() {
    assert_eq!(
        final_stack(vec![push(&[9]), push(&[]), push(&[]), op(Opcode::OpCheckMultiSig)]),
        Ok(vec![vec![1]])
    );
    assert_eq!(
        final_stack(vec![push(&[]), push(&[]), op(Opcode::OpCheckMultiSig)]),
        Err(Error::StackUnderflow)
    );
    assert_eq!(
        final_stack(vec![push(&[]), push(&[]), num(21), op(Opcode::OpCheckMultiSig)]),
        Err(Error::MalformedScript)
    );
    assert_eq!(
        final_stack(vec![push(&[]), num(2), push(&[2; 33]), num(1), op(Opcode::OpCheckMultiSig)]),
        Err(Error::MalformedScript)
    );
}

#[test]
fn unlock_script_runs_before_lock_script() {
    let tx = dummy_tx();
    let prior = TxOutput { value: 1, lock_script: Script::new() };
    let ctx = ExecutionContext::new(&tx, 0, &prior).unwrap();
    let unlock = Script { ops: vec![num(2), num(3)] };
    let lock = Script { ops: vec![op(Opcode::OpSub), op(Opcode::Op1Negate), op(Opcode::OpNumEqual)] };
    assert_eq!(evaluate(&unlock, &lock, &ctx), Ok(()));
    assert_eq!(evaluate(&lock, &unlock, &ctx), Err(Error::StackUnderflow));
    assert!(ExecutionContext::new(&tx, 1, &prior).is_none());
}
