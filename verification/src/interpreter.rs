//! The stack machine that evaluates scripts.

use crate::codec::copy_bytes;
use crate::error::Error;
use crate::hash::{
    double_hash, double_hash_spec, hash160, hash160_spec, ripemd160, ripemd160_digest, sha256,
    sha256_digest,
};
use crate::keys::{ecdsa_verifies, ecdsa_verify};
use crate::number::{
    bool_bytes, decode_num, encode_bool, encode_count, encode_num, is_truthy,
    lemma_num_value_bound, num_bytes, read_num, truthy,
};
use crate::opcode::{opcode_disabled, opcode_small_number, Opcode};
use crate::script::{byte_strings_view, script_bytes, Script, ScriptOp, ScriptOpView};
use crate::sighash::{parts_view, sighash_of_parts, sighash_spec, SIGHASH_FORKID};
use crate::tx::{
    inputs_view, outputs_view, outputs_wf, Transaction, TransactionView, TxOutput, TxOutputView,
};
use vstd::prelude::*;
use vstd::slice::slice_subrange;

verus! {

/// The longest item that may be pushed.
pub const MAX_SCRIPT_ELEMENT_SIZE: usize = 520;

/// The most opcodes, numeric shorthands aside, that one evaluation may meet.
pub const MAX_OPS_PER_SCRIPT: usize = 201;

/// The most items that the stack and the alt stack may hold together.
pub const MAX_STACK_SIZE: usize = 1000;

/// The most keys that one multi-signature check may name.
pub const MAX_PUBKEYS_PER_MULTISIG: usize = 20;

/// What an evaluation knows of its surroundings, as mathematical values.
pub struct ContextView {
    /// The transaction that holds the input.
    pub tx: TransactionView,
    /// The position of the input under validation.
    pub input_index: int,
    /// The value of the output being spent.
    pub prior_value: u64,
    /// The encoding of the locking script of the output being spent.
    pub script_code: Seq<u8>,
}

/// The state of the machine, as mathematical values.
pub struct MachineView {
    pub stack: Seq<Seq<u8>>,
    pub alt_stack: Seq<Seq<u8>>,
    /// One entry per open branch: whether its current side is taken.
    pub branches: Seq<bool>,
    /// The opcodes met so far, numeric shorthands aside.
    pub op_count: nat,
    /// Whether some signature check has come out false.
    pub sig_failed: bool,
}

/// The state before the first op.
pub open spec fn initial_machine() -> MachineView {
    MachineView {
        stack: Seq::empty(),
        alt_stack: Seq::empty(),
        branches: Seq::empty(),
        op_count: 0,
        sig_failed: false,
    }
}

/// Whether ops are executed: every open branch is on its taken side.
pub open spec fn executing(m: MachineView) -> bool {
    !m.branches.contains(false)
}

pub open spec fn with_stack(m: MachineView, stack: Seq<Seq<u8>>) -> MachineView {
    MachineView { stack, ..m }
}

/// Whether the flags byte of a signature carries the fork marker.
pub open spec fn has_fork_id(flags: u8) -> bool {
    (flags / SIGHASH_FORKID) % 2 == 1
}

/// Whether `signature`, DER bytes followed by a flags byte, is valid for
/// `pubkey` over the preimage of the input at hand. The preimage is
/// computed from the context, never taken from the script.
pub open spec fn signature_checks(ctx: ContextView, signature: Seq<u8>, pubkey: Seq<u8>) -> bool {
    signature.len() > 0 && has_fork_id(signature.last()) && ecdsa_verifies(
        pubkey,
        sighash_spec(ctx.tx, ctx.input_index, ctx.script_code, ctx.prior_value, signature.last()),
        signature.drop_last(),
    )
}

/// Whether the signatures match keys in order, each key used at most
/// once, going from the last of each list to the first.
pub open spec fn multisig_matches(
    ctx: ContextView,
    signatures: Seq<Seq<u8>>,
    pubkeys: Seq<Seq<u8>>,
) -> bool
    decreases pubkeys.len(),
{
    if signatures.len() == 0 {
        true
    } else if signatures.len() > pubkeys.len() {
        false
    } else if signature_checks(ctx, signatures.last(), pubkeys.last()) {
        multisig_matches(ctx, signatures.drop_last(), pubkeys.drop_last())
    } else {
        multisig_matches(ctx, signatures, pubkeys.drop_last())
    }
}

/// The ops that rearrange the top of the stack: how many items each
/// looks at, and which of them, counted from the lowest, make up the new top.
pub open spec fn shuffle_pattern(code: Opcode) -> Option<(usize, Seq<usize>)> {
    match code {
        Opcode::OpDrop => Some((1usize, Seq::<usize>::empty())),
        Opcode::Op2Drop => Some((2usize, Seq::<usize>::empty())),
        Opcode::OpDup => Some((1usize, seq![0usize, 0usize])),
        Opcode::Op2Dup => Some((2usize, seq![0usize, 1usize, 0usize, 1usize])),
        Opcode::Op3Dup => Some((3usize, seq![0usize, 1usize, 2usize, 0usize, 1usize, 2usize])),
        Opcode::OpOver => Some((2usize, seq![0usize, 1usize, 0usize])),
        Opcode::Op2Over => Some((4usize, seq![0usize, 1usize, 2usize, 3usize, 0usize, 1usize])),
        Opcode::OpRot => Some((3usize, seq![1usize, 2usize, 0usize])),
        Opcode::Op2Rot => Some((6usize, seq![2usize, 3usize, 4usize, 5usize, 0usize, 1usize])),
        Opcode::OpSwap => Some((2usize, seq![1usize, 0usize])),
        Opcode::Op2Swap => Some((4usize, seq![2usize, 3usize, 0usize, 1usize])),
        Opcode::OpNip => Some((2usize, seq![1usize])),
        Opcode::OpTuck => Some((2usize, seq![1usize, 0usize, 1usize])),
        _ => None,
    }
}

/// The stack with its top `window` items replaced by the picked ones.
pub open spec fn shuffled(stack: Seq<Seq<u8>>, window: usize, picks: Seq<usize>) -> Seq<Seq<u8>> {
    let base = stack.len() - window;
    stack.take(base) + Seq::new(picks.len(), |j: int| stack[base + picks[j]])
}

pub open spec fn shuffle_step(m: MachineView, window: usize, picks: Seq<usize>) -> Result<
    MachineView,
    Error,
> {
    if m.stack.len() < window {
        Err(Error::StackUnderflow)
    } else {
        Ok(with_stack(m, shuffled(m.stack, window, picks)))
    }
}

pub open spec fn is_unary(code: Opcode) -> bool {
    match code {
        Opcode::Op1Add
        | Opcode::Op1Sub
        | Opcode::OpNegate
        | Opcode::OpAbs
        | Opcode::OpNot
        | Opcode::Op0NotEqual => true,
        _ => false,
    }
}

/// What a one-operand arithmetic op makes of its operand.
pub open spec fn unary_result(code: Opcode, a: int) -> int {
    match code {
        Opcode::Op1Add => a + 1,
        Opcode::Op1Sub => a - 1,
        Opcode::OpNegate => -a,
        Opcode::OpAbs => if a < 0 {
            -a
        } else {
            a
        },
        Opcode::OpNot => if a == 0 {
            1
        } else {
            0
        },
        _ => if a == 0 {
            0
        } else {
            1
        },
    }
}

pub open spec fn unary_step(m: MachineView, code: Opcode) -> Result<MachineView, Error> {
    if m.stack.len() < 1 {
        Err(Error::StackUnderflow)
    } else {
        match read_num(m.stack.last()) {
            Err(e) => Err(e),
            Ok(a) => Ok(
                with_stack(m, m.stack.drop_last().push(num_bytes(unary_result(code, a)))),
            ),
        }
    }
}

pub open spec fn is_binary(code: Opcode) -> bool {
    match code {
        Opcode::OpAdd
        | Opcode::OpSub
        | Opcode::OpBoolAnd
        | Opcode::OpBoolOr
        | Opcode::OpNumEqual
        | Opcode::OpNumEqualVerify
        | Opcode::OpNumNotEqual
        | Opcode::OpLessThan
        | Opcode::OpGreaterThan
        | Opcode::OpLessThanOrEqual
        | Opcode::OpGreaterThanOrEqual
        | Opcode::OpMin
        | Opcode::OpMax => true,
        _ => false,
    }
}

pub open spec fn truth(value: bool) -> int {
    if value {
        1
    } else {
        0
    }
}

/// What a two-operand arithmetic op makes of the second item `a` and the
/// top item `b`.
pub open spec fn binary_result(code: Opcode, a: int, b: int) -> int {
    match code {
        Opcode::OpAdd => a + b,
        Opcode::OpSub => a - b,
        Opcode::OpBoolAnd => truth(a != 0 && b != 0),
        Opcode::OpBoolOr => truth(a != 0 || b != 0),
        Opcode::OpNumEqual => truth(a == b),
        Opcode::OpNumEqualVerify => truth(a == b),
        Opcode::OpNumNotEqual => truth(a != b),
        Opcode::OpLessThan => truth(a < b),
        Opcode::OpGreaterThan => truth(a > b),
        Opcode::OpLessThanOrEqual => truth(a <= b),
        Opcode::OpGreaterThanOrEqual => truth(a >= b),
        Opcode::OpMin => if a < b {
            a
        } else {
            b
        },
        _ => if a > b {
            a
        } else {
            b
        },
    }
}

pub open spec fn binary_step(m: MachineView, code: Opcode) -> Result<MachineView, Error> {
    if m.stack.len() < 2 {
        Err(Error::StackUnderflow)
    } else {
        match read_num(m.stack[m.stack.len() - 2]) {
            Err(e) => Err(e),
            Ok(a) => match read_num(m.stack.last()) {
                Err(e) => Err(e),
                Ok(b) => {
                    let base = m.stack.drop_last().drop_last();
                    let r = binary_result(code, a, b);
                    if code == Opcode::OpNumEqualVerify {
                        if r != 0 {
                            Ok(with_stack(m, base))
                        } else {
                            Err(Error::ScriptEvaluationFailed)
                        }
                    } else {
                        Ok(with_stack(m, base.push(num_bytes(r))))
                    }
                },
            },
        }
    }
}

/// `OpWithin`: whether the third item lies from the second (inclusive) to
/// the top (exclusive).
pub open spec fn within_step(m: MachineView) -> Result<MachineView, Error> {
    if m.stack.len() < 3 {
        Err(Error::StackUnderflow)
    } else {
        match read_num(m.stack[m.stack.len() - 3]) {
            Err(e) => Err(e),
            Ok(x) => match read_num(m.stack[m.stack.len() - 2]) {
                Err(e) => Err(e),
                Ok(low) => match read_num(m.stack.last()) {
                    Err(e) => Err(e),
                    Ok(high) => Ok(
                        with_stack(
                            m,
                            m.stack.drop_last().drop_last().drop_last().push(
                                bool_bytes(low <= x < high),
                            ),
                        ),
                    ),
                },
            },
        }
    }
}

pub open spec fn is_hash_op(code: Opcode) -> bool {
    match code {
        Opcode::OpRipemd160 | Opcode::OpSha256 | Opcode::OpHash160 | Opcode::OpHash256 => true,
        _ => false,
    }
}

/// The digest that a hash op makes of an item.
pub open spec fn hash_result(code: Opcode, data: Seq<u8>) -> Seq<u8> {
    match code {
        Opcode::OpRipemd160 => ripemd160_digest(data),
        Opcode::OpSha256 => sha256_digest(data),
        Opcode::OpHash160 => hash160_spec(data),
        _ => double_hash_spec(data),
    }
}

pub open spec fn hash_step(m: MachineView, code: Opcode) -> Result<MachineView, Error> {
    if m.stack.len() < 1 {
        Err(Error::StackUnderflow)
    } else {
        Ok(with_stack(m, m.stack.drop_last().push(hash_result(code, m.stack.last()))))
    }
}

/// `OpPick` copies and `OpRoll` moves the item that the top number
/// counts back to, not counting the number itself.
pub open spec fn pick_step(m: MachineView, remove: bool) -> Result<MachineView, Error> {
    if m.stack.len() < 2 {
        Err(Error::StackUnderflow)
    } else {
        match read_num(m.stack.last()) {
            Err(e) => Err(e),
            Ok(n) => {
                let rest = m.stack.drop_last();
                if n < 0 || n >= rest.len() {
                    Err(Error::StackUnderflow)
                } else {
                    let at = rest.len() - 1 - n;
                    if remove {
                        Ok(with_stack(m, rest.remove(at).push(rest[at])))
                    } else {
                        Ok(with_stack(m, rest.push(rest[at])))
                    }
                }
            },
        }
    }
}

/// `OpEqual` and `OpEqualVerify`: byte-wise comparison of the top two items.
pub open spec fn equal_step(m: MachineView, verify: bool) -> Result<MachineView, Error> {
    if m.stack.len() < 2 {
        Err(Error::StackUnderflow)
    } else {
        let equal = m.stack[m.stack.len() - 2] == m.stack.last();
        let base = m.stack.drop_last().drop_last();
        if verify {
            if equal {
                Ok(with_stack(m, base))
            } else {
                Err(Error::ScriptEvaluationFailed)
            }
        } else {
            Ok(with_stack(m, base.push(bool_bytes(equal))))
        }
    }
}

/// `OpCheckSig` pushes the outcome of the check and remembers a failure;
/// `OpCheckSigVerify` fails with `SignatureInvalid` instead.
pub open spec fn checksig_step(m: MachineView, ctx: ContextView, verify: bool) -> Result<
    MachineView,
    Error,
> {
    if m.stack.len() < 2 {
        Err(Error::StackUnderflow)
    } else {
        let ok = signature_checks(ctx, m.stack[m.stack.len() - 2], m.stack.last());
        let base = m.stack.drop_last().drop_last();
        if verify {
            if ok {
                Ok(with_stack(m, base))
            } else {
                Err(Error::SignatureInvalid)
            }
        } else {
            Ok(
                MachineView {
                    stack: base.push(bool_bytes(ok)),
                    sig_failed: m.sig_failed || !ok,
                    ..m
                },
            )
        }
    }
}

/// `OpCheckMultiSig`: from the top, the key count, the keys, the
/// signature count, the signatures, and one more item that is dropped
/// unread. Each key counts against the op budget.
pub open spec fn multisig_step(m: MachineView, ctx: ContextView, verify: bool) -> Result<
    MachineView,
    Error,
> {
    let s = m.stack;
    if s.len() < 1 {
        Err(Error::StackUnderflow)
    } else {
        match read_num(s.last()) {
            Err(e) => Err(e),
            Ok(n) => if n < 0 || n > MAX_PUBKEYS_PER_MULTISIG {
                Err(Error::MalformedScript)
            } else if m.op_count + n > MAX_OPS_PER_SCRIPT {
                Err(Error::MalformedScript)
            } else if s.len() < n + 2 {
                Err(Error::StackUnderflow)
            } else {
                let keys_end = s.len() - 1;
                let keys_start = keys_end - n;
                match read_num(s[keys_start - 1]) {
                    Err(e) => Err(e),
                    Ok(k) => if k < 0 || k > n {
                        Err(Error::MalformedScript)
                    } else if s.len() < n + k + 3 {
                        Err(Error::StackUnderflow)
                    } else {
                        let sigs_end = keys_start - 1;
                        let sigs_start = sigs_end - k;
                        let ok = multisig_matches(
                            ctx,
                            s.subrange(sigs_start, sigs_end),
                            s.subrange(keys_start, keys_end),
                        );
                        let base = s.take(sigs_start - 1);
                        if verify {
                            if ok {
                                Ok(
                                    MachineView {
                                        stack: base,
                                        op_count: (m.op_count + n) as nat,
                                        ..m
                                    },
                                )
                            } else {
                                Err(Error::SignatureInvalid)
                            }
                        } else {
                            Ok(
                                MachineView {
                                    stack: base.push(bool_bytes(ok)),
                                    op_count: (m.op_count + n) as nat,
                                    sig_failed: m.sig_failed || !ok,
                                    ..m
                                },
                            )
                        }
                    },
                }
            },
        }
    }
}

/// What an executed opcode, neither disabled nor a flow op, does to the
/// machine.
pub open spec fn opcode_step(m: MachineView, code: Opcode, ctx: ContextView) -> Result<
    MachineView,
    Error,
> {
    if opcode_small_number(code) is Some {
        Ok(with_stack(m, m.stack.push(num_bytes(opcode_small_number(code).unwrap()))))
    } else if shuffle_pattern(code) is Some {
        shuffle_step(m, shuffle_pattern(code).unwrap().0, shuffle_pattern(code).unwrap().1)
    } else if is_unary(code) {
        unary_step(m, code)
    } else if is_binary(code) {
        binary_step(m, code)
    } else if is_hash_op(code) {
        hash_step(m, code)
    } else {
        match code {
            Opcode::OpVerify => if m.stack.len() < 1 {
                Err(Error::StackUnderflow)
            } else if truthy(m.stack.last()) {
                Ok(with_stack(m, m.stack.drop_last()))
            } else {
                Err(Error::ScriptEvaluationFailed)
            },
            Opcode::OpReturn => Err(Error::ScriptEvaluationFailed),
            Opcode::OpToAltStack => if m.stack.len() < 1 {
                Err(Error::StackUnderflow)
            } else {
                Ok(
                    MachineView {
                        stack: m.stack.drop_last(),
                        alt_stack: m.alt_stack.push(m.stack.last()),
                        ..m
                    },
                )
            },
            Opcode::OpFromAltStack => if m.alt_stack.len() < 1 {
                Err(Error::StackUnderflow)
            } else {
                Ok(
                    MachineView {
                        stack: m.stack.push(m.alt_stack.last()),
                        alt_stack: m.alt_stack.drop_last(),
                        ..m
                    },
                )
            },
            Opcode::OpIfDup => if m.stack.len() < 1 {
                Err(Error::StackUnderflow)
            } else if truthy(m.stack.last()) {
                Ok(with_stack(m, m.stack.push(m.stack.last())))
            } else {
                Ok(m)
            },
            Opcode::OpDepth => Ok(with_stack(m, m.stack.push(num_bytes(m.stack.len() as int)))),
            Opcode::OpSize => if m.stack.len() < 1 {
                Err(Error::StackUnderflow)
            } else {
                Ok(with_stack(m, m.stack.push(num_bytes(m.stack.last().len() as int))))
            },
            Opcode::OpPick => pick_step(m, false),
            Opcode::OpRoll => pick_step(m, true),
            Opcode::OpEqual => equal_step(m, false),
            Opcode::OpEqualVerify => equal_step(m, true),
            Opcode::OpWithin => within_step(m),
            Opcode::OpCheckSig => checksig_step(m, ctx, false),
            Opcode::OpCheckSigVerify => checksig_step(m, ctx, true),
            Opcode::OpCheckMultiSig => multisig_step(m, ctx, false),
            Opcode::OpCheckMultiSigVerify => multisig_step(m, ctx, true),
            _ => Ok(m),
        }
    }
}

pub open spec fn is_flow_op(code: Opcode) -> bool {
    match code {
        Opcode::OpIf | Opcode::OpNotIf | Opcode::OpElse | Opcode::OpEndIf => true,
        _ => false,
    }
}

/// What a flow op does: `OpIf` and `OpNotIf` open a branch, decided by
/// the popped item when executing and not taken otherwise; `OpElse` flips
/// the innermost branch; `OpEndIf` closes it. The last two fail with
/// `MalformedScript` when no branch is open.
pub open spec fn flow_step(m: MachineView, code: Opcode) -> Result<MachineView, Error> {
    match code {
        Opcode::OpIf | Opcode::OpNotIf => if executing(m) {
            if m.stack.len() < 1 {
                Err(Error::StackUnderflow)
            } else {
                let taken = truthy(m.stack.last()) == (code == Opcode::OpIf);
                Ok(
                    MachineView {
                        stack: m.stack.drop_last(),
                        branches: m.branches.push(taken),
                        ..m
                    },
                )
            }
        } else {
            Ok(MachineView { branches: m.branches.push(false), ..m })
        },
        Opcode::OpElse => if m.branches.len() == 0 {
            Err(Error::MalformedScript)
        } else {
            Ok(
                MachineView {
                    branches: m.branches.drop_last().push(!m.branches.last()),
                    ..m
                },
            )
        },
        _ => if m.branches.len() == 0 {
            Err(Error::MalformedScript)
        } else {
            Ok(MachineView { branches: m.branches.drop_last(), ..m })
        },
    }
}

/// Fails with `ScriptEvaluationFailed` when the two stacks together hold
/// more than the limit.
pub open spec fn check_stack_size(r: Result<MachineView, Error>) -> Result<MachineView, Error> {
    match r {
        Err(e) => Err(e),
        Ok(m) => if m.stack.len() + m.alt_stack.len() > MAX_STACK_SIZE {
            Err(Error::ScriptEvaluationFailed)
        } else {
            Ok(m)
        },
    }
}

/// One step of the machine. An `Invalid` op, an oversized push, a
/// disabled opcode and an exhausted op budget fail whether or not the op
/// lies on a taken branch.
pub open spec fn step(m: MachineView, op: ScriptOpView, ctx: ContextView) -> Result<
    MachineView,
    Error,
> {
    match op {
        ScriptOpView::Invalid => Err(Error::MalformedScript),
        ScriptOpView::PushBytes(data) => if data.len() > MAX_SCRIPT_ELEMENT_SIZE {
            Err(Error::MalformedScript)
        } else if executing(m) {
            check_stack_size(Ok(with_stack(m, m.stack.push(data))))
        } else {
            Ok(m)
        },
        ScriptOpView::Opcode(code) => if opcode_disabled(code) {
            Err(Error::DisabledOpcode)
        } else {
            let counted: nat = if opcode_small_number(code) is None {
                1
            } else {
                0
            };
            if m.op_count + counted > MAX_OPS_PER_SCRIPT {
                Err(Error::MalformedScript)
            } else {
                let m1 = MachineView { op_count: m.op_count + counted, ..m };
                if is_flow_op(code) {
                    flow_step(m1, code)
                } else if executing(m1) {
                    check_stack_size(opcode_step(m1, code, ctx))
                } else {
                    Ok(m1)
                }
            }
        },
    }
}

/// Runs the ops from left to right, stopping at the first failure.
pub open spec fn run(ops: Seq<ScriptOpView>, m: MachineView, ctx: ContextView) -> Result<
    MachineView,
    Error,
>
    decreases ops.len(),
{
    if ops.len() == 0 {
        Ok(m)
    } else {
        match step(m, ops[0], ctx) {
            Err(e) => Err(e),
            Ok(next) => run(ops.drop_first(), next, ctx),
        }
    }
}

/// The verdict on a machine that ran to the end: an open branch is
/// `MalformedScript`; success is exactly one item, and a true one;
/// otherwise `SignatureInvalid` if a signature check came out false, else
/// `ScriptEvaluationFailed`.
pub open spec fn verdict(m: MachineView) -> Result<(), Error> {
    if m.branches.len() > 0 {
        Err(Error::MalformedScript)
    } else if m.stack.len() == 1 && truthy(m.stack[0]) {
        Ok(())
    } else if m.sig_failed {
        Err(Error::SignatureInvalid)
    } else {
        Err(Error::ScriptEvaluationFailed)
    }
}

/// The outcome of evaluating the unlocking script followed by the locking
/// script as one stream of ops.
pub open spec fn evaluate_spec(
    unlock: Seq<ScriptOpView>,
    lock: Seq<ScriptOpView>,
    ctx: ContextView,
) -> Result<(), Error> {
    match run(unlock + lock, initial_machine(), ctx) {
        Err(e) => Err(e),
        Ok(m) => verdict(m),
    }
}

/// The state of the machine.
pub struct Machine {
    pub stack: Vec<Vec<u8>>,
    pub alt_stack: Vec<Vec<u8>>,
    pub branches: Vec<bool>,
    pub op_count: usize,
    pub sig_failed: bool,
}

impl View for Machine {
    type V = MachineView;

    open spec fn view(&self) -> MachineView {
        MachineView {
            stack: byte_strings_view(self.stack@),
            alt_stack: byte_strings_view(self.alt_stack@),
            branches: self.branches@,
            op_count: self.op_count as nat,
            sig_failed: self.sig_failed,
        }
    }
}

/// Whether the outcome of an executable step is the one the semantics gives.
pub open spec fn outcome_matches(
    r: Result<(), Error>,
    after: MachineView,
    expected: Result<MachineView, Error>,
) -> bool {
    match r {
        Ok(_) => expected == Ok::<MachineView, Error>(after),
        Err(e) => expected == Err::<MachineView, Error>(e),
    }
}

fn push_item(stack: &mut Vec<Vec<u8>>, item: Vec<u8>)
    ensures
        byte_strings_view(final(stack)@) == byte_strings_view(old(stack)@).push(item@),
        final(stack).len() == old(stack).len() + 1,
{
    stack.push(item);
    assert(byte_strings_view(stack@) =~= byte_strings_view(old(stack)@).push(item@));
}

fn pop_item(stack: &mut Vec<Vec<u8>>) -> (item: Vec<u8>)
    requires
        old(stack).len() > 0,
    ensures
        item@ == byte_strings_view(old(stack)@).last(),
        byte_strings_view(final(stack)@) == byte_strings_view(old(stack)@).drop_last(),
        final(stack).len() == old(stack).len() - 1,
{
    let item = stack.pop().unwrap();
    assert(byte_strings_view(stack@) =~= byte_strings_view(old(stack)@).drop_last());
    item
}

/// A copy of the item `depth` places below the top.
fn peek_item(stack: &Vec<Vec<u8>>, depth: usize) -> (item: Vec<u8>)
    requires
        depth < stack.len(),
    ensures
        item@ == byte_strings_view(stack@)[stack.len() - 1 - depth],
{
    copy_bytes(stack[stack.len() - 1 - depth].as_slice())
}

/// The window and picks of a rearranging op; `None` for other opcodes.
fn pattern_for(code: Opcode) -> (r: Option<(usize, Vec<usize>)>)
    ensures
        match r {
            Some((window, picks)) => shuffle_pattern(code) == Some((window, picks@)) && forall|
                j: int,
            |
                0 <= j < picks.len() ==> picks[j] < window,
            None => shuffle_pattern(code) is None,
        },
{
    let r: Option<(usize, Vec<usize>)> = match code {
        Opcode::OpDrop => Some((1, Vec::new())),
        Opcode::Op2Drop => Some((2, Vec::new())),
        Opcode::OpDup => Some((1, vec![0, 0])),
        Opcode::Op2Dup => Some((2, vec![0, 1, 0, 1])),
        Opcode::Op3Dup => Some((3, vec![0, 1, 2, 0, 1, 2])),
        Opcode::OpOver => Some((2, vec![0, 1, 0])),
        Opcode::Op2Over => Some((4, vec![0, 1, 2, 3, 0, 1])),
        Opcode::OpRot => Some((3, vec![1, 2, 0])),
        Opcode::Op2Rot => Some((6, vec![2, 3, 4, 5, 0, 1])),
        Opcode::OpSwap => Some((2, vec![1, 0])),
        Opcode::Op2Swap => Some((4, vec![2, 3, 0, 1])),
        Opcode::OpNip => Some((2, vec![1])),
        Opcode::OpTuck => Some((2, vec![1, 0, 1])),
        _ => None,
    };
    proof {
        if r is Some {
            assert(r.unwrap().1@ =~= shuffle_pattern(code).unwrap().1);
        }
    }
    r
}

fn exec_shuffle(m: &mut Machine, window: usize, picks: &Vec<usize>) -> (r: Result<(), Error>)
    requires
        forall|j: int| 0 <= j < picks.len() ==> picks[j] < window,
    ensures
        outcome_matches(r, final(m)@, shuffle_step(old(m)@, window, picks@)),
{
    if m.stack.len() < window {
        return Err(Error::StackUnderflow);
    }
    let base = m.stack.len() - window;
    let ghost s = byte_strings_view(m.stack@);
    let mut top: Vec<Vec<u8>> = Vec::new();
    let mut j: usize = 0;
    while j < picks.len()
        invariant
            j <= picks.len(),
            base + window == m.stack.len(),
            s == byte_strings_view(m.stack@),
            forall|i: int| 0 <= i < picks.len() ==> picks[i] < window,
            top.len() == j,
            forall|i: int| 0 <= i < j ==> (#[trigger] top@[i])@ == s[base + picks@[i]],
        decreases picks.len() - j,
    {
        let at = base + picks[j];
        top.push(copy_bytes(m.stack[at].as_slice()));
        j += 1;
    }
    m.stack.truncate(base);
    m.stack.append(&mut top);
    assert(byte_strings_view(m.stack@) =~= shuffled(s, window, picks@));
    Ok(())
}

fn apply_unary(code: Opcode, a: i64) -> (r: i64)
    requires
        is_unary(code),
        -0x8000_0000 < a < 0x8000_0000,
    ensures
        r == unary_result(code, a as int),
{
    match code {
        Opcode::Op1Add => a + 1,
        Opcode::Op1Sub => a - 1,
        Opcode::OpNegate => -a,
        Opcode::OpAbs => if a < 0 {
            -a
        } else {
            a
        },
        Opcode::OpNot => if a == 0 {
            1
        } else {
            0
        },
        _ => if a == 0 {
            0
        } else {
            1
        },
    }
}

fn exec_unary(m: &mut Machine, code: Opcode) -> (r: Result<(), Error>)
    requires
        is_unary(code),
    ensures
        outcome_matches(r, final(m)@, unary_step(old(m)@, code)),
{
    if m.stack.len() < 1 {
        return Err(Error::StackUnderflow);
    }
    let top = pop_item(&mut m.stack);
    let a = match decode_num(top.as_slice()) {
        Ok(a) => a,
        Err(e) => return Err(e),
    };
    proof {
        lemma_num_value_bound(top@);
    }
    push_item(&mut m.stack, encode_num(apply_unary(code, a)));
    Ok(())
}

fn truth_value(value: bool) -> (r: i64)
    ensures
        r == truth(value),
{
    if value {
        1
    } else {
        0
    }
}

fn apply_binary(code: Opcode, a: i64, b: i64) -> (r: i64)
    requires
        is_binary(code),
        -0x8000_0000 < a < 0x8000_0000,
        -0x8000_0000 < b < 0x8000_0000,
    ensures
        r == binary_result(code, a as int, b as int),
{
    match code {
        Opcode::OpAdd => a + b,
        Opcode::OpSub => a - b,
        Opcode::OpBoolAnd => truth_value(a != 0 && b != 0),
        Opcode::OpBoolOr => truth_value(a != 0 || b != 0),
        Opcode::OpNumEqual => truth_value(a == b),
        Opcode::OpNumEqualVerify => truth_value(a == b),
        Opcode::OpNumNotEqual => truth_value(a != b),
        Opcode::OpLessThan => truth_value(a < b),
        Opcode::OpGreaterThan => truth_value(a > b),
        Opcode::OpLessThanOrEqual => truth_value(a <= b),
        Opcode::OpGreaterThanOrEqual => truth_value(a >= b),
        Opcode::OpMin => if a < b {
            a
        } else {
            b
        },
        _ => if a > b {
            a
        } else {
            b
        },
    }
}

fn exec_binary(m: &mut Machine, code: Opcode) -> (r: Result<(), Error>)
    requires
        is_binary(code),
    ensures
        outcome_matches(r, final(m)@, binary_step(old(m)@, code)),
{
    if m.stack.len() < 2 {
        return Err(Error::StackUnderflow);
    }
    let top = pop_item(&mut m.stack);
    let second = pop_item(&mut m.stack);
    let a = match decode_num(second.as_slice()) {
        Ok(a) => a,
        Err(e) => return Err(e),
    };
    let b = match decode_num(top.as_slice()) {
        Ok(b) => b,
        Err(e) => return Err(e),
    };
    proof {
        lemma_num_value_bound(top@);
        lemma_num_value_bound(second@);
    }
    let r = apply_binary(code, a, b);
    match code {
        Opcode::OpNumEqualVerify => if r != 0 {
            Ok(())
        } else {
            Err(Error::ScriptEvaluationFailed)
        },
        _ => {
            push_item(&mut m.stack, encode_num(r));
            Ok(())
        },
    }
}

fn exec_within(m: &mut Machine) -> (r: Result<(), Error>)
    ensures
        outcome_matches(r, final(m)@, within_step(old(m)@)),
{
    if m.stack.len() < 3 {
        return Err(Error::StackUnderflow);
    }
    let top = pop_item(&mut m.stack);
    let second = pop_item(&mut m.stack);
    let third = pop_item(&mut m.stack);
    let x = match decode_num(third.as_slice()) {
        Ok(x) => x,
        Err(e) => return Err(e),
    };
    let low = match decode_num(second.as_slice()) {
        Ok(low) => low,
        Err(e) => return Err(e),
    };
    let high = match decode_num(top.as_slice()) {
        Ok(high) => high,
        Err(e) => return Err(e),
    };
    push_item(&mut m.stack, encode_bool(low <= x && x < high));
    Ok(())
}

fn exec_hash(m: &mut Machine, code: Opcode) -> (r: Result<(), Error>)
    requires
        is_hash_op(code),
    ensures
        outcome_matches(r, final(m)@, hash_step(old(m)@, code)),
{
    if m.stack.len() < 1 {
        return Err(Error::StackUnderflow);
    }
    let top = pop_item(&mut m.stack);
    let digest: Vec<u8> = match code {
        Opcode::OpRipemd160 => copy_bytes(ripemd160(top.as_slice()).as_slice()),
        Opcode::OpSha256 => copy_bytes(sha256(top.as_slice()).as_slice()),
        Opcode::OpHash160 => copy_bytes(hash160(top.as_slice()).as_slice()),
        _ => copy_bytes(double_hash(top.as_slice()).as_slice()),
    };
    push_item(&mut m.stack, digest);
    Ok(())
}

fn exec_pick(m: &mut Machine, remove: bool) -> (r: Result<(), Error>)
    ensures
        outcome_matches(r, final(m)@, pick_step(old(m)@, remove)),
{
    if m.stack.len() < 2 {
        return Err(Error::StackUnderflow);
    }
    let top = pop_item(&mut m.stack);
    let n = match decode_num(top.as_slice()) {
        Ok(n) => n,
        Err(e) => return Err(e),
    };
    if n < 0 || n as u64 >= m.stack.len() as u64 {
        return Err(Error::StackUnderflow);
    }
    let ghost rest = byte_strings_view(m.stack@);
    let at = m.stack.len() - 1 - n as usize;
    if remove {
        let item = m.stack.remove(at);
        assert(byte_strings_view(m.stack@) =~= rest.remove(at as int));
        push_item(&mut m.stack, item);
    } else {
        let item = copy_bytes(m.stack[at].as_slice());
        push_item(&mut m.stack, item);
    }
    Ok(())
}

/// Whether two byte strings are the same.
fn bytes_equal(a: &[u8], b: &[u8]) -> (r: bool)
    ensures
        r == (a@ == b@),
{
    if a.len() != b.len() {
        return false;
    }
    let mut i: usize = 0;
    while i < a.len()
        invariant
            i <= a.len(),
            a.len() == b.len(),
            forall|j: int| 0 <= j < i ==> a@[j] == b@[j],
        decreases a.len() - i,
    {
        if a[i] != b[i] {
            return false;
        }
        i += 1;
    }
    assert(a@ =~= b@);
    true
}

fn exec_equal(m: &mut Machine, verify: bool) -> (r: Result<(), Error>)
    ensures
        outcome_matches(r, final(m)@, equal_step(old(m)@, verify)),
{
    if m.stack.len() < 2 {
        return Err(Error::StackUnderflow);
    }
    let top = pop_item(&mut m.stack);
    let second = pop_item(&mut m.stack);
    let equal = bytes_equal(second.as_slice(), top.as_slice());
    if verify {
        if equal {
            Ok(())
        } else {
            Err(Error::ScriptEvaluationFailed)
        }
    } else {
        push_item(&mut m.stack, encode_bool(equal));
        Ok(())
    }
}

/// What an evaluation knows of its surroundings: the transaction, the
/// input under validation, and the output that it spends.
pub struct ExecutionContext<'a> {
    pub tx: &'a Transaction,
    pub input_index: usize,
    pub prior_value: u64,
    /// The encoding of the locking script of the output being spent.
    pub script_code: Vec<u8>,
}

impl<'a> View for ExecutionContext<'a> {
    type V = ContextView;

    open spec fn view(&self) -> ContextView {
        ContextView {
            tx: self.tx@,
            input_index: self.input_index as int,
            prior_value: self.prior_value,
            script_code: self.script_code@,
        }
    }
}

/// The context for validating the input at `input_index` against the
/// output it spends.
pub open spec fn context_for(tx: TransactionView, input_index: int, prior: TxOutputView)
    -> ContextView {
    ContextView {
        tx,
        input_index,
        prior_value: prior.value,
        script_code: script_bytes(prior.lock_script),
    }
}

impl<'a> ExecutionContext<'a> {
    /// Whether the context names an input of a transaction that fits the
    /// wire format.
    pub open spec fn wf(&self) -> bool {
        self.tx.wf() && self.input_index < self.tx@.inputs.len()
    }

    /// The context for validating the input at `input_index` of `tx`
    /// against `prior_output`; `None` exactly when `tx` has no such input.
    pub fn new(tx: &'a Transaction, input_index: usize, prior_output: &TxOutput) -> (r: Option<
        ExecutionContext<'a>,
    >)
        requires
            tx.wf(),
            prior_output.wf(),
        ensures
            match r {
                Some(ctx) => ctx.wf() && ctx@ == context_for(
                    tx@,
                    input_index as int,
                    prior_output@,
                ),
                None => input_index >= tx@.inputs.len(),
            },
    {
        let inputs = tx.inputs();
        assert(inputs@.len() == inputs_view(inputs@).len());
        if input_index >= inputs.len() {
            return None;
        }
        Some(
            ExecutionContext {
                tx,
                input_index,
                prior_value: prior_output.value,
                script_code: prior_output.lock_script.to_bytes(),
            },
        )
    }
}

/// Checks a signature with its flags byte against a public key, over the
/// preimage computed from the context.
pub fn check_signature(ctx: &ExecutionContext, signature: &[u8], pubkey: &[u8]) -> (ok: bool)
    requires
        ctx.wf(),
    ensures
        ok == signature_checks(ctx@, signature@, pubkey@),
{
    let len = signature.len();
    if len == 0 {
        return false;
    }
    let flags = signature[len - 1];
    if (flags / SIGHASH_FORKID) % 2 != 1 {
        return false;
    }
    let der = slice_subrange(signature, 0, len - 1);
    assert(der@ =~= signature@.drop_last());
    let inputs = ctx.tx.inputs();
    let outputs = ctx.tx.outputs();
    assert(inputs@.len() == inputs_view(inputs@).len());
    assert(ctx.tx@ == parts_view(ctx.tx@.version, inputs@, outputs@, ctx.tx@.lock_time));
    let digest = sighash_of_parts(
        ctx.tx.version(),
        inputs,
        outputs,
        ctx.tx.lock_time(),
        ctx.input_index,
        ctx.script_code.as_slice(),
        ctx.prior_value,
        flags,
    );
    ecdsa_verify(pubkey, &digest, der)
}

fn exec_checksig(m: &mut Machine, ctx: &ExecutionContext, verify: bool) -> (r: Result<(), Error>)
    requires
        ctx.wf(),
    ensures
        outcome_matches(r, final(m)@, checksig_step(old(m)@, ctx@, verify)),
{
    if m.stack.len() < 2 {
        return Err(Error::StackUnderflow);
    }
    let pubkey = pop_item(&mut m.stack);
    let signature = pop_item(&mut m.stack);
    let ok = check_signature(ctx, signature.as_slice(), pubkey.as_slice());
    if verify {
        if ok {
            Ok(())
        } else {
            Err(Error::SignatureInvalid)
        }
    } else {
        push_item(&mut m.stack, encode_bool(ok));
        if !ok {
            m.sig_failed = true;
        }
        Ok(())
    }
}

/// Matches the signatures at `sigs_start..sigs_end` against the keys at
/// `keys_start..keys_end`, from the last of each to the first.
fn multisig_check(
    stack: &Vec<Vec<u8>>,
    ctx: &ExecutionContext,
    sigs_start: usize,
    sigs_end: usize,
    keys_start: usize,
    keys_end: usize,
) -> (ok: bool)
    requires
        ctx.wf(),
        sigs_start <= sigs_end <= stack.len(),
        keys_start <= keys_end <= stack.len(),
    ensures
        ok == multisig_matches(
            ctx@,
            byte_strings_view(stack@).subrange(sigs_start as int, sigs_end as int),
            byte_strings_view(stack@).subrange(keys_start as int, keys_end as int),
        ),
{
    let ghost items = byte_strings_view(stack@);
    let mut isig = sigs_end;
    let mut ikey = keys_end;
    while isig > sigs_start
        invariant
            ctx.wf(),
            items == byte_strings_view(stack@),
            sigs_start <= isig <= sigs_end <= stack.len(),
            keys_start <= ikey <= keys_end <= stack.len(),
            multisig_matches(
                ctx@,
                items.subrange(sigs_start as int, isig as int),
                items.subrange(keys_start as int, ikey as int),
            ) == multisig_matches(
                ctx@,
                items.subrange(sigs_start as int, sigs_end as int),
                items.subrange(keys_start as int, keys_end as int),
            ),
        decreases ikey - keys_start + 1,
    {
        let ghost sigs = items.subrange(sigs_start as int, isig as int);
        let ghost keys = items.subrange(keys_start as int, ikey as int);
        if isig - sigs_start > ikey - keys_start {
            return false;
        }
        let ok = check_signature(ctx, stack[isig - 1].as_slice(), stack[ikey - 1].as_slice());
        proof {
            assert(sigs.last() == items[isig - 1]);
            assert(keys.last() == items[ikey - 1]);
            assert(sigs.drop_last() =~= items.subrange(sigs_start as int, isig - 1));
            assert(keys.drop_last() =~= items.subrange(keys_start as int, ikey - 1));
        }
        if ok {
            isig -= 1;
        }
        ikey -= 1;
    }
    true
}

fn exec_multisig(m: &mut Machine, ctx: &ExecutionContext, verify: bool) -> (r: Result<(), Error>)
    requires
        ctx.wf(),
        old(m).op_count <= MAX_OPS_PER_SCRIPT,
    ensures
        outcome_matches(r, final(m)@, multisig_step(old(m)@, ctx@, verify)),
        r is Ok ==> final(m).op_count <= MAX_OPS_PER_SCRIPT,
{
    let len = m.stack.len();
    if len < 1 {
        return Err(Error::StackUnderflow);
    }
    let ghost s = byte_strings_view(m.stack@);
    let n = match decode_num(m.stack[len - 1].as_slice()) {
        Ok(n) => n,
        Err(e) => return Err(e),
    };
    if n < 0 || n > MAX_PUBKEYS_PER_MULTISIG as i64 {
        return Err(Error::MalformedScript);
    }
    let n = n as usize;
    if m.op_count + n > MAX_OPS_PER_SCRIPT {
        return Err(Error::MalformedScript);
    }
    if len < n + 2 {
        return Err(Error::StackUnderflow);
    }
    let keys_end = len - 1;
    let keys_start = keys_end - n;
    let k = match decode_num(m.stack[keys_start - 1].as_slice()) {
        Ok(k) => k,
        Err(e) => return Err(e),
    };
    if k < 0 || k > n as i64 {
        return Err(Error::MalformedScript);
    }
    let k = k as usize;
    if len < n + k + 3 {
        return Err(Error::StackUnderflow);
    }
    let sigs_end = keys_start - 1;
    let sigs_start = sigs_end - k;
    let ok = multisig_check(&m.stack, ctx, sigs_start, sigs_end, keys_start, keys_end);
    m.stack.truncate(sigs_start - 1);
    assert(byte_strings_view(m.stack@) =~= s.take(sigs_start - 1));
    m.op_count = m.op_count + n;
    if verify {
        if ok {
            Ok(())
        } else {
            Err(Error::SignatureInvalid)
        }
    } else {
        push_item(&mut m.stack, encode_bool(ok));
        if !ok {
            m.sig_failed = true;
        }
        Ok(())
    }
}

/// Whether every open branch is on its taken side.
fn is_executing(branches: &Vec<bool>) -> (r: bool)
    ensures
        r == !branches@.contains(false),
{
    let mut i: usize = 0;
    while i < branches.len()
        invariant
            i <= branches.len(),
            forall|j: int| 0 <= j < i ==> branches@[j],
        decreases branches.len() - i,
    {
        if !branches[i] {
            return false;
        }
        i += 1;
    }
    true
}

fn exec_flow(m: &mut Machine, code: Opcode) -> (r: Result<(), Error>)
    requires
        is_flow_op(code),
    ensures
        outcome_matches(r, final(m)@, flow_step(old(m)@, code)),
        r is Ok ==> final(m).op_count == old(m).op_count,
{
    match code {
        Opcode::OpIf | Opcode::OpNotIf => {
            if is_executing(&m.branches) {
                if m.stack.len() < 1 {
                    return Err(Error::StackUnderflow);
                }
                let top = pop_item(&mut m.stack);
                let wanted = match code {
                    Opcode::OpIf => true,
                    _ => false,
                };
                m.branches.push(is_truthy(top.as_slice()) == wanted);
            } else {
                m.branches.push(false);
            }
            Ok(())
        },
        Opcode::OpElse => {
            match m.branches.pop() {
                None => Err(Error::MalformedScript),
                Some(taken) => {
                    m.branches.push(!taken);
                    Ok(())
                },
            }
        },
        _ => {
            match m.branches.pop() {
                None => Err(Error::MalformedScript),
                Some(_) => Ok(()),
            }
        },
    }
}

fn exec_opcode(m: &mut Machine, code: Opcode, ctx: &ExecutionContext) -> (r: Result<(), Error>)
    requires
        ctx.wf(),
        old(m).op_count <= MAX_OPS_PER_SCRIPT,
    ensures
        outcome_matches(r, final(m)@, opcode_step(old(m)@, code, ctx@)),
        r is Ok ==> final(m).op_count <= MAX_OPS_PER_SCRIPT,
{
    match code.small_number() {
        Some(n) => {
            push_item(&mut m.stack, encode_num(n as i64));
            return Ok(());
        },
        None => {},
    }
    match pattern_for(code) {
        Some((window, picks)) => {
            return exec_shuffle(m, window, &picks);
        },
        None => {},
    }
    match code {
        Opcode::Op1Add
        | Opcode::Op1Sub
        | Opcode::OpNegate
        | Opcode::OpAbs
        | Opcode::OpNot
        | Opcode::Op0NotEqual => exec_unary(m, code),
        Opcode::OpAdd
        | Opcode::OpSub
        | Opcode::OpBoolAnd
        | Opcode::OpBoolOr
        | Opcode::OpNumEqual
        | Opcode::OpNumEqualVerify
        | Opcode::OpNumNotEqual
        | Opcode::OpLessThan
        | Opcode::OpGreaterThan
        | Opcode::OpLessThanOrEqual
        | Opcode::OpGreaterThanOrEqual
        | Opcode::OpMin
        | Opcode::OpMax => exec_binary(m, code),
        Opcode::OpRipemd160 | Opcode::OpSha256 | Opcode::OpHash160 | Opcode::OpHash256 => exec_hash(
            m,
            code,
        ),
        Opcode::OpVerify => {
            if m.stack.len() < 1 {
                return Err(Error::StackUnderflow);
            }
            let top = pop_item(&mut m.stack);
            if is_truthy(top.as_slice()) {
                Ok(())
            } else {
                Err(Error::ScriptEvaluationFailed)
            }
        },
        Opcode::OpReturn => Err(Error::ScriptEvaluationFailed),
        Opcode::OpToAltStack => {
            if m.stack.len() < 1 {
                return Err(Error::StackUnderflow);
            }
            let top = pop_item(&mut m.stack);
            push_item(&mut m.alt_stack, top);
            Ok(())
        },
        Opcode::OpFromAltStack => {
            if m.alt_stack.len() < 1 {
                return Err(Error::StackUnderflow);
            }
            let top = pop_item(&mut m.alt_stack);
            push_item(&mut m.stack, top);
            Ok(())
        },
        Opcode::OpIfDup => {
            if m.stack.len() < 1 {
                return Err(Error::StackUnderflow);
            }
            let top = peek_item(&m.stack, 0);
            if is_truthy(top.as_slice()) {
                push_item(&mut m.stack, top);
            }
            Ok(())
        },
        Opcode::OpDepth => {
            let depth = m.stack.len();
            push_item(&mut m.stack, encode_count(depth));
            Ok(())
        },
        Opcode::OpSize => {
            if m.stack.len() < 1 {
                return Err(Error::StackUnderflow);
            }
            let size = m.stack[m.stack.len() - 1].len();
            push_item(&mut m.stack, encode_count(size));
            Ok(())
        },
        Opcode::OpPick => exec_pick(m, false),
        Opcode::OpRoll => exec_pick(m, true),
        Opcode::OpEqual => exec_equal(m, false),
        Opcode::OpEqualVerify => exec_equal(m, true),
        Opcode::OpWithin => exec_within(m),
        Opcode::OpCheckSig => exec_checksig(m, ctx, false),
        Opcode::OpCheckSigVerify => exec_checksig(m, ctx, true),
        Opcode::OpCheckMultiSig => exec_multisig(m, ctx, false),
        Opcode::OpCheckMultiSigVerify => exec_multisig(m, ctx, true),
        _ => Ok(()),
    }
}

fn within_stack_limit(m: &Machine) -> (r: bool)
    ensures
        r == (m@.stack.len() + m@.alt_stack.len() <= MAX_STACK_SIZE),
{
    m.stack.len() <= MAX_STACK_SIZE && m.alt_stack.len() <= MAX_STACK_SIZE - m.stack.len()
}

impl Machine {
    /// The machine before the first op.
    pub fn new() -> (m: Machine)
        ensures
            m@ == initial_machine(),
    {
        let m = Machine {
            stack: Vec::new(),
            alt_stack: Vec::new(),
            branches: Vec::new(),
            op_count: 0,
            sig_failed: false,
        };
        assert(m@.stack =~= Seq::<Seq<u8>>::empty());
        assert(m@.alt_stack =~= Seq::<Seq<u8>>::empty());
        m
    }

    /// Performs one op.
    pub fn step(&mut self, op: &ScriptOp, ctx: &ExecutionContext) -> (r: Result<(), Error>)
        requires
            ctx.wf(),
            old(self).op_count <= MAX_OPS_PER_SCRIPT,
        ensures
            outcome_matches(r, final(self)@, step(old(self)@, op@, ctx@)),
            r is Ok ==> final(self).op_count <= MAX_OPS_PER_SCRIPT,
    {
        match op {
            ScriptOp::Invalid => Err(Error::MalformedScript),
            ScriptOp::PushBytes(data) => {
                if data.len() > MAX_SCRIPT_ELEMENT_SIZE {
                    return Err(Error::MalformedScript);
                }
                if is_executing(&self.branches) {
                    push_item(&mut self.stack, copy_bytes(data.as_slice()));
                    if !within_stack_limit(self) {
                        return Err(Error::ScriptEvaluationFailed);
                    }
                }
                Ok(())
            },
            ScriptOp::Opcode(code) => {
                let code = *code;
                if code.is_disabled() {
                    return Err(Error::DisabledOpcode);
                }
                let counted: usize = match code.small_number() {
                    None => 1,
                    Some(_) => 0,
                };
                if self.op_count + counted > MAX_OPS_PER_SCRIPT {
                    return Err(Error::MalformedScript);
                }
                self.op_count = self.op_count + counted;
                match code {
                    Opcode::OpIf | Opcode::OpNotIf | Opcode::OpElse | Opcode::OpEndIf => exec_flow(
                        self,
                        code,
                    ),
                    _ => {
                        if is_executing(&self.branches) {
                            match exec_opcode(self, code, ctx) {
                                Err(e) => return Err(e),
                                Ok(()) => {},
                            }
                            if !within_stack_limit(self) {
                                return Err(Error::ScriptEvaluationFailed);
                            }
                        }
                        Ok(())
                    },
                }
            },
        }
    }

    /// Runs the ops of `script` from left to right, stopping at the first
    /// failure.
    pub fn run(&mut self, script: &Script, ctx: &ExecutionContext) -> (r: Result<(), Error>)
        requires
            ctx.wf(),
            old(self).op_count <= MAX_OPS_PER_SCRIPT,
        ensures
            outcome_matches(r, final(self)@, run(script@, old(self)@, ctx@)),
            r is Ok ==> final(self).op_count <= MAX_OPS_PER_SCRIPT,
    {
        let mut i: usize = 0;
        assert(script@.skip(0) =~= script@);
        while i < script.ops.len()
            invariant
                i <= script.ops.len(),
                ctx.wf(),
                self.op_count <= MAX_OPS_PER_SCRIPT,
                run(script@.skip(i as int), self@, ctx@) == run(script@, old(self)@, ctx@),
            decreases script.ops.len() - i,
        {
            proof {
                let rest = script@.skip(i as int);
                assert(rest[0] == script.ops@[i as int]@);
                assert(rest.drop_first() =~= script@.skip(i + 1));
            }
            match self.step(&script.ops[i], ctx) {
                Err(e) => return Err(e),
                Ok(()) => {},
            }
            i += 1;
        }
        Ok(())
    }

    /// The verdict on a machine that ran to the end.
    pub fn verdict(&self) -> (r: Result<(), Error>)
        ensures
            r == verdict(self@),
    {
        if self.branches.len() > 0 {
            Err(Error::MalformedScript)
        } else if self.stack.len() == 1 && is_truthy(self.stack[0].as_slice()) {
            Ok(())
        } else if self.sig_failed {
            Err(Error::SignatureInvalid)
        } else {
            Err(Error::ScriptEvaluationFailed)
        }
    }
}

/// Running a concatenation is running the first part, then the second
/// from where the first ended.
pub proof fn lemma_run_concat(
    first: Seq<ScriptOpView>,
    second: Seq<ScriptOpView>,
    m: MachineView,
    ctx: ContextView,
)
    ensures
        run(first + second, m, ctx) == match run(first, m, ctx) {
            Err(e) => Err::<MachineView, Error>(e),
            Ok(next) => run(second, next, ctx),
        },
    decreases first.len(),
{
    if first.len() == 0 {
        assert(first + second =~= second);
    } else {
        let all = first + second;
        assert(all[0] == first[0]);
        assert(all.drop_first() =~= first.drop_first() + second);
        match step(m, first[0], ctx) {
            Err(e) => {},
            Ok(next) => {
                lemma_run_concat(first.drop_first(), second, next, ctx);
            },
        }
    }
}

/// Evaluates the unlocking script followed by the locking script and
/// gives the verdict.
pub fn evaluate(unlock: &Script, lock: &Script, ctx: &ExecutionContext) -> (r: Result<(), Error>)
    requires
        ctx.wf(),
    ensures
        r == evaluate_spec(unlock@, lock@, ctx@),
{
    proof {
        lemma_run_concat(unlock@, lock@, initial_machine(), ctx@);
    }
    let mut m = Machine::new();
    match m.run(unlock, ctx) {
        Err(e) => return Err(e),
        Ok(()) => {},
    }
    match m.run(lock, ctx) {
        Err(e) => return Err(e),
        Ok(()) => {},
    }
    m.verdict()
}

/// The outcome of validating the input at `input_index` against the
/// output `prior` that it spends.
pub open spec fn verify_input_spec(tx: TransactionView, input_index: int, prior: TxOutputView)
    -> Result<(), Error> {
    evaluate_spec(
        tx.inputs[input_index].unlock_script,
        prior.lock_script,
        context_for(tx, input_index, prior),
    )
}

/// The outcome of validating the inputs from `from` on, in order: the
/// first failure, or success.
pub open spec fn validate_from(tx: TransactionView, spent: Seq<TxOutputView>, from: int) -> Result<
    (),
    Error,
>
    decreases tx.inputs.len() - from,
{
    if from >= tx.inputs.len() {
        Ok(())
    } else {
        match verify_input_spec(tx, from, spent[from]) {
            Err(e) => Err(e),
            Ok(_) => validate_from(tx, spent, from + 1),
        }
    }
}

/// The outcome of validating a transaction against the outputs it spends,
/// one per input and in the order of the inputs: `MalformedScript` when
/// the counts differ, else the first failure among the inputs, or success.
pub open spec fn validate_spec(tx: TransactionView, spent: Seq<TxOutputView>) -> Result<(), Error> {
    if spent.len() != tx.inputs.len() {
        Err(Error::MalformedScript)
    } else {
        validate_from(tx, spent, 0)
    }
}

/// Validates the input at `input_index` of `tx` against the output that
/// it spends.
pub fn verify_input(tx: &Transaction, input_index: usize, prior_output: &TxOutput) -> (r: Result<
    (),
    Error,
>)
    requires
        tx.wf(),
        prior_output.wf(),
        input_index < tx@.inputs.len(),
    ensures
        r == verify_input_spec(tx@, input_index as int, prior_output@),
{
    let ctx = match ExecutionContext::new(tx, input_index, prior_output) {
        Some(ctx) => ctx,
        None => return Err(Error::MalformedScript),
    };
    let inputs = tx.inputs();
    assert(inputs_view(inputs@)[input_index as int] == inputs@[input_index as int]@);
    evaluate(&inputs[input_index].unlock_script, &prior_output.lock_script, &ctx)
}

/// Validates every input of `tx` against the outputs it spends, given one
/// per input and in the order of the inputs.
pub fn validate_transaction(tx: &Transaction, spent: &Vec<TxOutput>) -> (r: Result<(), Error>)
    requires
        tx.wf(),
        outputs_wf(spent@),
    ensures
        r == validate_spec(tx@, outputs_view(spent@)),
{
    let inputs = tx.inputs();
    assert(inputs@.len() == inputs_view(inputs@).len());
    if spent.len() != inputs.len() {
        return Err(Error::MalformedScript);
    }
    let count = inputs.len();
    let mut i: usize = 0;
    while i < count
        invariant
            i <= count,
            count == tx@.inputs.len(),
            count == spent.len(),
            tx.wf(),
            outputs_wf(spent@),
            validate_from(tx@, outputs_view(spent@), i as int) == validate_spec(
                tx@,
                outputs_view(spent@),
            ),
        decreases count - i,
    {
        assert(outputs_view(spent@)[i as int] == spent@[i as int]@);
        match verify_input(tx, i, &spent[i]) {
            Err(e) => return Err(e),
            Ok(()) => {},
        }
        i += 1;
    }
    Ok(())
}

/// Whether every input of `tx` is valid against the outputs it spends.
pub fn is_valid(tx: &Transaction, spent: &Vec<TxOutput>) -> (valid: bool)
    requires
        tx.wf(),
        outputs_wf(spent@),
    ensures
        valid == (validate_spec(tx@, outputs_view(spent@)) is Ok),
{
    validate_transaction(tx, spent).is_ok()
}

} // verus!
