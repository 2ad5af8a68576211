//! What holds across the engine: statements that relate signing,
//! encoding and evaluation to one another.

use crate::address::{address_for, lemma_lock_names_hash, Address, AddressType};
use crate::builder::{
    estimated_size, input_digest, input_signature, pay_outcome, payment_size, sign_outcome,
    signed_input, signed_tx, unsigned_tx, UnsignedBuildView, BUILD_SIGHASH_FLAGS,
};
use crate::codec::{
    i32_bytes, lemma_le_bytes_len, lemma_le_value_of_le_bytes, lemma_pow256_values, to_twos,
    u32_bytes, u64_bytes, var_bytes,
};
use crate::error::Error;
use crate::hash::hash160_spec;
use crate::interpreter::{
    context_for, evaluate_spec, executing, has_fork_id, initial_machine, is_binary, is_unary,
    lemma_run_concat, run, signature_checks, step, validate_transaction, verify_input_spec,
    ContextView, MachineView, MAX_OPS_PER_SCRIPT,
};
use crate::keys::{ecdsa_signature, public_key_of, signature_sound};
use crate::number::{bool_bytes, num_minimal, truthy, MAX_NUM_SIZE};
use crate::payment::{change_plan, required_funds};
use crate::opcode::{opcode_disabled, Opcode};
use crate::script::{
    op_bytes, pay_to_key_hash_lock_ops, pay_to_key_hash_unlock_ops, script_bytes, Script,
    ScriptOpView,
};
use crate::hash::double_hash_spec;
use crate::sighash::{
    hash_outputs, hash_prevouts, hash_sequence, prevout_parts, sequence_parts,
    sighash_covers_all_outputs, sighash_preimage_spec, sighash_spec, sighash_type_bytes,
};
use crate::tx::{
    concat_all, input_bytes, input_parts, lemma_parse_outputs_of_bytes, outpoint_bytes,
    output_bytes, output_fits, output_parts, outputs_bytes, outputs_fit, tx_bytes, Transaction,
    TransactionView, TxInputView, TxOutput, TxOutputView,
};
use vstd::prelude::*;

verus! {

/// Running a script that starts with `op` is taking the step for `op`
/// and running the rest.
pub proof fn lemma_run_first(
    op: ScriptOpView,
    rest: Seq<ScriptOpView>,
    m: MachineView,
    ctx: ContextView,
)
    ensures
        run(seq![op] + rest, m, ctx) == match step(m, op, ctx) {
            Err(e) => Err::<MachineView, Error>(e),
            Ok(next) => run(rest, next, ctx),
        },
{
    let all = seq![op] + rest;
    assert(all[0] == op);
    assert(all.drop_first() =~= rest);
}

/// The preimage of an input does not read any unlocking script: signing
/// the inputs of a build leaves every input's digest as it was.
pub proof fn lemma_signing_keeps_digests(b: UnsignedBuildView, secret: Seq<u8>, index: int)
    requires
        0 <= index < b.inputs.len(),
    ensures
        sighash_spec(
            signed_tx(b, secret),
            index,
            script_bytes(b.prior_outputs[index].lock_script),
            b.prior_outputs[index].value,
            BUILD_SIGHASH_FLAGS,
        ) == input_digest(b, index),
{
    let before = unsigned_tx(b);
    let after = signed_tx(b, secret);
    assert(prevout_parts(after.inputs) =~= prevout_parts(before.inputs));
    assert(sequence_parts(after.inputs) =~= sequence_parts(before.inputs));
    assert(hash_prevouts(after.inputs, BUILD_SIGHASH_FLAGS) == hash_prevouts(
        before.inputs,
        BUILD_SIGHASH_FLAGS,
    ));
    assert(hash_sequence(after.inputs, BUILD_SIGHASH_FLAGS) == hash_sequence(
        before.inputs,
        BUILD_SIGHASH_FLAGS,
    ));
    assert(after.inputs[index].previous_output == before.inputs[index].previous_output);
    assert(after.inputs[index].sequence == before.inputs[index].sequence);
}

/// The state after the two pushes of a pay-to-key-hash unlock.
pub open spec fn after_unlock(signature: Seq<u8>, pubkey: Seq<u8>) -> MachineView {
    MachineView { stack: seq![signature, pubkey], ..initial_machine() }
}

/// A pay-to-key-hash unlock with items of at most 520 bytes runs to the
/// state that holds the signature below the key.
pub proof fn lemma_unlock_runs(signature: Seq<u8>, pubkey: Seq<u8>, ctx: ContextView)
    requires
        signature.len() <= 520,
        pubkey.len() <= 520,
    ensures
        run(pay_to_key_hash_unlock_ops(signature, pubkey), initial_machine(), ctx) == Ok::<
            MachineView,
            Error,
        >(after_unlock(signature, pubkey)),
{
    let m0 = initial_machine();
    let m1 = MachineView { stack: seq![signature], ..m0 };
    let m2 = after_unlock(signature, pubkey);
    let o0 = ScriptOpView::PushBytes(signature);
    let o1 = ScriptOpView::PushBytes(pubkey);
    let none = Seq::<ScriptOpView>::empty();
    assert(executing(m0));
    assert(m0.stack.push(signature) =~= seq![signature]);
    assert(step(m0, o0, ctx) == Ok::<MachineView, Error>(m1));
    assert(executing(m1));
    assert(m1.stack.push(pubkey) =~= seq![signature, pubkey]);
    assert(step(m1, o1, ctx) == Ok::<MachineView, Error>(m2));
    lemma_run_first(o0, seq![o1] + none, m0, ctx);
    lemma_run_first(o1, none, m1, ctx);
    assert(pay_to_key_hash_unlock_ops(signature, pubkey) =~= seq![o0] + (seq![o1] + none));
}

/// What a pay-to-key-hash lock for `hash` makes of a signature below a
/// key: a key with another fingerprint stops at the comparison; else the
/// signature check decides between one true item and one false item.
pub proof fn lemma_lock_runs(signature: Seq<u8>, pubkey: Seq<u8>, hash: Seq<u8>, ctx: ContextView)
    requires
        hash.len() <= 520,
    ensures
        run(pay_to_key_hash_lock_ops(hash), after_unlock(signature, pubkey), ctx) == (if hash160_spec(
            pubkey,
        ) != hash {
            Err::<MachineView, Error>(Error::ScriptEvaluationFailed)
        } else {
            let ok = signature_checks(ctx, signature, pubkey);
            Ok::<MachineView, Error>(
                MachineView {
                    stack: seq![bool_bytes(ok)],
                    op_count: 4,
                    sig_failed: !ok,
                    ..initial_machine()
                },
            )
        }),
{
    let fingerprint = hash160_spec(pubkey);
    let m2 = after_unlock(signature, pubkey);
    let m3 = MachineView { stack: seq![signature, pubkey, pubkey], op_count: 1, ..m2 };
    let m4 = MachineView { stack: seq![signature, pubkey, fingerprint], op_count: 2, ..m2 };
    let m5 = MachineView { stack: seq![signature, pubkey, fingerprint, hash], op_count: 2, ..m2 };
    let m6 = MachineView { stack: seq![signature, pubkey], op_count: 3, ..m2 };
    let ok = signature_checks(ctx, signature, pubkey);
    let m7 = MachineView { stack: seq![bool_bytes(ok)], op_count: 4, sig_failed: !ok, ..m2 };
    let o2 = ScriptOpView::Opcode(Opcode::OpDup);
    let o3 = ScriptOpView::Opcode(Opcode::OpHash160);
    let o4 = ScriptOpView::PushBytes(hash);
    let o5 = ScriptOpView::Opcode(Opcode::OpEqualVerify);
    let o6 = ScriptOpView::Opcode(Opcode::OpCheckSig);
    let none = Seq::<ScriptOpView>::empty();
    let s6 = seq![o6] + none;
    let s5 = seq![o5] + s6;
    let s4 = seq![o4] + s5;
    let s3 = seq![o3] + s4;
    let s2 = seq![o2] + s3;
    assert(pay_to_key_hash_lock_ops(hash) =~= s2);
    assert(executing(m2));
    assert(step(m2, o2, ctx) == Ok::<MachineView, Error>(m3)) by {
        let window = m2.stack.take(1) + Seq::new(2, |j: int| m2.stack[1 + seq![0usize, 0usize][j]]);
        assert(window =~= m3.stack);
    }
    assert(executing(m3));
    assert(step(m3, o3, ctx) == Ok::<MachineView, Error>(m4)) by {
        assert(m3.stack.drop_last().push(fingerprint) =~= m4.stack);
    }
    assert(executing(m4));
    assert(step(m4, o4, ctx) == Ok::<MachineView, Error>(m5)) by {
        assert(m4.stack.push(hash) =~= m5.stack);
    }
    assert(executing(m5));
    lemma_run_first(o2, s3, m2, ctx);
    lemma_run_first(o3, s4, m3, ctx);
    lemma_run_first(o4, s5, m4, ctx);
    lemma_run_first(o5, s6, m5, ctx);
    if fingerprint != hash {
        assert(step(m5, o5, ctx) == Err::<MachineView, Error>(Error::ScriptEvaluationFailed));
    } else {
        assert(step(m5, o5, ctx) == Ok::<MachineView, Error>(m6)) by {
            assert(m5.stack.drop_last().drop_last() =~= m6.stack);
        }
        assert(executing(m6));
        assert(step(m6, o6, ctx) == Ok::<MachineView, Error>(m7)) by {
            assert(m6.stack.drop_last().drop_last().push(bool_bytes(ok)) =~= m7.stack);
        }
        lemma_run_first(o6, none, m6, ctx);
    }
}

/// The verdict on a pay-to-key-hash spend: the unlock `signature`,
/// `pubkey` against the lock for `hash` succeeds exactly when the key has
/// that fingerprint and the signature checks; a key with another
/// fingerprint gives `ScriptEvaluationFailed`, a signature that does not
/// check gives `SignatureInvalid`.
pub proof fn pay_to_key_hash_verdict(
    signature: Seq<u8>,
    pubkey: Seq<u8>,
    hash: Seq<u8>,
    ctx: ContextView,
)
    requires
        signature.len() <= 520,
        pubkey.len() <= 520,
        hash.len() <= 520,
    ensures
        evaluate_spec(
            pay_to_key_hash_unlock_ops(signature, pubkey),
            pay_to_key_hash_lock_ops(hash),
            ctx,
        ) == (if hash160_spec(pubkey) != hash {
            Err::<(), Error>(Error::ScriptEvaluationFailed)
        } else if signature_checks(ctx, signature, pubkey) {
            Ok::<(), Error>(())
        } else {
            Err::<(), Error>(Error::SignatureInvalid)
        }),
{
    let unlock = pay_to_key_hash_unlock_ops(signature, pubkey);
    let lock = pay_to_key_hash_lock_ops(hash);
    lemma_run_concat(unlock, lock, initial_machine(), ctx);
    lemma_unlock_runs(signature, pubkey, ctx);
    lemma_lock_runs(signature, pubkey, hash, ctx);
    if hash160_spec(pubkey) == hash {
        let ok = signature_checks(ctx, signature, pubkey);
        if ok {
            assert(bool_bytes(true)[0] != 0);
            assert(truthy(bool_bytes(true)));
        } else {
            assert(!truthy(bool_bytes(false)));
        }
    }
}

/// An input that the build has signed unlocks the pay-to-key-hash output
/// of the signing key: validating it against that output succeeds.
pub proof fn signed_input_unlocks_own_key(
    b: UnsignedBuildView,
    secret: Seq<u8>,
    index: int,
    hash: Seq<u8>,
)
    requires
        sign_outcome(b, secret) is Ok,
        0 <= index < b.inputs.len(),
        index < b.prior_outputs.len(),
        hash.len() == 20,
        hash == hash160_spec(public_key_of(secret)),
        b.prior_outputs[index].lock_script == pay_to_key_hash_lock_ops(hash),
    ensures
        verify_input_spec(sign_outcome(b, secret).unwrap(), index, b.prior_outputs[index]) == Ok::<
            (),
            Error,
        >(()),
{
    let tx = signed_tx(b, secret);
    let prior = b.prior_outputs[index];
    let ctx = context_for(tx, index, prior);
    let signature = input_signature(b, secret, index);
    let pubkey = public_key_of(secret);
    let der = ecdsa_signature(secret, input_digest(b, index));
    assert(signature_sound(secret, input_digest(b, index)));
    assert(signature.last() == BUILD_SIGHASH_FLAGS);
    assert(signature.drop_last() =~= der);
    assert(has_fork_id(BUILD_SIGHASH_FLAGS));
    lemma_signing_keeps_digests(b, secret, index);
    assert(signature_checks(ctx, signature, pubkey));
    assert(tx.inputs[index] == signed_input(b, secret, index));
    pay_to_key_hash_verdict(signature, pubkey, hash, ctx);
}

/// An input that the build has signed does not unlock a pay-to-key-hash
/// output of a key with another fingerprint: validating it against such an
/// output fails with `ScriptEvaluationFailed`.
pub proof fn signed_input_fails_other_key(
    b: UnsignedBuildView,
    secret: Seq<u8>,
    index: int,
    other: TxOutputView,
    hash: Seq<u8>,
)
    requires
        sign_outcome(b, secret) is Ok,
        0 <= index < b.inputs.len(),
        hash.len() == 20,
        hash != hash160_spec(public_key_of(secret)),
        other.lock_script == pay_to_key_hash_lock_ops(hash),
    ensures
        verify_input_spec(sign_outcome(b, secret).unwrap(), index, other) == Err::<(), Error>(
            Error::ScriptEvaluationFailed,
        ),
{
    let tx = signed_tx(b, secret);
    let ctx = context_for(tx, index, other);
    let signature = input_signature(b, secret, index);
    let pubkey = public_key_of(secret);
    assert(signature_sound(secret, input_digest(b, index)));
    assert(tx.inputs[index] == signed_input(b, secret, index));
    pay_to_key_hash_verdict(signature, pubkey, hash, ctx);
}

/// A disabled opcode fails the script in every state, whether or not it
/// lies on a taken branch.
pub proof fn disabled_opcode_always_fails(m: MachineView, code: Opcode, ctx: ContextView)
    requires
        opcode_disabled(code),
    ensures
        step(m, ScriptOpView::Opcode(code), ctx) == Err::<MachineView, Error>(
            Error::DisabledOpcode,
        ),
{
}

/// An op that did not decode fails the script in every state, whether or
/// not it lies on a taken branch.
pub proof fn invalid_op_always_fails(m: MachineView, ctx: ContextView)
    ensures
        step(m, ScriptOpView::Invalid, ctx) == Err::<MachineView, Error>(Error::MalformedScript),
{
}

/// A script fails as soon as one of its ops does: what follows the
/// failing op is never run.
pub proof fn failure_stops_the_run(
    before: Seq<ScriptOpView>,
    after: Seq<ScriptOpView>,
    m: MachineView,
    ctx: ContextView,
)
    requires
        run(before, m, ctx) is Err,
    ensures
        run(before + after, m, ctx) == run(before, m, ctx),
{
    lemma_run_concat(before, after, m, ctx);
}

/// The address adapter gives back the fingerprint that a pay-to-key-hash
/// lock was made for.
pub proof fn address_of_lock_names_its_hash(script: &Script, hash: Seq<u8>, found: Option<Address>)
    requires
        hash.len() == 20,
        script@ == pay_to_key_hash_lock_ops(hash),
        call_ensures(address_for, (script,), found),
    ensures
        found is Some,
        found.unwrap().kind == AddressType::PayToKeyHash,
        found.unwrap().hash@ == hash,
{
    if found is Some {
        lemma_lock_names_hash(found.unwrap().hash@, hash);
    }
}

/// A one-operand arithmetic op on a padded operand of at most four bytes
/// fails with `PushNonMinimalData`.
pub proof fn padded_operand_fails_unary(m: MachineView, code: Opcode, ctx: ContextView)
    requires
        is_unary(code),
        executing(m),
        m.op_count < MAX_OPS_PER_SCRIPT,
        m.stack.len() >= 1,
        m.stack.last().len() <= MAX_NUM_SIZE,
        !num_minimal(m.stack.last()),
    ensures
        step(m, ScriptOpView::Opcode(code), ctx) == Err::<MachineView, Error>(
            Error::PushNonMinimalData,
        ),
{
}

/// A two-operand arithmetic op on operands of at most four bytes, one of
/// them padded, fails with `PushNonMinimalData`.
pub proof fn padded_operand_fails_binary(m: MachineView, code: Opcode, ctx: ContextView)
    requires
        is_binary(code),
        executing(m),
        m.op_count < MAX_OPS_PER_SCRIPT,
        m.stack.len() >= 2,
        m.stack.last().len() <= MAX_NUM_SIZE,
        m.stack[m.stack.len() - 2].len() <= MAX_NUM_SIZE,
        !num_minimal(m.stack.last()) || !num_minimal(m.stack[m.stack.len() - 2]),
    ensures
        step(m, ScriptOpView::Opcode(code), ctx) == Err::<MachineView, Error>(
            Error::PushNonMinimalData,
        ),
{
}

/// The range test on operands of at most four bytes, one of them padded,
/// fails with `PushNonMinimalData`.
pub proof fn padded_operand_fails_within(m: MachineView, ctx: ContextView)
    requires
        executing(m),
        m.op_count < MAX_OPS_PER_SCRIPT,
        m.stack.len() >= 3,
        forall|i: int| m.stack.len() - 3 <= i < m.stack.len() ==> (#[trigger] m.stack[i]).len()
            <= MAX_NUM_SIZE,
        exists|i: int| m.stack.len() - 3 <= i < m.stack.len() && !num_minimal(#[trigger] m.stack[i]),
    ensures
        step(m, ScriptOpView::Opcode(Opcode::OpWithin), ctx) == Err::<MachineView, Error>(
            Error::PushNonMinimalData,
        ),
{
    let n = m.stack.len();
    assert(m.stack[n - 3].len() <= MAX_NUM_SIZE);
    assert(m.stack[n - 2].len() <= MAX_NUM_SIZE);
    assert(m.stack[n - 1].len() <= MAX_NUM_SIZE);
}

/// The change of a payment is exactly what the balance leaves after the
/// amount, the fee and the margin, and is never negative: a change output
/// has that value and is not dust; no change output means that what is
/// left is dust; and the payment fails exactly when nothing is left to
/// cover it.
pub proof fn change_is_what_is_left(
    balance: u64,
    send_amount: u64,
    estimated_size: u64,
    margin: u64,
    dust_threshold: u64,
)
    ensures
        ({
            let left = balance - send_amount - estimated_size - margin;
            match change_plan(balance, send_amount, estimated_size, margin, dust_threshold) {
                Ok(Some(change)) => change == left && change >= dust_threshold,
                Ok(None) => 0 <= left < dust_threshold,
                Err(e) => e == Error::InsufficientFunds && left < 0,
            }
        }),
{
}

/// The dust threshold is inclusive: what is left one unit below it is
/// dropped, what is left exactly at it becomes the change output.
pub proof fn dust_threshold_is_inclusive(
    balance: u64,
    send_amount: u64,
    estimated_size: u64,
    margin: u64,
    dust_threshold: u64,
)
    requires
        required_funds(send_amount, estimated_size, margin) <= balance,
    ensures
        balance - required_funds(send_amount, estimated_size, margin) == dust_threshold
            ==> change_plan(balance, send_amount, estimated_size, margin, dust_threshold) == Ok::<
            Option<u64>,
            Error,
        >(Some(dust_threshold)),
        balance - required_funds(send_amount, estimated_size, margin) == dust_threshold - 1
            ==> change_plan(balance, send_amount, estimated_size, margin, dust_threshold) == Ok::<
            Option<u64>,
            Error,
        >(None),
{
}

/// Whether the double hash tells the two byte strings apart.
pub open spec fn hash_separates(first: Seq<u8>, second: Seq<u8>) -> bool {
    first != second ==> double_hash_spec(first) != double_hash_spec(second)
}

/// A list of parts concatenates to what its first `at` parts and its
/// other parts concatenate to, one after the other.
pub proof fn lemma_concat_all_split(parts: Seq<Seq<u8>>, at: int)
    requires
        0 <= at <= parts.len(),
    ensures
        concat_all(parts) == concat_all(parts.take(at)) + concat_all(parts.skip(at)),
    decreases parts.len(),
{
    if at == parts.len() {
        assert(parts.take(at) =~= parts);
        assert(parts.skip(at) =~= Seq::<Seq<u8>>::empty());
        assert(concat_all(parts.skip(at)) =~= Seq::<u8>::empty());
        assert(concat_all(parts) =~= concat_all(parts.take(at)) + concat_all(parts.skip(at)));
    } else {
        let init = parts.drop_last();
        lemma_concat_all_split(init, at);
        assert(init.take(at) =~= parts.take(at));
        assert(parts.skip(at).drop_last() =~= init.skip(at));
        assert(parts.skip(at).last() == parts.last());
        assert(concat_all(parts) =~= concat_all(parts.take(at)) + concat_all(parts.skip(at)));
    }
}

/// The encoding of a non-empty list of outputs is not empty.
pub proof fn lemma_outputs_bytes_nonempty(outputs: Seq<TxOutputView>)
    requires
        outputs.len() > 0,
    ensures
        outputs_bytes(outputs).len() > 0,
{
    let parts = output_parts(outputs);
    assert(parts.last() == output_bytes(outputs.last()));
    lemma_le_bytes_len(outputs.last().value as nat, 8);
}

/// A list of outputs that is no longer than another and has the same
/// encoding is the same list.
pub proof fn lemma_outputs_bytes_injective_ordered(
    shorter: Seq<TxOutputView>,
    longer: Seq<TxOutputView>,
)
    requires
        outputs_fit(shorter),
        outputs_fit(longer),
        shorter.len() <= longer.len(),
        outputs_bytes(shorter) == outputs_bytes(longer),
    ensures
        shorter == longer,
{
    let k = shorter.len() as int;
    let head = longer.take(k);
    let tail = longer.skip(k);
    let parts = output_parts(longer);
    lemma_concat_all_split(parts, k);
    assert(parts.take(k) =~= output_parts(head));
    assert(parts.skip(k) =~= output_parts(tail));
    assert(outputs_bytes(longer) == outputs_bytes(head) + outputs_bytes(tail));
    assert(outputs_fit(head)) by {
        assert forall|i: int| 0 <= i < head.len() implies output_fits(#[trigger] head[i]) by {
            assert(head[i] == longer[i]);
        }
    }
    lemma_parse_outputs_of_bytes(shorter, Seq::empty());
    lemma_parse_outputs_of_bytes(head, outputs_bytes(tail));
    assert(outputs_bytes(shorter) + Seq::<u8>::empty() =~= outputs_bytes(shorter));
    assert(shorter == head);
    assert(outputs_bytes(tail).len() == 0);
    if tail.len() > 0 {
        lemma_outputs_bytes_nonempty(tail);
    }
    assert(head =~= longer);
}

/// Lists of outputs with the same encoding are the same list.
pub proof fn lemma_outputs_bytes_injective(first: Seq<TxOutputView>, second: Seq<TxOutputView>)
    requires
        outputs_fit(first),
        outputs_fit(second),
        outputs_bytes(first) == outputs_bytes(second),
    ensures
        first == second,
{
    if first.len() <= second.len() {
        lemma_outputs_bytes_injective_ordered(first, second);
    } else {
        lemma_outputs_bytes_injective_ordered(second, first);
    }
}

/// What stands between an equal start and an equal end of two equal
/// byte strings is equal.
pub proof fn lemma_middle_cancels(
    start: Seq<u8>,
    first: Seq<u8>,
    second: Seq<u8>,
    end: Seq<u8>,
)
    requires
        start + first + end == start + second + end,
    ensures
        first == second,
{
    let a = start + first + end;
    let b = start + second + end;
    assert(a.len() == b.len());
    assert(first.len() == second.len());
    assert forall|i: int| 0 <= i < first.len() implies first[i] == second[i] by {
        assert(a[start.len() + i] == first[i]);
        assert(b[start.len() + i] == second[i]);
    }
    assert(first =~= second);
}

/// A signature is bound to the outputs: under flags that cover all
/// outputs, any change to the outputs, be it to a value, to a script or to
/// their number, changes the digest that is signed, wherever the double
/// hash tells the two output encodings and the two preimages apart.
pub proof fn sighash_binds_outputs(
    tx: TransactionView,
    changed: Seq<TxOutputView>,
    input_index: int,
    prior_script: Seq<u8>,
    prior_value: u64,
    flags: u8,
)
    requires
        sighash_covers_all_outputs(flags),
        outputs_fit(tx.outputs),
        outputs_fit(changed),
        changed != tx.outputs,
        hash_separates(outputs_bytes(tx.outputs), outputs_bytes(changed)),
        hash_separates(
            sighash_preimage_spec(tx, input_index, prior_script, prior_value, flags),
            sighash_preimage_spec(
                TransactionView { outputs: changed, ..tx },
                input_index,
                prior_script,
                prior_value,
                flags,
            ),
        ),
    ensures
        sighash_spec(tx, input_index, prior_script, prior_value, flags) != sighash_spec(
            TransactionView { outputs: changed, ..tx },
            input_index,
            prior_script,
            prior_value,
            flags,
        ),
{
    let other = TransactionView { outputs: changed, ..tx };
    let first = sighash_preimage_spec(tx, input_index, prior_script, prior_value, flags);
    let second = sighash_preimage_spec(other, input_index, prior_script, prior_value, flags);
    if outputs_bytes(tx.outputs) == outputs_bytes(changed) {
        lemma_outputs_bytes_injective(tx.outputs, changed);
    }
    let h1 = hash_outputs(tx.outputs, input_index, flags);
    let h2 = hash_outputs(changed, input_index, flags);
    assert(h1 != h2);
    if first == second {
        let start = i32_bytes(tx.version) + hash_prevouts(tx.inputs, flags) + hash_sequence(
            tx.inputs,
            flags,
        ) + outpoint_bytes(tx.inputs[input_index].previous_output) + var_bytes(prior_script)
            + u64_bytes(prior_value) + u32_bytes(tx.inputs[input_index].sequence);
        let end = u32_bytes(tx.lock_time) + sighash_type_bytes(flags);
        assert(first =~= start + h1 + end);
        assert(second =~= start + h2 + end);
        lemma_middle_cancels(start, h1, h2, end);
    }
}

/// A signature is bound to the value of the output it spends: signing
/// for another value changes the digest that is signed, wherever the
/// double hash tells the two preimages apart.
pub proof fn sighash_binds_prior_value(
    tx: TransactionView,
    input_index: int,
    prior_script: Seq<u8>,
    prior_value: u64,
    other_value: u64,
    flags: u8,
)
    requires
        prior_value != other_value,
        hash_separates(
            sighash_preimage_spec(tx, input_index, prior_script, prior_value, flags),
            sighash_preimage_spec(tx, input_index, prior_script, other_value, flags),
        ),
    ensures
        sighash_spec(tx, input_index, prior_script, prior_value, flags) != sighash_spec(
            tx,
            input_index,
            prior_script,
            other_value,
            flags,
        ),
{
    let first = sighash_preimage_spec(tx, input_index, prior_script, prior_value, flags);
    let second = sighash_preimage_spec(tx, input_index, prior_script, other_value, flags);
    if first == second {
        let start = i32_bytes(tx.version) + hash_prevouts(tx.inputs, flags) + hash_sequence(
            tx.inputs,
            flags,
        ) + outpoint_bytes(tx.inputs[input_index].previous_output) + var_bytes(prior_script);
        let end = u32_bytes(tx.inputs[input_index].sequence) + hash_outputs(
            tx.outputs,
            input_index,
            flags,
        ) + u32_bytes(tx.lock_time) + sighash_type_bytes(flags);
        assert(first =~= start + u64_bytes(prior_value) + end);
        assert(second =~= start + u64_bytes(other_value) + end);
        lemma_middle_cancels(start, u64_bytes(prior_value), u64_bytes(other_value), end);
        lemma_pow256_values();
        lemma_le_value_of_le_bytes(prior_value as nat, 8);
        lemma_le_value_of_le_bytes(other_value as nat, 8);
    }
}

/// Validation is a function of the transaction and the spent outputs:
/// two runs on the same pair give the same result.
pub proof fn validation_is_repeatable(
    tx: &Transaction,
    spent: &Vec<TxOutput>,
    first: Result<(), Error>,
    second: Result<(), Error>,
)
    requires
        call_ensures(validate_transaction, (tx, spent), first),
        call_ensures(validate_transaction, (tx, spent), second),
    ensures
        first == second,
{
}

/// Parts of at most `bound` bytes each take at most `bound` bytes apiece
/// together.
pub proof fn lemma_concat_all_bound(parts: Seq<Seq<u8>>, bound: nat)
    requires
        forall|i: int| 0 <= i < parts.len() ==> (#[trigger] parts[i]).len() <= bound,
    ensures
        concat_all(parts).len() <= bound * parts.len(),
    decreases parts.len(),
{
    if parts.len() > 0 {
        let init = parts.drop_last();
        assert forall|i: int| 0 <= i < init.len() implies (#[trigger] init[i]).len() <= bound by {
            assert(init[i] == parts[i]);
        }
        lemma_concat_all_bound(init, bound);
        assert(bound * init.len() + bound == bound * parts.len()) by (nonlinear_arith)
            requires
                init.len() + 1 == parts.len(),
        ;
    }
}

/// The encoded size of a signed pay-to-key-hash input: 41 bytes of
/// outpoint, script length and sequence number, two push prefixes, the
/// signature and the key.
pub proof fn lemma_signed_input_size(input: TxInputView, signature: Seq<u8>, pubkey: Seq<u8>)
    requires
        input.previous_output.txid.len() == 32,
        input.unlock_script == pay_to_key_hash_unlock_ops(signature, pubkey),
        signature.len() <= 75,
        pubkey.len() <= 75,
    ensures
        input_bytes(input).len() == 43 + signature.len() + pubkey.len(),
{
    let ops = input.unlock_script;
    let first = ScriptOpView::PushBytes(signature);
    let second = ScriptOpView::PushBytes(pubkey);
    assert(ops.drop_last() =~= seq![first]);
    assert(ops.last() == second);
    assert(seq![first].drop_last() =~= Seq::<ScriptOpView>::empty());
    assert(seq![first].last() == first);
    assert(script_bytes(Seq::<ScriptOpView>::empty()) =~= Seq::<u8>::empty());
    assert(script_bytes(seq![first]) =~= op_bytes(first));
    assert(script_bytes(ops) =~= op_bytes(first) + op_bytes(second));
    assert(script_bytes(ops).len() == 2 + signature.len() + pubkey.len());
    lemma_le_bytes_len(input.previous_output.index as nat, 4);
    lemma_le_bytes_len(input.sequence as nat, 4);
}

/// The estimate is never more than one byte per input below the size of
/// the signed transaction, and not below it at all when no signature
/// takes more than 71 bytes before its flags byte.
pub proof fn estimate_covers_signed_size(b: UnsignedBuildView, secret: Seq<u8>, longest: nat)
    requires
        sign_outcome(b, secret) is Ok,
        71 <= longest <= 72,
        forall|i: int|
            0 <= i < b.inputs.len() ==> (#[trigger] b.inputs[i]).previous_output.txid.len()
                == 32,
        forall|i: int|
            0 <= i < b.inputs.len() ==> ecdsa_signature(
                secret,
                #[trigger] input_digest(b, i),
            ).len() <= longest,
    ensures
        tx_bytes(sign_outcome(b, secret).unwrap()).len() <= estimated_size(b) + (longest - 71)
            * b.inputs.len(),
{
    let tx = signed_tx(b, secret);
    let parts = input_parts(tx.inputs);
    let bound = (77 + longest) as nat;
    assert forall|i: int| 0 <= i < parts.len() implies (#[trigger] parts[i]).len() <= bound by {
        let der = ecdsa_signature(secret, input_digest(b, i));
        assert(signature_sound(secret, input_digest(b, i)));
        assert(tx.inputs[i] == signed_input(b, secret, i));
        assert(b.inputs[i].previous_output.txid.len() == 32);
        lemma_signed_input_size(tx.inputs[i], input_signature(b, secret, i), public_key_of(secret));
    }
    lemma_concat_all_bound(parts, bound);
    lemma_le_bytes_len(to_twos(tx.version as int, 4), 4);
    lemma_le_bytes_len(tx.lock_time as nat, 4);
    assert(bound * b.inputs.len() == 148 * b.inputs.len() + (longest - 71) * b.inputs.len())
        by (nonlinear_arith)
        requires
            bound == 148 + (longest - 71),
            longest >= 71,
    ;
}

/// The outputs of a payment follow the plan: the outputs of the build
/// come first and unchanged, then the amount sent to the recipient, then,
/// unless what the balance leaves after amount, fee and margin is dust,
/// exactly that as the change; and what is left is never negative.
pub proof fn payment_outputs_follow_plan(
    b: UnsignedBuildView,
    secret: Seq<u8>,
    balance: u64,
    send_amount: u64,
    recipient: Address,
    change: Address,
    margin: u64,
    dust_threshold: u64,
)
    requires
        pay_outcome(b, secret, balance, send_amount, recipient, change, margin, dust_threshold)
            is Ok,
    ensures
        ({
            let tx = pay_outcome(
                b,
                secret,
                balance,
                send_amount,
                recipient,
                change,
                margin,
                dust_threshold,
            ).unwrap();
            let recipient_script = pay_to_key_hash_lock_ops(recipient.hash@);
            let change_script = pay_to_key_hash_lock_ops(change.hash@);
            let size = payment_size(b, send_amount, recipient_script, change_script);
            let left = balance - send_amount - size - margin;
            let count = b.outputs.len() as int;
            &&& left >= 0
            &&& tx.outputs.take(count) == b.outputs
            &&& tx.outputs[count] == (TxOutputView {
                value: send_amount,
                lock_script: recipient_script,
            })
            &&& if left < dust_threshold {
                tx.outputs.len() == count + 1
            } else {
                tx.outputs.len() == count + 2 && tx.outputs[count + 1] == (TxOutputView {
                    value: left as u64,
                    lock_script: change_script,
                })
            }
        }),
{
    let tx = pay_outcome(
        b,
        secret,
        balance,
        send_amount,
        recipient,
        change,
        margin,
        dust_threshold,
    ).unwrap();
    assert(tx.outputs.take(b.outputs.len() as int) =~= b.outputs);
}

} // verus!
