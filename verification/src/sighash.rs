//! The signature preimage: the exact bytes that a signature commits to.

use crate::codec::{
    i32_bytes, i32_pattern, le_bytes, put_bytes, put_le, put_var_bytes, u32_bytes, u64_bytes,
    var_bytes,
};
use crate::hash::{double_hash, double_hash_spec};
use crate::script::{
    pay_to_key_hash_unlock, pay_to_key_hash_unlock_ops, script_bytes, Script,
    MAX_ENCODABLE_PUSH,
};
use crate::tx::{
    concat_all, inputs_view, outpoint_bytes, output_bytes, outputs_bytes, outputs_view,
    outputs_wf, put_outputs, Transaction, TransactionView, TxInput, TxInputView, TxOutput,
    TxOutputView,
};
use vstd::prelude::*;

verus! {

/// Sign all inputs and all outputs.
pub const SIGHASH_ALL: u8 = 0x01;

/// Sign all inputs and no output.
pub const SIGHASH_NONE: u8 = 0x02;

/// Sign all inputs and the output at the input's own position.
pub const SIGHASH_SINGLE: u8 = 0x03;

/// Marks the fork-aware preimage layout.
pub const SIGHASH_FORKID: u8 = 0x40;

/// Sign only the input at hand, so that others may be added.
pub const SIGHASH_ANYONECANPAY: u8 = 0x80;

/// The identifier of the network fork that signatures are bound to.
pub const FORK_ID: u32 = 0;

/// The output selection of the flags: their low five bits.
pub open spec fn sighash_base(flags: u8) -> int {
    flags as int % 32
}

/// Whether the flags restrict the signature to the input at hand.
pub open spec fn sighash_anyone_can_pay(flags: u8) -> bool {
    flags >= SIGHASH_ANYONECANPAY
}

/// Whether the flags cover every output.
pub open spec fn sighash_covers_all_outputs(flags: u8) -> bool {
    sighash_base(flags) != SIGHASH_SINGLE && sighash_base(flags) != SIGHASH_NONE
}

/// Thirty-two zero bytes, which stand for a part left out of the preimage.
pub open spec fn zero_hash() -> Seq<u8> {
    Seq::new(32, |i: int| 0u8)
}

pub open spec fn prevout_parts(inputs: Seq<TxInputView>) -> Seq<Seq<u8>> {
    Seq::new(inputs.len(), |i: int| outpoint_bytes(inputs[i].previous_output))
}

pub open spec fn sequence_parts(inputs: Seq<TxInputView>) -> Seq<Seq<u8>> {
    Seq::new(inputs.len(), |i: int| u32_bytes(inputs[i].sequence))
}

/// The digest that commits to the outpoints of all inputs.
pub open spec fn hash_prevouts(inputs: Seq<TxInputView>, flags: u8) -> Seq<u8> {
    if sighash_anyone_can_pay(flags) {
        zero_hash()
    } else {
        double_hash_spec(concat_all(prevout_parts(inputs)))
    }
}

/// The digest that commits to the sequence numbers of all inputs.
pub open spec fn hash_sequence(inputs: Seq<TxInputView>, flags: u8) -> Seq<u8> {
    if !sighash_anyone_can_pay(flags) && sighash_covers_all_outputs(flags) {
        double_hash_spec(concat_all(sequence_parts(inputs)))
    } else {
        zero_hash()
    }
}

/// The digest that commits to the outputs that the flags select.
pub open spec fn hash_outputs(outputs: Seq<TxOutputView>, input_index: int, flags: u8) -> Seq<
    u8,
> {
    if sighash_covers_all_outputs(flags) {
        double_hash_spec(outputs_bytes(outputs))
    } else if sighash_base(flags) == SIGHASH_SINGLE && input_index < outputs.len() {
        double_hash_spec(output_bytes(outputs[input_index]))
    } else {
        zero_hash()
    }
}

/// The four bytes that close the preimage: the flags in the low byte, the
/// fork identifier above it.
pub open spec fn sighash_type_bytes(flags: u8) -> Seq<u8> {
    le_bytes((flags as nat) + 256 * (FORK_ID as nat), 4)
}

/// The fork-aware signature preimage for the input at `input_index`, which
/// spends an output of `prior_value` locked by the script whose encoding
/// is `prior_script`.
pub open spec fn sighash_preimage_spec(
    tx: TransactionView,
    input_index: int,
    prior_script: Seq<u8>,
    prior_value: u64,
    flags: u8,
) -> Seq<u8> {
    i32_bytes(tx.version) + hash_prevouts(tx.inputs, flags) + hash_sequence(tx.inputs, flags)
        + outpoint_bytes(tx.inputs[input_index].previous_output) + var_bytes(prior_script)
        + u64_bytes(prior_value) + u32_bytes(tx.inputs[input_index].sequence) + hash_outputs(
        tx.outputs,
        input_index,
        flags,
    ) + u32_bytes(tx.lock_time) + sighash_type_bytes(flags)
}

/// The digest that is signed: the double hash of the preimage.
pub open spec fn sighash_spec(
    tx: TransactionView,
    input_index: int,
    prior_script: Seq<u8>,
    prior_value: u64,
    flags: u8,
) -> Seq<u8> {
    double_hash_spec(sighash_preimage_spec(tx, input_index, prior_script, prior_value, flags))
}

/// Appends thirty-two zero bytes to `out`.
fn put_zero_hash(out: &mut Vec<u8>)
    ensures
        final(out)@ == old(out)@ + zero_hash(),
{
    let zeros = [0u8; 32];
    assert(zeros@ =~= zero_hash());
    put_bytes(out, zeros.as_slice());
}

/// Appends the double hash of all outpoints of `inputs` to `out`.
fn put_prevouts_hash(out: &mut Vec<u8>, inputs: &Vec<TxInput>)
    ensures
        final(out)@ == old(out)@ + double_hash_spec(
            concat_all(prevout_parts(inputs_view(inputs@))),
        ),
{
    let ghost parts = prevout_parts(inputs_view(inputs@));
    let mut buf: Vec<u8> = Vec::new();
    let mut i: usize = 0;
    assert(parts.take(0) =~= Seq::<Seq<u8>>::empty());
    assert(buf@ =~= concat_all(parts.take(0)));
    while i < inputs.len()
        invariant
            i <= inputs.len(),
            parts == prevout_parts(inputs_view(inputs@)),
            buf@ == concat_all(parts.take(i as int)),
        decreases inputs.len() - i,
    {
        inputs[i].previous_output.put(&mut buf);
        proof {
            let next = parts.take(i + 1);
            assert(next.drop_last() =~= parts.take(i as int));
            assert(next.last() == outpoint_bytes(inputs@[i as int]@.previous_output));
        }
        i += 1;
    }
    assert(parts.take(inputs.len() as int) =~= parts);
    let digest = double_hash(buf.as_slice());
    put_bytes(out, digest.as_slice());
}

/// Appends the double hash of all sequence numbers of `inputs` to `out`.
fn put_sequences_hash(out: &mut Vec<u8>, inputs: &Vec<TxInput>)
    ensures
        final(out)@ == old(out)@ + double_hash_spec(
            concat_all(sequence_parts(inputs_view(inputs@))),
        ),
{
    let ghost parts = sequence_parts(inputs_view(inputs@));
    let mut buf: Vec<u8> = Vec::new();
    let mut i: usize = 0;
    assert(parts.take(0) =~= Seq::<Seq<u8>>::empty());
    assert(buf@ =~= concat_all(parts.take(0)));
    while i < inputs.len()
        invariant
            i <= inputs.len(),
            parts == sequence_parts(inputs_view(inputs@)),
            buf@ == concat_all(parts.take(i as int)),
        decreases inputs.len() - i,
    {
        put_le(&mut buf, inputs[i].sequence as u64, 4);
        proof {
            let next = parts.take(i + 1);
            assert(next.drop_last() =~= parts.take(i as int));
            assert(next.last() == u32_bytes(inputs@[i as int]@.sequence));
        }
        i += 1;
    }
    assert(parts.take(inputs.len() as int) =~= parts);
    let digest = double_hash(buf.as_slice());
    put_bytes(out, digest.as_slice());
}

/// Appends the digest of the outputs that `flags` select to `out`.
fn put_outputs_hash(out: &mut Vec<u8>, outputs: &Vec<TxOutput>, input_index: usize, flags: u8)
    requires
        outputs_wf(outputs@),
    ensures
        final(out)@ == old(out)@ + hash_outputs(outputs_view(outputs@), input_index as int, flags),
{
    let base = flags % 32;
    if base != SIGHASH_SINGLE && base != SIGHASH_NONE {
        let mut buf: Vec<u8> = Vec::new();
        put_outputs(&mut buf, outputs);
        assert(buf@ =~= outputs_bytes(outputs_view(outputs@)));
        let digest = double_hash(buf.as_slice());
        put_bytes(out, digest.as_slice());
    } else if base == SIGHASH_SINGLE && input_index < outputs.len() {
        let mut buf: Vec<u8> = Vec::new();
        outputs[input_index].put(&mut buf);
        assert(buf@ =~= output_bytes(outputs@[input_index as int]@));
        let digest = double_hash(buf.as_slice());
        put_bytes(out, digest.as_slice());
    } else {
        put_zero_hash(out);
    }
}

/// The mathematical value of a transaction given by its parts.
pub open spec fn parts_view(
    version: i32,
    inputs: Seq<TxInput>,
    outputs: Seq<TxOutput>,
    lock_time: u32,
) -> TransactionView {
    TransactionView {
        version,
        inputs: inputs_view(inputs),
        outputs: outputs_view(outputs),
        lock_time,
    }
}

/// The signature preimage for one input of the transaction made of the
/// given parts; `script_code` is the encoding of the prior locking script.
pub fn preimage_of_parts(
    version: i32,
    inputs: &Vec<TxInput>,
    outputs: &Vec<TxOutput>,
    lock_time: u32,
    input_index: usize,
    script_code: &[u8],
    prior_value: u64,
    flags: u8,
) -> (preimage: Vec<u8>)
    requires
        input_index < inputs.len(),
        outputs_wf(outputs@),
    ensures
        preimage@ == sighash_preimage_spec(
            parts_view(version, inputs@, outputs@, lock_time),
            input_index as int,
            script_code@,
            prior_value,
            flags,
        ),
{
    let ghost tx = parts_view(version, inputs@, outputs@, lock_time);
    let base = flags % 32;
    let anyone_can_pay = flags >= SIGHASH_ANYONECANPAY;
    let covers_all = base != SIGHASH_SINGLE && base != SIGHASH_NONE;
    let mut out: Vec<u8> = Vec::new();
    put_le(&mut out, i32_pattern(version) as u64, 4);
    if anyone_can_pay {
        put_zero_hash(&mut out);
    } else {
        put_prevouts_hash(&mut out, inputs);
    }
    if !anyone_can_pay && covers_all {
        put_sequences_hash(&mut out, inputs);
    } else {
        put_zero_hash(&mut out);
    }
    assert(out@ =~= i32_bytes(version) + hash_prevouts(tx.inputs, flags) + hash_sequence(
        tx.inputs,
        flags,
    ));
    let input = &inputs[input_index];
    input.previous_output.put(&mut out);
    put_var_bytes(&mut out, script_code);
    put_le(&mut out, prior_value, 8);
    put_le(&mut out, input.sequence as u64, 4);
    let ghost before = out@;
    put_outputs_hash(&mut out, outputs, input_index, flags);
    assert(out@ == before + hash_outputs(tx.outputs, input_index as int, flags));
    put_le(&mut out, lock_time as u64, 4);
    put_le(&mut out, flags as u64 + 256 * (FORK_ID as u64), 4);
    assert(out@ =~= sighash_preimage_spec(tx, input_index as int, script_code@, prior_value, flags));
    out
}

/// The signature preimage for the input at `input_index` of `tx`, which
/// spends an output of `prior_value` locked by `prior_script`.
pub fn sighash_preimage(
    tx: &Transaction,
    input_index: usize,
    prior_script: &Script,
    prior_value: u64,
    flags: u8,
) -> (preimage: Vec<u8>)
    requires
        tx.wf(),
        prior_script.wf(),
        input_index < tx@.inputs.len(),
    ensures
        preimage@ == sighash_preimage_spec(
            tx@,
            input_index as int,
            script_bytes(prior_script@),
            prior_value,
            flags,
        ),
{
    let script_code = prior_script.to_bytes();
    let inputs = tx.inputs();
    let outputs = tx.outputs();
    assert(inputs@.len() == inputs_view(inputs@).len());
    assert(tx@ == parts_view(tx@.version, inputs@, outputs@, tx@.lock_time));
    preimage_of_parts(
        tx.version(),
        inputs,
        outputs,
        tx.lock_time(),
        input_index,
        script_code.as_slice(),
        prior_value,
        flags,
    )
}

/// The digest to sign for one input of the transaction made of the given
/// parts: the double hash of its preimage.
pub fn sighash_of_parts(
    version: i32,
    inputs: &Vec<TxInput>,
    outputs: &Vec<TxOutput>,
    lock_time: u32,
    input_index: usize,
    script_code: &[u8],
    prior_value: u64,
    flags: u8,
) -> (digest: [u8; 32])
    requires
        input_index < inputs.len(),
        outputs_wf(outputs@),
    ensures
        digest@ == sighash_spec(
            parts_view(version, inputs@, outputs@, lock_time),
            input_index as int,
            script_code@,
            prior_value,
            flags,
        ),
{
    let preimage = preimage_of_parts(
        version,
        inputs,
        outputs,
        lock_time,
        input_index,
        script_code,
        prior_value,
        flags,
    );
    double_hash(preimage.as_slice())
}

/// The unlocking script of a pay-to-key-hash spend: the signature with
/// the flags byte behind it, then the public key.
pub fn build_unlock_script(signature: &[u8], flags: u8, pubkey: &[u8]) -> (script: Script)
    ensures
        script@ == pay_to_key_hash_unlock_ops(signature@.push(flags), pubkey@),
        signature.len() < MAX_ENCODABLE_PUSH && pubkey.len() <= MAX_ENCODABLE_PUSH
            ==> script.wf(),
{
    let mut tagged: Vec<u8> = Vec::new();
    put_bytes(&mut tagged, signature);
    tagged.push(flags);
    assert(tagged@ =~= signature@.push(flags));
    pay_to_key_hash_unlock(tagged.as_slice(), pubkey)
}

} // verus!
