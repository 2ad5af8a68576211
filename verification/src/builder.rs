//! The unsigned build: a transaction in progress together with the prior
//! outputs that its inputs spend, and the step that signs it.

use crate::address::{locking_ops_for, locking_script_for, Address};
use crate::codec::{encode_varint, varint_bytes};
use crate::error::Error;
use crate::payment::{change_plan, plan_change};
use crate::interpreter::{validate_spec, validate_transaction};
use crate::keys::{ecdsa_signature, public_key_of, signature_sound, SigningKey};
use crate::script::{
    pay_to_key_hash_unlock, pay_to_key_hash_unlock_ops, script_bytes, Script, ScriptOpView,
};
use crate::sighash::{parts_view, sighash_of_parts, sighash_spec};
use crate::tx::{
    inputs_view, inputs_wf, outputs_bytes, outputs_view, outputs_wf,
    put_outputs, OutPoint, Transaction, TransactionView, TxInput, TxInputView, TxOutput,
    TxOutputView, SEQUENCE_FINAL,
};
use vstd::prelude::*;

verus! {

/// The flags that the build signs with: all inputs and outputs, fork-aware.
pub const BUILD_SIGHASH_FLAGS: u8 = 0x41;

/// The version of the transactions that the build makes.
pub const BUILD_VERSION: i32 = 1;

/// The bytes that one signed input is taken to need before it is signed:
/// outpoint, script length, a 72-byte signature with its flags byte and a
/// 33-byte key, each behind its push prefix, and the sequence number.
pub const ESTIMATED_INPUT_SIZE: usize = 148;

/// A transaction in progress. Inputs carry no unlocking script yet; for
/// each, the output that it spends is kept alongside and never serialized.
pub struct UnsignedBuild {
    pub version: i32,
    pub lock_time: u32,
    pub inputs: Vec<TxInput>,
    /// One per input, in the order of the inputs.
    pub prior_outputs: Vec<TxOutput>,
    pub outputs: Vec<TxOutput>,
}

/// The mathematical value of an `UnsignedBuild`.
pub struct UnsignedBuildView {
    pub version: i32,
    pub lock_time: u32,
    pub inputs: Seq<TxInputView>,
    pub prior_outputs: Seq<TxOutputView>,
    pub outputs: Seq<TxOutputView>,
}

impl View for UnsignedBuild {
    type V = UnsignedBuildView;

    open spec fn view(&self) -> UnsignedBuildView {
        UnsignedBuildView {
            version: self.version,
            lock_time: self.lock_time,
            inputs: inputs_view(self.inputs@),
            prior_outputs: outputs_view(self.prior_outputs@),
            outputs: outputs_view(self.outputs@),
        }
    }
}

/// The sum of the values of the outputs.
pub open spec fn total_value(outputs: Seq<TxOutputView>) -> nat
    decreases outputs.len(),
{
    if outputs.len() == 0 {
        0
    } else {
        total_value(outputs.drop_last()) + outputs.last().value as nat
    }
}

/// The input that a fresh outpoint makes: no unlocking script, final
/// sequence number.
pub open spec fn unsigned_input(outpoint: OutPoint) -> TxInputView {
    TxInputView {
        previous_output: outpoint@,
        unlock_script: Seq::empty(),
        sequence: SEQUENCE_FINAL,
    }
}

/// The transaction that the build stands for before signing.
pub open spec fn unsigned_tx(b: UnsignedBuildView) -> TransactionView {
    TransactionView {
        version: b.version,
        inputs: b.inputs,
        outputs: b.outputs,
        lock_time: b.lock_time,
    }
}

/// The estimate of the signed size in bytes: the fixed fields, the two
/// counts, the outputs as they are, and a fixed allowance per input.
pub open spec fn estimated_size(b: UnsignedBuildView) -> nat {
    4 + varint_bytes(b.inputs.len() as u64).len() + (ESTIMATED_INPUT_SIZE as nat)
        * b.inputs.len() + varint_bytes(b.outputs.len() as u64).len() + outputs_bytes(
        b.outputs,
    ).len() + 4
}

/// A size as a 64-bit number, the largest one standing for all beyond it.
pub open spec fn saturated(size: nat) -> u64 {
    if size <= u64::MAX {
        size as u64
    } else {
        u64::MAX
    }
}

/// The build with other outputs.
pub open spec fn with_outputs(b: UnsignedBuildView, outputs: Seq<TxOutputView>)
    -> UnsignedBuildView {
    UnsignedBuildView { outputs, ..b }
}

/// The estimated size of the build once a payment to `recipient` and a
/// change output to `change_script` are added.
pub open spec fn payment_size(
    b: UnsignedBuildView,
    send_amount: u64,
    recipient: Seq<ScriptOpView>,
    change_script: Seq<ScriptOpView>,
) -> u64 {
    saturated(
        estimated_size(
            with_outputs(
                b,
                b.outputs.push(TxOutputView { value: send_amount, lock_script: recipient }).push(
                    TxOutputView { value: 0, lock_script: change_script },
                ),
            ),
        ),
    )
}

/// The digest that a signature of the input at `index` under `flags` covers.
pub open spec fn input_digest_under(b: UnsignedBuildView, index: int, flags: u8) -> Seq<u8> {
    sighash_spec(
        unsigned_tx(b),
        index,
        script_bytes(b.prior_outputs[index].lock_script),
        b.prior_outputs[index].value,
        flags,
    )
}

/// The digest that the build's own signature of the input at `index` covers.
pub open spec fn input_digest(b: UnsignedBuildView, index: int) -> Seq<u8> {
    input_digest_under(b, index, BUILD_SIGHASH_FLAGS)
}

/// The input at `index` with `unlock_script` attached.
pub open spec fn unlocked_input(
    b: UnsignedBuildView,
    unlock_scripts: Seq<Seq<ScriptOpView>>,
    index: int,
) -> TxInputView {
    TxInputView {
        previous_output: b.inputs[index].previous_output,
        unlock_script: unlock_scripts[index],
        sequence: b.inputs[index].sequence,
    }
}

/// The transaction that attaching the unlocking scripts to the inputs gives.
pub open spec fn unlocked_tx(b: UnsignedBuildView, unlock_scripts: Seq<Seq<ScriptOpView>>)
    -> TransactionView {
    TransactionView {
        version: b.version,
        inputs: Seq::new(b.inputs.len(), |i: int| unlocked_input(b, unlock_scripts, i)),
        outputs: b.outputs,
        lock_time: b.lock_time,
    }
}

/// What finalizing the build with the given unlocking scripts gives:
/// `MalformedEncoding` for a build without inputs or outputs or with
/// another number of scripts than inputs, `InsufficientFunds` when the
/// outputs are worth more than the inputs, the first failure of
/// validating the inputs against the outputs they spend, else the
/// transaction.
pub open spec fn finalize_outcome(b: UnsignedBuildView, unlock_scripts: Seq<Seq<ScriptOpView>>)
    -> Result<TransactionView, Error> {
    if b.inputs.len() == 0 || b.outputs.len() == 0 || unlock_scripts.len() != b.inputs.len() {
        Err(Error::MalformedEncoding)
    } else if total_value(b.outputs) > total_value(b.prior_outputs) {
        Err(Error::InsufficientFunds)
    } else {
        match validate_spec(unlocked_tx(b, unlock_scripts), b.prior_outputs) {
            Err(e) => Err(e),
            Ok(_) => Ok(unlocked_tx(b, unlock_scripts)),
        }
    }
}

/// What paying `send_amount` to `recipient` out of `balance` and signing
/// gives: the failure of either address to yield a locking script, or of
/// the balance to cover the payment, or of signing; else the signed
/// transaction, whose outputs are those of the build, the payment, and
/// the change to `change` unless it would be dust.
pub open spec fn pay_outcome(
    b: UnsignedBuildView,
    secret: Seq<u8>,
    balance: u64,
    send_amount: u64,
    recipient: Address,
    change: Address,
    margin: u64,
    dust_threshold: u64,
) -> Result<TransactionView, Error> {
    match locking_ops_for(recipient.kind, recipient.hash@) {
        Err(e) => Err(e),
        Ok(recipient_script) => match locking_ops_for(change.kind, change.hash@) {
            Err(e) => Err(e),
            Ok(change_script) => {
                let paid = b.outputs.push(
                    TxOutputView { value: send_amount, lock_script: recipient_script },
                );
                match change_plan(
                    balance,
                    send_amount,
                    payment_size(b, send_amount, recipient_script, change_script),
                    margin,
                    dust_threshold,
                ) {
                    Err(e) => Err(e),
                    Ok(None) => sign_outcome(with_outputs(b, paid), secret),
                    Ok(Some(value)) => sign_outcome(
                        with_outputs(
                            b,
                            paid.push(TxOutputView { value, lock_script: change_script }),
                        ),
                        secret,
                    ),
                }
            },
        },
    }
}

/// The values of a list of scripts, one by one.
pub open spec fn scripts_view(scripts: Seq<Script>) -> Seq<Seq<ScriptOpView>> {
    Seq::new(scripts.len(), |i: int| scripts[i]@)
}

/// Whether every script of the list fits the wire format.
pub open spec fn scripts_wf(scripts: Seq<Script>) -> bool {
    forall|i: int| 0 <= i < scripts.len() ==> (#[trigger] scripts[i]).wf()
}

/// The signature that unlocks the input at `index`: DER bytes, then the
/// flags byte.
pub open spec fn input_signature(b: UnsignedBuildView, secret: Seq<u8>, index: int) -> Seq<u8> {
    ecdsa_signature(secret, input_digest(b, index)).push(BUILD_SIGHASH_FLAGS)
}

/// The input at `index` once signed with `secret`.
pub open spec fn signed_input(b: UnsignedBuildView, secret: Seq<u8>, index: int) -> TxInputView {
    TxInputView {
        previous_output: b.inputs[index].previous_output,
        unlock_script: pay_to_key_hash_unlock_ops(
            input_signature(b, secret, index),
            public_key_of(secret),
        ),
        sequence: b.inputs[index].sequence,
    }
}

/// The transaction that signing every input with `secret` gives.
pub open spec fn signed_tx(b: UnsignedBuildView, secret: Seq<u8>) -> TransactionView {
    TransactionView {
        version: b.version,
        inputs: Seq::new(b.inputs.len(), |i: int| signed_input(b, secret, i)),
        outputs: b.outputs,
        lock_time: b.lock_time,
    }
}

/// Whether every input's signature comes out sound.
pub open spec fn all_signatures_sound(b: UnsignedBuildView, secret: Seq<u8>) -> bool {
    forall|i: int| 0 <= i < b.inputs.len() ==> signature_sound(secret, #[trigger] input_digest(b, i))
}

/// What signing the build with `secret` gives: `MalformedEncoding` for a
/// build without inputs or without outputs, `InsufficientFunds` when the
/// outputs are worth more than the inputs, `SignatureInvalid` when a
/// signature fails its own check, else the signed transaction.
pub open spec fn sign_outcome(b: UnsignedBuildView, secret: Seq<u8>) -> Result<
    TransactionView,
    Error,
> {
    if b.inputs.len() == 0 || b.outputs.len() == 0 {
        Err(Error::MalformedEncoding)
    } else if total_value(b.outputs) > total_value(b.prior_outputs) {
        Err(Error::InsufficientFunds)
    } else if !all_signatures_sound(b, secret) {
        Err(Error::SignatureInvalid)
    } else {
        Ok(signed_tx(b, secret))
    }
}

/// The sum of the values of `outputs`.
pub fn sum_values(outputs: &Vec<TxOutput>) -> (total: u128)
    ensures
        total == total_value(outputs_view(outputs@)),
{
    let ghost all = outputs_view(outputs@);
    let mut total: u128 = 0;
    let mut i: usize = 0;
    assert(all.take(0) =~= Seq::<TxOutputView>::empty());
    while i < outputs.len()
        invariant
            i <= outputs.len(),
            all == outputs_view(outputs@),
            total == total_value(all.take(i as int)),
            total <= i * 0xffff_ffff_ffff_ffff,
        decreases outputs.len() - i,
    {
        proof {
            let next = all.take(i + 1);
            assert(next.drop_last() =~= all.take(i as int));
            assert(next.last() == outputs@[i as int]@);
        }
        total = total + outputs[i].value as u128;
        i += 1;
    }
    assert(all.take(outputs.len() as int) =~= all);
    total
}

impl UnsignedBuild {
    /// Whether there is one prior output per input and every script fits
    /// the wire format.
    pub open spec fn wf(&self) -> bool {
        &&& self.inputs.len() == self.prior_outputs.len()
        &&& inputs_wf(self.inputs@)
        &&& outputs_wf(self.prior_outputs@)
        &&& outputs_wf(self.outputs@)
    }

    /// A build without inputs and outputs.
    pub fn new() -> (build: UnsignedBuild)
        ensures
            build.wf(),
            build@ == (UnsignedBuildView {
                version: BUILD_VERSION,
                lock_time: 0,
                inputs: Seq::empty(),
                prior_outputs: Seq::empty(),
                outputs: Seq::empty(),
            }),
    {
        let build = UnsignedBuild {
            version: BUILD_VERSION,
            lock_time: 0,
            inputs: Vec::new(),
            prior_outputs: Vec::new(),
            outputs: Vec::new(),
        };
        assert(build@.inputs =~= Seq::<TxInputView>::empty());
        assert(build@.prior_outputs =~= Seq::<TxOutputView>::empty());
        assert(build@.outputs =~= Seq::<TxOutputView>::empty());
        build
    }

    /// Adds an input that spends `outpoint`, an output of `prior_value`
    /// locked by `prior_script`.
    pub fn add_input(&mut self, outpoint: OutPoint, prior_value: u64, prior_script: Script)
        requires
            old(self).wf(),
            prior_script.wf(),
        ensures
            final(self).wf(),
            final(self)@ == (UnsignedBuildView {
                inputs: old(self)@.inputs.push(unsigned_input(outpoint)),
                prior_outputs: old(self)@.prior_outputs.push(
                    TxOutputView { value: prior_value, lock_script: prior_script@ },
                ),
                ..old(self)@
            }),
    {
        let input = TxInput {
            previous_output: outpoint,
            unlock_script: Script::new(),
            sequence: SEQUENCE_FINAL,
        };
        self.inputs.push(input);
        self.prior_outputs.push(TxOutput { value: prior_value, lock_script: prior_script });
        assert(self@.inputs =~= old(self)@.inputs.push(unsigned_input(outpoint)));
        assert(self@.prior_outputs =~= old(self)@.prior_outputs.push(
            TxOutputView { value: prior_value, lock_script: prior_script@ },
        ));
    }

    /// Appends `output` and gives its index.
    pub fn add_output(&mut self, output: TxOutput) -> (index: usize)
        requires
            old(self).wf(),
            output.wf(),
        ensures
            final(self).wf(),
            index == old(self)@.outputs.len(),
            final(self)@ == (UnsignedBuildView {
                outputs: old(self)@.outputs.push(output@),
                ..old(self)@
            }),
    {
        let index = self.outputs.len();
        self.outputs.push(output);
        assert(self@.outputs =~= old(self)@.outputs.push(output@));
        index
    }

    /// Removes the output at `index`; those behind it move one place down.
    pub fn remove_output(&mut self, index: usize)
        requires
            old(self).wf(),
            index < old(self)@.outputs.len(),
        ensures
            final(self).wf(),
            final(self)@ == (UnsignedBuildView {
                outputs: old(self)@.outputs.remove(index as int),
                ..old(self)@
            }),
    {
        let _ = self.outputs.remove(index);
        assert(self@.outputs =~= old(self)@.outputs.remove(index as int));
    }

    /// Puts `output` in the place of the output at `index`.
    pub fn replace_output(&mut self, index: usize, output: TxOutput)
        requires
            old(self).wf(),
            output.wf(),
            index < old(self)@.outputs.len(),
        ensures
            final(self).wf(),
            final(self)@ == (UnsignedBuildView {
                outputs: old(self)@.outputs.update(index as int, output@),
                ..old(self)@
            }),
    {
        self.outputs[index] = output;
        assert(self@.outputs =~= old(self)@.outputs.update(index as int, output@));
    }

    /// The sum of the values of the outputs that the inputs spend.
    pub fn input_total(&self) -> (total: u128)
        ensures
            total == total_value(self@.prior_outputs),
    {
        sum_values(&self.prior_outputs)
    }

    /// The sum of the values of the outputs.
    pub fn output_total(&self) -> (total: u128)
        ensures
            total == total_value(self@.outputs),
    {
        sum_values(&self.outputs)
    }

    /// The balance that the inputs bring; `None` exactly when it does not
    /// fit 64 bits.
    pub fn balance(&self) -> (r: Option<u64>)
        ensures
            match r {
                Some(balance) => balance == total_value(self@.prior_outputs),
                None => total_value(self@.prior_outputs) > u64::MAX,
            },
    {
        let total = self.input_total();
        if total <= u64::MAX as u128 {
            Some(total as u64)
        } else {
            None
        }
    }

    /// Adds a payment of `send_amount` to `recipient_script` and, unless
    /// what is left of `balance` after the amount, the size-based fee and
    /// the margin is dust, a change output to `change_script` that takes
    /// what is left. The fee is budgeted for both outputs. Gives the value
    /// of the change output, if there is one. Fails with
    /// `InsufficientFunds`, leaving the build as it was, exactly when the
    /// balance does not cover amount, fee and margin.
    pub fn add_payment(
        &mut self,
        balance: u64,
        send_amount: u64,
        recipient_script: Script,
        change_script: Script,
        margin: u64,
        dust_threshold: u64,
    ) -> (r: Result<Option<u64>, Error>)
        requires
            old(self).wf(),
            recipient_script.wf(),
            change_script.wf(),
        ensures
            final(self).wf(),
            r == change_plan(
                balance,
                send_amount,
                payment_size(old(self)@, send_amount, recipient_script@, change_script@),
                margin,
                dust_threshold,
            ),
            ({
                let paid = old(self)@.outputs.push(
                    TxOutputView { value: send_amount, lock_script: recipient_script@ },
                );
                match r {
                    Err(_) => final(self)@ == old(self)@,
                    Ok(None) => final(self)@ == with_outputs(old(self)@, paid),
                    Ok(Some(change)) => final(self)@ == with_outputs(
                        old(self)@,
                        paid.push(TxOutputView { value: change, lock_script: change_script@ }),
                    ),
                }
            }),
    {
        let recipient_index = self.add_output(
            TxOutput { value: send_amount, lock_script: recipient_script },
        );
        let change_index = self.add_output(
            TxOutput { value: 0, lock_script: change_script.clone() },
        );
        let size = self.estimate_size();
        let ghost paid = old(self)@.outputs.push(
            TxOutputView { value: send_amount, lock_script: recipient_script@ },
        );
        let ghost both = paid.push(TxOutputView { value: 0, lock_script: change_script@ });
        assert(self@ == with_outputs(old(self)@, both));
        match plan_change(balance, send_amount, size, margin, dust_threshold) {
            Err(e) => {
                self.remove_output(change_index);
                self.remove_output(recipient_index);
                assert(both.remove(change_index as int).remove(recipient_index as int)
                    =~= old(self)@.outputs);
                Err(e)
            },
            Ok(None) => {
                self.remove_output(change_index);
                assert(both.remove(change_index as int) =~= paid);
                Ok(None)
            },
            Ok(Some(change)) => {
                self.replace_output(
                    change_index,
                    TxOutput { value: change, lock_script: change_script },
                );
                assert(both.update(
                    change_index as int,
                    TxOutputView { value: change, lock_script: change_script@ },
                ) =~= paid.push(TxOutputView { value: change, lock_script: change_script@ }));
                Ok(Some(change))
            },
        }
    }

    /// The estimate of the signed size in bytes, for fee budgeting before
    /// signing; an estimate beyond the range of `u64` comes out as its
    /// largest value.
    pub fn estimate_size(&self) -> (size: u64)
        requires
            self.wf(),
        ensures
            size == if estimated_size(self@) <= u64::MAX {
                estimated_size(self@)
            } else {
                u64::MAX as nat
            },
    {
        let input_count = encode_varint(self.inputs.len() as u64);
        let output_count = encode_varint(self.outputs.len() as u64);
        let mut body: Vec<u8> = Vec::new();
        put_outputs(&mut body, &self.outputs);
        assert(body@ =~= outputs_bytes(self@.outputs));
        let inputs_allowance: u128 = ESTIMATED_INPUT_SIZE as u128 * self.inputs.len() as u128;
        let total: u128 = 4 + input_count.len() as u128 + inputs_allowance
            + output_count.len() as u128 + body.len() as u128 + 4;
        if total <= u64::MAX as u128 {
            total as u64
        } else {
            u64::MAX
        }
    }

    /// Signs the input at `index` under `flags` and gives the signature
    /// with the flags byte behind it, for use in an unlocking script. Other
    /// inputs need not be signed yet. Fails with `SignatureInvalid`
    /// exactly when the signature fails its own check.
    pub fn sign_input(&self, index: usize, key: &SigningKey, flags: u8) -> (r: Result<
        Vec<u8>,
        Error,
    >)
        requires
            self.wf(),
            index < self@.inputs.len(),
        ensures
            match r {
                Ok(signature) => signature@ == ecdsa_signature(
                    key@,
                    input_digest_under(self@, index as int, flags),
                ).push(flags) && signature_sound(
                    key@,
                    input_digest_under(self@, index as int, flags),
                ),
                Err(e) => e == Error::SignatureInvalid && !signature_sound(
                    key@,
                    input_digest_under(self@, index as int, flags),
                ),
            },
    {
        let prior = &self.prior_outputs[index];
        let script_code = prior.lock_script.to_bytes();
        assert(outputs_view(self.prior_outputs@)[index as int] == prior@);
        assert(parts_view(self.version, self.inputs@, self.outputs@, self.lock_time)
            == unsigned_tx(self@));
        let digest = sighash_of_parts(
            self.version,
            &self.inputs,
            &self.outputs,
            self.lock_time,
            index,
            script_code.as_slice(),
            prior.value,
            flags,
        );
        let mut signature = match key.sign_digest(&digest) {
            Ok(der) => der,
            Err(e) => return Err(e),
        };
        signature.push(flags);
        Ok(signature)
    }

    /// Attaches one unlocking script to each input, in order, validates
    /// every input against the output it spends, and gives the finalized
    /// transaction. The build is used up.
    pub fn finalize(self, unlock_scripts: Vec<Script>) -> (r: Result<Transaction, Error>)
        requires
            self.wf(),
            scripts_wf(unlock_scripts@),
        ensures
            match r {
                Ok(tx) => finalize_outcome(self@, scripts_view(unlock_scripts@)) == Ok::<
                    TransactionView,
                    Error,
                >(tx@) && tx.wf(),
                Err(e) => finalize_outcome(self@, scripts_view(unlock_scripts@)) == Err::<
                    TransactionView,
                    Error,
                >(e),
            },
    {
        let count = self.inputs.len();
        if count == 0 || self.outputs.len() == 0 || unlock_scripts.len() != count {
            return Err(Error::MalformedEncoding);
        }
        if self.output_total() > self.input_total() {
            return Err(Error::InsufficientFunds);
        }
        let ghost b = self@;
        let ghost scripts = scripts_view(unlock_scripts@);
        let mut inputs: Vec<TxInput> = Vec::new();
        let mut i: usize = 0;
        while i < count
            invariant
                i <= count,
                count == self.inputs.len(),
                count == unlock_scripts.len(),
                b == self@,
                scripts == scripts_view(unlock_scripts@),
                scripts_wf(unlock_scripts@),
                inputs.len() == i,
                inputs_wf(inputs@),
                forall|j: int|
                    0 <= j < i ==> (#[trigger] inputs@[j])@ == unlocked_input(b, scripts, j),
            decreases count - i,
        {
            assert(inputs_view(self.inputs@)[i as int] == self.inputs@[i as int]@);
            let input = TxInput {
                previous_output: self.inputs[i].previous_output,
                unlock_script: unlock_scripts[i].clone(),
                sequence: self.inputs[i].sequence,
            };
            inputs.push(input);
            i += 1;
        }
        assert(inputs_view(inputs@) =~= unlocked_tx(b, scripts).inputs);
        let tx = Transaction::new(self.version, inputs, self.outputs, self.lock_time);
        match validate_transaction(&tx, &self.prior_outputs) {
            Err(e) => Err(e),
            Ok(()) => Ok(tx),
        }
    }

    /// Pays `send_amount` to `recipient` out of `balance`, sends what is
    /// left after the fee and the margin back to `change` unless it is
    /// dust, and signs every input with `key`. The build is used up.
    pub fn pay(
        self,
        key: &SigningKey,
        balance: u64,
        send_amount: u64,
        recipient: &Address,
        change: &Address,
        margin: u64,
        dust_threshold: u64,
    ) -> (r: Result<Transaction, Error>)
        requires
            self.wf(),
        ensures
            match r {
                Ok(tx) => pay_outcome(
                    self@,
                    key@,
                    balance,
                    send_amount,
                    *recipient,
                    *change,
                    margin,
                    dust_threshold,
                ) == Ok::<TransactionView, Error>(tx@) && tx.wf(),
                Err(e) => pay_outcome(
                    self@,
                    key@,
                    balance,
                    send_amount,
                    *recipient,
                    *change,
                    margin,
                    dust_threshold,
                ) == Err::<TransactionView, Error>(e),
            },
    {
        let recipient_script = match locking_script_for(recipient) {
            Ok(script) => script,
            Err(e) => return Err(e),
        };
        let change_script = match locking_script_for(change) {
            Ok(script) => script,
            Err(e) => return Err(e),
        };
        let mut build = self;
        match build.add_payment(
            balance,
            send_amount,
            recipient_script,
            change_script,
            margin,
            dust_threshold,
        ) {
            Err(e) => Err(e),
            Ok(_) => build.sign(key),
        }
    }

    /// Signs every input with `key`, in order, and gives the finalized
    /// transaction. The build is used up.
    pub fn sign(self, key: &SigningKey) -> (r: Result<Transaction, Error>)
        requires
            self.wf(),
        ensures
            match r {
                Ok(tx) => sign_outcome(self@, key@) == Ok::<TransactionView, Error>(tx@)
                    && tx.wf(),
                Err(e) => sign_outcome(self@, key@) == Err::<TransactionView, Error>(e),
            },
    {
        if self.inputs.len() == 0 || self.outputs.len() == 0 {
            return Err(Error::MalformedEncoding);
        }
        if self.output_total() > self.input_total() {
            return Err(Error::InsufficientFunds);
        }
        let ghost b = self@;
        let pubkey = key.public_key();
        let count = self.inputs.len();
        let mut signed: Vec<TxInput> = Vec::new();
        let mut i: usize = 0;
        while i < count
            invariant
                i <= count,
                count == self.inputs.len(),
                self.wf(),
                b == self@,
                b.inputs.len() > 0,
                b.outputs.len() > 0,
                total_value(b.outputs) <= total_value(b.prior_outputs),
                pubkey@ == public_key_of(key@),
                signed.len() == i,
                inputs_wf(signed@),
                forall|j: int| 0 <= j < i ==> (#[trigger] signed@[j])@ == signed_input(b, key@, j),
                forall|j: int|
                    0 <= j < i ==> signature_sound(key@, #[trigger] input_digest(b, j)),
            decreases count - i,
        {
            assert(inputs_view(self.inputs@)[i as int] == self.inputs@[i as int]@);
            let signature = match self.sign_input(i, key, BUILD_SIGHASH_FLAGS) {
                Ok(signature) => signature,
                Err(e) => {
                    assert(!signature_sound(key@, input_digest(b, i as int)));
                    return Err(e);
                },
            };
            let unlock_script = pay_to_key_hash_unlock(signature.as_slice(), pubkey.as_slice());
            let input = TxInput {
                previous_output: self.inputs[i].previous_output,
                unlock_script,
                sequence: self.inputs[i].sequence,
            };
            assert(input@ == signed_input(b, key@, i as int));
            signed.push(input);
            i += 1;
        }
        assert(inputs_view(signed@) =~= signed_tx(b, key@).inputs);
        let tx = Transaction::new(self.version, signed, self.outputs, self.lock_time);
        Ok(tx)
    }
}

} // verus!
