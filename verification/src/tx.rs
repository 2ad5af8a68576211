//! The transaction data model and its wire encoding.

use crate::codec::{
    decode_var_bytes, decode_varint, from_twos, get_le, i32_bytes, i32_from_pattern,
    i32_pattern, le_value, lemma_le_bytes_len, lemma_le_bytes_of_le_value,
    lemma_le_value_of_le_bytes, lemma_parse_var_bytes_of_bytes, lemma_parse_varint_of_bytes,
    lemma_pow256_values, parse_var_bytes, parse_varint, put_bytes, put_le, put_var_bytes,
    put_varint, to_twos, u32_bytes, u64_bytes, var_bytes, varint_bytes,
};
use crate::error::Error;
use crate::hash::{double_hash, double_hash_spec};
use crate::script::{
    lemma_script_roundtrip, ops_encodable, parse_script, script_bytes, Script, ScriptOpView,
};
use vstd::prelude::*;
use vstd::slice::slice_subrange;

verus! {

/// The sequence number of an input that does not signal replacement.
pub const SEQUENCE_FINAL: u32 = 0xffff_ffff;

/// All the parts, one after the other.
pub open spec fn concat_all(parts: Seq<Seq<u8>>) -> Seq<u8>
    decreases parts.len(),
{
    if parts.len() == 0 {
        Seq::empty()
    } else {
        concat_all(parts.drop_last()) + parts.last()
    }
}

/// A reference to one output of an earlier transaction.
#[derive(Clone, Copy, Debug, PartialEq, Eq)]
pub struct OutPoint {
    /// The id of the earlier transaction.
    pub txid: [u8; 32],
    /// The position of the output in it.
    pub index: u32,
}

/// The mathematical value of an `OutPoint`.
pub struct OutPointView {
    pub txid: Seq<u8>,
    pub index: u32,
}

impl View for OutPoint {
    type V = OutPointView;

    open spec fn view(&self) -> OutPointView {
        OutPointView { txid: self.txid@, index: self.index }
    }
}

/// One input: the output it spends, the script that unlocks it, and a
/// sequence number.
#[derive(Debug, PartialEq, Eq)]
pub struct TxInput {
    pub previous_output: OutPoint,
    /// Empty until the input is signed.
    pub unlock_script: Script,
    pub sequence: u32,
}

/// The mathematical value of a `TxInput`.
pub struct TxInputView {
    pub previous_output: OutPointView,
    pub unlock_script: Seq<ScriptOpView>,
    pub sequence: u32,
}

impl View for TxInput {
    type V = TxInputView;

    open spec fn view(&self) -> TxInputView {
        TxInputView {
            previous_output: self.previous_output@,
            unlock_script: self.unlock_script@,
            sequence: self.sequence,
        }
    }
}

impl Clone for TxInput {
    fn clone(&self) -> (copy: Self)
        ensures
            copy@ == self@,
    {
        TxInput {
            previous_output: self.previous_output,
            unlock_script: self.unlock_script.clone(),
            sequence: self.sequence,
        }
    }
}

/// One output: an amount in the smallest unit and the script that locks it.
#[derive(Debug, PartialEq, Eq)]
pub struct TxOutput {
    pub value: u64,
    pub lock_script: Script,
}

/// The mathematical value of a `TxOutput`.
pub struct TxOutputView {
    pub value: u64,
    pub lock_script: Seq<ScriptOpView>,
}

impl View for TxOutput {
    type V = TxOutputView;

    open spec fn view(&self) -> TxOutputView {
        TxOutputView { value: self.value, lock_script: self.lock_script@ }
    }
}

impl Clone for TxOutput {
    fn clone(&self) -> (copy: Self)
        ensures
            copy@ == self@,
    {
        TxOutput { value: self.value, lock_script: self.lock_script.clone() }
    }
}

/// The values of a list of inputs, one by one.
pub open spec fn inputs_view(inputs: Seq<TxInput>) -> Seq<TxInputView> {
    Seq::new(inputs.len(), |i: int| inputs[i]@)
}

/// The values of a list of outputs, one by one.
pub open spec fn outputs_view(outputs: Seq<TxOutput>) -> Seq<TxOutputView> {
    Seq::new(outputs.len(), |i: int| outputs[i]@)
}

/// The mathematical value of a `Transaction`.
pub struct TransactionView {
    pub version: i32,
    pub inputs: Seq<TxInputView>,
    pub outputs: Seq<TxOutputView>,
    pub lock_time: u32,
}

/// Whether a script fits the wire format: every push can be carried and
/// the whole fits a length prefix.
pub open spec fn script_fits(ops: Seq<ScriptOpView>) -> bool {
    ops_encodable(ops) && script_bytes(ops).len() <= u64::MAX
}

pub open spec fn input_fits(input: TxInputView) -> bool {
    input.previous_output.txid.len() == 32 && script_fits(input.unlock_script)
}

pub open spec fn output_fits(output: TxOutputView) -> bool {
    script_fits(output.lock_script)
}

pub open spec fn inputs_fit(inputs: Seq<TxInputView>) -> bool {
    forall|i: int| 0 <= i < inputs.len() ==> input_fits(#[trigger] inputs[i])
}

pub open spec fn outputs_fit(outputs: Seq<TxOutputView>) -> bool {
    forall|i: int| 0 <= i < outputs.len() ==> output_fits(#[trigger] outputs[i])
}

/// Whether the transaction fits the wire format.
pub open spec fn tx_fits(tx: TransactionView) -> bool {
    &&& tx.inputs.len() <= u64::MAX
    &&& tx.outputs.len() <= u64::MAX
    &&& inputs_fit(tx.inputs)
    &&& outputs_fit(tx.outputs)
}

/// The 36 bytes of an outpoint: the id, then the index.
pub open spec fn outpoint_bytes(outpoint: OutPointView) -> Seq<u8> {
    outpoint.txid + u32_bytes(outpoint.index)
}

/// The encoding of an input: outpoint, length-prefixed unlock script,
/// sequence number.
pub open spec fn input_bytes(input: TxInputView) -> Seq<u8> {
    outpoint_bytes(input.previous_output) + var_bytes(script_bytes(input.unlock_script))
        + u32_bytes(input.sequence)
}

/// The encoding of an output: value, length-prefixed lock script.
pub open spec fn output_bytes(output: TxOutputView) -> Seq<u8> {
    u64_bytes(output.value) + var_bytes(script_bytes(output.lock_script))
}

pub open spec fn input_parts(inputs: Seq<TxInputView>) -> Seq<Seq<u8>> {
    Seq::new(inputs.len(), |i: int| input_bytes(inputs[i]))
}

pub open spec fn output_parts(outputs: Seq<TxOutputView>) -> Seq<Seq<u8>> {
    Seq::new(outputs.len(), |i: int| output_bytes(outputs[i]))
}

/// The encodings of the inputs in order.
pub open spec fn inputs_bytes(inputs: Seq<TxInputView>) -> Seq<u8> {
    concat_all(input_parts(inputs))
}

/// The encodings of the outputs in order.
pub open spec fn outputs_bytes(outputs: Seq<TxOutputView>) -> Seq<u8> {
    concat_all(output_parts(outputs))
}

/// The canonical serialization of a transaction: version, counted inputs,
/// counted outputs, lock time.
pub open spec fn tx_bytes(tx: TransactionView) -> Seq<u8> {
    i32_bytes(tx.version) + varint_bytes(tx.inputs.len() as u64) + inputs_bytes(tx.inputs)
        + varint_bytes(tx.outputs.len() as u64) + outputs_bytes(tx.outputs) + u32_bytes(
        tx.lock_time,
    )
}

/// The identity of a transaction: the double hash of its serialization.
pub open spec fn txid_spec(tx: TransactionView) -> Seq<u8> {
    double_hash_spec(tx_bytes(tx))
}

impl OutPoint {
    /// Appends the 36-byte encoding to `out`.
    pub fn put(&self, out: &mut Vec<u8>)
        ensures
            final(out)@ == old(out)@ + outpoint_bytes(self@),
    {
        put_bytes(out, self.txid.as_slice());
        put_le(out, self.index as u64, 4);
        assert(out@ =~= old(out)@ + outpoint_bytes(self@));
    }
}

impl TxInput {
    /// Whether the input fits the wire format.
    pub open spec fn wf(&self) -> bool {
        self.unlock_script.wf()
    }

    /// Tests whether the input fits the wire format.
    pub fn is_wf(&self) -> (r: bool)
        ensures
            r == self.wf(),
    {
        self.unlock_script.is_wf()
    }

    /// Appends the encoding to `out`.
    pub fn put(&self, out: &mut Vec<u8>)
        requires
            self.wf(),
        ensures
            final(out)@ == old(out)@ + input_bytes(self@),
            input_fits(self@),
    {
        self.previous_output.put(out);
        let script = self.unlock_script.to_bytes();
        let script_len = script.len();
        assert(script_bytes(self@.unlock_script).len() == script_len);
        assert(self.previous_output.txid@.len() == 32);
        put_var_bytes(out, script.as_slice());
        put_le(out, self.sequence as u64, 4);
        assert(out@ =~= old(out)@ + input_bytes(self@));
    }
}

impl TxOutput {
    /// Whether the output fits the wire format.
    pub open spec fn wf(&self) -> bool {
        self.lock_script.wf()
    }

    /// Tests whether the output fits the wire format.
    pub fn is_wf(&self) -> (r: bool)
        ensures
            r == self.wf(),
    {
        self.lock_script.is_wf()
    }

    /// Appends the encoding to `out`.
    pub fn put(&self, out: &mut Vec<u8>)
        requires
            self.wf(),
        ensures
            final(out)@ == old(out)@ + output_bytes(self@),
            output_fits(self@),
    {
        put_le(out, self.value, 8);
        let script = self.lock_script.to_bytes();
        let script_len = script.len();
        assert(script_bytes(self@.lock_script).len() == script_len);
        put_var_bytes(out, script.as_slice());
        assert(out@ =~= old(out)@ + output_bytes(self@));
    }
}

/// Whether every input of the list fits the wire format.
pub open spec fn inputs_wf(inputs: Seq<TxInput>) -> bool {
    forall|i: int| 0 <= i < inputs.len() ==> (#[trigger] inputs[i]).wf()
}

/// Whether every output of the list fits the wire format.
pub open spec fn outputs_wf(outputs: Seq<TxOutput>) -> bool {
    forall|i: int| 0 <= i < outputs.len() ==> (#[trigger] outputs[i]).wf()
}

/// Tests whether every input of the list fits the wire format.
pub fn check_inputs_wf(inputs: &Vec<TxInput>) -> (r: bool)
    ensures
        r == inputs_wf(inputs@),
{
    let mut i: usize = 0;
    while i < inputs.len()
        invariant
            i <= inputs.len(),
            forall|j: int| 0 <= j < i ==> (#[trigger] inputs@[j]).wf(),
        decreases inputs.len() - i,
    {
        if !inputs[i].is_wf() {
            return false;
        }
        i += 1;
    }
    true
}

/// Tests whether every output of the list fits the wire format.
pub fn check_outputs_wf(outputs: &Vec<TxOutput>) -> (r: bool)
    ensures
        r == outputs_wf(outputs@),
{
    let mut i: usize = 0;
    while i < outputs.len()
        invariant
            i <= outputs.len(),
            forall|j: int| 0 <= j < i ==> (#[trigger] outputs@[j]).wf(),
        decreases outputs.len() - i,
    {
        if !outputs[i].is_wf() {
            return false;
        }
        i += 1;
    }
    true
}

/// Appends the encodings of `inputs` in order to `out`.
pub fn put_inputs(out: &mut Vec<u8>, inputs: &Vec<TxInput>)
    requires
        inputs_wf(inputs@),
    ensures
        final(out)@ == old(out)@ + inputs_bytes(inputs_view(inputs@)),
        inputs_fit(inputs_view(inputs@)),
{
    let ghost parts = input_parts(inputs_view(inputs@));
    let mut i: usize = 0;
    assert(parts.take(0) =~= Seq::<Seq<u8>>::empty());
    assert(out@ =~= old(out)@ + concat_all(parts.take(0)));
    while i < inputs.len()
        invariant
            i <= inputs.len(),
            inputs_wf(inputs@),
            parts == input_parts(inputs_view(inputs@)),
            out@ == old(out)@ + concat_all(parts.take(i as int)),
            forall|j: int| 0 <= j < i ==> input_fits(#[trigger] inputs_view(inputs@)[j]),
        decreases inputs.len() - i,
    {
        inputs[i].put(out);
        proof {
            let next = parts.take(i + 1);
            assert(next.drop_last() =~= parts.take(i as int));
            assert(next.last() == input_bytes(inputs@[i as int]@));
            assert(out@ =~= old(out)@ + concat_all(next));
        }
        i += 1;
    }
    assert(parts.take(inputs.len() as int) =~= parts);
}

/// Appends the encodings of `outputs` in order to `out`.
pub fn put_outputs(out: &mut Vec<u8>, outputs: &Vec<TxOutput>)
    requires
        outputs_wf(outputs@),
    ensures
        final(out)@ == old(out)@ + outputs_bytes(outputs_view(outputs@)),
        outputs_fit(outputs_view(outputs@)),
{
    let ghost parts = output_parts(outputs_view(outputs@));
    let mut i: usize = 0;
    assert(parts.take(0) =~= Seq::<Seq<u8>>::empty());
    assert(out@ =~= old(out)@ + concat_all(parts.take(0)));
    while i < outputs.len()
        invariant
            i <= outputs.len(),
            outputs_wf(outputs@),
            parts == output_parts(outputs_view(outputs@)),
            out@ == old(out)@ + concat_all(parts.take(i as int)),
            forall|j: int| 0 <= j < i ==> output_fits(#[trigger] outputs_view(outputs@)[j]),
        decreases outputs.len() - i,
    {
        outputs[i].put(out);
        proof {
            let next = parts.take(i + 1);
            assert(next.drop_last() =~= parts.take(i as int));
            assert(next.last() == output_bytes(outputs@[i as int]@));
            assert(out@ =~= old(out)@ + concat_all(next));
        }
        i += 1;
    }
    assert(parts.take(outputs.len() as int) =~= parts);
}

/// A finalized transaction. Its parts can be read but not changed.
#[derive(Debug, PartialEq, Eq)]
pub struct Transaction {
    version: i32,
    inputs: Vec<TxInput>,
    outputs: Vec<TxOutput>,
    lock_time: u32,
}

impl View for Transaction {
    type V = TransactionView;

    closed spec fn view(&self) -> TransactionView {
        TransactionView {
            version: self.version,
            inputs: inputs_view(self.inputs@),
            outputs: outputs_view(self.outputs@),
            lock_time: self.lock_time,
        }
    }
}

impl Transaction {
    /// Whether every script of the transaction fits the wire format.
    pub closed spec fn wf(&self) -> bool {
        inputs_wf(self.inputs@) && outputs_wf(self.outputs@)
    }

    /// A transaction of the given parts.
    pub fn new(version: i32, inputs: Vec<TxInput>, outputs: Vec<TxOutput>, lock_time: u32) -> (tx:
        Transaction)
        ensures
            tx@ == (TransactionView {
                version,
                inputs: inputs_view(inputs@),
                outputs: outputs_view(outputs@),
                lock_time,
            }),
            tx.wf() == (inputs_wf(inputs@) && outputs_wf(outputs@)),
    {
        Transaction { version, inputs, outputs, lock_time }
    }

    /// Tests whether every script of the transaction fits the wire format.
    pub fn is_wf(&self) -> (r: bool)
        ensures
            r == self.wf(),
    {
        check_inputs_wf(&self.inputs) && check_outputs_wf(&self.outputs)
    }

    pub fn version(&self) -> (version: i32)
        ensures
            version == self@.version,
    {
        self.version
    }

    pub fn lock_time(&self) -> (lock_time: u32)
        ensures
            lock_time == self@.lock_time,
    {
        self.lock_time
    }

    pub fn inputs(&self) -> (inputs: &Vec<TxInput>)
        ensures
            inputs_view(inputs@) == self@.inputs,
            self.wf() ==> inputs_wf(inputs@),
    {
        &self.inputs
    }

    pub fn outputs(&self) -> (outputs: &Vec<TxOutput>)
        ensures
            outputs_view(outputs@) == self@.outputs,
            self.wf() ==> outputs_wf(outputs@),
    {
        &self.outputs
    }

    /// The canonical serialization. Decoding it gives the transaction back.
    pub fn to_bytes(&self) -> (bytes: Vec<u8>)
        requires
            self.wf(),
        ensures
            bytes@ == tx_bytes(self@),
            tx_fits(self@),
            parse_tx(bytes@) == Some((self@, bytes@.len())),
    {
        let mut out: Vec<u8> = Vec::new();
        put_le(&mut out, i32_pattern(self.version) as u64, 4);
        put_varint(&mut out, self.inputs.len() as u64);
        put_inputs(&mut out, &self.inputs);
        put_varint(&mut out, self.outputs.len() as u64);
        put_outputs(&mut out, &self.outputs);
        put_le(&mut out, self.lock_time as u64, 4);
        assert(out@ =~= tx_bytes(self@));
        proof {
            lemma_tx_roundtrip(self@, Seq::empty());
            assert(tx_bytes(self@) + Seq::<u8>::empty() =~= tx_bytes(self@));
        }
        out
    }

    /// The transaction id: the double hash of the serialization, computed
    /// anew on every call.
    pub fn txid(&self) -> (id: [u8; 32])
        requires
            self.wf(),
        ensures
            id@ == txid_spec(self@),
    {
        let bytes = self.to_bytes();
        double_hash(bytes.as_slice())
    }
}

/// What decoding an input from the front of `b` yields, with the bytes
/// consumed; nothing when `b` ends early or the script length is malformed.
pub open spec fn parse_input(b: Seq<u8>) -> Option<(TxInputView, nat)> {
    if b.len() < 36 {
        None
    } else {
        match parse_var_bytes(b.skip(36)) {
            None => None,
            Some((script, n)) => if b.len() - 36 - n < 4 {
                None
            } else {
                Some(
                    (
                        TxInputView {
                            previous_output: OutPointView {
                                txid: b.subrange(0, 32),
                                index: le_value(b.subrange(32, 36)) as u32,
                            },
                            unlock_script: parse_script(script),
                            sequence: le_value(b.subrange((36 + n) as int, (40 + n) as int)) as u32,
                        },
                        40 + n,
                    ),
                )
            },
        }
    }
}

/// What decoding an output from the front of `b` yields, with the bytes
/// consumed.
pub open spec fn parse_output(b: Seq<u8>) -> Option<(TxOutputView, nat)> {
    if b.len() < 8 {
        None
    } else {
        match parse_var_bytes(b.skip(8)) {
            None => None,
            Some((script, n)) => Some(
                (
                    TxOutputView {
                        value: le_value(b.subrange(0, 8)) as u64,
                        lock_script: parse_script(script),
                    },
                    8 + n,
                ),
            ),
        }
    }
}

/// What decoding `count` inputs in a row from the front of `b` yields.
pub open spec fn parse_inputs(b: Seq<u8>, count: nat) -> Option<(Seq<TxInputView>, nat)>
    decreases count,
{
    if count == 0 {
        Some((Seq::empty(), 0))
    } else {
        match parse_inputs(b, (count - 1) as nat) {
            None => None,
            Some((init, n)) => if n > b.len() {
                None
            } else {
                match parse_input(b.skip(n as int)) {
                    None => None,
                    Some((last, m)) => Some((init.push(last), n + m)),
                }
            },
        }
    }
}

/// What decoding `count` outputs in a row from the front of `b` yields.
pub open spec fn parse_outputs(b: Seq<u8>, count: nat) -> Option<(Seq<TxOutputView>, nat)>
    decreases count,
{
    if count == 0 {
        Some((Seq::empty(), 0))
    } else {
        match parse_outputs(b, (count - 1) as nat) {
            None => None,
            Some((init, n)) => if n > b.len() {
                None
            } else {
                match parse_output(b.skip(n as int)) {
                    None => None,
                    Some((last, m)) => Some((init.push(last), n + m)),
                }
            },
        }
    }
}

/// What decoding a count and that many inputs from the front of `b` yields.
pub open spec fn parse_counted_inputs(b: Seq<u8>) -> Option<(Seq<TxInputView>, nat)> {
    match parse_varint(b) {
        None => None,
        Some((count, a)) => if a > b.len() {
            None
        } else {
            match parse_inputs(b.skip(a as int), count as nat) {
                None => None,
                Some((inputs, c)) => Some((inputs, a + c)),
            }
        },
    }
}

/// What decoding a count and that many outputs from the front of `b` yields.
pub open spec fn parse_counted_outputs(b: Seq<u8>) -> Option<(Seq<TxOutputView>, nat)> {
    match parse_varint(b) {
        None => None,
        Some((count, a)) => if a > b.len() {
            None
        } else {
            match parse_outputs(b.skip(a as int), count as nat) {
                None => None,
                Some((outputs, c)) => Some((outputs, a + c)),
            }
        },
    }
}

/// What decoding a transaction from the front of `b` yields, with the
/// bytes consumed.
pub open spec fn parse_tx(b: Seq<u8>) -> Option<(TransactionView, nat)> {
    if b.len() < 4 {
        None
    } else {
        match parse_counted_inputs(b.skip(4)) {
            None => None,
            Some((inputs, x)) => if 4 + x > b.len() {
                None
            } else {
                match parse_counted_outputs(b.skip((4 + x) as int)) {
                    None => None,
                    Some((outputs, y)) => {
                        let p = 4 + x + y;
                        if b.len() < p + 4 {
                            None
                        } else {
                            Some(
                                (
                                    TransactionView {
                                        version: from_twos(le_value(b.subrange(0, 4)), 4) as i32,
                                        inputs,
                                        outputs,
                                        lock_time: le_value(
                                            b.subrange(p as int, (p + 4) as int),
                                        ) as u32,
                                    },
                                    (p + 4) as nat,
                                ),
                            )
                        }
                    },
                }
            },
        }
    }
}

/// Once a run of inputs fails to decode, no longer run decodes.
pub proof fn lemma_parse_inputs_sticky(b: Seq<u8>, failed: nat, count: nat)
    requires
        parse_inputs(b, failed) is None,
        failed <= count,
    ensures
        parse_inputs(b, count) is None,
    decreases count,
{
    if failed < count {
        lemma_parse_inputs_sticky(b, failed, (count - 1) as nat);
    }
}

/// Once a run of outputs fails to decode, no longer run decodes.
pub proof fn lemma_parse_outputs_sticky(b: Seq<u8>, failed: nat, count: nat)
    requires
        parse_outputs(b, failed) is None,
        failed <= count,
    ensures
        parse_outputs(b, count) is None,
    decreases count,
{
    if failed < count {
        lemma_parse_outputs_sticky(b, failed, (count - 1) as nat);
    }
}

/// An encoded input decodes to itself and takes exactly its encoding,
/// whatever follows.
pub proof fn lemma_parse_input_of_bytes(input: TxInputView, rest: Seq<u8>)
    requires
        input_fits(input),
    ensures
        parse_input(input_bytes(input) + rest) == Some((input, input_bytes(input).len())),
{
    let txid = input.previous_output.txid;
    let index = u32_bytes(input.previous_output.index);
    let script = script_bytes(input.unlock_script);
    let sequence = u32_bytes(input.sequence);
    let b = input_bytes(input) + rest;
    lemma_pow256_values();
    lemma_le_bytes_len(input.previous_output.index as nat, 4);
    lemma_le_bytes_len(input.sequence as nat, 4);
    lemma_le_value_of_le_bytes(input.previous_output.index as nat, 4);
    lemma_le_value_of_le_bytes(input.sequence as nat, 4);
    assert(b.subrange(0, 32) =~= txid);
    assert(b.subrange(32, 36) =~= index);
    assert(b.skip(36) =~= var_bytes(script) + (sequence + rest));
    lemma_parse_var_bytes_of_bytes(script, sequence + rest);
    let n = var_bytes(script).len();
    assert(b.subrange((36 + n) as int, (40 + n) as int) =~= sequence);
    lemma_script_roundtrip(input.unlock_script);
    let parsed = parse_input(b).unwrap().0;
    assert(parsed.previous_output == input.previous_output);
    assert(parsed == input);
}

/// An encoded output decodes to itself and takes exactly its encoding,
/// whatever follows.
pub proof fn lemma_parse_output_of_bytes(output: TxOutputView, rest: Seq<u8>)
    requires
        output_fits(output),
    ensures
        parse_output(output_bytes(output) + rest) == Some((output, output_bytes(output).len())),
{
    let value = u64_bytes(output.value);
    let script = script_bytes(output.lock_script);
    let b = output_bytes(output) + rest;
    lemma_pow256_values();
    lemma_le_bytes_len(output.value as nat, 8);
    lemma_le_value_of_le_bytes(output.value as nat, 8);
    assert(b.subrange(0, 8) =~= value);
    assert(b.skip(8) =~= var_bytes(script) + rest);
    lemma_parse_var_bytes_of_bytes(script, rest);
    lemma_script_roundtrip(output.lock_script);
}

/// Encoded inputs decode to themselves, whatever follows.
pub proof fn lemma_parse_inputs_of_bytes(inputs: Seq<TxInputView>, rest: Seq<u8>)
    requires
        inputs_fit(inputs),
    ensures
        parse_inputs(inputs_bytes(inputs) + rest, inputs.len()) == Some(
            (inputs, inputs_bytes(inputs).len()),
        ),
    decreases inputs.len(),
{
    if inputs.len() > 0 {
        let init = inputs.drop_last();
        let last = inputs.last();
        let parts = input_parts(inputs);
        assert(parts.drop_last() =~= input_parts(init));
        assert(parts.last() == input_bytes(last));
        let b = inputs_bytes(inputs) + rest;
        assert(b =~= inputs_bytes(init) + (input_bytes(last) + rest));
        lemma_parse_inputs_of_bytes(init, input_bytes(last) + rest);
        let n = inputs_bytes(init).len();
        assert(b.skip(n as int) =~= input_bytes(last) + rest);
        lemma_parse_input_of_bytes(last, rest);
        assert(init.push(last) =~= inputs);
    }
}

/// Encoded outputs decode to themselves, whatever follows.
pub proof fn lemma_parse_outputs_of_bytes(outputs: Seq<TxOutputView>, rest: Seq<u8>)
    requires
        outputs_fit(outputs),
    ensures
        parse_outputs(outputs_bytes(outputs) + rest, outputs.len()) == Some(
            (outputs, outputs_bytes(outputs).len()),
        ),
    decreases outputs.len(),
{
    if outputs.len() > 0 {
        let init = outputs.drop_last();
        let last = outputs.last();
        let parts = output_parts(outputs);
        assert(parts.drop_last() =~= output_parts(init));
        assert(parts.last() == output_bytes(last));
        let b = outputs_bytes(outputs) + rest;
        assert(b =~= outputs_bytes(init) + (output_bytes(last) + rest));
        lemma_parse_outputs_of_bytes(init, output_bytes(last) + rest);
        let n = outputs_bytes(init).len();
        assert(b.skip(n as int) =~= output_bytes(last) + rest);
        lemma_parse_output_of_bytes(last, rest);
        assert(init.push(last) =~= outputs);
    }
}

/// What follows a prefix of a concatenation.
pub proof fn lemma_skip_prefix(prefix: Seq<u8>, tail: Seq<u8>)
    ensures
        (prefix + tail).skip(prefix.len() as int) == tail,
        (prefix + tail).subrange(0, prefix.len() as int) == prefix,
{
    assert((prefix + tail).skip(prefix.len() as int) =~= tail);
    assert((prefix + tail).subrange(0, prefix.len() as int) =~= prefix);
}

/// The encoding of a counted list of inputs.
pub open spec fn counted_inputs_bytes(inputs: Seq<TxInputView>) -> Seq<u8> {
    varint_bytes(inputs.len() as u64) + inputs_bytes(inputs)
}

/// The encoding of a counted list of outputs.
pub open spec fn counted_outputs_bytes(outputs: Seq<TxOutputView>) -> Seq<u8> {
    varint_bytes(outputs.len() as u64) + outputs_bytes(outputs)
}

/// An encoded counted list of inputs decodes to itself, whatever follows.
pub proof fn lemma_parse_counted_inputs_of_bytes(inputs: Seq<TxInputView>, rest: Seq<u8>)
    requires
        inputs_fit(inputs),
        inputs.len() <= u64::MAX,
    ensures
        parse_counted_inputs(counted_inputs_bytes(inputs) + rest) == Some(
            (inputs, counted_inputs_bytes(inputs).len()),
        ),
{
    let count = varint_bytes(inputs.len() as u64);
    let tail = inputs_bytes(inputs) + rest;
    let b = counted_inputs_bytes(inputs) + rest;
    assert(b =~= count + tail);
    lemma_parse_varint_of_bytes(inputs.len() as u64, tail);
    lemma_skip_prefix(count, tail);
    lemma_parse_inputs_of_bytes(inputs, rest);
}

/// An encoded counted list of outputs decodes to itself, whatever follows.
pub proof fn lemma_parse_counted_outputs_of_bytes(outputs: Seq<TxOutputView>, rest: Seq<u8>)
    requires
        outputs_fit(outputs),
        outputs.len() <= u64::MAX,
    ensures
        parse_counted_outputs(counted_outputs_bytes(outputs) + rest) == Some(
            (outputs, counted_outputs_bytes(outputs).len()),
        ),
{
    let count = varint_bytes(outputs.len() as u64);
    let tail = outputs_bytes(outputs) + rest;
    let b = counted_outputs_bytes(outputs) + rest;
    assert(b =~= count + tail);
    lemma_parse_varint_of_bytes(outputs.len() as u64, tail);
    lemma_skip_prefix(count, tail);
    lemma_parse_outputs_of_bytes(outputs, rest);
}

/// Where the four parts of `v + i + o + l + rest` lie in it.
pub proof fn lemma_four_parts(v: Seq<u8>, i: Seq<u8>, o: Seq<u8>, l: Seq<u8>, rest: Seq<u8>)
    ensures
        ({
            let b = v + i + o + l + rest;
            let p = v.len() + i.len() + o.len();
            &&& b.subrange(0, v.len() as int) == v
            &&& b.skip(v.len() as int) == i + (o + (l + rest))
            &&& b.skip((v.len() + i.len()) as int) == o + (l + rest)
            &&& b.subrange(p as int, (p + l.len()) as int) == l
            &&& b.len() == p + l.len() + rest.len()
        }),
{
    let b = v + i + o + l + rest;
    let p = v.len() + i.len() + o.len();
    assert(b.subrange(0, v.len() as int) =~= v);
    assert(b.skip(v.len() as int) =~= i + (o + (l + rest)));
    assert(b.skip((v.len() + i.len()) as int) =~= o + (l + rest));
    assert(b.subrange(p as int, (p + l.len()) as int) =~= l);
}

/// Decoding the serialization of a transaction gives the transaction back
/// and consumes exactly the serialization, whatever follows.
pub proof fn lemma_tx_roundtrip(tx: TransactionView, rest: Seq<u8>)
    requires
        tx_fits(tx),
    ensures
        parse_tx(tx_bytes(tx) + rest) == Some((tx, tx_bytes(tx).len())),
{
    let version = i32_bytes(tx.version);
    let ins = counted_inputs_bytes(tx.inputs);
    let outs = counted_outputs_bytes(tx.outputs);
    let lock_time = u32_bytes(tx.lock_time);
    let b = version + ins + outs + lock_time + rest;
    let t3 = lock_time + rest;
    let t2 = outs + t3;
    let t1 = ins + t2;
    let x = ins.len();
    let y = outs.len();
    let p = 4 + x + y;
    let pattern = to_twos(tx.version as int, 4);
    assert(version.len() == 4 && lock_time.len() == 4) by {
        lemma_le_bytes_len(pattern, 4);
        lemma_le_bytes_len(tx.lock_time as nat, 4);
    }
    assert(tx_bytes(tx) == version + ins + outs + lock_time) by {
        assert(tx_bytes(tx) =~= version + ins + outs + lock_time);
    }
    lemma_four_parts(version, ins, outs, lock_time, rest);
    assert(from_twos(le_value(version), 4) == tx.version) by {
        lemma_pow256_values();
        lemma_le_value_of_le_bytes(pattern, 4);
    }
    assert(parse_counted_inputs(t1) == Some((tx.inputs, x))) by {
        lemma_parse_counted_inputs_of_bytes(tx.inputs, t2);
    }
    assert(parse_counted_outputs(t2) == Some((tx.outputs, y))) by {
        lemma_parse_counted_outputs_of_bytes(tx.outputs, t3);
    }
    assert(le_value(lock_time) == tx.lock_time) by {
        lemma_pow256_values();
        lemma_le_value_of_le_bytes(tx.lock_time as nat, 4);
    }
}

/// Copies thirty-two bytes into an array.
pub fn to_array_32(bytes: &[u8]) -> (out: [u8; 32])
    requires
        bytes.len() == 32,
    ensures
        out@ == bytes@,
{
    let mut out = [0u8; 32];
    let mut i: usize = 0;
    while i < 32
        invariant
            i <= 32,
            bytes.len() == 32,
            forall|j: int| 0 <= j < i ==> out@[j] == bytes@[j],
        decreases 32 - i,
    {
        out[i] = bytes[i];
        i += 1;
    }
    assert(out@ =~= bytes@);
    out
}

/// Reads four bytes at `pos` as an unsigned little-endian number.
pub fn read_u32_at(bytes: &[u8], pos: usize) -> (v: u32)
    requires
        pos + 4 <= bytes.len(),
    ensures
        v == le_value(bytes@.subrange(pos as int, pos + 4)),
{
    let part = slice_subrange(bytes, pos, pos + 4);
    assert(part@.subrange(0, 4) =~= part@);
    proof {
        lemma_le_bytes_of_le_value(part@);
        lemma_pow256_values();
    }
    get_le(part, 4) as u32
}

impl TxInput {
    /// Decodes an input from the front of `bytes`, with the bytes consumed.
    /// Fails with `MalformedEncoding` exactly when `bytes` ends early or
    /// the script length is malformed.
    pub fn decode(bytes: &[u8]) -> (r: Result<(TxInput, usize), Error>)
        ensures
            match r {
                Ok((input, n)) => parse_input(bytes@) == Some((input@, n as nat)) && n
                    <= bytes.len() && input.wf(),
                Err(e) => e == Error::MalformedEncoding && parse_input(bytes@) is None,
            },
    {
        if bytes.len() < 36 {
            return Err(Error::MalformedEncoding);
        }
        let txid = to_array_32(slice_subrange(bytes, 0, 32));
        let index = read_u32_at(bytes, 32);
        let tail = slice_subrange(bytes, 36, bytes.len());
        assert(tail@ =~= bytes@.skip(36));
        let (script, n) = match decode_var_bytes(tail) {
            Ok(pair) => pair,
            Err(e) => return Err(e),
        };
        if bytes.len() - 36 - n < 4 {
            return Err(Error::MalformedEncoding);
        }
        let sequence = read_u32_at(bytes, 36 + n);
        let input = TxInput {
            previous_output: OutPoint { txid, index },
            unlock_script: Script::from_bytes(script.as_slice()),
            sequence,
        };
        Ok((input, 40 + n))
    }
}

impl TxOutput {
    /// Decodes an output from the front of `bytes`, with the bytes
    /// consumed. Fails with `MalformedEncoding` exactly when `bytes` ends
    /// early or the script length is malformed.
    pub fn decode(bytes: &[u8]) -> (r: Result<(TxOutput, usize), Error>)
        ensures
            match r {
                Ok((output, n)) => parse_output(bytes@) == Some((output@, n as nat)) && n
                    <= bytes.len() && output.wf(),
                Err(e) => e == Error::MalformedEncoding && parse_output(bytes@) is None,
            },
    {
        if bytes.len() < 8 {
            return Err(Error::MalformedEncoding);
        }
        let value = get_le(bytes, 8);
        let tail = slice_subrange(bytes, 8, bytes.len());
        assert(tail@ =~= bytes@.skip(8));
        let (script, n) = match decode_var_bytes(tail) {
            Ok(pair) => pair,
            Err(e) => return Err(e),
        };
        let output = TxOutput { value, lock_script: Script::from_bytes(script.as_slice()) };
        Ok((output, 8 + n))
    }
}

/// Decodes `count` inputs in a row from the front of `bytes`, with the
/// bytes consumed. Fails with `MalformedEncoding` exactly when one of them
/// does not decode.
pub fn decode_inputs(bytes: &[u8], count: u64) -> (r: Result<(Vec<TxInput>, usize), Error>)
    ensures
        match r {
            Ok((inputs, n)) => parse_inputs(bytes@, count as nat) == Some(
                (inputs_view(inputs@), n as nat),
            ) && n <= bytes.len() && inputs_wf(inputs@),
            Err(e) => e == Error::MalformedEncoding && parse_inputs(bytes@, count as nat) is None,
        },
{
    let mut inputs: Vec<TxInput> = Vec::new();
    let mut pos: usize = 0;
    let mut i: u64 = 0;
    assert(inputs_view(inputs@) =~= Seq::<TxInputView>::empty());
    while i < count
        invariant
            i <= count,
            pos <= bytes.len(),
            parse_inputs(bytes@, i as nat) == Some((inputs_view(inputs@), pos as nat)),
            inputs_wf(inputs@),
        decreases count - i,
    {
        let tail = slice_subrange(bytes, pos, bytes.len());
        assert(tail@ =~= bytes@.skip(pos as int));
        let ghost before = inputs_view(inputs@);
        match TxInput::decode(tail) {
            Ok((input, n)) => {
                inputs.push(input);
                assert(inputs_view(inputs@) =~= before.push(input@));
                pos += n;
                i += 1;
            },
            Err(e) => {
                proof {
                    lemma_parse_inputs_sticky(bytes@, (i + 1) as nat, count as nat);
                }
                return Err(e);
            },
        }
    }
    Ok((inputs, pos))
}

/// Decodes `count` outputs in a row from the front of `bytes`, with the
/// bytes consumed. Fails with `MalformedEncoding` exactly when one of them
/// does not decode.
pub fn decode_outputs(bytes: &[u8], count: u64) -> (r: Result<(Vec<TxOutput>, usize), Error>)
    ensures
        match r {
            Ok((outputs, n)) => parse_outputs(bytes@, count as nat) == Some(
                (outputs_view(outputs@), n as nat),
            ) && n <= bytes.len() && outputs_wf(outputs@),
            Err(e) => e == Error::MalformedEncoding && parse_outputs(bytes@, count as nat) is None,
        },
{
    let mut outputs: Vec<TxOutput> = Vec::new();
    let mut pos: usize = 0;
    let mut i: u64 = 0;
    assert(outputs_view(outputs@) =~= Seq::<TxOutputView>::empty());
    while i < count
        invariant
            i <= count,
            pos <= bytes.len(),
            parse_outputs(bytes@, i as nat) == Some((outputs_view(outputs@), pos as nat)),
            outputs_wf(outputs@),
        decreases count - i,
    {
        let tail = slice_subrange(bytes, pos, bytes.len());
        assert(tail@ =~= bytes@.skip(pos as int));
        let ghost before = outputs_view(outputs@);
        match TxOutput::decode(tail) {
            Ok((output, n)) => {
                outputs.push(output);
                assert(outputs_view(outputs@) =~= before.push(output@));
                pos += n;
                i += 1;
            },
            Err(e) => {
                proof {
                    lemma_parse_outputs_sticky(bytes@, (i + 1) as nat, count as nat);
                }
                return Err(e);
            },
        }
    }
    Ok((outputs, pos))
}

/// Decodes a count and that many inputs from the front of `bytes`.
pub fn decode_counted_inputs(bytes: &[u8]) -> (r: Result<(Vec<TxInput>, usize), Error>)
    ensures
        match r {
            Ok((inputs, n)) => parse_counted_inputs(bytes@) == Some(
                (inputs_view(inputs@), n as nat),
            ) && n <= bytes.len() && inputs_wf(inputs@),
            Err(e) => e == Error::MalformedEncoding && parse_counted_inputs(bytes@) is None,
        },
{
    let (count, a) = match decode_varint(bytes) {
        Ok(pair) => pair,
        Err(e) => return Err(e),
    };
    let tail = slice_subrange(bytes, a, bytes.len());
    assert(tail@ =~= bytes@.skip(a as int));
    match decode_inputs(tail, count) {
        Ok((inputs, c)) => Ok((inputs, a + c)),
        Err(e) => Err(e),
    }
}

/// Decodes a count and that many outputs from the front of `bytes`.
pub fn decode_counted_outputs(bytes: &[u8]) -> (r: Result<(Vec<TxOutput>, usize), Error>)
    ensures
        match r {
            Ok((outputs, n)) => parse_counted_outputs(bytes@) == Some(
                (outputs_view(outputs@), n as nat),
            ) && n <= bytes.len() && outputs_wf(outputs@),
            Err(e) => e == Error::MalformedEncoding && parse_counted_outputs(bytes@) is None,
        },
{
    let (count, a) = match decode_varint(bytes) {
        Ok(pair) => pair,
        Err(e) => return Err(e),
    };
    let tail = slice_subrange(bytes, a, bytes.len());
    assert(tail@ =~= bytes@.skip(a as int));
    match decode_outputs(tail, count) {
        Ok((outputs, c)) => Ok((outputs, a + c)),
        Err(e) => Err(e),
    }
}

impl Transaction {
    /// Decodes a transaction from the front of `bytes`, with the bytes
    /// consumed. Fails with `MalformedEncoding` exactly when `bytes` ends
    /// early or a count or length in it is malformed.
    pub fn decode(bytes: &[u8]) -> (r: Result<(Transaction, usize), Error>)
        ensures
            match r {
                Ok((tx, n)) => parse_tx(bytes@) == Some((tx@, n as nat)) && n <= bytes.len()
                    && tx.wf(),
                Err(e) => e == Error::MalformedEncoding && parse_tx(bytes@) is None,
            },
    {
        if bytes.len() < 4 {
            return Err(Error::MalformedEncoding);
        }
        let pattern = read_u32_at(bytes, 0);
        let version = i32_from_pattern(pattern);
        let tail = slice_subrange(bytes, 4, bytes.len());
        assert(tail@ =~= bytes@.skip(4));
        let (inputs, x) = match decode_counted_inputs(tail) {
            Ok(pair) => pair,
            Err(e) => return Err(e),
        };
        let tail = slice_subrange(bytes, 4 + x, bytes.len());
        assert(tail@ =~= bytes@.skip(4 + x));
        let (outputs, y) = match decode_counted_outputs(tail) {
            Ok(pair) => pair,
            Err(e) => return Err(e),
        };
        let p = 4 + x + y;
        if bytes.len() - p < 4 {
            return Err(Error::MalformedEncoding);
        }
        let lock_time = read_u32_at(bytes, p);
        Ok((Transaction { version, inputs, outputs, lock_time }, p + 4))
    }

    /// Decodes a transaction that takes up all of `bytes`. Fails with
    /// `MalformedEncoding` exactly when no transaction decodes or bytes
    /// are left over.
    pub fn from_bytes(bytes: &[u8]) -> (r: Result<Transaction, Error>)
        ensures
            match r {
                Ok(tx) => parse_tx(bytes@) == Some((tx@, bytes@.len())) && tx.wf(),
                Err(e) => e == Error::MalformedEncoding && (parse_tx(bytes@) is None || parse_tx(
                    bytes@,
                ).unwrap().1 != bytes@.len()),
            },
    {
        match Transaction::decode(bytes) {
            Ok((tx, n)) => if n == bytes.len() {
                Ok(tx)
            } else {
                Err(Error::MalformedEncoding)
            },
            Err(e) => Err(e),
        }
    }
}

} // verus!
