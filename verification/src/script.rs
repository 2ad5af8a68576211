//! Scripts as sequences of operations, their wire encoding, and the
//! standard templates.

use crate::codec::{
    copy_bytes, get_le, le_bytes, le_value, lemma_le_bytes_len, lemma_le_bytes_of_le_value,
    lemma_le_value_of_le_bytes, lemma_pow256_values, put_bytes, put_le,
};
use crate::error::Error;
use crate::opcode::{
    lemma_opcode_byte_roundtrip, opcode_byte, opcode_for_small_number, opcode_of_byte,
    small_number_opcode, Opcode,
};
use vstd::prelude::*;
use vstd::slice::slice_subrange;

verus! {

/// The byte that encodes the `Invalid` sentinel; it stands for no opcode.
pub const INVALID_OP_BYTE: u8 = 0xff;

/// The longest push the wire format can carry.
pub const MAX_ENCODABLE_PUSH: usize = 0xffff_ffff;

/// One operation of a script.
#[derive(Debug, PartialEq, Eq)]
pub enum ScriptOp {
    /// Push the literal bytes. An empty push is the shorthand for zero.
    PushBytes(Vec<u8>),
    /// An opcode of the fixed set.
    Opcode(Opcode),
    /// What an undecodable byte or a truncated push decodes to. Evaluating
    /// it always fails.
    Invalid,
}

/// The mathematical value of a `ScriptOp`.
pub enum ScriptOpView {
    PushBytes(Seq<u8>),
    Opcode(Opcode),
    Invalid,
}

impl View for ScriptOp {
    type V = ScriptOpView;

    open spec fn view(&self) -> ScriptOpView {
        match self {
            ScriptOp::PushBytes(data) => ScriptOpView::PushBytes(data@),
            ScriptOp::Opcode(op) => ScriptOpView::Opcode(*op),
            ScriptOp::Invalid => ScriptOpView::Invalid,
        }
    }
}

impl Clone for ScriptOp {
    fn clone(&self) -> (copy: Self)
        ensures
            copy@ == self@,
    {
        match self {
            ScriptOp::PushBytes(data) => ScriptOp::PushBytes(copy_bytes(data.as_slice())),
            ScriptOp::Opcode(op) => ScriptOp::Opcode(*op),
            ScriptOp::Invalid => ScriptOp::Invalid,
        }
    }
}

/// The values of a sequence of ops, one by one.
pub open spec fn ops_view(ops: Seq<ScriptOp>) -> Seq<ScriptOpView> {
    Seq::new(ops.len(), |i: int| ops[i]@)
}

/// Whether the wire format can carry the op: a push of at most 2^32 - 1 bytes.
pub open spec fn op_encodable(op: ScriptOpView) -> bool {
    match op {
        ScriptOpView::PushBytes(data) => data.len() <= MAX_ENCODABLE_PUSH,
        _ => true,
    }
}

/// Whether the wire format can carry every op.
pub open spec fn ops_encodable(ops: Seq<ScriptOpView>) -> bool {
    forall|i: int| 0 <= i < ops.len() ==> op_encodable(#[trigger] ops[i])
}

/// The canonical encoding of a data push: the shortest prefix that can
/// carry the length, then the data.
pub open spec fn push_bytes(data: Seq<u8>) -> Seq<u8> {
    if data.len() <= 0x4b {
        seq![data.len() as u8] + data
    } else if data.len() <= 0xff {
        seq![0x4cu8] + le_bytes(data.len(), 1) + data
    } else if data.len() <= 0xffff {
        seq![0x4du8] + le_bytes(data.len(), 2) + data
    } else {
        seq![0x4eu8] + le_bytes(data.len(), 4) + data
    }
}

/// The canonical encoding of one op.
pub open spec fn op_bytes(op: ScriptOpView) -> Seq<u8> {
    match op {
        ScriptOpView::PushBytes(data) => push_bytes(data),
        ScriptOpView::Opcode(code) => seq![opcode_byte(code)],
        ScriptOpView::Invalid => seq![INVALID_OP_BYTE],
    }
}

/// The encoding of a script: its ops' encodings in order.
pub open spec fn script_bytes(ops: Seq<ScriptOpView>) -> Seq<u8>
    decreases ops.len(),
{
    if ops.len() == 0 {
        Seq::empty()
    } else {
        script_bytes(ops.drop_last()) + op_bytes(ops.last())
    }
}

/// The width of the length field behind a push prefix byte.
pub open spec fn push_length_width(prefix: u8) -> nat {
    if prefix == 0x4c {
        1
    } else if prefix == 0x4d {
        2
    } else if prefix == 0x4e {
        4
    } else {
        0
    }
}

/// The op at the front of a non-empty `b` and the bytes it takes. A push
/// that declares more than remains takes everything and is `Invalid`; a
/// byte that stands for nothing takes one byte and is `Invalid`.
pub open spec fn parse_op(b: Seq<u8>) -> (ScriptOpView, nat) {
    let first = b[0];
    if first <= 0x4e {
        let width = push_length_width(first);
        if b.len() - 1 < width {
            (ScriptOpView::Invalid, b.len())
        } else {
            let len = if first <= 0x4b {
                first as nat
            } else {
                le_value(b.subrange(1, 1 + width as int))
            };
            if b.len() - 1 - width < len {
                (ScriptOpView::Invalid, b.len())
            } else {
                (
                    ScriptOpView::PushBytes(
                        b.subrange(1 + width as int, 1 + width as int + len as int),
                    ),
                    1 + width + len,
                )
            }
        }
    } else {
        match opcode_of_byte(first) {
            Some(code) => (ScriptOpView::Opcode(code), 1),
            None => (ScriptOpView::Invalid, 1),
        }
    }
}

/// The ops that `b` decodes to. Every byte string decodes.
pub open spec fn parse_script(b: Seq<u8>) -> Seq<ScriptOpView>
    decreases b.len(),
{
    if b.len() == 0 {
        Seq::empty()
    } else {
        let (op, n) = parse_op(b);
        if 1 <= n <= b.len() {
            seq![op] + parse_script(b.skip(n as int))
        } else {
            seq![op]
        }
    }
}

/// What `parse_op` takes lies within the input and is at least one byte,
/// and what it yields can be encoded again.
pub proof fn lemma_parse_op_bounds(b: Seq<u8>)
    requires
        b.len() > 0,
        b.len() <= usize::MAX,
    ensures
        1 <= parse_op(b).1 <= b.len(),
        op_encodable(parse_op(b).0),
{
    let first = b[0];
    if 0x4c <= first <= 0x4e {
        let width = push_length_width(first);
        if b.len() - 1 >= width {
            lemma_le_bytes_of_le_value(b.subrange(1, 1 + width as int));
            lemma_pow256_values();
        }
    }
}

/// The encoding of an op is never empty.
pub proof fn lemma_op_bytes_nonempty(op: ScriptOpView)
    ensures
        op_bytes(op).len() >= 1,
{
}

/// An encoded op decodes to itself and takes exactly its encoding,
/// whatever follows.
pub proof fn lemma_parse_op_of_bytes(op: ScriptOpView, rest: Seq<u8>)
    requires
        op_encodable(op),
    ensures
        parse_op(op_bytes(op) + rest) == (op, op_bytes(op).len()),
{
    let enc = op_bytes(op);
    let b = enc + rest;
    lemma_pow256_values();
    match op {
        ScriptOpView::PushBytes(data) => {
            let first = enc[0];
            let width = push_length_width(first);
            if data.len() <= 0x4b {
                assert(b.subrange(1, 1 + data.len() as int) =~= data);
            } else {
                lemma_le_bytes_len(data.len(), width);
                lemma_le_value_of_le_bytes(data.len(), width);
                assert(b.subrange(1, 1 + width as int) =~= le_bytes(data.len(), width));
                assert(b.subrange(1 + width as int, 1 + width as int + data.len() as int)
                    =~= data);
            }
        },
        ScriptOpView::Opcode(code) => {
            lemma_opcode_byte_roundtrip(code);
        },
        ScriptOpView::Invalid => {},
    }
}

/// Encoding distributes over putting an op in front.
pub proof fn lemma_script_bytes_front(op: ScriptOpView, ops: Seq<ScriptOpView>)
    ensures
        script_bytes(seq![op] + ops) == op_bytes(op) + script_bytes(ops),
    decreases ops.len(),
{
    let all = seq![op] + ops;
    if ops.len() == 0 {
        assert(all.drop_last() =~= Seq::<ScriptOpView>::empty());
        assert(all.last() == op);
        assert(script_bytes(all.drop_last()) =~= Seq::<u8>::empty());
        assert(script_bytes(ops) =~= Seq::<u8>::empty());
        assert(script_bytes(all) =~= op_bytes(op) + script_bytes(ops));
    } else {
        assert(all.drop_last() =~= seq![op] + ops.drop_last());
        lemma_script_bytes_front(op, ops.drop_last());
        assert(script_bytes(all) =~= op_bytes(op) + script_bytes(ops));
    }
}

/// Decoding the encoding of a script gives the script back, op for op.
pub proof fn lemma_script_roundtrip(ops: Seq<ScriptOpView>)
    requires
        ops_encodable(ops),
    ensures
        parse_script(script_bytes(ops)) == ops,
    decreases ops.len(),
{
    if ops.len() == 0 {
        assert(parse_script(script_bytes(ops)) =~= ops);
    } else {
        let first = ops[0];
        let tail = ops.drop_first();
        assert(ops =~= seq![first] + tail);
        lemma_script_bytes_front(first, tail);
        let b = op_bytes(first) + script_bytes(tail);
        lemma_parse_op_of_bytes(first, script_bytes(tail));
        lemma_op_bytes_nonempty(first);
        assert(b.skip(op_bytes(first).len() as int) =~= script_bytes(tail));
        lemma_script_roundtrip(tail);
    }
}

/// An ordered sequence of operations.
#[derive(Debug, PartialEq, Eq)]
pub struct Script {
    pub ops: Vec<ScriptOp>,
}

impl View for Script {
    type V = Seq<ScriptOpView>;

    open spec fn view(&self) -> Seq<ScriptOpView> {
        ops_view(self.ops@)
    }
}

impl Clone for Script {
    fn clone(&self) -> (copy: Self)
        ensures
            copy@ == self@,
    {
        let mut ops: Vec<ScriptOp> = Vec::new();
        let mut i: usize = 0;
        while i < self.ops.len()
            invariant
                i <= self.ops.len(),
                ops_view(ops@) == self@.take(i as int),
            decreases self.ops.len() - i,
        {
            let ghost before = ops_view(ops@);
            let op = self.ops[i].clone();
            ops.push(op);
            assert(ops_view(ops@) =~= before.push(self@[i as int]));
            i += 1;
            assert(ops_view(ops@) =~= self@.take(i as int));
        }
        assert(self@.take(self.ops.len() as int) =~= self@);
        Script { ops }
    }
}

/// Appends the canonical encoding of a push of `data` to `out`.
pub fn put_push(out: &mut Vec<u8>, data: &[u8])
    requires
        data.len() <= MAX_ENCODABLE_PUSH,
    ensures
        final(out)@ == old(out)@ + push_bytes(data@),
{
    let len = data.len();
    if len <= 0x4b {
        out.push(len as u8);
    } else if len <= 0xff {
        out.push(0x4c);
        put_le(out, len as u64, 1);
    } else if len <= 0xffff {
        out.push(0x4d);
        put_le(out, len as u64, 2);
    } else {
        out.push(0x4e);
        put_le(out, len as u64, 4);
    }
    put_bytes(out, data);
    assert(out@ =~= old(out)@ + push_bytes(data@));
}

/// Appends the canonical encoding of `op` to `out`.
pub fn put_op(out: &mut Vec<u8>, op: &ScriptOp)
    requires
        op_encodable(op@),
    ensures
        final(out)@ == old(out)@ + op_bytes(op@),
{
    match op {
        ScriptOp::PushBytes(data) => {
            put_push(out, data.as_slice());
        },
        ScriptOp::Opcode(code) => {
            out.push(code.to_byte());
            assert(out@ =~= old(out)@ + op_bytes(op@));
        },
        ScriptOp::Invalid => {
            out.push(INVALID_OP_BYTE);
            assert(out@ =~= old(out)@ + op_bytes(op@));
        },
    }
}

/// Decodes the op at the front of `bytes`, with the bytes it takes.
pub fn decode_op(bytes: &[u8]) -> (r: (ScriptOp, usize))
    requires
        bytes.len() > 0,
    ensures
        (r.0@, r.1 as nat) == parse_op(bytes@),
        1 <= r.1 <= bytes.len(),
        op_encodable(r.0@),
{
    proof {
        lemma_parse_op_bounds(bytes@);
    }
    let first = bytes[0];
    if first <= 0x4e {
        let width: usize = if first == 0x4c {
            1
        } else if first == 0x4d {
            2
        } else if first == 0x4e {
            4
        } else {
            0
        };
        if bytes.len() - 1 < width {
            return (ScriptOp::Invalid, bytes.len());
        }
        let len: u64 = if first <= 0x4b {
            first as u64
        } else {
            let digits = slice_subrange(bytes, 1, 1 + width);
            assert(digits@.subrange(0, width as int) =~= bytes@.subrange(1, 1 + width as int));
            get_le(digits, width)
        };
        let remaining: u64 = (bytes.len() - 1 - width) as u64;
        if remaining < len {
            return (ScriptOp::Invalid, bytes.len());
        }
        let len = len as usize;
        let data = copy_bytes(slice_subrange(bytes, 1 + width, 1 + width + len));
        (ScriptOp::PushBytes(data), 1 + width + len)
    } else {
        match Opcode::from_byte(first) {
            Some(code) => (ScriptOp::Opcode(code), 1),
            None => (ScriptOp::Invalid, 1),
        }
    }
}

impl Script {
    /// Whether the wire format can carry every op of the script.
    pub open spec fn wf(&self) -> bool {
        ops_encodable(self@)
    }

    /// Tests whether the wire format can carry every op of the script.
    pub fn is_wf(&self) -> (r: bool)
        ensures
            r == self.wf(),
    {
        let mut i: usize = 0;
        while i < self.ops.len()
            invariant
                i <= self.ops.len(),
                forall|j: int| 0 <= j < i ==> op_encodable(#[trigger] self@[j]),
            decreases self.ops.len() - i,
        {
            let fits = match &self.ops[i] {
                ScriptOp::PushBytes(data) => data.len() <= MAX_ENCODABLE_PUSH,
                _ => true,
            };
            if !fits {
                assert(!op_encodable(self@[i as int]));
                return false;
            }
            i += 1;
        }
        true
    }

    /// The script without ops.
    pub fn new() -> (script: Script)
        ensures
            script@ == Seq::<ScriptOpView>::empty(),
            script.wf(),
    {
        let script = Script { ops: Vec::new() };
        assert(script@ =~= Seq::<ScriptOpView>::empty());
        script
    }

    /// The number of ops.
    pub fn len(&self) -> (n: usize)
        ensures
            n == self@.len(),
    {
        self.ops.len()
    }

    /// Appends `op`.
    pub fn push(&mut self, op: ScriptOp)
        ensures
            final(self)@ == old(self)@.push(op@),
            old(self).wf() && op_encodable(op@) ==> final(self).wf(),
    {
        self.ops.push(op);
        assert(self@ =~= old(self)@.push(op@));
    }

    /// Appends the encoding of the script to `out`.
    pub fn put(&self, out: &mut Vec<u8>)
        requires
            self.wf(),
        ensures
            final(out)@ == old(out)@ + script_bytes(self@),
    {
        let mut i: usize = 0;
        assert(self@.take(0) =~= Seq::<ScriptOpView>::empty());
        assert(out@ =~= old(out)@ + script_bytes(self@.take(0)));
        while i < self.ops.len()
            invariant
                i <= self.ops.len(),
                self.wf(),
                out@ == old(out)@ + script_bytes(self@.take(i as int)),
            decreases self.ops.len() - i,
        {
            let ghost before = out@;
            assert(op_encodable(self@[i as int]));
            put_op(out, &self.ops[i]);
            proof {
                let next = self@.take(i + 1);
                assert(next.drop_last() =~= self@.take(i as int));
                assert(next.last() == self@[i as int]);
                assert(out@ =~= old(out)@ + script_bytes(next));
            }
            i += 1;
        }
        assert(self@.take(self.ops.len() as int) =~= self@);
    }

    /// The wire encoding of the script. Decoding it gives the script back.
    pub fn to_bytes(&self) -> (bytes: Vec<u8>)
        requires
            self.wf(),
        ensures
            bytes@ == script_bytes(self@),
            parse_script(bytes@) == self@,
    {
        proof {
            lemma_script_roundtrip(self@);
        }
        let mut out: Vec<u8> = Vec::new();
        self.put(&mut out);
        assert(Seq::<u8>::empty() + script_bytes(self@) =~= script_bytes(self@));
        out
    }

    /// Decodes a script. Never fails: what cannot be decoded becomes an
    /// `Invalid` op.
    pub fn from_bytes(bytes: &[u8]) -> (script: Script)
        ensures
            script@ == parse_script(bytes@),
            script.wf(),
    {
        let mut ops: Vec<ScriptOp> = Vec::new();
        let mut pos: usize = 0;
        assert(bytes@.skip(0) =~= bytes@);
        assert(ops_view(ops@) + parse_script(bytes@.skip(0)) =~= parse_script(bytes@));
        while pos < bytes.len()
            invariant
                pos <= bytes.len(),
                ops_view(ops@) + parse_script(bytes@.skip(pos as int)) == parse_script(bytes@),
                ops_encodable(ops_view(ops@)),
            decreases bytes.len() - pos,
        {
            let rest = slice_subrange(bytes, pos, bytes.len());
            assert(rest@ =~= bytes@.skip(pos as int));
            let ghost before = ops_view(ops@);
            let (op, n) = decode_op(rest);
            ops.push(op);
            proof {
                assert(ops_view(ops@) =~= before.push(op@));
                assert(rest@.skip(n as int) =~= bytes@.skip(pos + n));
                assert(before + (seq![op@] + parse_script(rest@.skip(n as int))) =~= before.push(
                    op@,
                ) + parse_script(rest@.skip(n as int)));
            }
            pos += n;
        }
        assert(ops_view(ops@) + parse_script(bytes@.skip(pos as int)) =~= ops_view(ops@));
        Script { ops }
    }
}

/// The ops of the pay-to-key-hash lock for a key fingerprint: duplicate the
/// key, fingerprint it, compare with `hash`, then check the signature.
pub open spec fn pay_to_key_hash_lock_ops(hash: Seq<u8>) -> Seq<ScriptOpView> {
    seq![
        ScriptOpView::Opcode(Opcode::OpDup),
        ScriptOpView::Opcode(Opcode::OpHash160),
        ScriptOpView::PushBytes(hash),
        ScriptOpView::Opcode(Opcode::OpEqualVerify),
        ScriptOpView::Opcode(Opcode::OpCheckSig),
    ]
}

/// The ops of the pay-to-key-hash unlock: the signature, then the key.
pub open spec fn pay_to_key_hash_unlock_ops(signature: Seq<u8>, pubkey: Seq<u8>) -> Seq<
    ScriptOpView,
> {
    seq![ScriptOpView::PushBytes(signature), ScriptOpView::PushBytes(pubkey)]
}

/// The ops of a data carrier: the unspendable marker, then the payload.
pub open spec fn return_data_ops(data: Seq<u8>) -> Seq<ScriptOpView> {
    seq![ScriptOpView::Opcode(Opcode::OpReturn), ScriptOpView::PushBytes(data)]
}

/// One push per key, in order.
pub open spec fn key_pushes(pubkeys: Seq<Seq<u8>>) -> Seq<ScriptOpView> {
    Seq::new(pubkeys.len(), |i: int| ScriptOpView::PushBytes(pubkeys[i]))
}

/// Whether a multi-signature lock can ask for `required` of `total` keys.
pub open spec fn multisig_counts_valid(required: int, total: int) -> bool {
    1 <= required <= total <= 16
}

/// The ops of the multi-signature lock: the required count, the keys, the
/// key count, then the check.
pub open spec fn multisig_lock_ops(required: int, pubkeys: Seq<Seq<u8>>) -> Seq<ScriptOpView> {
    seq![ScriptOpView::Opcode(small_number_opcode(required).unwrap())] + key_pushes(pubkeys)
        + seq![
        ScriptOpView::Opcode(small_number_opcode(pubkeys.len() as int).unwrap()),
        ScriptOpView::Opcode(Opcode::OpCheckMultiSig),
    ]
}

/// Whether the wire format can carry a push of each key.
pub open spec fn keys_encodable(pubkeys: Seq<Seq<u8>>) -> bool {
    forall|i: int| 0 <= i < pubkeys.len() ==> (#[trigger] pubkeys[i]).len() <= MAX_ENCODABLE_PUSH
}

/// The views of a list of byte strings.
pub open spec fn byte_strings_view(items: Seq<Vec<u8>>) -> Seq<Seq<u8>> {
    Seq::new(items.len(), |i: int| items[i]@)
}

/// The lock that pays to the holder of the key with fingerprint `hash`.
pub fn pay_to_key_hash_lock(hash: &[u8; 20]) -> (script: Script)
    ensures
        script@ == pay_to_key_hash_lock_ops(hash@),
        script.wf(),
{
    let mut ops: Vec<ScriptOp> = Vec::new();
    ops.push(ScriptOp::Opcode(Opcode::OpDup));
    ops.push(ScriptOp::Opcode(Opcode::OpHash160));
    ops.push(ScriptOp::PushBytes(copy_bytes(hash.as_slice())));
    ops.push(ScriptOp::Opcode(Opcode::OpEqualVerify));
    ops.push(ScriptOp::Opcode(Opcode::OpCheckSig));
    let script = Script { ops };
    assert(script@ =~= pay_to_key_hash_lock_ops(hash@));
    script
}

/// The unlock for a pay-to-key-hash output: the signature with its
/// sighash-type byte, then the public key.
pub fn pay_to_key_hash_unlock(signature: &[u8], pubkey: &[u8]) -> (script: Script)
    ensures
        script@ == pay_to_key_hash_unlock_ops(signature@, pubkey@),
        signature.len() <= MAX_ENCODABLE_PUSH && pubkey.len() <= MAX_ENCODABLE_PUSH
            ==> script.wf(),
{
    let mut ops: Vec<ScriptOp> = Vec::new();
    ops.push(ScriptOp::PushBytes(copy_bytes(signature)));
    ops.push(ScriptOp::PushBytes(copy_bytes(pubkey)));
    let script = Script { ops };
    assert(script@ =~= pay_to_key_hash_unlock_ops(signature@, pubkey@));
    script
}

/// A script that can never be spent and carries `data`.
pub fn return_data(data: &[u8]) -> (script: Script)
    ensures
        script@ == return_data_ops(data@),
        data.len() <= MAX_ENCODABLE_PUSH ==> script.wf(),
{
    let mut ops: Vec<ScriptOp> = Vec::new();
    ops.push(ScriptOp::Opcode(Opcode::OpReturn));
    ops.push(ScriptOp::PushBytes(copy_bytes(data)));
    let script = Script { ops };
    assert(script@ =~= return_data_ops(data@));
    script
}

/// The lock that `required` signatures out of the given keys open. Fails
/// with `MalformedScript` exactly when the counts are not
/// 1 <= required <= keys <= 16.
pub fn multisig_lock(required: u8, pubkeys: &Vec<Vec<u8>>) -> (r: Result<Script, Error>)
    ensures
        match r {
            Ok(script) => multisig_counts_valid(required as int, pubkeys.len() as int)
                && script@ == multisig_lock_ops(required as int, byte_strings_view(pubkeys@))
                && (keys_encodable(byte_strings_view(pubkeys@)) ==> script.wf()),
            Err(e) => e == Error::MalformedScript && !multisig_counts_valid(
                required as int,
                pubkeys.len() as int,
            ),
        },
{
    if required < 1 || pubkeys.len() > 16 || required as usize > pubkeys.len() {
        return Err(Error::MalformedScript);
    }
    let total = pubkeys.len();
    let required_op = match opcode_for_small_number(required as i8) {
        Some(op) => op,
        None => return Err(Error::MalformedScript),
    };
    let total_op = match opcode_for_small_number(total as i8) {
        Some(op) => op,
        None => return Err(Error::MalformedScript),
    };
    let ghost keys = byte_strings_view(pubkeys@);
    let mut ops: Vec<ScriptOp> = Vec::new();
    ops.push(ScriptOp::Opcode(required_op));
    let mut i: usize = 0;
    while i < total
        invariant
            i <= total,
            total == pubkeys.len(),
            keys == byte_strings_view(pubkeys@),
            ops_view(ops@) == seq![ScriptOpView::Opcode(required_op)] + key_pushes(keys).take(
                i as int,
            ),
        decreases total - i,
    {
        let ghost before = ops_view(ops@);
        ops.push(ScriptOp::PushBytes(copy_bytes(pubkeys[i].as_slice())));
        assert(ops_view(ops@) =~= before.push(ScriptOpView::PushBytes(keys[i as int])));
        i += 1;
        assert(ops_view(ops@) =~= seq![ScriptOpView::Opcode(required_op)] + key_pushes(keys).take(
            i as int,
        ));
    }
    let ghost before = ops_view(ops@);
    ops.push(ScriptOp::Opcode(total_op));
    ops.push(ScriptOp::Opcode(Opcode::OpCheckMultiSig));
    let script = Script { ops };
    proof {
        assert(key_pushes(keys).take(total as int) =~= key_pushes(keys));
        assert(script@ =~= before + seq![
            ScriptOpView::Opcode(total_op),
            ScriptOpView::Opcode(Opcode::OpCheckMultiSig),
        ]);
        if keys_encodable(keys) {
            assert forall|i: int| 0 <= i < script@.len() implies op_encodable(
                #[trigger] script@[i],
            ) by {
                if 1 <= i <= total {
                    assert(script@[i] == ScriptOpView::PushBytes(keys[i - 1]));
                    assert(keys[i - 1].len() <= MAX_ENCODABLE_PUSH);
                }
            }
        }
    }
    Ok(script)
}

/// Copies twenty bytes into an array.
pub fn to_array_20(bytes: &[u8]) -> (out: [u8; 20])
    requires
        bytes.len() == 20,
    ensures
        out@ == bytes@,
{
    let mut out = [0u8; 20];
    let mut i: usize = 0;
    while i < 20
        invariant
            i <= 20,
            bytes.len() == 20,
            forall|j: int| 0 <= j < i ==> out@[j] == bytes@[j],
        decreases 20 - i,
    {
        out[i] = bytes[i];
        i += 1;
    }
    assert(out@ =~= bytes@);
    out
}

impl Script {
    /// The key fingerprint that the script pays to, if it is a
    /// pay-to-key-hash lock for a 20-byte fingerprint.
    pub fn as_pay_to_key_hash(&self) -> (hash: Option<[u8; 20]>)
        ensures
            match hash {
                Some(h) => self@ == pay_to_key_hash_lock_ops(h@),
                None => forall|h: Seq<u8>|
                    h.len() == 20 ==> self@ != #[trigger] pay_to_key_hash_lock_ops(h),
            },
    {
        if self.ops.len() != 5 {
            return None;
        }
        assert(forall|i: int| 0 <= i < 5 ==> self@[i] == self.ops@[i]@);
        let shape = match (&self.ops[0], &self.ops[1], &self.ops[3], &self.ops[4]) {
            (
                ScriptOp::Opcode(Opcode::OpDup),
                ScriptOp::Opcode(Opcode::OpHash160),
                ScriptOp::Opcode(Opcode::OpEqualVerify),
                ScriptOp::Opcode(Opcode::OpCheckSig),
            ) => true,
            _ => false,
        };
        if !shape {
            return None;
        }
        match &self.ops[2] {
            ScriptOp::PushBytes(data) => {
                if data.len() != 20 {
                    return None;
                }
                let h = to_array_20(data.as_slice());
                assert(self@ =~= pay_to_key_hash_lock_ops(h@));
                Some(h)
            },
            _ => None,
        }
    }
}

} // verus!
