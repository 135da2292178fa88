//! Transactions: inputs referring to prior outputs, outputs carrying value
//! to an address, and the coinbase form whose single input holds the
//! 32-byte zero sentinel in place of a real reference.

use vstd::prelude::*;
use crate::encode::{
    u32_le, u64_le, encode_u32_le, encode_u64_le, clone_bytes, zero_hash, make_zero_hash,
    is_zero_hash,
};

verus! {

pub struct TxInput {
    /// Transaction id of the output being spent; all zero for a coinbase.
    pub prev_txid: Vec<u8>,
    /// Index of the output being spent within that transaction.
    pub vout: u32,
    /// DER signature over the transaction's signing hash.
    pub signature: Vec<u8>,
    /// Serialized public key claiming the spent output.
    pub pubkey: Vec<u8>,
}

pub struct TxOutput {
    pub value: u64,
    pub to_address: Vec<u8>,
}

pub struct Transaction {
    pub inputs: Vec<TxInput>,
    pub outputs: Vec<TxOutput>,
    pub data: Vec<u8>,
}

#[verifier::ext_equal]
pub struct TxInputView {
    pub prev_txid: Seq<u8>,
    pub vout: u32,
    pub signature: Seq<u8>,
    pub pubkey: Seq<u8>,
}

#[verifier::ext_equal]
pub struct TxOutputView {
    pub value: u64,
    pub to_address: Seq<u8>,
}

#[verifier::ext_equal]
pub struct TxView {
    pub inputs: Seq<TxInputView>,
    pub outputs: Seq<TxOutputView>,
    pub data: Seq<u8>,
}

impl View for TxInput {
    type V = TxInputView;

    open spec fn view(&self) -> TxInputView {
        TxInputView {
            prev_txid: self.prev_txid@,
            vout: self.vout,
            signature: self.signature@,
            pubkey: self.pubkey@,
        }
    }
}

impl View for TxOutput {
    type V = TxOutputView;

    open spec fn view(&self) -> TxOutputView {
        TxOutputView { value: self.value, to_address: self.to_address@ }
    }
}

impl View for Transaction {
    type V = TxView;

    open spec fn view(&self) -> TxView {
        TxView {
            inputs: self.inputs@.map_values(|x: TxInput| x@),
            outputs: self.outputs@.map_values(|x: TxOutput| x@),
            data: self.data@,
        }
    }
}

impl Clone for TxInput {
    fn clone(&self) -> (r: Self)
        ensures
            r@ == self@,
    {
        TxInput {
            prev_txid: clone_bytes(&self.prev_txid),
            vout: self.vout,
            signature: clone_bytes(&self.signature),
            pubkey: clone_bytes(&self.pubkey),
        }
    }
}

impl Clone for TxOutput {
    fn clone(&self) -> (r: Self)
        ensures
            r@ == self@,
    {
        TxOutput { value: self.value, to_address: clone_bytes(&self.to_address) }
    }
}

impl Clone for Transaction {
    fn clone(&self) -> (r: Self)
        ensures
            r@ == self@,
    {
        let n_in = self.inputs.len();
        let mut inputs: Vec<TxInput> = Vec::new();
        let mut i: usize = 0;
        while i < n_in
            invariant
                0 <= i <= n_in,
                n_in == self.inputs@.len(),
                inputs@.len() == i,
                forall|j: int| 0 <= j < i ==> inputs@[j]@ == self.inputs@[j]@,
            decreases n_in - i,
        {
            inputs.push(self.inputs[i].clone());
            i = i + 1;
        }
        let n_out = self.outputs.len();
        let mut outputs: Vec<TxOutput> = Vec::new();
        let mut k: usize = 0;
        while k < n_out
            invariant
                0 <= k <= n_out,
                n_out == self.outputs@.len(),
                outputs@.len() == k,
                forall|j: int| 0 <= j < k ==> outputs@[j]@ == self.outputs@[j]@,
            decreases n_out - k,
        {
            outputs.push(self.outputs[k].clone());
            k = k + 1;
        }
        let r = Transaction { inputs, outputs, data: clone_bytes(&self.data) };
        proof {
            assert(r@.inputs =~= self@.inputs);
            assert(r@.outputs =~= self@.outputs);
        }
        r
    }
}

/// A coinbase is a transaction with exactly one input whose referenced
/// transaction id equals the zero sentinel.
pub open spec fn is_coinbase_tx(t: TxView) -> bool {
    t.inputs.len() == 1 && t.inputs[0].prev_txid == zero_hash()
}

impl Transaction {
    /// Builds the reward transaction of a block: one sentinel input and one
    /// output carrying `reward` to `to`; `data` is free-form auxiliary bytes.
    pub fn coinbase(to: Vec<u8>, reward: u64, data: Vec<u8>) -> (r: Transaction)
        ensures
            is_coinbase_tx(r@),
            r@.inputs.len() == 1,
            r@.inputs[0].prev_txid == zero_hash(),
            r@.inputs[0].vout == 0,
            r@.inputs[0].signature == Seq::<u8>::empty(),
            r@.inputs[0].pubkey == Seq::<u8>::empty(),
            r@.outputs.len() == 1,
            r@.outputs[0].value == reward,
            r@.outputs[0].to_address == to@,
            r@.data == data@,
    {
        let input = TxInput {
            prev_txid: make_zero_hash(),
            vout: 0,
            signature: Vec::new(),
            pubkey: Vec::new(),
        };
        let output = TxOutput { value: reward, to_address: to };
        let mut inputs: Vec<TxInput> = Vec::new();
        inputs.push(input);
        let mut outputs: Vec<TxOutput> = Vec::new();
        outputs.push(output);
        let r = Transaction { inputs, outputs, data };
        proof {
            assert(r@.inputs[0].prev_txid =~= zero_hash());
        }
        r
    }

    pub fn is_coinbase(&self) -> (r: bool)
        ensures
            r == is_coinbase_tx(self@),
    {
        self.inputs.len() == 1 && is_zero_hash(&self.inputs[0].prev_txid)
    }
}

/// Encoding of one input as it enters the transaction id: every field,
/// variable-length ones prefixed with their length.
pub open spec fn input_bytes(i: TxInputView) -> Seq<u8> {
    u64_le(i.prev_txid.len() as u64) + i.prev_txid + u32_le(i.vout) + u64_le(
        i.signature.len() as u64,
    ) + i.signature + u64_le(i.pubkey.len() as u64) + i.pubkey
}

/// Encoding of one input as it enters the signing hash: as `input_bytes`,
/// but with the signature left out, so that a signer can commit to it.
pub open spec fn input_core_bytes(i: TxInputView) -> Seq<u8> {
    u64_le(i.prev_txid.len() as u64) + i.prev_txid + u32_le(i.vout) + u64_le(
        i.pubkey.len() as u64,
    ) + i.pubkey
}

pub open spec fn output_bytes(o: TxOutputView) -> Seq<u8> {
    u64_le(o.value) + u64_le(o.to_address.len() as u64) + o.to_address
}

pub open spec fn inputs_bytes(s: Seq<TxInputView>) -> Seq<u8>
    decreases s.len(),
{
    if s.len() == 0 {
        Seq::empty()
    } else {
        inputs_bytes(s.drop_last()) + input_bytes(s.last())
    }
}

pub open spec fn inputs_core_bytes(s: Seq<TxInputView>) -> Seq<u8>
    decreases s.len(),
{
    if s.len() == 0 {
        Seq::empty()
    } else {
        inputs_core_bytes(s.drop_last()) + input_core_bytes(s.last())
    }
}

pub open spec fn outputs_bytes(s: Seq<TxOutputView>) -> Seq<u8>
    decreases s.len(),
{
    if s.len() == 0 {
        Seq::empty()
    } else {
        outputs_bytes(s.drop_last()) + output_bytes(s.last())
    }
}

/// The canonical encoding of a transaction: the byte string whose digest is
/// the transaction id.
pub open spec fn tx_bytes(t: TxView) -> Seq<u8> {
    u64_le(t.inputs.len() as u64) + inputs_bytes(t.inputs) + u64_le(t.outputs.len() as u64)
        + outputs_bytes(t.outputs) + u64_le(t.data.len() as u64) + t.data
}

/// The encoding a signature commits to: as `tx_bytes` with signatures blank.
pub open spec fn tx_sighash_bytes(t: TxView) -> Seq<u8> {
    u64_le(t.inputs.len() as u64) + inputs_core_bytes(t.inputs) + u64_le(t.outputs.len() as u64)
        + outputs_bytes(t.outputs) + u64_le(t.data.len() as u64) + t.data
}

fn encode_input(i: &TxInput) -> (r: Vec<u8>)
    ensures
        r@ == input_bytes(i@),
{
    let mut out = encode_u64_le(i.prev_txid.len() as u64);
    let mut part = clone_bytes(&i.prev_txid);
    out.append(&mut part);
    let mut part = encode_u32_le(i.vout);
    out.append(&mut part);
    let mut part = encode_u64_le(i.signature.len() as u64);
    out.append(&mut part);
    let mut part = clone_bytes(&i.signature);
    out.append(&mut part);
    let mut part = encode_u64_le(i.pubkey.len() as u64);
    out.append(&mut part);
    let mut part = clone_bytes(&i.pubkey);
    out.append(&mut part);
    proof {
        assert(out@ =~= input_bytes(i@));
    }
    out
}

fn encode_input_core(i: &TxInput) -> (r: Vec<u8>)
    ensures
        r@ == input_core_bytes(i@),
{
    let mut out = encode_u64_le(i.prev_txid.len() as u64);
    let mut part = clone_bytes(&i.prev_txid);
    out.append(&mut part);
    let mut part = encode_u32_le(i.vout);
    out.append(&mut part);
    let mut part = encode_u64_le(i.pubkey.len() as u64);
    out.append(&mut part);
    let mut part = clone_bytes(&i.pubkey);
    out.append(&mut part);
    proof {
        assert(out@ =~= input_core_bytes(i@));
    }
    out
}

fn encode_output(o: &TxOutput) -> (r: Vec<u8>)
    ensures
        r@ == output_bytes(o@),
{
    let mut out = encode_u64_le(o.value);
    let mut part = encode_u64_le(o.to_address.len() as u64);
    out.append(&mut part);
    let mut part = clone_bytes(&o.to_address);
    out.append(&mut part);
    proof {
        assert(out@ =~= output_bytes(o@));
    }
    out
}

fn encode_outputs(s: &Vec<TxOutput>) -> (r: Vec<u8>)
    ensures
        r@ == outputs_bytes(s@.map_values(|x: TxOutput| x@)),
{
    let ghost views = s@.map_values(|x: TxOutput| x@);
    let n = s.len();
    let mut out: Vec<u8> = Vec::new();
    let mut i: usize = 0;
    proof {
        assert(views.take(0) =~= Seq::<TxOutputView>::empty());
    }
    while i < n
        invariant
            0 <= i <= n,
            n == s@.len(),
            views == s@.map_values(|x: TxOutput| x@),
            out@ == outputs_bytes(views.take(i as int)),
        decreases n - i,
    {
        let mut part = encode_output(&s[i]);
        out.append(&mut part);
        proof {
            assert(views.take(i + 1).drop_last() =~= views.take(i as int));
            assert(views.take(i + 1).last() == views[i as int]);
        }
        i = i + 1;
    }
    proof {
        assert(views.take(n as int) =~= views);
    }
    out
}

/// The canonical encoding of a transaction.
pub fn encode_tx(t: &Transaction) -> (r: Vec<u8>)
    ensures
        r@ == tx_bytes(t@),
{
    let ghost views = t.inputs@.map_values(|x: TxInput| x@);
    let mut out = encode_u64_le(t.inputs.len() as u64);
    let n = t.inputs.len();
    let mut i: usize = 0;
    proof {
        assert(views.take(0) =~= Seq::<TxInputView>::empty());
        assert(out@ =~= u64_le(t.inputs.len() as u64) + inputs_bytes(views.take(0)));
    }
    while i < n
        invariant
            0 <= i <= n,
            n == t.inputs@.len(),
            views == t.inputs@.map_values(|x: TxInput| x@),
            out@ == u64_le(n as u64) + inputs_bytes(views.take(i as int)),
        decreases n - i,
    {
        let mut part = encode_input(&t.inputs[i]);
        out.append(&mut part);
        proof {
            assert(views.take(i + 1).drop_last() =~= views.take(i as int));
            assert(views.take(i + 1).last() == views[i as int]);
        }
        i = i + 1;
    }
    proof {
        assert(views.take(n as int) =~= views);
    }
    let mut part = encode_u64_le(t.outputs.len() as u64);
    out.append(&mut part);
    let mut part = encode_outputs(&t.outputs);
    out.append(&mut part);
    let mut part = encode_u64_le(t.data.len() as u64);
    out.append(&mut part);
    let mut part = clone_bytes(&t.data);
    out.append(&mut part);
    proof {
        assert(out@ =~= tx_bytes(t@));
    }
    out
}

/// The encoding a signature commits to.
pub fn encode_tx_sighash(t: &Transaction) -> (r: Vec<u8>)
    ensures
        r@ == tx_sighash_bytes(t@),
{
    let ghost views = t.inputs@.map_values(|x: TxInput| x@);
    let mut out = encode_u64_le(t.inputs.len() as u64);
    let n = t.inputs.len();
    let mut i: usize = 0;
    proof {
        assert(views.take(0) =~= Seq::<TxInputView>::empty());
        assert(out@ =~= u64_le(t.inputs.len() as u64) + inputs_core_bytes(views.take(0)));
    }
    while i < n
        invariant
            0 <= i <= n,
            n == t.inputs@.len(),
            views == t.inputs@.map_values(|x: TxInput| x@),
            out@ == u64_le(n as u64) + inputs_core_bytes(views.take(i as int)),
        decreases n - i,
    {
        let mut part = encode_input_core(&t.inputs[i]);
        out.append(&mut part);
        proof {
            assert(views.take(i + 1).drop_last() =~= views.take(i as int));
            assert(views.take(i + 1).last() == views[i as int]);
        }
        i = i + 1;
    }
    proof {
        assert(views.take(n as int) =~= views);
    }
    let mut part = encode_u64_le(t.outputs.len() as u64);
    out.append(&mut part);
    let mut part = encode_outputs(&t.outputs);
    out.append(&mut part);
    let mut part = encode_u64_le(t.data.len() as u64);
    out.append(&mut part);
    let mut part = clone_bytes(&t.data);
    out.append(&mut part);
    proof {
        assert(out@ =~= tx_sighash_bytes(t@));
    }
    out
}

} // verus!
