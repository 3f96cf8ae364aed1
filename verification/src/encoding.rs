//! The byte form of a transaction of the block-and-hash chain: what its hash
//! is taken over, and what the store keeps as its raw data.
//!
//! A kind is one byte; a byte string is its length and its bytes; a list is
//! its length and its items; a value that may be absent is a byte that says
//! so, followed by the value where there is one.

use vstd::prelude::*;
use crate::address::{Address, AddressType, AddressView};
use crate::codec::{enc_items, enc_vec};
use crate::transaction::{
    ShieldedNote, ShieldedNoteView, Transaction, TransactionType, TransactionView,
    TransparentInput, TransparentInputView, TransparentOutput, TransparentOutputView,
    byte_string_views, input_views, note_views, output_views,
};
use crate::database::optional_bytes;
use crate::wire::{enc_blob, enc_u64, put_blob, put_u64};

verus! {

/// The byte that stands for the type of an address.
pub open spec fn address_tag(t: AddressType) -> u8 {
    match t {
        AddressType::Transparent => 0,
        AddressType::Shielded => 1,
    }
}

pub open spec fn enc_address(a: AddressView) -> Seq<u8> {
    seq![address_tag(a.address_type)] + enc_blob(a.data)
}

pub open spec fn enc_input(i: TransparentInputView) -> Seq<u8> {
    enc_blob(i.output_id) + enc_address(i.address) + enc_u64(i.amount) + enc_blob(i.signature)
}

pub open spec fn enc_output(o: TransparentOutputView) -> Seq<u8> {
    enc_address(o.address) + enc_u64(o.amount)
}

pub open spec fn enc_optional(b: Option<Seq<u8>>) -> Seq<u8> {
    match b {
        Some(bytes) => seq![1u8] + enc_blob(bytes),
        None => seq![0u8],
    }
}

pub open spec fn enc_note(n: ShieldedNoteView) -> Seq<u8> {
    enc_blob(n.commitment) + enc_blob(n.ephemeral_key) + enc_blob(n.amount) + enc_optional(n.memo)
}

pub open spec fn input_enc() -> spec_fn(TransparentInputView) -> Seq<u8> {
    |i: TransparentInputView| enc_input(i)
}

pub open spec fn output_enc() -> spec_fn(TransparentOutputView) -> Seq<u8> {
    |o: TransparentOutputView| enc_output(o)
}

pub open spec fn note_enc() -> spec_fn(ShieldedNoteView) -> Seq<u8> {
    |n: ShieldedNoteView| enc_note(n)
}

pub open spec fn blob_enc() -> spec_fn(Seq<u8>) -> Seq<u8> {
    |b: Seq<u8>| enc_blob(b)
}

/// The byte form of a transaction.
pub open spec fn encoding(tx: TransactionView) -> Seq<u8> {
    seq![tx.tx_type.tag()] + enc_vec(tx.transparent_inputs, input_enc()) + enc_vec(
        tx.transparent_outputs,
        output_enc(),
    ) + enc_vec(tx.shielded_inputs, note_enc()) + enc_vec(tx.shielded_outputs, note_enc())
        + enc_vec(tx.nullifiers, blob_enc()) + enc_optional(tx.proof)
}

fn put_address(out: &mut Vec<u8>, a: &Address)
    ensures
        final(out)@ == old(out)@ + enc_address(a@),
{
    match a.address_type {
        AddressType::Transparent => out.push(0u8),
        AddressType::Shielded => out.push(1u8),
    }
    put_blob(out, a.data.as_slice());
    assert(out@ =~= old(out)@ + enc_address(a@));
}

fn put_optional(out: &mut Vec<u8>, b: &Option<Vec<u8>>)
    ensures
        final(out)@ == old(out)@ + enc_optional(optional_bytes(*b)),
{
    match b {
        Some(bytes) => {
            out.push(1u8);
            put_blob(out, bytes.as_slice());
        },
        None => {
            out.push(0u8);
        },
    }
    assert(out@ =~= old(out)@ + enc_optional(optional_bytes(*b)));
}

fn put_input(out: &mut Vec<u8>, i: &TransparentInput)
    ensures
        final(out)@ == old(out)@ + enc_input(i@),
{
    put_blob(out, i.output_id.as_slice());
    put_address(out, &i.address);
    put_u64(out, i.amount);
    put_blob(out, i.signature.as_slice());
    assert(out@ =~= old(out)@ + enc_input(i@));
}

fn put_output(out: &mut Vec<u8>, o: &TransparentOutput)
    ensures
        final(out)@ == old(out)@ + enc_output(o@),
{
    put_address(out, &o.address);
    put_u64(out, o.amount);
    assert(out@ =~= old(out)@ + enc_output(o@));
}

fn put_note(out: &mut Vec<u8>, n: &ShieldedNote)
    ensures
        final(out)@ == old(out)@ + enc_note(n@),
{
    put_blob(out, n.commitment.as_slice());
    put_blob(out, n.ephemeral_key.as_slice());
    put_blob(out, n.amount.as_slice());
    put_optional(out, &n.memo);
    assert(out@ =~= old(out)@ + enc_note(n@));
}

fn put_inputs(out: &mut Vec<u8>, v: &Vec<TransparentInput>)
    ensures
        final(out)@ == old(out)@ + enc_vec(input_views(v@), input_enc()),
{
    let ghost s = input_views(v@);
    put_u64(out, v.len() as u64);
    let mut i: usize = 0;
    assert(s.take(0) =~= Seq::<TransparentInputView>::empty());
    assert(out@ =~= old(out)@ + enc_u64(s.len() as u64) + enc_items(s.take(0), input_enc()));
    while i < v.len()
        invariant
            0 <= i <= v@.len(),
            s == input_views(v@),
            out@ == old(out)@ + enc_u64(s.len() as u64) + enc_items(s.take(i as int), input_enc()),
        decreases v@.len() - i,
    {
        put_input(out, &v[i]);
        i += 1;
        proof {
            assert(s.take(i as int).drop_last() =~= s.take(i - 1));
            assert(s.take(i as int).last() == v@[i - 1]@);
            assert(out@ =~= old(out)@ + enc_u64(s.len() as u64) + enc_items(
                s.take(i as int),
                input_enc(),
            ));
        }
    }
    assert(s.take(i as int) =~= s);
    assert(out@ =~= old(out)@ + enc_vec(s, input_enc()));
}

fn put_outputs(out: &mut Vec<u8>, v: &Vec<TransparentOutput>)
    ensures
        final(out)@ == old(out)@ + enc_vec(output_views(v@), output_enc()),
{
    let ghost s = output_views(v@);
    put_u64(out, v.len() as u64);
    let mut i: usize = 0;
    assert(s.take(0) =~= Seq::<TransparentOutputView>::empty());
    assert(out@ =~= old(out)@ + enc_u64(s.len() as u64) + enc_items(s.take(0), output_enc()));
    while i < v.len()
        invariant
            0 <= i <= v@.len(),
            s == output_views(v@),
            out@ == old(out)@ + enc_u64(s.len() as u64) + enc_items(
                s.take(i as int),
                output_enc(),
            ),
        decreases v@.len() - i,
    {
        put_output(out, &v[i]);
        i += 1;
        proof {
            assert(s.take(i as int).drop_last() =~= s.take(i - 1));
            assert(s.take(i as int).last() == v@[i - 1]@);
            assert(out@ =~= old(out)@ + enc_u64(s.len() as u64) + enc_items(
                s.take(i as int),
                output_enc(),
            ));
        }
    }
    assert(s.take(i as int) =~= s);
    assert(out@ =~= old(out)@ + enc_vec(s, output_enc()));
}

fn put_notes(out: &mut Vec<u8>, v: &Vec<ShieldedNote>)
    ensures
        final(out)@ == old(out)@ + enc_vec(note_views(v@), note_enc()),
{
    let ghost s = note_views(v@);
    put_u64(out, v.len() as u64);
    let mut i: usize = 0;
    assert(s.take(0) =~= Seq::<ShieldedNoteView>::empty());
    assert(out@ =~= old(out)@ + enc_u64(s.len() as u64) + enc_items(s.take(0), note_enc()));
    while i < v.len()
        invariant
            0 <= i <= v@.len(),
            s == note_views(v@),
            out@ == old(out)@ + enc_u64(s.len() as u64) + enc_items(s.take(i as int), note_enc()),
        decreases v@.len() - i,
    {
        put_note(out, &v[i]);
        i += 1;
        proof {
            assert(s.take(i as int).drop_last() =~= s.take(i - 1));
            assert(s.take(i as int).last() == v@[i - 1]@);
            assert(out@ =~= old(out)@ + enc_u64(s.len() as u64) + enc_items(
                s.take(i as int),
                note_enc(),
            ));
        }
    }
    assert(s.take(i as int) =~= s);
    assert(out@ =~= old(out)@ + enc_vec(s, note_enc()));
}

fn put_byte_strings(out: &mut Vec<u8>, v: &Vec<Vec<u8>>)
    ensures
        final(out)@ == old(out)@ + enc_vec(byte_string_views(v@), blob_enc()),
{
    let ghost s = byte_string_views(v@);
    put_u64(out, v.len() as u64);
    let mut i: usize = 0;
    assert(s.take(0) =~= Seq::<Seq<u8>>::empty());
    assert(out@ =~= old(out)@ + enc_u64(s.len() as u64) + enc_items(s.take(0), blob_enc()));
    while i < v.len()
        invariant
            0 <= i <= v@.len(),
            s == byte_string_views(v@),
            out@ == old(out)@ + enc_u64(s.len() as u64) + enc_items(s.take(i as int), blob_enc()),
        decreases v@.len() - i,
    {
        put_blob(out, v[i].as_slice());
        i += 1;
        proof {
            assert(s.take(i as int).drop_last() =~= s.take(i - 1));
            assert(s.take(i as int).last() == v@[i - 1]@);
            assert(out@ =~= old(out)@ + enc_u64(s.len() as u64) + enc_items(
                s.take(i as int),
                blob_enc(),
            ));
        }
    }
    assert(s.take(i as int) =~= s);
    assert(out@ =~= old(out)@ + enc_vec(s, blob_enc()));
}

impl Transaction {
    /// The byte form of the transaction.
    pub fn raw_data(&self) -> (bytes: Vec<u8>)
        ensures
            bytes@ == encoding(self@),
    {
        let mut out: Vec<u8> = Vec::new();
        match self.tx_type {
            TransactionType::Deposit => out.push(0u8),
            TransactionType::Transparent => out.push(1u8),
            TransactionType::Shield => out.push(2u8),
            TransactionType::ShieldToShield => out.push(3u8),
            TransactionType::Deshield => out.push(4u8),
        }
        put_inputs(&mut out, &self.transparent_inputs);
        put_outputs(&mut out, &self.transparent_outputs);
        put_notes(&mut out, &self.shielded_inputs);
        put_notes(&mut out, &self.shielded_outputs);
        put_byte_strings(&mut out, &self.nullifiers);
        put_optional(&mut out, &self.proof);
        assert(out@ =~= encoding(self@));
        out
    }
}

} // verus!
