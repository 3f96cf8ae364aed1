//! The stored byte layout of transactions and blocks.
//!
//! A list is its length as a 64-bit little-endian word followed by its items;
//! a transaction is its inputs, its outputs, its actions and its value
//! balance, in that order; a block is its list of transactions. Decoding reads
//! a value from the front of a buffer and ignores what follows it.

use vstd::prelude::*;
use crate::types::{
    Action, ActionView, Block, BlockView, Output, Transaction, TransactionView, action_views,
    output_values, transaction_views,
};
use crate::wire::{
    enc_blob, enc_i64, enc_u32, enc_u64, holds_at, lemma_parse_blob, lemma_parse_hash,
    lemma_parse_i64, lemma_parse_u32, lemma_parse_u64, parse_blob, parse_hash, parse_i64,
    parse_u32, parse_u64, put_blob, put_i64, put_raw, put_u32, put_u64, take_blob, take_hash,
    take_i64, take_u32, take_u64,
};

verus! {

/// The items of a list, one after the other.
pub open spec fn enc_items<T>(s: Seq<T>, enc: spec_fn(T) -> Seq<u8>) -> Seq<u8>
    decreases s.len(),
{
    if s.len() == 0 {
        Seq::empty()
    } else {
        enc_items(s.drop_last(), enc) + enc(s.last())
    }
}

/// A list on the wire: its length, then its items.
pub open spec fn enc_vec<T>(s: Seq<T>, enc: spec_fn(T) -> Seq<u8>) -> Seq<u8> {
    enc_u64(s.len() as u64) + enc_items(s, enc)
}

/// Reads `n` items starting at `pos` and appends them to `acc`.
pub open spec fn parse_items<T>(
    bytes: Seq<u8>,
    pos: int,
    n: nat,
    acc: Seq<T>,
    parse: spec_fn(Seq<u8>, int) -> Option<(T, int)>,
) -> Option<(Seq<T>, int)>
    decreases n,
{
    if n == 0 {
        Some((acc, pos))
    } else {
        match parse(bytes, pos) {
            Some((x, next)) => parse_items(bytes, next, (n - 1) as nat, acc.push(x), parse),
            None => None,
        }
    }
}

/// Reads a length and then that many items.
pub open spec fn parse_vec<T>(
    bytes: Seq<u8>,
    pos: int,
    parse: spec_fn(Seq<u8>, int) -> Option<(T, int)>,
) -> Option<(Seq<T>, int)> {
    match parse_u64(bytes, pos) {
        Some((n, start)) => parse_items(bytes, start, n as nat, Seq::empty(), parse),
        None => None,
    }
}

/// Wherever a buffer holds the encoding of an item of `s`, the parser reads
/// that item back and stops right behind it.
pub open spec fn reads_back<T>(
    s: Seq<T>,
    enc: spec_fn(T) -> Seq<u8>,
    parse: spec_fn(Seq<u8>, int) -> Option<(T, int)>,
) -> bool {
    forall|i: int, bytes: Seq<u8>, pos: int|
        0 <= i < s.len() && #[trigger] holds_at(bytes, pos, enc(s[i])) ==> parse(bytes, pos)
            == Some((s[i], pos + enc(s[i]).len()))
}

/// A buffer that holds `a + b` holds `a`, and `b` right behind it.
pub proof fn lemma_holds_concat(bytes: Seq<u8>, pos: int, a: Seq<u8>, b: Seq<u8>)
    requires
        holds_at(bytes, pos, a + b),
    ensures
        holds_at(bytes, pos, a),
        holds_at(bytes, pos + a.len(), b),
{
    let whole = a + b;
    assert(bytes.subrange(pos, pos + a.len()) =~= whole.subrange(0, a.len() as int));
    assert(whole.subrange(0, a.len() as int) =~= a);
    assert(bytes.subrange(pos + a.len(), pos + a.len() + b.len()) =~= whole.subrange(
        a.len() as int,
        whole.len() as int,
    ));
    assert(whole.subrange(a.len() as int, whole.len() as int) =~= b);
}

/// The items of a list are those of its first item followed by those of the
/// rest.
pub proof fn lemma_enc_items_front<T>(s: Seq<T>, enc: spec_fn(T) -> Seq<u8>)
    requires
        s.len() > 0,
    ensures
        enc_items(s, enc) == enc(s[0]) + enc_items(s.drop_first(), enc),
    decreases s.len(),
{
    if s.len() == 1 {
        assert(s.drop_last() =~= Seq::<T>::empty());
        assert(s.drop_first() =~= Seq::<T>::empty());
        assert(enc_items(s, enc) =~= enc(s[0]) + enc_items(s.drop_first(), enc));
    } else {
        lemma_enc_items_front(s.drop_last(), enc);
        assert(s.drop_last().drop_first() =~= s.drop_first().drop_last());
        assert(s.drop_first().last() == s.last());
        assert(enc_items(s, enc) =~= enc(s[0]) + enc_items(s.drop_first(), enc));
    }
}

pub proof fn lemma_parse_items<T>(
    bytes: Seq<u8>,
    pos: int,
    s: Seq<T>,
    acc: Seq<T>,
    enc: spec_fn(T) -> Seq<u8>,
    parse: spec_fn(Seq<u8>, int) -> Option<(T, int)>,
)
    requires
        holds_at(bytes, pos, enc_items(s, enc)),
        reads_back(s, enc, parse),
    ensures
        parse_items(bytes, pos, s.len(), acc, parse) == Some(
            (acc + s, pos + enc_items(s, enc).len()),
        ),
    decreases s.len(),
{
    if s.len() == 0 {
        assert(acc + s =~= acc);
    } else {
        let rest = s.drop_first();
        lemma_enc_items_front(s, enc);
        lemma_holds_concat(bytes, pos, enc(s[0]), enc_items(rest, enc));
        assert(parse(bytes, pos) == Some((s[0], pos + enc(s[0]).len())));
        assert forall|i: int, b: Seq<u8>, p: int|
            0 <= i < rest.len() && #[trigger] holds_at(b, p, enc(rest[i])) implies parse(b, p)
            == Some((rest[i], p + enc(rest[i]).len())) by {
            assert(rest[i] == s[i + 1]);
        }
        lemma_parse_items(bytes, pos + enc(s[0]).len(), rest, acc.push(s[0]), enc, parse);
        assert(acc.push(s[0]) + rest =~= acc + s);
    }
}

pub proof fn lemma_parse_vec<T>(
    bytes: Seq<u8>,
    pos: int,
    s: Seq<T>,
    enc: spec_fn(T) -> Seq<u8>,
    parse: spec_fn(Seq<u8>, int) -> Option<(T, int)>,
)
    requires
        s.len() <= u64::MAX,
        holds_at(bytes, pos, enc_vec(s, enc)),
        reads_back(s, enc, parse),
    ensures
        parse_vec(bytes, pos, parse) == Some((s, pos + enc_vec(s, enc).len())),
{
    lemma_holds_concat(bytes, pos, enc_u64(s.len() as u64), enc_items(s, enc));
    lemma_parse_u64(bytes, pos, s.len() as u64);
    lemma_parse_items(bytes, pos + 8, s, Seq::empty(), enc, parse);
    assert(Seq::<T>::empty() + s =~= s);
}

pub open spec fn u32_enc() -> spec_fn(u32) -> Seq<u8> {
    |x: u32| enc_u32(x)
}

pub open spec fn u32_parse() -> spec_fn(Seq<u8>, int) -> Option<(u32, int)> {
    |bytes: Seq<u8>, pos: int| parse_u32(bytes, pos)
}

pub open spec fn u64_enc() -> spec_fn(u64) -> Seq<u8> {
    |x: u64| enc_u64(x)
}

pub open spec fn u64_parse() -> spec_fn(Seq<u8>, int) -> Option<(u64, int)> {
    |bytes: Seq<u8>, pos: int| parse_u64(bytes, pos)
}

/// An action on the wire: its four leading digests, the two ciphertexts as
/// byte strings, and the value commitment.
pub open spec fn enc_action(a: ActionView) -> Seq<u8> {
    a.nf + a.rk + a.cmx + a.epk_bytes + enc_blob(a.enc_ciphertext) + enc_blob(a.out_ciphertext)
        + a.cv_net
}

pub open spec fn parse_action(bytes: Seq<u8>, pos: int) -> Option<(ActionView, int)> {
    match parse_hash(bytes, pos) {
        Some((nf, p1)) => match parse_hash(bytes, p1) {
            Some((rk, p2)) => match parse_hash(bytes, p2) {
                Some((cmx, p3)) => match parse_hash(bytes, p3) {
                    Some((epk_bytes, p4)) => match parse_blob(bytes, p4) {
                        Some((enc_ciphertext, p5)) => match parse_blob(bytes, p5) {
                            Some((out_ciphertext, p6)) => match parse_hash(bytes, p6) {
                                Some((cv_net, p7)) => Some(
                                    (
                                        ActionView {
                                            nf,
                                            rk,
                                            cmx,
                                            epk_bytes,
                                            enc_ciphertext,
                                            out_ciphertext,
                                            cv_net,
                                        },
                                        p7,
                                    ),
                                ),
                                None => None,
                            },
                            None => None,
                        },
                        None => None,
                    },
                    None => None,
                },
                None => None,
            },
            None => None,
        },
        None => None,
    }
}

pub open spec fn action_enc() -> spec_fn(ActionView) -> Seq<u8> {
    |a: ActionView| enc_action(a)
}

pub open spec fn action_parse() -> spec_fn(Seq<u8>, int) -> Option<(ActionView, int)> {
    |bytes: Seq<u8>, pos: int| parse_action(bytes, pos)
}

pub open spec fn enc_transaction(t: TransactionView) -> Seq<u8> {
    enc_vec(t.inputs, u32_enc()) + enc_vec(t.outputs, u64_enc()) + enc_vec(
        t.actions,
        action_enc(),
    ) + enc_i64(t.value_balance_orchard)
}

pub open spec fn parse_transaction(bytes: Seq<u8>, pos: int) -> Option<(TransactionView, int)> {
    match parse_vec(bytes, pos, u32_parse()) {
        Some((inputs, p1)) => match parse_vec(bytes, p1, u64_parse()) {
            Some((outputs, p2)) => match parse_vec(bytes, p2, action_parse()) {
                Some((actions, p3)) => match parse_i64(bytes, p3) {
                    Some((value_balance_orchard, p4)) => Some(
                        (TransactionView { inputs, outputs, actions, value_balance_orchard }, p4),
                    ),
                    None => None,
                },
                None => None,
            },
            None => None,
        },
        None => None,
    }
}

pub open spec fn transaction_enc() -> spec_fn(TransactionView) -> Seq<u8> {
    |t: TransactionView| enc_transaction(t)
}

pub open spec fn transaction_parse() -> spec_fn(Seq<u8>, int) -> Option<(TransactionView, int)> {
    |bytes: Seq<u8>, pos: int| parse_transaction(bytes, pos)
}

pub open spec fn enc_block(b: BlockView) -> Seq<u8> {
    enc_vec(b.transactions, transaction_enc())
}

pub open spec fn parse_block(bytes: Seq<u8>, pos: int) -> Option<(BlockView, int)> {
    match parse_vec(bytes, pos, transaction_parse()) {
        Some((transactions, end)) => Some((BlockView { transactions }, end)),
        None => None,
    }
}

pub proof fn lemma_parse_action(bytes: Seq<u8>, pos: int, a: ActionView)
    requires
        a.encodable(),
        holds_at(bytes, pos, enc_action(a)),
    ensures
        parse_action(bytes, pos) == Some((a, pos + enc_action(a).len())),
{
    let e1 = a.nf;
    let e2 = e1 + a.rk;
    let e3 = e2 + a.cmx;
    let e4 = e3 + a.epk_bytes;
    let e5 = e4 + enc_blob(a.enc_ciphertext);
    let e6 = e5 + enc_blob(a.out_ciphertext);
    lemma_holds_concat(bytes, pos, e6, a.cv_net);
    lemma_holds_concat(bytes, pos, e5, enc_blob(a.out_ciphertext));
    lemma_holds_concat(bytes, pos, e4, enc_blob(a.enc_ciphertext));
    lemma_holds_concat(bytes, pos, e3, a.epk_bytes);
    lemma_holds_concat(bytes, pos, e2, a.cmx);
    lemma_holds_concat(bytes, pos, e1, a.rk);
    lemma_parse_hash(bytes, pos, a.nf);
    lemma_parse_hash(bytes, pos + 32, a.rk);
    lemma_parse_hash(bytes, pos + 64, a.cmx);
    lemma_parse_hash(bytes, pos + 96, a.epk_bytes);
    lemma_parse_blob(bytes, pos + 128, a.enc_ciphertext);
    lemma_parse_blob(bytes, pos + e5.len(), a.out_ciphertext);
    lemma_parse_hash(bytes, pos + e6.len(), a.cv_net);
}

pub proof fn lemma_u32s_read_back(s: Seq<u32>)
    ensures
        reads_back(s, u32_enc(), u32_parse()),
{
    assert forall|i: int, bytes: Seq<u8>, pos: int|
        0 <= i < s.len() && #[trigger] holds_at(bytes, pos, u32_enc()(s[i])) implies u32_parse()(
        bytes,
        pos,
    ) == Some((s[i], pos + u32_enc()(s[i]).len())) by {
        lemma_parse_u32(bytes, pos, s[i]);
    }
}

pub proof fn lemma_u64s_read_back(s: Seq<u64>)
    ensures
        reads_back(s, u64_enc(), u64_parse()),
{
    assert forall|i: int, bytes: Seq<u8>, pos: int|
        0 <= i < s.len() && #[trigger] holds_at(bytes, pos, u64_enc()(s[i])) implies u64_parse()(
        bytes,
        pos,
    ) == Some((s[i], pos + u64_enc()(s[i]).len())) by {
        lemma_parse_u64(bytes, pos, s[i]);
    }
}

pub proof fn lemma_actions_read_back(s: Seq<ActionView>)
    requires
        forall|i: int| 0 <= i < s.len() ==> (#[trigger] s[i]).encodable(),
    ensures
        reads_back(s, action_enc(), action_parse()),
{
    assert forall|i: int, bytes: Seq<u8>, pos: int|
        0 <= i < s.len() && #[trigger] holds_at(bytes, pos, action_enc()(s[i]))
        implies action_parse()(bytes, pos) == Some((s[i], pos + action_enc()(s[i]).len())) by {
        lemma_parse_action(bytes, pos, s[i]);
    }
}

/// Decoding reads back an encoded transaction, wherever it stands in a
/// buffer, and stops right behind it.
pub proof fn lemma_parse_transaction(bytes: Seq<u8>, pos: int, t: TransactionView)
    requires
        t.encodable(),
        holds_at(bytes, pos, enc_transaction(t)),
    ensures
        parse_transaction(bytes, pos) == Some((t, pos + enc_transaction(t).len())),
{
    let e1 = enc_vec(t.inputs, u32_enc());
    let e2 = e1 + enc_vec(t.outputs, u64_enc());
    let e3 = e2 + enc_vec(t.actions, action_enc());
    lemma_holds_concat(bytes, pos, e3, enc_i64(t.value_balance_orchard));
    lemma_holds_concat(bytes, pos, e2, enc_vec(t.actions, action_enc()));
    lemma_holds_concat(bytes, pos, e1, enc_vec(t.outputs, u64_enc()));
    lemma_u32s_read_back(t.inputs);
    lemma_u64s_read_back(t.outputs);
    lemma_actions_read_back(t.actions);
    lemma_parse_vec(bytes, pos, t.inputs, u32_enc(), u32_parse());
    lemma_parse_vec(bytes, pos + e1.len(), t.outputs, u64_enc(), u64_parse());
    lemma_parse_vec(bytes, pos + e2.len(), t.actions, action_enc(), action_parse());
    lemma_parse_i64(bytes, pos + e3.len(), t.value_balance_orchard);
}

/// Decoding reads back an encoded block.
pub proof fn lemma_parse_block(bytes: Seq<u8>, pos: int, b: BlockView)
    requires
        b.encodable(),
        holds_at(bytes, pos, enc_block(b)),
    ensures
        parse_block(bytes, pos) == Some((b, pos + enc_block(b).len())),
{
    let s = b.transactions;
    assert forall|i: int, bs: Seq<u8>, p: int|
        0 <= i < s.len() && #[trigger] holds_at(bs, p, transaction_enc()(s[i]))
        implies transaction_parse()(bs, p) == Some(
        (s[i], p + transaction_enc()(s[i]).len()),
    ) by {
        lemma_parse_transaction(bs, p, s[i]);
    }
    lemma_parse_vec(bytes, pos, s, transaction_enc(), transaction_parse());
}

/// Every item that the parser reads satisfies `good`.
pub open spec fn parses_only<T>(
    parse: spec_fn(Seq<u8>, int) -> Option<(T, int)>,
    good: spec_fn(T) -> bool,
) -> bool {
    forall|bytes: Seq<u8>, pos: int|
        (#[trigger] parse(bytes, pos)) is Some ==> good(parse(bytes, pos)->Some_0.0)
}

/// A list that was read has as many items as were asked for behind those it
/// started with, and every item of it is one of those or was read.
pub proof fn lemma_parsed_items<T>(
    bytes: Seq<u8>,
    pos: int,
    n: nat,
    acc: Seq<T>,
    parse: spec_fn(Seq<u8>, int) -> Option<(T, int)>,
    good: spec_fn(T) -> bool,
)
    requires
        parses_only(parse, good),
        forall|i: int| 0 <= i < acc.len() ==> good(#[trigger] acc[i]),
        parse_items(bytes, pos, n, acc, parse) is Some,
    ensures
        parse_items(bytes, pos, n, acc, parse)->Some_0.0.len() == acc.len() + n,
        forall|i: int|
            0 <= i < acc.len() + n ==> good(
                #[trigger] parse_items(bytes, pos, n, acc, parse)->Some_0.0[i],
            ),
    decreases n,
{
    if n > 0 {
        let (x, next) = parse(bytes, pos)->Some_0;
        assert(good(x));
        lemma_parsed_items(bytes, next, (n - 1) as nat, acc.push(x), parse, good);
    }
}

/// A list that was read behind its length is short enough to be written,
/// and every item of it was read.
pub proof fn lemma_parsed_vec<T>(
    bytes: Seq<u8>,
    pos: int,
    parse: spec_fn(Seq<u8>, int) -> Option<(T, int)>,
    good: spec_fn(T) -> bool,
)
    requires
        parses_only(parse, good),
        parse_vec(bytes, pos, parse) is Some,
    ensures
        parse_vec(bytes, pos, parse)->Some_0.0.len() <= u64::MAX,
        forall|i: int|
            0 <= i < parse_vec(bytes, pos, parse)->Some_0.0.len() ==> good(
                #[trigger] parse_vec(bytes, pos, parse)->Some_0.0[i],
            ),
{
    let (n, start) = parse_u64(bytes, pos)->Some_0;
    lemma_parsed_items(bytes, start, n as nat, Seq::empty(), parse, good);
}

pub open spec fn action_is_encodable() -> spec_fn(ActionView) -> bool {
    |a: ActionView| a.encodable()
}

pub open spec fn any_u32() -> spec_fn(u32) -> bool {
    |x: u32| true
}

pub open spec fn any_u64() -> spec_fn(u64) -> bool {
    |x: u64| true
}

/// An action that was read can be written.
pub proof fn lemma_parsed_action(bytes: Seq<u8>, pos: int)
    requires
        parse_action(bytes, pos) is Some,
    ensures
        parse_action(bytes, pos)->Some_0.0.encodable(),
{
}

/// A transaction that was read can be written.
pub proof fn lemma_parsed_transaction(bytes: Seq<u8>, pos: int)
    requires
        parse_transaction(bytes, pos) is Some,
    ensures
        parse_transaction(bytes, pos)->Some_0.0.encodable(),
{
    assert(parses_only(action_parse(), action_is_encodable())) by {
        assert forall|b: Seq<u8>, p: int| (#[trigger] action_parse()(b, p)) is Some implies action_is_encodable()(
            action_parse()(b, p)->Some_0.0,
        ) by {
            lemma_parsed_action(b, p);
        }
    }
    assert(parses_only(u32_parse(), any_u32()));
    assert(parses_only(u64_parse(), any_u64()));
    let (inputs, p1) = parse_vec(bytes, pos, u32_parse())->Some_0;
    lemma_parsed_vec(bytes, pos, u32_parse(), any_u32());
    let (outputs, p2) = parse_vec(bytes, p1, u64_parse())->Some_0;
    lemma_parsed_vec(bytes, p1, u64_parse(), any_u64());
    lemma_parsed_vec(bytes, p2, action_parse(), action_is_encodable());
}

/// Serializing a block body and deserializing the bytes gives the block back.
pub proof fn block_body_roundtrip(b: BlockView)
    requires
        b.encodable(),
    ensures
        parse_block(enc_block(b), 0) == Some((b, enc_block(b).len() as int)),
{
    let bytes = enc_block(b);
    assert(bytes.subrange(0, bytes.len() as int) =~= bytes);
    lemma_parse_block(bytes, 0, b);
}

/// Serializing a transaction and deserializing the bytes gives the
/// transaction back.
pub proof fn transaction_roundtrip(t: TransactionView)
    requires
        t.encodable(),
    ensures
        parse_transaction(enc_transaction(t), 0) == Some((t, enc_transaction(t).len() as int)),
{
    let bytes = enc_transaction(t);
    assert(bytes.subrange(0, bytes.len() as int) =~= bytes);
    lemma_parse_transaction(bytes, 0, t);
}


fn put_u32s(out: &mut Vec<u8>, v: &Vec<u32>)
    ensures
        final(out)@ == old(out)@ + enc_vec(v@, u32_enc()),
{
    put_u64(out, v.len() as u64);
    let mut i: usize = 0;
    assert(v@.take(0) =~= Seq::<u32>::empty());
    assert(out@ =~= old(out)@ + enc_u64(v@.len() as u64) + enc_items(v@.take(0), u32_enc()));
    while i < v.len()
        invariant
            0 <= i <= v@.len(),
            out@ == old(out)@ + enc_u64(v@.len() as u64) + enc_items(v@.take(i as int), u32_enc()),
        decreases v@.len() - i,
    {
        put_u32(out, v[i]);
        i += 1;
        proof {
            assert(v@.take(i as int).drop_last() =~= v@.take(i - 1));
            assert(out@ =~= old(out)@ + enc_u64(v@.len() as u64) + enc_items(
                v@.take(i as int),
                u32_enc(),
            ));
        }
    }
    assert(v@.take(i as int) =~= v@);
    assert(out@ =~= old(out)@ + enc_vec(v@, u32_enc()));
}

fn put_outputs(out: &mut Vec<u8>, v: &Vec<Output>)
    ensures
        final(out)@ == old(out)@ + enc_vec(output_values(v@), u64_enc()),
{
    let ghost s = output_values(v@);
    put_u64(out, v.len() as u64);
    let mut i: usize = 0;
    assert(s.take(0) =~= Seq::<u64>::empty());
    assert(out@ =~= old(out)@ + enc_u64(s.len() as u64) + enc_items(s.take(0), u64_enc()));
    while i < v.len()
        invariant
            0 <= i <= v@.len(),
            s == output_values(v@),
            out@ == old(out)@ + enc_u64(s.len() as u64) + enc_items(s.take(i as int), u64_enc()),
        decreases v@.len() - i,
    {
        put_u64(out, v[i].value);
        i += 1;
        proof {
            assert(s.take(i as int).drop_last() =~= s.take(i - 1));
            assert(s.take(i as int).last() == v@[i - 1].value);
            assert(out@ =~= old(out)@ + enc_u64(s.len() as u64) + enc_items(
                s.take(i as int),
                u64_enc(),
            ));
        }
    }
    assert(s.take(i as int) =~= s);
    assert(out@ =~= old(out)@ + enc_vec(s, u64_enc()));
}

fn put_action(out: &mut Vec<u8>, a: &Action)
    ensures
        final(out)@ == old(out)@ + enc_action(a@),
{
    put_raw(out, a.nf.as_slice());
    put_raw(out, a.rk.as_slice());
    put_raw(out, a.cmx.as_slice());
    put_raw(out, a.epk_bytes.as_slice());
    put_blob(out, a.enc_ciphertext.as_slice());
    put_blob(out, a.out_ciphertext.as_slice());
    put_raw(out, a.cv_net.as_slice());
    assert(out@ =~= old(out)@ + enc_action(a@));
}

fn put_actions(out: &mut Vec<u8>, v: &Vec<Action>)
    ensures
        final(out)@ == old(out)@ + enc_vec(action_views(v@), action_enc()),
{
    let ghost s = action_views(v@);
    put_u64(out, v.len() as u64);
    let mut i: usize = 0;
    assert(s.take(0) =~= Seq::<ActionView>::empty());
    assert(out@ =~= old(out)@ + enc_u64(s.len() as u64) + enc_items(s.take(0), action_enc()));
    while i < v.len()
        invariant
            0 <= i <= v@.len(),
            s == action_views(v@),
            out@ == old(out)@ + enc_u64(s.len() as u64) + enc_items(
                s.take(i as int),
                action_enc(),
            ),
        decreases v@.len() - i,
    {
        put_action(out, &v[i]);
        i += 1;
        proof {
            assert(s.take(i as int).drop_last() =~= s.take(i - 1));
            assert(s.take(i as int).last() == v@[i - 1]@);
            assert(out@ =~= old(out)@ + enc_u64(s.len() as u64) + enc_items(
                s.take(i as int),
                action_enc(),
            ));
        }
    }
    assert(s.take(i as int) =~= s);
    assert(out@ =~= old(out)@ + enc_vec(s, action_enc()));
}

fn put_transaction(out: &mut Vec<u8>, t: &Transaction)
    ensures
        final(out)@ == old(out)@ + enc_transaction(t@),
{
    put_u32s(out, &t.inputs);
    put_outputs(out, &t.outputs);
    put_actions(out, &t.actions);
    put_i64(out, t.value_balance_orchard);
    assert(out@ =~= old(out)@ + enc_transaction(t@));
}

fn take_u32s(bytes: &[u8], pos: usize) -> (res: Option<(Vec<u32>, usize)>)
    ensures
        match res {
            Some((v, end)) => parse_vec(bytes@, pos as int, u32_parse()) == Some(
                (v@, end as int),
            ),
            None => parse_vec(bytes@, pos as int, u32_parse()) is None,
        },
{
    let (n, start) = match take_u64(bytes, pos) {
        Some(x) => x,
        None => { return None; },
    };
    let mut v: Vec<u32> = Vec::new();
    let mut cur: usize = start;
    let mut i: u64 = 0;
    while i < n
        invariant
            0 <= i <= n,
            parse_vec(bytes@, pos as int, u32_parse()) == parse_items(
                bytes@,
                cur as int,
                (n - i) as nat,
                v@,
                u32_parse(),
            ),
        decreases n - i,
    {
        match take_u32(bytes, cur) {
            Some((x, next)) => {
                v.push(x);
                cur = next;
                i += 1;
            },
            None => { return None; },
        }
    }
    Some((v, cur))
}

fn take_outputs(bytes: &[u8], pos: usize) -> (res: Option<(Vec<Output>, usize)>)
    ensures
        match res {
            Some((v, end)) => parse_vec(bytes@, pos as int, u64_parse()) == Some(
                (output_values(v@), end as int),
            ),
            None => parse_vec(bytes@, pos as int, u64_parse()) is None,
        },
{
    let (n, start) = match take_u64(bytes, pos) {
        Some(x) => x,
        None => { return None; },
    };
    let mut v: Vec<Output> = Vec::new();
    let mut cur: usize = start;
    let mut i: u64 = 0;
    assert(output_values(v@) =~= Seq::<u64>::empty());
    while i < n
        invariant
            0 <= i <= n,
            parse_vec(bytes@, pos as int, u64_parse()) == parse_items(
                bytes@,
                cur as int,
                (n - i) as nat,
                output_values(v@),
                u64_parse(),
            ),
        decreases n - i,
    {
        match take_u64(bytes, cur) {
            Some((x, next)) => {
                let ghost before = v@;
                v.push(Output { value: x });
                assert(output_values(v@) =~= output_values(before).push(x));
                cur = next;
                i += 1;
            },
            None => { return None; },
        }
    }
    Some((v, cur))
}

fn take_action(bytes: &[u8], pos: usize) -> (res: Option<(Action, usize)>)
    ensures
        match res {
            Some((a, end)) => parse_action(bytes@, pos as int) == Some((a@, end as int)),
            None => parse_action(bytes@, pos as int) is None,
        },
{
    let (nf, p1) = match take_hash(bytes, pos) {
        Some(x) => x,
        None => { return None; },
    };
    let (rk, p2) = match take_hash(bytes, p1) {
        Some(x) => x,
        None => { return None; },
    };
    let (cmx, p3) = match take_hash(bytes, p2) {
        Some(x) => x,
        None => { return None; },
    };
    let (epk_bytes, p4) = match take_hash(bytes, p3) {
        Some(x) => x,
        None => { return None; },
    };
    let (enc_ciphertext, p5) = match take_blob(bytes, p4) {
        Some(x) => x,
        None => { return None; },
    };
    let (out_ciphertext, p6) = match take_blob(bytes, p5) {
        Some(x) => x,
        None => { return None; },
    };
    let (cv_net, p7) = match take_hash(bytes, p6) {
        Some(x) => x,
        None => { return None; },
    };
    Some((Action { nf, rk, cmx, epk_bytes, enc_ciphertext, out_ciphertext, cv_net }, p7))
}

fn take_actions(bytes: &[u8], pos: usize) -> (res: Option<(Vec<Action>, usize)>)
    ensures
        match res {
            Some((v, end)) => parse_vec(bytes@, pos as int, action_parse()) == Some(
                (action_views(v@), end as int),
            ),
            None => parse_vec(bytes@, pos as int, action_parse()) is None,
        },
{
    let (n, start) = match take_u64(bytes, pos) {
        Some(x) => x,
        None => { return None; },
    };
    let mut v: Vec<Action> = Vec::new();
    let mut cur: usize = start;
    let mut i: u64 = 0;
    assert(action_views(v@) =~= Seq::<ActionView>::empty());
    while i < n
        invariant
            0 <= i <= n,
            parse_vec(bytes@, pos as int, action_parse()) == parse_items(
                bytes@,
                cur as int,
                (n - i) as nat,
                action_views(v@),
                action_parse(),
            ),
        decreases n - i,
    {
        match take_action(bytes, cur) {
            Some((a, next)) => {
                let ghost before = v@;
                let ghost av = a@;
                v.push(a);
                assert(action_views(v@) =~= action_views(before).push(av));
                cur = next;
                i += 1;
            },
            None => { return None; },
        }
    }
    Some((v, cur))
}

fn take_transaction(bytes: &[u8], pos: usize) -> (res: Option<(Transaction, usize)>)
    ensures
        match res {
            Some((t, end)) => parse_transaction(bytes@, pos as int) == Some((t@, end as int)),
            None => parse_transaction(bytes@, pos as int) is None,
        },
{
    let (inputs, p1) = match take_u32s(bytes, pos) {
        Some(x) => x,
        None => { return None; },
    };
    let (outputs, p2) = match take_outputs(bytes, p1) {
        Some(x) => x,
        None => { return None; },
    };
    let (actions, p3) = match take_actions(bytes, p2) {
        Some(x) => x,
        None => { return None; },
    };
    let (value_balance_orchard, p4) = match take_i64(bytes, p3) {
        Some(x) => x,
        None => { return None; },
    };
    Some((Transaction { inputs, outputs, actions, value_balance_orchard }, p4))
}

impl Action {
    /// Every action held in memory can be encoded.
    pub proof fn lemma_encodable(&self)
        ensures
            self@.encodable(),
    {
        broadcast use vstd::array::array_len_matches_n;

        assert(self.nf@.len() == 32);
        assert(self.rk@.len() == 32);
        assert(self.cmx@.len() == 32);
        assert(self.epk_bytes@.len() == 32);
        assert(self.cv_net@.len() == 32);
        assert(self.enc_ciphertext@.len() == self.enc_ciphertext.len());
        assert(self.out_ciphertext@.len() == self.out_ciphertext.len());
    }
}

impl Transaction {
    /// Every transaction held in memory can be encoded.
    pub proof fn lemma_encodable(&self)
        ensures
            self@.encodable(),
    {
        assert(self.inputs@.len() == self.inputs.len());
        assert(self.outputs@.len() == self.outputs.len());
        assert(self.actions@.len() == self.actions.len());
        assert forall|i: int| 0 <= i < self@.actions.len() implies (
        #[trigger] self@.actions[i]).encodable() by {
            assert(self@.actions[i] == self.actions@[i]@);
            self.actions@[i].lemma_encodable();
        }
    }

    /// The stored form of the transaction.
    pub fn to_body(&self) -> (bytes: Vec<u8>)
        ensures
            bytes@ == enc_transaction(self@),
    {
        let mut out: Vec<u8> = Vec::new();
        put_transaction(&mut out, self);
        assert(out@ =~= enc_transaction(self@));
        out
    }

    /// Reads a transaction from the front of `bytes`; `None` where the bytes
    /// do not hold one.
    pub fn from_body(bytes: &[u8]) -> (res: Option<Transaction>)
        ensures
            match res {
                Some(t) => parse_transaction(bytes@, 0) is Some && parse_transaction(
                    bytes@,
                    0,
                )->Some_0.0 == t@,
                None => parse_transaction(bytes@, 0) is None,
            },
    {
        match take_transaction(bytes, 0) {
            Some((t, _)) => Some(t),
            None => None,
        }
    }
}

impl Block {
    /// Every block held in memory can be encoded.
    pub proof fn lemma_encodable(&self)
        ensures
            self@.encodable(),
    {
        assert(self.transactions@.len() == self.transactions.len());
        assert forall|i: int| 0 <= i < self@.transactions.len() implies (
        #[trigger] self@.transactions[i]).encodable() by {
            assert(self@.transactions[i] == self.transactions@[i]@);
            self.transactions@[i].lemma_encodable();
        }
    }

    /// The stored form of the block body.
    pub fn to_body(&self) -> (bytes: Vec<u8>)
        ensures
            bytes@ == enc_block(self@),
    {
        let ghost s = self@.transactions;
        let mut out: Vec<u8> = Vec::new();
        put_u64(&mut out, self.transactions.len() as u64);
        let mut i: usize = 0;
        assert(s.take(0) =~= Seq::<TransactionView>::empty());
        assert(out@ =~= enc_u64(s.len() as u64) + enc_items(s.take(0), transaction_enc()));
        while i < self.transactions.len()
            invariant
                0 <= i <= self.transactions@.len(),
                s == self@.transactions,
                out@ == enc_u64(s.len() as u64) + enc_items(s.take(i as int), transaction_enc()),
            decreases self.transactions@.len() - i,
        {
            put_transaction(&mut out, &self.transactions[i]);
            i += 1;
            proof {
                assert(s.take(i as int).drop_last() =~= s.take(i - 1));
                assert(s.take(i as int).last() == self.transactions@[i - 1]@);
                assert(out@ =~= enc_u64(s.len() as u64) + enc_items(
                    s.take(i as int),
                    transaction_enc(),
                ));
            }
        }
        assert(s.take(i as int) =~= s);
        out
    }

    /// Reads a block body from the front of `bytes`; `None` where the bytes
    /// do not hold one.
    pub fn from_body(bytes: &[u8]) -> (res: Option<Block>)
        ensures
            match res {
                Some(b) => parse_block(bytes@, 0) is Some && parse_block(bytes@, 0)->Some_0.0
                    == b@,
                None => parse_block(bytes@, 0) is None,
            },
    {
        let (n, start) = match take_u64(bytes, 0) {
            Some(x) => x,
            None => { return None; },
        };
        let mut v: Vec<Transaction> = Vec::new();
        let mut cur: usize = start;
        let mut i: u64 = 0;
        assert(transaction_views(v@) =~= Seq::<TransactionView>::empty());
        while i < n
            invariant
                0 <= i <= n,
                parse_vec(bytes@, 0, transaction_parse()) == parse_items(
                    bytes@,
                    cur as int,
                    (n - i) as nat,
                    transaction_views(v@),
                    transaction_parse(),
                ),
            decreases n - i,
        {
            match take_transaction(bytes, cur) {
                Some((t, next)) => {
                    let ghost before = v@;
                    let ghost tv = t@;
                    v.push(t);
                    assert(transaction_views(v@) =~= transaction_views(before).push(tv));
                    cur = next;
                    i += 1;
                },
                None => { return None; },
            }
        }
        Some(Block { transactions: v })
    }
}

} // verus!
