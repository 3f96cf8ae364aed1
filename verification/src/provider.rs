//! The boundary to the shielded-cryptography provider.
//!
//! Everything the ledger needs from the Orchard protocol, the note-commitment
//! tree, the mnemonic word list and the address codec is reached through the
//! functions of this file. Their bodies are not verified: each contract is a
//! claim about the crate it calls, stated in the comment above it. Where a
//! result is a function of the arguments alone it is given a name, and the
//! ledger's contracts are stated over those names.

use vstd::prelude::*;
use crate::db::ShieldedOutputView;
use crate::types::{Action, ActionView, Note, NoteView};
use crate::witness::stored_witness_ok;
use bip39::{Language, Mnemonic, MnemonicType, Seed};
use incrementalmerkletree::frontier::{CommitmentTree, Frontier, NonEmptyFrontier};
use incrementalmerkletree::witness::IncrementalWitness;
use incrementalmerkletree::{Hashable, Level, Position};
use nonempty::NonEmpty;
use orchard::builder::{Builder, BundleType};
use orchard::bundle::{BundleVersion, EffectsOnly, Flags};
use orchard::keys::{FullViewingKey, IncomingViewingKey, SpendingKey};
use orchard::note::{
    ExtractedNoteCommitment, Nullifier, RandomSeed, Rho, TransmittedNoteCiphertext,
};
use orchard::note_encryption::NoteBytesData;
use orchard::primitives::redpallas::VerificationKey;
use orchard::tree::{MerkleHashOrchard, MerklePath};
use orchard::value::{NoteValue, ValueCommitment};
use orchard::Action as OrchardAction;
use orchard::{Address, Anchor, Bundle, NoteVersion};
use zip32::{AccountId, Scope};

verus! {

/// Depth of the note-commitment tree.
pub const TREE_DEPTH: u8 = 32;

/// A stored frontier in the provider's types: position, leaf, ommers.
type FrontierParts = (u64, MerkleHashOrchard, Vec<MerkleHashOrchard>);

/// One tree of a stored witness: left leaf, right leaf, parents.
type TreeParts = (Option<MerkleHashOrchard>, Option<MerkleHashOrchard>, Vec<Option<MerkleHashOrchard>>);

/// A stored witness: the tree at the note, the hashes filled since, the cursor.
type WitnessParts = (TreeParts, Vec<MerkleHashOrchard>, Option<TreeParts>);

/// A witness over the depth of the note-commitment tree.
type Witness = IncrementalWitness<MerkleHashOrchard, 32>;

/// The two scopes in which a wallet derives keys and addresses: for what
/// others pay to it, and for what it pays to itself.
#[derive(Clone, Copy, Debug, PartialEq, Eq, Structural)]
pub enum KeyScope {
    External,
    Internal,
}

/// An action in the provider's own type. The provider's type shares its name
/// with the wire form of this library, so it is held here behind a closed
/// door: it is made by [`provider_action`] and handed on to
/// [`decrypt_owned`]. What it holds is told by [`wire_action`].
#[verifier::external_body]
pub struct ProviderAction {
    inner: OrchardAction<()>,
}

/// The provider's bundle builder. Opaque here.
#[verifier::external_type_specification]
#[verifier::external_body]
pub struct ExBuilder(Builder);

/// The stored frontier of the tree that holds the single leaf `leaf`, where
/// `leaf` is a canonical node.
pub uninterp spec fn frontier_of_leaf(leaf: Seq<u8>) -> Option<Seq<u8>>;

/// The stored frontier after `leaf` is appended to the tree of the stored
/// frontier `frontier`; `None` where `frontier` does not decode, `leaf` is not
/// canonical, or the tree is full.
pub uninterp spec fn frontier_with_leaf(frontier: Seq<u8>, leaf: Seq<u8>) -> Option<Seq<u8>>;

/// The root, at the full depth, of the tree of a stored frontier.
pub uninterp spec fn frontier_root_of(frontier: Seq<u8>) -> Option<Seq<u8>>;

/// The root of the empty tree of height `level`.
pub uninterp spec fn empty_root_at(level: u8) -> Seq<u8>;

/// The stored witness for the newest leaf of a stored frontier.
pub uninterp spec fn witness_of_frontier(frontier: Seq<u8>) -> Option<Seq<u8>>;

/// The stored witness after `leaf` is appended to the tree it tracks.
pub uninterp spec fn witness_with_leaf(witness: Seq<u8>, leaf: Seq<u8>) -> Option<Seq<u8>>;

/// The root, at the full depth, of the tree that a stored witness tracks.
pub uninterp spec fn witness_root_of(witness: Seq<u8>) -> Option<Seq<u8>>;

/// The position and authentication path that a stored witness proves.
pub uninterp spec fn auth_path_of(witness: Seq<u8>) -> Option<(u64, Seq<Seq<u8>>)>;

/// Whether the provider accepts the fields of an action: each of them parses
/// and the two ciphertexts have their widths.
pub uninterp spec fn action_decodes(action: ActionView) -> bool;

/// The wire form of an action in the provider's type: the bytes of its
/// fields.
pub uninterp spec fn wire_action(action: ProviderAction) -> ActionView;

/// The incoming viewing key, in bytes, of a full viewing key in a scope.
pub uninterp spec fn incoming_key_of(fvk: Seq<u8>, scope: KeyScope) -> Option<Seq<u8>>;

/// What an incoming viewing key decrypts in the bundle of the given actions,
/// value balance and anchor: for each output that decrypts, the index of its
/// action and its note, in the order of the actions. `None` where the bundle
/// cannot be made or the key does not parse.
pub uninterp spec fn notes_for_key(
    actions: Seq<ActionView>,
    value_balance: i64,
    anchor: Seq<u8>,
    ivk: Seq<u8>,
) -> Option<Seq<(usize, NoteView)>>;

/// A spend as the builder holds it: the key that may spend, the note, and
/// the position and path of the note in the tree.
pub struct SpendView {
    pub fvk: Seq<u8>,
    pub note: NoteView,
    pub position: u32,
    pub path: Seq<Seq<u8>>,
}

/// Whether the provider takes 32 bytes as an anchor: they are the canonical
/// form of a root.
pub uninterp spec fn anchor_taken(anchor: Seq<u8>) -> bool;

/// Whether a builder that was made against `anchor` takes a spend: its parts
/// parse, the key owns the note, and the path leads from the note to the
/// anchor (a note of no value needs no such path).
pub uninterp spec fn spend_taken(anchor: Seq<u8>, spend: SpendView) -> bool;

/// The anchor that a builder was made against.
pub uninterp spec fn builder_anchor(builder: Builder) -> Seq<u8>;

/// The spends that a builder holds, in the order in which they were added.
pub uninterp spec fn builder_spends(builder: Builder) -> Seq<SpendView>;

/// The outputs that a builder holds, in the order in which they were added.
pub uninterp spec fn builder_outputs(builder: Builder) -> Seq<ShieldedOutputView>;

/// The sum of the values of the notes that spends spend.
pub open spec fn spends_value(spends: Seq<SpendView>) -> int
    decreases spends.len(),
{
    if spends.len() == 0 {
        0
    } else {
        spends_value(spends.drop_last()) + spends.last().note.value
    }
}

/// The sum of the values of shielded outputs.
pub open spec fn outputs_value(outputs: Seq<ShieldedOutputView>) -> int
    decreases outputs.len(),
{
    if outputs.len() == 0 {
        0
    } else {
        outputs_value(outputs.drop_last()) + outputs.last().value
    }
}

/// The number of actions of the bundle that is built from a number of spends
/// and a number of outputs: none where there is nothing to build from, and
/// else one for each spend or output, whichever are more, and at least the
/// least number of actions.
pub open spec fn bundle_size(spends: nat, outputs: nat) -> nat {
    if spends == 0 && outputs == 0 {
        0
    } else if spends >= outputs && spends >= MIN_ACTIONS {
        spends
    } else if outputs >= MIN_ACTIONS {
        outputs
    } else {
        MIN_ACTIONS as nat
    }
}

/// The wire forms of a list of actions in the provider's type.
pub open spec fn wire_actions(actions: Seq<ProviderAction>) -> Seq<ActionView> {
    actions.map_values(|a: ProviderAction| wire_action(a))
}

/// The views of a list of found notes.
pub open spec fn found_views(found: Seq<(usize, Note)>) -> Seq<(usize, NoteView)> {
    found.map_values(|f: (usize, Note)| (f.0, f.1@))
}

/// The indices of `found` lie below `n` and grow from item to item.
pub open spec fn indices_grow(found: Seq<(usize, NoteView)>, n: int) -> bool {
    &&& forall|k: int| 0 <= k < found.len() ==> (#[trigger] found[k]).0 < n
    &&& forall|k: int, l: int| 0 <= k < l < found.len() ==> found[k].0 < found[l].0
}

/// The full viewing key, in bytes, of the account of a coin type that a
/// phrase seeds under a password.
pub uninterp spec fn seed_viewing_key(
    phrase: Seq<char>,
    password: Seq<char>,
    coin_type: u32,
    account: u32,
) -> Option<Seq<u8>>;

/// The raw address of a full viewing key at a diversifier index in a scope.
pub uninterp spec fn scoped_address(fvk: Seq<u8>, index: u32, scope: KeyScope) -> Option<Seq<u8>>;

/// Whether raw bytes are a shielded address.
pub uninterp spec fn address_decodes(raw: Seq<u8>) -> bool;

/// Whether a phrase is an English mnemonic with a valid checksum.
pub uninterp spec fn phrase_decodes(phrase: Seq<char>) -> bool;

/// The payload of a base58check string.
pub uninterp spec fn base58check_decoded(text: Seq<char>) -> Option<Seq<u8>>;

/// The base58check string of a payload.
pub uninterp spec fn base58check_encoded(payload: Seq<u8>) -> Seq<char>;

/// The view of an optional byte string.
pub open spec fn bytes_view(b: Option<Vec<u8>>) -> Option<Seq<u8>> {
    match b {
        Some(v) => Some(v@),
        None => None,
    }
}

/// `NonEmptyFrontier::new`, on a leaf parsed by `MerkleHashOrchard::from_bytes`,
/// in the stored form (`bincode` of position, leaf and ommers). The result is
/// a function of the leaf alone.
#[verifier::external_body]
pub(crate) fn frontier_first(leaf: &[u8; 32]) -> (res: Option<Vec<u8>>)
    ensures
        bytes_view(res) == frontier_of_leaf(leaf@),
{
    let leaf = MerkleHashOrchard::from_bytes(leaf).into_option()?;
    let (p, l, o) = NonEmptyFrontier::new(leaf).into_parts();
    bincode::serialize(&(u64::from(p), l, o)).ok()
}

/// `Frontier::append` at depth 32, from stored form to stored form. The
/// result is a function of the stored frontier and the leaf.
#[verifier::external_body]
pub(crate) fn frontier_append(frontier: &Vec<u8>, leaf: &[u8; 32]) -> (res: Option<Vec<u8>>)
    ensures
        bytes_view(res) == frontier_with_leaf(frontier@, leaf@),
{
    let (p, l, o): FrontierParts = bincode::deserialize(frontier).ok()?;
    let mut f: Frontier<MerkleHashOrchard, 32> = Frontier::from_parts(Position::from(p), l, o).ok()?;
    if !f.append(MerkleHashOrchard::from_bytes(leaf).into_option()?) {
        return None;
    }
    let (p, l, o) = f.take()?.into_parts();
    bincode::serialize(&(u64::from(p), l, o)).ok()
}

/// `Frontier::root` at depth 32 of a stored frontier, as bytes. The result is
/// a function of the stored frontier.
#[verifier::external_body]
pub(crate) fn frontier_root(frontier: &Vec<u8>) -> (res: Option<[u8; 32]>)
    ensures
        match res {
            Some(root) => frontier_root_of(frontier@) == Some(root@),
            None => frontier_root_of(frontier@) is None,
        },
{
    let (p, l, o): FrontierParts = bincode::deserialize(frontier).ok()?;
    let f: Frontier<MerkleHashOrchard, 32> = Frontier::from_parts(Position::from(p), l, o).ok()?;
    Some(f.root().to_bytes())
}

/// `MerkleHashOrchard::empty_root`, as bytes: a table lookup by level, defined
/// for the levels up to the depth of the tree.
#[verifier::external_body]
pub(crate) fn empty_root(level: u8) -> (res: [u8; 32])
    requires
        level <= TREE_DEPTH,
    ensures
        res@ == empty_root_at(level),
{
    MerkleHashOrchard::empty_root(Level::from(level)).to_bytes()
}

/// `IncrementalWitness::from_tree` on `CommitmentTree::from_frontier` of a
/// stored frontier, in the stored form (`bincode` of tree, filled and cursor).
/// The result is a function of the stored frontier.
#[verifier::external_body]
pub(crate) fn witness_start(frontier: &Vec<u8>) -> (res: Option<Vec<u8>>)
    ensures
        bytes_view(res) == witness_of_frontier(frontier@),
{
    let (p, l, o): FrontierParts = bincode::deserialize(frontier).ok()?;
    let f: Frontier<MerkleHashOrchard, 32> = Frontier::from_parts(Position::from(p), l, o).ok()?;
    let w = Witness::from_tree(CommitmentTree::from_frontier(&f))?;
    let t = w.tree();
    let c = w.cursor().as_ref().map(|c| (c.left(), c.right(), c.parents()));
    bincode::serialize(&((t.left(), t.right(), t.parents()), w.filled(), c)).ok()
}

/// `IncrementalWitness::append`, from stored form to stored form. The result
/// is a function of the stored witness and the leaf. The tree code counts the
/// filled hashes in a byte, lets the subtree being filled take the leaf
/// without asking whether it is full, and takes the root of that subtree at
/// its depth, which must not be zero: stored bytes that would stop it there
/// are left out.
#[verifier::external_body]
pub(crate) fn witness_append(witness: &Vec<u8>, leaf: &[u8; 32]) -> (res: Option<Vec<u8>>)
    requires
        stored_witness_ok(witness@),
    ensures
        bytes_view(res) == witness_with_leaf(witness@, leaf@),
{
    let tree = |p: TreeParts| CommitmentTree::from_parts(p.0, p.1, p.2);
    let (t, filled, c): WitnessParts = bincode::deserialize(witness).ok()?;
    let mut w = Witness::from_parts(tree(t).ok()?, filled, c.map(tree).transpose().ok()?)?;
    w.append(MerkleHashOrchard::from_bytes(leaf).into_option()?).ok()?;
    let t = w.tree();
    let c = w.cursor().as_ref().map(|c| (c.left(), c.right(), c.parents()));
    bincode::serialize(&((t.left(), t.right(), t.parents()), w.filled(), c)).ok()
}

/// `IncrementalWitness::root` of a stored witness, as bytes. The result is a
/// function of the stored witness. It takes the root of the subtree being
/// filled as the path does, so stored bytes on which the tree code would
/// stop are left out in the same way.
#[verifier::external_body]
pub(crate) fn witness_root(witness: &Vec<u8>) -> (res: Option<[u8; 32]>)
    requires
        stored_witness_ok(witness@),
    ensures
        match res {
            Some(root) => witness_root_of(witness@) == Some(root@),
            None => witness_root_of(witness@) is None,
        },
{
    let tree = |p: TreeParts| CommitmentTree::from_parts(p.0, p.1, p.2);
    let (t, filled, c): WitnessParts = bincode::deserialize(witness).ok()?;
    let w = Witness::from_parts(tree(t).ok()?, filled, c.map(tree).transpose().ok()?)?;
    Some(w.root().to_bytes())
}

/// `IncrementalWitness::path` of a stored witness: the position of the
/// witnessed leaf and its 32 sibling hashes, as bytes. The result is a
/// function of the stored witness. Stored bytes on which the tree code would
/// stop are left out, as for the append; here it also takes the root of the
/// subtree being filled where that subtree is not full, with the roots of
/// empty subtrees for what is missing, and it has such roots for the levels of
/// the tree only: the subtree must stand below the root.
#[verifier::external_body]
pub(crate) fn witness_path(witness: &Vec<u8>) -> (res: Option<(u64, Vec<[u8; 32]>)>)
    requires
        stored_witness_ok(witness@),
    ensures
        match res {
            Some((position, path)) => auth_path_of(witness@) == Some(
                (position, crate::types::hash_views(path@)),
            ),
            None => auth_path_of(witness@) is None,
        },
{
    let tree = |p: TreeParts| CommitmentTree::from_parts(p.0, p.1, p.2);
    let (t, filled, c): WitnessParts = bincode::deserialize(witness).ok()?;
    let w = Witness::from_parts(tree(t).ok()?, filled, c.map(tree).transpose().ok()?)?;
    let p = w.path()?;
    Some((u64::from(p.position()), p.path_elems().iter().map(|h| h.to_bytes()).collect()))
}

/// `orchard::Action::from_parts` on fields parsed by the provider's own
/// `from_bytes` functions, with no authorization. Whether it succeeds is a
/// function of the action's fields, and it succeeds only where the two
/// ciphertexts fill the provider's arrays of 580 and of 80 bytes. Each
/// `from_bytes` takes the one encoding that its `to_bytes` gives, so the
/// action made has the given fields as its wire form.
#[verifier::external_body]
pub(crate) fn provider_action(a: &Action) -> (res: Option<ProviderAction>)
    ensures
        res is Some <==> action_decodes(a@),
        res is Some ==> a@.widths_exact(),
        res is Some ==> wire_action(res->Some_0) == a@,
{
    let note = TransmittedNoteCiphertext {
        epk_bytes: a.epk_bytes,
        enc_ciphertext: NoteBytesData(a.enc_ciphertext[..].try_into().ok()?),
        out_ciphertext: a.out_ciphertext[..].try_into().ok()?,
    };
    let nf = Nullifier::from_bytes(&a.nf).into_option()?;
    let rk = VerificationKey::try_from(a.rk).ok()?;
    let cmx = ExtractedNoteCommitment::from_bytes(&a.cmx).into_option()?;
    let cv = ValueCommitment::from_bytes(&a.cv_net).into_option()?;
    OrchardAction::from_parts(nf, rk, cmx, note, cv, ()).ok().map(|inner| ProviderAction { inner })
}

/// `FullViewingKey::to_ivk` in a scope, as the bytes of
/// `IncomingViewingKey::to_bytes`. `None` where the key does not parse. The
/// result is a function of the key and the scope.
#[verifier::external_body]
pub(crate) fn incoming_key(fvk: &[u8; 96], scope: KeyScope) -> (res: Option<[u8; 64]>)
    ensures
        match res {
            Some(ivk) => incoming_key_of(fvk@, scope) == Some(ivk@),
            None => incoming_key_of(fvk@, scope) is None,
        },
{
    let scope = match scope {
        KeyScope::External => Scope::External,
        KeyScope::Internal => Scope::Internal,
    };
    Some(FullViewingKey::from_bytes(fvk)?.to_ivk(scope).to_bytes())
}

/// `Bundle::decrypt_outputs_with_keys` under one incoming viewing key, on the
/// bundle that `Bundle::from_parts` makes of the actions with spends and
/// outputs enabled. Each item is the index of an action and the note that it
/// decrypts to. `None` where there is no action, or the anchor or the key
/// does not parse. The result is a function of the actions, the balance, the
/// anchor and the key. It walks the actions in order and gives at most one
/// item for each, so the indices grow and lie below the number of actions.
#[verifier::external_body]
pub(crate) fn decrypt_owned(
    actions: Vec<ProviderAction>,
    value_balance: i64,
    anchor: &[u8; 32],
    ivk: &[u8; 64],
) -> (res: Option<Vec<(usize, Note)>>)
    ensures
        match res {
            Some(found) => notes_for_key(wire_actions(actions@), value_balance, anchor@, ivk@)
                == Some(found_views(found@)),
            None => notes_for_key(wire_actions(actions@), value_balance, anchor@, ivk@) is None,
        },
        res is Some ==> indices_grow(found_views(res->Some_0@), actions@.len() as int),
{
    let ivk = IncomingViewingKey::from_bytes(ivk).into_option()?;
    let at = Anchor::from_bytes(*anchor).into_option()?;
    let all = NonEmpty::from_vec(actions.into_iter().map(|a| a.inner).collect())?;
    let version = BundleVersion::orchard_v2();
    let bundle = Bundle::from_parts(all, Flags::ENABLED, value_balance, at, EffectsOnly, version).ok()?;
    let found = bundle.decrypt_outputs_with_keys(&[ivk]).into_iter();
    Some(found.map(|(i, _, n, _, _)| (i, Note {
        recipient: n.recipient().to_raw_address_bytes(),
        value: n.value().inner(),
        rho: n.rho().to_bytes(),
        rseed: *n.rseed().as_bytes(),
    })).collect())
}

/// `Mnemonic::from_phrase` for English, `Seed::new` with the password,
/// `SpendingKey::from_zip32_seed` for the coin type and the account, and
/// `FullViewingKey::to_bytes`. `None` where one of them refuses. The result
/// is a function of the four arguments.
#[verifier::external_body]
pub(crate) fn wallet_viewing_key(
    phrase: &str,
    password: &str,
    coin_type: u32,
    account: u32,
) -> (res: Option<[u8; 96]>)
    ensures
        match res {
            Some(fvk) => seed_viewing_key(phrase@, password@, coin_type, account) == Some(fvk@),
            None => seed_viewing_key(phrase@, password@, coin_type, account) is None,
        },
{
    let m = Mnemonic::from_phrase(phrase, Language::English).ok()?;
    let account = AccountId::try_from(account).ok()?;
    let sk = SpendingKey::from_zip32_seed(Seed::new(&m, password).as_bytes(), coin_type, account);
    Some(FullViewingKey::from(&sk.ok()?).to_bytes())
}

/// `FullViewingKey::address_at` in a scope, as raw bytes. The result is a
/// function of the key, the index and the scope.
#[verifier::external_body]
pub(crate) fn wallet_address(fvk: &[u8; 96], index: u32, scope: KeyScope) -> (res: Option<
    [u8; 43],
>)
    ensures
        match res {
            Some(raw) => scoped_address(fvk@, index, scope) == Some(raw@),
            None => scoped_address(fvk@, index, scope) is None,
        },
{
    let scope = match scope {
        KeyScope::External => Scope::External,
        KeyScope::Internal => Scope::Internal,
    };
    Some(FullViewingKey::from_bytes(fvk)?.address_at(index, scope).to_raw_address_bytes())
}

/// `Address::from_raw_address_bytes`: whether the bytes parse.
#[verifier::external_body]
pub(crate) fn address_is_valid(raw: &[u8; 43]) -> (ok: bool)
    ensures
        ok == address_decodes(raw@),
{
    Address::from_raw_address_bytes(raw).is_some().into()
}

/// `Mnemonic::from_phrase` for English: whether the phrase parses.
#[verifier::external_body]
pub(crate) fn phrase_is_valid(phrase: &str) -> (ok: bool)
    ensures
        ok == phrase_decodes(phrase@),
{
    Mnemonic::from_phrase(phrase, Language::English).is_ok()
}

/// `Mnemonic::new` for twelve English words: a phrase from fresh entropy. It
/// is built from the word list with its checksum, so `Mnemonic::from_phrase`
/// takes it; nothing else is claimed of it.
#[verifier::external_body]
pub(crate) fn fresh_phrase() -> (phrase: String)
    ensures
        phrase_decodes(phrase@),
{
    Mnemonic::new(MnemonicType::Words12, Language::English).into_phrase()
}

/// `bs58::decode` with the checksum verified and removed.
#[verifier::external_body]
pub(crate) fn base58check_decode(text: &str) -> (res: Option<Vec<u8>>)
    ensures
        bytes_view(res) == base58check_decoded(text@),
{
    bs58::decode(text).with_check(None).into_vec().ok()
}

/// `bs58::encode` with a checksum appended.
#[verifier::external_body]
pub(crate) fn base58check_encode(payload: &[u8]) -> (text: String)
    ensures
        text@ == base58check_encoded(payload@),
{
    bs58::encode(payload).with_check().into_string()
}

/// The byte of bundle flags that enables spends and outputs.
pub const FLAGS_ENABLED: u8 = 3;

/// The least number of actions of a bundle.
pub const MIN_ACTIONS: u8 = 2;

/// `Builder::new` against `anchor`, for a transactional bundle that need not
/// exist and is padded to a least number of actions, with the flags that
/// `Flags::from_byte` reads. The claims are made for the configuration of
/// this ledger: spends and outputs enabled, no bundle from nothing, two
/// actions at least. The provider can write these flags for this version of
/// bundles, so the builder is made exactly where `Anchor::from_bytes` takes
/// the anchor. A new builder holds the anchor and neither spend nor output.
#[verifier::external_body]
pub(crate) fn builder_start(
    anchor: &[u8; 32],
    bundle_required: bool,
    min_actions: u8,
    flags: u8,
) -> (res: Option<Builder>)
    requires
        !bundle_required,
        min_actions == MIN_ACTIONS,
        flags == FLAGS_ENABLED,
    ensures
        res is Some <==> anchor_taken(anchor@),
        res is Some ==> {
            &&& builder_anchor(res->Some_0) == anchor@
            &&& builder_spends(res->Some_0) == Seq::<SpendView>::empty()
            &&& builder_outputs(res->Some_0) == Seq::<ShieldedOutputView>::empty()
        },
{
    let kind = BundleType::Transactional { bundle_required, pad_to_minimum: Some(min_actions) };
    let version = BundleVersion::orchard_v2();
    let anchor = Anchor::from_bytes(*anchor).into_option()?;
    Builder::new(kind, version, Flags::from_byte(flags, version)?, anchor).ok()
}

/// `Builder::add_spend` of a note rebuilt by `Note::from_parts`, with the
/// Merkle path rebuilt by `MerklePath::from_parts`. `Some` where the provider
/// took the spend: it is then the last of the builder's spends. The spend is
/// added after every check, so where it is not taken the builder holds what
/// it held. Anchor and outputs are not touched. Whether a builder with
/// spends enabled takes a spend is a function of its anchor and of the
/// spend.
#[verifier::external_body]
pub(crate) fn builder_add_spend(
    builder: &mut Builder,
    fvk: &[u8; 96],
    note: &Note,
    position: u32,
    path: &Vec<[u8; 32]>,
) -> (taken: Option<()>)
    ensures
        taken is Some <==> spend_taken(
            builder_anchor(*old(builder)),
            SpendView { fvk: fvk@, note: note@, position, path: crate::types::hash_views(path@) },
        ),
        builder_anchor(*final(builder)) == builder_anchor(*old(builder)),
        builder_outputs(*final(builder)) == builder_outputs(*old(builder)),
        builder_spends(*final(builder)) == if taken is Some {
            builder_spends(*old(builder)).push(
                SpendView {
                    fvk: fvk@,
                    note: note@,
                    position,
                    path: crate::types::hash_views(path@),
                },
            )
        } else {
            builder_spends(*old(builder))
        },
{
    let rho = Rho::from_bytes(&note.rho).into_option()?;
    let to = Address::from_raw_address_bytes(&note.recipient).into_option()?;
    let seed = RandomSeed::from_bytes(note.rseed, &rho).into_option()?;
    let value = NoteValue::from_raw(note.value);
    let n = orchard::Note::from_parts(to, value, rho, seed, NoteVersion::V2).into_option()?;
    let hashes = path.iter().map(|h| MerkleHashOrchard::from_bytes(h).into_option());
    let elems: [MerkleHashOrchard; 32] = hashes.collect::<Option<Vec<_>>>()?.try_into().ok()?;
    let at = MerklePath::from_parts(position, elems);
    builder.add_spend(FullViewingKey::from_bytes(fvk)?, n, at).ok()
}

/// `Builder::add_output` to a raw address, with no outgoing viewing key.
/// Returns whether the provider took the output: it is then the last of the
/// builder's outputs, and else the builder holds what it held. Anchor and
/// spends are not touched. A builder with outputs enabled takes every output
/// whose recipient `Address::from_raw_address_bytes` takes.
#[verifier::external_body]
pub(crate) fn builder_add_output(
    builder: &mut Builder,
    recipient: &[u8; 43],
    value: u64,
    memo: &[u8; 512],
) -> (taken: bool)
    ensures
        taken == address_decodes(recipient@),
        builder_anchor(*final(builder)) == builder_anchor(*old(builder)),
        builder_spends(*final(builder)) == builder_spends(*old(builder)),
        builder_outputs(*final(builder)) == if taken {
            builder_outputs(*old(builder)).push(ShieldedOutputView { recipient: recipient@, value })
        } else {
            builder_outputs(*old(builder))
        },
{
    match Address::from_raw_address_bytes(recipient).into_option() {
        Some(to) => builder.add_output(None, to, NoteValue::from_raw(value), *memo).is_ok(),
        None => false,
    }
}

/// `Builder::build` with the thread's random generator. The outer `None` is a
/// failed build; the inner `None` is a build that needed no bundle, which is
/// the build from neither spend nor output. A bundle is handed back as its
/// actions in wire form and its value balance. The actions depend on fresh
/// randomness, so of their content only this is claimed: the two ciphertexts
/// of each are copies of the provider's arrays of 580 and of 80 bytes. Their
/// number is that of the spends or of the outputs, whichever are more, and
/// at least two: what is missing is made up with notes of no value. So the
/// value balance is the sum of the values of the spent notes less the sum of
/// the values of the outputs.
#[verifier::external_body]
pub(crate) fn builder_finish(builder: Builder) -> (res: Option<Option<(Vec<Action>, i64)>>)
    ensures
        match res {
            Some(Some((actions, value_balance))) => {
                &&& forall|i: int|
                    0 <= i < actions@.len() ==> (#[trigger] actions@[i])@.widths_exact()
                &&& actions@.len() == bundle_size(
                    builder_spends(builder).len(),
                    builder_outputs(builder).len(),
                )
                &&& actions@.len() >= MIN_ACTIONS
                &&& value_balance == spends_value(builder_spends(builder)) - outputs_value(
                    builder_outputs(builder),
                )
            },
            Some(None) => builder_spends(builder).len() == 0 && builder_outputs(builder).len()
                == 0,
            None => builder_spends(builder).len() > 0 || builder_outputs(builder).len() > 0,
        },
{
    let built = builder.build::<i64>(rand::rng()).ok()?;
    Some(built.map(|(bundle, _)| (bundle.actions().iter().map(|a| Action {
        nf: a.nullifier().to_bytes(),
        rk: a.rk().into(),
        cmx: a.cmx().to_bytes(),
        epk_bytes: a.encrypted_note().epk_bytes,
        enc_ciphertext: a.encrypted_note().enc_ciphertext.0.to_vec(),
        out_ciphertext: a.encrypted_note().out_ciphertext.to_vec(),
        cv_net: a.cv_net().to_bytes(),
    }).collect(), *bundle.value_balance())))
}

} // verus!
