//! The spend of an output by its owner: the witness that the owner's key
//! gives, and the proof that the script machine accepts it.

use vstd::prelude::*;
use crate::crypto::{blake3_digest, ed25519_public_key, ed25519_signature, signature_valid};
use crate::errors::Error;
use crate::hexcode::{lemma_hex_round_trip, lower_hex, lower_hex_digit};
use crate::script::{
    checksig, is_white_space, lemma_two_tokens, no_white_space, op_checksig, run_script, tokens,
    truth, unlock_outcome, witness_accepted,
};
use crate::transaction::{
    TransactionView, any_confirmed, any_pending, first_unlock_failure, total_value,
};
use crate::utxo::{UtxoView, lock_script};

verus! {

/// The witness that unlocks the outputs of the holder of the secret
/// `seed`: the signature of the digest of the public key, a space, and
/// the public key, both in lower-case hexadecimal.
pub open spec fn witness_for(seed: [u8; 32]) -> Seq<char> {
    lower_hex(ed25519_signature(seed@, blake3_digest(ed25519_public_key(seed@)@)@)@) + " "@
        + lower_hex(ed25519_public_key(seed@)@)
}

/// A character of a locking script or of a witness that is no space: a
/// lower-case hexadecimal digit, a capital letter, or the underscore.
pub open spec fn script_char(c: char) -> bool {
    ('0' <= c <= '9') || ('a' <= c <= 'f') || ('A' <= c <= 'Z') || c == '_'
}

/// A script character is no white space.
proof fn lemma_script_char(c: char)
    requires
        script_char(c),
    ensures
        !is_white_space(c),
{
}

/// A text of script characters holds no white space.
proof fn lemma_script_text(text: Seq<char>)
    requires
        forall|i: int| 0 <= i < text.len() ==> script_char(#[trigger] text[i]),
    ensures
        no_white_space(text),
{
    assert forall|i: int| 0 <= i < text.len() implies !is_white_space(#[trigger] text[i]) by {
        lemma_script_char(text[i]);
    }
}

/// Lower-case hexadecimal text consists of script characters.
proof fn lemma_hex_is_script(data: Seq<u8>)
    ensures
        lower_hex(data).len() == 2 * data.len(),
        forall|i: int| 0 <= i < lower_hex(data).len() ==> script_char(#[trigger] lower_hex(data)[i]),
{
    assert forall|i: int| 0 <= i < lower_hex(data).len() implies script_char(
        #[trigger] lower_hex(data)[i],
    ) by {
        let v: u8 = if i % 2 == 0 {
            data[i / 2] / 16
        } else {
            data[i / 2] % 16
        };
        assert(v < 16);
        assert(lower_hex(data)[i] == lower_hex_digit(v));
    }
}

/// The script that locks to `key` has two tokens: the digest of the key
/// in hexadecimal, and the signature check.
proof fn lemma_lock_tokens(key: [u8; 32])
    ensures
        tokens(lock_script(key)) == seq![lower_hex(blake3_digest(key@)@), op_checksig()],
        lower_hex(blake3_digest(key@)@) != op_checksig(),
{
    broadcast use vstd::array::array_len_matches_n;

    let digest_text = lower_hex(blake3_digest(key@)@);
    reveal_strlit(" OP_CHECKSIG");
    reveal_strlit("OP_CHECKSIG");
    lemma_hex_is_script(blake3_digest(key@)@);
    assert(lock_script(key) =~= digest_text + seq![' '] + op_checksig());
    lemma_script_text(digest_text);
    lemma_script_text(op_checksig());
    lemma_two_tokens(digest_text, op_checksig());
    assert(digest_text.len() != op_checksig().len());
}

/// The witness of a key has two tokens: the signature and the public key,
/// both in hexadecimal.
proof fn lemma_witness_tokens(seed: [u8; 32])
    ensures
        tokens(witness_for(seed)) == seq![
            lower_hex(
                ed25519_signature(seed@, blake3_digest(ed25519_public_key(seed@)@)@)@,
            ),
            lower_hex(ed25519_public_key(seed@)@),
        ],
{
    broadcast use vstd::array::array_len_matches_n;

    let key_text = lower_hex(ed25519_public_key(seed@)@);
    let signature_text = lower_hex(
        ed25519_signature(seed@, blake3_digest(ed25519_public_key(seed@)@)@)@,
    );
    reveal_strlit(" ");
    lemma_hex_is_script(ed25519_public_key(seed@)@);
    lemma_hex_is_script(ed25519_signature(seed@, blake3_digest(ed25519_public_key(seed@)@)@)@);
    assert(witness_for(seed) =~= signature_text + seq![' '] + key_text);
    lemma_script_text(signature_text);
    lemma_script_text(key_text);
    lemma_two_tokens(signature_text, key_text);
}

/// The signature check accepts a stack that holds an accepted signature
/// of the digest of a key, the key, and the digest, all in lower-case
/// hexadecimal, and leaves `true`.
proof fn lemma_checksig_accepts(key: Seq<u8>, signature: Seq<u8>)
    requires
        witness_accepted(key, signature, blake3_digest(key)@),
    ensures
        checksig(seq![lower_hex(signature), lower_hex(key), lower_hex(blake3_digest(key)@)])
            == Ok::<Seq<Seq<char>>, Error>(seq![truth()]),
{
    let stack = seq![lower_hex(signature), lower_hex(key), lower_hex(blake3_digest(key)@)];
    lemma_hex_round_trip(key);
    lemma_hex_round_trip(signature);
    assert(stack.subrange(0, 0).push(truth()) =~= seq![truth()]);
}

/// What the script that locks to `key` decides of a witness: the digest
/// of the key in hexadecimal is pushed on the witness's tokens and the
/// signature is checked. An error of the check is the outcome; a check
/// that passes unlocks when the witness has exactly two tokens, and is
/// refused when it has more, for then more than `true` is left.
pub proof fn lemma_locked_to_key(key: [u8; 32], witness: Seq<char>)
    ensures
        unlock_outcome(lock_script(key), witness) == (match checksig(
            tokens(witness).push(lower_hex(blake3_digest(key@)@)),
        ) {
            Err(e) => Err::<(), Error>(e),
            Ok(_) => if tokens(witness).len() == 2 {
                Ok::<(), Error>(())
            } else {
                Err::<(), Error>(Error::InvalidUnlockingScript)
            },
        }),
        tokens(witness).len() < 2 ==> unlock_outcome(lock_script(key), witness) == Err::<
            (),
            Error,
        >(Error::InvalidUnlockingScript),
{
    let digest_text = lower_hex(blake3_digest(key@)@);
    lemma_lock_tokens(key);
    reveal_strlit("true");
    reveal_strlit("OP_CHECKSIG");
    let script = seq![digest_text, op_checksig()];
    let stack = tokens(witness).push(digest_text);
    assert(script.drop_first() =~= seq![op_checksig()]);
    assert(seq![op_checksig()].drop_first() =~= Seq::<Seq<char>>::empty());
    assert(run_script(tokens(witness), script) == run_script(stack, seq![op_checksig()]));
    match checksig(stack) {
        Err(e) => {
            assert(run_script(stack, seq![op_checksig()]) == Err::<Seq<Seq<char>>, Error>(e));
        },
        Ok(next) => {
            assert(run_script(next, Seq::<Seq<char>>::empty()) == Ok::<Seq<Seq<char>>, Error>(
                next,
            ));
            assert(run_script(stack, seq![op_checksig()]) == Ok::<Seq<Seq<char>>, Error>(next));
            assert(next.len() == stack.len() - 2);
            assert(next[next.len() - 1] == truth());
        },
    }
}

/// The holder of a key unlocks the outputs that are locked to the key:
/// where the signature that the key gives of the digest of its public half
/// is accepted under that public half, the script machine accepts the
/// key's witness for the script that locks to the public half.
pub proof fn lemma_owner_unlocks(seed: [u8; 32])
    requires
        signature_valid(
            ed25519_public_key(seed@)@,
            blake3_digest(ed25519_public_key(seed@)@)@,
            ed25519_signature(seed@, blake3_digest(ed25519_public_key(seed@)@)@)@,
        ),
    ensures
        unlock_outcome(lock_script(ed25519_public_key(seed@)), witness_for(seed)) == Ok::<
            (),
            Error,
        >(()),
{
    broadcast use vstd::array::array_len_matches_n;

    let key = ed25519_public_key(seed@);
    let digest = blake3_digest(key@);
    let signature = ed25519_signature(seed@, digest@);
    let key_text = lower_hex(key@);
    let digest_text = lower_hex(digest@);
    let signature_text = lower_hex(signature@);
    lemma_lock_tokens(key);
    lemma_witness_tokens(seed);
    lemma_checksig_accepts(key@, signature@);
    let script = seq![digest_text, op_checksig()];
    let start = seq![signature_text, key_text];
    let stack = seq![signature_text, key_text, digest_text];
    let last = seq![truth()];
    assert(start.push(digest_text) =~= stack);
    assert(script.drop_first() =~= seq![op_checksig()]);
    assert(seq![op_checksig()].drop_first() =~= Seq::<Seq<char>>::empty());
    assert(run_script(last, Seq::<Seq<char>>::empty()) == Ok::<
        Seq<Seq<char>>,
        Error,
    >(last));
    assert(run_script(stack, seq![op_checksig()]) == Ok::<Seq<Seq<char>>, Error>(
        last,
    ));
    assert(run_script(start, script) == Ok::<Seq<Seq<char>>, Error>(last));
}

/// Whether every output in `items` is confirmed and locked to `owner`.
pub open spec fn all_locked_to(items: Seq<UtxoView>, owner: [u8; 32]) -> bool {
    forall|i: int|
        0 <= i < items.len() ==> (#[trigger] items[i]) is Confirmed
            && items[i]->Confirmed_script_pubkey == lock_script(owner)
}

/// A witness that unlocks for one locking script fails on none of the
/// outputs that carry that script.
proof fn lemma_all_unlock(items: Seq<UtxoView>, owner: [u8; 32], witness: Seq<char>)
    requires
        all_locked_to(items, owner),
        unlock_outcome(lock_script(owner), witness) == Ok::<(), Error>(()),
    ensures
        first_unlock_failure(items, witness) is None,
    decreases items.len(),
{
    if items.len() > 0 {
        assert(items[0] is Confirmed);
        let tail = items.drop_first();
        assert forall|i: int| 0 <= i < tail.len() implies (#[trigger] tail[i]) is Confirmed
            && tail[i]->Confirmed_script_pubkey == lock_script(owner) by {
            assert(tail[i] == items[i + 1]);
        }
        lemma_all_unlock(tail, owner, witness);
    }
}

/// A valid spend verifies. Take a transaction whose sender is the public
/// half of a key, with inputs that are locked to the sender and outputs
/// that are pending, at least one of each, the outputs worth no more than
/// the inputs and the inputs no more than a `u64` holds. Where both the
/// signature of the sender's digest that the key gives and the signature
/// that the transaction carries are accepted under the sender's key,
/// verification with the key's witness returns the input total, the output
/// total and their difference.
pub proof fn lemma_valid_spend(t: TransactionView, seed: [u8; 32])
    requires
        t.sender == ed25519_public_key(seed@),
        t.inputs.len() > 0,
        t.outputs.len() > 0,
        all_locked_to(t.inputs, t.sender),
        !any_confirmed(t.outputs),
        total_value(t.outputs) <= total_value(t.inputs) <= u64::MAX,
        signature_valid(
            t.sender@,
            blake3_digest(t.sender@)@,
            ed25519_signature(seed@, blake3_digest(t.sender@)@)@,
        ),
        signature_valid(t.sender@, t.hash_id@, t.signature@),
    ensures
        t.verify_result(witness_for(seed)) == Ok::<(u64, u64, u64), Error>(
            (
                total_value(t.inputs) as u64,
                total_value(t.outputs) as u64,
                (total_value(t.inputs) - total_value(t.outputs)) as u64,
            ),
        ),
{
    lemma_owner_unlocks(seed);
    lemma_all_unlock(t.inputs, t.sender, witness_for(seed));
    assert(!any_pending(t.inputs));
}

} // verus!
