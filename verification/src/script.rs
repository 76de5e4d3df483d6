//! The locking-script machine: whitespace-separated tokens evaluated on a
//! stack, with `OP_CHECKSIG` as the only operation.

use vstd::prelude::*;
use vstd::string::*;
use vstd::utf8::*;
use crate::errors::Error;
use crate::crypto::{blake3_digest, hash_bytes, signature_valid, verify_strict};
use crate::hexcode::{decode_hex, digest_hex, hex_decoded, is_hex_text, lower_hex};
use crate::utils::{convert_u8_to_u832, convert_u8_to_u864};

verus! {

/// Whether `c`, a character beyond ASCII, has the Unicode property
/// White_Space.
pub uninterp spec fn unicode_white_space(c: char) -> bool;

/// Whether `c` is white space among the ASCII characters: the space, and
/// the five characters from the tabulator, U+0009, to the carriage return,
/// U+000D.
pub open spec fn ascii_white_space(c: char) -> bool {
    c == ' ' || ('\u{9}' <= c && c <= '\u{d}')
}

/// Whether `c` is white space: among the ASCII characters the space and
/// U+0009 to U+000D, and beyond them what Unicode gives the property
/// White_Space.
pub open spec fn is_white_space(c: char) -> bool {
    if c <= '\u{7f}' {
        ascii_white_space(c)
    } else {
        unicode_white_space(c)
    }
}

/// Calls `char::is_whitespace`, which tests the Unicode property
/// White_Space. Of the ASCII characters, the space and U+0009 to U+000D
/// have the property and no other has it; beyond ASCII the contract names
/// the answer.
#[verifier::external_body]
fn is_whitespace(c: char) -> (r: bool)
    ensures
        r == (if c <= '\u{7f}' {
            ascii_white_space(c)
        } else {
            unicode_white_space(c)
        }),
{
    c.is_whitespace()
}

/// For each character of a text, whether it is white space.
pub open spec fn white_flags(text: Seq<char>) -> Seq<bool> {
    Seq::new(text.len(), |i: int| is_white_space(text[i]))
}

/// The maximal runs of `false` in `white`, from left to right, each as the
/// index at which it begins and the index behind its end.
pub open spec fn token_runs(white: Seq<bool>) -> Seq<(int, int)>
    decreases white.len(),
{
    if white.len() == 0 {
        Seq::empty()
    } else {
        let before = token_runs(white.drop_last());
        let n = white.len() as int;
        if white.last() {
            before
        } else if n >= 2 && !white[n - 2] {
            before.drop_last().push((before.last().0, n))
        } else {
            before.push((n - 1, n))
        }
    }
}

/// Whether `run` is a maximal run of `false` in `white`: it is not empty,
/// holds no `true`, and neither the flag in front of it nor the one behind
/// it is `false`.
pub open spec fn is_maximal_run(white: Seq<bool>, run: (int, int)) -> bool {
    &&& 0 <= run.0 < run.1 <= white.len()
    &&& forall|i: int| run.0 <= i < run.1 ==> !white[i]
    &&& (run.0 == 0 || white[run.0 - 1])
    &&& (run.1 == white.len() || white[run.1])
}

/// Whether the index `i` lies in one of `runs`.
pub open spec fn covered(runs: Seq<(int, int)>, i: int) -> bool {
    exists|k: int| 0 <= k < runs.len() && (#[trigger] runs[k]).0 <= i < runs[k].1
}

/// `token_runs` lists maximal runs of `false`, from left to right and
/// apart from each other, and every `false` lies in one of them.
pub proof fn lemma_token_runs(white: Seq<bool>)
    ensures
        forall|k: int|
            0 <= k < token_runs(white).len() ==> is_maximal_run(
                white,
                #[trigger] token_runs(white)[k],
            ),
        forall|k: int|
            0 <= k < token_runs(white).len() - 1 ==> (#[trigger] token_runs(white)[k]).1
                < token_runs(white)[k + 1].0,
        forall|i: int| 0 <= i < white.len() && !white[i] ==> #[trigger] covered(token_runs(white), i),
    decreases white.len(),
{
    if white.len() > 0 {
        let shorter = white.drop_last();
        let before = token_runs(shorter);
        let runs = token_runs(white);
        let n = white.len() as int;
        lemma_token_runs(shorter);
        assert forall|k: int| 0 <= k < before.len() implies before[k].1 <= n - 1 && (forall|
            i: int,
        |
            before[k].0 <= i < before[k].1 ==> !white[i]) && (before[k].0 == 0 || white[before[k].0
            - 1]) && (before[k].1 == n - 1 || white[before[k].1]) by {
            assert(is_maximal_run(shorter, before[k]));
            assert forall|i: int| before[k].0 <= i < before[k].1 implies !white[i] by {
                assert(shorter[i] == white[i]);
            }
            if before[k].0 > 0 {
                assert(shorter[before[k].0 - 1] == white[before[k].0 - 1]);
            }
            if before[k].1 < n - 1 {
                assert(shorter[before[k].1] == white[before[k].1]);
            }
        }
        if white.last() {
            assert forall|i: int| 0 <= i < n && !white[i] implies #[trigger] covered(runs, i) by {
                assert(shorter[i] == white[i]);
                assert(covered(before, i));
            }
        } else if n >= 2 && !white[n - 2] {
            assert(shorter[n - 2] == white[n - 2]);
            assert(covered(before, n - 2));
            let hit = choose|k: int| 0 <= k < before.len() && (#[trigger] before[k]).0 <= n - 2
                < before[k].1;
            assert(before[hit].1 == n - 1);
            if hit < before.len() - 1 {
                assert(before[hit].1 < before[hit + 1].0);
                assert(is_maximal_run(shorter, before[hit + 1]));
            }
            let last = before.len() - 1;
            assert(hit == last);
            assert forall|k: int| 0 <= k < runs.len() implies is_maximal_run(
                white,
                #[trigger] runs[k],
            ) by {
                if k < last {
                    assert(runs[k] == before[k]);
                    assert(before[k].1 < before[k + 1].0);
                }
            }
            assert forall|k: int| 0 <= k < runs.len() - 1 implies (#[trigger] runs[k]).1 < runs[k
                + 1].0 by {
                assert(runs[k] == before[k]);
                assert(before[k].1 < before[k + 1].0);
            }
            assert forall|i: int| 0 <= i < n && !white[i] implies #[trigger] covered(runs, i) by {
                if i < n - 1 {
                    assert(shorter[i] == white[i]);
                    assert(covered(before, i));
                    let k = choose|k: int| 0 <= k < before.len() && (#[trigger] before[k]).0 <= i
                        < before[k].1;
                    assert(runs[k].0 <= i < runs[k].1);
                } else {
                    assert(runs[last].0 <= i < runs[last].1);
                }
            }
        } else {
            let last = before.len() as int;
            assert(runs[last] == (n - 1, n));
            assert forall|k: int| 0 <= k < before.len() implies before[k].1 < n - 1 by {
                if before[k].1 == n - 1 {
                    assert(!white[n - 2]);
                }
            }
            assert forall|k: int| 0 <= k < runs.len() implies is_maximal_run(
                white,
                #[trigger] runs[k],
            ) by {
                if k < last {
                    assert(runs[k] == before[k]);
                }
            }
            assert forall|k: int| 0 <= k < runs.len() - 1 implies (#[trigger] runs[k]).1 < runs[k
                + 1].0 by {
                assert(runs[k] == before[k]);
                if k + 1 < last {
                    assert(runs[k + 1] == before[k + 1]);
                    assert(before[k].1 < before[k + 1].0);
                }
            }
            assert forall|i: int| 0 <= i < n && !white[i] implies #[trigger] covered(runs, i) by {
                if i < n - 1 {
                    assert(shorter[i] == white[i]);
                    assert(covered(before, i));
                    let k = choose|k: int| 0 <= k < before.len() && (#[trigger] before[k]).0 <= i
                        < before[k].1;
                    assert(runs[k] == before[k]);
                } else {
                    assert(runs[last].0 <= i < runs[last].1);
                }
            }
        }
    }
}

/// The tokens of a text: its maximal runs of characters that are not white
/// space, from left to right.
pub open spec fn tokens(text: Seq<char>) -> Seq<Seq<char>> {
    let runs = token_runs(white_flags(text));
    Seq::new(runs.len(), |k: int| text.subrange(runs[k].0, runs[k].1))
}

/// A run of `false` alone is one token.
proof fn lemma_one_run(white: Seq<bool>)
    requires
        white.len() > 0,
        forall|i: int| 0 <= i < white.len() ==> !white[i],
    ensures
        token_runs(white) == seq![(0int, white.len() as int)],
    decreases white.len(),
{
    let n = white.len() as int;
    if n == 1 {
        assert(white.drop_last() =~= Seq::<bool>::empty());
        assert(token_runs(white.drop_last()) =~= Seq::<(int, int)>::empty());
        assert(token_runs(white) =~= seq![(0int, 1int)]);
    } else {
        lemma_one_run(white.drop_last());
        assert(token_runs(white) =~= seq![(0int, n)]);
    }
}

/// Two runs of `false` with one `true` between them are two tokens.
proof fn lemma_two_runs(first: Seq<bool>, second: Seq<bool>)
    requires
        first.len() > 0,
        second.len() > 0,
        forall|i: int| 0 <= i < first.len() ==> !first[i],
        forall|i: int| 0 <= i < second.len() ==> !second[i],
    ensures
        token_runs(first + seq![true] + second) == seq![
            (0int, first.len() as int),
            ((first.len() + 1) as int, (first.len() + 1 + second.len()) as int),
        ],
    decreases second.len(),
{
    let white = first + seq![true] + second;
    let n = white.len() as int;
    let a = first.len() as int;
    if second.len() == 1 {
        assert(white.drop_last() =~= first + seq![true]);
        assert((first + seq![true]).drop_last() =~= first);
        lemma_one_run(first);
        assert(token_runs(first + seq![true]) == token_runs(first));
        assert(white[n - 2]);
        assert(token_runs(white) =~= seq![(0int, a), (a + 1, a + 2)]);
    } else {
        assert(white.drop_last() =~= first + seq![true] + second.drop_last());
        lemma_two_runs(first, second.drop_last());
        assert(!white[n - 2]);
        assert(token_runs(white) =~= seq![(0int, a), (a + 1, (a + 1 + second.len()) as int)]);
    }
}

/// Whether a text holds no white space.
pub open spec fn no_white_space(text: Seq<char>) -> bool {
    forall|i: int| 0 <= i < text.len() ==> !is_white_space(#[trigger] text[i])
}

/// A text without characters has no tokens.
pub proof fn lemma_no_tokens()
    ensures
        tokens(Seq::<char>::empty()) == Seq::<Seq<char>>::empty(),
{
    assert(white_flags(Seq::<char>::empty()) =~= Seq::<bool>::empty());
    assert(tokens(Seq::<char>::empty()) =~= Seq::<Seq<char>>::empty());
}

/// A text that holds characters and no white space is its only token.
pub proof fn lemma_one_token(text: Seq<char>)
    requires
        text.len() > 0,
        no_white_space(text),
    ensures
        tokens(text) == seq![text],
{
    lemma_one_run(white_flags(text));
    let runs = token_runs(white_flags(text));
    assert(text.subrange(runs[0].0, runs[0].1) =~= text);
    assert(tokens(text) =~= seq![text]);
}

/// A text of two parts without white space, with a space between them,
/// has the two parts as its tokens.
pub proof fn lemma_two_tokens(first: Seq<char>, second: Seq<char>)
    requires
        first.len() > 0,
        second.len() > 0,
        no_white_space(first),
        no_white_space(second),
    ensures
        tokens(first + seq![' '] + second) == seq![first, second],
{
    let text = first + seq![' '] + second;
    let a = white_flags(first);
    let b = white_flags(second);
    assert(is_white_space(' '));
    assert(white_flags(text) =~= a + seq![true] + b);
    lemma_two_runs(a, b);
    let runs = token_runs(white_flags(text));
    assert(text.subrange(runs[0].0, runs[0].1) =~= first);
    assert(text.subrange(runs[1].0, runs[1].1) =~= second);
    assert(tokens(text) =~= seq![first, second]);
}

/// The texts of a sequence of string slices.
pub open spec fn texts(items: Seq<&str>) -> Seq<Seq<char>> {
    Seq::new(items.len(), |i: int| items[i]@)
}

/// Index pairs as pairs of integers.
pub open spec fn run_bounds(runs: Seq<(usize, usize)>) -> Seq<(int, int)> {
    Seq::new(runs.len(), |k: int| (runs[k].0 as int, runs[k].1 as int))
}

/// The maximal runs of `false` in `white`, from left to right, each as the
/// index at which it begins and the index behind its end.
pub fn find_runs(white: &Vec<bool>) -> (runs: Vec<(usize, usize)>)
    ensures
        run_bounds(runs@) == token_runs(white@),
        forall|k: int| 0 <= k < runs@.len() ==> (#[trigger] runs@[k]).0 < runs@[k].1 <= white@.len(),
{
    let n = white.len();
    let mut runs: Vec<(usize, usize)> = Vec::new();
    let mut start: usize = 0;
    let mut inside = false;
    let mut i: usize = 0;
    assert(white@.subrange(0, 0) =~= Seq::<bool>::empty());
    assert(run_bounds(runs@) =~= token_runs(white@.subrange(0, 0)));
    while i < n
        invariant
            n == white@.len(),
            i <= n,
            inside ==> start < i && !white@[i - 1],
            !inside && i > 0 ==> white@[i - 1],
            inside ==> run_bounds(runs@).push((start as int, i as int)) == token_runs(
                white@.subrange(0, i as int),
            ),
            !inside ==> run_bounds(runs@) == token_runs(white@.subrange(0, i as int)),
            forall|k: int| 0 <= k < runs@.len() ==> (#[trigger] runs@[k]).0 < runs@[k].1 <= i,
        decreases n - i,
    {
        let flag = white[i];
        let ghost prefix = white@.subrange(0, i as int);
        let ghost next = white@.subrange(0, i + 1);
        proof {
            assert(next.drop_last() =~= prefix);
            assert(next.last() == flag);
            if i > 0 {
                assert(next[next.len() - 2] == white@[i - 1]);
            }
        }
        if flag {
            if inside {
                let ghost before = run_bounds(runs@);
                runs.push((start, i));
                assert(run_bounds(runs@) =~= before.push((start as int, i as int)));
                inside = false;
            }
        } else {
            if !inside {
                start = i;
                inside = true;
            } else {
                proof {
                    let before = token_runs(prefix);
                    assert(before == run_bounds(runs@).push((start as int, i as int)));
                    assert(before.drop_last() =~= run_bounds(runs@));
                    assert(before.last() == (start as int, i as int));
                }
            }
        }
        i += 1;
    }
    assert(white@.subrange(0, n as int) =~= white@);
    if inside {
        let ghost before = run_bounds(runs@);
        runs.push((start, n));
        assert(run_bounds(runs@) =~= before.push((start as int, n as int)));
    }
    runs
}

/// Splits a text into its tokens.
pub fn split_tokens<'a>(text: &'a str) -> (out: Vec<&'a str>)
    ensures
        texts(out@) == tokens(text@),
{
    let n = text.unicode_len();
    let mut white: Vec<bool> = Vec::new();
    let mut i: usize = 0;
    while i < n
        invariant
            n == text@.len(),
            i <= n,
            white@ == white_flags(text@).subrange(0, i as int),
        decreases n - i,
    {
        white.push(is_whitespace(text.get_char(i)));
        assert(white@ =~= white_flags(text@).subrange(0, i + 1));
        i += 1;
    }
    assert(white@ =~= white_flags(text@));
    let runs = find_runs(&white);
    let mut out: Vec<&'a str> = Vec::new();
    let mut k: usize = 0;
    while k < runs.len()
        invariant
            k <= runs@.len(),
            n == text@.len(),
            run_bounds(runs@) == token_runs(white_flags(text@)),
            forall|j: int| 0 <= j < runs@.len() ==> (#[trigger] runs@[j]).0 < runs@[j].1 <= n,
            texts(out@) == tokens(text@).subrange(0, k as int),
        decreases runs@.len() - k,
    {
        let (from, to) = runs[k];
        assert(run_bounds(runs@)[k as int] == (from as int, to as int));
        let token = text.substring_char(from, to);
        let ghost before = texts(out@);
        out.push(token);
        assert(texts(out@) =~= before.push(token@));
        assert(texts(out@) =~= tokens(text@).subrange(0, k + 1));
        k += 1;
    }
    assert(texts(out@) =~= tokens(text@));
    out
}

/// Whether two string slices hold the same text.
pub fn same_text(a: &str, b: &str) -> (r: bool)
    ensures
        r == (a@ == b@),
{
    let x = a.as_bytes();
    let y = b.as_bytes();
    proof {
        encode_utf8_decode_utf8(a@);
        encode_utf8_decode_utf8(b@);
    }
    if x.len() != y.len() {
        return false;
    }
    let mut i: usize = 0;
    while i < x.len()
        invariant
            i <= x@.len(),
            x@.len() == y@.len(),
            x@ == encode_utf8(a@),
            y@ == encode_utf8(b@),
            forall|j: int| 0 <= j < i ==> x@[j] == y@[j],
        decreases x@.len() - i,
    {
        if x[i] != y[i] {
            return false;
        }
        i += 1;
    }
    assert(x@ =~= y@);
    true
}

/// The token that asks for a signature check.
pub open spec fn op_checksig() -> Seq<char> {
    "OP_CHECKSIG"@
}

/// The token that a passed check leaves on the stack.
pub open spec fn truth() -> Seq<char> {
    "true"@
}

/// Whether `key` and `signature` have the lengths of an Ed25519 key and
/// signature and the signature is accepted for `message` under the key.
pub open spec fn witness_accepted(key: Seq<u8>, signature: Seq<u8>, message: Seq<u8>) -> bool {
    key.len() == 32 && signature.len() == 64 && signature_valid(key, message, signature)
}

/// What `OP_CHECKSIG` does to a stack. The top token is the expected hash of
/// the public key in lower-case hexadecimal, below it the public key and
/// below that the signature, both in hexadecimal. The signature must be one
/// of the key's digest under that key. The three tokens are replaced by
/// `true`.
pub open spec fn checksig(stack: Seq<Seq<char>>) -> Result<Seq<Seq<char>>, Error> {
    if stack.len() < 3 {
        Err(Error::InvalidUnlockingScript)
    } else {
        let n = stack.len() as int;
        let key_text = encode_utf8(stack[n - 2]);
        let signature_text = encode_utf8(stack[n - 3]);
        if !is_hex_text(key_text) || !is_hex_text(signature_text) {
            Err(Error::HexcodeError)
        } else {
            let key = hex_decoded(key_text);
            let digest = blake3_digest(key);
            if stack[n - 1] != lower_hex(digest@) {
                Err(Error::InvalidUnlockingScript)
            } else if !witness_accepted(key, hex_decoded(signature_text), digest@) {
                Err(Error::InvalidUnlockingScript)
            } else {
                Ok(stack.subrange(0, n - 3).push(truth()))
            }
        }
    }
}

/// The stack after the tokens of `script` have been processed in order on
/// `stack`: `OP_CHECKSIG` is executed, any other token is pushed.
pub open spec fn run_script(stack: Seq<Seq<char>>, script: Seq<Seq<char>>) -> Result<
    Seq<Seq<char>>,
    Error,
>
    decreases script.len(),
{
    if script.len() == 0 {
        Ok(stack)
    } else if script[0] == op_checksig() {
        match checksig(stack) {
            Ok(next) => run_script(next, script.drop_first()),
            Err(e) => Err(e),
        }
    } else {
        run_script(stack.push(script[0]), script.drop_first())
    }
}

/// The outcome of spending against `locking` with the witness `unlocking`:
/// the witness tokens are pushed, the locking script runs, and the spend is
/// accepted when exactly the token `true` is left.
pub open spec fn unlock_outcome(locking: Seq<char>, unlocking: Seq<char>) -> Result<(), Error> {
    match run_script(tokens(unlocking), tokens(locking)) {
        Ok(stack) => if stack.len() == 1 && stack[0] == truth() {
            Ok(())
        } else {
            Err(Error::InvalidUnlockingScript)
        },
        Err(e) => Err(e),
    }
}

/// Checks a public key and a signature over `message`, both given as byte
/// strings of any length.
pub fn verify_signature(public_key: &[u8], signature: &[u8], message: &[u8]) -> (r: Result<
    (),
    Error,
>)
    ensures
        r is Ok <==> witness_accepted(public_key@, signature@, message@),
        public_key@.len() != 32 ==> r == Err::<(), Error>(
            Error::InvalidU8Length(public_key.len()),
        ),
        public_key@.len() == 32 && signature@.len() != 64 ==> r == Err::<(), Error>(
            Error::InvalidU8Length(signature.len()),
        ),
        public_key@.len() == 32 && signature@.len() == 64 && !signature_valid(
            public_key@,
            message@,
            signature@,
        ) ==> r == Err::<(), Error>(Error::Signature),
{
    let key = match convert_u8_to_u832(public_key) {
        Ok(key) => key,
        Err(e) => { return Err(e); },
    };
    let sig = match convert_u8_to_u864(signature) {
        Ok(sig) => sig,
        Err(e) => { return Err(e); },
    };
    if verify_strict(&key, message, &sig) {
        Ok(())
    } else {
        Err(Error::Signature)
    }
}

/// Executes `OP_CHECKSIG` on the stack.
pub fn exec_checksig<'a>(stack: &mut Vec<&'a str>) -> (r: Result<(), Error>)
    ensures
        match checksig(texts(old(stack)@)) {
            Ok(next) => r is Ok && texts(final(stack)@) == next,
            Err(e) => r == Err::<(), Error>(e),
        },
{
    let n = stack.len();
    if n < 3 {
        return Err(Error::InvalidUnlockingScript);
    }
    let ghost before = texts(stack@);
    let key_hash: &str = stack[n - 1];
    let key_text: &str = stack[n - 2];
    let signature_text: &str = stack[n - 3];
    assert(before[n - 1] == key_hash@);
    assert(before[n - 2] == key_text@);
    assert(before[n - 3] == signature_text@);
    let public_key = decode_hex(key_text.as_bytes())?;
    let signature = decode_hex(signature_text.as_bytes())?;
    let digest = hash_bytes(public_key.as_slice());
    let expected = digest_hex(&digest);
    if !same_text(key_hash, expected.as_str()) {
        return Err(Error::InvalidUnlockingScript);
    }
    if verify_signature(public_key.as_slice(), signature.as_slice(), &digest).is_err() {
        return Err(Error::InvalidUnlockingScript);
    }
    stack.truncate(n - 3);
    stack.push("true");
    assert(texts(stack@) =~= before.subrange(0, n - 3).push(truth()));
    Ok(())
}

/// Runs the tokens of `script` on the stack.
pub fn exec_script<'a>(stack: &mut Vec<&'a str>, script: &Vec<&'a str>) -> (r: Result<(), Error>)
    ensures
        match run_script(texts(old(stack)@), texts(script@)) {
            Ok(last) => r is Ok && texts(final(stack)@) == last,
            Err(e) => r == Err::<(), Error>(e),
        },
{
    let mut i: usize = 0;
    assert(texts(script@).subrange(0, texts(script@).len() as int) =~= texts(script@));
    while i < script.len()
        invariant
            i <= script@.len(),
            run_script(texts(old(stack)@), texts(script@)) == run_script(
                texts(stack@),
                texts(script@).subrange(i as int, script@.len() as int),
            ),
        decreases script@.len() - i,
    {
        let token: &str = script[i];
        let ghost rest = texts(script@).subrange(i as int, script@.len() as int);
        proof {
            assert(rest[0] == token@);
            assert(rest.drop_first() =~= texts(script@).subrange(i + 1, script@.len() as int));
        }
        if same_text(token, "OP_CHECKSIG") {
            exec_checksig(stack)?;
        } else {
            let ghost before = texts(stack@);
            stack.push(token);
            assert(texts(stack@) =~= before.push(token@));
        }
        i += 1;
    }
    Ok(())
}

/// Evaluates a spend: pushes the tokens of `unlocking`, runs `locking`, and
/// accepts when the stack is left holding exactly `true`.
pub fn evaluate(locking: &str, unlocking: &str) -> (r: Result<(), Error>)
    ensures
        r == unlock_outcome(locking@, unlocking@),
{
    let mut stack = split_tokens(unlocking);
    let script = split_tokens(locking);
    exec_script(&mut stack, &script)?;
    if stack.len() == 1 && same_text(stack[0], "true") {
        Ok(())
    } else {
        Err(Error::InvalidUnlockingScript)
    }
}

} // verus!
