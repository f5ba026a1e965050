//! Minimisation: what a detector needs of a path, and no more.
use crate::text::{chars_of, copy_range, find_last, last_of, lemma_last_of, pieces, split, text_of};
use vstd::prelude::*;

verus! {

/// What is left of a path: the extension of its last component, or `unknown`.
pub open spec fn bucket(value: Seq<char>) -> Seq<char> {
    let tail = value.skip(last_of(value, '\\', '/') + 1);
    let dot = last_of(tail, '.', '.');
    if 0 <= dot && dot + 1 < tail.len() {
        tail.skip(dot)
    } else {
        "unknown"@
    }
}

/// Coarsens a path to its extension: `C:\work\q3\invoice_2024.xlsx` becomes
/// `.xlsx`. Without an extension behind the final separator it is `unknown`, a
/// value callers can act on.
pub fn generalisation_bucket(value: &str) -> (kept: String)
    ensures
        kept@ == bucket(value@),
{
    let chars = chars_of(value);
    bucket_of(chars.as_slice())
}

fn bucket_of(chars: &[char]) -> (kept: String)
    ensures
        kept@ == bucket(chars@),
{
    let from: usize = find_last(chars, '\\', '/');
    let tail = copy_range(chars, from, chars.len());
    assert(tail@ == chars@.skip(from as int));
    let after: usize = find_last(tail.as_slice(), '.', '.');
    if after > 0 && after < tail.len() {
        let kept = copy_range(tail.as_slice(), after - 1, tail.len());
        assert(kept@ == tail@.skip(after - 1));
        text_of(kept.as_slice())
    } else {
        "unknown".to_string()
    }
}

/// Whether a token is a path.
pub open spec fn path_like(token: Seq<char>) -> bool {
    token.contains('\\') || token.contains('/')
}

/// A token of a detail, minimised.
pub open spec fn kept_token(token: Seq<char>) -> Seq<char> {
    if path_like(token) {
        bucket(token)
    } else {
        token
    }
}

/// The first `n` tokens, minimised, with a space between them.
pub open spec fn kept_tokens(tokens: Seq<Seq<char>>, n: nat) -> Seq<char>
    decreases n,
{
    if n == 0 {
        seq![]
    } else if n == 1 {
        kept_token(tokens[0])
    } else {
        kept_tokens(tokens, (n - 1) as nat) + " "@ + kept_token(tokens[n - 1])
    }
}

/// A detail whose paths are reduced to their extensions.
pub open spec fn minimised(detail: Seq<char>) -> Seq<char> {
    kept_tokens(pieces(detail, ' '), pieces(detail, ' ').len())
}

fn is_path(token: &[char]) -> (yes: bool)
    ensures
        yes == path_like(token@),
{
    let mut i: usize = 0;
    while i < token.len()
        invariant
            i <= token@.len(),
            forall|k: int| 0 <= k < i ==> token@[k] != '\\' && token@[k] != '/',
        decreases token@.len() - i,
    {
        if token[i] == '\\' || token[i] == '/' {
            assert(token@[i as int] == '\\' || token@[i as int] == '/');
            return true;
        }
        i += 1;
    }
    false
}

/// Keeps the shape of a detail and drops what identifies a person. A path says
/// something about an employee; its extension says something about a file, which
/// is all the detector needed.
pub fn minimise(detail: &str) -> (kept: String)
    ensures
        kept@ == minimised(detail@),
{
    let tokens = split(chars_of(detail).as_slice(), ' ');
    let ghost parts = pieces(detail@, ' ');
    let mut out = String::new();
    let mut i: usize = 0;
    while i < tokens.len()
        invariant
            i <= tokens@.len(),
            tokens@.len() == parts.len(),
            forall|k: int| 0 <= k < tokens@.len() ==> (#[trigger] tokens@[k])@ == parts[k],
            out@ == kept_tokens(parts, i as nat),
        decreases tokens@.len() - i,
    {
        assert(tokens@[i as int]@ == parts[i as int]);
        if i > 0 {
            out.push_str(" ");
        }
        let ghost before = out@;
        if is_path(tokens[i].as_slice()) {
            out.push_str(bucket_of(tokens[i].as_slice()).as_str());
        } else {
            out.push_str(text_of(tokens[i].as_slice()).as_str());
        }
        assert(out@ == before + kept_token(parts[i as int]));
        assert(i == 0 ==> out@ == kept_token(parts[0]));
        i += 1;
    }
    out
}

proof fn lemma_bucket_has_no_separator(value: Seq<char>)
    ensures
        !bucket(value).contains('\\') && !bucket(value).contains('/'),
{
    lemma_last_of(value, '\\', '/');
    let from = last_of(value, '\\', '/') + 1;
    let tail = value.skip(from);
    lemma_last_of(tail, '.', '.');
    reveal_strlit("unknown");
    let kept = bucket(value);
    assert forall|i: int| 0 <= i < kept.len() implies kept[i] != '\\' && kept[i] != '/' by {
        let dot = last_of(tail, '.', '.');
        if 0 <= dot && dot + 1 < tail.len() {
            assert(kept[i] == value[from + dot + i]);
        }
    }
}

proof fn lemma_kept_has_no_separator(tokens: Seq<Seq<char>>, n: nat)
    requires
        n <= tokens.len(),
    ensures
        !kept_tokens(tokens, n).contains('\\') && !kept_tokens(tokens, n).contains('/'),
    decreases n,
{
    reveal_strlit(" ");
    if n > 0 {
        lemma_bucket_has_no_separator(tokens[n - 1]);
        let last = kept_token(tokens[n - 1]);
        assert(!last.contains('\\') && !last.contains('/'));
        if n > 1 {
            lemma_kept_has_no_separator(tokens, (n - 1) as nat);
            let front = kept_tokens(tokens, (n - 1) as nat);
            let whole = kept_tokens(tokens, n);
            assert forall|i: int| 0 <= i < whole.len() implies whole[i] != '\\' && whole[i]
                != '/' by {
                if i < front.len() {
                    assert(front.contains(whole[i]));
                } else if i > front.len() {
                    assert(last.contains(whole[i]));
                }
            }
        }
    }
}

/// No path survives minimisation: nothing that is left holds a separator.
pub proof fn no_path_survives(detail: Seq<char>)
    ensures
        !path_like(minimised(detail)),
{
    lemma_kept_has_no_separator(pieces(detail, ' '), pieces(detail, ' ').len());
}

} // verus!
