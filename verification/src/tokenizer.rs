//! Decode path of the checkpoint's BPE tokenizer with a Metaspace decoder.
use std::collections::{HashMap, HashSet};

use vstd::prelude::*;

use crate::text::{chars_of, push_str, str_equal, string_from_chars};

verus! {

broadcast use vstd::std_specs::hash::group_hash_axioms;

/// Errors of building or using the tokenizer.
#[derive(Debug, Clone, PartialEq, Eq)]
pub enum TokenizerError {
    /// The tokenizer model or decoder is not BPE with a Metaspace decoder;
    /// holds `"<model> + <decoder>"`.
    Unsupported(String),
    /// A token id is absent from the vocabulary.
    UnknownToken(u32),
}

/// The id-to-text table: the vocabulary entries in order, then the added
/// tokens in order, later entries overriding earlier ones for the same id.
pub open spec fn token_table(vocab: Seq<(String, u32)>, added: Seq<(u32, String, bool)>) -> Map<u32, Seq<char>>
    decreases vocab.len() + added.len(),
{
    if added.len() > 0 {
        token_table(vocab, added.drop_last()).insert(added.last().0, added.last().1@)
    } else if vocab.len() > 0 {
        token_table(vocab.drop_last(), added).insert(vocab.last().1, vocab.last().0@)
    } else {
        Map::empty()
    }
}

/// Ids of the added tokens flagged special.
pub open spec fn special_ids(added: Seq<(u32, String, bool)>) -> Set<u32>
    decreases added.len(),
{
    if added.len() == 0 {
        Set::empty()
    } else if added.last().2 {
        special_ids(added.drop_last()).insert(added.last().0)
    } else {
        special_ids(added.drop_last())
    }
}

/// The first id of `ids` that is neither padding nor blank and has no text.
pub open spec fn first_unknown(tokens: Map<u32, Seq<char>>, pad: u32, blank: u32, ids: Seq<u32>) -> Option<u32>
    decreases ids.len(),
{
    if ids.len() == 0 {
        None
    } else {
        match first_unknown(tokens, pad, blank, ids.drop_last()) {
            Some(id) => Some(id),
            None => {
                let id = ids.last();
                if id != pad && id != blank && !tokens.contains_key(id) { Some(id) } else { None }
            },
        }
    }
}

/// The concatenated texts of the ids that survive: not padding or blank,
/// and not special when language tags are stripped.
pub open spec fn kept_text(
    tokens: Map<u32, Seq<char>>,
    special: Set<u32>,
    pad: u32,
    blank: u32,
    strip: bool,
    ids: Seq<u32>,
) -> Seq<char>
    decreases ids.len(),
{
    if ids.len() == 0 {
        Seq::empty()
    } else {
        let id = ids.last();
        let before = kept_text(tokens, special, pad, blank, strip, ids.drop_last());
        if id == pad || id == blank || (strip && special.contains(id)) {
            before
        } else {
            before + tokens[id]
        }
    }
}

/// `text` with every non-overlapping occurrence of `pattern`, scanned left
/// to right, replaced by `replacement`; an empty pattern matches before
/// every character and at the end.
pub open spec fn replace_all(text: Seq<char>, pattern: Seq<char>, replacement: Seq<char>) -> Seq<char>
    decreases text.len(),
{
    if pattern.len() == 0 {
        if text.len() == 0 {
            replacement
        } else {
            replacement + seq![text[0]] + replace_all(text.drop_first(), pattern, replacement)
        }
    } else if text.len() < pattern.len() {
        text
    } else if text.subrange(0, pattern.len() as int) == pattern {
        replacement + replace_all(text.subrange(pattern.len() as int, text.len() as int), pattern, replacement)
    } else {
        seq![text[0]] + replace_all(text.drop_first(), pattern, replacement)
    }
}

/// `text` without its leading spaces.
pub open spec fn trim_leading_spaces(text: Seq<char>) -> Seq<char>
    decreases text.len(),
{
    if text.len() > 0 && text[0] == ' ' {
        trim_leading_spaces(text.drop_first())
    } else {
        text
    }
}

/// Whether `pattern` occurs in `text` at `at`.
fn matches_at(text: &Vec<char>, at: usize, pattern: &Vec<char>) -> (r: bool)
    requires
        at + pattern@.len() <= text@.len(),
    ensures
        r == (text@.subrange(at as int, at + pattern@.len()) == pattern@),
{
    let text_len = text.len();
    let mut k: usize = 0;
    while k < pattern.len()
        invariant
            text_len == text@.len(),
            at + pattern@.len() <= text@.len(),
            k <= pattern@.len(),
            forall|j: int| 0 <= j < k ==> text@[at + j] == pattern@[j],
        decreases pattern.len() - k,
    {
        if text[at + k] != pattern[k] {
            assert(text@.subrange(at as int, at + pattern@.len())[k as int] != pattern@[k as int]);
            return false;
        }
        k += 1;
    }
    assert(text@.subrange(at as int, at + pattern@.len()) =~= pattern@);
    true
}

/// Computes [`replace_all`].
pub fn replace_chars(text: &Vec<char>, pattern: &Vec<char>, replacement: &Vec<char>) -> (r: Vec<char>)
    ensures
        r@ == replace_all(text@, pattern@, replacement@),
{
    let n = text.len();
    let p = pattern.len();
    let mut out: Vec<char> = Vec::new();
    let mut i: usize = 0;
    proof {
        assert(text@.subrange(0, n as int) =~= text@);
        assert(out@ + replace_all(text@, pattern@, replacement@) =~= replace_all(text@, pattern@, replacement@));
    }
    while i < n
        invariant
            n == text@.len(),
            p == pattern@.len(),
            i <= n,
            out@ + replace_all(text@.subrange(i as int, n as int), pattern@, replacement@)
                == replace_all(text@, pattern@, replacement@),
        decreases n - i,
    {
        let ghost rest = text@.subrange(i as int, n as int);
        let ghost before = out@;
        if p == 0 {
            push_all(&mut out, replacement);
            out.push(text[i]);
            proof {
                assert(rest.drop_first() =~= text@.subrange(i + 1, n as int));
                assert(out@ + replace_all(text@.subrange(i + 1, n as int), pattern@, replacement@)
                    =~= before + replace_all(rest, pattern@, replacement@));
            }
            i += 1;
        } else if n - i < p {
            proof {
                assert(replace_all(rest, pattern@, replacement@) == rest);
            }
            let mut k: usize = i;
            while k < n
                invariant
                    i <= k <= n,
                    n == text@.len(),
                    out@ == before + text@.subrange(i as int, k as int),
                decreases n - k,
            {
                out.push(text[k]);
                k += 1;
                assert(out@ =~= before + text@.subrange(i as int, k as int));
            }
            proof {
                assert(text@.subrange(n as int, n as int) =~= Seq::<char>::empty());
                assert(replace_all(Seq::<char>::empty(), pattern@, replacement@) == Seq::<char>::empty());
                assert(out@ + replace_all(text@.subrange(n as int, n as int), pattern@, replacement@) =~= out@);
            }
            i = n;
        } else if matches_at(text, i, pattern) {
            push_all(&mut out, replacement);
            proof {
                assert(rest.subrange(0, p as int) =~= text@.subrange(i as int, i + p));
                assert(rest.subrange(p as int, rest.len() as int) =~= text@.subrange(i + p, n as int));
                assert(out@ + replace_all(text@.subrange(i + p, n as int), pattern@, replacement@)
                    =~= before + replace_all(rest, pattern@, replacement@));
            }
            i += p;
        } else {
            out.push(text[i]);
            proof {
                assert(rest.subrange(0, p as int) =~= text@.subrange(i as int, i + p));
                assert(rest.drop_first() =~= text@.subrange(i + 1, n as int));
                assert(out@ + replace_all(text@.subrange(i + 1, n as int), pattern@, replacement@)
                    =~= before + replace_all(rest, pattern@, replacement@));
            }
            i += 1;
        }
    }
    proof {
        assert(text@.subrange(n as int, n as int) =~= Seq::<char>::empty());
    }
    if p == 0 {
        let ghost before = out@;
        push_all(&mut out, replacement);
        proof {
            assert(replace_all(Seq::<char>::empty(), pattern@, replacement@) == replacement@);
        }
    } else {
        proof {
            assert(replace_all(Seq::<char>::empty(), pattern@, replacement@) =~= Seq::<char>::empty());
            assert(out@ + Seq::<char>::empty() =~= out@);
        }
    }
    out
}

/// Appends every character of `tail`.
fn push_all(out: &mut Vec<char>, tail: &Vec<char>)
    ensures
        final(out)@ == old(out)@ + tail@,
{
    let ghost start = out@;
    let mut k: usize = 0;
    while k < tail.len()
        invariant
            k <= tail@.len(),
            out@ == start + tail@.take(k as int),
        decreases tail.len() - k,
    {
        out.push(tail[k]);
        k += 1;
        assert(out@ =~= start + tail@.take(k as int));
    }
    assert(tail@.take(tail@.len() as int) =~= tail@);
}

/// Decode-only tokenizer.
#[derive(Debug)]
pub struct Tokenizer {
    tokens: HashMap<u32, String>,
    special: HashSet<u32>,
    replacement: String,
    pad_token_id: u32,
    blank_token_id: u32,
}

impl Tokenizer {
    /// Text of every known id.
    pub closed spec fn tokens_view(&self) -> Map<u32, Seq<char>> {
        self.tokens@.map_values(|s: String| s@)
    }

    /// Ids of the special tokens.
    pub closed spec fn special_view(&self) -> Set<u32> {
        self.special@
    }

    /// The Metaspace replacement character sequence.
    pub closed spec fn replacement_view(&self) -> Seq<char> {
        self.replacement@
    }

    /// Padding id, skipped when decoding.
    pub closed spec fn pad_view(&self) -> u32 {
        self.pad_token_id
    }

    /// RNNT blank id, skipped when decoding.
    pub closed spec fn blank_view(&self) -> u32 {
        self.blank_token_id
    }

    /// Builds the tokenizer from the parsed parts of `tokenizer.json`: the
    /// model and decoder types, the vocabulary `(text, id)` entries, the
    /// added `(id, text, special)` tokens and the Metaspace replacement.
    pub fn from_parts(
        model_kind: &str,
        decoder_kind: &str,
        vocab: Vec<(String, u32)>,
        added_tokens: Vec<(u32, String, bool)>,
        replacement: String,
        pad_token_id: u32,
        blank_token_id: u32,
    ) -> (r: Result<Self, TokenizerError>)
        ensures
            match r {
                Ok(t) => {
                    &&& model_kind@ == "BPE"@ && decoder_kind@ == "Metaspace"@
                    &&& t.tokens_view() == token_table(vocab@, added_tokens@)
                    &&& t.special_view() == special_ids(added_tokens@)
                    &&& t.replacement_view() == replacement@
                    &&& t.pad_view() == pad_token_id
                    &&& t.blank_view() == blank_token_id
                },
                Err(e) => {
                    &&& !(model_kind@ == "BPE"@ && decoder_kind@ == "Metaspace"@)
                    &&& e matches TokenizerError::Unsupported(message) && message@ == model_kind@ + " + "@ + decoder_kind@
                },
            },
    {
        if !(str_equal(model_kind, "BPE") && str_equal(decoder_kind, "Metaspace")) {
            let mut message = model_kind.to_owned();
            push_str(&mut message, " + ");
            push_str(&mut message, decoder_kind);
            return Err(TokenizerError::Unsupported(message));
        }
        let mut tokens: HashMap<u32, String> = HashMap::new();
        let mut k: usize = 0;
        while k < vocab.len()
            invariant
                k <= vocab@.len(),
                tokens@.map_values(|s: String| s@) == token_table(vocab@.take(k as int), Seq::empty()),
            decreases vocab.len() - k,
        {
            let text = vocab[k].0.clone();
            tokens.insert(vocab[k].1, text);
            proof {
                assert(vocab@.take(k + 1).drop_last() =~= vocab@.take(k as int));
                assert(tokens@.map_values(|s: String| s@) =~= token_table(vocab@.take(k + 1), Seq::empty()));
            }
            k += 1;
        }
        proof {
            assert(vocab@.take(vocab@.len() as int) =~= vocab@);
        }
        let mut special: HashSet<u32> = HashSet::new();
        let mut a: usize = 0;
        proof {
            assert(added_tokens@.take(0) =~= Seq::<(u32, String, bool)>::empty());
            assert(special@ =~= special_ids(added_tokens@.take(0)));
        }
        while a < added_tokens.len()
            invariant
                a <= added_tokens@.len(),
                tokens@.map_values(|s: String| s@) == token_table(vocab@, added_tokens@.take(a as int)),
                special@ == special_ids(added_tokens@.take(a as int)),
            decreases added_tokens.len() - a,
        {
            let id = added_tokens[a].0;
            let text = added_tokens[a].1.clone();
            let is_special = added_tokens[a].2;
            tokens.insert(id, text);
            if is_special {
                special.insert(id);
            }
            proof {
                assert(added_tokens@.take(a + 1).drop_last() =~= added_tokens@.take(a as int));
                assert(tokens@.map_values(|s: String| s@) =~= token_table(vocab@, added_tokens@.take(a + 1)));
                assert(special@ =~= special_ids(added_tokens@.take(a + 1)));
            }
            a += 1;
        }
        proof {
            assert(added_tokens@.take(added_tokens@.len() as int) =~= added_tokens@);
        }
        Ok(Tokenizer { tokens, special, replacement, pad_token_id, blank_token_id })
    }

    /// Maps token ids to text and applies the Metaspace decoder: skips
    /// padding and blank, optionally drops special tokens (language tags),
    /// turns the replacement character into spaces and trims leading spaces.
    pub fn decode(&self, ids: &[u32], strip_language_tag: bool) -> (r: Result<String, TokenizerError>)
        ensures
            match first_unknown(self.tokens_view(), self.pad_view(), self.blank_view(), ids@) {
                Some(id) => r == Err::<String, TokenizerError>(TokenizerError::UnknownToken(id)),
                None => r matches Ok(text) && text@ == trim_leading_spaces(replace_all(
                    kept_text(self.tokens_view(), self.special_view(), self.pad_view(), self.blank_view(),
                        strip_language_tag, ids@),
                    self.replacement_view(),
                    seq![' '],
                )),
            },
    {
        let mut pieces: Vec<char> = Vec::new();
        let mut k: usize = 0;
        while k < ids.len()
            invariant
                k <= ids@.len(),
                first_unknown(self.tokens_view(), self.pad_view(), self.blank_view(), ids@.take(k as int)) is None,
                pieces@ == kept_text(self.tokens_view(), self.special_view(), self.pad_view(), self.blank_view(),
                    strip_language_tag, ids@.take(k as int)),
            decreases ids.len() - k,
        {
            let id = ids[k];
            proof {
                assert(ids@.take(k + 1).drop_last() =~= ids@.take(k as int));
                assert(ids@.take(k + 1).last() == id);
            }
            if id != self.pad_token_id && id != self.blank_token_id {
                match self.tokens.get(&id) {
                    None => {
                        proof {
                            lemma_first_unknown_prefix(self.tokens_view(), self.pad_view(), self.blank_view(), ids@, k + 1);
                        }
                        return Err(TokenizerError::UnknownToken(id));
                    },
                    Some(token) => {
                        if !(strip_language_tag && self.special.contains(&id)) {
                            let chars = chars_of(token.as_str());
                            let ghost before = pieces@;
                            let mut c: usize = 0;
                            while c < chars.len()
                                invariant
                                    c <= chars@.len(),
                                    pieces@ == before + chars@.take(c as int),
                                decreases chars.len() - c,
                            {
                                pieces.push(chars[c]);
                                c += 1;
                                assert(pieces@ =~= before + chars@.take(c as int));
                            }
                            assert(chars@.take(chars@.len() as int) =~= chars@);
                        }
                    },
                }
            }
            k += 1;
        }
        proof {
            assert(ids@.take(ids@.len() as int) =~= ids@);
        }
        let pattern = chars_of(self.replacement.as_str());
        let space = vec![' '];
        assert(space@ =~= seq![' ']);
        let replaced = replace_chars(&pieces, &pattern, &space);
        let mut start: usize = 0;
        proof {
            assert(replaced@.subrange(0, replaced@.len() as int) =~= replaced@);
        }
        while start < replaced.len() && replaced[start] == ' '
            invariant
                start <= replaced@.len(),
                trim_leading_spaces(replaced@) == trim_leading_spaces(replaced@.subrange(start as int, replaced@.len() as int)),
            decreases replaced.len() - start,
        {
            proof {
                let rest = replaced@.subrange(start as int, replaced@.len() as int);
                assert(rest.drop_first() =~= replaced@.subrange(start + 1, replaced@.len() as int));
            }
            start += 1;
        }
        let kept = crate::seqs::copy_range(replaced.as_slice(), start, replaced.len());
        proof {
            let rest = replaced@.subrange(start as int, replaced@.len() as int);
            assert(trim_leading_spaces(rest) == rest);
        }
        Ok(string_from_chars(kept.as_slice()))
    }
}

/// Once a prefix holds an unknown id, so does every longer prefix, with the
/// same first one.
proof fn lemma_first_unknown_prefix(tokens: Map<u32, Seq<char>>, pad: u32, blank: u32, ids: Seq<u32>, count: int)
    requires
        0 <= count <= ids.len(),
        first_unknown(tokens, pad, blank, ids.take(count)) is Some,
    ensures
        first_unknown(tokens, pad, blank, ids) == first_unknown(tokens, pad, blank, ids.take(count)),
    decreases ids.len() - count,
{
    if count < ids.len() {
        assert(ids.take(count + 1).drop_last() =~= ids.take(count));
        lemma_first_unknown_prefix(tokens, pad, blank, ids, count + 1);
    } else {
        assert(ids.take(count) =~= ids);
    }
}

/// Stripping language tags drops every special token wherever it stands
/// among the ids, and nothing else: the kept text with stripping is the
/// kept text, without stripping, of the ids with every special id removed.
pub proof fn lemma_strip_drops_every_special(
    tokens: Map<u32, Seq<char>>,
    special: Set<u32>,
    pad: u32,
    blank: u32,
    ids: Seq<u32>,
)
    ensures
        kept_text(tokens, special, pad, blank, true, ids) == kept_text(
            tokens,
            special,
            pad,
            blank,
            false,
            ids.filter(|id: u32| !special.contains(id)),
        ),
    decreases ids.len(),
{
    reveal_with_fuel(Seq::<u32>::filter, 1);
    if ids.len() > 0 {
        lemma_strip_drops_every_special(tokens, special, pad, blank, ids.drop_last());
        let rest = ids.drop_last().filter(|id: u32| !special.contains(id));
        if !special.contains(ids.last()) {
            assert(ids.filter(|id: u32| !special.contains(id)) == rest.push(ids.last()));
            assert(rest.push(ids.last()).drop_last() =~= rest);
        }
    }
}

} // verus!
