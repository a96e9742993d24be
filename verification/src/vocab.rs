//! The vocabulary: ordinary sub-word tokens plus the closed set of
//! special control tokens.
//!
//! Token ids are laid out in one contiguous range. Ids below the
//! sub-word count name sub-words; the ids above them are reserved, in
//! order: start-of-transcript, end-of-text, the translate and
//! transcribe task markers, the no-timestamps marker, one id per
//! language tag, and one id per timestamp position. Special ids never
//! collide with sub-word ids by construction, and detokenization
//! filters them out.

use vstd::prelude::*;
use vstd::string::StrSliceExecFns;
use vstd::string::StringExecFns;
use crate::error::TranscriptionError;

verus! {

/// Number of reserved ids that precede the language tags: the
/// start-of-transcript, end-of-text, translate, transcribe and
/// no-timestamps markers.
pub const FIXED_SPECIALS: usize = 5;

/// The closed enumeration of special control tokens.
#[derive(Clone, Copy, Debug, PartialEq, Eq, Structural)]
pub enum SpecialToken {
    /// Seeds every decoding run.
    StartOfTranscript,
    /// Terminates a decoding run.
    EndOfText,
    /// Marks the translation task.
    Translate,
    /// Marks the transcription task.
    Transcribe,
    /// Suppresses timestamp tokens.
    NoTimestamps,
    /// The language tag with the given index.
    Language(usize),
    /// The timestamp marker with the given index.
    Timestamp(usize),
}

/// An immutable mapping from token id to sub-word string, plus the
/// counts that fix the layout of the reserved id range.
pub struct Vocabulary {
    /// The sub-word strings; the id of a sub-word is its index here.
    pub words: Vec<String>,
    /// How many language tags the reserved range holds.
    pub n_languages: usize,
    /// How many timestamp markers the reserved range holds.
    pub n_timestamps: usize,
}

impl Vocabulary {
    /// The whole id range fits the machine word.
    pub open spec fn wf(self) -> bool {
        self.words@.len() + FIXED_SPECIALS + self.n_languages + self.n_timestamps <= usize::MAX
    }

    /// Number of ordinary sub-word ids.
    pub open spec fn spec_n_words(self) -> int {
        self.words@.len() as int
    }

    /// One-past-the-last valid token id, special ids included.
    pub open spec fn spec_total(self) -> int {
        self.spec_n_words() + FIXED_SPECIALS + self.n_languages + self.n_timestamps
    }

    /// The id of a special token.
    pub open spec fn spec_special_id(self, t: SpecialToken) -> int {
        match t {
            SpecialToken::StartOfTranscript => self.spec_n_words(),
            SpecialToken::EndOfText => self.spec_n_words() + 1,
            SpecialToken::Translate => self.spec_n_words() + 2,
            SpecialToken::Transcribe => self.spec_n_words() + 3,
            SpecialToken::NoTimestamps => self.spec_n_words() + 4,
            SpecialToken::Language(k) => self.spec_n_words() + FIXED_SPECIALS + k,
            SpecialToken::Timestamp(k) => self.spec_n_words() + FIXED_SPECIALS + self.n_languages
                + k,
        }
    }

    /// Whether a special token's index is inside the configured range.
    pub open spec fn spec_special_valid(self, t: SpecialToken) -> bool {
        match t {
            SpecialToken::Language(k) => k < self.n_languages,
            SpecialToken::Timestamp(k) => k < self.n_timestamps,
            _ => true,
        }
    }

    /// An id is special exactly when it lies in the reserved range
    /// above the sub-word ids.
    pub open spec fn spec_is_special(self, id: int) -> bool {
        self.spec_n_words() <= id < self.spec_total()
    }

    /// An id the vocabulary knows: sub-word or special.
    pub open spec fn spec_is_known(self, id: int) -> bool {
        0 <= id < self.spec_total()
    }

    /// Number of ordinary sub-word ids.
    pub fn n_words(&self) -> (n: usize)
        ensures
            n == self.spec_n_words(),
    {
        self.words.len()
    }

    /// One-past-the-last valid token id.
    pub fn total_size(&self) -> (n: usize)
        requires
            self.wf(),
        ensures
            n == self.spec_total(),
    {
        self.words.len() + FIXED_SPECIALS + self.n_languages + self.n_timestamps
    }

    /// The id of a special token.
    pub fn special_id(&self, t: SpecialToken) -> (id: usize)
        requires
            self.wf(),
            self.spec_special_valid(t),
        ensures
            id == self.spec_special_id(t),
            self.spec_is_special(id as int),
    {
        match t {
            SpecialToken::StartOfTranscript => self.words.len(),
            SpecialToken::EndOfText => self.words.len() + 1,
            SpecialToken::Translate => self.words.len() + 2,
            SpecialToken::Transcribe => self.words.len() + 3,
            SpecialToken::NoTimestamps => self.words.len() + 4,
            SpecialToken::Language(k) => self.words.len() + FIXED_SPECIALS + k,
            SpecialToken::Timestamp(k) => self.words.len() + FIXED_SPECIALS + self.n_languages
                + k,
        }
    }

    /// Classifies an id as special (reserved) or not.
    pub fn is_special(&self, id: usize) -> (r: bool)
        requires
            self.wf(),
        ensures
            r == self.spec_is_special(id as int),
    {
        self.words.len() <= id && id < self.total_size()
    }

    /// The text that a token sequence stands for, once every special
    /// and out-of-range id is filtered out: the concatenation of the
    /// sub-word strings of its ordinary ids.
    pub open spec fn text_of(self, toks: Seq<usize>) -> Seq<char>
        decreases toks.len(),
    {
        if toks.len() == 0 {
            Seq::empty()
        } else {
            let rest = self.text_of(toks.drop_last());
            if (toks.last() as int) < self.spec_n_words() {
                rest + self.words@[toks.last() as int]@
            } else {
                rest
            }
        }
    }

    /// Detokenizes a sequence: strips every special token, maps each
    /// remaining id to its sub-word string and concatenates.
    ///
    /// Fails with `UnknownTokenId` exactly when some id falls outside
    /// the loaded vocabulary range.
    pub fn decode_to_text(&self, tokens: &Vec<usize>) -> (r: Result<
        String,
        TranscriptionError,
    >)
        requires
            self.wf(),
        ensures
            r is Ok <==> (forall|i: int|
                0 <= i < tokens@.len() ==> self.spec_is_known(#[trigger] tokens@[i] as int)),
            r is Err ==> r->Err_0 == TranscriptionError::UnknownTokenId,
            r is Ok ==> r->Ok_0@ == self.text_of(tokens@),
    {
        let total = self.total_size();
        let mut out = String::new();
        let mut i: usize = 0;
        while i < tokens.len()
            invariant
                self.wf(),
                total == self.spec_total(),
                i <= tokens@.len(),
                forall|k: int| 0 <= k < i ==> self.spec_is_known(#[trigger] tokens@[k] as int),
                out@ == self.text_of(tokens@.subrange(0, i as int)),
            decreases tokens@.len() - i,
        {
            let t = tokens[i];
            if t >= total {
                return Err(TranscriptionError::UnknownTokenId);
            }
            if t < self.words.len() {
                out.append(self.words[t].as_str());
            }
            proof {
                assert(tokens@.subrange(0, i + 1).drop_last() =~= tokens@.subrange(0, i as int));
                assert(tokens@.subrange(0, i + 1).last() == tokens@[i as int]);
            }
            i = i + 1;
        }
        proof {
            assert(tokens@.subrange(0, tokens@.len() as int) =~= tokens@);
        }
        Ok(out)
    }

    /// Sub-word `j` matches the text at position `i`: it is non-empty
    /// and equal to the characters that start there.
    pub open spec fn word_matches_at(self, text: Seq<char>, i: int, j: int) -> bool {
        &&& 0 <= j < self.words@.len()
        &&& self.words@[j]@.len() > 0
        &&& i + self.words@[j]@.len() <= text.len()
        &&& text.subrange(i, i + self.words@[j]@.len()) == self.words@[j]@
    }

    /// Sub-word `j` is the match the forward mapping picks at
    /// position `i`: the longest one, and the lowest id among equally
    /// long ones.
    pub open spec fn is_best_match(self, text: Seq<char>, i: int, j: int) -> bool {
        &&& self.word_matches_at(text, i, j)
        &&& forall|k: int|
            #[trigger] self.word_matches_at(text, i, k) ==> self.words@[k]@.len()
                <= self.words@[j]@.len()
        &&& forall|k: int|
            #[trigger] self.word_matches_at(text, i, k) && self.words@[k]@.len()
                == self.words@[j]@.len() ==> j <= k
    }

    /// At most one sub-word is the best match at a position.
    pub proof fn lemma_best_match_unique(self, text: Seq<char>, i: int, j1: int, j2: int)
        requires
            self.is_best_match(text, i, j1),
            self.is_best_match(text, i, j2),
        ensures
            j1 == j2,
    {
    }

    /// The greedy forward mapping from position `i` on: repeatedly
    /// take the best match and move past it; `None` when some
    /// position has no matching sub-word.
    pub open spec fn spec_encode_from(self, text: Seq<char>, i: int) -> Option<Seq<usize>>
        decreases text.len() - i,
    {
        if i >= text.len() {
            Some(Seq::empty())
        } else if exists|j: int| self.is_best_match(text, i, j) {
            let j = choose|j: int| self.is_best_match(text, i, j);
            match self.spec_encode_from(text, i + self.words@[j]@.len()) {
                Some(rest) => Some(seq![j as usize] + rest),
                None => None,
            }
        } else {
            None
        }
    }

    /// The greedy forward mapping of a whole text.
    pub open spec fn spec_encode(self, text: Seq<char>) -> Option<Seq<usize>> {
        self.spec_encode_from(text, 0)
    }

    /// Maps a text to tokens by greedy longest-match over the
    /// sub-words: at each position the longest matching sub-word (the
    /// lowest id among ties) is taken. Returns `None` exactly when
    /// some position matches no sub-word, that is, when the text holds
    /// an out-of-vocabulary fragment.
    pub fn encode_text(&self, text: &str) -> (r: Option<Vec<usize>>)
        ensures
            r is Some ==> self.spec_encode(text@) == Some(r->0@),
            r is None ==> self.spec_encode(text@) is None,
    {
        let n = text.unicode_len();
        let mut toks: Vec<usize> = Vec::new();
        let mut i: usize = 0;
        while i < n
            invariant
                i <= n,
                n == text@.len(),
                (match self.spec_encode_from(text@, i as int) {
                    Some(rest) => self.spec_encode(text@) == Some(toks@ + rest),
                    None => self.spec_encode(text@) is None,
                }),
            decreases n - i,
        {
            let best = self.best_match_at(text, i, n);
            match best {
                None => {
                    proof {
                        assert(self.spec_encode_from(text@, i as int) is None);
                    }
                    return None;
                },
                Some((bj, bl)) => {
                    proof {
                        let j0 = choose|j: int| self.is_best_match(text@, i as int, j);
                        self.lemma_best_match_unique(text@, i as int, j0, bj as int);
                    }
                    let ghost old_toks = toks@;
                    toks.push(bj);
                    proof {
                        if self.spec_encode_from(text@, i + bl) is Some {
                            let rest = self.spec_encode_from(text@, i + bl)->0;
                            assert(old_toks + (seq![bj] + rest) =~= toks@ + rest);
                        }
                    }
                    i = i + bl;
                },
            }
        }
        proof {
            if self.spec_encode_from(text@, i as int) is Some {
                assert(toks@ + self.spec_encode_from(text@, i as int)->0 =~= toks@);
            }
        }
        Some(toks)
    }

    /// Scans the sub-words for the best match at position `i`:
    /// longest, then lowest id. Returns its id and its length.
    fn best_match_at(&self, text: &str, i: usize, n: usize) -> (r: Option<(usize, usize)>)
        requires
            i < n,
            n == text@.len(),
        ensures
            (match r {
                Some((bj, bl)) => self.is_best_match(text@, i as int, bj as int) && bj
                    < self.words@.len() && bl == self.words@[bj as int]@.len() && i + bl <= n,
                None => !(exists|j: int| self.is_best_match(text@, i as int, j)),
            }),
    {
        let mut best: Option<(usize, usize)> = None;
        let mut j: usize = 0;
        while j < self.words.len()
            invariant
                i < n,
                n == text@.len(),
                j <= self.words@.len(),
                (match best {
                    None => forall|k: int|
                        0 <= k < j ==> !self.word_matches_at(text@, i as int, k),
                    Some((bj, bl)) => {
                        &&& bj < j
                        &&& self.word_matches_at(text@, i as int, bj as int)
                        &&& bl == self.words@[bj as int]@.len()
                        &&& forall|k: int|
                            0 <= k < j && #[trigger] self.word_matches_at(text@, i as int, k)
                                ==> self.words@[k]@.len() <= bl
                        &&& forall|k: int|
                            0 <= k < j && #[trigger] self.word_matches_at(text@, i as int, k)
                                && self.words@[k]@.len() == bl ==> bj <= k
                    },
                }),
            decreases self.words@.len() - j,
        {
            let w = &self.words[j];
            let wl = w.as_str().unicode_len();
            let mut matches: bool = false;
            if wl > 0 && wl <= n - i {
                matches = str_matches_at(text, i, w.as_str(), wl);
            }
            proof {
                if !matches {
                    assert(!self.word_matches_at(text@, i as int, j as int));
                }
            }
            if matches {
                let replace: bool = match best {
                    None => true,
                    Some((_, bl)) => wl > bl,
                };
                if replace {
                    best = Some((j, wl));
                }
            }
            j = j + 1;
        }
        proof {
            if best is None {
                assert forall|j0: int| !self.is_best_match(text@, i as int, j0) by {
                    if self.is_best_match(text@, i as int, j0) {
                        assert(self.word_matches_at(text@, i as int, j0));
                    }
                }
            }
        }
        best
    }

    /// Decoding distributes over prepending one token.
    proof fn lemma_text_of_prepend(self, t: usize, rest: Seq<usize>)
        ensures
            self.text_of(seq![t] + rest) == (if (t as int) < self.spec_n_words() {
                self.words@[t as int]@
            } else {
                Seq::<char>::empty()
            }) + self.text_of(rest),
        decreases rest.len(),
    {
        let whole = seq![t] + rest;
        if rest.len() == 0 {
            assert(whole =~= seq![t]);
            assert(whole.drop_last() =~= Seq::<usize>::empty());
            assert(self.text_of(whole.drop_last()) + self.words@[t as int]@ =~= self.words@[t
                as int]@);
        } else {
            self.lemma_text_of_prepend(t, rest.drop_last());
            assert(whole.drop_last() =~= seq![t] + rest.drop_last());
            assert(whole.last() == rest.last());
            if (t as int) < self.spec_n_words() {
                if (rest.last() as int) < self.spec_n_words() {
                    assert((self.words@[t as int]@ + self.text_of(rest.drop_last()))
                        + self.words@[rest.last() as int]@ =~= self.words@[t as int]@
                        + (self.text_of(rest.drop_last()) + self.words@[rest.last() as int]@));
                }
            } else {
                if (rest.last() as int) < self.spec_n_words() {
                    assert((Seq::<char>::empty() + self.text_of(rest.drop_last()))
                        + self.words@[rest.last() as int]@ =~= Seq::<char>::empty()
                        + (self.text_of(rest.drop_last()) + self.words@[rest.last() as int]@));
                }
            }
        }
    }

    /// What the greedy forward mapping emits from position `i` on:
    /// ordinary ids only, whose sub-words concatenate back to exactly
    /// the remaining text.
    proof fn lemma_encode_from_props(self, text: Seq<char>, i: int, toks: Seq<usize>)
        requires
            self.wf(),
            0 <= i <= text.len(),
            self.spec_encode_from(text, i) == Some(toks),
        ensures
            forall|t: int| 0 <= t < toks.len() ==> (#[trigger] toks[t] as int) < self.spec_n_words(),
            self.text_of(toks) == text.subrange(i, text.len() as int),
        decreases text.len() - i,
    {
        if i >= text.len() {
            assert(text.subrange(i, text.len() as int) =~= Seq::<char>::empty());
        } else {
            let j = choose|j: int| self.is_best_match(text, i, j);
            assert(0 <= j < self.words@.len());
            assert(j == (j as usize) as int);
            let wl = self.words@[j]@.len() as int;
            let rest = self.spec_encode_from(text, i + wl)->0;
            self.lemma_encode_from_props(text, i + wl, rest);
            assert(toks == seq![j as usize] + rest);
            self.lemma_text_of_prepend(j as usize, rest);
            assert(text.subrange(i, text.len() as int) =~= text.subrange(i, i + wl)
                + text.subrange(i + wl, text.len() as int));
            assert(forall|t: int|
                0 <= t < toks.len() ==> (#[trigger] toks[t] as int) < self.spec_n_words());
        }
    }

    /// Law: a text the greedy forward mapping accepts round-trips.
    /// The emitted ids are all ordinary sub-word ids — known to the
    /// vocabulary and not special — and detokenization maps them back
    /// to exactly the original text.
    pub proof fn lemma_encode_round_trip(self, text: Seq<char>, toks: Seq<usize>)
        requires
            self.wf(),
            self.spec_encode(text) == Some(toks),
        ensures
            forall|t: int| 0 <= t < toks.len() ==> (#[trigger] toks[t] as int) < self.spec_n_words(),
            forall|t: int| 0 <= t < toks.len() ==> self.spec_is_known(#[trigger] toks[t] as int),
            forall|t: int| 0 <= t < toks.len() ==> !self.spec_is_special(#[trigger] toks[t] as int),
            self.text_of(toks) == text,
    {
        self.lemma_encode_from_props(text, 0, toks);
        assert(text.subrange(0, text.len() as int) =~= text);
    }

    /// Decoding the empty token sequence yields the empty text.
    pub proof fn lemma_empty_decodes_to_empty(self)
        ensures
            self.text_of(Seq::empty()) == Seq::<char>::empty(),
    {
    }

    /// Decoding a sequence of special tokens only yields the empty
    /// text: stripping them leaves nothing.
    pub proof fn lemma_special_only_decodes_to_empty(self, toks: Seq<usize>)
        requires
            forall|i: int| 0 <= i < toks.len() ==> self.spec_is_special(#[trigger] toks[i] as int),
        ensures
            self.text_of(toks) == Seq::<char>::empty(),
        decreases toks.len(),
    {
        if toks.len() > 0 {
            self.lemma_special_only_decodes_to_empty(toks.drop_last());
        }
    }
}

/// Compares the `wl` characters of `text` starting at `i` against the
/// sub-word `w`, character by character.
fn str_matches_at(text: &str, i: usize, w: &str, wl: usize) -> (r: bool)
    requires
        i + wl <= usize::MAX,
        i + wl <= text@.len(),
        wl == w@.len(),
    ensures
        r == (text@.subrange(i as int, i + wl) == w@),
{
    let mut k: usize = 0;
    while k < wl
        invariant
            k <= wl,
            i + wl <= usize::MAX,
            i + wl <= text@.len(),
            wl == w@.len(),
            forall|m: int| 0 <= m < k ==> text@[i + m] == w@[m],
        decreases wl - k,
    {
        if text.get_char(i + k) != w.get_char(k) {
            proof {
                assert(text@.subrange(i as int, i + wl)[k as int] == text@[i + k]);
            }
            return false;
        }
        k = k + 1;
    }
    proof {
        assert(text@.subrange(i as int, i + wl) =~= w@);
    }
    true
}

} // verus!
