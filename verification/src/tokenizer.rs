//! N-gram tokenization of text into lower-cased terms.

use arrayvec::ArrayString;
use std::cmp::Ordering;
use vstd::prelude::*;
use vstd::std_specs::cmp::{PartialEqSpecImpl, PartialOrdSpecImpl};
use vstd::string::StringSliceAdditionalSpecFns;
use vstd::utf8::*;

use crate::lexical::{bytes_equal, lex_less, lex_lt};
use crate::scalars::{
    byte_offset_of, lemma_encode_injective, lemma_encode_split, lemma_prefix_ends,
    lemma_prefix_is_boundary, lemma_prefix_step, scalar_width,
};

verus! {

/// Longest term, in bytes, that is kept inline.
pub const MAX_LEN: usize = 15;

/// `arrayvec::ArrayString`, a string of at most `CAP` bytes that is stored
/// inline. Nothing of its inside is known here.
#[verifier::external_type_specification]
#[verifier::external_body]
pub struct ExArrayString<const CAP: usize>(ArrayString<CAP>);

/// The text held by an inline string.
pub uninterp spec fn inline_text(s: ArrayString<MAX_LEN>) -> Seq<char>;

/// `arrayvec::ArrayString::from`: copies `data` into a new inline string.
/// The source accepts every text of at most as many bytes as the capacity,
/// and the new string then holds exactly that text.
#[verifier::external_body]
fn inline_from(data: &str) -> (r: ArrayString<MAX_LEN>)
    requires
        data.spec_bytes().len() <= MAX_LEN,
    ensures
        inline_text(r) == data@,
{
    ArrayString::<MAX_LEN>::from(data).unwrap()
}

/// `arrayvec::ArrayString::as_str`: the text held by an inline string, as a
/// string slice.
#[verifier::external_body]
fn inline_as_str(s: &ArrayString<MAX_LEN>) -> (r: &str)
    ensures
        r@ == inline_text(*s),
{
    s.as_str()
}

/// One term. Short terms are kept inline, longer ones on the heap; which of
/// the two holds a term does not show in comparisons.
#[derive(Debug)]
pub enum Token {
    Stack(ArrayString<MAX_LEN>),
    Heap(String),
}

impl View for Token {
    type V = Seq<char>;

    /// The text of the term.
    open spec fn view(&self) -> Seq<char> {
        match self {
            Token::Stack(s) => inline_text(*s),
            Token::Heap(s) => s@,
        }
    }
}

impl Token {
    /// The bytes of the term: the UTF-8 encoding of its text.
    pub open spec fn bytes(&self) -> Seq<u8> {
        encode_utf8(self@)
    }

    /// The term is held inline exactly if it is short enough.
    pub open spec fn wf(&self) -> bool {
        self is Stack <==> self.bytes().len() <= MAX_LEN
    }

    /// The term with the text `data`.
    pub fn from_str(data: &str) -> (t: Token)
        ensures
            t@ == data@,
            t.wf(),
    {
        if data.as_bytes().len() <= MAX_LEN {
            Token::Stack(inline_from(data))
        } else {
            Token::Heap(data.to_owned())
        }
    }

    /// The text of the term.
    pub fn to_str(&self) -> (r: &str)
        ensures
            r@ == self@,
    {
        match self {
            Token::Stack(s) => inline_as_str(s),
            Token::Heap(s) => s.as_str(),
        }
    }

    /// The bytes of the term.
    pub fn as_bytes(&self) -> (r: &[u8])
        ensures
            r@ == self.bytes(),
    {
        self.to_str().as_bytes()
    }
}

impl PartialEq for Token {
    fn eq(&self, other: &Token) -> (r: bool) {
        proof {
            if self.bytes() == other.bytes() {
                lemma_encode_injective(self@, other@);
            }
        }
        bytes_equal(self.as_bytes(), other.as_bytes())
    }
}

impl PartialEqSpecImpl for Token {
    open spec fn obeys_eq_spec() -> bool {
        true
    }

    /// Two terms are equal exactly if they hold the same text.
    open spec fn eq_spec(&self, other: &Token) -> bool {
        self@ == other@
    }
}

impl<'a> PartialEq<&'a str> for Token {
    fn eq(&self, other: &&'a str) -> (r: bool) {
        proof {
            if self.bytes() == other.spec_bytes() {
                lemma_encode_injective(self@, other@);
            }
        }
        bytes_equal(self.as_bytes(), other.as_bytes())
    }
}

impl<'a> PartialEqSpecImpl<&'a str> for Token {
    open spec fn obeys_eq_spec() -> bool {
        true
    }

    /// A term equals a string slice exactly if it holds that text.
    open spec fn eq_spec(&self, other: &&'a str) -> bool {
        self@ == other@
    }
}

impl AsRef<[u8]> for Token {
    fn as_ref(&self) -> (r: &[u8])
        ensures
            r@ == self.bytes(),
    {
        self.as_bytes()
    }
}

impl Eq for Token {

}

impl PartialOrd for Token {
    fn partial_cmp(&self, other: &Token) -> (r: Option<Ordering>) {
        proof {
            if self.bytes() == other.bytes() {
                lemma_encode_injective(self@, other@);
            }
        }
        let a = self.as_bytes();
        let b = other.as_bytes();
        if lex_less(a, b) {
            Some(Ordering::Less)
        } else if bytes_equal(a, b) {
            Some(Ordering::Equal)
        } else {
            Some(Ordering::Greater)
        }
    }
}

impl PartialOrdSpecImpl for Token {
    open spec fn obeys_partial_cmp_spec() -> bool {
        true
    }

    /// Terms are ordered by their bytes, lexicographically.
    open spec fn partial_cmp_spec(&self, other: &Token) -> Option<Ordering> {
        if lex_lt(self.bytes(), other.bytes()) {
            Some(Ordering::Less)
        } else if self@ == other@ {
            Some(Ordering::Equal)
        } else {
            Some(Ordering::Greater)
        }
    }
}

/// Why a tokenizer could not be made.
#[derive(Debug, Clone, Copy, PartialEq, Eq, Structural)]
pub enum ConfigurationError {
    /// The n-gram width was less than one.
    WidthBelowOne,
}

impl ConfigurationError {
    /// What went wrong, in words.
    pub fn message(&self) -> (r: String)
        ensures
            r@ == "Can't be less than 1"@,
    {
        "Can't be less than 1".to_owned()
    }
}

/// The lower-case form of a text.
pub uninterp spec fn lowercase(text: Seq<char>) -> Seq<char>;

/// `str::to_lowercase` returns the lower-case form of the slice as a new
/// string. The mapping follows the Unicode tables and is named here, not
/// spelled out.
pub assume_specification[ str::to_lowercase ](s: &str) -> (r: String)
    ensures
        r@ == lowercase(s@),
;

/// Number of n-grams of width `n` in `text`: one for each window of `n`
/// consecutive scalar values, none where the text is shorter than that.
pub open spec fn ngram_count(text: Seq<char>, n: nat) -> nat {
    if text.len() >= n {
        (text.len() - n + 1) as nat
    } else {
        0
    }
}

/// The n-grams of width `n` of `text`, in order: the `i`-th is the lower-case
/// form of the `n` scalar values that start at index `i`.
pub open spec fn ngrams(text: Seq<char>, n: nat) -> Seq<Seq<char>> {
    Seq::new(ngram_count(text, n), |i: int| lowercase(text.subrange(i, i + n)))
}

/// A strategy that turns a text into a sequence of terms.
pub trait Tokenizer<'a> {
    type TokenIterator;

    fn tokenize(&self, data: &'a str) -> Self::TokenIterator;
}

/// Splits a text into overlapping n-grams of a fixed width.
pub struct NGramTokenizer {
    ngram_size: usize,
}

impl NGramTokenizer {
    #[verifier::type_invariant]
    spec fn inv(&self) -> bool {
        self.ngram_size >= 1
    }

    /// The n-gram width.
    pub closed spec fn width(&self) -> nat {
        self.ngram_size as nat
    }

    /// A tokenizer for n-grams of `ngram_size` scalar values.
    pub fn new(ngram_size: usize) -> (r: Result<NGramTokenizer, ConfigurationError>)
        ensures
            ngram_size >= 1 <==> r is Ok,
            r matches Ok(t) ==> t.width() == ngram_size,
            r matches Err(e) ==> e == ConfigurationError::WidthBelowOne,
    {
        if ngram_size < 1 {
            return Err(ConfigurationError::WidthBelowOne);
        }
        Ok(NGramTokenizer { ngram_size })
    }
}

/// The n-grams of a text that are still to come, produced one at a time.
#[derive(Debug, PartialEq)]
pub struct NGramIter<'a> {
    data: &'a str,
    ngram_size: usize,
}

impl<'a> NGramIter<'a> {
    #[verifier::type_invariant]
    spec fn inv(&self) -> bool {
        self.ngram_size >= 1
    }

    /// The texts of the terms that are still to come, in order.
    pub closed spec fn remaining(&self) -> Seq<Seq<char>> {
        ngrams(self.data@, self.ngram_size as nat)
    }

    fn new(ngram_size: usize, data: &'a str) -> (r: NGramIter<'a>)
        requires
            ngram_size >= 1,
        ensures
            r.remaining() == ngrams(data@, ngram_size as nat),
    {
        NGramIter { data, ngram_size }
    }

    /// The next term, or `None` once no window of the full width is left.
    pub fn next(&mut self) -> (r: Option<Token>)
        ensures
            match r {
                Some(t) => old(self).remaining().len() > 0 && t@ == old(self).remaining()[0]
                    && t.wf() && final(self).remaining() == old(self).remaining().drop_first(),
                None => old(self).remaining().len() == 0 && *final(self) == *old(self),
            },
    {
        proof {
            use_type_invariant(&*self);
        }
        let n: usize = self.ngram_size;
        let data: &'a str = self.data;
        let ghost text = data@;
        match byte_offset_of(data, n) {
            None => None,
            Some(end) => {
                proof {
                    lemma_prefix_is_boundary(text, n as int);
                    lemma_prefix_is_boundary(text, 1);
                    lemma_encode_split(text, n as int);
                    lemma_encode_split(text, 1);
                    lemma_prefix_ends(text);
                    lemma_prefix_step(text, 0);
                }
                let (window, _) = data.split_at(end);
                let first: usize = scalar_width(data.as_bytes()[0]);
                let (_, rest) = data.split_at(first);
                proof {
                    lemma_encode_injective(window@, text.subrange(0, n as int));
                    lemma_encode_injective(rest@, text.subrange(1, text.len() as int));
                    lemma_ngrams_slide(text, n as nat);
                }
                let lowered = window.to_lowercase();
                let token = Token::from_str(lowered.as_str());
                self.data = rest;
                Some(token)
            },
        }
    }

    /// All the terms that are still to come, in order.
    pub fn collect(self) -> (r: Vec<Token>)
        ensures
            r@.len() == self.remaining().len(),
            forall|i: int| 0 <= i < r@.len() ==> #[trigger] r@[i]@ == self.remaining()[i],
            forall|i: int| 0 <= i < r@.len() ==> (#[trigger] r@[i]).wf(),
    {
        let ghost all = self.remaining();
        let mut it = self;
        let mut out: Vec<Token> = Vec::new();
        loop
            invariant
                out@.len() + it.remaining().len() == all.len(),
                it.remaining() == all.subrange(out@.len() as int, all.len() as int),
                forall|i: int| 0 <= i < out@.len() ==> #[trigger] out@[i]@ == all[i],
                forall|i: int| 0 <= i < out@.len() ==> (#[trigger] out@[i]).wf(),
            ensures
                out@.len() == all.len(),
                forall|i: int| 0 <= i < out@.len() ==> #[trigger] out@[i]@ == all[i],
                forall|i: int| 0 <= i < out@.len() ==> (#[trigger] out@[i]).wf(),
            decreases it.remaining().len(),
        {
            match it.next() {
                None => {
                    break ;
                },
                Some(token) => {
                    out.push(token);
                },
            }
        }
        out
    }
}

/// Moving the window start by one scalar value drops the first n-gram and
/// keeps the others.
pub proof fn lemma_ngrams_slide(text: Seq<char>, n: nat)
    requires
        n >= 1,
        text.len() >= n,
    ensures
        ngrams(text.subrange(1, text.len() as int), n) == ngrams(text, n).drop_first(),
        ngrams(text, n).len() > 0,
        ngrams(text, n)[0] == lowercase(text.subrange(0, n as int)),
{
    let rest = text.subrange(1, text.len() as int);
    assert forall|i: int| 0 <= i < ngram_count(rest, n) implies #[trigger] ngrams(rest, n)[i]
        == ngrams(text, n)[i + 1] by {
        assert(rest.subrange(i, i + n) =~= text.subrange(i + 1, i + 1 + n));
    }
    assert(ngrams(rest, n) =~= ngrams(text, n).drop_first());
}

/// A text of `len` scalar values has `len - n + 1` n-grams of width `n`, and
/// none where that is negative; the `i`-th is the lower-case form of the `n`
/// scalar values from index `i` on.
pub proof fn lemma_ngram_count(text: Seq<char>, n: nat)
    requires
        n >= 1,
    ensures
        ngrams(text, n).len() == if text.len() - n + 1 > 0 {
            text.len() - n + 1
        } else {
            0
        },
        forall|i: int|
            0 <= i < ngrams(text, n).len() ==> #[trigger] ngrams(text, n)[i] == lowercase(
                text.subrange(i, i + n),
            ) && text.subrange(i, i + n).len() == n,
{
}

/// Tokenizing the same text with the same width again gives the same terms:
/// what an iterator has to give depends on the text and the width alone.
pub proof fn lemma_tokenize_repeatable(
    first: NGramIter,
    second: NGramIter,
    text: Seq<char>,
    width: nat,
)
    requires
        first.remaining() == ngrams(text, width),
        second.remaining() == ngrams(text, width),
    ensures
        first.remaining() == second.remaining(),
{
}

/// With width one there is a term for each scalar value of the text: its
/// lower-case form.
pub proof fn lemma_unigrams(text: Seq<char>)
    ensures
        ngrams(text, 1).len() == text.len(),
        forall|i: int|
            0 <= i < text.len() ==> #[trigger] ngrams(text, 1)[i] == lowercase(seq![text[i]]),
{
    assert forall|i: int| 0 <= i < text.len() implies #[trigger] ngrams(text, 1)[i] == lowercase(
        seq![text[i]],
    ) by {
        assert(text.subrange(i, i + 1) =~= seq![text[i]]);
    }
}

impl<'a> Tokenizer<'a> for NGramTokenizer {
    type TokenIterator = NGramIter<'a>;

    fn tokenize(&self, data: &'a str) -> (r: NGramIter<'a>)
        ensures
            r.remaining() == ngrams(data@, self.width()),
    {
        proof {
            use_type_invariant(self);
        }
        NGramIter::new(self.ngram_size, data)
    }
}

} // verus!
