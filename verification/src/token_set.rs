//! An ordered set of unique terms, as a dictionary takes them.

use vstd::prelude::*;
use vstd::utf8::*;

use crate::lexical::{
    bytes_equal, lemma_increasing_pairs, lemma_lex_transitive, lemma_lex_trichotomy, lex_less,
    lex_lt, strictly_increasing,
};
use crate::scalars::lemma_encode_injective;
use crate::tokenizer::Token;

verus! {

/// The bytes of each text of `texts`.
pub open spec fn encoded(texts: Seq<Seq<char>>) -> Seq<Seq<u8>> {
    Seq::new(texts.len(), |i: int| encode_utf8(texts[i]))
}

/// Terms in strictly increasing byte order, each at most once.
pub struct TokenSet {
    tokens: Vec<Token>,
}

impl View for TokenSet {
    type V = Seq<Seq<char>>;

    /// The texts of the terms, in order.
    closed spec fn view(&self) -> Seq<Seq<char>> {
        Seq::new(self.tokens@.len(), |i: int| self.tokens@[i]@)
    }
}

impl TokenSet {
    #[verifier::type_invariant]
    spec fn inv(&self) -> bool {
        strictly_increasing(encoded(self@))
    }

    /// The empty set.
    pub fn new() -> (r: TokenSet)
        ensures
            r@ == Seq::<Seq<char>>::empty(),
    {
        let r = TokenSet { tokens: Vec::new() };
        assert(r@ =~= Seq::<Seq<char>>::empty());
        r
    }

    /// Number of terms in the set.
    pub fn len(&self) -> (n: usize)
        ensures
            n == self@.len(),
            strictly_increasing(encoded(self@)),
    {
        proof {
            use_type_invariant(self);
        }
        self.tokens.len()
    }

    /// The term at place `i` of the order.
    pub fn get(&self, i: usize) -> (t: &Token)
        requires
            i < self@.len(),
        ensures
            t@ == self@[i as int],
    {
        &self.tokens[i]
    }

    /// Place of the first term that does not sort before `key`.
    fn lower_bound(&self, key: &[u8]) -> (lo: usize)
        ensures
            lo <= self@.len(),
            forall|k: int| 0 <= k < lo ==> lex_lt(#[trigger] encoded(self@)[k], key@),
            forall|k: int| lo <= k < self@.len() ==> !lex_lt(#[trigger] encoded(self@)[k], key@),
    {
        proof {
            use_type_invariant(self);
        }
        let ghost terms = encoded(self@);
        let mut lo: usize = 0;
        let mut hi: usize = self.tokens.len();
        while lo < hi
            invariant
                terms == encoded(self@),
                strictly_increasing(terms),
                lo <= hi <= self.tokens@.len(),
                self.tokens@.len() == terms.len(),
                forall|k: int| 0 <= k < lo ==> lex_lt(#[trigger] terms[k], key@),
                forall|k: int| hi <= k < terms.len() ==> !lex_lt(#[trigger] terms[k], key@),
            decreases hi - lo,
        {
            let mid: usize = lo + (hi - lo) / 2;
            assert(terms[mid as int] == self.tokens@[mid as int].bytes());
            if lex_less(self.tokens[mid].as_bytes(), key) {
                assert forall|k: int| 0 <= k < mid + 1 implies lex_lt(#[trigger] terms[k], key@) by {
                    if k < mid {
                        lemma_increasing_pairs(terms, k, mid as int);
                        lemma_lex_transitive(terms[k], terms[mid as int], key@);
                    }
                }
                lo = mid + 1;
            } else {
                assert forall|k: int| mid <= k < terms.len() implies !lex_lt(
                    #[trigger] terms[k],
                    key@,
                ) by {
                    if mid < k && lex_lt(terms[k], key@) {
                        lemma_increasing_pairs(terms, mid as int, k);
                        lemma_lex_transitive(terms[mid as int], terms[k], key@);
                    }
                }
                hi = mid;
            }
        }
        lo
    }

    /// Whether the set holds a term with the text of `token`.
    pub fn contains(&self, token: &Token) -> (r: bool)
        ensures
            r == self@.contains(token@),
    {
        proof {
            use_type_invariant(self);
        }
        let key = token.as_bytes();
        let lo = self.lower_bound(key);
        let ghost terms = encoded(self@);
        let found = lo < self.tokens.len() && bytes_equal(self.tokens[lo].as_bytes(), key);
        proof {
            if found {
                lemma_encode_injective(self@[lo as int], token@);
            } else {
                assert forall|k: int| 0 <= k < self@.len() implies self@[k] != token@ by {
                    lemma_elsewhere_differs(terms, key@, lo as int, k);
                }
            }
        }
        found
    }

    /// Adds `token` unless the set holds a term with its text already, and
    /// says whether it was added.
    pub fn insert(&mut self, token: Token) -> (added: bool)
        ensures
            added == !old(self)@.contains(token@),
            !added ==> final(self)@ == old(self)@,
            added ==> final(self)@.len() == old(self)@.len() + 1,
            forall|t: Seq<char>|
                final(self)@.contains(t) <==> (old(self)@.contains(t) || t == token@),
            strictly_increasing(encoded(final(self)@)),
    {
        proof {
            use_type_invariant(&*self);
        }
        let lo = self.lower_bound(token.as_bytes());
        let ghost before = self@;
        let ghost terms = encoded(before);
        let ghost key = token.bytes();
        let ghost text = token@;
        if lo < self.tokens.len() && bytes_equal(self.tokens[lo].as_bytes(), token.as_bytes()) {
            proof {
                lemma_encode_injective(before[lo as int], text);
                assert(before.contains(text));
            }
            return false;
        }
        let mut tokens: Vec<Token> = Vec::new();
        core::mem::swap(&mut tokens, &mut self.tokens);
        tokens.insert(lo, token);
        let ghost after = Seq::new(tokens@.len(), |i: int| tokens@[i]@);
        proof {
            assert(after =~= before.insert(lo as int, text));
            assert forall|k: int| 0 <= k < before.len() implies before[k] != text by {
                lemma_elsewhere_differs(terms, key, lo as int, k);
            }
            assert forall|i: int| 0 <= i < encoded(after).len() - 1 implies lex_lt(
                #[trigger] encoded(after)[i],
                encoded(after)[i + 1],
            ) by {
                if i + 1 < lo {
                    assert(encoded(after)[i] == terms[i] && encoded(after)[i + 1] == terms[i + 1]);
                } else if i + 1 == lo {
                    assert(encoded(after)[i] == terms[i]);
                } else if i == lo {
                    assert(encoded(after)[i + 1] == terms[i]);
                    lemma_lex_trichotomy(terms[i], key);
                } else {
                    assert(encoded(after)[i] == terms[i - 1] && encoded(after)[i + 1] == terms[i]);
                }
            }
            assert forall|t: Seq<char>| after.contains(t) <==> (before.contains(t) || t == text) by {
                if after.contains(t) {
                    let j = choose|j: int| 0 <= j < after.len() && after[j] == t;
                    if j < lo {
                        assert(before[j] == t);
                    } else if j > lo {
                        assert(before[j - 1] == t);
                    }
                }
                if before.contains(t) {
                    let j = choose|j: int| 0 <= j < before.len() && before[j] == t;
                    if j < lo {
                        assert(after[j] == t);
                    } else {
                        assert(after[j + 1] == t);
                    }
                }
                if t == text {
                    assert(after[lo as int] == t);
                }
            }
        }
        self.tokens = tokens;
        assert(self@ =~= after);
        true
    }

    /// Adds each of `tokens` that the set does not hold yet.
    pub fn extend(&mut self, tokens: Vec<Token>)
        ensures
            forall|t: Seq<char>|
                final(self)@.contains(t) <==> (old(self)@.contains(t) || exists|i: int|
                    0 <= i < tokens@.len() && #[trigger] tokens@[i]@ == t),
            strictly_increasing(encoded(final(self)@)),
    {
        proof {
            use_type_invariant(&*self);
        }
        let ghost all = tokens@;
        let mut rest = tokens;
        while rest.len() > 0
            invariant
                rest@.len() <= all.len(),
                rest@ == all.subrange(0, rest@.len() as int),
                forall|t: Seq<char>|
                    self@.contains(t) <==> (old(self)@.contains(t) || exists|i: int|
                        rest@.len() <= i < all.len() && #[trigger] all[i]@ == t),
                strictly_increasing(encoded(self@)),
            decreases rest@.len(),
        {
            let ghost n = rest@.len() - 1;
            let ghost held = self@;
            let token = rest.pop().unwrap();
            assert(token == all[n]);
            self.insert(token);
            assert forall|t: Seq<char>|
                self@.contains(t) <==> (old(self)@.contains(t) || exists|i: int|
                    n <= i < all.len() && #[trigger] all[i]@ == t) by {
                if held.contains(t) && !old(self)@.contains(t) {
                    let i = choose|i: int| n + 1 <= i < all.len() && #[trigger] all[i]@ == t;
                    assert(n <= i < all.len() && all[i]@ == t);
                }
                if exists|i: int| n <= i < all.len() && #[trigger] all[i]@ == t {
                    let i = choose|i: int| n <= i < all.len() && #[trigger] all[i]@ == t;
                    if i > n {
                        assert(n + 1 <= i < all.len() && all[i]@ == t);
                    }
                }
            }
        }
    }
}

/// In a strictly increasing sequence, a key that all terms before place `lo`
/// sort before, that no later term sorts before, and that is not the term at
/// `lo`, is none of the terms.
proof fn lemma_elsewhere_differs(terms: Seq<Seq<u8>>, key: Seq<u8>, lo: int, k: int)
    requires
        strictly_increasing(terms),
        0 <= lo <= terms.len(),
        0 <= k < terms.len(),
        forall|j: int| 0 <= j < lo ==> lex_lt(#[trigger] terms[j], key),
        forall|j: int| lo <= j < terms.len() ==> !lex_lt(#[trigger] terms[j], key),
        lo < terms.len() ==> terms[lo] != key,
    ensures
        terms[k] != key,
{
    if k < lo {
        lemma_lex_trichotomy(terms[k], key);
    } else if k > lo {
        lemma_increasing_pairs(terms, lo, k);
        lemma_lex_trichotomy(terms[lo], key);
        if terms[k] == key {
            lemma_lex_trichotomy(terms[lo], terms[k]);
        }
    }
}

} // verus!
