//! Term dictionary: a finite-state transducer from sorted unique terms to
//! consecutive ids, built incrementally into a byte buffer.

use fst::MapBuilder;
use vstd::prelude::*;

use crate::lexical::{lemma_lex_trichotomy, lex_lt, strictly_increasing};
use crate::token_set::{encoded, TokenSet};

verus! {

/// `fst::MapBuilder`, the builder of a transducer that writes to a sink of
/// type `W`. Nothing of its inside is known here.
#[verifier::external_type_specification]
#[verifier::external_body]
#[verifier::reject_recursive_types(W)]
pub struct ExMapBuilder<W>(MapBuilder<W>);

/// `fst::Error`, the error of the transducer crate. Nothing of its inside is
/// known here.
#[verifier::external_type_specification]
#[verifier::external_body]
pub struct ExFstError(fst::Error);

/// The key-value pairs that a transducer builder has accepted, in the order
/// in which they were inserted.
pub uninterp spec fn builder_entries(b: MapBuilder<Vec<u8>>) -> Seq<(Seq<u8>, u64)>;

/// The bytes that the sink of a transducer builder held when the builder was
/// made.
pub uninterp spec fn builder_sink_start(b: MapBuilder<Vec<u8>>) -> Seq<u8>;

/// The serialized transducer for the given key-value pairs.
pub uninterp spec fn fst_encoding(entries: Seq<(Seq<u8>, u64)>) -> Seq<u8>;

/// Whether a builder that has accepted `entries` accepts `key` next: the key
/// must sort strictly after the last accepted one.
pub open spec fn accepts(entries: Seq<(Seq<u8>, u64)>, key: Seq<u8>) -> bool {
    entries.len() == 0 || lex_lt(entries.last().0, key)
}

/// `fst::MapBuilder::new` on a byte vector. The builder starts with no
/// entries. It writes its header to the sink, and appending to a vector does
/// not fail, so the call returns `Ok`.
#[verifier::external_body]
fn map_builder_new(sink: Vec<u8>) -> (r: Result<MapBuilder<Vec<u8>>, fst::Error>)
    ensures
        r is Ok,
        r matches Ok(b) ==> builder_entries(b) == Seq::<(Seq<u8>, u64)>::empty(),
        r matches Ok(b) ==> builder_sink_start(b) == sink@,
{
    MapBuilder::new(sink)
}

/// `fst::MapBuilder::insert` on a builder over a byte vector. The source
/// rejects a key that equals the previous one (`DuplicateKey`) or sorts
/// before it (`OutOfOrder`) and then leaves the builder as it was; any other
/// key is added with its value. Its only other failure is a write error of
/// the sink, which a vector does not give. The call does not panic.
#[verifier::external_body]
fn map_builder_insert(b: &mut MapBuilder<Vec<u8>>, key: &[u8], val: u64) -> (r: Result<
    (),
    fst::Error,
>)
    ensures
        r is Ok <==> accepts(builder_entries(*old(b)), key@),
        r is Ok ==> builder_entries(*final(b)) == builder_entries(*old(b)).push((key@, val)),
        r is Err ==> builder_entries(*final(b)) == builder_entries(*old(b)),
        builder_sink_start(*final(b)) == builder_sink_start(*old(b)),
    no_unwind
{
    b.insert(key, val)
}

/// `fst::MapBuilder::into_inner`: finishes the transducer and hands the sink
/// back. The sink then holds what it held at the start, followed by the
/// serialized transducer of the accepted entries. Appending to a vector does
/// not fail, so the call returns `Ok`.
#[verifier::external_body]
fn map_builder_into_inner(b: MapBuilder<Vec<u8>>) -> (r: Result<Vec<u8>, fst::Error>)
    ensures
        r is Ok,
        r matches Ok(bytes) ==> bytes@ == builder_sink_start(b) + fst_encoding(builder_entries(b)),
{
    b.into_inner()
}

/// Why a dictionary operation failed.
#[derive(Debug, Clone, Copy, PartialEq, Eq, Structural)]
pub enum DictionaryError {
    /// The term does not sort strictly after the term inserted before it.
    OutOfOrderInsert,
    /// An earlier insertion failed; the builder accepts nothing more and
    /// cannot be finalized.
    Poisoned,
    /// Every id has been given out.
    IdsExhausted,
}

/// The terms of `terms`, each paired with its index as its id.
pub open spec fn numbered(terms: Seq<Seq<u8>>) -> Seq<(Seq<u8>, u64)> {
    Seq::new(terms.len(), |i: int| (terms[i], i as u64))
}

/// Whether `key` may follow the accepted `terms`: it must sort strictly
/// after the last of them.
pub open spec fn follows(terms: Seq<Seq<u8>>, key: Seq<u8>) -> bool {
    terms.len() == 0 || lex_lt(terms.last(), key)
}

/// What finalizing a dictionary hands back.
pub struct BuiltDictionary {
    /// The sink, holding the serialized transducer after what it held before.
    pub sink: Vec<u8>,
    /// Number of bytes that were written to the sink in all.
    pub bytes_written: u64,
}

impl BuiltDictionary {
    /// The outcome for a sink that held `held_before` bytes before the
    /// dictionary was written to it: all the bytes after those were written.
    /// `None` where the sink holds fewer bytes than that.
    pub fn new(sink: Vec<u8>, held_before: usize) -> (r: Option<BuiltDictionary>)
        ensures
            r is Some <==> held_before <= sink@.len(),
            r matches Some(out) ==> out.sink@ == sink@ && out.bytes_written == sink@.len()
                - held_before,
    {
        if held_before > sink.len() {
            return None;
        }
        let written: usize = sink.len() - held_before;
        Some(BuiltDictionary { sink, bytes_written: written as u64 })
    }
}

/// Builds a term dictionary from terms that arrive in strictly increasing
/// byte order. The i-th accepted term gets the id i.
pub struct TermDictBuilder {
    map_builder: MapBuilder<Vec<u8>>,
    term_id: u64,
    sink_start_len: usize,
    poisoned: bool,
}

impl TermDictBuilder {
    #[verifier::type_invariant]
    spec fn inv(&self) -> bool {
        &&& !self.poisoned ==> builder_entries(self.map_builder).len() == self.term_id
        &&& !self.poisoned ==> forall|i: int|
            0 <= i < builder_entries(self.map_builder).len() ==> (#[trigger] builder_entries(
                self.map_builder,
            )[i]).1 == i
        &&& builder_sink_start(self.map_builder).len() == self.sink_start_len
    }

    /// The accepted terms, in insertion order.
    pub closed spec fn terms(&self) -> Seq<Seq<u8>> {
        Seq::new(
            builder_entries(self.map_builder).len(),
            |i: int| builder_entries(self.map_builder)[i].0,
        )
    }

    /// The id that the next accepted term will get.
    pub closed spec fn next_id(&self) -> u64 {
        self.term_id
    }

    /// Whether an insertion has failed.
    pub closed spec fn is_poisoned(&self) -> bool {
        self.poisoned
    }

    /// What the sink held when the builder was made.
    pub closed spec fn sink_start(&self) -> Seq<u8> {
        builder_sink_start(self.map_builder)
    }

    /// A builder that writes the dictionary to `w`, after what `w` holds.
    pub fn new(w: Vec<u8>) -> (r: Result<TermDictBuilder, DictionaryError>)
        ensures
            r is Ok,
            r matches Ok(b) ==> b.terms() == Seq::<Seq<u8>>::empty() && b.next_id() == 0
                && !b.is_poisoned() && b.sink_start() == w@,
    {
        let sink_start_len = w.len();
        match map_builder_new(w) {
            Ok(map_builder) => {
                let b = TermDictBuilder { map_builder, term_id: 0, sink_start_len, poisoned: false };
                assert(b.terms() =~= Seq::<Seq<u8>>::empty());
                Ok(b)
            },
            Err(_) => Err(DictionaryError::Poisoned),
        }
    }

    /// Adds `key` with the next id. The key must sort strictly after the
    /// term accepted before it; a key that does not is refused, gets no id,
    /// and poisons the builder.
    pub fn insert(&mut self, key: &[u8]) -> (r: Result<(), DictionaryError>)
        ensures
            r is Ok <==> !old(self).is_poisoned() && old(self).next_id() < u64::MAX && follows(
                old(self).terms(),
                key@,
            ),
            r is Ok ==> final(self).terms() == old(self).terms().push(key@) && final(self).next_id()
                == old(self).next_id() + 1 && !final(self).is_poisoned(),
            r matches Err(e) ==> final(self).terms() == old(self).terms() && final(self).next_id()
                == old(self).next_id() && final(self).is_poisoned() && e == insert_failure(
                old(self).is_poisoned(),
                old(self).next_id(),
            ),
            final(self).sink_start() == old(self).sink_start(),
    {
        proof {
            use_type_invariant(&*self);
        }
        if self.poisoned {
            return Err(DictionaryError::Poisoned);
        }
        if self.term_id == u64::MAX {
            self.poisoned = true;
            return Err(DictionaryError::IdsExhausted);
        }
        let ghost before = builder_entries(self.map_builder);
        let ghost terms_before = self.terms();
        assert(terms_before.len() > 0 ==> terms_before.last() == before.last().0);
        // The builder counts as poisoned until the insertion has gone through.
        self.poisoned = true;
        match map_builder_insert(&mut self.map_builder, key, self.term_id) {
            Ok(()) => {
                self.term_id = self.term_id + 1;
                self.poisoned = false;
                assert(self.terms() =~= terms_before.push(key@));
                Ok(())
            },
            Err(_) => {
                assert(self.terms() =~= terms_before);
                Err(DictionaryError::OutOfOrderInsert)
            },
        }
    }

    /// Finalizes the dictionary and hands back the sink, with the number of
    /// bytes that were written to it. A poisoned builder cannot be finalized.
    pub fn build(self) -> (r: Result<BuiltDictionary, DictionaryError>)
        ensures
            r is Ok <==> !self.is_poisoned(),
            r matches Ok(out) ==> out.sink@ == self.sink_start() + fst_encoding(
                numbered(self.terms()),
            ) && out.bytes_written == fst_encoding(numbered(self.terms())).len(),
            r matches Err(e) ==> e == DictionaryError::Poisoned,
    {
        proof {
            use_type_invariant(&self);
        }
        if self.poisoned {
            return Err(DictionaryError::Poisoned);
        }
        assert(builder_entries(self.map_builder) =~= numbered(self.terms()));
        let start: usize = self.sink_start_len;
        match map_builder_into_inner(self.map_builder) {
            Ok(sink) => match BuiltDictionary::new(sink, start) {
                Some(out) => Ok(out),
                None => Err(DictionaryError::Poisoned),
            },
            Err(_) => Err(DictionaryError::Poisoned),
        }
    }
}

/// Each term of a strictly increasing sequence may follow the terms before
/// it, so a fresh builder accepts them all in turn; and the dictionary that
/// holds them binds the term at place `i` to the id `i`.
pub proof fn lemma_increasing_terms_accepted(keys: Seq<Seq<u8>>, i: int)
    requires
        strictly_increasing(keys),
        0 <= i < keys.len(),
    ensures
        follows(keys.subrange(0, i), keys[i]),
        numbered(keys).len() == keys.len(),
        numbered(keys)[i] == (keys[i], i as u64),
{
    if i > 0 {
        assert(keys.subrange(0, i).last() == keys[i - 1]);
    }
}

/// A term that does not sort strictly after the last accepted one may not
/// follow: neither the same term again nor one that sorts before it.
pub proof fn lemma_unordered_term_refused(terms: Seq<Seq<u8>>, key: Seq<u8>)
    requires
        terms.len() > 0,
        key == terms.last() || lex_lt(key, terms.last()),
    ensures
        !follows(terms, key),
{
    lemma_lex_trichotomy(terms.last(), key);
}

/// Builds the dictionary of the terms of `set` into `sink`: the term at place
/// `i` of the set gets the id `i`. This cannot fail, as a set hands its terms
/// out in strictly increasing order.
pub fn build_dictionary(set: &TokenSet, sink: Vec<u8>) -> (r: Result<
    BuiltDictionary,
    DictionaryError,
>)
    ensures
        r is Ok,
        r matches Ok(out) ==> out.sink@ == sink@ + fst_encoding(numbered(encoded(set@)))
            && out.bytes_written == fst_encoding(numbered(encoded(set@))).len(),
{
    let n: usize = set.len();
    let ghost terms = encoded(set@);
    let mut builder = match TermDictBuilder::new(sink) {
        Ok(b) => b,
        Err(e) => {
            return Err(e);
        },
    };
    let mut i: usize = 0;
    while i < n
        invariant
            i <= n,
            n == set@.len(),
            terms == encoded(set@),
            strictly_increasing(terms),
            builder.terms() == terms.subrange(0, i as int),
            builder.next_id() == i,
            !builder.is_poisoned(),
            builder.sink_start() == sink@,
        decreases n - i,
    {
        let token = set.get(i);
        proof {
            assert(terms[i as int] == token.bytes());
            if i > 0 {
                assert(builder.terms().last() == terms[i - 1]);
            }
            assert(terms.subrange(0, i + 1) =~= terms.subrange(0, i as int).push(terms[i as int]));
        }
        match builder.insert(token.as_bytes()) {
            Ok(()) => {},
            Err(e) => {
                return Err(e);
            },
        }
        i = i + 1;
    }
    assert(terms.subrange(0, n as int) =~= terms);
    builder.build()
}

/// The error of an insertion that is refused: a poisoned builder says so,
/// one out of ids says that, and otherwise the key was out of order.
pub open spec fn insert_failure(poisoned: bool, next_id: u64) -> DictionaryError {
    if poisoned {
        DictionaryError::Poisoned
    } else if next_id == u64::MAX {
        DictionaryError::IdsExhausted
    } else {
        DictionaryError::OutOfOrderInsert
    }
}

} // verus!
