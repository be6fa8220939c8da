//! What ingestion stores beside a blob: the terms of the blob, one per line.

use vstd::prelude::*;
use vstd::string::StringExecFns;

use crate::token_set::encoded;
use crate::tokenizer::Token;

verus! {

/// The byte that ends each line of a token file.
pub const LINE_END: u8 = 0x0a;

/// The contents of a token file: the bytes of each term, each followed by a
/// line end.
pub open spec fn token_lines_of(terms: Seq<Seq<u8>>) -> Seq<u8>
    decreases terms.len(),
{
    if terms.len() == 0 {
        Seq::empty()
    } else {
        token_lines_of(terms.drop_last()) + terms.last() + seq![LINE_END]
    }
}

/// The texts of the given terms.
pub open spec fn texts_of(tokens: Seq<Token>) -> Seq<Seq<char>> {
    Seq::new(tokens.len(), |i: int| tokens[i]@)
}

/// The key under which the terms of the blob `key` are stored.
pub fn token_key(key: &str) -> (r: String)
    ensures
        r@ == key@ + ".token"@,
{
    key.to_owned().concat(".token")
}

/// The contents of the token file for `tokens`.
pub fn token_lines(tokens: &Vec<Token>) -> (r: Vec<u8>)
    ensures
        r@ == token_lines_of(encoded(texts_of(tokens@))),
{
    let ghost terms = encoded(texts_of(tokens@));
    let mut out: Vec<u8> = Vec::new();
    let mut i: usize = 0;
    while i < tokens.len()
        invariant
            i <= tokens@.len(),
            terms == encoded(texts_of(tokens@)),
            out@ == token_lines_of(terms.subrange(0, i as int)),
        decreases tokens@.len() - i,
    {
        let ghost before = out@;
        out.extend_from_slice(tokens[i].as_bytes());
        out.push(LINE_END);
        proof {
            let upto = terms.subrange(0, i + 1);
            assert(upto.drop_last() =~= terms.subrange(0, i as int));
            assert(upto.last() == tokens@[i as int].bytes());
            assert(out@ =~= before + tokens@[i as int].bytes() + seq![LINE_END]);
        }
        i = i + 1;
    }
    assert(terms.subrange(0, i as int) =~= terms);
    out
}

} // verus!
