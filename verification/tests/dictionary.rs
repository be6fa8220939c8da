use akiradb::dictionary::{build_dictionary, DictionaryError, TermDictBuilder};
use akiradb::token_set::TokenSet;
use akiradb::tokenizer::{NGramTokenizer, Token, Tokenizer};
use fst::Streamer;

const SAMPLE: &str = r#"Loaded Servicing Stack v6.1.7601.23505 with Core: C:\Windows\winsxs\amd64_microsoft-windows-servicingstack_31bf3856ad364e35_6.1.7601.23505_none_681aa442f6fed7f0\cbscore.dll"#;

fn entries(bytes: Vec<u8>) -> Vec<(Vec<u8>, u64)> {
    let map = fst::Map::new(bytes).unwrap();
    let mut stream = map.stream();
    let mut out = Vec::new();
    while let Some((k, v)) = stream.next() {
        out.push((k.to_vec(), v));
    }
    out
}

#[test]
fn fst_setup_test() {
    let tokenizer = NGramTokenizer::new(3).unwrap();
    println!("BYTES LEN {}", SAMPLE.bytes().len());
    let mut tokens = tokenizer.tokenize(SAMPLE).collect();
    tokens.sort_by(|a, b| a.partial_cmp(b).unwrap());
    let mut term_builder = TermDictBuilder::new(Vec::<u8>::new()).unwrap();
    let mut accepted: Vec<Vec<u8>> = Vec::new();
    let mut refused = 0;
    for token in &tokens {
        match term_builder.insert(token.as_ref()) {
            Ok(()) => {
                println!("SUCESS:: {:#?}", token);
                accepted.push(token.as_bytes().to_vec());
            }
            Err(e) => {
                println!("FAILED:: {:#?}", e);
                refused += 1;
            }
        }
    }
    // the sample repeats trigrams, so an insertion is refused, and the
    // builder takes nothing after that and cannot be finalized
    assert!(refused > 0);
    assert_eq!(accepted.len() + refused, tokens.len());
    assert_eq!(term_builder.build().err(), Some(DictionaryError::Poisoned));

    // without the repetitions every term is taken
    let mut set = TokenSet::new();
    set.extend(tokenizer.tokenize(SAMPLE).collect());
    let built = build_dictionary(&set, Vec::new()).unwrap();
    let terms = built.sink;
    assert_eq!(built.bytes_written, terms.len() as u64);
    let map = fst::Map::new(terms.clone()).unwrap();
    assert_eq!(map.len(), set.len());
    let loaded = entries(terms);
    for (i, (key, id)) in loaded.iter().enumerate() {
        assert_eq!(*id, i as u64);
        assert_eq!(key.as_slice(), set.get(i).as_bytes());
    }
    assert!(loaded.len() > accepted.len());
    assert_eq!(&loaded[..accepted.len()].iter().map(|e| e.0.clone()).collect::<Vec<_>>(), &accepted);
}

#[test]
fn round_trip_recovers_terms_with_consecutive_ids() {
    let keys: Vec<&[u8]> = vec![b"", b"a", b"ab", b"abc", b"b", b"\xe4\xbd\xa0", b"\xff"];
    let mut builder = TermDictBuilder::new(Vec::new()).unwrap();
    for key in &keys {
        assert_eq!(builder.insert(key), Ok(()));
    }
    let built = builder.build().unwrap();
    assert_eq!(built.bytes_written, built.sink.len() as u64);
    let loaded = entries(built.sink);
    let expected: Vec<(Vec<u8>, u64)> =
        keys.iter().enumerate().map(|(i, k)| (k.to_vec(), i as u64)).collect();
    assert_eq!(loaded, expected);
}

#[test]
fn empty_dictionary_can_be_built_and_loaded() {
    let built = TermDictBuilder::new(Vec::new()).unwrap().build().unwrap();
    assert!(built.bytes_written > 0);
    assert_eq!(entries(built.sink), Vec::<(Vec<u8>, u64)>::new());
}

#[test]
fn out_of_order_insert_is_refused_and_poisons() {
    let mut builder = TermDictBuilder::new(Vec::new()).unwrap();
    assert_eq!(builder.insert(b"bcd"), Ok(()));
    assert_eq!(builder.insert(b"abc"), Err(DictionaryError::OutOfOrderInsert));
    // a term that would have been in order is no longer taken
    assert_eq!(builder.insert(b"cde"), Err(DictionaryError::Poisoned));
    assert_eq!(builder.build().err(), Some(DictionaryError::Poisoned));
}

#[test]
fn duplicate_insert_is_refused() {
    let mut builder = TermDictBuilder::new(Vec::new()).unwrap();
    assert_eq!(builder.insert(b"abc"), Ok(()));
    assert_eq!(builder.insert(b"abc"), Err(DictionaryError::OutOfOrderInsert));
    assert_eq!(builder.build().err(), Some(DictionaryError::Poisoned));
}

#[test]
fn refused_term_gets_no_id() {
    let mut builder = TermDictBuilder::new(Vec::new()).unwrap();
    assert_eq!(builder.insert(b"b"), Ok(()));
    assert_eq!(builder.insert(b"a"), Err(DictionaryError::OutOfOrderInsert));
    // a fresh builder given the accepted term alone writes the same bytes
    let mut fresh = TermDictBuilder::new(Vec::new()).unwrap();
    assert_eq!(fresh.insert(b"b"), Ok(()));
    assert_eq!(entries(fresh.build().unwrap().sink), vec![(b"b".to_vec(), 0)]);
}

#[test]
fn dictionary_follows_what_the_sink_held() {
    let mut builder = TermDictBuilder::new(vec![1, 2, 3]).unwrap();
    assert_eq!(builder.insert(b"x"), Ok(()));
    let built = builder.build().unwrap();
    assert_eq!(&built.sink[..3], &[1, 2, 3]);
    assert_eq!(built.bytes_written, built.sink.len() as u64 - 3);
    assert_eq!(entries(built.sink[3..].to_vec()), vec![(b"x".to_vec(), 0)]);
}

#[test]
fn token_set_orders_and_deduplicates() {
    let mut set = TokenSet::new();
    assert!(set.insert(Token::from_str("b")));
    assert!(set.insert(Token::from_str("a")));
    assert!(set.insert(Token::from_str("aaaaaaaaaaaaaaaaaaaa")));
    assert!(!set.insert(Token::Heap("a".to_string())));
    assert!(set.insert(Token::from_str("ab")));
    assert!(!set.insert(Token::from_str("b")));
    assert_eq!(set.len(), 4);
    let texts: Vec<&str> = (0..set.len()).map(|i| set.get(i).to_str()).collect();
    assert_eq!(texts, vec!["a", "aaaaaaaaaaaaaaaaaaaa", "ab", "b"]);
    assert!(set.contains(&Token::from_str("ab")));
    assert!(!set.contains(&Token::from_str("abc")));

    let built = build_dictionary(&set, Vec::new()).unwrap();
    assert_eq!(
        entries(built.sink),
        vec![
            (b"a".to_vec(), 0),
            (b"aaaaaaaaaaaaaaaaaaaa".to_vec(), 1),
            (b"ab".to_vec(), 2),
            (b"b".to_vec(), 3)
        ]
    );
}

#[test]
fn token_set_extend_takes_each_term_once() {
    let tokenizer = NGramTokenizer::new(2).unwrap();
    let mut set = TokenSet::new();
    set.extend(tokenizer.tokenize("abab").collect());
    set.extend(tokenizer.tokenize("BABA").collect());
    assert_eq!(set.len(), 2);
    assert_eq!(set.get(0).to_str(), "ab");
    assert_eq!(set.get(1).to_str(), "ba");
}
