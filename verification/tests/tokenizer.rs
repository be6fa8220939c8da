use akiradb::tokenizer::{ConfigurationError, NGramTokenizer, Token, Tokenizer};
use std::cmp::Ordering;

fn texts(tokens: &[Token]) -> Vec<String> {
    tokens.iter().map(|t| t.to_str().to_string()).collect()
}

#[test]
fn trigram_tokenizer_test() {
    let tokenizer = NGramTokenizer::new(3).unwrap();

    assert_eq!(
        tokenizer.tokenize("Abcdef ghij klmno").collect(),
        vec![
            "abc", "bcd", "cde", "def", "ef ", "f g", " gh", "ghi", "hij", "ij ", "j k", " kl",
            "klm", "lmn", "mno"
        ]
    );

    assert_eq!(
        tokenizer.tokenize("123456789").collect(),
        vec!["123", "234", "345", "456", "567", "678", "789"]
    );

    //works on chinese characters too
    assert_eq!(
        tokenizer.tokenize("你好，世界！").collect(),
        ["你好，", "好，世", "，世界", "世界！"]
    );
}

#[test]
fn width_zero_is_a_configuration_error() {
    assert_eq!(NGramTokenizer::new(0).err(), Some(ConfigurationError::WidthBelowOne));
    assert_eq!(ConfigurationError::WidthBelowOne.message(), "Can't be less than 1");
}

#[test]
fn width_one_yields_single_characters() {
    let tokenizer = NGramTokenizer::new(1).unwrap();
    assert_eq!(tokenizer.tokenize("aB你").collect(), vec!["a", "b", "你"]);
}

#[test]
fn token_count_is_scalar_count_minus_width_plus_one() {
    for (text, scalars) in [("", 0usize), ("a", 1), ("ab", 2), ("abc", 3), ("你好，世界！", 6), ("aé😀z", 4)] {
        for n in 1..=7usize {
            let tokenizer = NGramTokenizer::new(n).unwrap();
            let tokens = tokenizer.tokenize(text).collect();
            let expected = if scalars >= n { scalars - n + 1 } else { 0 };
            assert_eq!(tokens.len(), expected, "text {:?} width {}", text, n);
            for t in &tokens {
                assert_eq!(t.to_str().chars().count(), n);
            }
        }
    }
}

#[test]
fn short_text_yields_no_partial_ngram() {
    let tokenizer = NGramTokenizer::new(3).unwrap();
    assert!(tokenizer.tokenize("").collect().is_empty());
    assert!(tokenizer.tokenize("ab").collect().is_empty());
    assert!(tokenizer.tokenize("你好").collect().is_empty());
    let mut it = tokenizer.tokenize("ab");
    assert!(it.next().is_none());
    assert!(it.next().is_none());
}

#[test]
fn mixed_widths_are_split_on_scalar_boundaries() {
    let tokenizer = NGramTokenizer::new(2).unwrap();
    assert_eq!(
        texts(&tokenizer.tokenize("aé😀z你").collect()),
        vec!["aé", "é😀", "😀z", "z你"]
    );
    let unigrams = NGramTokenizer::new(1).unwrap();
    assert_eq!(texts(&unigrams.tokenize("你a").collect()), vec!["你", "a"]);
}

#[test]
fn tokens_are_lower_cased() {
    let tokenizer = NGramTokenizer::new(4).unwrap();
    assert_eq!(texts(&tokenizer.tokenize("ÀBÇD").collect()), vec!["àbçd"]);
}

#[test]
fn next_walks_the_windows_in_order() {
    let tokenizer = NGramTokenizer::new(2).unwrap();
    let mut it = tokenizer.tokenize("XyZ");
    assert_eq!(it.next().unwrap(), "xy");
    assert_eq!(it.next().unwrap(), "yz");
    assert!(it.next().is_none());
    assert!(it.next().is_none());
}

#[test]
fn tokenizing_twice_gives_the_same_terms() {
    let tokenizer = NGramTokenizer::new(3).unwrap();
    let text = "Loaded Servicing Stack v6.1.7601.23505";
    let first = tokenizer.tokenize(text).collect();
    let second = tokenizer.tokenize(text).collect();
    assert_eq!(first, second);
    assert_eq!(first.len(), text.chars().count() - 2);
}

#[test]
fn interleaved_tokenizations_do_not_disturb_each_other() {
    let tokenizer = NGramTokenizer::new(2).unwrap();
    let alone_a = tokenizer.tokenize("abcd").collect();
    let alone_b = tokenizer.tokenize("你好世界").collect();
    let mut a = tokenizer.tokenize("abcd");
    let mut b = tokenizer.tokenize("你好世界");
    let mut got_a = Vec::new();
    let mut got_b = Vec::new();
    got_a.push(a.next().unwrap());
    got_b.push(b.next().unwrap());
    got_b.push(b.next().unwrap());
    got_a.push(a.next().unwrap());
    got_a.push(a.next().unwrap());
    got_b.push(b.next().unwrap());
    assert!(a.next().is_none());
    assert!(b.next().is_none());
    assert_eq!(got_a, alone_a);
    assert_eq!(got_b, alone_b);
}

#[test]
fn short_terms_are_inline_and_long_terms_on_the_heap() {
    assert!(matches!(Token::from_str("123456789012345"), Token::Stack(_)));
    assert!(matches!(Token::from_str("1234567890123456"), Token::Heap(_)));
    assert!(matches!(Token::from_str(""), Token::Stack(_)));
    // five scalar values of three bytes each fill the inline form exactly
    assert!(matches!(Token::from_str("你好，世界"), Token::Stack(_)));
    assert!(matches!(Token::from_str("你好，世界！"), Token::Heap(_)));
    assert_eq!(Token::from_str("你好，世界！").to_str(), "你好，世界！");
    assert_eq!(Token::from_str("abc").as_bytes(), b"abc");
    let token = Token::from_str("abc");
    let as_ref: &[u8] = token.as_ref();
    assert_eq!(as_ref, b"abc");
}

#[test]
fn equality_does_not_depend_on_the_representation() {
    let inline = Token::from_str("abc");
    let heap = Token::Heap("abc".to_string());
    assert_eq!(inline, heap);
    assert_eq!(heap, inline);
    assert_eq!(inline.partial_cmp(&heap), Some(Ordering::Equal));
    assert_ne!(Token::from_str("abc"), Token::from_str("abd"));
    assert!(Token::from_str("abc") == "abc");
    assert!(Token::from_str("abc") != "ab");
}

#[test]
fn order_is_byte_lexicographic_across_representations() {
    let short = Token::from_str("z");
    let long = Token::from_str("aaaaaaaaaaaaaaaaaaaa");
    assert!(matches!(short, Token::Stack(_)));
    assert!(matches!(long, Token::Heap(_)));
    assert!(long < short);
    assert_eq!(short.partial_cmp(&long), Some(Ordering::Greater));
    assert!(Token::from_str("ab") < Token::from_str("abc"));
    assert!(Token::from_str("") < Token::from_str("a"));
    assert!(Token::from_str("abd") > Token::from_str("abcd"));
    assert!(Token::from_str("a") < Token::from_str("é"));
    assert!(Token::from_str("é") < Token::from_str("你"));
}
