use akiradb::columns::{ColumnIndex, ColumnInfo};
use akiradb::ingest::{token_key, token_lines};
use akiradb::schema::FieldType;
use akiradb::tokenizer::Token;

#[test]
fn token_file_holds_one_term_per_line() {
    let tokens = vec![Token::from_str("12")];
    assert_eq!(token_lines(&tokens), vec![0x31, 0x32, 0x0a]);
    let tokens = vec![Token::from_str("ab"), Token::from_str(""), Token::from_str("你")];
    assert_eq!(token_lines(&tokens), b"ab\n\n\xe4\xbd\xa0\n".to_vec());
    assert_eq!(token_lines(&Vec::new()), Vec::<u8>::new());
}

#[test]
fn token_file_key_is_the_blob_key_with_a_suffix() {
    assert_eq!(token_key("file.txt"), "file.txt.token");
    assert_eq!(token_key(""), ".token");
}

#[test]
fn columns_get_ids_in_order_of_arrival() {
    let mut index = ColumnIndex::new();
    assert_eq!(index.len(), 0);
    assert_eq!(
        index.get_or_insert_col("host".to_string(), FieldType::Str),
        ColumnInfo { _type: FieldType::Str, _id: 0 }
    );
    assert_eq!(
        index.get_or_insert_col("status".to_string(), FieldType::Int),
        ColumnInfo { _type: FieldType::Int, _id: 1 }
    );
    // a column that is known keeps its type and its id
    assert_eq!(
        index.get_or_insert_col("host".to_string(), FieldType::Time),
        ColumnInfo { _type: FieldType::Str, _id: 0 }
    );
    assert_eq!(index.len(), 2);
    assert_eq!(
        index.get_or_insert_col("time".to_string(), FieldType::Time),
        ColumnInfo { _type: FieldType::Time, _id: 2 }
    );
    assert_eq!(index.len(), 3);
}
