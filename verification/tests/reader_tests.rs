//! The S-expression reader: tokenizing and parsing.

use conjure::reader::{tokenize, Error, KeyTy, Reader, Ty};

fn toks(input: &str) -> Vec<String> {
    tokenize(&input.chars().collect())
        .iter()
        .map(|t| t.iter().collect())
        .collect()
}

#[test]
fn tokenize_simple_list() {
    assert_eq!(toks("(+ 1 2)"), vec!["(", "+", "1", "2", ")", ""]);
}

#[test]
fn tokenize_skips_commas_and_space() {
    assert_eq!(toks("a,b"), vec!["a", "b", ""]);
    assert_eq!(toks("  (  x ) "), vec!["(", "x", ")", "", ""]);
}

#[test]
fn tokenize_strings_and_comments() {
    assert_eq!(toks("\"ab c\""), vec!["\"ab c\"", ""]);
    assert_eq!(toks("x ; rest\ny"), vec!["x", "; rest", "y", ""]);
    assert_eq!(toks("~@ ~ @"), vec!["~@", "~", "@", ""]);
}

#[test]
fn tokenize_empty_input() {
    assert_eq!(toks(""), vec![""]);
}

#[test]
fn read_number_atom() {
    match Reader::read_str("42") {
        Ok(Ty::Number(n)) => assert_eq!(n, 42),
        _ => panic!("42 should read as a number"),
    }
    match Reader::read_str("-17") {
        Ok(Ty::Number(n)) => assert_eq!(n, -17),
        _ => panic!("-17 should read as a number"),
    }
    match Reader::read_str("2147483647") {
        Ok(Ty::Number(n)) => assert_eq!(n, 2147483647),
        _ => panic!("i32::MAX should read as a number"),
    }
}

#[test]
fn read_overflowing_number_is_symbol() {
    match Reader::read_str("2147483648") {
        Ok(Ty::Symbol(s)) => assert_eq!(s, "2147483648"),
        _ => panic!("a value past the 32-bit range reads as a symbol"),
    }
    match Reader::read_str("00000000001") {
        Ok(Ty::Number(n)) => assert_eq!(n, 1),
        _ => panic!("leading zeros still read as a number"),
    }
}

#[test]
fn read_booleans_keywords_symbols() {
    assert!(matches!(Reader::read_str("true"), Ok(Ty::True)));
    assert!(matches!(Reader::read_str("false"), Ok(Ty::False)));
    match Reader::read_str(":key") {
        Ok(Ty::Keyword(s)) => assert_eq!(s, "key"),
        _ => panic!(": prefix should read as a keyword"),
    }
    match Reader::read_str("sphere") {
        Ok(Ty::Symbol(s)) => assert_eq!(s, "sphere"),
        _ => panic!("a bare word reads as a symbol"),
    }
}

#[test]
fn read_string_with_escapes() {
    match Reader::read_str("\"a\\nb\\\"c\"") {
        Ok(Ty::Str(s)) => assert_eq!(s, "a\nb\"c"),
        _ => panic!("escapes should be undone"),
    }
}

#[test]
fn read_unbalanced_string() {
    assert!(matches!(Reader::read_str("\"abc"), Err(Error::Unbalanced)));
}

#[test]
fn read_list_and_vector() {
    match Reader::read_str("(union 1 [2 3])") {
        Ok(Ty::List(items)) => {
            assert_eq!(items.len(), 3);
            assert!(matches!(items[0], Ty::Symbol(_)));
            assert!(matches!(items[1], Ty::Number(1)));
            match &items[2] {
                Ty::Vector(v) => {
                    assert_eq!(v.len(), 2);
                    assert!(matches!(v[0], Ty::Number(2)));
                    assert!(matches!(v[1], Ty::Number(3)));
                },
                _ => panic!("brackets read as a vector"),
            }
        },
        _ => panic!("parens read as a list"),
    }
}

#[test]
fn read_unterminated_form() {
    assert!(matches!(Reader::read_str("(1 2"), Err(Error::FormEarlyEnd(_, _))));
    assert!(matches!(Reader::read_str("((a)"), Err(Error::FormEarlyEnd(_, _))));
}

#[test]
fn read_hashmap_pairs() {
    match Reader::read_str("{:a 1 \"b\" 2}") {
        Ok(Ty::HashMap(pairs)) => {
            assert_eq!(pairs.len(), 2);
            match &pairs[0].0 {
                KeyTy::Keyword(k) => assert_eq!(k, "a"),
                _ => panic!("first key is a keyword"),
            }
            assert!(matches!(pairs[0].1, Ty::Number(1)));
            match &pairs[1].0 {
                KeyTy::Str(k) => assert_eq!(k, "b"),
                _ => panic!("second key is a string"),
            }
            assert!(matches!(pairs[1].1, Ty::Number(2)));
        },
        _ => panic!("braces read as a map"),
    }
}

#[test]
fn read_hashmap_replaces_equal_key() {
    match Reader::read_str("{:a 1 :a 2}") {
        Ok(Ty::HashMap(pairs)) => {
            assert_eq!(pairs.len(), 1);
            assert!(matches!(pairs[0].1, Ty::Number(2)));
        },
        _ => panic!("braces read as a map"),
    }
}

#[test]
fn read_hashmap_rejects_bad_key() {
    assert!(matches!(Reader::read_str("{1 2}"), Err(Error::InvalidKeyType(Ty::Number(1)))));
}

#[test]
fn reader_new_starts_at_origin() {
    let r = Reader::new(tokenize(&"x".chars().collect()));
    assert_eq!(r.idx, 0);
    assert_eq!(r.count, 0);
    assert_eq!(r.tokens.len(), 2);
}
