use dmm::parser::{
    parse_data_block, parse_datum, parse_datums_block, parse_dictionary, parse_dictionary_entry,
    parse_dmm, parse_grid_coords, parse_grid_entry, parse_identifier, parse_key, parse_literal,
    parse_path, parse_var_edit, parse_var_edits,
};
use dmm::syntax::{Datum, DictionaryEntry, GridEntry, VarEdit, DMM};
use dmm::{Error, Literal};

fn float_value(l: &Literal) -> f64 {
    match l {
        Literal::Float(t) => t.parse::<f64>().expect("float text"),
        other => panic!("not a float: {:?}", other),
    }
}

fn parsed_float(input: &str) -> f64 {
    let (rest, l) = parse_literal(input).expect("literal");
    assert_eq!(rest, "");
    float_value(&l)
}

#[test]
fn test_parse_path() {
    assert_eq!(
        parse_path("/foo/bar123"),
        Ok((String::new(), "/foo/bar123".to_string()))
    );
    assert!(parse_path("foo/bar").is_err());
}

#[test]
fn test_parse_data_block() {
    assert_eq!(
        parse_data_block("{ abc = -3;}"),
        Ok((
            String::new(),
            vec![VarEdit {
                identifier: "abc".to_string(),
                value: Literal::Number(-3),
            }]
        ))
    );
}

#[test]
fn test_parse_var_edits() {
    let expected = vec![
        VarEdit {
            identifier: "abc".to_string(),
            value: Literal::Number(-3),
        },
        VarEdit {
            identifier: "bcd".to_string(),
            value: Literal::Str("42".to_string()),
        },
    ];
    assert_eq!(
        parse_var_edits("abc = -3; bcd = \"42\""),
        Ok((String::new(), expected.clone()))
    );
    assert_eq!(
        parse_var_edits("abc = -3; bcd = \"42\";"),
        Ok((String::new(), expected))
    );
}

#[test]
fn test_parse_dictionary_entry() {
    assert_eq!(
        parse_dictionary_entry("\"aaB\" = (  )"),
        Ok((
            String::new(),
            DictionaryEntry {
                key: "aaB".to_string(),
                datums: Vec::new(),
            }
        ))
    );
}

#[test]
fn test_parse_datums_block() {
    assert_eq!(parse_datums_block("(  )"), Ok((String::new(), Vec::new())));
    assert_eq!(
        parse_datums_block("(   /foo/bar    )"),
        Ok((
            String::new(),
            vec![Datum {
                path: "/foo/bar".to_string(),
                var_edits: Vec::new()
            }]
        ))
    );
}

#[test]
fn test_parse_key() {
    assert_eq!(parse_key("\"abC\""), Ok((String::new(), "abC".to_string())));
}

#[test]
fn test_parse_dmm() {
    assert_eq!(
        parse_dmm("// COMMENT\n\"aaB\" = ( //OTHER COMMENT\n ), \"aaC\" = ()\n(1,2,3) = {\"aaa\nbbb\"}\n(2,3,4) = {\"aac\nbbc\"}"),
        Ok((
            String::new(),
            DMM {
                dictionary: vec![
                    DictionaryEntry {
                        key: "aaB".to_string(),
                        datums: Vec::new(),
                    },
                    DictionaryEntry {
                        key: "aaC".to_string(),
                        datums: Vec::new(),
                    }
                ],
                grid: vec![
                    GridEntry {
                        coords: (1, 2, 3),
                        keys: vec!["aaa".to_string(), "bbb".to_string()],
                    },
                    GridEntry {
                        coords: (2, 3, 4),
                        keys: vec!["aac".to_string(), "bbc".to_string()],
                    },
                ],
            }
        ))
    );
}

#[test]
fn test_parse_grid_entry() {
    assert_eq!(
        parse_grid_entry("(1,2,3) = {\"aaa bbb\"}"),
        Ok((
            String::new(),
            GridEntry {
                coords: (1, 2, 3),
                keys: vec!["aaa".to_string(), "bbb".to_string()],
            }
        ))
    );
}

#[test]
fn test_parse_grid_coord() {
    assert_eq!(parse_grid_coords(" (1,2, 4 )"), Ok((String::new(), (1, 2, 4))));
}

#[test]
fn test_parse_dictionary() {
    assert_eq!(
        parse_dictionary("\"aaB\" = (  ), \"aaC\" = () (1,2,3)"),
        Ok((
            "(1,2,3)".to_string(),
            vec![
                DictionaryEntry {
                    key: "aaB".to_string(),
                    datums: Vec::new(),
                },
                DictionaryEntry {
                    key: "aaC".to_string(),
                    datums: Vec::new(),
                }
            ]
        ))
    );
}

#[test]
fn test_parse_number() {
    assert_eq!(parse_literal("123"), Ok((String::new(), Literal::Number(123))));
    assert_eq!(parse_literal("-1"), Ok((String::new(), Literal::Number(-1))));
}

#[test]
fn test_parse_float() {
    assert_eq!(parsed_float("123.2"), 123.2);
    assert_eq!(parsed_float("-1.2"), -1.2);
    assert_eq!(parsed_float("-1.2E-1"), -1.2E-1);
    assert_eq!(parsed_float("42.e+1"), 42e+1);
    assert_eq!(parsed_float(".2e1"), 0.2e1);
    assert_eq!(parsed_float("5e+006"), 5.0e6);
}

#[test]
fn test_parse_string() {
    assert_eq!(
        parse_literal("\"This is a string\""),
        Ok((String::new(), Literal::Str("This is a string".to_string())))
    );
    assert_eq!(
        parse_literal("\"This is an \\\"escaped\\nstring\""),
        Ok((
            String::new(),
            Literal::Str("This is an \"escaped\nstring".to_string())
        ))
    );
}

#[test]
fn test_var_edit_comm() {
    assert_eq!(
        parse_var_edit("abc // This is a comment\n= -3"),
        Ok((
            String::new(),
            VarEdit {
                identifier: "abc".to_string(),
                value: Literal::Number(-3)
            }
        ))
    );
}

#[test]
fn test_var_edit() {
    assert_eq!(
        parse_var_edit("abc = -3"),
        Ok((
            String::new(),
            VarEdit {
                identifier: "abc".to_string(),
                value: Literal::Number(-3)
            }
        ))
    );
}

#[test]
fn test_parse_identifier() {
    assert_eq!(
        parse_identifier("thi_ngs4"),
        Ok((String::new(), "thi_ngs4".to_string()))
    );
    assert!(parse_identifier("4things").is_err());
}

#[test]
fn literal_float_text_is_kept() {
    assert_eq!(
        parse_literal("-1.2E-1"),
        Ok((String::new(), Literal::Float("-1.2E-1".to_string())))
    );
    assert_eq!(parsed_float("-1.2E-1"), -0.12);
    assert_eq!(parsed_float(".2e1"), 2.0);
    assert_eq!(parsed_float("+5"), 5.0);
}

#[test]
fn literal_integer_limits() {
    assert_eq!(
        parse_literal("-9223372036854775808"),
        Ok((String::new(), Literal::Number(i64::MIN)))
    );
    assert_eq!(
        parse_literal("9223372036854775807"),
        Ok((String::new(), Literal::Number(i64::MAX)))
    );
    assert_eq!(parse_literal("9223372036854775808"), Err(Error::Syntax));
    assert_eq!(parse_literal("-9223372036854775809"), Err(Error::Syntax));
}

#[test]
fn literal_integer_then_exponent_letter_is_float() {
    assert_eq!(
        parse_literal("5e"),
        Ok(("e".to_string(), Literal::Float("5".to_string())))
    );
}

#[test]
fn literal_other_forms() {
    assert_eq!(
        parse_literal("'it\\'s'"),
        Ok((String::new(), Literal::Str("it's".to_string())))
    );
    assert_eq!(
        parse_literal("\"a\\ib\\\\\""),
        Ok((String::new(), Literal::Str("a\\ib\\".to_string())))
    );
    assert_eq!(
        parse_literal("/obj/item_1"),
        Ok((String::new(), Literal::Path("/obj/item_1".to_string())))
    );
    assert_eq!(
        parse_literal("null;"),
        Ok((";".to_string(), Literal::Str("null".to_string())))
    );
    assert_eq!(
        parse_literal("list(1, \"a\" ,list())"),
        Ok((String::new(), Literal::Str("list(1, \"a\" ,list())".to_string())))
    );
    assert_eq!(parse_literal("list(1,)"), Err(Error::Syntax));
    assert_eq!(parse_literal("\"unterminated"), Err(Error::Syntax));
    assert_eq!(parse_literal("\"bad \\q escape\""), Err(Error::Syntax));
    assert_eq!(parse_literal(""), Err(Error::Syntax));
}

#[test]
fn object_with_block() {
    let expected = Datum {
        path: "/obj/machinery/firealarm".to_string(),
        var_edits: vec![
            VarEdit {
                identifier: "dir".to_string(),
                value: Literal::Number(8),
            },
            VarEdit {
                identifier: "name".to_string(),
                value: Literal::Str("thing".to_string()),
            },
        ],
    };
    assert_eq!(
        parse_datum("/obj/machinery/firealarm{ dir = 8; name = \"thing\" }"),
        Ok((String::new(), expected.clone()))
    );
    assert_eq!(
        parse_datum("/obj/machinery/firealarm{ dir = 8; name = \"thing\"; }"),
        Ok((String::new(), expected))
    );
}

#[test]
fn object_with_empty_block() {
    let expected = Datum {
        path: "/obj/a".to_string(),
        var_edits: Vec::new(),
    };
    assert_eq!(parse_datum("/obj/a{}"), Ok((String::new(), expected.clone())));
    assert_eq!(parse_datum("/obj/a{ }"), Ok((String::new(), expected)));
}

#[test]
fn objects_separated_by_commas_or_blanks() {
    let a = Datum {
        path: "/a".to_string(),
        var_edits: Vec::new(),
    };
    let b = Datum {
        path: "/b".to_string(),
        var_edits: Vec::new(),
    };
    assert_eq!(
        parse_datums_block("(/a,\n/b)"),
        Ok((String::new(), vec![a.clone(), b.clone()]))
    );
    assert_eq!(parse_datums_block("(/a /b)"), Ok((String::new(), vec![a, b])));
    assert_eq!(parse_datums_block("(/a,)"), Err(Error::Syntax));
}

#[test]
fn comment_between_tokens_changes_nothing() {
    assert_eq!(
        parse_var_edit("abc // note\n= // more\n -3"),
        parse_var_edit("abc = -3")
    );
    assert_eq!(
        parse_grid_coords("( // c\n1, 2 // d\n, 3)"),
        parse_grid_coords("(1, 2, 3)")
    );
    assert_eq!(parse_var_edit("abc // no newline = 1").map(|r| r.1), Err(Error::Syntax));
}

#[test]
fn grid_tokens_split_only_at_separators() {
    assert_eq!(
        parse_grid_entry("(1,1,1) = {\"aaabbb\nccc\"}"),
        Ok((
            String::new(),
            GridEntry {
                coords: (1, 1, 1),
                keys: vec!["aaabbb".to_string(), "ccc".to_string()],
            }
        ))
    );
}

#[test]
fn grid_coords_out_of_range() {
    assert_eq!(parse_grid_coords("(4294967296,1,1)"), Err(Error::Syntax));
    assert_eq!(
        parse_grid_coords("(4294967295,0,007)"),
        Ok((String::new(), (4294967295, 0, 7)))
    );
}
