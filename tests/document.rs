use dmm::{from_str, Coords, Datum, Error, Key, Literal, DMM};

const SOURCE: &str = r#"// Comment
"aaa" = (
/turf/open/space/basic,
/area/space),
"aab" = (
/obj/machinery/firealarm{
        dir = 8;
        name = "thing"
        }
)

(1,1,1) = {"
aaa
aab
"}
"#;

fn expected_map() -> DMM {
    DMM::new(
        vec![
            (
                Key::new(0),
                vec![
                    Datum::new("/turf/open/space/basic"),
                    Datum::new("/area/space"),
                ],
            ),
            (
                Key::new(1),
                vec![Datum::with_var_edits(
                    "/obj/machinery/firealarm",
                    vec![
                        ("dir".to_string(), Literal::Number(8)),
                        ("name".to_string(), Literal::Str("thing".to_string())),
                    ],
                )],
            ),
        ],
        vec![((1, 1, 1), vec![Key::new(0), Key::new(1)])],
    )
    .unwrap()
}

fn cells(dmm: &DMM) -> Vec<(Coords, Vec<Datum>)> {
    let mut it = dmm.iter();
    let mut out = Vec::new();
    while let Some((c, ds)) = it.next() {
        out.push((c, ds.to_vec()));
    }
    out
}

#[test]
fn test_parse_str() {
    assert_eq!(from_str(SOURCE).expect("Should have parsed"), expected_map());
}

#[test]
fn full_document_cells() {
    let dmm = from_str(
        "\"aaa\" = (/turf/open/space/basic, /area/space),\n\"aab\" = (/obj/machinery/firealarm{ dir = 8; name = \"thing\" })\n\n(1,1,1) = {\"\naaa\naab\n\"}\n",
    )
    .unwrap();
    assert_eq!(dmm, expected_map());
    assert_eq!(
        cells(&dmm),
        vec![
            (
                (1, 1, 1),
                vec![
                    Datum::new("/turf/open/space/basic"),
                    Datum::new("/area/space")
                ]
            ),
            (
                (1, 2, 1),
                vec![Datum::with_var_edits(
                    "/obj/machinery/firealarm",
                    vec![
                        ("dir".to_string(), Literal::Number(8)),
                        ("name".to_string(), Literal::Str("thing".to_string())),
                    ],
                )]
            ),
        ]
    );
}

#[test]
fn trailing_characters_are_rejected() {
    for tail in ["x", "(", "\"", ",", "// no newline", "\n\n)"] {
        let text = format!("{}{}", SOURCE, tail);
        assert_eq!(from_str(&text), Err(Error::TrailingCharacters), "{:?}", tail);
    }
}

#[test]
fn trailing_blank_lines_are_accepted() {
    for tail in ["\n\n", "   \n", "\r\n", "\t", "// note\n"] {
        let text = format!("{}{}", SOURCE, tail);
        assert_eq!(from_str(&text), Ok(expected_map()), "{:?}", tail);
    }
}

#[test]
fn comments_do_not_change_the_map() {
    let commented = "// head\n\"aaa\" = ( // objects\n/turf/open/space/basic, // turf\n/area/space), // next\n\"aab\" = (/obj/machinery/firealarm{ dir // d\n = 8; name = \"thing\" })\n// grid\n(1,1,1) // c\n = {\"\naaa // first\naab\n\"}\n";
    let plain = "\"aaa\" = (/turf/open/space/basic, /area/space), \"aab\" = (/obj/machinery/firealarm{ dir = 8; name = \"thing\" }) (1,1,1) = {\"aaa aab\"}";
    assert_eq!(from_str(commented), from_str(plain));
    assert_eq!(from_str(plain), Ok(expected_map()));
}

#[test]
fn empty_document() {
    assert_eq!(from_str(""), DMM::new(vec![], vec![]));
    assert_eq!(from_str("\n\n"), DMM::new(vec![], vec![]));
}

#[test]
fn invalid_dictionary_key() {
    assert_eq!(
        from_str("\"aaaa\" = ()"),
        Err(Error::InvalidKey {
            key: "aaaa".to_string(),
            coords: None
        })
    );
}

#[test]
fn invalid_grid_key() {
    assert_eq!(
        from_str("\"aaa\" = ()\n(4,5,6) = {\"aaa\naaaaab\"}"),
        Err(Error::InvalidKey {
            key: "aaaaab".to_string(),
            coords: Some((4, 5, 6))
        })
    );
    assert_eq!(
        from_str("\"aaa\" = ()\n(4,5,6) = {\"aa\u{e9}\"}"),
        Err(Error::InvalidKey {
            key: "aa\u{e9}".to_string(),
            coords: Some((4, 5, 6))
        })
    );
}

#[test]
fn grid_key_without_entry() {
    assert_eq!(
        from_str("\"aaa\" = ()\n(4,5,6) = {\"aaa\naab\"}"),
        Err(Error::MissingKey {
            key: "aab".to_string(),
            coords: (4, 5, 6)
        })
    );
}

#[test]
fn malformed_entry_leaves_trailing_text() {
    assert_eq!(
        from_str("\"aaa\" = (/a{ x = }) (1,1,1) = {\"aaa\"}"),
        Err(Error::TrailingCharacters)
    );
}
