use std::collections::HashMap;

use dmm::{Coords, Datum, Error, Key, KeyStrConverter, Literal, DMM};

fn firealarm() -> Datum {
    Datum::with_var_edits(
        "/obj/machinery/firealarm",
        vec![
            ("dir".to_string(), Literal::Number(8)),
            ("name".to_string(), Literal::Str("thing".to_string())),
        ],
    )
}

fn dictionary() -> Vec<(Key, Vec<Datum>)> {
    vec![
        (
            Key::new(0),
            vec![
                Datum::new("/turf/open/space/basic"),
                Datum::new("/area/space"),
            ],
        ),
        (Key::new(1), vec![firealarm()]),
    ]
}

#[test]
fn test_iterator() {
    let dmm = DMM::new(
        dictionary(),
        vec![
            ((1, 1, 1), vec![Key::new(0), Key::new(1)]),
            ((2, 1, 1), vec![Key::new(0)]),
        ],
    )
    .expect("every key is in the dictionary");
    let mut iterator = dmm.iter();
    let mut cells: HashMap<Coords, &[Datum]> = HashMap::new();
    while let Some((c, ds)) = iterator.next() {
        cells.insert(c, ds);
    }

    let basic = [
        Datum::new("/turf/open/space/basic"),
        Datum::new("/area/space"),
    ];
    let alarm = [firealarm()];
    let expected: HashMap<Coords, &[Datum]> = vec![
        ((1, 1, 1), &basic[..]),
        ((1, 2, 1), &alarm[..]),
        ((2, 1, 1), &basic[..]),
    ]
    .into_iter()
    .collect();
    assert_eq!(cells, expected);
}

#[test]
fn iterator_follows_grid_order_and_ends() {
    let dmm = DMM::new(
        dictionary(),
        vec![
            ((5, 7, 1), vec![Key::new(1), Key::new(0), Key::new(1)]),
            ((0, 0, 0), vec![]),
            ((2, 4294967295, 3), vec![Key::new(0), Key::new(0)]),
        ],
    )
    .unwrap();
    let mut it = dmm.iter();
    let mut order = Vec::new();
    while let Some((c, ds)) = it.next() {
        order.push((c, ds.len()));
    }
    assert_eq!(
        order,
        vec![
            ((5, 7, 1), 1),
            ((5, 8, 1), 2),
            ((5, 9, 1), 1),
            ((2, 4294967295, 3), 2),
            ((2, 0, 3), 2),
        ]
    );
    assert!(it.next().is_none());
}

#[test]
fn missing_key_is_reported() {
    let r = DMM::new(dictionary(), vec![((3, 2, 1), vec![Key::new(0), Key::new(7)])]);
    assert_eq!(
        r,
        Err(Error::MissingKey {
            key: KeyStrConverter::key_to_str(Key::new(7)),
            coords: (3, 2, 1),
        })
    );
}

#[test]
fn later_entries_replace_earlier_ones() {
    let dmm = DMM::new(
        vec![
            (Key::new(3), vec![Datum::new("/old")]),
            (Key::new(4), vec![]),
            (Key::new(3), vec![Datum::new("/new")]),
        ],
        vec![((1, 1, 1), vec![Key::new(4)]), ((1, 1, 1), vec![Key::new(3)])],
    )
    .unwrap();
    assert_eq!(dmm.dictionary().len(), 2);
    assert_eq!(dmm.dictionary()[0].0, Key::new(3));
    assert_eq!(dmm.datums(Key::new(3)), Some(&[Datum::new("/new")][..]));
    assert_eq!(dmm.datums(Key::new(9)), None);
    assert_eq!(dmm.keys_at((1, 1, 1)), Some(&[Key::new(3)][..]));
    assert_eq!(dmm.keys_at((1, 1, 2)), None);
    assert_eq!(dmm.grid().len(), 1);
}

#[test]
fn last_field_edit_wins() {
    let d = Datum::with_var_edits(
        "/obj/x",
        vec![
            ("a".to_string(), Literal::Number(1)),
            ("b".to_string(), Literal::Number(2)),
            ("a".to_string(), Literal::Number(3)),
        ],
    );
    assert_eq!(d.path(), "/obj/x");
    assert_eq!(
        d.var_edits(),
        &[
            ("a".to_string(), Literal::Number(3)),
            ("b".to_string(), Literal::Number(2)),
        ][..]
    );
    assert_eq!(Datum::new("/p").var_edits().len(), 0);
}
