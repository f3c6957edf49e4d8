use fract::coordlist::{fields_of_line, split_fields, CoordList, COORD_SLOTS};

#[test]
fn list_has_a_slot_for_each_number_key() {
    assert_eq!(COORD_SLOTS, 10);
    let list: CoordList<(f64, f64, f64)> = CoordList::new((0.0, 0.0, 1.0), &vec![]);
    assert_eq!(list.len(), 10);
    for i in 0..10 {
        assert_eq!(list.get(i), (0.0, 0.0, 1.0));
    }
}

#[test]
fn lines_that_parsed_fill_the_slots_in_order() {
    let parsed = vec![None, Some(1.5), None, None, Some(-2.0), Some(3.0), None];
    let list: CoordList<f64> = CoordList::new(0.0, &parsed);
    assert_eq!(list.get(0), 1.5);
    assert_eq!(list.get(1), -2.0);
    assert_eq!(list.get(2), 3.0);
    for i in 3..10 {
        assert_eq!(list.get(i), 0.0);
    }
}

#[test]
fn lines_after_the_tenth_are_left_out() {
    let mut parsed = vec![];
    for i in 0..25u32 {
        parsed.push(if i % 2 == 0 { Some(i) } else { None });
    }
    let list: CoordList<u32> = CoordList::new(999, &parsed);
    for i in 0..10 {
        assert_eq!(list.get(i), 2 * i as u32);
    }
    let exact: Vec<Option<u32>> = (0..10).map(Some).collect();
    let list: CoordList<u32> = CoordList::new(999, &exact);
    assert_eq!(list.get(9), 9);
}

#[test]
fn line_is_cut_at_every_separator() {
    let cut = |s: &str| split_fields(&s.as_bytes().to_vec(), b',');
    assert_eq!(cut("1.5, 2,3"), vec![(0, 3), (4, 6), (7, 8)]);
    assert_eq!(cut(""), vec![(0, 0)]);
    assert_eq!(cut("abc"), vec![(0, 3)]);
    assert_eq!(cut("a,,b"), vec![(0, 1), (2, 2), (3, 4)]);
    assert_eq!(cut("a,"), vec![(0, 1), (2, 2)]);
    assert_eq!(cut(","), vec![(0, 0), (1, 1)]);
    assert_eq!(cut(",x"), vec![(0, 0), (1, 2)]);
}

#[test]
fn line_needs_the_expected_number_of_fields() {
    let line = "-0.75, 0.1, 200".as_bytes().to_vec();
    assert_eq!(fields_of_line(&line, b',', 3), Some(vec![(0, 5), (6, 10), (11, 15)]));
    assert_eq!(fields_of_line(&line, b',', 2), None);
    assert_eq!(fields_of_line(&line, b',', 4), None);
    assert_eq!(fields_of_line(&line, b';', 1), Some(vec![(0, 15)]));
    assert_eq!(fields_of_line(&vec![], b',', 0), None);
    assert_eq!(fields_of_line(&vec![], b',', 1), Some(vec![(0, 0)]));
}
