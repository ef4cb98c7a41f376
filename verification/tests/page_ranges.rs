use pdft::cli::{collect_page_indices, parse_page_ranges, PageRange};

fn bounds(v: &[PageRange]) -> Vec<(usize, usize)> {
    v.iter().map(|r| (r.start, r.end)).collect()
}

#[test]
fn parses_ranges_and_single_pages() {
    let r = parse_page_ranges("1-3,5,7-9").unwrap();
    assert_eq!(bounds(&r), vec![(1, 3), (5, 5), (7, 9)]);
}

#[test]
fn blanks_around_parts_are_ignored() {
    let r = parse_page_ranges(" 2 - 4 , ,6 ").unwrap();
    assert_eq!(bounds(&r), vec![(2, 4), (6, 6)]);
}

#[test]
fn page_zero_is_refused() {
    assert_eq!(parse_page_ranges("0").unwrap_err(), "page numbers are 1-indexed");
    assert_eq!(parse_page_ranges("0-3").unwrap_err(), "page numbers are 1-indexed");
}

#[test]
fn reversed_range_is_refused() {
    assert_eq!(parse_page_ranges("5-2").unwrap_err(), "invalid range: 5-2");
}

#[test]
fn non_number_is_refused() {
    assert_eq!(parse_page_ranges("abc").unwrap_err(), "invalid page number: abc");
    assert_eq!(parse_page_ranges("1-x").unwrap_err(), "invalid page number: x");
    assert_eq!(parse_page_ranges(" y -3").unwrap_err(), "invalid page number: y ");
}

#[test]
fn empty_list_is_refused() {
    assert_eq!(parse_page_ranges("").unwrap_err(), "no page ranges specified");
    assert_eq!(parse_page_ranges(" , ,").unwrap_err(), "no page ranges specified");
}

#[test]
fn to_indices_is_zero_based() {
    let r = PageRange { start: 2, end: 4 };
    assert_eq!(r.to_indices().collect::<Vec<usize>>(), vec![1, 2, 3]);
}

#[test]
fn collected_indices_are_sorted_and_unique() {
    let ranges = parse_page_ranges("7-9,1-3,2,8").unwrap();
    assert_eq!(collect_page_indices(&ranges), vec![0, 1, 2, 6, 7, 8]);
}

#[test]
fn collect_of_nothing_is_empty() {
    assert_eq!(collect_page_indices(&[]), Vec::<usize>::new());
}
