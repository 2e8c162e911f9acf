use grapple_db::source::VecSource;
use grapple_db::stream::PagedStream;
use grapple_db::Pagable;

fn ok_source(items: &[&str]) -> VecSource<String, String> {
    VecSource::new(items.iter().map(|s| Ok(s.to_string())).collect())
}

fn source_of(entries: Vec<Result<&str, &str>>) -> VecSource<String, String> {
    VecSource::new(
        entries
            .into_iter()
            .map(|e| e.map(|s| s.to_string()).map_err(|s| s.to_string()))
            .collect(),
    )
}

fn page(ps: &mut PagedStream<VecSource<String, String>>) -> Option<Vec<String>> {
    ps.next_page().map(|p| p.to_vec())
}

fn strings(items: &[&str]) -> Vec<String> {
    items.iter().map(|s| s.to_string()).collect()
}

#[test]
fn five_items_page_size_three() {
    let mut ps = PagedStream::new(ok_source(&["A", "B", "C", "D", "E"]), 3);
    assert_eq!(page(&mut ps), Some(strings(&["A", "B", "C"])));
    assert_eq!(page(&mut ps), Some(strings(&["D", "E"])));
    assert_eq!(page(&mut ps), None);
    assert_eq!(ps.page_index(), 2);
}

#[test]
fn skip_then_next_page_size_two() {
    let mut ps = PagedStream::new(ok_source(&["A", "B", "C", "D"]), 2);
    ps.skip_page();
    assert_eq!(ps.page_items(), &[] as &[String]);
    assert_eq!(page(&mut ps), Some(strings(&["C", "D"])));
}

#[test]
fn error_truncates_page() {
    let mut ps = PagedStream::new(
        source_of(vec![Ok("A"), Ok("B"), Err("boom"), Ok("C"), Ok("D"), Ok("E")]),
        5,
    );
    assert_eq!(page(&mut ps), Some(strings(&["A", "B"])));
    // The in-memory source resumes past its error; the items after it
    // come in the next page. A driver stream would instead be spent.
    assert_eq!(page(&mut ps), Some(strings(&["C", "D", "E"])));
    assert_eq!(page(&mut ps), None);
}

#[test]
fn terminal_error_exhausts() {
    let mut ps = PagedStream::new(source_of(vec![Ok("A"), Err("boom")]), 4);
    assert_eq!(page(&mut ps), Some(strings(&["A"])));
    assert_eq!(page(&mut ps), None);
    assert_eq!(page(&mut ps), None);
    assert_eq!(ps.page_items(), &[] as &[String]);
}

#[test]
fn exact_multiple_has_full_last_page() {
    let mut ps = PagedStream::new(ok_source(&["A", "B", "C", "D"]), 2);
    assert_eq!(page(&mut ps), Some(strings(&["A", "B"])));
    assert_eq!(page(&mut ps), Some(strings(&["C", "D"])));
    assert_eq!(page(&mut ps), None);
    assert_eq!(page(&mut ps), None);
    assert_eq!(ps.page_index(), 2);
}

#[test]
fn no_page_is_permanent_and_buffer_stays_empty() {
    let mut ps = PagedStream::new(ok_source(&["A"]), 1);
    assert_eq!(page(&mut ps), Some(strings(&["A"])));
    assert_eq!(page(&mut ps), None);
    assert_eq!(ps.page_items(), &[] as &[String]);
    assert_eq!(page(&mut ps), None);
    assert_eq!(ps.page_items(), &[] as &[String]);
    assert_eq!(ps.page_index(), 1);
}

#[test]
fn empty_source_has_no_page() {
    let mut ps = PagedStream::new(ok_source(&[]), 3);
    assert_eq!(page(&mut ps), None);
    assert_eq!(ps.page_index(), 0);
}

#[test]
fn partial_final_page_smaller_than_size() {
    let mut ps = PagedStream::new(ok_source(&["A", "B", "C", "D", "E"]), 4);
    assert_eq!(page(&mut ps), Some(strings(&["A", "B", "C", "D"])));
    assert_eq!(page(&mut ps), Some(strings(&["E"])));
    assert_eq!(page(&mut ps), None);
}

#[test]
fn skip_pages_equals_repeated_skip_page() {
    let items = ["A", "B", "C", "D", "E", "F", "G"];
    let mut bulk = PagedStream::new(ok_source(&items), 2);
    bulk.skip_pages(2);
    let mut one_by_one = PagedStream::new(ok_source(&items), 2);
    one_by_one.skip_page();
    one_by_one.skip_page();
    assert_eq!(bulk.page_index(), one_by_one.page_index());
    assert_eq!(page(&mut bulk), page(&mut one_by_one));
    assert_eq!(page(&mut bulk), page(&mut one_by_one));
}

#[test]
fn skip_pages_zero_or_negative_is_a_no_op() {
    let mut ps = PagedStream::new(ok_source(&["A", "B"]), 1);
    ps.skip_pages(0);
    assert_eq!(ps.page_index(), 0);
    ps.skip_pages(-3);
    assert_eq!(ps.page_index(), 0);
    assert_eq!(page(&mut ps), Some(strings(&["A"])));
}

#[test]
fn skip_on_exhausted_source_does_not_advance_counter() {
    let mut ps = PagedStream::new(ok_source(&["A"]), 2);
    ps.skip_page();
    assert_eq!(ps.page_index(), 1);
    ps.skip_page();
    assert_eq!(ps.page_index(), 1);
    ps.skip_pages(3);
    assert_eq!(ps.page_index(), 1);
}

#[test]
fn skip_discards_errors_like_items() {
    let mut ps = PagedStream::new(source_of(vec![Ok("A"), Err("boom"), Ok("B")]), 2);
    ps.skip_page();
    assert_eq!(ps.page_index(), 1);
    assert_eq!(page(&mut ps), Some(strings(&["B"])));
}

#[test]
fn page_size_zero_never_produces_a_page() {
    let mut ps = PagedStream::new(ok_source(&["A", "B"]), 0);
    assert_eq!(page(&mut ps), None);
    assert_eq!(ps.page_index(), 0);
    ps.skip_page();
    assert_eq!(ps.page_index(), 0);
}

#[test]
fn error_only_source_yields_no_page() {
    let mut ps = PagedStream::new(source_of(vec![Err("boom")]), 3);
    assert_eq!(page(&mut ps), None);
    assert_eq!(ps.page_index(), 0);
    assert_eq!(page(&mut ps), None);
}

#[test]
fn pagination_keeps_source_order() {
    let items = ["g", "a", "q", "z", "m"];
    let mut ps = PagedStream::new(ok_source(&items), 2);
    let mut seen: Vec<String> = Vec::new();
    while let Some(p) = ps.next_page() {
        seen.extend(p.iter().cloned());
    }
    assert_eq!(seen, strings(&items));
    assert_eq!(ps.page_index(), 3);
}
