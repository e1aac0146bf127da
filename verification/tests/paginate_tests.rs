use blades::paginate::{gallery_ring, paginate_spans, Pagination};

#[test]
fn three_units_of_twenty_three() {
    // a range of length 23 with page size 10 yields units of 10, 10 and 3
    let units = paginate_spans(0, 23, 10);
    assert_eq!(units.len(), 3);
    assert_eq!((units[0].0.start, units[0].0.end), (0, 10));
    assert_eq!((units[1].0.start, units[1].0.end), (10, 20));
    assert_eq!((units[2].0.start, units[2].0.end), (20, 23));
    assert_eq!(units[0].1.previous, None);
    assert_eq!(units[0].1.next, Some(2));
    assert_eq!(units[0].1.current, 1);
    assert_eq!(units[0].1.length, 3);
    assert_eq!(units[2].1.previous, Some(2));
    assert_eq!(units[2].1.next, None);
    assert_eq!(units[2].1.current, 3);
}

#[test]
fn page_size_clamped_to_range() {
    // a page size larger than the content behaves as the content length
    let units = paginate_spans(5, 8, 100);
    assert_eq!(units.len(), 1);
    assert_eq!((units[0].0.start, units[0].0.end), (5, 8));
    assert_eq!(units[0].1.previous, None);
    assert_eq!(units[0].1.next, None);
}

#[test]
fn exact_division() {
    let units = paginate_spans(0, 20, 10);
    assert_eq!(units.len(), 2);
    assert_eq!((units[1].0.start, units[1].0.end), (10, 20));
}

#[test]
fn pagination_descriptor_middle() {
    let p = Pagination::new(5, 3);
    assert_eq!(p.previous, Some(2));
    assert_eq!(p.next, Some(4));
    assert_eq!(p.current, 3);
    assert_eq!(p.length, 5);
}

#[test]
fn gallery_of_four_is_circular() {
    // picture 0's previous is picture 3; picture 3's next is picture 0
    let ring = gallery_ring(4);
    assert_eq!(ring.len(), 4);
    assert_eq!(ring[0].0, 3);
    assert_eq!(ring[0].1, 1);
    assert_eq!(ring[1].0, 0);
    assert_eq!(ring[2].1, 3);
    assert_eq!(ring[3].0, 2);
    assert_eq!(ring[3].1, 0);
}

#[test]
fn gallery_of_one_points_at_itself() {
    let ring = gallery_ring(1);
    assert_eq!(ring[0], (0, 0));
}
