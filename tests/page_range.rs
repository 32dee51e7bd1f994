use unico::page::{PageRange, PageType, PAGE_SIZE};

fn pieces(start: u64, end: u64) -> Vec<(u64, usize, usize, bool)> {
    let mut range = PageRange::new(start, end);
    let mut out = Vec::new();
    while let Some(p) = range.next() {
        out.push(match p {
            PageType::FullPage { number } => (number, 0, PAGE_SIZE, true),
            PageType::PartialPage { number, offset, size } => (number, offset, size, false),
        });
    }
    out
}

#[test]
fn empty_range_has_no_piece() {
    assert!(pieces(5, 5).is_empty());
    assert!(pieces(9, 3).is_empty());
}

#[test]
fn whole_pages_come_out_full() {
    let ps = PAGE_SIZE as u64;
    assert_eq!(
        pieces(0, 3 * ps),
        vec![(0, 0, PAGE_SIZE, true), (1, 0, PAGE_SIZE, true), (2, 0, PAGE_SIZE, true)]
    );
}

#[test]
fn unaligned_range_is_cut_at_boundaries() {
    let ps = PAGE_SIZE as u64;
    assert_eq!(
        pieces(10, 2 * ps + 5),
        vec![(0, 10, PAGE_SIZE - 10, false), (1, 0, PAGE_SIZE, true), (2, 0, 5, false)]
    );
}

#[test]
fn range_inside_one_page() {
    let ps = PAGE_SIZE as u64;
    assert_eq!(pieces(ps + 3, ps + 7), vec![(1, 3, 4, false)]);
    assert_eq!(pieces(0, 1), vec![(0, 0, 1, false)]);
}

#[test]
fn range_at_the_top_of_u64() {
    let ps = PAGE_SIZE as u64;
    let last_page = u64::MAX / ps;
    assert_eq!(
        pieces(u64::MAX - 2, u64::MAX),
        vec![(last_page, ((u64::MAX - 2) % ps) as usize, 2, false)]
    );
}
