use bgm_rank::pagination::{PageError, PageWalker};

fn page(all: &[u32], offset: u64, limit: u32) -> Vec<u32> {
    let start = (offset as usize).min(all.len());
    let end = (start + limit as usize).min(all.len());
    all[start..end].to_vec()
}

/// Walks a consistent server holding `all`; the offsets fetched and the items.
fn walk(all: &[u32], limit: u32) -> (Vec<u64>, Vec<u32>) {
    let mut w = PageWalker::new(limit);
    let mut offsets = Vec::new();
    while let Some(offset) = w.next_offset() {
        offsets.push(offset);
        w.absorb(all.len() as u64, page(all, offset, limit)).unwrap();
    }
    (offsets, w.into_items())
}

#[test]
fn total_137_takes_three_pages() {
    let all: Vec<u32> = (0..137).collect();
    let (offsets, items) = walk(&all, 50);
    assert_eq!(offsets, vec![0, 50, 100]);
    assert_eq!(items.len(), 137);
    assert_eq!(items, all);
}

#[test]
fn total_50_takes_one_page() {
    let all: Vec<u32> = (0..50).collect();
    let (offsets, items) = walk(&all, 50);
    assert_eq!(offsets, vec![0]);
    assert_eq!(items, all);
}

#[test]
fn empty_listing_takes_one_page() {
    let (offsets, items) = walk(&[], 50);
    assert_eq!(offsets, vec![0]);
    assert!(items.is_empty());
}

#[test]
fn short_page_ends_the_walk() {
    let mut w = PageWalker::new(50);
    assert_eq!(w.absorb(100, (0..30).collect()), Ok(()));
    assert!(w.is_done());
    assert_eq!(w.next_offset(), None);
    assert_eq!(w.into_items().len(), 30);
}

#[test]
fn empty_page_before_total_is_stalled() {
    let mut w = PageWalker::new(50);
    assert_eq!(w.absorb(100, (0..50).collect()), Ok(()));
    assert_eq!(w.next_offset(), Some(50));
    assert_eq!(w.absorb(100, vec![]), Err(PageError::Stalled));
}

#[test]
fn page_after_end_is_refused() {
    let mut w: PageWalker<u32> = PageWalker::new(10);
    assert_eq!(w.absorb(3, vec![1, 2, 3]), Ok(()));
    assert_eq!(w.absorb(3, vec![4]), Err(PageError::Finished));
    assert_eq!(w.limit(), 10);
}
