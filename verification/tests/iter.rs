use kuwahara::ImageIterator;

fn collect(mut it: ImageIterator) -> Vec<(u32, u32)> {
    let mut out = Vec::new();
    while let Some(p) = it.next() {
        out.push(p);
    }
    out
}

#[test]
fn row_major_order() {
    let got = collect(ImageIterator::new(3, 2));
    assert_eq!(got, vec![(0, 0), (1, 0), (2, 0), (0, 1), (1, 1), (2, 1)]);
}

#[test]
fn empty_bounds_yield_empty_sequence() {
    assert_eq!(collect(ImageIterator::new(0, 5)), vec![]);
    assert_eq!(collect(ImageIterator::new(5, 0)), vec![]);
    assert_eq!(collect(ImageIterator::new(0, 0)), vec![]);
}

#[test]
fn restarting_repeats_the_sequence() {
    let first = collect(ImageIterator::new(4, 3));
    let second = collect(ImageIterator::new(4, 3));
    assert_eq!(first.len(), 12);
    assert_eq!(first, second);
}

#[test]
fn single_cell() {
    let mut it = ImageIterator::new(1, 1);
    assert_eq!(it.next(), Some((0, 0)));
    assert_eq!(it.next(), None);
    assert_eq!(it.next(), None);
}
