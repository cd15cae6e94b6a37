use rizzo::iter::{windows_mut, LendIter, Lend, Zip};

#[test]
fn mod_test_windows_zip() {
    let xs = vec![0, 1, 2, 3, 4, 5];
    let ys = vec![6, 7, 8, 9];

    let windows = windows_mut::<_, 2>(xs);
    let mut iter = windows.zip(ys);
    let mut expect = [(0, 1, 6), (1, 2, 7), (2, 3, 8), (3, 4, 9)].into_iter();
    while let Some(([a, b], c)) = iter.next() {
        assert_eq!((a, b, c), expect.next().unwrap());
    }
}

#[test]
fn adapters_test_windows_zip() {
    let xs = vec![0, 1, 2, 3, 4, 5];
    let ys = vec![6, 7, 8, 9];

    let mut iter = Zip::new(windows_mut::<_, 2>(xs), Lend::new(ys));
    let mut expect = [(0, 1, 6), (1, 2, 7), (2, 3, 8), (3, 4, 9)].into_iter();
    while let Some(([a, b], c)) = iter.next() {
        assert_eq!((a, b, c), expect.next().unwrap());
    }
    assert!(expect.next().is_none());
}

#[test]
fn windows_shorter_than_size_are_empty() {
    let mut w = windows_mut::<u32, 4>(vec![1, 2, 3]);
    assert!(w.next().is_none());
}

#[test]
fn windows_of_three() {
    let mut w = windows_mut::<u32, 3>(vec![1, 2, 3, 4]);
    assert_eq!(w.next(), Some([1, 2, 3]));
    assert_eq!(w.next(), Some([2, 3, 4]));
    assert_eq!(w.next(), None);
}

#[test]
fn zip_stops_at_shorter() {
    let mut z = Zip::new(Lend::new(vec![1u8, 2, 3]), Lend::new(vec!['a', 'b']));
    assert_eq!(z.next(), Some((1, 'a')));
    assert_eq!(z.next(), Some((2, 'b')));
    assert_eq!(z.next(), None);
}
