use smoke::utils::{ArrayVec, CharIter, HistoryIter, HistoryIterView};

#[test]
fn array_vec_grows() {
    let mut av: ArrayVec<u8, 4> = ArrayVec::new();
    assert_eq!(av.len(), 0);
    assert_eq!(av.as_slice(), &[] as &[u8]);

    av.push(0);
    assert_eq!(av.len(), 1);
    assert_eq!(av.as_slice(), &[0]);

    av.push(0);
    av.push(0);
    av.push(0);
    assert_eq!(av.len(), 4);
    assert!(av.is_full());
    assert_eq!(av.as_slice(), &[0, 0, 0, 0]);

    av.clear();
    assert_eq!(av.len(), 0);
    assert_eq!(av.as_slice(), &[] as &[u8]);
}

#[test]
fn char_iter_iterates() {
    let source = "Hello world!";

    let correct: Vec<char> = source.chars().collect();
    let mut from_bytes = CharIter::new(source.bytes().collect());
    let mut decoded = Vec::new();
    while let Some(c) = from_bytes.next() {
        decoded.push(c);
    }

    assert_eq!(decoded, correct);
}

#[test]
fn char_iter_decodes_multibyte_characters() {
    let source = "héllo → 😀";
    let mut it = CharIter::new(source.bytes().collect());
    let mut decoded = String::new();
    while let Some(c) = it.next() {
        decoded.push(c);
    }
    assert_eq!(decoded, source);
}

#[test]
fn char_iter_stops_on_invalid_bytes() {
    let mut it = CharIter::new(vec![b'a', 0xff, 0xff, 0xff, 0xff, b'b']);
    assert_eq!(it.next(), Some('a'));
    assert_eq!(it.next(), None);
    assert_eq!(it.next(), Some('b'));
    assert_eq!(it.next(), None);
}

const SOURCE: &[usize] = &[1, 2, 3];

#[test]
fn master_iterates() {
    let mut lock = HistoryIter::new(SOURCE.to_vec());

    for item in SOURCE {
        assert_eq!(lock.next(), Some(*item));
    }
    assert_eq!(lock.next(), None);
}

#[test]
fn view_iterates() {
    let mut iter = HistoryIter::new(SOURCE.to_vec());
    let mut view = HistoryIterView::new();

    for item in SOURCE {
        assert_eq!(view.next(&mut iter), Some(*item));
    }
    assert_eq!(view.next(&mut iter), None);
}

#[test]
fn second_view_replays_history() {
    let mut iter = HistoryIter::new(SOURCE.to_vec());
    let mut first = HistoryIterView::new();
    assert_eq!(first.next(&mut iter), Some(1));
    assert_eq!(first.next(&mut iter), Some(2));
    let mut second = HistoryIterView::new();
    assert!(!second.is_caught_up(&iter));
    assert_eq!(second.next(&mut iter), Some(1));
    assert_eq!(second.next(&mut iter), Some(2));
    assert!(second.is_caught_up(&iter));
    assert_eq!(second.next(&mut iter), Some(3));
    assert_eq!(first.next(&mut iter), Some(3));
    assert_eq!(first.next(&mut iter), None);
}
