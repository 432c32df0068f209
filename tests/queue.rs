use lists::queue::List;

#[test]
fn tail_cached_basics() {
    let mut list = List::new();
    assert_eq!(list.pop(), None);
    list.push(1);
    list.push(2);
    list.push(3);
    assert_eq!(list.pop(), Some(1));
    assert_eq!(list.pop(), Some(2));
}

#[test]
fn arena_basics() {
    let mut list = List::new();
    assert_eq!(list.pop(), None);

    list.push(1);
    list.push(2);
    list.push(3);
    assert_eq!(list.pop(), Some(1));
    assert_eq!(list.pop(), Some(2));
    assert_eq!(list.pop(), Some(3));
    assert_eq!(list.pop(), None);
}

#[test]
fn arena_into_iter() {
    let mut list = List::new();
    list.push(1);
    list.push(2);
    list.push(3);

    let mut iter = list.into_iter();
    assert_eq!(iter.next(), Some(1));
    assert_eq!(iter.next(), Some(2));
}

#[test]
fn arena_iter() {
    let mut list = List::new();
    list.push(1);
    list.push(2);
    list.push(3);

    let mut iter = list.iter();
    assert_eq!(iter.next(), Some(&1));
    assert_eq!(iter.next(), Some(&2));
}

#[test]
fn iter_mut() {
    let mut list = List::new();
    list.push(1);
    list.push(2);
    list.push(3);

    let mut iter = list.iter_mut();
    assert_eq!(iter.next(), Some(&mut 1));
    assert_eq!(iter.next(), Some(&mut 2));
}

#[test]
fn tail_is_dropped_when_emptied_and_rebuilt() {
    let mut list = List::new();
    list.push(1);
    assert_eq!(list.pop(), Some(1));
    assert_eq!(list.pop(), None);
    list.push(2);
    list.push(3);
    assert_eq!(list.pop(), Some(2));
    list.push(4);
    assert_eq!(list.pop(), Some(3));
    assert_eq!(list.pop(), Some(4));
    assert_eq!(list.pop(), None);
}

#[test]
fn arena_walks_after_pops() {
    let mut list = List::new();
    for i in 1..=5 {
        list.push(i);
    }
    assert_eq!(list.pop(), Some(1));
    assert_eq!(list.pop(), Some(2));
    {
        let mut it = list.iter_mut();
        while let Some(x) = it.next() {
            *x += 100;
        }
        assert_eq!(it.next(), None);
    }
    let mut it = list.iter();
    assert_eq!(it.next(), Some(&103));
    assert_eq!(it.next(), Some(&104));
    assert_eq!(it.next(), Some(&105));
    assert_eq!(it.next(), None);
    assert_eq!(it.next(), None);
    let mut all = list.into_iter();
    assert_eq!(all.next(), Some(103));
    assert_eq!(all.next(), Some(104));
    assert_eq!(all.next(), Some(105));
    assert_eq!(all.next(), None);
    assert_eq!(all.next(), None);
}

#[test]
fn fresh_queue_reports_absent_everywhere() {
    let mut list: List<u8> = List::new();
    assert_eq!(list.pop(), None);
    assert_eq!(list.iter().next(), None);
    assert_eq!(list.iter_mut().next(), None);
    assert_eq!(list.into_iter().next(), None);
}

#[test]
fn arena_long_list_teardown() {
    let mut list = List::new();
    for i in 0..300_000u64 {
        list.push(i);
    }
    drop(list);
}

#[test]
fn arena_moves_down_after_many_pops() {
    let mut list = List::new();
    for i in 0..10 {
        list.push(i);
    }
    for i in 0..6 {
        assert_eq!(list.pop(), Some(i));
    }
    list.push(10);
    list.push(11);
    let mut it = list.iter();
    assert_eq!(it.next(), Some(&6));
    assert_eq!(it.next(), Some(&7));
    for i in 6..12 {
        assert_eq!(list.pop(), Some(i));
    }
    assert_eq!(list.pop(), None);
}

#[test]
fn steady_first_in_first_out_traffic() {
    let mut list = List::new();
    list.push(0u64);
    for i in 1..100_000u64 {
        list.push(i);
        assert_eq!(list.pop(), Some(i - 1));
    }
    assert_eq!(list.pop(), Some(99_999));
    assert_eq!(list.pop(), None);
}
