use lists::stack::List;

fn basics_body() {
    let mut list: List<i8> = List::new();
    assert_eq!(list.pop(), None);

    list.push(1);
    list.push(2);
    list.push(3);

    assert_eq!(list.pop(), Some(3));
    assert_eq!(list.pop(), Some(2));
    list.push(4);
    assert_eq!(list.pop(), Some(4));
    assert_eq!(list.pop(), Some(1));
    assert_eq!(list.pop(), None);

    let mut list: List<String> = List::new();
    assert_eq!(list.pop(), None);
    list.push("hello".to_string());
    list.push("world".to_string());
    list.push("!".to_string());
    assert_eq!(list.pop(), Some("!".to_string()));
    assert_eq!(list.pop(), Some("world".to_string()));
    assert_eq!(list.pop(), Some("hello".to_string()));
}

fn peek_body() {
    let mut list = List::new();
    assert_eq!(list.peek(), None);
    assert_eq!(list.peek_mut(), None);

    list.push(1);
    list.push(2);
    list.push(3);

    assert_eq!(list.peek(), Some(&3));
    assert_eq!(list.peek_mut(), Some(&mut 3));
    list.peek_mut().map(|value| {
        *value = 100;
    });

    assert_eq!(list.peek(), Some(&100));
    assert_eq!(list.pop(), Some(100));
    assert_eq!(list.pop(), Some(2));
    assert_eq!(list.pop(), Some(1));
}

#[test]
fn main_basics() {
    let mut list: List<i8> = List::new();
    assert_eq!(list.pop(), None);

    list.push(1);
    list.push(2);
    list.push(3);

    assert_eq!(list.pop(), Some(3));
    assert_eq!(list.pop(), Some(2));
    list.push(4);
    assert_eq!(list.pop(), Some(4));
    assert_eq!(list.pop(), Some(1));
    assert_eq!(list.pop(), None);

    let mut list: List<String> = List::new();
    assert_eq!(list.pop(), None);
    list.push("hello".to_string());
    list.push("world".to_string());
    list.push("!".to_string());
    assert_eq!(list.pop(), Some("!".to_string()));
    assert_eq!(list.pop(), Some("world".to_string()));
    assert_eq!(list.pop(), Some("hello".to_string()));
}

#[test]
fn main_peek() {
    let mut list = List::new();
    assert_eq!(list.peek(), None);
    assert_eq!(list.peek_mut(), None);

    list.push(1);
    list.push(2);
    list.push(3);

    assert_eq!(list.peek(), Some(&3));
    assert_eq!(list.peek_mut(), Some(&mut 3));
    list.peek_mut().map(|value| {
        *value = 100;
    });

    assert_eq!(list.peek(), Some(&100));
    assert_eq!(list.pop(), Some(100));
    assert_eq!(list.pop(), Some(2));
    assert_eq!(list.pop(), Some(1));
}

#[test]
fn generic_basics() {
    basics_body();
}

#[test]
fn generic_use_basics() {
    basics_body();
}

#[test]
fn lib_peek() {
    peek_body();
}

#[test]
fn lib_into_iter() {
    let mut list = List::new();
    list.push(1);
    list.push(2);
    list.push(3);

    let mut iter = list.into_iter();
    assert_eq!(iter.next(), Some(3));
    assert_eq!(iter.next(), Some(2));
    assert_eq!(iter.next(), Some(1));
    assert_eq!(iter.next(), None);
}

#[test]
fn lib_iter() {
    let mut list = List::new();
    list.push(1);
    list.push(2);
    list.push(3);

    let mut iter = list.iter();
    assert_eq!(iter.next(), Some(&3));
    assert_eq!(iter.next(), Some(&2));
    assert_eq!(iter.next(), Some(&1));
    assert_eq!(iter.next(), None);
}

#[test]
fn lib_iter_mut() {
    let mut list = List::new();
    list.push(1);
    list.push(2);
    list.push(3);

    let mut iter_mut = list.iter_mut();
    assert_eq!(iter_mut.next(), Some(&mut 3));
    assert_eq!(iter_mut.next(), Some(&mut 2));
    assert_eq!(iter_mut.next(), Some(&mut 1));
    assert_eq!(iter_mut.next(), None);
}

#[test]
fn fresh_stack_reports_absent_everywhere() {
    let mut list: List<u32> = List::new();
    assert_eq!(list.pop(), None);
    assert_eq!(list.peek(), None);
    assert_eq!(list.peek_mut(), None);
    assert_eq!(list.iter().next(), None);
    assert_eq!(list.iter_mut().next(), None);
    assert_eq!(list.into_iter().next(), None);
}

#[test]
fn walks_stay_exhausted() {
    let mut list = List::new();
    list.push(1);
    list.push(2);
    list.push(3);
    {
        let mut it = list.iter();
        assert_eq!(it.next(), Some(&3));
        assert_eq!(it.next(), Some(&2));
        assert_eq!(it.next(), Some(&1));
        assert_eq!(it.next(), None);
        assert_eq!(it.next(), None);
    }
    {
        let mut it = list.iter_mut();
        assert_eq!(it.next(), Some(&mut 3));
        assert_eq!(it.next(), Some(&mut 2));
        assert_eq!(it.next(), Some(&mut 1));
        assert_eq!(it.next(), None);
        assert_eq!(it.next(), None);
    }
    let mut it = list.into_iter();
    assert_eq!(it.next(), Some(3));
    assert_eq!(it.next(), Some(2));
    assert_eq!(it.next(), Some(1));
    assert_eq!(it.next(), None);
    assert_eq!(it.next(), None);
}

#[test]
fn writes_through_iter_mut_stay() {
    let mut list = List::new();
    list.push(1);
    list.push(2);
    list.push(3);
    {
        let mut it = list.iter_mut();
        while let Some(x) = it.next() {
            *x *= 10;
        }
    }
    assert_eq!(list.pop(), Some(30));
    assert_eq!(list.pop(), Some(20));
    assert_eq!(list.pop(), Some(10));
    assert_eq!(list.pop(), None);
}

#[test]
fn generic_long_list_teardown() {
    let mut list = List::new();
    for i in 0..300_000u64 {
        list.push(i);
    }
    drop(list);
}
