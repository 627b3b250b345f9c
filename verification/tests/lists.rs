use labkit::linked_list::dlist::DList;
use labkit::linked_list::double_linked::List as TwoEnded;
use labkit::linked_list::list1::List as ConsList;
use labkit::linked_list::list2::List as NodeList;

#[test]
fn cons_list_is_a_stack() {
    let mut l: ConsList<i32> = ConsList::new();
    assert_eq!(l.peek(), None);
    assert_eq!(l.pop(), None);
    l.push(1);
    l.push(2);
    l.push(3);
    assert_eq!(l.peek(), Some(&3));
    assert_eq!(l.pop(), Some(3));
    assert_eq!(l.pop(), Some(2));
    l.push(4);
    assert_eq!(l.pop(), Some(4));
    assert_eq!(l.pop(), Some(1));
    assert_eq!(l.pop(), None);
}

#[test]
fn cons_list_is_walked_from_the_front() {
    let mut l: ConsList<i32> = ConsList::new();
    l.push(1);
    l.push(2);
    l.push(3);
    let mut it = l.iter();
    assert_eq!(it.next(), Some(&3));
    assert_eq!(it.next(), Some(&2));
    assert_eq!(it.next(), Some(&1));
    assert_eq!(it.next(), None);
    assert_eq!(it.next(), None);
    assert_eq!(l.peek(), Some(&3));
}

#[test]
fn cons_list_take_moves_the_front_in_reverse() {
    let mut l: ConsList<i32> = ConsList::new();
    for x in 1..=5 {
        l.push(x);
    }
    let mut t = l.take(2);
    assert_eq!(t.pop(), Some(4));
    assert_eq!(t.pop(), Some(5));
    assert_eq!(t.pop(), None);
    assert_eq!(l.peek(), Some(&3));
    let mut all = l.take(10);
    assert_eq!(all.pop(), Some(1));
    assert_eq!(all.pop(), Some(2));
    assert_eq!(all.pop(), Some(3));
    assert_eq!(all.pop(), None);
    assert_eq!(l.pop(), None);
    assert_eq!(l.take(0).pop(), None);
}

#[test]
fn node_list_is_a_stack() {
    let mut l: NodeList<String> = NodeList::new();
    assert_eq!(l.peek(), None);
    l.push("a".to_string());
    l.push("b".to_string());
    assert_eq!(l.peek(), Some(&"b".to_string()));
    assert_eq!(l.pop(), Some("b".to_string()));
    assert_eq!(l.pop(), Some("a".to_string()));
    assert_eq!(l.pop(), None);
}

#[test]
fn node_list_walk_and_take() {
    let mut l: NodeList<i32> = NodeList::new();
    for x in 1..=4 {
        l.push(x);
    }
    let seen: Vec<i32> = {
        let mut it = l.iter();
        let mut v = Vec::new();
        while let Some(x) = it.next() {
            v.push(*x);
        }
        v
    };
    assert_eq!(seen, vec![4, 3, 2, 1]);
    let mut t = l.take(3);
    assert_eq!(t.pop(), Some(2));
    assert_eq!(t.pop(), Some(3));
    assert_eq!(t.pop(), Some(4));
    assert_eq!(t.pop(), None);
    assert_eq!(l.pop(), Some(1));
}

#[test]
fn dlist_takes_in_at_the_front_and_gives_out_at_the_back() {
    let mut l: DList<i32> = DList::new();
    assert_eq!(l.pop_back(), None);
    assert_eq!(l.peek(), None);
    l.push_front(1);
    l.push_front(2);
    l.push_front(3);
    assert_eq!(l.peek(), Some(&3));
    assert_eq!(l.pop_back(), Some(1));
    assert_eq!(l.pop_back(), Some(2));
    assert_eq!(l.pop_back(), Some(3));
    assert_eq!(l.pop_back(), None);
}

#[test]
fn dlist_gives_out_from_any_place() {
    let mut l: DList<i32> = DList::new();
    for x in 1..=4 {
        l.push_front(x);
    }
    assert_eq!(l.popn(4), None);
    assert_eq!(l.popn(1), Some(3));
    assert_eq!(l.popn(0), Some(4));
    assert_eq!(l.popn(1), Some(1));
    assert_eq!(l.popn(0), Some(2));
    assert_eq!(l.popn(0), None);
}

#[test]
fn dlist_is_walked_from_the_front() {
    let mut l: DList<i32> = DList::new();
    l.push_front(1);
    l.push_front(2);
    let mut it = l.iter();
    assert_eq!(it.next().map(|n| n.v), Some(2));
    assert_eq!(it.next().map(|n| n.v), Some(1));
    assert!(it.next().is_none());
    assert!(it.next().is_none());
}

fn two_ended(items: &[i32]) -> TwoEnded<i32> {
    let mut l: TwoEnded<i32> = TwoEnded::new();
    for x in items {
        l.push_tail(*x);
    }
    l
}

fn seen_from_head(l: &TwoEnded<i32>) -> Vec<i32> {
    let mut it = l.iter_head();
    let mut v = Vec::new();
    while let Some(x) = it.next() {
        v.push(*x);
    }
    v
}

#[test]
fn two_ended_list_takes_in_at_both_ends() {
    let mut l: TwoEnded<i32> = TwoEnded::new();
    assert_eq!(l.peek_head(), None);
    assert_eq!(l.peek_tail(), None);
    l.push_head(2);
    l.push_head(1);
    l.push_tail(3);
    assert_eq!(l.peek_head(), Some(&1));
    assert_eq!(l.peek_tail(), Some(&3));
    assert_eq!(seen_from_head(&l), vec![1, 2, 3]);
}

#[test]
fn two_ended_list_gives_out_at_both_ends() {
    let mut l = two_ended(&[1, 2, 3, 4]);
    assert_eq!(l.pop_head(), Some(1));
    assert_eq!(l.pop_tail(), Some(4));
    assert_eq!(l.pop_tail(), Some(3));
    assert_eq!(l.pop_head(), Some(2));
    assert_eq!(l.pop_head(), None);
    assert_eq!(l.pop_tail(), None);
    l.push_tail(9);
    assert_eq!(l.peek_head(), Some(&9));
    assert_eq!(l.pop_head(), Some(9));
}

#[test]
fn two_ended_list_gives_out_from_any_place() {
    let mut l = two_ended(&[1, 2, 3, 4]);
    assert_eq!(l.pop_n(4), None);
    assert_eq!(l.pop_n(2), Some(3));
    assert_eq!(l.pop_n(0), Some(1));
    assert_eq!(seen_from_head(&l), vec![2, 4]);
    assert_eq!(l.pop_n(1), Some(4));
    assert_eq!(l.pop_n(0), Some(2));
    assert_eq!(l.pop_n(0), None);
}

#[test]
fn two_ended_list_is_walked_from_either_end() {
    let l = two_ended(&[1, 2, 3]);
    assert_eq!(seen_from_head(&l), vec![1, 2, 3]);
    let mut it = l.iter_tail();
    assert_eq!(it.next(), Some(&3));
    assert_eq!(it.next(), Some(&2));
    assert_eq!(it.next(), Some(&1));
    assert_eq!(it.next(), None);
    assert_eq!(it.next(), None);
    let empty: TwoEnded<i32> = TwoEnded::new();
    assert_eq!(empty.iter_head().next(), None);
    assert_eq!(empty.iter_tail().next(), None);
}

#[test]
fn two_ended_list_take_moves_the_head_in_reverse() {
    let mut l = two_ended(&[1, 2, 3, 4, 5]);
    let t = l.take(2);
    assert_eq!(seen_from_head(&t), vec![2, 1]);
    assert_eq!(seen_from_head(&l), vec![3, 4, 5]);
    let all = l.take(9);
    assert_eq!(seen_from_head(&all), vec![5, 4, 3]);
    assert!(seen_from_head(&l).is_empty());
    assert!(seen_from_head(&l.take(0)).is_empty());
}
