use copy_modules_closure::closure::closure;
use std::cell::RefCell;
use std::collections::BTreeSet;

fn graph(node: &u32) -> Vec<u32> {
    match *node {
        1 => vec![2, 3],
        2 => vec![3, 4],
        3 => vec![1],
        4 => vec![4],
        _ => vec![],
    }
}

#[test]
fn closure_visits_breadth_first() {
    let (order, _) = closure(graph, vec![1]);
    assert_eq!(order, vec![1, 2, 3, 4]);
}

#[test]
fn closure_of_no_roots_is_empty() {
    let (order, _) = closure(graph, Vec::new());
    assert!(order.is_empty());
}

#[test]
fn closure_set_does_not_depend_on_root_order() {
    let (a, _) = closure(graph, vec![1, 5]);
    let (b, _) = closure(graph, vec![5, 4, 1]);
    let sa: BTreeSet<u32> = a.iter().cloned().collect();
    let sb: BTreeSet<u32> = b.iter().cloned().collect();
    assert_eq!(sa, sb);
    assert_eq!(sa, [1, 2, 3, 4, 5].into_iter().collect());
}

#[test]
fn closure_queries_each_node_once() {
    let calls = RefCell::new(Vec::new());
    let f = |n: &u32| {
        calls.borrow_mut().push(*n);
        graph(n)
    };
    let (order, _) = closure(f, vec![1, 1, 3]);
    let mut seen = calls.borrow().clone();
    assert_eq!(seen, order);
    seen.sort();
    assert_eq!(seen, vec![1, 2, 3, 4]);
}

#[test]
fn closure_of_byte_names() {
    let f = |m: &Vec<u8>| -> Vec<Vec<u8>> {
        if m.as_slice() == b"foo" {
            vec![b"bar".to_vec()]
        } else {
            vec![]
        }
    };
    let (order, _) = closure(f, vec![b"foo".to_vec()]);
    assert_eq!(order, vec![b"foo".to_vec(), b"bar".to_vec()]);
}
