use rpl_core::reachability::{Location, Reachability, Reachable};

fn loc(block: usize, statement_index: usize) -> Location {
    Location { block, statement_index }
}

// 0 -> 1, 1 -> 2, 2 -> 1, 3 alone
fn graph() -> Reachability {
    Reachability::new_mir(&vec![vec![1], vec![2], vec![1], vec![]])
}

#[test]
fn forward_only_reachability() {
    let r = graph();
    assert_eq!(r.is_reachable(loc(0, 0), loc(2, 0)), Reachable::From);
    assert_eq!(r.is_reachable(loc(2, 0), loc(0, 0)), Reachable::To);
}

#[test]
fn loop_blocks_reach_each_other() {
    let r = graph();
    assert_eq!(r.is_reachable(loc(1, 3), loc(2, 0)), Reachable::Both);
}

#[test]
fn unconnected_blocks() {
    let r = graph();
    assert_eq!(r.is_reachable(loc(0, 0), loc(3, 0)), Reachable::Neither);
    assert_eq!(r.is_reachable(loc(3, 1), loc(1, 0)), Reachable::Neither);
}

#[test]
fn statement_order_inside_a_block() {
    let r = graph();
    assert_eq!(r.is_reachable(loc(0, 1), loc(0, 3)), Reachable::From);
    assert_eq!(r.is_reachable(loc(0, 3), loc(0, 1)), Reachable::To);
    assert_eq!(r.is_reachable(loc(3, 2), loc(3, 2)), Reachable::Both);
}

#[test]
fn index_and_converse_agree() {
    let r = graph();
    for a in 0..4 {
        for b in 0..4 {
            let x = r.index((loc(a, 0), loc(b, 1)));
            let y = r.is_reachable(loc(b, 1), loc(a, 0));
            let converse = match x {
                Reachable::From => Reachable::To,
                Reachable::To => Reachable::From,
                other => other,
            };
            assert_eq!(y, converse);
        }
    }
}

#[test]
fn long_chain_is_closed_transitively() {
    let succ: Vec<Vec<usize>> = (0..6).map(|i| if i + 1 < 6 { vec![i + 1] } else { vec![] }).collect();
    let r = Reachability::new_pat(&succ);
    assert_eq!(r.is_reachable(loc(0, 0), loc(5, 0)), Reachable::From);
    assert_eq!(r.is_reachable(loc(4, 0), loc(1, 0)), Reachable::To);
}

#[test]
fn self_loop_and_diamond() {
    // 0 -> 1, 0 -> 2, 1 -> 3, 2 -> 3, 3 -> 3
    let r = Reachability::new_mir(&vec![vec![1, 2], vec![3], vec![3], vec![3]]);
    assert_eq!(r.is_reachable(loc(0, 0), loc(3, 0)), Reachable::From);
    assert_eq!(r.is_reachable(loc(1, 0), loc(2, 0)), Reachable::Neither);
}

#[test]
fn covered_by_orders_directions() {
    let all = [Reachable::Neither, Reachable::From, Reachable::To, Reachable::Both];
    for a in all {
        assert!(Reachable::Neither.covered_by(&a));
        assert!(a.covered_by(&Reachable::Both));
        assert!(a.covered_by(&a));
    }
    assert!(!Reachable::From.covered_by(&Reachable::To));
    assert!(!Reachable::Both.covered_by(&Reachable::From));
    assert_eq!(*Reachable::To.as_ref(), Reachable::To);
}
