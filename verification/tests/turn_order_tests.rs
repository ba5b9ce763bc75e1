use battle_sim::turn_order::shuffled_order;

#[test]
fn a_turn_order_names_every_index_once() {
    for n in [0usize, 1, 2, 3, 10, 257] {
        for _ in 0..20 {
            let order = shuffled_order(n);
            assert_eq!(order.len(), n);
            let mut seen = vec![false; n];
            for k in order.iter() {
                assert!(*k < n);
                assert!(!seen[*k]);
                seen[*k] = true;
            }
            assert!(seen.iter().all(|s| *s));
        }
    }
}

#[test]
fn a_turn_order_is_not_the_stable_order() {
    let stable: Vec<usize> = (0..64).collect();
    let mut shuffled = false;
    for _ in 0..8 {
        if shuffled_order(64) != stable {
            shuffled = true;
        }
    }
    assert!(shuffled);
}

#[test]
fn turn_orders_differ_from_draw_to_draw() {
    let first = shuffled_order(64);
    let mut differs = false;
    for _ in 0..8 {
        if shuffled_order(64) != first {
            differs = true;
        }
    }
    assert!(differs);
}

#[test]
fn every_unit_can_come_first() {
    let mut first_seen = [false; 4];
    for _ in 0..400 {
        first_seen[shuffled_order(4)[0]] = true;
    }
    assert_eq!(first_seen, [true; 4]);
}
