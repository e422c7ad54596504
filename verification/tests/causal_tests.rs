use lightqos::causal::{CausalOrder, LinkProduct, QuantumComb};

#[test]
fn test_causal_order() {
    let mut order = CausalOrder::new(4);

    assert!(order.add_precedence(0, 1).is_ok());
    assert!(order.add_precedence(1, 2).is_ok());
    assert!(order.add_precedence(2, 3).is_ok());

    // Should detect cycle
    assert!(order.add_precedence(3, 0).is_err());

    assert!(order.is_consistent());
}

#[test]
fn test_topological_order() {
    let mut order = CausalOrder::new(4);
    order.add_precedence(0, 2).unwrap();
    order.add_precedence(1, 2).unwrap();
    order.add_precedence(2, 3).unwrap();

    let topo_order = order.get_order();
    assert_eq!(topo_order.len(), 4);

    let pos_0 = topo_order.iter().position(|&x| x == 0).unwrap();
    let pos_1 = topo_order.iter().position(|&x| x == 1).unwrap();
    let pos_2 = topo_order.iter().position(|&x| x == 2).unwrap();

    assert!(pos_0 < pos_2);
    assert!(pos_1 < pos_2);
}

#[test]
fn depth_first_order_is_reverse_postorder() {
    let mut order = CausalOrder::new(4);
    order.add_precedence(0, 2).unwrap();
    order.add_precedence(1, 2).unwrap();
    order.add_precedence(2, 3).unwrap();
    assert_eq!(order.get_order(), vec![1, 0, 2, 3]);
}

#[test]
fn precedence_errors() {
    let mut order = CausalOrder::new(3);
    assert_eq!(order.add_precedence(0, 3), Err("Slot index out of bounds".to_string()));
    assert_eq!(
        order.add_precedence(2, 2),
        Err("Invalid precedence: earlier must be < later".to_string())
    );
    assert!(order.precedence.is_empty());
}

#[test]
fn filling_respects_precedence() {
    let mut order = CausalOrder::new(3);
    order.add_precedence(0, 2).unwrap();
    assert!(order.can_insert(0));
    assert!(!order.can_insert(2));
    order.mark_filled(0);
    assert!(order.can_insert(2));
    order.mark_filled(7);
    assert_eq!(order.filled_slots, vec![true, false, false]);
}

#[test]
fn hand_built_cycle_is_inconsistent() {
    let mut order = CausalOrder::new(3);
    order.precedence = vec![(0, 1), (1, 2), (2, 0)];
    assert!(!order.is_consistent());
    let topo = order.get_order();
    let mut sorted = topo.clone();
    sorted.sort();
    assert_eq!(sorted, vec![0, 1, 2]);
}

#[test]
fn empty_order() {
    let order = CausalOrder::new(0);
    assert!(order.is_consistent());
    assert!(order.get_order().is_empty());
}

#[test]
fn test_quantum_comb_creation() {
    let comb: QuantumComb<&str> = QuantumComb::new(3);
    assert_eq!(comb.num_slots, 3);
    assert!(comb.is_valid());
}

#[test]
fn comb_insertion_follows_the_causal_order() {
    let mut comb: QuantumComb<&str> = QuantumComb::new(3);
    assert_eq!(comb.slot_dimensions, vec![2, 2, 2]);
    comb.causal_order.add_precedence(0, 2).unwrap();
    assert_eq!(comb.insert_channel(3, "x").unwrap_err(), "Slot 3 out of bounds");
    assert_eq!(comb.insert_channel(2, "late").unwrap_err(), "Violates causal order");
    comb.insert_channel(0, "first").unwrap();
    comb.insert_channel(2, "then").unwrap();
    assert_eq!(comb.channels, vec!["first", "then"]);
    assert_eq!(comb.causal_order.filled_slots, vec![true, false, true]);
    assert!(comb.is_valid());
}

#[test]
fn linking_combs() {
    let mut a: QuantumComb<&str> = QuantumComb::new(2);
    a.insert_channel(0, "a0").unwrap();
    let mut b: QuantumComb<&str> = QuantumComb::new(3);
    b.insert_channel(0, "b0").unwrap();
    b.insert_channel(1, "b1").unwrap();
    let linked = a.link_product(&b).unwrap();
    assert_eq!(linked.num_slots, 4);
    assert_eq!(linked.channels, vec!["a0", "b0", "b1"]);
    assert_eq!(linked.causal_order.filled_slots, vec![true, false, true, true]);
    let empty: QuantumComb<&str> = QuantumComb::new(0);
    assert_eq!(LinkProduct::apply(&a, &empty).unwrap_err(), "Empty combs cannot be linked");
    b.insert_channel(2, "b2").unwrap();
    assert_eq!(LinkProduct::apply(&a, &b).unwrap_err(), "Slot 4 out of bounds");
    assert!(LinkProduct::are_compatible(&a, &b));
    assert!(!LinkProduct::are_compatible(&empty, &b));
}
