use times_table::geometry::generate;

#[test]
fn generate_places_each_index_over_the_count() {
    let ring = generate(8);
    assert_eq!(ring.len(), 8);
    for (i, p) in ring.iter().enumerate() {
        assert_eq!(p.turn_numer, i);
        assert_eq!(p.turn_denom, 8);
    }
}

#[test]
fn generate_zero_yields_the_empty_ring() {
    assert!(generate(0).is_empty());
}

#[test]
fn generate_positions_are_distinct() {
    let ring = generate(12);
    for i in 0..ring.len() {
        for j in 0..ring.len() {
            if i != j {
                assert_ne!(ring[i], ring[j]);
            }
        }
    }
}

#[test]
fn generate_neighbours_sit_one_step_apart() {
    let ring = generate(200);
    for i in 1..ring.len() {
        assert_eq!(ring[i].turn_numer, ring[i - 1].turn_numer + 1);
        assert_eq!(ring[i].turn_denom, ring[i - 1].turn_denom);
    }
}

#[test]
fn generate_is_deterministic() {
    assert_eq!(generate(200), generate(200));
}
