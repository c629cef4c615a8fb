use cropfield::crop::Crop;
use cropfield::trainer::CropError;
use cropfield::trainer::Genome;

use rand::SeedableRng;
use rand::rngs::StdRng;

#[test]
fn generate_is_deterministic_and_order_sensitive() {
    let base = Crop::filled(2, 1);
    let mut forward = Genome::new(&base, 2);
    forward.add_change((0, 0), 1);
    forward.add_change((0, 0), 2);
    assert_eq!(forward.generate().cell_at(0, 0), 2);
    assert_eq!(forward.generate().cell_at(0, 0), 2);

    let mut backward = Genome::new(&base, 2);
    backward.add_change((0, 0), 2);
    backward.add_change((0, 0), 1);
    assert_eq!(backward.generate().cell_at(0, 0), 1);
}

#[test]
fn score_of_all_empty_grid_is_zero() {
    let base = Crop::builder(2, 2)
        .empty((0, 0))
        .empty((1, 0))
        .empty((0, 1))
        .empty((1, 1))
        .build();
    let genome = Genome::new(&base, 3);
    assert_eq!(genome.score(), 0);
}

#[test]
fn score_exact_values() {
    // A lone active cell: no stunting, no diagonal, 8 missing neighbours.
    let single = Genome::new(&Crop::filled(1, 1), 1);
    assert_eq!(single.score(), -8);

    // A 3-by-1 row of one type: the ends lack 7 neighbours each, the middle
    // cell is stunted and lacks 6.
    let row = Genome::new(&Crop::filled(3, 1), 1);
    assert_eq!(row.score(), -52);

    // A full 2-by-2 square of one type: every cell touches a same-type
    // diagonal and lacks 5 neighbours.
    let square = Genome::new(&Crop::filled(2, 2), 1);
    assert_eq!(square.score(), -148);
}

#[test]
fn score_ignores_edit_order_when_grids_agree() {
    let base = Crop::filled(2, 1);
    let mut a = Genome::new(&base, 2);
    a.add_change((0, 0), 2);
    a.add_change((1, 0), 1);
    let mut b = Genome::new(&base, 2);
    b.add_change((1, 0), 1);
    b.add_change((0, 0), 2);
    assert_eq!(a.score(), b.score());
}

#[test]
fn breed_halves_the_combined_edits() {
    let base = Crop::filled(3, 1);
    let mut a = Genome::new(&base, 3);
    a.add_change((0, 0), 1);
    a.add_change((1, 0), 2);
    a.add_change((2, 0), 3);
    let mut b = Genome::new(&base, 3);
    b.add_change((0, 0), 3);
    b.add_change((1, 0), 1);

    let mut rng = StdRng::seed_from_u64(5);
    let child = Genome::breed(&a, &b, &mut rng);
    assert_eq!(child.changes_len(), 2);

    let mut pool = Vec::new();
    for i in 0..a.changes_len() {
        pool.push(a.change_at(i));
    }
    for i in 0..b.changes_len() {
        pool.push(b.change_at(i));
    }
    for i in 0..child.changes_len() {
        let c = child.change_at(i);
        assert!(pool.iter().any(|p| *p == c));
    }
}

#[test]
fn breed_keeps_the_sampled_edits_in_order() {
    let base = Crop::filled(4, 1);
    let mut a = Genome::new(&base, 9);
    let mut b = Genome::new(&base, 9);
    for i in 0..4 {
        a.add_change((i, 0), (i + 1) as u8);
        b.add_change((i, 0), (i + 5) as u8);
    }
    // The eight pooled edits are pairwise distinct, so each child edit has
    // one position in the pool; sampling without replacement in pool order
    // means those positions are strictly increasing.
    let mut pool = Vec::new();
    for i in 0..a.changes_len() {
        pool.push(a.change_at(i));
    }
    for i in 0..b.changes_len() {
        pool.push(b.change_at(i));
    }
    for seed in 0..20u64 {
        let mut rng = StdRng::seed_from_u64(seed);
        let child = Genome::breed(&a, &b, &mut rng);
        assert_eq!(child.changes_len(), 4);
        let mut last_pos: Option<usize> = None;
        for i in 0..child.changes_len() {
            let c = child.change_at(i);
            let pos = pool.iter().position(|p| *p == c).unwrap();
            if let Some(prev) = last_pos {
                assert!(pos > prev, "child edits out of pool order");
            }
            last_pos = Some(pos);
        }
    }
}

#[test]
fn breed_of_empty_parents_is_empty() {
    let base = Crop::filled(2, 2);
    let a = Genome::new(&base, 2);
    let b = Genome::new(&base, 2);
    let mut rng = StdRng::seed_from_u64(1);
    let child = Genome::breed(&a, &b, &mut rng);
    assert_eq!(child.changes_len(), 0);
}

#[test]
fn mutate_appends_one_edit_on_an_active_cell() {
    let base = Crop::builder(2, 1).empty((1, 0)).build();
    let genome = Genome::new(&base, 3);
    let mut rng = StdRng::seed_from_u64(11);
    let child = genome.mutate(&mut rng).unwrap();
    assert_eq!(child.changes_len(), 1);
    let c = child.change_at(0);
    // Only (0, 0) is active, so the new edit must land there.
    assert_eq!(c.xy, (0, 0));
    assert!(c.croptype >= 1 && c.croptype <= 3);
    // The receiver is untouched.
    assert_eq!(genome.changes_len(), 0);
}

#[test]
fn mutate_fails_without_active_cells() {
    let base = Crop::builder(1, 1).empty((0, 0)).build();
    let genome = Genome::new(&base, 3);
    let mut rng = StdRng::seed_from_u64(11);
    match genome.mutate(&mut rng) {
        Err(e) => assert_eq!(e, CropError::NoActiveCells),
        Ok(_) => panic!("mutation succeeded without active cells"),
    }
}
