use cropfield::crop::Crop;
use cropfield::trainer::CropError;
use cropfield::trainer::CropTrainer;
use cropfield::trainer::Fraction;
use cropfield::trainer::TrainerParams;

fn params(elite: (u32, u32), survivors: (u32, u32)) -> TrainerParams {
    TrainerParams {
        elite: Fraction { num: elite.0, den: elite.1 },
        survivors: Fraction { num: survivors.0, den: survivors.1 },
    }
}

#[test]
fn new_rejects_zero_croptypes() {
    let base = Crop::filled(2, 2);
    let r = CropTrainer::new(
        &base,
        10,
        0,
        Fraction { num: 1, den: 1 },
        params((1, 5), (1, 2)),
        3,
    );
    assert_eq!(r.err().unwrap(), CropError::ZeroCropTypes);
}

#[test]
fn new_rejects_malformed_fraction() {
    let base = Crop::filled(2, 2);
    let r = CropTrainer::new(
        &base,
        10,
        2,
        Fraction { num: 1, den: 0 },
        params((1, 5), (1, 2)),
        3,
    );
    assert_eq!(r.err().unwrap(), CropError::InvalidParams);
}

#[test]
fn new_rejects_elite_above_survivors() {
    let base = Crop::filled(2, 2);
    let r = CropTrainer::new(
        &base,
        10,
        2,
        Fraction { num: 1, den: 1 },
        params((3, 4), (1, 2)),
        3,
    );
    assert_eq!(r.err().unwrap(), CropError::InvalidParams);
}

#[test]
fn make_random_crop_respects_empty_cells_and_bounds() {
    let base = Crop::builder(2, 2).empty((1, 1)).build();
    let mut trainer = CropTrainer::new(
        &base,
        4,
        3,
        Fraction { num: 1, den: 1 },
        params((1, 2), (3, 4)),
        21,
    )
    .unwrap();
    let crop = trainer.make_random_crop();
    assert_eq!(crop.cell_at(1, 1), 0);
    for &(x, y) in &[(0usize, 0usize), (1, 0), (0, 1)] {
        let label = crop.cell_at(x, y);
        assert!(label >= 1 && label <= 3);
    }
}

#[test]
fn step_keeps_population_size_and_elite_band() {
    let base = Crop::filled(2, 2);
    let mut trainer = CropTrainer::new(
        &base,
        10,
        2,
        Fraction { num: 1, den: 1 },
        params((2, 10), (5, 10)),
        77,
    )
    .unwrap();
    assert_eq!(trainer.population_len(), 10);

    // `new` leaves the population ranked; the elite band of that ranking
    // must be carried forward by the step, re-derived grids included.
    let elite_before: Vec<Vec<Vec<u8>>> = (0..2)
        .map(|i| trainer.genome_at(i).generate().render_rows())
        .collect();
    trainer.step();
    assert_eq!(trainer.population_len(), 10);
    for (i, snapshot) in elite_before.iter().enumerate() {
        let after = trainer.genome_at(i).generate().render_rows();
        assert_eq!(&after, snapshot);
    }
}

#[test]
fn repopulate_resets_the_tail_with_fresh_histories() {
    let base = Crop::filled(2, 2);
    // randomized 0/1: every genome starts with an empty edit history.
    let mut trainer = CropTrainer::new(
        &base,
        6,
        2,
        Fraction { num: 0, den: 1 },
        params((1, 3), (1, 2)),
        5,
    )
    .unwrap();
    trainer.repopulate_lumpen();
    // survivors cutoff = floor(6 / 2) = 3: the first three keep their empty
    // histories, the tail is rebuilt with one edit per active cell.
    for i in 0..3 {
        assert_eq!(trainer.genome_at(i).changes_len(), 0);
    }
    for i in 3..6 {
        let g = trainer.genome_at(i);
        assert_eq!(g.changes_len(), 4);
        for k in 0..4 {
            let c = g.change_at(k);
            assert!(c.croptype >= 1 && c.croptype <= 2);
        }
    }
}

#[test]
fn mutate_keeps_size_and_elite_of_its_ranking() {
    let base = Crop::filled(2, 2);
    let mut trainer = CropTrainer::new(
        &base,
        10,
        2,
        Fraction { num: 1, den: 1 },
        params((2, 10), (5, 10)),
        31,
    )
    .unwrap();
    let elite_before: Vec<i32> = (0..2).map(|i| trainer.genome_at(i).score()).collect();
    trainer.mutate();
    assert_eq!(trainer.population_len(), 10);
    for (i, score) in elite_before.iter().enumerate() {
        assert_eq!(trainer.genome_at(i).score(), *score);
    }
}

#[test]
fn bred_child_shares_base_and_croptype_count() {
    let base = Crop::filled(2, 1);
    let a = cropfield::trainer::Genome::new(&base, 5);
    let b = cropfield::trainer::Genome::new(&base, 5);
    let mut rng = <rand::rngs::StdRng as rand::SeedableRng>::seed_from_u64(3);
    let child = cropfield::trainer::Genome::breed(&a, &b, &mut rng);
    assert_eq!(child.num_croptypes(), 5);
    let derived = child.generate();
    assert_eq!(derived.width(), 2);
    assert_eq!(derived.height(), 1);
}

#[test]
fn best_is_never_outscored() {
    let base = Crop::filled(3, 2);
    let mut trainer = CropTrainer::new(
        &base,
        8,
        3,
        Fraction { num: 1, den: 1 },
        params((1, 4), (1, 2)),
        13,
    )
    .unwrap();
    let top = trainer.best();
    let top_score = top.score();
    for i in 0..trainer.population_len() {
        assert!(trainer.genome_at(i).score() <= top_score);
    }
}

#[test]
fn improve_single_type_keeps_every_cell_at_one() {
    let base = Crop::filled(3, 1);
    let improved = CropTrainer::improve(
        &base,
        10,
        1,
        Fraction { num: 1, den: 1 },
        params((2, 10), (5, 10)),
        5,
        42,
    )
    .unwrap();
    assert_eq!(improved.width(), 3);
    assert_eq!(improved.height(), 1);
    for x in 0..3 {
        assert_eq!(improved.cell_at(x, 0), 1);
    }
}

#[test]
fn improve_leaves_an_emptied_cell_empty() {
    let base = Crop::builder(1, 1).empty((0, 0)).build();
    let improved = CropTrainer::improve(
        &base,
        4,
        1,
        Fraction { num: 1, den: 1 },
        params((1, 2), (3, 4)),
        3,
        42,
    )
    .unwrap();
    assert_eq!(improved.cell_at(0, 0), 0);
}

#[test]
fn improve_propagates_construction_errors() {
    let base = Crop::filled(2, 2);
    let r = CropTrainer::improve(
        &base,
        10,
        0,
        Fraction { num: 1, den: 1 },
        params((2, 10), (5, 10)),
        2,
        1,
    );
    assert_eq!(r.err().unwrap(), CropError::ZeroCropTypes);
}

#[test]
fn improve_is_reproducible_from_the_seed() {
    let base = Crop::builder(3, 3).empty((1, 1)).build();
    let run = |seed: u64| {
        CropTrainer::improve(
            &base,
            12,
            3,
            Fraction { num: 1, den: 1 },
            params((3, 12), (6, 12)),
            4,
            seed,
        )
        .unwrap()
    };
    let first = run(99);
    let second = run(99);
    for y in 0..3 {
        for x in 0..3 {
            assert_eq!(first.cell_at(x, y), second.cell_at(x, y));
        }
    }
}
