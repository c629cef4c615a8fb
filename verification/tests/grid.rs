use cropfield::crop::Crop;

#[test]
fn builder_applies_changes_in_order() {
    let crop = Crop::builder(2, 2).empty((0, 1)).set((1, 0), 2).build();
    assert_eq!(crop.width(), 2);
    assert_eq!(crop.height(), 2);
    assert_eq!(crop.cell_at(0, 0), 1);
    assert_eq!(crop.cell_at(1, 0), 2);
    assert_eq!(crop.cell_at(0, 1), 0);
    assert_eq!(crop.cell_at(1, 1), 1);
}

#[test]
fn builder_later_change_wins() {
    let crop = Crop::builder(1, 1).set((0, 0), 3).empty((0, 0)).build();
    assert_eq!(crop.cell_at(0, 0), 0);
    let crop = Crop::builder(1, 1).empty((0, 0)).set((0, 0), 3).build();
    assert_eq!(crop.cell_at(0, 0), 3);
}

#[test]
fn filled_is_all_ones() {
    let crop = Crop::filled(3, 2);
    for y in 0..2 {
        for x in 0..3 {
            assert_eq!(crop.cell_at(x, y), 1);
        }
    }
}

#[test]
fn has_coord_matches_bounds() {
    let crop = Crop::filled(2, 3);
    assert!(crop.has_coord((0, 0)));
    assert!(crop.has_coord((1, 2)));
    assert!(!crop.has_coord((-1, 0)));
    assert!(!crop.has_coord((0, -1)));
    assert!(!crop.has_coord((2, 0)));
    assert!(!crop.has_coord((0, 3)));
}

#[test]
fn out_of_bounds_neighbours_contribute_zero() {
    // A lone cell has no in-bounds neighbour at all: every count is 0 and
    // nothing panics at the border.
    let crop = Crop::filled(1, 1);
    assert_eq!(crop.crop_neighbours((0, 0)), 0);
    assert_eq!(crop.diagonal_neighbours((0, 0)), 0);
    assert_eq!(crop.farmland_neighbours((0, 0)), 0);
    assert!(!crop.axially_stunted((0, 0)));
}

#[test]
fn corner_counts_on_a_full_square() {
    let crop = Crop::filled(2, 2);
    // Corner cell: two orthogonal matches, one diagonal match, three active
    // neighbours; the out-of-bounds ring contributes nothing.
    assert_eq!(crop.crop_neighbours((0, 0)), 2);
    assert_eq!(crop.diagonal_neighbours((0, 0)), 1);
    assert_eq!(crop.farmland_neighbours((0, 0)), 3);
}

#[test]
fn axially_stunted_needs_both_horizontal_matches() {
    let row = Crop::builder(3, 1).build();
    assert!(!row.axially_stunted((0, 0)));
    assert!(row.axially_stunted((1, 0)));
    assert!(!row.axially_stunted((2, 0)));
    // A differing horizontal neighbour breaks the stunting.
    let mixed = Crop::builder(3, 1).set((2, 0), 2).build();
    assert!(!mixed.axially_stunted((1, 0)));
}

#[test]
fn crop_neighbours_count_same_type_only() {
    let crop = Crop::builder(3, 1).set((1, 0), 2).build();
    // Middle cell of type 2 between two cells of type 1.
    assert_eq!(crop.crop_neighbours((1, 0)), 0);
    assert_eq!(crop.farmland_neighbours((1, 0)), 2);
}

#[test]
fn render_rows_uses_star_and_letters() {
    let crop = Crop::builder(3, 1).empty((0, 0)).set((2, 0), 2).build();
    let rows = crop.render_rows();
    assert_eq!(rows.len(), 1);
    assert_eq!(rows[0], b"*ab".to_vec());
}
