use ahess::note_grid::{note_grid_positions, steps};

#[test]
fn the_grid_runs_from_minus_96_up_to_96() {
    let coarse = note_grid_positions(48, &Vec::new());
    assert_eq!(coarse, vec![-96, -48, 0, 48]);
    let fine = note_grid_positions(1, &Vec::new());
    assert_eq!(fine.len(), 192);
    assert_eq!((fine[0], fine[191]), (-96, 95));
}

#[test]
fn occupied_offsets_stay_visible_on_a_coarser_grid() {
    let positions = note_grid_positions(24, &vec![5, -24, 3, 5, 120]);
    assert_eq!(positions, vec![-96, -72, -48, -24, 0, 3, 5, 24, 48, 72, 120]);
}

#[test]
fn every_offered_step_gives_increasing_rows() {
    for step in steps() {
        let positions = note_grid_positions(step, &vec![7, -1]);
        assert!(positions.windows(2).all(|pair| pair[0] < pair[1]));
        assert!(positions.contains(&7) && positions.contains(&-1) && positions.contains(&0));
    }
    assert_eq!(steps(), [24, 12, 6, 32, 16, 8, 4, 3, 2, 1]);
}
