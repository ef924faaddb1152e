use akaze::diffusion::{calculate_step, neighborhood, EvolutionStep, Neighborhood, Sample};
use akaze::grid::Grid;

/// The explicit diffusion update of one cell: half the step size times the
/// fluxes toward the right, left, lower and upper neighbours that exist.
fn pixel_update(n: Neighborhood<f32>, step_size: f64) -> f32 {
    let c = n.center;
    let x_pos = n.right.map(|r| (c.flow + r.flow) * (r.level - c.level));
    let x_neg = n.left.map(|l| (l.flow + c.flow) * (c.level - l.level));
    let mut sum = match (x_pos, x_neg) {
        (Some(p), Some(q)) => p - q,
        (Some(p), None) => p,
        (None, Some(q)) => -q,
        (None, None) => panic!("a grid is at least two cells wide"),
    };
    match (n.down, n.up) {
        (Some(d), Some(u)) => {
            sum = sum + (c.flow + d.flow) * (d.level - c.level);
            sum = sum - (u.flow + c.flow) * (c.level - u.level);
        }
        (Some(d), None) => sum = sum + (c.flow + d.flow) * (d.level - c.level),
        (None, Some(u)) => sum = sum + (c.flow + u.flow) * (u.level - c.level),
        (None, None) => panic!("a grid is at least two cells high"),
    }
    0.5 * (step_size as f32) * sum
}

fn grid(width: usize, height: usize, values: Vec<f32>) -> Grid<f32> {
    Grid::from_vec(width, height, values).unwrap()
}

fn run_step(lt: Grid<f32>, lflow: Grid<f32>, step_size: f64) -> EvolutionStep<f32> {
    let (w, h) = (lt.width(), lt.height());
    let mut step = EvolutionStep { lt, lflow, lstep: Grid::new(w, h, 7.0f32) };
    calculate_step(&mut step, &|n| pixel_update(n, step_size), &|a: f32, b: f32| a + b);
    step
}

#[test]
fn grid_new_fills_every_cell() {
    let g = Grid::new(3, 2, 4u32);
    assert_eq!(g.width(), 3);
    assert_eq!(g.height(), 2);
    assert_eq!(g.into_vec(), vec![4u32; 6]);
}

#[test]
fn grid_from_vec_checks_length() {
    assert!(Grid::from_vec(2, 3, vec![0u8; 5]).is_none());
    assert!(Grid::from_vec(2, 3, vec![0u8; 7]).is_none());
    assert!(Grid::from_vec(usize::MAX, 2, vec![0u8; 2]).is_none());
    let g = Grid::from_vec(2, 3, vec![1u8, 2, 3, 4, 5, 6]).unwrap();
    assert_eq!(g.get(1, 0), 2);
    assert_eq!(g.get(0, 2), 5);
}

#[test]
fn grid_put_changes_one_cell() {
    let mut g = Grid::new(3, 3, 0i32);
    g.put(2, 1, 9);
    assert_eq!(g.get(2, 1), 9);
    assert_eq!(g.into_vec(), vec![0, 0, 0, 0, 0, 9, 0, 0, 0]);
}

#[test]
fn neighborhood_omits_cells_outside() {
    let lt = Grid::from_vec(3, 2, vec![1, 2, 3, 4, 5, 6]).unwrap();
    let c = Grid::from_vec(3, 2, vec![10, 20, 30, 40, 50, 60]).unwrap();
    let corner = neighborhood(&lt, &c, 0, 0);
    assert_eq!(corner.center, Sample { flow: 10, level: 1 });
    assert_eq!(corner.right, Some(Sample { flow: 20, level: 2 }));
    assert_eq!(corner.left, None);
    assert_eq!(corner.down, Some(Sample { flow: 40, level: 4 }));
    assert_eq!(corner.up, None);
    let edge = neighborhood(&lt, &c, 1, 1);
    assert_eq!(edge.center, Sample { flow: 50, level: 5 });
    assert_eq!(edge.right, Some(Sample { flow: 60, level: 6 }));
    assert_eq!(edge.left, Some(Sample { flow: 40, level: 4 }));
    assert_eq!(edge.down, None);
    assert_eq!(edge.up, Some(Sample { flow: 20, level: 2 }));
}

#[test]
fn neighborhood_of_interior_cell_has_four_neighbours() {
    let lt = Grid::from_vec(3, 3, (0..9).collect()).unwrap();
    let c = Grid::new(3, 3, 1);
    let n = neighborhood(&lt, &c, 1, 1);
    assert_eq!(n.center.level, 4);
    assert_eq!(n.right.map(|s| s.level), Some(5));
    assert_eq!(n.left.map(|s| s.level), Some(3));
    assert_eq!(n.down.map(|s| s.level), Some(7));
    assert_eq!(n.up.map(|s| s.level), Some(1));
}

#[test]
fn flat_image_gives_zero_updates_and_stays_flat() {
    let lt = Grid::new(4, 3, 0.25f32);
    let flow = grid(4, 3, (0..12).map(|i| i as f32 * 0.3 + 0.1).collect());
    let step = run_step(lt, flow, 0.7);
    assert!(step.lstep.into_vec().iter().all(|&d| d == 0.0));
    assert_eq!(step.lt.into_vec(), vec![0.25f32; 12]);
}

#[test]
fn point_source_spreads_to_four_neighbours() {
    let mut values = vec![0.0f32; 25];
    values[2 * 5 + 2] = 1.0;
    let step = run_step(grid(5, 5, values), Grid::new(5, 5, 1.0f32), 1.0);
    let lt = step.lt;
    assert_eq!(step.lstep.get(2, 2), -4.0);
    assert_eq!(lt.get(2, 2), -3.0);
    for (x, y) in [(3, 2), (1, 2), (2, 3), (2, 1)] {
        assert_eq!(step.lstep.get(x, y), 1.0);
        assert_eq!(lt.get(x, y), 1.0);
    }
    for (x, y) in [(0, 0), (4, 0), (0, 4), (4, 4), (1, 1), (3, 3), (0, 2), (2, 4)] {
        assert_eq!(lt.get(x, y), 0.0);
    }
}

#[test]
fn boundary_step_is_zero_flux() {
    // A 2 x 2 image: every cell is a corner with two neighbours.
    let step = run_step(grid(2, 2, vec![1.0, 0.0, 0.0, 0.0]), Grid::new(2, 2, 0.5f32), 1.0);
    let lt = step.lt.into_vec();
    assert_eq!(lt, vec![0.0, 0.5, 0.5, 0.0]);
    assert_eq!(lt.iter().sum::<f32>(), 1.0);
}

#[test]
fn step_size_is_narrowed_before_the_multiply() {
    let step_size: f64 = 0.1;
    let step = run_step(grid(2, 2, vec![1.0, 0.0, 0.0, 0.0]), Grid::new(2, 2, 1.0f32), step_size);
    let expected: f32 = 0.5 * (step_size as f32) * 2.0;
    assert_eq!(step.lstep.get(1, 0), expected);
    assert_eq!(step.lt.get(1, 0), expected);
}

#[test]
fn conductivity_field_is_left_as_it_was() {
    let flow = vec![0.5f32, 1.0, 1.5, 2.0];
    let step = run_step(grid(2, 2, vec![3.0, 1.0, 2.0, 0.0]), grid(2, 2, flow.clone()), 0.5);
    assert_eq!(step.lflow.into_vec(), flow);
}

#[test]
fn neighbouring_cells_read_each_other() {
    let lt = Grid::from_vec(3, 3, (0..9).map(|i| i * 11).collect()).unwrap();
    let c = Grid::from_vec(3, 3, (0..9).map(|i| 100 + i).collect()).unwrap();
    for y in 0..3 {
        for x in 0..3 {
            let n = neighborhood(&lt, &c, x, y);
            if x + 1 < 3 {
                let r = neighborhood(&lt, &c, x + 1, y);
                assert_eq!(n.right, Some(r.center));
                assert_eq!(r.left, Some(n.center));
            } else {
                assert_eq!(n.right, None);
            }
            if y + 1 < 3 {
                let d = neighborhood(&lt, &c, x, y + 1);
                assert_eq!(n.down, Some(d.center));
                assert_eq!(d.up, Some(n.center));
            } else {
                assert_eq!(n.down, None);
            }
        }
    }
}
