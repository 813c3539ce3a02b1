use gotta::board::Board;
use gotta::rule::{next_value, BoardParameter};

fn board_from(width: u32, height: u32, cells: &[u8]) -> Board {
    let mut b = Board::new(width, height);
    for y in 0..height {
        for x in 0..width {
            b.set_value(x, y, cells[(y * width + x) as usize]);
        }
    }
    b
}

fn cells_of(b: &Board) -> Vec<u8> {
    let mut out = Vec::new();
    for y in 0..b.height() {
        for x in 0..b.width() {
            out.push(b.value(x, y));
        }
    }
    out
}

fn params(k1: u16, k2: u16, g: u8) -> BoardParameter {
    BoardParameter { k1, k2, g }
}

#[test]
fn new_grid_is_all_zero() {
    for &(w, h) in &[(1u32, 1u32), (3, 3), (7, 2), (1, 40), (64, 64)] {
        let b = Board::new(w, h);
        assert_eq!(b.width(), w);
        assert_eq!(b.height(), h);
        assert!(cells_of(&b).iter().all(|&v| v == 0));
    }
}

#[test]
fn seed_keeps_dimensions_and_spreads_values() {
    let mut b = Board::new(256, 256);
    b.seed();
    assert_eq!(b.width(), 256);
    assert_eq!(b.height(), 256);
    let mut seen = [false; 256];
    for v in cells_of(&b) {
        seen[v as usize] = true;
    }
    assert!(seen.iter().filter(|&&s| s).count() > 200);
}

#[test]
fn set_value_writes_one_cell() {
    let mut b = Board::new(4, 3);
    b.set_value(2, 1, 77);
    assert_eq!(b.value(2, 1), 77);
    let c = cells_of(&b);
    assert_eq!(c.iter().filter(|&&v| v != 0).count(), 1);
    assert_eq!(c[6], 77);
}

#[test]
fn neighborhood_of_corner_wraps_both_axes() {
    let cells: Vec<u8> = (1..=20).collect();
    let b = board_from(5, 4, &cells);
    let n = b.neighborhood(0, 0);
    assert_eq!(n[0], b.value(4, 3));
    assert_eq!(n, [20, 16, 17, 5, 2, 10, 6, 7]);
}

#[test]
fn neighborhood_order_from_upper_left() {
    let b = board_from(3, 3, &[1, 2, 3, 4, 5, 6, 7, 8, 9]);
    assert_eq!(b.neighborhood(1, 1), [1, 2, 3, 4, 6, 7, 8, 9]);
    assert_eq!(b.neighborhood(2, 2), [5, 6, 4, 8, 7, 2, 3, 1]);
}

#[test]
fn single_cell_is_its_own_neighbour() {
    let b = board_from(1, 1, &[42]);
    assert_eq!(b.neighborhood(0, 0), [42; 8]);
    assert_eq!(b.sum(0, 0), 42 * 9);
    assert_eq!(b.count_infected(0, 0), 8);
    assert_eq!(b.count_illed(0, 0), 0);
}

#[test]
fn counts_and_sum_of_neighbours() {
    let b = board_from(3, 3, &[0, 255, 3, 255, 9, 0, 1, 254, 255]);
    assert_eq!(b.count_infected(1, 1), 3);
    assert_eq!(b.count_illed(1, 1), 3);
    assert_eq!(b.sum(1, 1), 255 * 3 + 3 + 1 + 254 + 9);
}

#[test]
fn copy_buff_takes_every_cell() {
    let src = board_from(2, 2, &[1, 2, 3, 4]);
    let mut dst = board_from(2, 2, &[9, 9, 9, 9]);
    dst.copy_buff(&src);
    assert_eq!(cells_of(&dst), vec![1, 2, 3, 4]);
}

#[test]
fn healthy_cell_infection_pressure() {
    let p = params(2, 3, 7);
    assert_eq!(next_value(0, 5, 3, 0, &p), 2 + 1);
    assert_eq!(next_value(0, 1, 2, 0, &p), 0);
    assert_eq!(next_value(0, 0, 0, 0, &p), 0);
}

#[test]
fn infected_cell_severity_growth() {
    let p = params(1, 1, 5);
    assert_eq!(next_value(10, 2, 0, 40, &p), 25);
    assert_eq!(next_value(10, 3, 1, 100, &p), 33 + 5);
}

#[test]
fn ill_cell_recovers_whatever_the_rest() {
    for &(inf, ill, total) in &[(0u8, 0u8, 0u16), (8, 0, 2000), (0, 8, 2295), (3, 5, 1500)] {
        for p in [params(1, 1, 0), params(9, 4, 255), params(65535, 1, 17)] {
            assert_eq!(next_value(255, inf, ill, total, &p), 0);
        }
    }
    let mut b = board_from(3, 3, &[255, 255, 255, 255, 255, 255, 255, 255, 255]);
    b.step(&params(1, 1, 200));
    assert_eq!(cells_of(&b), vec![0; 9]);
}

#[test]
fn result_saturates_at_255() {
    assert_eq!(next_value(100, 1, 0, 300, &params(1, 1, 10)), 255);
    assert_eq!(next_value(100, 2, 0, 300, &params(1, 1, 0)), 150);
    assert_eq!(next_value(200, 1, 0, 2295, &params(1, 1, 255)), 255);
    assert_eq!(next_value(254, 1, 0, 250, &params(1, 1, 5)), 255);
    let mut b = board_from(3, 3, &[0, 0, 0, 0, 200, 250, 0, 0, 0]);
    b.step(&params(1, 1, 0));
    assert_eq!(b.value(1, 1), 255);
}

#[test]
fn step_is_synchronous() {
    let cells = [0u8, 10, 0, 0, 255, 0, 30, 0, 200];
    let p = params(1, 1, 3);
    let mut stepped = board_from(3, 3, &cells);
    stepped.step(&p);

    let before = board_from(3, 3, &cells);
    let mut in_place = board_from(3, 3, &cells);
    for y in 0..3 {
        for x in 0..3 {
            let expected = next_value(
                before.value(x, y),
                before.count_infected(x, y),
                before.count_illed(x, y),
                before.sum(x, y),
                &p,
            );
            assert_eq!(stepped.value(x, y), expected);
            let v = next_value(
                in_place.value(x, y),
                in_place.count_infected(x, y),
                in_place.count_illed(x, y),
                in_place.sum(x, y),
                &p,
            );
            in_place.set_value(x, y, v);
        }
    }
    assert_ne!(cells_of(&stepped), cells_of(&in_place));
}

#[test]
fn empty_grid_stays_empty() {
    let mut b = Board::new(3, 3);
    b.step(&params(1, 1, 0));
    assert_eq!(cells_of(&b), vec![0; 9]);
}

#[test]
fn single_ill_cell_recovers() {
    for p in [params(1, 1, 0), params(3, 7, 255)] {
        let mut b = board_from(1, 1, &[255]);
        b.step(&p);
        assert_eq!(b.value(0, 0), 0);
    }
}

#[test]
fn lone_infected_cell_saturates() {
    let mut b = Board::new(3, 3);
    b.set_value(1, 1, 10);
    b.step(&params(1, 1, 5));
    for y in 0..3 {
        for x in 0..3 {
            let expected = if (x, y) == (1, 1) { 255 } else { 1 };
            assert_eq!(b.value(x, y), expected);
        }
    }
}

#[test]
fn step_on_wide_grid() {
    let mut b = Board::new(5, 1);
    b.set_value(0, 0, 255);
    b.step(&params(1, 1, 0));
    // On a 5x1 torus the cell at 0 is ill and appears three times in the
    // neighbourhoods of columns 1 and 4.
    assert_eq!(cells_of(&b), vec![0, 3, 0, 0, 3]);
}

#[test]
fn fill_places_each_byte_in_its_cell() {
    let mut b = Board::new(3, 2);
    let draws: Vec<u8> = vec![5, 0, 255, 17, 128, 1];
    b.fill(&draws);
    assert_eq!(b.width(), 3);
    assert_eq!(b.height(), 2);
    assert_eq!(cells_of(&b), draws);
    assert_eq!(b.value(2, 0), 255);
    assert_eq!(b.value(0, 1), 17);
}
