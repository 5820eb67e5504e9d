use engine_schematic::day::Day;
use engine_schematic::schematic::Schematic;

fn schematic_of(lines: &[&str]) -> Schematic {
    let rows: Vec<Vec<char>> = lines.iter().map(|l| l.chars().collect()).collect();
    Schematic::from_rows(&rows).unwrap()
}

fn example() -> Schematic {
    schematic_of(&[
        "467..114..",
        "...*......",
        "..35..633.",
        "......#...",
        "617*......",
        ".....+.58.",
        "..592.....",
        "......755.",
        "...$.*....",
        ".664.598..",
    ])
}

#[test]
fn example_part_number_sum() {
    assert_eq!(example().sum_of_part_numbers(), 4361);
}

#[test]
fn example_gear_ratio_sum() {
    assert_eq!(example().sum_of_gear_ratios(), 467835);
}

#[test]
fn day_runs_gear_ratio_sum() {
    assert_eq!(Day.run(&example()), 467835);
}

#[test]
fn single_row_without_symbols_sums_to_zero() {
    let s = schematic_of(&["123"]);
    assert_eq!(s.sum_of_part_numbers(), 0);
    assert_eq!(s.sum_of_gear_ratios(), 0);
}

#[test]
fn grid_without_symbols_sums_to_zero() {
    let s = schematic_of(&["12.34", ".5..."]);
    assert_eq!(s.sum_of_part_numbers(), 0);
    assert_eq!(s.sum_of_gear_ratios(), 0);
}

#[test]
fn star_between_two_ones_is_a_gear() {
    let s = schematic_of(&["1*1"]);
    let parts = s.get_part_numbers();
    assert_eq!(parts.len(), 2);
    assert!(s.is_adjacent_to_symbol(&parts[0]));
    assert!(s.is_adjacent_to_symbol(&parts[1]));
    assert!(s.is_gear(1, 0));
    assert_eq!(s.sum_of_part_numbers(), 2);
    assert_eq!(s.sum_of_gear_ratios(), 1);
}

#[test]
fn corner_number_sees_diagonal_symbol() {
    let s = schematic_of(&["7.", ".*"]);
    let parts = s.get_part_numbers();
    assert_eq!(parts.len(), 1);
    assert!(s.is_adjacent_to_symbol(&parts[0]));
    assert_eq!(s.sum_of_part_numbers(), 7);
}

#[test]
fn non_star_symbol_is_never_a_gear() {
    let s = schematic_of(&["1#1"]);
    assert_eq!(s.get_part_numbers_adjacent_to(1, 0).len(), 2);
    assert!(!s.is_gear(1, 0));
    assert_eq!(s.sum_of_gear_ratios(), 0);
}

#[test]
fn star_with_one_neighbor_is_not_a_gear() {
    let s = schematic_of(&["1*."]);
    assert!(!s.is_gear(1, 0));
    assert_eq!(s.sum_of_gear_ratios(), 0);
}

#[test]
fn star_with_three_neighbors_is_not_a_gear() {
    let s = schematic_of(&["1*1", ".1."]);
    assert_eq!(s.get_part_numbers_adjacent_to(1, 0).len(), 3);
    assert!(!s.is_gear(1, 0));
    assert_eq!(s.sum_of_gear_ratios(), 0);
}

#[test]
fn adjacent_parts_are_reported_in_order() {
    let s = schematic_of(&["12*34"]);
    let parts = s.get_part_numbers_adjacent_to(2, 0);
    assert_eq!(parts.len(), 2);
    assert_eq!(parts[0].as_number(), 12);
    assert_eq!(parts[1].as_number(), 34);
}

#[test]
fn far_away_cells_have_no_adjacent_parts() {
    let s = schematic_of(&["12...", "....."]);
    assert_eq!(s.get_part_numbers_adjacent_to(4, 1).len(), 0);
}

#[test]
fn token_near_gear_reports_adjacency() {
    let s = schematic_of(&["1*1", "..."]);
    let parts = s.get_part_numbers();
    assert!(s.is_adjacent_to_gear(&parts[0]));
    assert!(s.is_adjacent_to_gear(&parts[1]));
    let lonely = schematic_of(&["1..", "..*"]);
    let parts = lonely.get_part_numbers();
    assert!(!lonely.is_adjacent_to_gear(&parts[0]));
}

#[test]
fn adjacency_bounds_stay_inside_grid() {
    let s = schematic_of(&["467.", "...."]);
    let parts = s.get_part_numbers();
    let (xlo, xhi, ylo, yhi) = s.adjacency_bounds(&parts[0]);
    assert_eq!((xlo, xhi, ylo, yhi), (0, 3, 0, 1));
}
