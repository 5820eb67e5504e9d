use engine_schematic::grid::GridError;
use engine_schematic::schematic::Schematic;
use engine_schematic::token::PartNumber;

fn rows_of(lines: &[&str]) -> Vec<Vec<char>> {
    lines.iter().map(|l| l.chars().collect()).collect()
}

fn schematic_of(lines: &[&str]) -> Schematic {
    Schematic::from_rows(&rows_of(lines)).unwrap()
}

#[test]
fn from_rows_rejects_ragged_rows() {
    let r = Schematic::from_rows(&rows_of(&["ab", "a"]));
    match r {
        Ok(_) => panic!("ragged rows were accepted"),
        Err(e) => assert_eq!(e, GridError::DimensionMismatch),
    }
}

#[test]
fn from_rows_accepts_rectangle() {
    assert!(Schematic::from_rows(&rows_of(&["12", "*."])).is_ok());
    assert!(Schematic::from_rows(&rows_of(&[])).is_ok());
}

#[test]
fn counts_match_input() {
    let s = schematic_of(&["467..114..", "...*......"]);
    assert_eq!(s.row_count(), 2);
    assert_eq!(s.col_count(), 10);
}

#[test]
fn at_returns_each_character() {
    let s = schematic_of(&["12", "*."]);
    assert_eq!(s.at(0, 0), Ok('1'));
    assert_eq!(s.at(1, 0), Ok('2'));
    assert_eq!(s.at(0, 1), Ok('*'));
    assert_eq!(s.at(1, 1), Ok('.'));
    assert_eq!(s.at(2, 0), Err(GridError::OutOfBounds));
    assert_eq!(s.at(0, 2), Err(GridError::OutOfBounds));
}

#[test]
fn digit_and_symbol_classification() {
    let s = schematic_of(&["1.#*0"]);
    assert!(s.is_number_at(0, 0));
    assert!(!s.is_number_at(1, 0));
    assert!(s.is_number_at(4, 0));
    assert!(!s.is_symbol_at(0, 0));
    assert!(!s.is_symbol_at(1, 0));
    assert!(s.is_symbol_at(2, 0));
    assert!(s.is_symbol_at(3, 0));
}

#[test]
fn extracts_tokens_with_positions_and_text() {
    let s = schematic_of(&["467..114..", "..35......"]);
    let parts = s.get_part_numbers();
    assert_eq!(parts.len(), 3);
    assert_eq!(parts[0].y, 0);
    assert_eq!(parts[0].x1, 0);
    assert_eq!(parts[0].x2, 2);
    assert_eq!(parts[0].value, vec!['4', '6', '7']);
    assert_eq!(parts[0].as_number(), 467);
    assert_eq!(parts[1].y, 0);
    assert_eq!(parts[1].x1, 5);
    assert_eq!(parts[1].x2, 7);
    assert_eq!(parts[1].as_number(), 114);
    assert_eq!(parts[2].y, 1);
    assert_eq!(parts[2].x1, 2);
    assert_eq!(parts[2].x2, 3);
    assert_eq!(parts[2].as_number(), 35);
}

#[test]
fn token_at_row_end_is_closed() {
    let s = schematic_of(&["..123"]);
    let parts = s.get_part_numbers();
    assert_eq!(parts.len(), 1);
    assert_eq!(parts[0].x1, 2);
    assert_eq!(parts[0].x2, 4);
    assert_eq!(parts[0].as_number(), 123);
}

#[test]
fn as_number_keeps_leading_zeros_out() {
    let s = schematic_of(&["007"]);
    let parts = s.get_part_numbers();
    assert_eq!(parts[0].as_number(), 7);
}

#[test]
fn x_adjacency_range_clamps_left_and_right() {
    let at_left = PartNumber {
        y: 0,
        x1: 0,
        x2: 2,
        value: vec!['4', '6', '7'],
    };
    let r = at_left.x_adjacency_range(9);
    assert_eq!(r.start, 0);
    assert_eq!(r.end, 3);

    let at_right = PartNumber {
        y: 0,
        x1: 3,
        x2: 5,
        value: vec!['1', '2', '3'],
    };
    let r = at_right.x_adjacency_range(5);
    assert_eq!(r.start, 2);
    assert_eq!(r.end, 5);
    let r = at_right.x_adjacency_range(9);
    assert_eq!(r.start, 2);
    assert_eq!(r.end, 6);
}
