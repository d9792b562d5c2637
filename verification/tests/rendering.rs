use field_sim::field::Field;
use field_sim::tile::Tile;

const GREEN: &str = "\u{1b}[32m";
const YELLOW: &str = "\u{1b}[33m";
const RESET: &str = "\u{1b}[39m";

fn tile(seed: bool, plant: bool) -> Tile {
    Tile { soil: true, seed, plant }
}

#[test]
fn display_one_row_with_plant_seed_and_soil() {
    let f = Field {
        height: 1,
        width: 3,
        year: 1,
        plant_rarity: 1,
        timer: 0,
        tiles: vec![tile(false, true), tile(true, false), tile(false, false)],
    };
    let expected = format!("\n{GREEN}P{RESET}{YELLOW}S{RESET} |  0\n\n");
    assert_eq!(f.display_field(), expected);
}

#[test]
fn display_two_rows_labels_each_row() {
    let f = Field {
        height: 2,
        width: 2,
        year: 1,
        plant_rarity: 1,
        timer: 0,
        tiles: vec![tile(false, false), tile(false, false), tile(true, false), tile(false, true)],
    };
    let expected = format!("\n  |  0\n{YELLOW}S{RESET}{GREEN}P{RESET}|  1\n\n");
    assert_eq!(f.display_field(), expected);
}

#[test]
fn display_aligns_wide_row_numbers() {
    // 12 rows of width 1: the row trailer is right-aligned to width 3.
    let mut tiles = Vec::new();
    for _ in 0..12 {
        tiles.push(tile(false, false));
    }
    let f = Field { height: 12, width: 1, year: 1, plant_rarity: 1, timer: 0, tiles };
    let out = f.display_field();
    assert!(out.contains(" |  0\n"));
    assert!(out.contains(" |  9\n"));
    assert!(out.contains(" | 10\n"));
    assert!(out.contains(" | 11\n"));
}
