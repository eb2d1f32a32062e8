//! Tests for the cell-type grammar and the field decoder.

use hackbot::cell::parse_cell;
use hackbot::cell::parse_cell_type;
use hackbot::cell::CellType;
use hackbot::field::parse_field;
use hackbot::game::Settings;
use hackbot::num::parse_usize;
use hackbot::num::usize_to_string;
use hackbot::ProtocolError;

fn settings_with(width: usize, height: usize, my_bot_id: usize) -> Settings {
    let mut s = Settings::new();
    s.update("field_width", &format!("{}", width)).unwrap();
    s.update("field_height", &format!("{}", height)).unwrap();
    s.update("your_botid", &format!("{}", my_bot_id)).unwrap();
    s
}

#[test]
fn fixed_tokens_decode() {
    assert_eq!(parse_cell_type("."), Ok(CellType::Nothing));
    assert_eq!(parse_cell_type("x"), Ok(CellType::Inaccessible));
    assert_eq!(parse_cell_type("Gl"), Ok(CellType::GateLeft));
    assert_eq!(parse_cell_type("Gr"), Ok(CellType::GateRight));
    assert_eq!(parse_cell_type("B"), Ok(CellType::PickUpMine));
    assert_eq!(parse_cell_type("C"), Ok(CellType::CodeSnippet));
}

#[test]
fn fixed_tokens_encode_back() {
    for token in [".", "x", "Gl", "Gr", "B", "C"] {
        let ct = parse_cell_type(token).unwrap();
        assert_eq!(ct.encode(), token);
    }
}

#[test]
fn payload_tokens_decode() {
    assert_eq!(parse_cell_type("P3"), Ok(CellType::Player { id: 3 }));
    assert_eq!(
        parse_cell_type("S7"),
        Ok(CellType::BugSpawnPoint {
            rounds_before_spawn: 7
        })
    );
    assert_eq!(
        parse_cell_type("S"),
        Ok(CellType::BugSpawnPoint {
            rounds_before_spawn: 0
        })
    );
    assert_eq!(parse_cell_type("E2"), Ok(CellType::Bug { ai_type: 2 }));
    assert_eq!(
        parse_cell_type("B4"),
        Ok(CellType::Mine {
            rounds_before_explode: 4
        })
    );
}

#[test]
fn payload_tokens_encode_back() {
    assert_eq!(CellType::Player { id: 3 }.encode(), "P3");
    assert_eq!(
        CellType::Mine {
            rounds_before_explode: 11
        }
        .encode(),
        "B11"
    );
    assert_eq!(
        CellType::BugSpawnPoint {
            rounds_before_spawn: 0
        }
        .encode(),
        "S0"
    );
}

#[test]
fn malformed_tokens_fail() {
    assert_eq!(parse_cell_type("P"), Err(ProtocolError::MalformedToken));
    assert_eq!(parse_cell_type("Q9"), Err(ProtocolError::MalformedToken));
    assert_eq!(parse_cell_type("P3x"), Err(ProtocolError::MalformedToken));
    assert_eq!(parse_cell_type(""), Err(ProtocolError::MalformedToken));
    assert_eq!(parse_cell_type("G"), Err(ProtocolError::MalformedToken));
    assert_eq!(parse_cell_type("Gx"), Err(ProtocolError::MalformedToken));
}

#[test]
fn numeric_token_rules() {
    assert_eq!(parse_usize("0"), Some(0));
    assert_eq!(parse_usize("12034"), Some(12034));
    assert_eq!(parse_usize(""), None);
    assert_eq!(parse_usize("12a"), None);
    assert_eq!(parse_usize("-3"), None);
    // far beyond any usize
    assert_eq!(parse_usize("99999999999999999999999999"), None);
    assert_eq!(usize_to_string(0), "0");
    assert_eq!(usize_to_string(12034), "12034");
}

#[test]
fn multi_facet_cell() {
    let cell = parse_cell("P1;C").unwrap();
    assert_eq!(
        cell.types,
        vec![CellType::Player { id: 1 }, CellType::CodeSnippet]
    );
    assert!(cell.has_code_snippet());
    assert_eq!(cell.player_ids(), vec![1]);
}

#[test]
fn field_two_rows_of_three() {
    let s = settings_with(3, 2, 0);
    let f = parse_field(&s, ".,.,.,x,x,x").unwrap();
    assert_eq!(f.cells.len(), 2);
    assert_eq!(f.cells[0].len(), 3);
    assert_eq!(f.cells[1].len(), 3);
    for c in 0..3 {
        assert_eq!(f.cells[0][c].types, vec![CellType::Nothing]);
        assert_eq!(f.cells[1][c].types, vec![CellType::Inaccessible]);
    }
}

#[test]
fn field_dimension_mismatch() {
    let s = settings_with(3, 2, 0);
    assert_eq!(
        parse_field(&s, ".,.,.,.,.").map(|_| ()),
        Err(ProtocolError::DimensionMismatch)
    );
}

#[test]
fn field_zero_width_rejected() {
    let s = settings_with(0, 0, 0);
    assert_eq!(
        parse_field(&s, ".").map(|_| ()),
        Err(ProtocolError::DimensionMismatch)
    );
}

#[test]
fn field_bad_cell_rejected() {
    let s = settings_with(2, 1, 0);
    assert_eq!(
        parse_field(&s, ".,Q").map(|_| ()),
        Err(ProtocolError::MalformedToken)
    );
}

#[test]
fn field_derived_positions() {
    // width 3: row 0 is `C . P0`, row 1 is `P1 . C;P2`
    let s = settings_with(3, 2, 0);
    let f = parse_field(&s, "C,.,P0,P1,.,C;P2").unwrap();
    assert_eq!(f.snippets, vec![(0, 0), (1, 2)]);
    assert_eq!(f.me, (0, 2));
    assert_eq!(f.others, vec![(1, 0), (1, 2)]);
}

#[test]
fn field_no_own_occupant_defaults_to_origin() {
    let s = settings_with(2, 1, 7);
    let f = parse_field(&s, "P1,.").unwrap();
    assert_eq!(f.me, (0, 0));
    assert_eq!(f.others, vec![(0, 0)]);
}

#[test]
fn index_to_coords_formula() {
    let s = settings_with(5, 4, 0);
    assert_eq!(s.index_to_coords(0), (0, 0));
    assert_eq!(s.index_to_coords(7), (1, 2));
    assert_eq!(s.index_to_coords(19), (3, 4));
}
