use sed_unlock::console::{best_text_mode, TextMode};

fn m(columns: usize, rows: usize) -> TextMode {
    TextMode { columns, rows }
}

#[test]
fn no_modes_no_choice() {
    assert_eq!(best_text_mode(&vec![]), None);
}

#[test]
fn picks_the_most_cells_up_to_120_columns() {
    let modes = vec![m(80, 25), m(100, 31), m(128, 40), m(80, 30)];
    assert_eq!(best_text_mode(&modes), Some(1));
}

#[test]
fn wider_modes_count_as_nothing() {
    let modes = vec![m(200, 60), m(160, 50)];
    // both score zero: the last one wins the tie
    assert_eq!(best_text_mode(&modes), Some(1));
    let modes = vec![m(200, 60), m(1, 1)];
    assert_eq!(best_text_mode(&modes), Some(1));
}

#[test]
fn ties_go_to_the_last_mode() {
    let modes = vec![m(100, 40), m(80, 50), m(120, 10)];
    assert_eq!(best_text_mode(&modes), Some(1));
    let modes = vec![m(80, 25), m(80, 25), m(80, 25)];
    assert_eq!(best_text_mode(&modes), Some(2));
}

#[test]
fn exactly_120_columns_counts() {
    let modes = vec![m(120, 40), m(121, 40), m(80, 25)];
    assert_eq!(best_text_mode(&modes), Some(0));
}
