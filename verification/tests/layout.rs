use moonlit::layout::{cell_of_column, TAB_CELLS};

#[test]
fn layout_plain_characters_take_one_cell() {
    assert_eq!(cell_of_column("abc", 0), Some(0));
    assert_eq!(cell_of_column("abc", 2), Some(2));
    assert_eq!(cell_of_column("abc", 3), Some(3));
    assert_eq!(cell_of_column("h\u{e9}\u{20ac}", 3), Some(3));
}

#[test]
fn layout_tab_takes_four_cells() {
    assert_eq!(TAB_CELLS, 4);
    assert_eq!(cell_of_column("\tab", 0), Some(0));
    assert_eq!(cell_of_column("\tab", 1), Some(4));
    assert_eq!(cell_of_column("\tab", 2), Some(5));
    assert_eq!(cell_of_column("a\t\tb", 3), Some(9));
    assert_eq!(cell_of_column("a\t\tb", 4), Some(10));
}

#[test]
fn layout_column_behind_the_line_is_its_end() {
    assert_eq!(cell_of_column("", 0), Some(0));
    assert_eq!(cell_of_column("", 5), Some(0));
    assert_eq!(cell_of_column("a\t", 9), Some(5));
    assert_eq!(cell_of_column("a\t", usize::MAX), Some(5));
}
