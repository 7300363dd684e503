use deet::grid::{Grid, GridError};
use deet::rdiff::{diff, lcs, DiffLine};

fn lines(text: &str) -> Vec<String> {
    text.chars().map(|c| c.to_string()).collect()
}

#[test]
fn test_lcs() {
    let mut expected = Grid::new(5, 4);
    expected.set(1, 1, 1).unwrap();
    expected.set(1, 2, 1).unwrap();
    expected.set(1, 3, 1).unwrap();
    expected.set(2, 1, 1).unwrap();
    expected.set(2, 2, 1).unwrap();
    expected.set(2, 3, 2).unwrap();
    expected.set(3, 1, 1).unwrap();
    expected.set(3, 2, 1).unwrap();
    expected.set(3, 3, 2).unwrap();
    expected.set(4, 1, 1).unwrap();
    expected.set(4, 2, 2).unwrap();
    expected.set(4, 3, 2).unwrap();

    println!("Expected:");
    println!("{:?}", expected);
    let result = lcs(
        &"abcd".chars().map(|c| c.to_string()).collect(),
        &"adb".chars().map(|c| c.to_string()).collect(),
    );
    println!("Got:");
    println!("{:?}", result);
    assert_eq!(result.size(), expected.size());
    for row in 0..expected.size().0 {
        for col in 0..expected.size().1 {
            assert_eq!(result.get(row, col), expected.get(row, col));
        }
    }
}

#[test]
fn grid_starts_with_zeros_and_rejects_cells_outside() {
    let mut grid = Grid::new(2, 3);
    assert_eq!(grid.size(), (2, 3));
    for row in 0..2 {
        for col in 0..3 {
            assert_eq!(grid.get(row, col), Some(0));
        }
    }
    assert_eq!(grid.get(2, 0), None);
    assert_eq!(grid.get(0, 3), None);
    assert_eq!(grid.set(2, 0, 9), Err(GridError::OutOfBounds));
    assert_eq!(grid.set(0, 3, 9), Err(GridError::OutOfBounds));
    assert_eq!(grid.set(1, 2, 9), Ok(()));
    assert_eq!(grid.get(1, 2), Some(9));
    assert_eq!(grid.get(0, 2), Some(0));
    assert_eq!(grid.get(1, 1), Some(0));
}

#[test]
fn grid_clear_puts_zero_everywhere() {
    let mut grid = Grid::new(3, 2);
    grid.set(0, 0, 4).unwrap();
    grid.set(2, 1, 5).unwrap();
    grid.clear();
    assert_eq!(grid.size(), (3, 2));
    for row in 0..3 {
        for col in 0..2 {
            assert_eq!(grid.get(row, col), Some(0));
        }
    }
}

#[test]
fn grid_without_cells() {
    let grid = Grid::new(0, 5);
    assert_eq!(grid.size(), (0, 5));
    assert_eq!(grid.get(0, 0), None);
}

#[test]
fn lcs_of_empty_texts_is_one_zero_cell() {
    let table = lcs(&vec![], &vec![]);
    assert_eq!(table.size(), (1, 1));
    assert_eq!(table.get(0, 0), Some(0));
}

#[test]
fn lcs_corner_is_the_length_of_the_longest_common_subsequence() {
    let table = lcs(&lines("AGGTAB"), &lines("GXTXAYB"));
    assert_eq!(table.get(6, 7), Some(4));
    let same = lcs(&lines("hello"), &lines("hello"));
    assert_eq!(same.get(5, 5), Some(5));
    let apart = lcs(&lines("abc"), &lines("xyz"));
    assert_eq!(apart.get(3, 3), Some(0));
}

#[test]
fn diff_marks_common_added_and_removed_lines() {
    let script = diff(&lines("abcd"), &lines("adb"));
    assert_eq!(
        script,
        vec![
            DiffLine::Same("a".to_string()),
            DiffLine::Removed("b".to_string()),
            DiffLine::Removed("c".to_string()),
            DiffLine::Same("d".to_string()),
            DiffLine::Added("b".to_string()),
        ]
    );
}

#[test]
fn diff_of_equal_texts_is_all_common() {
    let script = diff(&lines("xyz"), &lines("xyz"));
    assert_eq!(
        script,
        vec![
            DiffLine::Same("x".to_string()),
            DiffLine::Same("y".to_string()),
            DiffLine::Same("z".to_string()),
        ]
    );
    assert_eq!(diff(&vec![], &vec![]), vec![]);
}

#[test]
fn diff_against_an_empty_text() {
    assert_eq!(
        diff(&lines("ab"), &vec![]),
        vec![DiffLine::Removed("a".to_string()), DiffLine::Removed("b".to_string())]
    );
    assert_eq!(
        diff(&vec![], &lines("ab")),
        vec![DiffLine::Added("a".to_string()), DiffLine::Added("b".to_string())]
    );
}

#[test]
fn diff_accounts_for_both_texts() {
    let first = lines("the quick brown fox");
    let second = lines("a quick brown dog");
    let script = diff(&first, &second);
    let mut from_first = Vec::new();
    let mut from_second = Vec::new();
    for line in &script {
        match line {
            DiffLine::Same(text) => {
                from_first.push(text.clone());
                from_second.push(text.clone());
            }
            DiffLine::Removed(text) => from_first.push(text.clone()),
            DiffLine::Added(text) => from_second.push(text.clone()),
        }
    }
    assert_eq!(from_first, first);
    assert_eq!(from_second, second);
}
