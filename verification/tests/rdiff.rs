use deet::grid::Grid;
use deet::rdiff::{diff, lcs, Change};

#[test]
fn test_lcs() {
    let mut expected = Grid::new(5, 4);
    expected.set(1, 1, 1).unwrap();
    expected.set(1, 2, 1).unwrap();
    expected.set(1, 3, 1).unwrap();
    expected.set(2, 1, 1).unwrap();
    expected.set(2, 2, 1).unwrap();
    expected.set(2, 3, 2).unwrap();
    expected.set(3, 1, 1).unwrap();
    expected.set(3, 2, 1).unwrap();
    expected.set(3, 3, 2).unwrap();
    expected.set(4, 1, 1).unwrap();
    expected.set(4, 2, 2).unwrap();
    expected.set(4, 3, 2).unwrap();

    println!("Expected:");
    expected.display();
    let result = lcs(
        &"abcd".chars().map(|c| c.to_string()).collect(),
        &"adb".chars().map(|c| c.to_string()).collect(),
    );
    println!("Got:");
    result.display();
    assert_eq!(result.size(), expected.size());
    for row in 0..expected.size().0 {
        for col in 0..expected.size().1 {
            assert_eq!(result.get(row, col), expected.get(row, col));
        }
    }
}

#[test]
fn lcs_of_empty_sequences_is_a_single_zero() {
    let result = lcs(&Vec::new(), &Vec::new());
    assert_eq!(result.size(), (1, 1));
    assert_eq!(result.get(0, 0), Some(0));
    assert_eq!(result.get(1, 0), None);
}

#[test]
fn lcs_of_equal_sequences_is_their_length() {
    let lines: Vec<String> = vec!["x".to_string(), "y".to_string(), "z".to_string()];
    let result = lcs(&lines, &lines);
    assert_eq!(result.get(3, 3), Some(3));
    assert_eq!(result.get(2, 3), Some(2));
}

#[test]
fn grid_starts_with_zeros_and_keeps_what_is_set() {
    let mut grid = Grid::new(2, 3);
    assert_eq!(grid.size(), (2, 3));
    assert_eq!(grid.get(1, 2), Some(0));
    assert_eq!(grid.set(1, 2, 7), Ok(()));
    assert_eq!(grid.get(1, 2), Some(7));
    assert_eq!(grid.get(0, 2), Some(0));
    assert_eq!(grid.display(), vec![vec![0, 0, 0], vec![0, 0, 7]]);
    grid.clear();
    assert_eq!(grid.get(1, 2), Some(0));
}

#[test]
fn grid_refuses_cells_outside() {
    let mut grid = Grid::new(2, 3);
    assert!(grid.set(2, 0, 1).is_err());
    assert!(grid.set(0, 3, 1).is_err());
    assert_eq!(grid.get(2, 0), None);
    assert_eq!(grid.get(0, 3), None);
    assert_eq!(grid.display(), vec![vec![0, 0, 0], vec![0, 0, 0]]);
}

fn lines(text: &str) -> Vec<String> {
    text.chars().map(|c| c.to_string()).collect()
}

#[test]
fn diff_walks_back_through_the_table() {
    let left = lines("abcd");
    let right = lines("adb");
    let table = lcs(&left, &right);
    let changes = diff(&table, &left, &right, left.len(), right.len());
    assert_eq!(
        changes,
        vec![
            Change::Same { left: 0, right: 0 },
            Change::Removed { left: 1 },
            Change::Removed { left: 2 },
            Change::Same { left: 3, right: 1 },
            Change::Added { right: 2 },
        ]
    );
}

#[test]
fn diff_of_equal_texts_keeps_every_line() {
    let text = lines("xyz");
    let table = lcs(&text, &text);
    assert_eq!(
        diff(&table, &text, &text, 3, 3),
        vec![
            Change::Same { left: 0, right: 0 },
            Change::Same { left: 1, right: 1 },
            Change::Same { left: 2, right: 2 },
        ]
    );
}

#[test]
fn diff_with_an_empty_text_adds_or_removes_every_line() {
    let text = lines("ab");
    let none: Vec<String> = Vec::new();
    let table = lcs(&text, &none);
    assert_eq!(
        diff(&table, &text, &none, 2, 0),
        vec![Change::Removed { left: 0 }, Change::Removed { left: 1 }]
    );
    let table = lcs(&none, &text);
    assert_eq!(
        diff(&table, &none, &text, 0, 2),
        vec![Change::Added { right: 0 }, Change::Added { right: 1 }]
    );
    let table = lcs(&none, &none);
    assert_eq!(diff(&table, &none, &none, 0, 0), vec![]);
}

#[test]
fn diff_accounts_for_every_line_once_and_keeps_as_many_as_the_table_says() {
    let left = lines("the quick brown fox");
    let right = lines("a quick brown dog jumps");
    let table = lcs(&left, &right);
    let changes = diff(&table, &left, &right, left.len(), right.len());
    let lefts: Vec<usize> = changes
        .iter()
        .filter_map(|c| match c {
            Change::Same { left, .. } | Change::Removed { left } => Some(*left),
            _ => None,
        })
        .collect();
    let rights: Vec<usize> = changes
        .iter()
        .filter_map(|c| match c {
            Change::Same { right, .. } | Change::Added { right } => Some(*right),
            _ => None,
        })
        .collect();
    assert_eq!(lefts, (0..left.len()).collect::<Vec<usize>>());
    assert_eq!(rights, (0..right.len()).collect::<Vec<usize>>());
    let same = changes.iter().filter(|c| matches!(c, Change::Same { .. })).count();
    assert_eq!(Some(same), table.get(left.len(), right.len()));
    for change in &changes {
        if let Change::Same { left: l, right: r } = change {
            assert_eq!(left[*l], right[*r]);
        }
    }
}
