use jtools::layout::format_columns;

fn entries(names: &[&str]) -> Vec<String> {
    names.iter().map(|n| n.to_string()).collect()
}

#[test]
fn single_row_last_column_unpadded() {
    // Three entries, longest 3 wide: cell width 5, 16 columns, one row.
    let out = format_columns(&entries(&["a", "bb", "ccc"]), 80);
    assert_eq!(out, "a    bb   ccc");
}

#[test]
fn narrow_terminal_forces_single_column() {
    let out = format_columns(&entries(&["a", "b", "c", "d"]), 3);
    assert_eq!(out, "a\nb\nc\nd");
}

#[test]
fn empty_entries_give_empty_output() {
    assert_eq!(format_columns(&entries(&[]), 80), "");
    assert_eq!(format_columns(&entries(&[]), 1), "");
}

#[test]
fn width_below_cell_width_clamps_to_one_column() {
    // One entry of length 4; terminal width 5 is below the cell width 6.
    let out = format_columns(&entries(&["abcd"]), 5);
    assert_eq!(out, "abcd");
}

#[test]
fn column_major_fill_with_partial_last_column() {
    // Five entries, cell width 6, terminal width 13: two columns of three
    // rows; the last row stops after its only entry.
    let out = format_columns(&entries(&["aa", "b", "cccc", "dd", "e"]), 13);
    assert_eq!(out, "aa    dd\nb     e\ncccc");
}

#[test]
fn formatting_is_deterministic() {
    let names = entries(&["alpha", "beta", "gamma", "delta"]);
    let a = format_columns(&names, 24);
    let b = format_columns(&names, 24);
    assert_eq!(a, b);
}

#[test]
fn output_splits_back_into_the_entries() {
    // Re-extract the entries: split on newlines, cut rows at multiples of
    // the cell width, strip the padding, read column-major.
    let names = ["aa", "b", "cccc", "dd", "e"];
    let out = format_columns(&entries(&names), 13);
    let ew = 6usize; // longest entry (4) + 2
    let rows: Vec<&str> = out.split('\n').collect();
    let mut grid: Vec<Vec<String>> = Vec::new();
    for row in &rows {
        let chars: Vec<char> = row.chars().collect();
        let mut cells = Vec::new();
        let mut start = 0usize;
        while start < chars.len() {
            let end = (start + ew).min(chars.len());
            let cell: String = chars[start..end].iter().collect();
            cells.push(cell.trim_end_matches(' ').to_string());
            start = end;
        }
        grid.push(cells);
    }
    let mut extracted = Vec::new();
    let mut c = 0usize;
    loop {
        let mut any = false;
        for row in &grid {
            if c < row.len() {
                extracted.push(row[c].clone());
                any = true;
            }
        }
        if !any {
            break;
        }
        c += 1;
    }
    // Column-major read-out walks column by column, but entries were laid
    // out column-major too, so reading each column top to bottom restores
    // the original order.
    assert_eq!(extracted, names.iter().map(|n| n.to_string()).collect::<Vec<_>>());
}
