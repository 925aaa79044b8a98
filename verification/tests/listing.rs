use dirgrid::classify;
use dirgrid::digits::u64_to_string;
use dirgrid::max_name_len;
use dirgrid::render_grid;
use dirgrid::solve_columns;
use dirgrid::can_be_printed;
use dirgrid::CustomTerminal;
use dirgrid::File;
use dirgrid::FileType;

fn plain_files(names: &[&str]) -> Vec<File> {
    names
        .iter()
        .map(|n| File::new((*n).to_string(), FileType::File, 0))
        .collect()
}

#[test]
fn terminal_snapshot_keeps_dimensions() {
    let t = CustomTerminal::new(80, 24);
    assert_eq!(t.width, 80);
    assert_eq!(t.height, 24);
}

#[test]
fn classify_prefers_directory_then_link() {
    assert_eq!(classify(true, false), FileType::Directory);
    assert_eq!(classify(true, true), FileType::Directory);
    assert_eq!(classify(false, true), FileType::Link);
    assert_eq!(classify(false, false), FileType::File);
}

#[test]
fn show_filetype_labels() {
    assert_eq!(File::new("a".to_string(), FileType::File, 0).show_filetype(), "File");
    assert_eq!(File::new("a".to_string(), FileType::Directory, 0).show_filetype(), "Directory");
    assert_eq!(File::new("a".to_string(), FileType::Link, 0).show_filetype(), "Link");
}

#[test]
fn show_size_zero_bytes() {
    let f = File::new("a".to_string(), FileType::File, 0);
    assert_eq!(f.show_size(), "0 bytes");
}

#[test]
fn show_size_exact_kilobyte() {
    let f = File::new("a".to_string(), FileType::File, 1024);
    assert_eq!(f.show_size(), "1 kb");
}

#[test]
fn show_size_one_and_a_half_kilobytes() {
    let f = File::new("a".to_string(), FileType::File, 1536);
    assert_eq!(f.show_size(), "1.5 kb");
}

#[test]
fn show_size_two_fraction_digits() {
    // 1075 / 1024 = 1.0498...; rounded to hundredths this is 1.05.
    let f = File::new("a".to_string(), FileType::File, 1075);
    assert_eq!(f.show_size(), "1.05 kb");
}

#[test]
fn show_size_small_count_stays_in_bytes() {
    let f = File::new("a".to_string(), FileType::File, 500);
    assert_eq!(f.show_size(), "500 bytes");
}

#[test]
fn show_size_exact_megabyte_and_gigabyte() {
    assert_eq!(File::new("a".to_string(), FileType::File, 1048576).show_size(), "1 mb");
    assert_eq!(File::new("a".to_string(), FileType::File, 1073741824).show_size(), "1 gb");
    assert_eq!(File::new("a".to_string(), FileType::File, 1099511627776).show_size(), "1 tb");
}

#[test]
fn show_size_unit_saturates_at_tb() {
    // u64::MAX is about 16 million tb; the unit must stay "tb" (and the
    // fractional part here rounds up into the integer part).
    let f = File::new("a".to_string(), FileType::File, u64::MAX);
    assert_eq!(f.show_size(), "16777216 tb");
}

#[test]
fn show_size_placeholder_for_non_files() {
    assert_eq!(File::new("a".to_string(), FileType::Directory, 4096).show_size(), "...");
    assert_eq!(File::new("a".to_string(), FileType::Link, 11).show_size(), "...");
}

#[test]
fn show_name_highlights_exe_suffix() {
    let f = File::new("program.exe".to_string(), FileType::File, 0);
    assert_eq!(f.show_name(), "\x1b[33;32mprogram.exe\x1b[0m");
}

#[test]
fn show_name_leaves_exe_bak_alone() {
    let f = File::new("program.exe.bak".to_string(), FileType::File, 0);
    assert_eq!(f.show_name(), "program.exe.bak");
}

#[test]
fn show_name_leaves_dotless_names_alone() {
    let f = File::new("Makefile".to_string(), FileType::File, 0);
    assert_eq!(f.show_name(), "Makefile");
}

#[test]
fn show_name_dotless_name_is_its_own_suffix() {
    // A name with no dot counts as its own suffix, so a file named exactly
    // "exe" is highlighted.
    let f = File::new("exe".to_string(), FileType::File, 0);
    assert_eq!(f.show_name(), "\x1b[33;32mexe\x1b[0m");
}

#[test]
fn show_name_trailing_dot_has_empty_suffix() {
    let f = File::new("trailing.".to_string(), FileType::File, 0);
    assert_eq!(f.show_name(), "trailing.");
}

#[test]
fn show_name_wraps_directories_in_blue() {
    let f = File::new("src".to_string(), FileType::Directory, 0);
    assert_eq!(f.show_name(), "\x1b[34msrc\x1b[0m");
}

#[test]
fn show_name_never_highlights_links() {
    let f = File::new("link.exe".to_string(), FileType::Link, 0);
    assert_eq!(f.show_name(), "link.exe");
}

#[test]
fn max_name_len_has_floor_ten() {
    // Only names shorter than 10 characters: the width is exactly 10.
    let files = plain_files(&["a", "bb", "short"]);
    assert_eq!(max_name_len(&files), 10);
}

#[test]
fn max_name_len_of_empty_listing_is_ten() {
    let files: Vec<File> = Vec::new();
    assert_eq!(max_name_len(&files), 10);
}

#[test]
fn max_name_len_takes_longest_name() {
    let files = plain_files(&["a", "fifteen_chars_x", "bb"]);
    assert_eq!(max_name_len(&files), 15);
}

#[test]
fn max_name_len_counts_characters_not_bytes() {
    // Five characters even though the name is more than five bytes long.
    let files = plain_files(&["héllo", "aaaaaaaaaaaa"]);
    assert_eq!(max_name_len(&files), 12);
}

#[test]
fn feasibility_concrete_values() {
    // 4 entries, name width 3, terminal width 12: each cell is 5 wide, and a
    // row of two cells (10) fits while a single row of four cells (20) does
    // not.
    let files = plain_files(&["aaa", "bbb", "ccc", "ddd"]);
    let tw: u16 = 12;
    assert!(can_be_printed(&tw, &files, 1, 3));
    assert!(can_be_printed(&tw, &files, 2, 3));
    assert!(can_be_printed(&tw, &files, 3, 3));
    assert!(!can_be_printed(&tw, &files, 4, 3));
}

#[test]
fn feasibility_is_monotonic_on_samples() {
    let files = plain_files(&["aaa", "bbb", "ccc", "ddd", "eee", "fff", "ggg"]);
    for tw in [0u16, 1, 5, 12, 30, 80] {
        for c in 2..=40u16 {
            if can_be_printed(&tw, &files, c, 3) {
                assert!(can_be_printed(&tw, &files, c - 1, 3));
            }
        }
    }
}

#[test]
fn solver_picks_maximal_feasible_count() {
    let files = plain_files(&["aaa", "bbb", "ccc", "ddd"]);
    let c = solve_columns(12, &files, 3);
    assert_eq!(c, 3);
    assert!(can_be_printed(&12, &files, c as u16, 3));
    assert!(!can_be_printed(&12, &files, (c + 1) as u16, 3));
}

#[test]
fn solver_reaches_terminal_width_when_everything_fits() {
    let files = plain_files(&["a", "b"]);
    // Two tiny entries always fit: the search runs to the upper bound.
    let c = solve_columns(200, &files, 10);
    assert_eq!(c, 200);
}

#[test]
fn solver_degrades_to_one_column() {
    // The single name is wider than the terminal; the solver does not fail,
    // it falls back to one column.
    let files = plain_files(&["a_very_long_name_indeed"]);
    assert_eq!(solve_columns(10, &files, 23), 1);
}

#[test]
fn solver_degenerate_cases() {
    let none: Vec<File> = Vec::new();
    assert_eq!(solve_columns(80, &none, 10), 1);
    let files = plain_files(&["aaa"]);
    assert_eq!(solve_columns(0, &files, 10), 1);
}

#[test]
fn renderer_lays_out_column_major() {
    // The worked round-trip example: 4 entries in 2 columns make 2 rows;
    // entry i sits at row i % 2, column i / 2, so row 0 is a,ccc and row 1
    // is bb,d — each entry printed exactly once.
    let files = plain_files(&["a", "bb", "ccc", "d"]);
    let lines = render_grid(&files, 10, 2);
    assert_eq!(lines.len(), 2);
    assert_eq!(lines[0], "a           ccc");
    assert_eq!(lines[1], "bb          d");
}

#[test]
fn renderer_handles_partial_last_column() {
    // 5 entries in 2 columns make 3 rows; the second column has only two
    // entries, so the last row is the first column's cell alone.
    let files = plain_files(&["a", "b", "c", "d", "e"]);
    let lines = render_grid(&files, 10, 2);
    assert_eq!(lines.len(), 3);
    assert_eq!(lines[0], "a           d");
    assert_eq!(lines[1], "b           e");
    assert_eq!(lines[2], "c");
}

#[test]
fn renderer_prints_nothing_for_zero_entries() {
    let none: Vec<File> = Vec::new();
    let lines = render_grid(&none, 10, 3);
    assert_eq!(lines.len(), 0);
}

#[test]
fn renderer_single_column_is_one_name_per_line() {
    let files = plain_files(&["one", "two", "three"]);
    let lines = render_grid(&files, 10, 1);
    assert_eq!(lines, vec!["one", "two", "three"]);
}

#[test]
fn renderer_pads_on_visible_width() {
    // Padding is computed on the visible name, not on the bytes of the
    // color escape sequence around a directory name, and not on the byte
    // length of a multi-byte character.
    let files = vec![
        File::new("é".to_string(), FileType::Directory, 0),
        File::new("b".to_string(), FileType::File, 0),
    ];
    let lines = render_grid(&files, 10, 2);
    assert_eq!(lines.len(), 1);
    assert_eq!(lines[0], "\x1b[34mé\x1b[0m           b");
}

#[test]
fn renderer_counts_each_entry_once() {
    // Across all rows the renderer emits exactly n names, each once.
    let names = ["q", "w", "e", "r", "t", "y", "u"];
    let files = plain_files(&names);
    let lines = render_grid(&files, 10, 3);
    let joined: Vec<String> = lines
        .join(" ")
        .split_whitespace()
        .map(|s| s.to_string())
        .collect();
    let mut sorted = joined.clone();
    sorted.sort();
    let mut expected: Vec<String> = names.iter().map(|s| s.to_string()).collect();
    expected.sort();
    assert_eq!(sorted, expected);
}

#[test]
fn solved_layout_fits_the_terminal() {
    // End to end: solve the column count, render, and check that no line is
    // wider than the terminal (all names are plain, so the visible width is
    // just the character count).
    let files = plain_files(&["alpha", "beta", "gamma", "delta", "epsilon", "zeta", "eta"]);
    let w = max_name_len(&files);
    assert_eq!(w, 10);
    for tw in [13u16, 20, 26, 40, 80] {
        let c = solve_columns(tw, &files, w);
        let lines = render_grid(&files, w, c);
        for line in &lines {
            assert!(line.chars().count() <= tw as usize);
        }
    }
}

#[test]
fn decimal_rendering_of_integers() {
    assert_eq!(u64_to_string(0), "0");
    assert_eq!(u64_to_string(7), "7");
    assert_eq!(u64_to_string(12345), "12345");
    assert_eq!(u64_to_string(u64::MAX), "18446744073709551615");
}
