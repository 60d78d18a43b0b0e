use spiltixal::search::SearchState;
use spiltixal::term::TerminalState;

#[test]
fn search_finds_ordered_matches_across_scrollback_and_grid() {
    // two rows tall: lines scroll into scrollback as they are fed
    let mut t = TerminalState::new(2, 8, 100);
    t.process_bytes(b"foo bar\r\nxfoox\r\nnothing\r\nfoo\r\nfoo here");
    assert_eq!(t.grid.scrollback.len(), 3);
    let mut s = SearchState::default();
    s.query = "FOO".to_string();
    s.search(&t.grid.scrollback, &t.grid.cells);
    assert_eq!(s.matches.len(), 4);
    // row-major, column order
    assert_eq!((s.matches[0].row, s.matches[0].col, s.matches[0].len), (0, 0, 3));
    assert_eq!((s.matches[1].row, s.matches[1].col), (1, 1));
    assert_eq!((s.matches[2].row, s.matches[2].col), (3, 0));
    assert_eq!((s.matches[3].row, s.matches[3].col), (4, 0));
    assert_eq!(s.current_idx, 0);
}

#[test]
fn next_cycles_back_to_first() {
    let mut t = TerminalState::new(2, 6, 100);
    t.process_bytes(b"ab ab\r\nab");
    let mut s = SearchState::default();
    s.query = "ab".to_string();
    s.search(&t.grid.scrollback, &t.grid.cells);
    let k = s.matches.len();
    assert_eq!(k, 3);
    for _ in 0..k {
        s.next();
    }
    assert_eq!(s.current_idx, 0);
    s.prev();
    assert_eq!(s.current_idx, k - 1);
    s.next();
    assert_eq!(s.current_idx, 0);
}

#[test]
fn empty_query_clears_matches_and_empty_buffers_are_safe() {
    let t = TerminalState::new(1, 4, 0);
    let mut s = SearchState::default();
    s.query = String::new();
    s.search(&t.grid.scrollback, &t.grid.cells);
    assert!(s.matches.is_empty());
    s.next();
    s.prev();
    assert_eq!(s.current_idx, 0);
    assert!(s.current_match().is_none());
    // a query over empty scrollback and a blank grid finds nothing
    s.query = "zz".to_string();
    s.search(&t.grid.scrollback, &t.grid.cells);
    assert!(s.matches.is_empty());
}

#[test]
fn search_is_case_insensitive_both_ways() {
    let mut t = TerminalState::new(1, 8, 0);
    t.process_bytes(b"MiXeD");
    let mut s = SearchState::default();
    s.query = "mixed".to_string();
    s.search(&t.grid.scrollback, &t.grid.cells);
    assert_eq!(s.matches.len(), 1);
    assert_eq!((s.matches[0].row, s.matches[0].col), (0, 0));
}

#[test]
fn overlapping_occurrences_all_found() {
    let mut t = TerminalState::new(1, 6, 0);
    t.process_bytes(b"aaaa");
    let mut s = SearchState::default();
    s.query = "aa".to_string();
    s.search(&t.grid.scrollback, &t.grid.cells);
    let cols: Vec<usize> = s.matches.iter().map(|m| m.col).collect();
    assert_eq!(cols, vec![0, 1, 2]);
}

#[test]
fn membership_queries_for_highlighting() {
    let mut t = TerminalState::new(1, 10, 0);
    t.process_bytes(b"see saw");
    let mut s = SearchState::default();
    s.query = "s".to_string();
    s.search(&t.grid.scrollback, &t.grid.cells);
    assert_eq!(s.matches.len(), 2);
    assert!(s.is_match_at(0, 0));
    assert!(s.is_match_at(0, 4));
    assert!(!s.is_match_at(0, 1));
    assert!(s.is_current_at(0, 0));
    assert!(!s.is_current_at(0, 4));
    s.next();
    assert!(s.is_current_at(0, 4));
    let m = s.current_match().unwrap();
    assert_eq!((m.row, m.col, m.len), (0, 4, 1));
}
