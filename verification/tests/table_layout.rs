use alexdb::layout::layout_table;

fn strings(v: &[&str]) -> Vec<String> {
    v.iter().map(|s| s.to_string()).collect()
}

#[test]
fn layout_pads_columns_to_widest_text() {
    let headers = strings(&["id", "name"]);
    let rows = vec![strings(&["1", "'Ann'"]), strings(&["10000", "'B'"])];
    let text = layout_table(&headers, &rows);
    assert_eq!(text, "id      name\n1       'Ann'\n10000   'B'\n");
}

#[test]
fn layout_without_columns_is_empty() {
    let text = layout_table(&Vec::new(), &vec![Vec::new(), Vec::new()]);
    assert_eq!(text, "");
}

#[test]
fn layout_of_headers_only() {
    let text = layout_table(&strings(&["a", "bb", "c"]), &Vec::new());
    assert_eq!(text, "a   bb   c\n");
}

#[test]
fn layout_shows_eleven_rows_at_most() {
    let headers = strings(&["n"]);
    let rows: Vec<Vec<String>> = (0..20).map(|i| vec![i.to_string()]).collect();
    let text = layout_table(&headers, &rows);
    assert_eq!(text.lines().count(), 12);
    assert_eq!(text.lines().last(), Some("10"));
}

#[test]
fn layout_widths_count_bytes() {
    let headers = strings(&["é", "x"]);
    let rows = vec![strings(&["ab", "y"])];
    let text = layout_table(&headers, &rows);
    assert_eq!(text, "é   x\nab   y\n");
}
