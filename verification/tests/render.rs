use bf_evolve::render::format_source;

#[test]
fn format_strips_filler() {
    let chr: Vec<char> = "+ + . ".chars().collect();
    assert_eq!(format_source(&chr), "++.");
}

#[test]
fn format_empty_and_all_filler() {
    assert_eq!(format_source(&Vec::new()), "");
    let blanks: Vec<char> = vec![' '; 10];
    assert_eq!(format_source(&blanks), "");
}

#[test]
fn format_breaks_every_eighty_columns() {
    let chr: Vec<char> = vec!['+'; 170];
    let text = format_source(&chr);
    let lines: Vec<&str> = text.split('\n').collect();
    assert_eq!(lines.len(), 3);
    assert_eq!(lines[0].len(), 80);
    assert_eq!(lines[1].len(), 80);
    assert_eq!(lines[2].len(), 10);
}

#[test]
fn format_no_break_at_exact_width() {
    let chr: Vec<char> = vec!['+'; 80];
    let text = format_source(&chr);
    assert_eq!(text.len(), 80);
    assert!(!text.contains('\n'));
}

#[test]
fn format_counts_columns_after_stripping() {
    // 40 fillers and 85 operators: breaks fall by the stripped text
    let mut chr: Vec<char> = Vec::new();
    for i in 0..125 {
        chr.push(if i % 3 == 0 && i < 120 { ' ' } else { '+' });
    }
    let text = format_source(&chr);
    let stripped: usize = chr.iter().filter(|c| **c != ' ').count();
    let lines: Vec<&str> = text.split('\n').collect();
    assert_eq!(lines.len(), (stripped + 79) / 80);
    assert_eq!(lines[0].len(), 80);
}
