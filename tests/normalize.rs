use fin::normalize::normalize;

#[test]
fn double_newline_marker_is_one_newline_pair() {
    assert_eq!(normalize("a\u{10A}\u{10A}b"), "a\n\nb");
    assert_eq!(normalize("\u{10A}\u{10A}\u{10A}"), "\n\n\n");
}

#[test]
fn normalizing_twice_changes_nothing() {
    let raw = "Hello\u{120}world\u{10A}\u{10A}it\u{E2}\u{122}\u{13B}s\u{109}\u{E2}\u{122}\u{13E}q\u{E2}\u{122}\u{13F}";
    let once = normalize(raw);
    assert_eq!(once, "Hello world\n\nit's\t\u{201C}q\u{201D}");
    assert_eq!(normalize(&once), once);
}

#[test]
fn each_marker_is_replaced() {
    assert_eq!(normalize("\u{120}"), " ");
    assert_eq!(normalize("\u{10A}"), "\n");
    assert_eq!(normalize("\u{109}"), "\t");
    assert_eq!(normalize("\u{E2}\u{122}\u{13B}"), "'");
    assert_eq!(normalize("\u{E2}\u{122}\u{13E}"), "\u{201C}");
    assert_eq!(normalize("\u{E2}\u{122}\u{13F}"), "\u{201D}");
}

#[test]
fn plain_text_and_incomplete_sequences_are_kept() {
    assert_eq!(normalize(""), "");
    assert_eq!(normalize("plain text"), "plain text");
    assert_eq!(normalize("\u{E2}\u{122}"), "\u{E2}\u{122}");
    assert_eq!(normalize("\u{E2}x\u{120}"), "\u{E2}x ");
    assert_eq!(normalize(&normalize("\u{E2}\u{122}")), "\u{E2}\u{122}");
}
