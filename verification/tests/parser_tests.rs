use gw_synth_flash_mcp::cable::{
    cable_text_parses, candidate_cable_name, checked_parse_cable_entries, entry_given_lowercase,
    is_cable_like, is_list_item_like, label_values_given_lowercase, list_item_given_lowercase,
    list_item_text_of, parse_cable_entries, parse_cable_names, push_cable_entry, strip_cable_suffix,
    CableInfo,
};

fn info(name: &str, index: Option<&str>, location: Option<&str>) -> CableInfo {
    CableInfo {
        name: name.to_string(),
        index: index.map(|s| s.to_string()),
        location: location.map(|s| s.to_string()),
    }
}

#[test]
fn strip_cable_suffix_removes_double_slash_suffix() {
    assert_eq!(strip_cable_suffix("FTUSB-1B (JTAG-USB Cable)/0/0/null"), "FTUSB-1B (JTAG-USB Cable)");
    assert_eq!(strip_cable_suffix("FTUSB-1B (JTAG-USB Cable)/1/2/null"), "FTUSB-1B (JTAG-USB Cable)");
}

#[test]
fn strip_cable_suffix_keeps_clean_name() {
    assert_eq!(strip_cable_suffix("FTUSB-1B (JTAG-USB Cable)"), "FTUSB-1B (JTAG-USB Cable)");
}

#[test]
fn strip_cable_suffix_keeps_single_segment_suffix() {
    assert_eq!(strip_cable_suffix("GW2A-LV18PG256C8/I7"), "GW2A-LV18PG256C8/I7");
}

#[test]
fn strip_cable_suffix_handles_empty_and_whitespace() {
    assert_eq!(strip_cable_suffix(""), "");
    assert_eq!(strip_cable_suffix("   "), "");
    assert_eq!(strip_cable_suffix("  name/0/0/null  "), "name");
}

#[test]
fn strip_cable_suffix_spaced_segments() {
    assert_eq!(strip_cable_suffix("Gowin USB Cable (FT2CH) / 1 / 2"), "Gowin USB Cable (FT2CH)");
}

#[test]
fn strip_cable_suffix_is_idempotent_on_examples() {
    for s in ["  a/b/c ", "GW2A-LV18PG256C8/I7", "x", "  ", "Gowin USB Cable(FT2CH)/0/0/null"] {
        let once = strip_cable_suffix(s);
        assert_eq!(strip_cable_suffix(&once), once);
        assert!(once.matches('/').count() < 2);
    }
}

#[test]
fn parse_cable_found_line_splits_index_and_location() {
    let text = "Cable found: USB Debugger A/1/321/null (USB location:321)";
    assert_eq!(parse_cable_entries(text), vec![info("USB Debugger A", Some("1"), Some("321"))]);
}

#[test]
fn parse_readme_cable_line() {
    let text = "Cable found: USB Debugger A/0/273/null (USB location:273)\r\n";
    assert_eq!(parse_cable_entries(text), vec![info("USB Debugger A", Some("0"), Some("273"))]);
}

#[test]
fn parse_target_cable_line_gives_the_cable_name() {
    // "Target Cable:" and "Cable:" both give the value, which is kept once; a
    // labelled line is not read as a list item as well.
    let text = "Target Cable: Gowin USB Cable(FT2CH)";
    assert_eq!(parse_cable_entries(text), vec![info("Gowin USB Cable(FT2CH)", None, None)]);
}

#[test]
fn parse_cable_name_line_gives_the_cable_name() {
    let text = "Cable Name: Gowin USB Cable(FT2CH)";
    assert_eq!(parse_cable_entries(text), vec![info("Gowin USB Cable(FT2CH)", None, None)]);
}

#[test]
fn parse_quoted_and_numbered_items() {
    let text = "[1] \"Gowin USB Cable(FT2CH)\"\n  2. Gowin USB Cable(GWU2X)\n";
    assert_eq!(
        parse_cable_entries(text),
        vec![info("Gowin USB Cable(FT2CH)", None, None), info("Gowin USB Cable(GWU2X)", None, None)]
    );
}

#[test]
fn parse_labels_ignore_case() {
    let text = "CABLE NAME: Foo JTAG/1/2/null";
    assert_eq!(parse_cable_entries(text), vec![info("Foo JTAG", Some("1"), Some("2"))]);
}

#[test]
fn parse_keeps_first_entry_of_a_name() {
    let text = "Cable found: USB Debugger A/1/5/null\nCable found: USB Debugger A/2/6/null";
    assert_eq!(parse_cable_entries(text), vec![info("USB Debugger A", Some("1"), Some("5"))]);
}

#[test]
fn parse_rejects_short_and_unrelated_names() {
    assert_eq!(parse_cable_entries("Cable: xy"), vec![]);
    assert_eq!(parse_cable_entries("Cable: Something else"), vec![]);
    assert_eq!(parse_cable_entries(""), vec![]);
    assert_eq!(parse_cable_entries("\n\n   \n"), vec![]);
}

#[test]
fn parse_idcode_line_keeps_names() {
    let text = "Cable found: USB Debugger A/0/0/null\nIDCode: 0x1100481B";
    assert_eq!(parse_cable_entries(text), vec![info("USB Debugger A", Some("0"), Some("0"))]);
}

#[test]
fn parse_cable_found_line_mentioning_usb_cable_reports_the_name_only() {
    let text = "Cable found: Gowin USB Cable(FT2CH)/1/5/null";
    assert_eq!(parse_cable_entries(text), vec![info("Gowin USB Cable(FT2CH)", Some("1"), Some("5"))]);
    let text = "Cable found: Gowin USB Cable(FT2CH)/1/321/null";
    assert_eq!(parse_cable_entries(text), vec![info("Gowin USB Cable(FT2CH)", Some("1"), Some("321"))]);
}

#[test]
fn parse_cable_names_lists_names_in_order() {
    let text = "Cable found: USB Debugger A/0/273/null\n1. Gowin USB Cable(FT2CH)";
    assert_eq!(parse_cable_names(text), vec!["USB Debugger A".to_string(), "Gowin USB Cable(FT2CH)".to_string()]);
}

#[test]
fn parse_lowercase_changes_byte_offsets() {
    // U+0130 lower-cases to two characters (three bytes instead of two): the
    // label offset found in the lower-cased line shifts by one byte.
    let text = "\u{130} Cable: X JTAG";
    assert!(cable_text_parses(text));
    assert_eq!(parse_cable_entries(text), vec![info("X JTAG", None, None)]);
}

#[test]
fn checked_parse_refuses_split_character() {
    // The shifted offset falls inside 'é': slicing there would panic.
    let text = "\u{130} Cable:\u{e9} JTAG";
    assert!(!cable_text_parses(text));
    assert_eq!(checked_parse_cable_entries(text), None);
    assert_eq!(
        checked_parse_cable_entries("Cable found: USB Debugger A/0/273/null"),
        Some(vec![info("USB Debugger A", Some("0"), Some("273"))])
    );
}

#[test]
fn label_values_read_from_the_lowered_line() {
    let line = "CABLE NAME: Foo JTAG/1/2/null";
    let lowered = line.to_lowercase();
    assert_eq!(
        label_values_given_lowercase(line, &lowered),
        Some(vec!["Foo JTAG/1/2/null".to_string()])
    );
    // The labels are found in the lowered line only.
    assert_eq!(label_values_given_lowercase(line, line), Some(vec![]));
    assert_eq!(
        label_values_given_lowercase("Cable found:  \"USB Debugger A/0/0/null\" ", "cable found:  \"usb debugger a/0/0/null\" "),
        Some(vec!["USB Debugger A/0/0/null".to_string()])
    );
    let line = "\u{130} Cable:\u{e9} JTAG";
    assert_eq!(label_values_given_lowercase(line, &line.to_lowercase()), None);
}

#[test]
fn parse_list_items_only_on_unlabelled_lines() {
    let text = "Cable: Gowin USB Cable(GWU2X)\n1. Gowin USB Cable(FT2CH)";
    assert_eq!(
        parse_cable_entries(text),
        vec![info("Gowin USB Cable(GWU2X)", None, None), info("Gowin USB Cable(FT2CH)", None, None)]
    );
}

#[test]
fn cable_word_test_on_lowered_names() {
    assert!(is_cable_like("gowin usb cable(ft2ch)"));
    assert!(is_cable_like("usb debugger a"));
    assert!(is_cable_like("foo jtag"));
    assert!(!is_cable_like("usb stick"));
    assert!(!is_cable_like("USB DEBUGGER A"));
    assert!(!is_cable_like("something else"));
}

#[test]
fn entry_from_candidate_given_lowered_name() {
    let cand = "  \"USB Debugger A/1/321/null\" ";
    assert_eq!(candidate_cable_name(cand), "USB Debugger A");
    let low = candidate_cable_name(cand).to_lowercase();
    assert_eq!(entry_given_lowercase(cand, &low), Some(info("USB Debugger A", Some("1"), Some("321"))));
    // The cable-word test reads the lowered name it is given.
    assert_eq!(entry_given_lowercase(cand, "USB DEBUGGER A"), None);
    assert_eq!(entry_given_lowercase("xy", "xy cable"), None);
    assert_eq!(entry_given_lowercase("", "cable"), None);
    assert_eq!(entry_given_lowercase("Foo", "foo jtag"), Some(info("Foo", None, None)));
}

#[test]
fn list_items_given_lowered_text() {
    let line = "2. Gowin USB Cable(GWU2X)";
    assert_eq!(list_item_text_of(line), "Gowin USB Cable(GWU2X)");
    let low = list_item_text_of(line).to_lowercase();
    assert!(is_list_item_like(&low));
    assert_eq!(list_item_given_lowercase(line, &low), Some("Gowin USB Cable(GWU2X)".to_string()));
    assert_eq!(list_item_given_lowercase(line, "Gowin USB Cable(GWU2X)"), None);
    assert!(!is_list_item_like("usb debugger a"));
    assert!(is_list_item_like("gowin jtag cable"));
    assert!(!is_list_item_like("my gowin cable"));
    let long = format!("1. Gowin USB Cable {}", "x".repeat(80));
    let low = list_item_text_of(&long).to_lowercase();
    assert_eq!(list_item_given_lowercase(&long, &low), None);
}

#[test]
fn push_cable_entry_adds_new_names_once() {
    let mut found = Vec::new();
    push_cable_entry(&mut found, "USB Debugger A/1/5/null");
    push_cable_entry(&mut found, "USB Debugger A/2/6/null");
    push_cable_entry(&mut found, "not a programmer");
    push_cable_entry(&mut found, "Gowin USB Cable(FT2CH)");
    assert_eq!(
        found,
        vec![info("USB Debugger A", Some("1"), Some("5")), info("Gowin USB Cable(FT2CH)", None, None)]
    );
}
