use askman::parser::parse_tldr;

#[test]
fn one_description_and_one_example() {
    let doc = "> Lists files.\n\n- List all:\n`ls -a`\n";
    let rec = parse_tldr(doc, "ls");
    assert_eq!(rec.name, "ls");
    assert_eq!(rec.description, "Lists files.");
    assert_eq!(rec.examples.len(), 1);
    assert_eq!(rec.examples[0].description, "List all:");
    assert_eq!(rec.examples[0].command_line, "ls -a");
}

#[test]
fn description_lines_join_with_single_space() {
    let doc = "# tar\n> Archiving utility.\n> More information: <https://www.gnu.org/software/tar>.\n";
    let rec = parse_tldr(doc, "tar");
    assert_eq!(
        rec.description,
        "Archiving utility. More information: <https://www.gnu.org/software/tar>."
    );
    assert_eq!(rec.examples.len(), 0);
}

#[test]
fn no_example_markers_yields_empty_examples() {
    let doc = "> Just a description.\n`ls -a`\nplain text line\n";
    let rec = parse_tldr(doc, "ls");
    assert_eq!(rec.description, "Just a description.");
    assert!(rec.examples.is_empty());
}

#[test]
fn empty_document_parses_to_empty_record() {
    let rec = parse_tldr("", "true");
    assert_eq!(rec.name, "true");
    assert_eq!(rec.description, "");
    assert!(rec.examples.is_empty());
}

#[test]
fn code_line_without_pending_description_is_ignored() {
    let doc = "`orphan command`\n- real example:\n`real command`\n";
    let rec = parse_tldr(doc, "x");
    assert_eq!(rec.examples.len(), 1);
    assert_eq!(rec.examples[0].description, "real example:");
    assert_eq!(rec.examples[0].command_line, "real command");
}

#[test]
fn later_dash_line_replaces_pending_description() {
    let doc = "- first:\n- second:\n`cmd`\n";
    let rec = parse_tldr(doc, "x");
    assert_eq!(rec.examples.len(), 1);
    assert_eq!(rec.examples[0].description, "second:");
    assert_eq!(rec.examples[0].command_line, "cmd");
}

#[test]
fn empty_example_fields_are_dropped() {
    // An empty pending description and an empty command line each
    // invalidate the pair silently.
    let with_empty_desc = parse_tldr("-   \n`cmd`\n", "x");
    assert!(with_empty_desc.examples.is_empty());
    let with_empty_cmd = parse_tldr("- desc:\n``\n", "x");
    assert!(with_empty_cmd.examples.is_empty());
}

#[test]
fn pending_description_is_consumed_once() {
    // After a code line closes the pair, a second code line has no
    // pending description and is ignored.
    let rec = parse_tldr("- d:\n`one`\n`two`\n", "x");
    assert_eq!(rec.examples.len(), 1);
    assert_eq!(rec.examples[0].command_line, "one");
}

#[test]
fn backticks_are_stripped_from_both_ends() {
    let rec = parse_tldr("- d:\n``x``\n", "x");
    assert_eq!(rec.examples.len(), 1);
    assert_eq!(rec.examples[0].command_line, "x");
}

#[test]
fn markers_detected_after_leading_whitespace() {
    let rec = parse_tldr("   > indented description\n\t- indented example:\n  `indented cmd`\n", "x");
    assert_eq!(rec.description, "indented description");
    assert_eq!(rec.examples.len(), 1);
    assert_eq!(rec.examples[0].description, "indented example:");
    assert_eq!(rec.examples[0].command_line, "indented cmd");
}

#[test]
fn carriage_returns_are_trimmed() {
    let rec = parse_tldr("> a\r\n- b:\r\n`c`\r\n", "x");
    assert_eq!(rec.description, "a");
    assert_eq!(rec.examples.len(), 1);
    assert_eq!(rec.examples[0].description, "b:");
    assert_eq!(rec.examples[0].command_line, "c");
}

#[test]
fn last_line_without_newline_still_counts() {
    let rec = parse_tldr("- d:\n`cmd`", "x");
    assert_eq!(rec.examples.len(), 1);
    assert_eq!(rec.examples[0].command_line, "cmd");
}

#[test]
fn multiple_examples_keep_document_order() {
    let doc = "- one:\n`c1`\n- two:\n`c2`\n- three:\n`c3`\n";
    let rec = parse_tldr(doc, "x");
    assert_eq!(rec.examples.len(), 3);
    assert_eq!(rec.examples[0].description, "one:");
    assert_eq!(rec.examples[1].description, "two:");
    assert_eq!(rec.examples[2].description, "three:");
}
