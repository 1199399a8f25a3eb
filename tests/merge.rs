use template_sync::document::{
    LineKind, Markers, SyncError, TEMPLATE_SETTINGS_END, TEMPLATE_SETTINGS_START,
};
use template_sync::extract::{extract_batch, names_from_groups, IncomingBatch};
use template_sync::merge::{classify_lines, contains_name, merge_document, merge_lines};

const SHARED_DEFS: &str = "<?xml version=\"1.0\"?>\n<shared_templates>\n    <template name=\"Foo\" file-name=\"foo\" reformat=\"true\" live-template-enabled=\"false\" />\n    <template name=\"Bar\" file-name=\"bar\" reformat=\"true\" live-template-enabled=\"false\">\n      <option a=\"1\" />\n      <option b=\"2\" />\n      <option c=\"3\" />\n    </template>\n</shared_templates>\n";

const BATCH: &str = "    <template name=\"Foo\" file-name=\"foo\" reformat=\"true\" live-template-enabled=\"false\" />\n    <template name=\"Bar\" file-name=\"bar\" reformat=\"true\" live-template-enabled=\"false\">\n      <option a=\"1\" />\n      <option b=\"2\" />\n      <option c=\"3\" />\n    </template>\n";

fn lines(text: &str) -> Vec<String> {
    text.lines().map(String::from).collect()
}

fn markers() -> Markers {
    Markers::new().unwrap()
}

fn batch() -> IncomingBatch {
    extract_batch(&markers(), SHARED_DEFS).unwrap()
}

fn header() -> Vec<&'static str> {
    vec![
        "<application>",
        "  <component name=\"ExportableFileTemplateSettings\">",
        "    <default_templates>",
    ]
}

fn footer() -> Vec<&'static str> {
    vec!["    </default_templates>", "  </component>", "</application>"]
}

fn join(parts: &[&str]) -> String {
    let mut s = String::new();
    for p in parts {
        s.push_str(p);
        s.push('\n');
    }
    s
}

#[test]
fn extracts_batch_and_names() {
    let b = batch();
    assert_eq!(b.text, BATCH);
    assert_eq!(b.names, vec!["Foo".to_string(), "Bar".to_string()]);
}

#[test]
fn missing_shared_region_is_an_error() {
    let r = extract_batch(&markers(), "<templates>\n</templates>\n");
    assert_eq!(r.err(), Some(SyncError::MissingSharedRegion));
}

#[test]
fn classifies_each_kind_of_line() {
    let m = markers();
    assert_eq!(m.classify("    </template>"), LineKind::Close);
    assert_eq!(
        m.classify("  <template name=\"A\" file-name=\"a\" reformat=\"true\">"),
        LineKind::Open("A".to_string())
    );
    assert_eq!(
        m.classify("  <template name=\"B\" file-name=\"b\" />"),
        LineKind::Single("B".to_string())
    );
    assert_eq!(
        m.classify("  <template name=\"C\" file-name=\"c\">  "),
        LineKind::Open("C".to_string())
    );
    assert_eq!(
        m.classify("  <template name=\"D\" a=\"1\"><x/>"),
        LineKind::Single("D".to_string())
    );
    assert_eq!(m.classify("  \t</default_templates>  "), LineKind::ListEnd);
    assert_eq!(m.classify("<application>"), LineKind::Plain);
    assert_eq!(m.classify("<component name=\"X\">"), LineKind::Plain);
}

#[test]
fn scenario_new_templates_go_before_list_end() {
    let mut doc = header();
    doc.push("      <template name=\"Existing\" file-name=\"ex\" reformat=\"true\" live-template-enabled=\"false\" />");
    doc.push("      <template name=\"Other\" file-name=\"other\" reformat=\"true\" live-template-enabled=\"false\">");
    doc.push("        <option x=\"1\" />");
    doc.push("      </template>");
    let mut expected = join(&doc);
    expected.push_str(BATCH);
    doc.extend(footer());
    expected.push_str(&join(&footer()));
    let out = merge_document(&markers(), &Some(lines(&join(&doc))), &batch());
    assert_eq!(out, expected);
}

#[test]
fn scenario_existing_multi_line_block_is_replaced() {
    let mut doc = header();
    doc.push("      <template name=\"Bar\" file-name=\"bar\" reformat=\"false\" live-template-enabled=\"true\">");
    doc.push("        <option old=\"body\" />");
    doc.push("      </template>");
    doc.push("      <template name=\"Keep\" file-name=\"keep\" />");
    doc.extend(footer());
    let out = merge_document(&markers(), &Some(lines(&join(&doc))), &batch());
    assert!(!out.contains("old=\"body\""));
    assert!(!out.contains("reformat=\"false\" live-template-enabled=\"true\""));
    assert!(out.contains(BATCH));
    let mut expected = join(&header());
    expected.push_str("      <template name=\"Keep\" file-name=\"keep\" />\n");
    expected.push_str(BATCH);
    expected.push_str(&join(&footer()));
    assert_eq!(out, expected);
}

#[test]
fn scenario_absent_document_gets_wrapper() {
    let out = merge_document(&markers(), &None, &batch());
    let mut expected = String::from(TEMPLATE_SETTINGS_START);
    expected.push_str(BATCH);
    expected.push_str(TEMPLATE_SETTINGS_END);
    assert_eq!(out, expected);
    assert_eq!(out.matches(BATCH).count(), 1);
}

#[test]
fn both_shapes_with_a_matched_name_are_dropped() {
    let mut doc = header();
    doc.push("      <template name=\"Foo\" file-name=\"old\" reformat=\"true\">");
    doc.push("        <option q=\"1\" />");
    doc.push("      </template>");
    doc.push("      <template name=\"Bar\" file-name=\"old\" />");
    doc.extend(footer());
    let out = merge_document(&markers(), &Some(lines(&join(&doc))), &batch());
    assert!(!out.contains("file-name=\"old\""));
    assert!(!out.contains("q=\"1\""));
}

#[test]
fn unmatched_blocks_keep_their_order() {
    let mut doc = header();
    doc.push("      <template name=\"Z\" file-name=\"z\" />");
    doc.push("      <template name=\"Foo\" file-name=\"old\" />");
    doc.push("      <template name=\"A\" file-name=\"a\" reformat=\"true\">");
    doc.push("        <option a=\"1\" />");
    doc.push("      </template>");
    doc.push("      <template name=\"M\" file-name=\"m\" />");
    doc.extend(footer());
    let out = merge_document(&markers(), &Some(lines(&join(&doc))), &batch());
    let z = out.find("name=\"Z\"").unwrap();
    let a = out.find("name=\"A\"").unwrap();
    let m = out.find("name=\"M\"").unwrap();
    assert!(z < a && a < m);
    assert!(out.contains("        <option a=\"1\" />\n      </template>\n"));
    assert!(!out.contains("file-name=\"old\""));
}

#[test]
fn batch_is_written_once_before_list_end() {
    let mut doc = header();
    doc.push("      <template name=\"X\" file-name=\"x\" />");
    doc.extend(footer());
    let out = merge_document(&markers(), &Some(lines(&join(&doc))), &batch());
    assert_eq!(out.matches(BATCH).count(), 1);
    let mut tail = String::from(BATCH);
    tail.push_str("    </default_templates>\n");
    assert!(out.contains(&tail));
}

#[test]
fn no_list_end_means_no_batch() {
    let doc = vec!["<application>", "  <template name=\"X\" file-name=\"x\" />", "</application>"];
    let out = merge_document(&markers(), &Some(lines(&join(&doc))), &batch());
    assert_eq!(out, join(&doc));
}

#[test]
fn merging_twice_changes_nothing_more() {
    let mut doc = header();
    doc.push("      <template name=\"Bar\" file-name=\"bar\" reformat=\"false\">");
    doc.push("        <option old=\"body\" />");
    doc.push("      </template>");
    doc.push("      <template name=\"Keep\" file-name=\"keep\" />");
    doc.extend(footer());
    let once = merge_document(&markers(), &Some(lines(&join(&doc))), &batch());
    let twice = merge_document(&markers(), &Some(lines(&once)), &batch());
    assert_eq!(once, twice);
    let fresh = merge_document(&markers(), &None, &batch());
    let again = merge_document(&markers(), &Some(lines(&fresh)), &batch());
    let mut expected = join(&lines(TEMPLATE_SETTINGS_START).iter().map(|s| s.as_str()).collect::<Vec<_>>());
    expected.push_str(BATCH);
    expected.push_str(&join(&lines(TEMPLATE_SETTINGS_END).iter().map(|s| s.as_str()).collect::<Vec<_>>()));
    assert_eq!(again, expected);
}

#[test]
fn unterminated_block_drops_the_rest() {
    let mut doc = header();
    doc.push("      <template name=\"Foo\" file-name=\"old\" reformat=\"true\">");
    doc.push("        <option q=\"1\" />");
    doc.extend(footer());
    let out = merge_document(&markers(), &Some(lines(&join(&doc))), &batch());
    assert_eq!(out, join(&header()));
}

#[test]
fn stray_closing_line_before_any_block_is_dropped() {
    let doc = vec!["<a>", "</template>", "<b>"];
    let out = merge_document(&markers(), &Some(lines(&join(&doc))), &batch());
    assert_eq!(out, "<a>\n<b>\n");
}

#[test]
fn merge_lines_follows_given_kinds() {
    let ls: Vec<String> = vec!["s".into(), "o".into(), "b".into(), "c".into(), "e".into(), "p".into()];
    let kinds = vec![
        LineKind::Single("N".to_string()),
        LineKind::Open("K".to_string()),
        LineKind::Plain,
        LineKind::Close,
        LineKind::ListEnd,
        LineKind::Plain,
    ];
    let names = vec!["N".to_string()];
    assert_eq!(merge_lines(&ls, &kinds, &names, "BATCH\n"), "o\nb\nc\nBATCH\ne\np\n");
    let names = vec!["K".to_string()];
    assert_eq!(merge_lines(&ls, &kinds, &names, "BATCH\n"), "s\nBATCH\ne\np\n");
}

#[test]
fn classify_lines_keeps_length() {
    let ls = lines("<a>\n</template>\n  </default_templates>\n");
    let k = classify_lines(&markers(), &ls);
    assert_eq!(k, vec![LineKind::Plain, LineKind::Close, LineKind::ListEnd]);
}

#[test]
fn contains_name_checks_membership() {
    let names = vec!["a".to_string(), "b".to_string()];
    assert!(contains_name(&names, &"b".to_string()));
    assert!(!contains_name(&names, &"B".to_string()));
    assert!(!contains_name(&Vec::new(), &"a".to_string()));
}

#[test]
fn names_from_groups_skips_absent() {
    let g = vec![Some("x".to_string()), None, Some("y".to_string())];
    assert_eq!(names_from_groups(&g), vec!["x".to_string(), "y".to_string()]);
}

#[test]
fn deleting_matched_blocks_first_changes_nothing() {
    let mut doc = header();
    doc.push("      <template name=\"Keep\" file-name=\"keep\" />");
    doc.push("      <template name=\"Foo\" file-name=\"old\" a=\"1\" />");
    doc.push("      <template name=\"Bar\" file-name=\"old\" a=\"1\">");
    doc.push("        <option q=\"1\" />");
    doc.push("      </template>");
    doc.push("      <template name=\"foo\" file-name=\"lower\" />");
    doc.extend(footer());
    let mut trimmed_doc = header();
    trimmed_doc.push("      <template name=\"Keep\" file-name=\"keep\" />");
    trimmed_doc.push("      <template name=\"foo\" file-name=\"lower\" />");
    trimmed_doc.extend(footer());
    let full = merge_document(&markers(), &Some(lines(&join(&doc))), &batch());
    let without = merge_document(&markers(), &Some(lines(&join(&trimmed_doc))), &batch());
    assert_eq!(full, without);
    assert!(full.contains("file-name=\"lower\""));
}
