use yml2csv::output::process_feed;

fn run(input: &str) -> Vec<u8> {
    process_feed(input).expect("the document should parse")
}

#[test]
fn s1_basic_resolution() {
    let input = "<yml_catalog><shop><categories>\n<category id=\"1\">Sofas</category></categories>\n<offers><offer id=\"X\"><categoryId>1</categoryId><name>A</name><price>10</price></offer>\n</offers></shop></yml_catalog>";
    let out = run(input);
    assert_eq!(
        String::from_utf8(out).unwrap(),
        "id;category_name;pictures;name;price\nX;Sofas;;A;10\n"
    );
}

#[test]
fn s2_unknown_category() {
    let input = "<yml_catalog><shop><categories>\n<category id=\"1\">Sofas</category></categories>\n<offers><offer id=\"X\"><categoryId>99</categoryId><name>A</name><price>10</price></offer>\n</offers></shop></yml_catalog>";
    let out = String::from_utf8(run(input)).unwrap();
    assert_eq!(out, "id;category_name;pictures;name;price\nX;Undefined;;A;10\n");
}

#[test]
fn s3_excluded_children() {
    let input = "<yml_catalog><shop><categories><category id=\"1\">Sofas</category></categories><offers><offer id=\"X\"><categoryId>1</categoryId><picture>http://p</picture><param name=\"c\">v</param></offer></offers></shop></yml_catalog>";
    let out = String::from_utf8(run(input)).unwrap();
    assert_eq!(out, "id;category_name;pictures\nX;Sofas;\n");
    assert!(!out.contains("picture;"));
    assert!(!out.contains("param"));
}

#[test]
fn s4_dotted_name_sanitization() {
    let input = "<yml_catalog><shop><categories><category id=\"1\">Sofas</category></categories><offers><offer id=\"X\"><categoryId>1</categoryId><vendor.code>V-1</vendor.code></offer></offers></shop></yml_catalog>";
    let out = String::from_utf8(run(input)).unwrap();
    assert_eq!(out, "id;category_name;pictures;vendor,code\nX;Sofas;;V-1\n");
}

#[test]
fn s5_multiple_offers_union_header() {
    let input = "<yml_catalog><shop><categories><category id=\"1\">Sofas</category></categories><offers><offer id=\"A\"><categoryId>1</categoryId><name>N1</name></offer><offer id=\"B\"><categoryId>1</categoryId><price>20</price></offer></offers></shop></yml_catalog>";
    let out = String::from_utf8(run(input)).unwrap();
    assert_eq!(
        out,
        "id;category_name;pictures;name;price\nA;Sofas;;N1;\nB;Sofas;;;20\n"
    );
}

#[test]
fn s6_missing_offer_id() {
    let input = "<yml_catalog><shop><offers><offer><name>A</name></offer></offers></shop></yml_catalog>";
    let out = String::from_utf8(run(input)).unwrap();
    assert_eq!(out, "id;category_name;pictures;name\n;;;A\n");
}

#[test]
fn malformed_document_is_an_error() {
    let input = "<yml_catalog><shop><offers><offer id=\"X\">";
    assert!(process_feed(input).is_err());
}

#[test]
fn mismatched_tags_are_an_error() {
    let input = "<a><b></a></b>";
    assert!(process_feed(input).is_err());
}

#[test]
fn duplicate_category_id_last_wins() {
    let input = "<r><categories><category id=\"1\">Sofas</category><category id=\"1\">Chairs</category></categories><offers><offer id=\"X\"><categoryId>1</categoryId></offer></offers></r>";
    let out = String::from_utf8(run(input)).unwrap();
    assert_eq!(out, "id;category_name;pictures\nX;Chairs;\n");
}

#[test]
fn repeated_child_last_write_wins() {
    let input = "<r><offers><offer id=\"X\"><name>A</name><name>B</name></offer></offers></r>";
    let out = String::from_utf8(run(input)).unwrap();
    assert_eq!(out, "id;category_name;pictures;name\nX;;;B\n");
}

#[test]
fn stray_text_goes_to_latest_child() {
    let input = "<r><offers><offer id=\"X\"><name>A</name>stray</offer></offers></r>";
    let out = String::from_utf8(run(input)).unwrap();
    assert_eq!(out, "id;category_name;pictures;name\nX;;;stray\n");
}

#[test]
fn delimiter_inside_cell_is_quoted() {
    let input = "<r><offers><offer id=\"X\"><name>a;b</name></offer></offers></r>";
    let out = String::from_utf8(run(input)).unwrap();
    assert_eq!(out, "id;category_name;pictures;name\nX;;;\"a;b\"\n");
}

#[test]
fn no_offers_yields_header_only() {
    let input = "<r><categories><category id=\"1\">Sofas</category></categories></r>";
    let out = String::from_utf8(run(input)).unwrap();
    assert_eq!(out, "id;category_name;pictures\n");
}

#[test]
fn category_inside_offer_is_a_plain_column() {
    let input = "<r><categories><category id=\"1\">Sofas</category></categories><offers><offer id=\"X\"><category>inner</category></offer></offers></r>";
    let out = String::from_utf8(run(input)).unwrap();
    assert_eq!(out, "id;category_name;pictures;category\nX;;;inner\n");
}
