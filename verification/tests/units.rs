use yml2csv::events::Event;
use yml2csv::machine::{cat_get, process_events, Machine, Offer};
use yml2csv::table::{csv_records, extra_get, project_row, registry_for};
use yml2csv::text::{sanitize, str_eq};

fn pair(a: &str, b: &str) -> (String, String) {
    (a.to_string(), b.to_string())
}

#[test]
fn sanitize_replaces_every_dot() {
    assert_eq!(sanitize("vendor.code"), "vendor,code");
    assert_eq!(sanitize("a.b.c"), "a,b,c");
    assert_eq!(sanitize("plain"), "plain");
    assert_eq!(sanitize(""), "");
    assert_eq!(sanitize("..."), ",,,");
}

#[test]
fn str_eq_compares_contents() {
    assert!(str_eq("abc", "abc"));
    assert!(!str_eq("abc", "abd"));
    assert!(!str_eq("abc", "ab"));
    assert!(str_eq("", ""));
}

#[test]
fn category_lookup_last_wins_and_falls_back() {
    let cats = vec![pair("1", "Sofas"), pair("2", "Beds"), pair("1", "Chairs")];
    assert_eq!(cat_get(&cats, "1"), "Chairs");
    assert_eq!(cat_get(&cats, "2"), "Beds");
    assert_eq!(cat_get(&cats, "9"), "Undefined");
    assert_eq!(cat_get(&vec![], "1"), "Undefined");
}

#[test]
fn extra_lookup_last_wins_and_defaults_empty() {
    let extra = vec![pair("name", "A"), pair("name", "B")];
    assert_eq!(extra_get(&extra, "name"), "B");
    assert_eq!(extra_get(&extra, "price"), "");
}

#[test]
fn machine_builds_offers_in_document_order() {
    let events = vec![
        Event::Start { name: "categories".to_string(), attrs: vec![] },
        Event::Start { name: "category".to_string(), attrs: vec![pair("id", "7")] },
        Event::Text { text: "Sofas".to_string() },
        Event::End { name: "category".to_string() },
        Event::End { name: "categories".to_string() },
        Event::Start { name: "offer".to_string(), attrs: vec![pair("id", "A")] },
        Event::Start { name: "categoryId".to_string(), attrs: vec![] },
        Event::Text { text: "7".to_string() },
        Event::End { name: "categoryId".to_string() },
        Event::End { name: "offer".to_string() },
        Event::Start { name: "offer".to_string(), attrs: vec![pair("id", "B")] },
        Event::End { name: "offer".to_string() },
    ];
    let offers = process_events(&events);
    assert_eq!(offers.len(), 2);
    assert_eq!(offers[0].id, "A");
    assert_eq!(offers[0].category_name, "Sofas");
    assert_eq!(offers[1].id, "B");
    assert_eq!(offers[1].category_name, "");
}

#[test]
fn split_character_data_last_chunk_wins_in_the_bag() {
    let events = vec![
        Event::Start { name: "offer".to_string(), attrs: vec![] },
        Event::Start { name: "name".to_string(), attrs: vec![] },
        Event::Text { text: "first".to_string() },
        Event::Text { text: "second".to_string() },
        Event::End { name: "name".to_string() },
        Event::End { name: "offer".to_string() },
    ];
    let offers = process_events(&events);
    assert_eq!(offers.len(), 1);
    assert_eq!(extra_get(&offers[0].extra, "name"), "second");
}

#[test]
fn category_text_chunks_concatenate() {
    let events = vec![
        Event::Start { name: "category".to_string(), attrs: vec![pair("id", "1")] },
        Event::Text { text: "So".to_string() },
        Event::Text { text: "fas".to_string() },
        Event::End { name: "category".to_string() },
        Event::Start { name: "offer".to_string(), attrs: vec![pair("id", "X")] },
        Event::Start { name: "categoryId".to_string(), attrs: vec![] },
        Event::Text { text: "1".to_string() },
        Event::End { name: "offer".to_string() },
    ];
    let offers = process_events(&events);
    assert_eq!(offers[0].category_name, "Sofas");
}

#[test]
fn stepping_by_hand_matches_the_run() {
    let mut m = Machine::new();
    m.step(&Event::Start { name: "offer".to_string(), attrs: vec![pair("id", "Z")] });
    m.step(&Event::Start { name: "price".to_string(), attrs: vec![] });
    m.step(&Event::Text { text: "5".to_string() });
    m.step(&Event::End { name: "offer".to_string() });
    assert_eq!(m.offers.len(), 1);
    assert_eq!(m.offers[0].id, "Z");
    assert_eq!(extra_get(&m.offers[0].extra, "price"), "5");
}

fn offer(id: &str, extra: Vec<(String, String)>) -> Offer {
    Offer {
        id: id.to_string(),
        category_name: "Cat".to_string(),
        extra,
        pictures: String::new(),
    }
}

#[test]
fn registry_keeps_first_seen_order_across_offers() {
    let offers = vec![
        offer("1", vec![pair("b", "x")]),
        offer("2", vec![pair("a", "y"), pair("b", "z")]),
    ];
    let reg = registry_for(&offers);
    assert_eq!(reg, vec!["b".to_string(), "a".to_string()]);
}

#[test]
fn rows_follow_the_registry_and_pad_missing_cells() {
    let offers = vec![
        offer("1", vec![pair("b", "x")]),
        offer("2", vec![pair("a", "y"), pair("b", "z")]),
    ];
    let reg = registry_for(&offers);
    let row0 = project_row(&offers[0], &reg);
    let row1 = project_row(&offers[1], &reg);
    assert_eq!(row0, vec!["1", "Cat", "", "x", ""]);
    assert_eq!(row1, vec!["2", "Cat", "", "z", "y"]);
}

#[test]
fn records_start_with_the_header_and_keep_row_widths() {
    let offers = vec![
        offer("1", vec![pair("b", "x")]),
        offer("2", vec![pair("a", "y")]),
    ];
    let records = csv_records(&offers);
    assert_eq!(records.len(), 3);
    assert_eq!(records[0], vec!["id", "category_name", "pictures", "b", "a"]);
    for r in &records {
        assert_eq!(r.len(), records[0].len());
    }
}
