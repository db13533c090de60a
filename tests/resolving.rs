use card_reader::catalog::{Action, Catalog, Character, Request};

fn entry(name: &str, series: &str, wl: Option<u32>) -> Character {
    Character { name: name.to_string(), series: series.to_string(), gen: None, wl }
}

fn card(name: &str, series: &str, gen: &str) -> Character {
    Character { name: name.to_string(), series: series.to_string(), gen: Some(gen.to_string()), wl: None }
}

#[test]
fn lookup_copies_rank_of_match() {
    let c = Catalog::from_entries(vec![entry("naruto", "naruto...", Some(5))]);
    let found = c.find_card(&vec![card("naruto", "naruto...", "42")]);
    assert_eq!(found[0].wl, Some(5));
    assert_eq!(
        c.lookup(&vec![card("naruto", "naruto...", "42")]),
        r#"[{"name":"naruto","series":"naruto...","wl":5,"gen":"42"}]"#
    );
}

#[test]
fn lookup_unlisted_substitution_does_not_match() {
    let c = Catalog::from_entries(vec![entry("naruto", "naruto...", Some(5))]);
    let found = c.find_card(&vec![card("narvto", "naruto...", "7")]);
    assert_eq!(found[0].wl, None);
    assert_eq!(
        c.lookup(&vec![card("narvto", "naruto...", "7")]),
        r#"[{"name":"narvto","series":"naruto...","wl":null,"gen":"7"}]"#
    );
}

#[test]
fn lookup_fuzzy_match() {
    let c = Catalog::from_entries(vec![entry("naruto", "naruto", Some(1234))]);
    let found = c.find_card(&vec![card("narut0", "naruto", "1")]);
    assert_eq!(found[0].wl, Some(1234));
}

#[test]
fn lookup_takes_first_match() {
    let c = Catalog::from_entries(vec![
        entry("sailormoon", "sailormoon", Some(1)),
        entry("sailormercury", "sailormoon", Some(2)),
    ]);
    let found = c.find_card(&vec![card("sailor...", "sailor moon", "9")]);
    assert_eq!(found[0].wl, Some(1));
}

#[test]
fn lookup_is_repeatable() {
    let c = Catalog::from_entries(vec![entry("naruto", "naruto", Some(5)), entry("luffy", "onepiece", None)]);
    let req = vec![card("naruto", "naruto", "1"), card("luffy", "onepiece", "2"), card("zoro", "onepiece", "3")];
    let first = c.lookup(&req);
    let second = c.lookup(&req);
    assert_eq!(first, second);
    assert_eq!(c.len(), 2);
}

#[test]
fn reply_shows_first_three() {
    let c = Catalog::new();
    let req = vec![card("a", "b", "1"), card("c", "d", "2"), card("e", "f", "3"), card("g", "h", "4")];
    assert_eq!(
        c.lookup(&req),
        r#"[{"name":"a","series":"b","wl":null,"gen":"1"},{"name":"c","series":"d","wl":null,"gen":"2"},{"name":"e","series":"f","wl":null,"gen":"3"}]"#
    );
    assert_eq!(c.lookup(&vec![]), "[]");
}

#[test]
fn upsert_is_key_stable() {
    let mut c = Catalog::new();
    let first = c.update_card(entry("naruto", "naruto", Some(3)));
    assert_eq!(first, Some(entry("naruto", "naruto", Some(3))));
    let second = c.update_card(entry("naruto", "naruto", Some(9)));
    assert_eq!(second, Some(entry("naruto", "naruto", Some(9))));
    assert_eq!(c.len(), 1);
    assert_eq!(c.entries()[0].wl, Some(9));
}

#[test]
fn upsert_matches_normalized_key() {
    let mut c = Catalog::from_entries(vec![entry("onepiece", "onepiece", Some(1))]);
    let out = c.update_card(entry("One Piece", "One-Piece", Some(8)));
    assert_eq!(out, Some(entry("onepiece", "onepiece", Some(8))));
    assert_eq!(c.len(), 1);
}

#[test]
fn upsert_truncated_name_keeps_a_period() {
    // lite normalization turns the ellipsis into one period, which the entry lacks
    let mut c = Catalog::from_entries(vec![entry("sailormoon", "sailormoon", Some(1))]);
    assert_eq!(c.update_card(entry("sailor...", "sailor moon", Some(4))), None);
    assert_eq!(c.entries()[0].wl, Some(1));
    let mut d = Catalog::from_entries(vec![entry("sailor.moon", "sailormoon", Some(1))]);
    let out = d.update_card(entry("sailor...", "sailor moon", Some(4)));
    assert_eq!(out, Some(entry("sailor.moon", "sailormoon", Some(4))));
}

#[test]
fn upsert_drops_truncated_unknown() {
    let mut c = Catalog::new();
    assert_eq!(c.update_card(entry("sailor...", "sailor moon", Some(4))), None);
    assert_eq!(c.update_card(entry("sailor moon", "sailor...", Some(4))), None);
    assert_eq!(c.len(), 0);
}

#[test]
fn end_to_end_drop_scenario() {
    let c = Catalog::from_entries(vec![entry("naruto", "naruto...", Some(5))]);
    let texts: Vec<String> = ["narvto", "naruto...", "naruto", "naruto...", "x", "y", "11", "22", "33"]
        .iter()
        .map(|t| t.to_string())
        .collect();
    let cards = card_reader::pipeline::assemble_drop(&texts);
    let found = c.find_card(&cards);
    assert_eq!(found[0].wl, None);
    assert_eq!(found[1].wl, Some(5));
    assert_eq!(found[2].wl, None);
}

#[test]
fn handle_lookup_and_upsert() {
    let mut c = Catalog::new();
    match c.handle(Request::Upsert { card: entry("luffy", "onepiece", Some(2048)) }) {
        Action::Persist { entry: e } => assert_eq!(e, entry("luffy", "onepiece", Some(2048))),
        _ => panic!("expected a write"),
    }
    match c.handle(Request::Upsert { card: entry("luffy...", "onepiece", Some(1)) }) {
        Action::Skip => {}
        _ => panic!("a truncated unknown name is dropped"),
    }
    match c.handle(Request::Lookup { cards: vec![card("1uffy", "onepiece", "0")] }) {
        Action::Reply { text } => {
            assert_eq!(text, r#"[{"name":"1uffy","series":"onepiece","wl":null,"gen":"0"}]"#)
        }
        _ => panic!("expected a reply"),
    }
    match c.handle(Request::Lookup { cards: vec![card("luffy", "onepiece", "0")] }) {
        Action::Reply { text } => {
            assert_eq!(text, r#"[{"name":"luffy","series":"onepiece","wl":2048,"gen":"0"}]"#)
        }
        _ => panic!("expected a reply"),
    }
    assert_eq!(c.len(), 1);
}

#[test]
fn reply_without_generation() {
    let c = Catalog::from_entries(vec![entry("ichigo", "bleach", Some(10))]);
    assert_eq!(
        c.lookup(&vec![entry("ichigo", "bleach", None)]),
        r#"[{"name":"ichigo","series":"bleach","wl":10,"gen":null}]"#
    );
}

#[test]
fn upsert_with_capitals_and_spaces_is_key_stable() {
    let mut c = Catalog::new();
    assert_eq!(c.update_card(entry("Sailor Moon", "Sailor Moon", Some(1))), Some(entry("Sailor Moon", "Sailor Moon", Some(1))));
    assert_eq!(c.update_card(entry("Sailor Moon", "Sailor Moon", Some(2))), Some(entry("Sailor Moon", "Sailor Moon", Some(2))));
    assert_eq!(c.len(), 1);
    assert_eq!(c.entries()[0].wl, Some(2));
}

#[test]
fn upsert_existing_raw_entry_is_updated_in_place() {
    let mut c = Catalog::from_entries(vec![entry("A", "b", Some(1))]);
    assert_eq!(c.update_card(entry("A", "b", Some(2))), Some(entry("A", "b", Some(2))));
    assert_eq!(c.len(), 1);
    let mut d = Catalog::new();
    d.update_card(entry("A", "b", Some(1)));
    d.update_card(entry("A", "b", Some(2)));
    assert_eq!(d.len(), 1);
    assert_eq!(d.entries()[0].wl, Some(2));
}

#[test]
fn update_prefers_entry_equal_as_stored() {
    let mut c = Catalog::from_entries(vec![entry("Naruto", "x", Some(1)), entry("naruto", "x", Some(2))]);
    c.update_card(entry("naruto", "x", Some(7)));
    c.update_card(entry("naruto", "x", Some(8)));
    assert_eq!(c.entries()[0].wl, Some(1));
    assert_eq!(c.entries()[1].wl, Some(8));
    let found = c.find_card(&vec![card("naruto", "x", "1")]);
    assert_eq!(found[0].wl, Some(8));
}

#[test]
fn update_falls_back_to_normalized_entry() {
    let mut c = Catalog::from_entries(vec![entry("Sailor Moon", "Sailor Moon", Some(1))]);
    assert_eq!(c.update_card(entry("sailor moon", "SAILOR MOON", Some(3))), Some(entry("Sailor Moon", "Sailor Moon", Some(3))));
    assert_eq!(c.len(), 1);
}

#[test]
fn truncated_update_without_stored_match_is_dropped() {
    let mut c = Catalog::from_entries(vec![entry("Naruto...", "x", Some(1))]);
    assert_eq!(c.update_card(entry("naruto...", "x", Some(9))), None);
    assert_eq!(c.entries()[0].wl, Some(1));
    assert_eq!(c.len(), 1);
}

#[test]
fn lookup_miss_clears_rank() {
    let c = Catalog::from_entries(vec![entry("luffy", "onepiece", Some(3))]);
    let found = c.find_card(&vec![entry("zoro", "onepiece", Some(99))]);
    assert_eq!(found[0].wl, None);
}

#[test]
fn reply_escapes_json() {
    let c = Catalog::new();
    let rec = Character {
        name: "say \"hi\"".to_string(),
        series: "a\\b".to_string(),
        gen: Some("1\n2".to_string()),
        wl: None,
    };
    assert_eq!(
        c.lookup(&vec![rec]),
        "[{\"name\":\"say \\\"hi\\\"\",\"series\":\"a\\\\b\",\"wl\":null,\"gen\":\"1\\u000a2\"}]"
    );
}
