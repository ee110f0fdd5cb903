use take_ur_meds::embedding::{
    has_embeddings, search, search_table, Facet, FacetTable, ScoredRecord, SearchError, SearchResult,
};
use take_ur_meds::rank::rank_order;
use take_ur_meds::search::{cross_reference_search, excerpt, fuse, RankedCondition};

fn record(name: &str, text: &str, similarity: i32) -> ScoredRecord {
    ScoredRecord { condition_name: name.to_string(), text: text.to_string(), similarity }
}

fn hit(name: &str, text: &str, facet: &str) -> SearchResult {
    SearchResult {
        condition_name: name.to_string(),
        text: text.to_string(),
        embedding_type: facet.to_string(),
        similarity: 0,
    }
}

fn names(conditions: &Vec<RankedCondition>) -> Vec<String> {
    conditions.iter().map(|c| c.name.clone()).collect()
}

fn hit_names(hits: &Vec<SearchResult>) -> Vec<String> {
    hits.iter().map(|h| h.condition_name.clone()).collect()
}

#[test]
fn rank_order_is_stable_and_falling() {
    assert_eq!(rank_order(&vec![3, 9, 3, 7, 9, -1]), vec![1, 4, 3, 0, 2, 5]);
    assert_eq!(rank_order(&vec![]), Vec::<usize>::new());
    assert_eq!(rank_order(&vec![5]), vec![0]);
    assert_eq!(rank_order(&vec![1, 1, 1]), vec![0, 1, 2]);
    assert_eq!(rank_order(&vec![i64::MIN, i64::MAX, 0]), vec![1, 2, 0]);
}

#[test]
fn rank_order_agrees_with_a_stable_sort() {
    let keys: Vec<i64> = (0..200).map(|i| ((i * 7919 + 13) % 17) as i64 - 8).collect();
    let mut expected: Vec<usize> = (0..keys.len()).collect();
    expected.sort_by(|a, b| keys[*b].cmp(&keys[*a]));
    assert_eq!(rank_order(&keys), expected);
}

#[test]
fn search_gives_the_closest_first() {
    let records = vec![
        record("Cold", "sneezing", 10),
        record("Flu", "fever and aches", 1000),
        record("Asthma", "wheezing", -20),
        record("Measles", "rash", 400),
    ];
    let hits = search_table(&records, 5, Facet::Description);
    assert_eq!(hit_names(&hits), vec!["Flu", "Measles", "Cold", "Asthma"]);
    assert_eq!(hits[0].text, "fever and aches");
    assert_eq!(hits[0].similarity, 1000);
    assert_eq!(hits[0].embedding_type, "description");
    for w in hits.windows(2) {
        assert!(w[0].similarity >= w[1].similarity);
    }
}

#[test]
fn search_keeps_the_limit() {
    let records = vec![record("a", "", 1), record("b", "", 3), record("c", "", 2)];
    assert_eq!(hit_names(&search_table(&records, 2, Facet::Etiology)), vec!["b", "c"]);
    assert_eq!(hit_names(&search_table(&records, 3, Facet::Etiology)), vec!["b", "c", "a"]);
    assert_eq!(hit_names(&search_table(&records, 0, Facet::Etiology)), Vec::<String>::new());
    assert_eq!(search_table(&records, 1, Facet::Etiology)[0].embedding_type, "etiology");
    assert_eq!(search_table(&records, 1, Facet::Manifestation)[0].embedding_type, "manifestation");
}

#[test]
fn search_breaks_ties_by_storage_order() {
    let records = vec![
        record("first", "", 5),
        record("second", "", 7),
        record("third", "", 5),
        record("fourth", "", 7),
        record("fifth", "", 5),
    ];
    let hits = search_table(&records, 10, Facet::Description);
    assert_eq!(hit_names(&hits), vec!["second", "fourth", "first", "third", "fifth"]);
}

#[test]
fn search_in_an_empty_collection_gives_nothing() {
    let hits = search_table(&Vec::new(), 5, Facet::Description);
    assert!(hits.is_empty());
}

#[test]
fn fuse_of_nothing_is_nothing() {
    assert!(fuse(&Vec::new(), &Vec::new(), &Vec::new(), 5).is_empty());
    let empty = FacetTable::Present(Vec::new());
    assert!(cross_reference_search(&empty, &empty, &empty, 20).unwrap().is_empty());
}

#[test]
fn fuse_scores_by_facets() {
    let description = vec![hit("A", "a described", "description")];
    let etiology = vec![hit("B", "b caused", "etiology")];
    let manifestation = vec![hit("A", "a shown", "manifestation")];
    let out = fuse(&description, &etiology, &manifestation, 5);
    assert_eq!(names(&out), vec!["A", "B"]);
    assert_eq!(out[0].score_tenths, 25);
    assert_eq!(out[0].score_tenths as f32 / 10.0, 1.0 + 1.5);
    assert_eq!(out[0].description_matches, 1);
    assert_eq!(out[0].etiology_matches, 0);
    assert_eq!(out[0].manifestation_matches, 1);
    assert_eq!(out[0].description_text, Some("a described".to_string()));
    assert_eq!(out[0].etiology_text, None);
    assert_eq!(out[0].manifestation_text, Some("a shown".to_string()));
    assert_eq!(out[1].score_tenths, 12);
    assert_eq!(out[1].etiology_text, Some("b caused".to_string()));
    assert_eq!(out[1].description_text, None);
}

#[test]
fn fuse_gives_each_combination_its_score() {
    let d = vec![hit("d", "", ""), hit("de", "", ""), hit("dm", "", ""), hit("dem", "", "")];
    let e = vec![hit("e", "", ""), hit("de", "", ""), hit("em", "", ""), hit("dem", "", "")];
    let m = vec![hit("m", "", ""), hit("dm", "", ""), hit("em", "", ""), hit("dem", "", "")];
    let out = fuse(&d, &e, &m, 10);
    let scored: Vec<(String, u32)> = out.iter().map(|c| (c.name.clone(), c.score_tenths)).collect();
    let expected: Vec<(String, u32)> = [
        ("dem", 37),
        ("em", 27),
        ("dm", 25),
        ("de", 22),
        ("m", 15),
        ("e", 12),
        ("d", 10),
    ]
        .iter()
        .map(|(n, s)| (n.to_string(), *s))
        .collect();
    assert_eq!(scored, expected);
}

#[test]
fn full_match_outranks_partial_matches() {
    let d = vec![hit("two", "", ""), hit("one", "", ""), hit("all", "", "")];
    let e = vec![hit("all", "", "")];
    let m = vec![hit("two", "", ""), hit("all", "", "")];
    let out = fuse(&d, &e, &m, 5);
    assert_eq!(names(&out), vec!["all", "two", "one"]);
    assert_eq!(names(&fuse(&d, &e, &m, 1)), vec!["all"]);
}

#[test]
fn fuse_breaks_ties_by_first_naming() {
    let d = vec![hit("zeta", "", ""), hit("alpha", "", "")];
    let e = vec![hit("mid", "", ""), hit("early", "", "")];
    let m = vec![hit("omega", "", "")];
    let out = fuse(&d, &e, &m, 5);
    assert_eq!(names(&out), vec!["omega", "mid", "early", "zeta", "alpha"]);
    let all_description = vec![hit("c", "", ""), hit("a", "", ""), hit("b", "", "")];
    assert_eq!(names(&fuse(&all_description, &Vec::new(), &Vec::new(), 5)), vec!["c", "a", "b"]);
}

#[test]
fn fuse_keeps_the_first_text_of_a_repeated_name() {
    let d = vec![hit("A", "first", ""), hit("B", "other", ""), hit("A", "second", "")];
    let out = fuse(&d, &Vec::new(), &Vec::new(), 5);
    assert_eq!(names(&out), vec!["A", "B"]);
    assert_eq!(out[0].description_text, Some("first".to_string()));
    assert_eq!(out[0].description_matches, 1);
    assert_eq!(out[0].score_tenths, 10);
}

#[test]
fn fuse_keeps_the_top_n() {
    let d: Vec<SearchResult> = (0..9).map(|i| hit(&format!("c{}", i), "", "")).collect();
    assert_eq!(fuse(&d, &Vec::new(), &Vec::new(), 5).len(), 5);
    assert_eq!(fuse(&d, &Vec::new(), &Vec::new(), 0).len(), 0);
    assert_eq!(fuse(&d, &Vec::new(), &Vec::new(), 20).len(), 9);
}

#[test]
fn fuse_twice_gives_the_same() {
    let d = vec![hit("x", "dx", ""), hit("y", "dy", ""), hit("z", "dz", "")];
    let e = vec![hit("y", "ey", ""), hit("w", "ew", "")];
    let m = vec![hit("z", "mz", ""), hit("y", "my", ""), hit("v", "mv", "")];
    let one = fuse(&d, &e, &m, 4);
    let two = fuse(&d, &e, &m, 4);
    assert_eq!(format!("{:?}", one), format!("{:?}", two));
    assert_eq!(names(&one), vec!["y", "z", "v", "w"]);
}

#[test]
fn cross_reference_gives_five_whatever_the_pool() {
    let records: Vec<ScoredRecord> =
        (0..12).map(|i| record(&format!("c{}", i), "text", i)).collect();
    let full = FacetTable::Present(records);
    let empty = FacetTable::Present(Vec::new());
    let out = cross_reference_search(&full, &empty, &empty, 20).unwrap();
    assert_eq!(names(&out), vec!["c11", "c10", "c9", "c8", "c7"]);
    let narrow = cross_reference_search(&full, &full, &empty, 2).unwrap();
    assert_eq!(names(&narrow), vec!["c11", "c10"]);
    assert_eq!(narrow[0].score_tenths, 22);
}

#[test]
fn cross_reference_scores_the_facets_of_the_hits() {
    let description = FacetTable::Present(vec![record("A", "a described", 3), record("C", "c", 2)]);
    let etiology = FacetTable::Present(vec![record("B", "b caused", 5)]);
    let manifestation = FacetTable::Present(vec![record("A", "a shown", 1)]);
    let out = cross_reference_search(&description, &etiology, &manifestation, 20).unwrap();
    assert_eq!(names(&out), vec!["A", "B", "C"]);
    assert_eq!(out[0].score_tenths, 25);
    assert_eq!(out[1].score_tenths, 12);
    assert_eq!(out[2].score_tenths, 10);
    assert_eq!(out[0].manifestation_text, Some("a shown".to_string()));
}

#[test]
fn a_facet_without_a_table_fails_the_search() {
    let present = FacetTable::Present(vec![record("A", "a", 1)]);
    assert_eq!(search(&FacetTable::Missing, 5, Facet::Etiology).err(), Some(SearchError::CollectionNotFound));
    assert_eq!(search(&FacetTable::Unreachable, 5, Facet::Etiology).err(), Some(SearchError::StoreUnavailable));
    assert_eq!(hit_names(&search(&present, 5, Facet::Etiology).unwrap()), vec!["A"]);
    assert!(search(&FacetTable::Present(Vec::new()), 5, Facet::Etiology).unwrap().is_empty());
    assert_eq!(
        cross_reference_search(&present, &FacetTable::Missing, &FacetTable::Unreachable, 5).err(),
        Some(SearchError::CollectionNotFound)
    );
    assert_eq!(
        cross_reference_search(&FacetTable::Unreachable, &FacetTable::Missing, &present, 5).err(),
        Some(SearchError::StoreUnavailable)
    );
    assert_eq!(
        cross_reference_search(&present, &present, &FacetTable::Missing, 5).err(),
        Some(SearchError::CollectionNotFound)
    );
}

#[test]
fn embeddings_are_there_where_the_description_table_is() {
    assert!(has_embeddings(&FacetTable::Present(Vec::new())));
    assert!(has_embeddings(&FacetTable::Present(vec![record("A", "a", 1)])));
    assert!(!has_embeddings(&FacetTable::Missing));
    assert!(!has_embeddings(&FacetTable::Unreachable));
}

#[test]
fn query_equal_to_a_stored_vector_comes_first() {
    let closest = i32::MAX;
    let records = vec![record("Cold", "c", 7), record("Flu", "f", closest), record("Gout", "g", 9)];
    let hits = search_table(&records, 5, Facet::Description);
    assert_eq!(hits[0].condition_name, "Flu");
    assert_eq!(hits[0].similarity, closest);
}

#[test]
fn excerpt_is_the_first_hundred_characters() {
    assert_eq!(excerpt("short"), "short");
    assert_eq!(excerpt(""), "");
    let long = "\u{e9}".repeat(150);
    assert_eq!(excerpt(&long), "\u{e9}".repeat(100));
    let exact = "a".repeat(100);
    assert_eq!(excerpt(&exact), exact);
}
