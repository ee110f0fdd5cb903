use take_ur_meds::embedding::{embedding_jobs, should_embed, Facet};
use take_ur_meds::fetch::ConditionData;

fn condition(name: &str, description: &str, etiology: &str, manifestations: &str) -> ConditionData {
    ConditionData {
        name: name.to_string(),
        medline_url: String::new(),
        groups: Vec::new(),
        description: description.to_string(),
        etiology: etiology.to_string(),
        manifestations: manifestations.to_string(),
        treatments: "rest".to_string(),
    }
}

#[test]
fn facets_have_their_tables_and_labels() {
    assert_eq!(Facet::Description.table_name(), "description_embeddings");
    assert_eq!(Facet::Etiology.table_name(), "etiology_embeddings");
    assert_eq!(Facet::Manifestation.table_name(), "manifestation_embeddings");
    assert_eq!(Facet::Description.label(), "description");
    assert_eq!(Facet::Etiology.label(), "etiology");
    assert_eq!(Facet::Manifestation.label(), "manifestation");
}

#[test]
fn placeholders_of_a_missing_summary_are_not_embedded() {
    assert!(!should_embed(Facet::Description, ""));
    assert!(!should_embed(Facet::Description, "No summary available"));
    assert!(should_embed(Facet::Description, "N/A"));
    assert!(should_embed(Facet::Description, "no summary available"));
    assert!(!should_embed(Facet::Etiology, "N/A"));
    assert!(!should_embed(Facet::Etiology, ""));
    assert!(should_embed(Facet::Etiology, "No summary available"));
    assert!(!should_embed(Facet::Manifestation, "N/A"));
    assert!(should_embed(Facet::Manifestation, "fever"));
    assert!(should_embed(Facet::Manifestation, "Details integrated in the description above."));
}

#[test]
fn jobs_follow_the_conditions() {
    let conditions = vec![
        condition("Flu", "a virus", "caused by a virus", "fever"),
        condition("Empty", "No summary available", "N/A", "N/A"),
        condition("Gout", "joints", "", "Details integrated in the description above."),
    ];
    let jobs = embedding_jobs(&conditions);
    let listed: Vec<(Facet, &str, &str)> =
        jobs.iter().map(|j| (j.facet, j.condition_name.as_str(), j.text.as_str())).collect();
    assert_eq!(
        listed,
        vec![
            (Facet::Description, "Flu", "a virus"),
            (Facet::Etiology, "Flu", "caused by a virus"),
            (Facet::Manifestation, "Flu", "fever"),
            (Facet::Description, "Gout", "joints"),
            (Facet::Manifestation, "Gout", "Details integrated in the description above."),
        ]
    );
    assert!(embedding_jobs(&Vec::new()).is_empty());
}
