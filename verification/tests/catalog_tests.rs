use libra_manager::catalog::{
    author_plan, authors_from_works, is_found_status, isbn_url, key_url, Author, AuthorPlan,
    BookData, CatalogRecord,
};

fn record(authors: Option<Vec<&str>>, works: Option<Vec<&str>>) -> CatalogRecord {
    CatalogRecord {
        title: "Titlu".to_string(),
        covers: Some(vec![7, 8]),
        publish_date: "1998".to_string(),
        authors: authors.map(|v| v.into_iter().map(|s| s.to_string()).collect()),
        works: works.map(|v| v.into_iter().map(|s| s.to_string()).collect()),
        number_of_pages: Some(120),
        isbn_13: vec!["9781234567897".to_string()],
    }
}

#[test]
fn direct_author_list_wins() {
    let rec = record(Some(vec!["/authors/OL1A"]), Some(vec!["/works/OL1W"]));
    match author_plan(&rec) {
        AuthorPlan::Direct(keys) => assert_eq!(keys, &vec!["/authors/OL1A".to_string()]),
        _ => panic!("expected a direct plan"),
    }
}

#[test]
fn works_are_followed_when_no_direct_authors() {
    let rec = record(None, Some(vec!["/works/OL1W", "/works/OL2W"]));
    match author_plan(&rec) {
        AuthorPlan::ViaWorks(keys) => assert_eq!(keys.len(), 2),
        _ => panic!("expected a via-works plan"),
    }
}

#[test]
fn no_references_means_no_authors() {
    let rec = record(None, None);
    assert!(matches!(author_plan(&rec), AuthorPlan::NoAuthors));
}

#[test]
fn absent_work_author_lists_are_not_double_counted() {
    // Works without an author list do not count as empty authorship: only
    // when every list is absent is the whole result absent.
    let all_absent: Vec<Option<Vec<String>>> = vec![None, None];
    assert_eq!(authors_from_works(&all_absent), None);

    let empty: Vec<Option<Vec<String>>> = vec![];
    assert_eq!(authors_from_works(&empty), None);

    let mixed: Vec<Option<Vec<String>>> = vec![
        Some(vec!["/authors/OL1A".to_string()]),
        None,
        Some(vec!["/authors/OL2A".to_string(), "/authors/OL3A".to_string()]),
    ];
    assert_eq!(
        authors_from_works(&mixed),
        Some(vec![
            "/authors/OL1A".to_string(),
            "/authors/OL2A".to_string(),
            "/authors/OL3A".to_string(),
        ])
    );

    let one_empty: Vec<Option<Vec<String>>> = vec![Some(vec![]), None];
    assert_eq!(authors_from_works(&one_empty), Some(vec![]));
}

#[test]
fn lookup_result_keeps_the_record_fields() {
    let rec = record(Some(vec!["/authors/OL1A"]), None);
    let authors = Some(vec![Author { name: "Mihail Sadoveanu".to_string() }]);
    let data = BookData::from_record(rec, authors);
    assert_eq!(data.title, "Titlu");
    assert_eq!(data.covers, Some(vec![7, 8]));
    assert_eq!(data.publish_date, "1998");
    assert_eq!(data.number_of_pages, Some(120));
    assert_eq!(data.isbn_13, vec!["9781234567897".to_string()]);
    assert_eq!(data.authors.unwrap()[0].name, "Mihail Sadoveanu");
}

#[test]
fn only_status_200_counts_as_found() {
    assert!(is_found_status(200));
    assert!(!is_found_status(404));
    assert!(!is_found_status(500));
    assert!(!is_found_status(302));
}

#[test]
fn endpoints_follow_the_catalog_scheme() {
    assert_eq!(
        isbn_url(&"9781234567897".to_string()),
        "https://openlibrary.org/isbn/9781234567897.json"
    );
    assert_eq!(
        key_url(&"/authors/OL1A".to_string()),
        "https://openlibrary.org/authors/OL1A.json"
    );
}
