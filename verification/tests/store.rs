use conspiracies::crawl_queue::{fetch_titles, report_done};
use conspiracies::db::{
    add_categories, add_conspiracy, add_link_process, add_tag, get_categories, get_conspiracies,
    get_conspiracies_by_tag, get_conspiracy_by_id, get_links_to_process, get_tags,
    mark_link_as_processed, skipped_rows, tag_conspiracy, Database,
};
use conspiracies::error::StorageError;
use conspiracies::models::{CategoryToPage, Conspiracy, ConspiracyTag, LinkProcessed, NewTag, Tag};
use conspiracies::names::{position, same_name, Position};
use conspiracies::operation::{execute, Operation, TypedValue};
use conspiracies::paging::{page_bounds, page_offset, PAGE_SIZE};

fn page(id: &str) -> Conspiracy {
    Conspiracy {
        page_id: id.to_string(),
        title: format!("title of {}", id),
        content: format!("content of {}", id),
    }
}

fn filed(category: &str, page_id: &str) -> CategoryToPage {
    CategoryToPage { page_id: page_id.to_string(), category: category.to_string() }
}

fn store_with_pages(count: usize) -> Database {
    let mut db = Database::new();
    for i in 0..count {
        assert_eq!(add_conspiracy(&mut db, &page(&format!("page-{}", i))), Ok(1));
    }
    db
}

#[test]
fn page_offset_is_page_number_times_page_size() {
    assert_eq!(PAGE_SIZE, 25);
    assert_eq!(page_offset(0), Ok(0));
    assert_eq!(page_offset(1), Ok(25));
    assert_eq!(page_offset(3), Ok(75));
    assert_eq!(page_offset(1000), Ok(25000));
    assert_eq!(page_offset(i64::MAX / 25), Ok((i64::MAX / 25) * 25));
}

#[test]
fn page_offset_rejects_negative_and_unrepresentable() {
    assert_eq!(page_offset(-1), Err(StorageError::Validation));
    assert_eq!(page_offset(i64::MIN), Err(StorageError::Validation));
    assert_eq!(page_offset(i64::MAX / 25 + 1), Err(StorageError::Validation));
    assert_eq!(page_offset(i64::MAX), Err(StorageError::Validation));
}

#[test]
fn page_bounds_clamp_to_table() {
    assert_eq!(page_bounds(0, 0), (0, 0));
    assert_eq!(page_bounds(30, 0), (0, 25));
    assert_eq!(page_bounds(30, 1), (25, 30));
    assert_eq!(page_bounds(30, 2), (30, 30));
    assert_eq!(page_bounds(50, 1), (25, 50));
    assert_eq!(page_bounds(50, 2), (50, 50));
    assert_eq!(page_bounds(7, i64::MAX), (7, 7));
}

#[test]
fn pages_hold_at_most_25_rows_in_insertion_order() {
    let db = store_with_pages(30);
    let first = get_conspiracies(&db, 0).unwrap();
    assert_eq!(first.len(), 25);
    for (i, row) in first.iter().enumerate() {
        assert_eq!(row.page_id, format!("page-{}", i));
    }
    let second = get_conspiracies(&db, 1).unwrap();
    assert_eq!(second.len(), 5);
    for (i, row) in second.iter().enumerate() {
        assert_eq!(row.page_id, format!("page-{}", 25 + i));
    }
    assert_eq!(get_conspiracies(&db, 2), Ok(vec![]));
    assert_eq!(get_conspiracies(&db, i64::MAX), Ok(vec![]));
}

#[test]
fn negative_page_numbers_are_validation_errors() {
    let db = store_with_pages(3);
    assert_eq!(get_conspiracies(&db, -1), Err(StorageError::Validation));
    assert_eq!(get_tags(&db, -1), Err(StorageError::Validation));
    assert_eq!(get_categories(&db, -1), Err(StorageError::Validation));
    assert_eq!(get_conspiracies_by_tag(&db, 1, -1), Err(StorageError::Validation));
    assert_eq!(get_links_to_process(&db, -1), Err(StorageError::Validation));
    assert_eq!(fetch_titles(&db, -1), Err(StorageError::Validation));
}

#[test]
fn insert_then_lookup_round_trips() {
    let mut db = Database::new();
    let row = Conspiracy {
        page_id: "page-1".to_string(),
        title: "Moon".to_string(),
        content: "It is made of cheese.".to_string(),
    };
    assert_eq!(add_conspiracy(&mut db, &row), Ok(1));
    assert_eq!(get_conspiracy_by_id(&db, "page-1"), Ok(row));
}

#[test]
fn duplicate_page_id_is_a_conflict() {
    let mut db = Database::new();
    assert_eq!(add_conspiracy(&mut db, &page("page-1")), Ok(1));
    let other = Conspiracy {
        page_id: "page-1".to_string(),
        title: "another".to_string(),
        content: "text".to_string(),
    };
    assert_eq!(add_conspiracy(&mut db, &other), Err(StorageError::Conflict));
    assert_eq!(get_conspiracies(&db, 0), Ok(vec![page("page-1")]));
    assert_eq!(get_conspiracy_by_id(&db, "page-1"), Ok(page("page-1")));
}

#[test]
fn lookup_miss_is_not_found() {
    let db = store_with_pages(2);
    assert_eq!(get_conspiracy_by_id(&db, "nope"), Err(StorageError::NotFound));
    assert_eq!(get_conspiracy_by_id(&db, "p"), Err(StorageError::NotFound));
    assert_eq!(get_conspiracy_by_id(&db, "page-10"), Err(StorageError::NotFound));
    assert_eq!(get_conspiracy_by_id(&db, ""), Err(StorageError::NotFound));
}

#[test]
fn tags_get_ids_counting_from_one() {
    let mut db = Database::new();
    let a = add_tag(&mut db, NewTag { name: "ufo".to_string() });
    assert_eq!(a, Ok(Tag { id: 1, name: "ufo".to_string() }));
    let b = add_tag(&mut db, NewTag { name: "moon".to_string() });
    assert_eq!(b, Ok(Tag { id: 2, name: "moon".to_string() }));
    let c = add_tag(&mut db, NewTag { name: "ufo".to_string() });
    assert_eq!(c, Ok(Tag { id: 3, name: "ufo".to_string() }));
    assert_eq!(
        get_tags(&db, 0),
        Ok(vec![
            Tag { id: 1, name: "ufo".to_string() },
            Tag { id: 2, name: "moon".to_string() },
            Tag { id: 3, name: "ufo".to_string() },
        ])
    );
    assert_eq!(get_tags(&db, 1), Ok(vec![]));
}

#[test]
fn tags_are_paginated() {
    let mut db = Database::new();
    for i in 0..26 {
        add_tag(&mut db, NewTag { name: format!("t{}", i) }).unwrap();
    }
    assert_eq!(get_tags(&db, 0).unwrap().len(), 25);
    assert_eq!(get_tags(&db, 1), Ok(vec![Tag { id: 26, name: "t25".to_string() }]));
}

#[test]
fn tagged_page_is_found_through_its_tag() {
    let mut db = Database::new();
    assert_eq!(add_conspiracy(&mut db, &page("p1")), Ok(1));
    let tag = add_tag(&mut db, NewTag { name: "ufo".to_string() }).unwrap();
    assert_eq!(tag.id, 1);
    let link = ConspiracyTag { conspiracy_id: "p1".to_string(), tag_id: 1 };
    assert_eq!(tag_conspiracy(&mut db, &link), Ok(1));
    let rows = get_conspiracies_by_tag(&db, 1, 0).unwrap();
    assert_eq!(rows.len(), 1);
    assert_eq!(rows[0].page_id, "p1");
    assert_eq!(rows, vec![page("p1")]);
}

#[test]
fn tag_join_is_inner_and_follows_the_links() {
    let mut db = store_with_pages(3);
    for (id, tag_id) in [("page-2", 1), ("ghost", 1), ("page-0", 2), ("page-0", 1), ("page-2", 1)] {
        let link = ConspiracyTag { conspiracy_id: id.to_string(), tag_id };
        assert_eq!(tag_conspiracy(&mut db, &link), Ok(1));
    }
    assert_eq!(get_conspiracies_by_tag(&db, 1, 0), Ok(vec![page("page-2"), page("page-0"), page("page-2")]));
    assert_eq!(get_conspiracies_by_tag(&db, 2, 0), Ok(vec![page("page-0")]));
    assert_eq!(get_conspiracies_by_tag(&db, 3, 0), Ok(vec![]));
    assert_eq!(get_conspiracies_by_tag(&db, 1, 1), Ok(vec![]));
}

#[test]
fn tag_join_is_paginated() {
    let mut db = store_with_pages(1);
    for _ in 0..27 {
        let link = ConspiracyTag { conspiracy_id: "page-0".to_string(), tag_id: 9 };
        tag_conspiracy(&mut db, &link).unwrap();
    }
    assert_eq!(get_conspiracies_by_tag(&db, 9, 0).unwrap().len(), 25);
    assert_eq!(get_conspiracies_by_tag(&db, 9, 1).unwrap().len(), 2);
}

#[test]
fn marking_a_link_twice_keeps_it_processed() {
    let mut db = Database::new();
    assert_eq!(add_link_process(&mut db, &LinkProcessed::new("Area 51".to_string())), Ok(1));
    assert_eq!(mark_link_as_processed(&mut db, "Area 51"), Ok(1));
    assert_eq!(get_links_to_process(&db, 10), Ok(vec![]));
    assert_eq!(mark_link_as_processed(&mut db, "Area 51"), Ok(1));
    assert_eq!(get_links_to_process(&db, 10), Ok(vec![]));
}

#[test]
fn marking_an_unknown_title_matches_no_row() {
    let mut db = Database::new();
    assert_eq!(mark_link_as_processed(&mut db, "nothing"), Ok(0));
    add_link_process(&mut db, &LinkProcessed::new("a".to_string())).unwrap();
    assert_eq!(mark_link_as_processed(&mut db, "b"), Ok(0));
    assert_eq!(get_links_to_process(&db, 10), Ok(vec![LinkProcessed::new("a".to_string())]));
}

#[test]
fn links_to_process_are_never_processed() {
    let mut db = Database::new();
    for title in ["a", "b", "c", "d", "e"] {
        add_link_process(&mut db, &LinkProcessed::new(title.to_string())).unwrap();
    }
    add_link_process(&mut db, &LinkProcessed { title: "done".to_string(), processed: true })
        .unwrap();
    mark_link_as_processed(&mut db, "b").unwrap();
    mark_link_as_processed(&mut db, "d").unwrap();
    let rows = get_links_to_process(&db, 10).unwrap();
    assert!(rows.iter().all(|row| !row.processed));
    let titles: Vec<&str> = rows.iter().map(|row| row.title.as_str()).collect();
    assert_eq!(titles, vec!["a", "c", "e"]);
}

#[test]
fn links_to_process_respect_the_limit() {
    let mut db = Database::new();
    for title in ["a", "b", "c"] {
        add_link_process(&mut db, &LinkProcessed::new(title.to_string())).unwrap();
    }
    assert_eq!(get_links_to_process(&db, 0), Ok(vec![]));
    assert_eq!(
        get_links_to_process(&db, 2),
        Ok(vec![LinkProcessed::new("a".to_string()), LinkProcessed::new("b".to_string())])
    );
    assert_eq!(get_links_to_process(&db, 3).unwrap().len(), 3);
    assert_eq!(get_links_to_process(&db, i32::MAX).unwrap().len(), 3);
}

#[test]
fn duplicate_link_title_is_a_conflict() {
    let mut db = Database::new();
    assert_eq!(add_link_process(&mut db, &LinkProcessed::new("a".to_string())), Ok(1));
    assert_eq!(
        add_link_process(&mut db, &LinkProcessed::new("a".to_string())),
        Err(StorageError::Conflict)
    );
    assert_eq!(get_links_to_process(&db, 10).unwrap().len(), 1);
}

#[test]
fn title_with_quotes_marks_only_its_own_row() {
    let mut db = Database::new();
    for title in ["O'Brien's Theory", "O", "O''Brien''s Theory", "'; DROP TABLE links; --", "x"] {
        assert_eq!(add_link_process(&mut db, &LinkProcessed::new(title.to_string())), Ok(1));
    }
    assert_eq!(mark_link_as_processed(&mut db, "O'Brien's Theory"), Ok(1));
    let rows = get_links_to_process(&db, 10).unwrap();
    let titles: Vec<&str> = rows.iter().map(|row| row.title.as_str()).collect();
    assert_eq!(titles, vec!["O", "O''Brien''s Theory", "'; DROP TABLE links; --", "x"]);
    assert_eq!(mark_link_as_processed(&mut db, "' OR '1'='1"), Ok(0));
    assert_eq!(get_links_to_process(&db, 10).unwrap().len(), 4);
}

#[test]
fn batch_with_invalid_rows_stores_the_valid_ones() {
    let mut db = Database::new();
    let batch = vec![
        filed("ufo", "page-1"),
        filed("", "page-1"),
        filed("moon", "page-2"),
        filed("moon", ""),
        filed("ufo", "page-3"),
    ];
    assert_eq!(skipped_rows(&batch), vec![1, 3]);
    let stored = add_categories(&mut db, batch).unwrap();
    assert_eq!(stored, 3);
    assert!(stored < 5);
    assert_eq!(get_categories(&db, 0), Ok(vec!["moon".to_string(), "ufo".to_string()]));
}

#[test]
fn batch_of_valid_rows_stores_all() {
    let mut db = Database::new();
    let batch = vec![filed("a", "page-1"), filed("b", "page-1"), filed("a", "page-1")];
    assert_eq!(skipped_rows(&batch), Vec::<usize>::new());
    assert_eq!(add_categories(&mut db, batch), Ok(3));
    assert_eq!(add_categories(&mut db, vec![]), Ok(0));
    assert_eq!(add_categories(&mut db, vec![filed("", "")]), Ok(0));
}

#[test]
fn categories_are_distinct_and_sorted() {
    let mut db = Database::new();
    let names = ["pear", "apple", "fig", "apple", "Zebra", "app", "\u{e9}clair", "fig", "apples"];
    let batch: Vec<CategoryToPage> = names.iter().map(|name| filed(name, "p")).collect();
    assert_eq!(add_categories(&mut db, batch), Ok(9));
    let listed = get_categories(&db, 0).unwrap();
    assert_eq!(listed, vec!["Zebra", "app", "apple", "apples", "fig", "pear", "\u{e9}clair"]);
    let mut expected: Vec<String> = names.iter().map(|name| name.to_string()).collect();
    expected.sort();
    expected.dedup();
    assert_eq!(listed, expected);
}

#[test]
fn categories_are_paginated() {
    let mut db = Database::new();
    let batch: Vec<CategoryToPage> = (0..30).map(|i| filed(&format!("c{:02}", 29 - i), "p")).collect();
    assert_eq!(add_categories(&mut db, batch), Ok(30));
    let first = get_categories(&db, 0).unwrap();
    assert_eq!(first.len(), 25);
    assert_eq!(first[0], "c00");
    assert_eq!(first[24], "c24");
    assert_eq!(
        get_categories(&db, 1),
        Ok(vec!["c25".to_string(), "c26".to_string(), "c27".to_string(), "c28".to_string(), "c29".to_string()])
    );
    assert_eq!(get_categories(&db, 2), Ok(vec![]));
}

#[test]
fn names_are_ordered_byte_by_byte() {
    assert_eq!(position("a", "b"), Position::Before);
    assert_eq!(position("b", "a"), Position::After);
    assert_eq!(position("abc", "abc"), Position::Same);
    assert_eq!(position("", ""), Position::Same);
    assert_eq!(position("", "a"), Position::Before);
    assert_eq!(position("ab", "abc"), Position::Before);
    assert_eq!(position("abc", "ab"), Position::After);
    assert_eq!(position("Z", "a"), Position::Before);
    assert_eq!(position("z", "\u{e9}"), Position::Before);
    assert_eq!(position("\u{1f600}", "\u{e9}"), Position::After);
    for (a, b) in [("a", "b"), ("x", "x"), ("\u{e9}", "e"), ("ab", "a"), ("", "z")] {
        let expected = match a.cmp(b) {
            std::cmp::Ordering::Less => Position::Before,
            std::cmp::Ordering::Equal => Position::Same,
            std::cmp::Ordering::Greater => Position::After,
        };
        assert_eq!(position(a, b), expected);
    }
}

#[test]
fn same_name_is_exact() {
    assert!(same_name("page-1", "page-1"));
    assert!(!same_name("page-1", "P1"));
    assert!(!same_name("page-1", "page-10"));
    assert!(!same_name("page-1", " p1"));
    assert!(same_name("", ""));
}

#[test]
fn new_link_is_unprocessed() {
    let link = LinkProcessed::new("t".to_string());
    assert_eq!(link, LinkProcessed { title: "t".to_string(), processed: false });
}

#[test]
fn acceptable_rows_have_both_fields() {
    assert!(filed("a", "p").is_acceptable());
    assert!(!filed("", "p").is_acceptable());
    assert!(!filed("a", "").is_acceptable());
    assert!(!filed("", "").is_acceptable());
}

#[test]
fn crawl_queue_hands_out_titles_until_reported() {
    let mut db = Database::new();
    for title in ["a", "b", "c"] {
        add_link_process(&mut db, &LinkProcessed::new(title.to_string())).unwrap();
    }
    assert_eq!(fetch_titles(&db, 2), Ok(vec!["a".to_string(), "b".to_string()]));
    assert_eq!(fetch_titles(&db, 2), Ok(vec!["a".to_string(), "b".to_string()]));
    assert_eq!(report_done(&mut db, "a"), Ok(1));
    assert_eq!(fetch_titles(&db, 2), Ok(vec!["b".to_string(), "c".to_string()]));
    assert_eq!(report_done(&mut db, "a"), Ok(1));
    assert_eq!(report_done(&mut db, "zzz"), Ok(0));
    assert_eq!(report_done(&mut db, "b"), Ok(1));
    assert_eq!(report_done(&mut db, "c"), Ok(1));
    assert_eq!(fetch_titles(&db, 2), Ok(vec![]));
}

#[test]
fn execute_runs_each_operation() {
    let mut db = Database::new();
    assert_eq!(
        execute(&mut db, Operation::InsertConspiracy { conspiracy: page("page-1") }),
        Ok(TypedValue::RowCount(1))
    );
    assert_eq!(
        execute(&mut db, Operation::InsertConspiracy { conspiracy: page("page-1") }),
        Err(StorageError::Conflict)
    );
    assert_eq!(
        execute(&mut db, Operation::InsertTag { new_tag: NewTag { name: "ufo".to_string() } }),
        Ok(TypedValue::Tag(Tag { id: 1, name: "ufo".to_string() }))
    );
    assert_eq!(
        execute(
            &mut db,
            Operation::TagConspiracy {
                tag: ConspiracyTag { conspiracy_id: "page-1".to_string(), tag_id: 1 }
            }
        ),
        Ok(TypedValue::RowCount(1))
    );
    assert_eq!(
        execute(&mut db, Operation::GetConspiraciesByTag { tag_id: 1, page_number: 0 }),
        Ok(TypedValue::Conspiracies(vec![page("page-1")]))
    );
    assert_eq!(
        execute(&mut db, Operation::GetConspiracies { page_number: 0 }),
        Ok(TypedValue::Conspiracies(vec![page("page-1")]))
    );
    assert_eq!(
        execute(&mut db, Operation::GetConspiracies { page_number: -3 }),
        Err(StorageError::Validation)
    );
    assert_eq!(
        execute(&mut db, Operation::GetConspiracyById { page_id: "page-1".to_string() }),
        Ok(TypedValue::Conspiracy(page("page-1")))
    );
    assert_eq!(
        execute(&mut db, Operation::GetConspiracyById { page_id: "page-2".to_string() }),
        Err(StorageError::NotFound)
    );
    assert_eq!(
        execute(&mut db, Operation::GetTags { page_number: 0 }),
        Ok(TypedValue::Tags(vec![Tag { id: 1, name: "ufo".to_string() }]))
    );
    assert_eq!(
        execute(
            &mut db,
            Operation::InsertCategoriesForPage {
                categories: vec![filed("b", "page-1"), filed("", "page-1"), filed("a", "page-1")]
            }
        ),
        Ok(TypedValue::RowCount(2))
    );
    assert_eq!(
        execute(&mut db, Operation::GetCategories { page_number: 0 }),
        Ok(TypedValue::Categories(vec!["a".to_string(), "b".to_string()]))
    );
    assert_eq!(
        execute(&mut db, Operation::InsertLinkProcessed { title: "l1".to_string() }),
        Ok(TypedValue::RowCount(1))
    );
    assert_eq!(
        execute(&mut db, Operation::InsertLinkProcessed { title: "l1".to_string() }),
        Err(StorageError::Conflict)
    );
    assert_eq!(
        execute(&mut db, Operation::GetLinksToProcess { limit: 5 }),
        Ok(TypedValue::Links(vec![LinkProcessed { title: "l1".to_string(), processed: false }]))
    );
    assert_eq!(
        execute(&mut db, Operation::MarkLinkProcessed { title: "l1".to_string() }),
        Ok(TypedValue::RowCount(1))
    );
    assert_eq!(
        execute(&mut db, Operation::MarkLinkProcessed { title: "l2".to_string() }),
        Ok(TypedValue::RowCount(0))
    );
    assert_eq!(
        execute(&mut db, Operation::GetLinksToProcess { limit: 5 }),
        Ok(TypedValue::Links(vec![]))
    );
    assert_eq!(
        execute(&mut db, Operation::GetLinksToProcess { limit: -1 }),
        Err(StorageError::Validation)
    );
}

#[test]
fn rows_and_errors_clone_equal() {
    assert_eq!(page("p").clone(), page("p"));
    assert_eq!(filed("a", "b").clone(), filed("a", "b"));
    let tag = Tag { id: 4, name: "n".to_string() };
    assert_eq!(tag.clone(), tag);
    let new_tag = NewTag { name: "n".to_string() };
    assert_eq!(new_tag.clone(), new_tag);
    let link = ConspiracyTag { conspiracy_id: "p".to_string(), tag_id: 2 };
    assert_eq!(link.clone(), link);
    let queued = LinkProcessed { title: "t".to_string(), processed: true };
    assert_eq!(queued.clone(), queued);
    for error in [
        StorageError::Validation,
        StorageError::Conflict,
        StorageError::NotFound,
        StorageError::Backend("disk".to_string()),
        StorageError::PoolExhausted,
    ] {
        assert_eq!(error.clone(), error);
    }
}
