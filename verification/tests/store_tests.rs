use category_store::categories::Categories;
use category_store::details::CategoryDetails;
use category_store::json::JsonValue;
use category_store::record::CategoryRecord;

const TOTAL_CATEGORIES: i32 = 14;

const TITLES: [&str; 14] = [
    "basketball",
    "baseball",
    "football",
    "tennis",
    "hockey",
    "golf",
    "soccer",
    "rugby",
    "cricket",
    "boxing",
    "cycling",
    "swimming",
    "rowing",
    "skiing",
];

fn record(id: i64, title: &str) -> CategoryRecord {
    CategoryRecord::new(vec![
        ("id".to_string(), JsonValue::Int(id)),
        ("title".to_string(), JsonValue::Str(title.to_string())),
    ])
}

fn sample_records() -> Vec<CategoryRecord> {
    let mut records = Vec::new();
    for (i, title) in TITLES.iter().enumerate() {
        records.push(record(i as i64 + 1, title));
    }
    records
}

fn sample_categories() -> Categories {
    Categories::new(sample_records())
}

#[test]
fn test_categories() {
    let categories = sample_categories();
    assert_eq!(categories.get_categories(-16).len(), 0);
    assert_eq!(categories.get_categories(-15).len(), 0);
    assert_eq!(
        categories.get_categories(-14).len(),
        TOTAL_CATEGORIES as usize - 14
    );
    assert_eq!(
        categories.get_categories(-13).len(),
        TOTAL_CATEGORIES as usize - 13
    );
    assert_eq!(
        categories.get_categories(-12).len(),
        TOTAL_CATEGORIES as usize - 12
    );
    assert_eq!(
        categories.get_categories(-11).len(),
        TOTAL_CATEGORIES as usize - 11
    );
    assert_eq!(
        categories.get_categories(-10).len(),
        TOTAL_CATEGORIES as usize - 10
    );
    assert_eq!(
        categories.get_categories(-9).len(),
        TOTAL_CATEGORIES as usize - 9
    );
    assert_eq!(
        categories.get_categories(-8).len(),
        TOTAL_CATEGORIES as usize - 8
    );
    assert_eq!(
        categories.get_categories(-7).len(),
        TOTAL_CATEGORIES as usize - 7
    );
    assert_eq!(
        categories.get_categories(-6).len(),
        TOTAL_CATEGORIES as usize - 6
    );
    assert_eq!(
        categories.get_categories(-5).len(),
        TOTAL_CATEGORIES as usize - 5
    );
    assert_eq!(
        categories.get_categories(-4).len(),
        TOTAL_CATEGORIES as usize - 4
    );
    assert_eq!(
        categories.get_categories(-3).len(),
        TOTAL_CATEGORIES as usize - 3
    );
    assert_eq!(
        categories.get_categories(-2).len(),
        TOTAL_CATEGORIES as usize - 2
    );
    assert_eq!(
        categories.get_categories(-1).len(),
        TOTAL_CATEGORIES as usize - 1
    );
    assert_eq!(categories.get_categories(0).len(), 0);
    assert_eq!(categories.get_categories(1).len(), 1);
    assert_eq!(categories.get_categories(2).len(), 2);
    assert_eq!(categories.get_categories(3).len(), 3);
    assert_eq!(categories.get_categories(4).len(), 4);
    assert_eq!(categories.get_categories(5).len(), 5);
    assert_eq!(categories.get_categories(6).len(), 6);
    assert_eq!(categories.get_categories(7).len(), 7);
    assert_eq!(categories.get_categories(8).len(), 8);
    assert_eq!(categories.get_categories(9).len(), 9);
    assert_eq!(categories.get_categories(10).len(), 10);
    assert_eq!(categories.get_categories(11).len(), 11);
    assert_eq!(categories.get_categories(12).len(), 12);
    assert_eq!(categories.get_categories(13).len(), 13);
    assert_eq!(
        categories.get_categories(14).len(),
        TOTAL_CATEGORIES as usize
    );
    assert_eq!(
        categories.get_categories(15).len(),
        TOTAL_CATEGORIES as usize
    );
}

#[test]
fn test_category() {
    let categories = sample_categories();
    let category = categories.get_category(2);
    assert_eq!(category.get("id"), Some(&JsonValue::Int(2)));
    assert_eq!(
        category.get("title"),
        Some(&JsonValue::Str("baseball".to_string()))
    );
}

#[test]
fn slice_is_prefix_of_full_list() {
    let categories = sample_categories();
    let full = categories.get_categories(TOTAL_CATEGORIES);
    for k in 1..=TOTAL_CATEGORIES {
        let slice = categories.get_categories(k);
        assert_eq!(slice.len(), k as usize);
        assert_eq!(slice, full[..k as usize]);
    }
}

#[test]
fn negative_slice_keeps_leading_records() {
    let mut records = sample_records();
    records.push(record(15, "darts"));
    records.push(record(16, "snooker"));
    let categories = Categories::new(records);
    let sliced = categories.get_categories(-14);
    let full = categories.get_categories(16);
    assert_eq!(sliced.len(), 2);
    assert_eq!(sliced, full[..2]);
    let category = categories.get_category(2);
    assert_eq!(category.get("id"), Some(&JsonValue::Int(2)));
    assert_eq!(
        category.get("title"),
        Some(&JsonValue::Str("baseball".to_string()))
    );
}

#[test]
fn empty_store_always_slices_empty() {
    let categories = Categories::new(Vec::new());
    assert_eq!(categories.len(), 0);
    assert_eq!(categories.get_categories(0).len(), 0);
    assert_eq!(categories.get_categories(5).len(), 0);
    assert_eq!(categories.get_categories(-5).len(), 0);
}

#[test]
fn missing_id_returns_empty_sentinel() {
    let categories = sample_categories();
    let missing = categories.get_category(99);
    assert_eq!(missing.len(), 0);
    assert_eq!(missing.get("id"), None);
}

#[test]
fn mismatched_id_type_does_not_match() {
    let records = vec![CategoryRecord::new(vec![(
        "id".to_string(),
        JsonValue::Str("2".to_string()),
    )])];
    let categories = Categories::new(records);
    let missing = categories.get_category(2);
    assert_eq!(missing.len(), 0);
}

#[test]
fn first_matching_record_wins() {
    let records = vec![
        record(7, "first"),
        record(7, "second"),
    ];
    let categories = Categories::new(records);
    let found = categories.get_category(7);
    assert_eq!(found.get("title"), Some(&JsonValue::Str("first".to_string())));
}

#[test]
fn append_shifts_later_slices() {
    let mut categories = sample_categories();
    let extra = record(15, "darts");
    categories.add_category(extra.clone());
    let grown = categories.get_categories(TOTAL_CATEGORIES + 1);
    assert_eq!(grown.len(), TOTAL_CATEGORIES as usize + 1);
    assert_eq!(grown.last(), Some(&extra));
    assert_eq!(
        categories.get_categories(-1).len(),
        TOTAL_CATEGORIES as usize
    );
    assert_eq!(categories.len(), TOTAL_CATEGORIES as usize + 1);
}

#[test]
fn nested_values_survive_slicing() {
    let nested = CategoryRecord::new(vec![
        ("id".to_string(), JsonValue::Int(1)),
        (
            "tags".to_string(),
            JsonValue::Array(vec![
                JsonValue::Str("ball".to_string()),
                JsonValue::Bool(true),
                JsonValue::Null,
            ]),
        ),
        (
            "meta".to_string(),
            JsonValue::Object(vec![(
                "depth".to_string(),
                JsonValue::Array(vec![JsonValue::Int(-3)]),
            )]),
        ),
    ]);
    let categories = Categories::new(vec![nested.clone()]);
    let sliced = categories.get_categories(1);
    assert_eq!(sliced.len(), 1);
    assert_eq!(sliced[0], nested);
}

#[test]
fn test_details_returns_stored_value() {
    let payload = JsonValue::Object(vec![
        ("name".to_string(), JsonValue::Str("baseball".to_string())),
        ("players".to_string(), JsonValue::Int(9)),
    ]);
    let details = CategoryDetails::new(vec![
        ("1".to_string(), JsonValue::Str("hoops".to_string())),
        ("2".to_string(), payload.clone()),
    ]);
    assert!(details.has_detail("2"));
    assert_eq!(details.get_detail("2"), &payload);
    assert_eq!(details.get_detail("1"), &JsonValue::Str("hoops".to_string()));
}

#[test]
fn test_details_absent_key_is_detectable() {
    let details = CategoryDetails::new(vec![(
        "1".to_string(),
        JsonValue::Str("hoops".to_string()),
    )]);
    assert!(!details.has_detail("2"));
    assert!(!details.has_detail(""));
}

#[test]
fn test_details_full_map_is_shared() {
    let details = CategoryDetails::new(vec![
        ("1".to_string(), JsonValue::Int(10)),
        ("2".to_string(), JsonValue::Int(20)),
    ]);
    let all = details.get_details();
    assert_eq!(all.len(), 2);
    assert_eq!(all[0], ("1".to_string(), JsonValue::Int(10)));
    assert_eq!(all[1], ("2".to_string(), JsonValue::Int(20)));
}

#[test]
fn record_lookup_is_first_match_in_order() {
    let rec = CategoryRecord::new(vec![
        ("k".to_string(), JsonValue::Int(1)),
        ("k".to_string(), JsonValue::Int(2)),
    ]);
    assert_eq!(rec.get("k"), Some(&JsonValue::Int(1)));
    assert_eq!(rec.get("absent"), None);
    assert_eq!(rec.len(), 2);
    assert_eq!(CategoryRecord::empty().len(), 0);
}
