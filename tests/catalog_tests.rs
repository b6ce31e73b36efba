use crud_proj::catalog::Catalog;
use crud_proj::error::AppError;
use crud_proj::model::{ProductFacts, ProductForm, ProductResponse};
use crud_proj::pagination::Pagination;

const DAIRY: u128 = 0x6f1b_2c3d_4e5f_4a6b_8c7d_9e0f_1a2b_3c4d;
const DRINKS: u128 = 0x11111111_2222_4333_8444_555555555555;
const SNACKS: u128 = 0x99999999_8888_4777_8666_555555555555;

fn uuid_text(v: u128) -> String {
    uuid::Uuid::from_u128(v).hyphenated().to_string()
}

fn facts(calories: i32) -> ProductFacts {
    let zero = 0.0f32.to_bits();
    ProductFacts {
        serving_size_grams: None,
        calories,
        fat: zero,
        sugar: zero,
        sodium: zero,
        protein: zero,
        carbs: zero,
        saturated_fat: zero,
        cholesterol: zero,
        vitamin_c: None,
        calcium: None,
        vitamin_b1: None,
        vitamin_a: None,
        price: zero,
        is_upf: false,
        is_healthier: true,
    }
}

fn form(name: &str, brand: Option<&str>, categories: &[u128]) -> ProductForm {
    ProductForm {
        id: None,
        name: name.to_string(),
        brand: brand.map(|b| b.to_string()),
        image_url: None,
        categories_ids: categories.iter().map(|c| uuid_text(*c)).collect(),
        facts: facts(120),
    }
}

fn catalog() -> Catalog {
    let mut c = Catalog::new();
    c.add_category(DAIRY, "Dairy".to_string()).unwrap();
    c.add_category(DRINKS, "Drinks".to_string()).unwrap();
    c.add_category(SNACKS, "Snacks".to_string()).unwrap();
    c
}

fn all() -> Pagination {
    Pagination { limit: Some(100), offset: None, search: None }
}

fn names(items: &[ProductResponse]) -> Vec<String> {
    items.iter().map(|p| p.name.clone()).collect()
}

#[test]
fn create_apple_juice() {
    let mut c = catalog();
    let r = c.create_product_with_categories(form("Apple Juice", None, &[])).unwrap();
    assert_eq!(r.name, "Apple Juice");
    assert_eq!(r.facts.calories, 120);
    assert_eq!(f32::from_bits(r.facts.fat), 0.0);
    assert!(!r.facts.is_upf);
    assert!(r.facts.is_healthier);
    assert!(r.categories.is_empty());
    assert_eq!(c.get_product_by_id(r.id).unwrap().name, "Apple Juice");
}

#[test]
fn search_finds_apple_juice() {
    let mut c = catalog();
    let created = c.create_product_with_categories(form("Apple Juice", None, &[])).unwrap();
    c.create_product_with_categories(form("Oat Milk", Some("Oatly"), &[])).unwrap();
    let p = Pagination { limit: None, offset: None, search: Some("apple".to_string()) };
    let items = c.get_product_list(&p).unwrap();
    assert_eq!(items.len(), 1);
    assert_eq!(items[0].id, created.id);
}

#[test]
fn search_ignores_case_and_reads_brand() {
    let mut c = catalog();
    c.create_product_with_categories(form("Oat Milk", Some("Oatly"), &[])).unwrap();
    c.create_product_with_categories(form("Cola", Some("FizzCo"), &[])).unwrap();
    let p = Pagination { limit: None, offset: None, search: Some("OATLY".to_string()) };
    assert_eq!(names(&c.get_product_list(&p).unwrap()), vec!["Oat Milk"]);
    let p = Pagination { limit: None, offset: None, search: Some("zz".to_string()) };
    assert_eq!(names(&c.get_product_list(&p).unwrap()), vec!["Cola"]);
    let p = Pagination { limit: None, offset: None, search: Some("tea".to_string()) };
    assert!(c.get_product_list(&p).unwrap().is_empty());
}

#[test]
fn update_of_missing_product_is_not_found() {
    let mut c = catalog();
    c.create_product_with_categories(form("Apple Juice", None, &[DRINKS])).unwrap();
    let missing = 0x1234_5678_9abc_4def_8123_456789abcdef;
    let r = c.update_product_by_id(missing, form("Changed", None, &[DAIRY]));
    assert!(matches!(r, Err(AppError::NotFound)));
    let items = c.get_product_list(&all()).unwrap();
    assert_eq!(names(&items), vec!["Apple Juice"]);
    assert_eq!(items[0].categories, vec!["Drinks"]);
    assert!(matches!(c.update_product_from_id(missing, form("Changed", None, &[])), Ok(None)));
}

#[test]
fn create_with_unknown_category_leaves_nothing() {
    let mut c = catalog();
    let unknown = 0x0bad_0bad_0bad_4bad_8bad_0bad0bad0bad;
    let r = c.create_product_with_categories(form("Ghost", None, &[DRINKS, unknown]));
    assert!(matches!(r, Err(AppError::DatabaseError(_))));
    assert!(c.get_product_list(&all()).unwrap().is_empty());
    assert!(c.get_product_list(&all()).unwrap().is_empty());
}

#[test]
fn malformed_category_id_is_invalid() {
    let mut c = catalog();
    let mut bad = form("Ghost", None, &[DRINKS]);
    bad.categories_ids.push("not-a-uuid".to_string());
    match c.create_product_with_categories(bad) {
        Err(AppError::ValidationError(m)) => assert_eq!(m, "category ids must be UUIDs"),
        _ => panic!("a malformed category id is invalid"),
    }
    assert!(c.get_product_list(&all()).unwrap().is_empty());
    let r = c.create_product_with_categories(form("Tea", None, &[DRINKS])).unwrap();
    let mut bad = form("Tea", None, &[]);
    bad.categories_ids = vec!["12".to_string()];
    assert!(matches!(c.update_product_by_id(r.id, bad), Err(AppError::ValidationError(_))));
    assert_eq!(c.get_product_by_id(r.id).unwrap().categories, vec!["Drinks"]);
}

#[test]
fn literal_percent_in_search() {
    let mut c = catalog();
    c.create_product_with_categories(form("100% Juice", None, &[])).unwrap();
    c.create_product_with_categories(form("1000 Juice", None, &[])).unwrap();
    let p = Pagination { limit: None, offset: None, search: Some("0%".to_string()) };
    assert_eq!(names(&c.get_product_list(&p).unwrap()), vec!["100% Juice"]);
}

#[test]
fn create_then_read_gives_category_names() {
    let mut c = catalog();
    let r = c.create_product_with_categories(form("Yogurt Drink", None, &[DAIRY, DRINKS])).unwrap();
    let mut got = c.get_product_by_id(r.id).unwrap().categories;
    got.sort();
    assert_eq!(got, vec!["Dairy", "Drinks"]);
    assert_eq!(r.categories, vec!["Dairy", "Drinks"]);
}

#[test]
fn category_given_in_another_uuid_form() {
    let mut c = catalog();
    let mut f = form("Cheese", None, &[]);
    f.categories_ids = vec![uuid::Uuid::from_u128(DAIRY).simple().to_string().to_uppercase()];
    let r = c.create_product_with_categories(f).unwrap();
    assert_eq!(r.categories, vec!["Dairy"]);
}

#[test]
fn delete_missing_is_not_found_every_time() {
    let mut c = catalog();
    c.create_product_with_categories(form("Apple Juice", None, &[DRINKS])).unwrap();
    let missing = 42u128;
    assert!(matches!(c.delete_product_by_id(missing), Ok(0)));
    assert!(matches!(c.delete_product_from_id(missing), Err(AppError::NotFound)));
    assert!(matches!(c.delete_product_from_id(missing), Err(AppError::NotFound)));
    assert_eq!(c.get_product_list(&all()).unwrap().len(), 1);
}

#[test]
fn delete_removes_product_then_not_found() {
    let mut c = catalog();
    let r = c.create_product_with_categories(form("Apple Juice", None, &[DRINKS])).unwrap();
    assert!(matches!(c.delete_product_from_id(r.id), Ok(())));
    assert!(matches!(c.get_product_by_id(r.id), Err(AppError::NotFound)));
    assert!(matches!(c.get_product_from_id(r.id), Ok(None)));
    assert!(matches!(c.delete_product_from_id(r.id), Err(AppError::NotFound)));
    assert!(matches!(c.delete_product_by_id(r.id), Ok(0)));
}

#[test]
fn update_with_no_categories_keeps_links() {
    let mut c = catalog();
    let r = c.create_product_with_categories(form("Milk", None, &[DAIRY, DRINKS])).unwrap();
    let u = c.update_product_by_id(r.id, form("Whole Milk", Some("Farm"), &[])).unwrap();
    assert_eq!(u.id, r.id);
    assert_eq!(u.name, "Whole Milk");
    assert_eq!(u.brand.as_deref(), Some("Farm"));
    assert_eq!(u.categories, vec!["Dairy", "Drinks"]);
}

#[test]
fn update_with_categories_replaces_links() {
    let mut c = catalog();
    let r = c.create_product_with_categories(form("Milk", None, &[DAIRY, DRINKS])).unwrap();
    let other = c.create_product_with_categories(form("Cola", None, &[DRINKS])).unwrap();
    let u = c.update_product_by_id(r.id, form("Milk", None, &[SNACKS])).unwrap();
    assert_eq!(u.categories, vec!["Snacks"]);
    assert_eq!(c.get_product_by_id(other.id).unwrap().categories, vec!["Drinks"]);
}

#[test]
fn update_with_unknown_category_changes_nothing() {
    let mut c = catalog();
    let r = c.create_product_with_categories(form("Milk", None, &[DAIRY])).unwrap();
    let u = c.update_product_by_id(r.id, form("Renamed", None, &[7]));
    assert!(matches!(u, Err(AppError::DatabaseError(_))));
    let got = c.get_product_by_id(r.id).unwrap();
    assert_eq!(got.name, "Milk");
    assert_eq!(got.categories, vec!["Dairy"]);
}

#[test]
fn update_moves_product_in_name_order() {
    let mut c = catalog();
    let a = c.create_product_with_categories(form("Apple", None, &[])).unwrap();
    c.create_product_with_categories(form("Banana", None, &[])).unwrap();
    c.update_product_by_id(a.id, form("Zucchini", None, &[])).unwrap();
    assert_eq!(names(&c.get_product_list(&all()).unwrap()), vec!["Banana", "Zucchini"]);
}

#[test]
fn listing_pages_in_name_order() {
    let mut c = catalog();
    for n in ["Pear", "Apple", "Mango", "Banana", "Kiwi"] {
        c.create_product_with_categories(form(n, None, &[])).unwrap();
    }
    let p = Pagination { limit: Some(2), offset: Some(1), search: None };
    assert_eq!(names(&c.get_product_list(&p).unwrap()), vec!["Banana", "Kiwi"]);
    let p = Pagination { limit: Some(10), offset: Some(3), search: None };
    assert_eq!(names(&c.get_product_list(&p).unwrap()), vec!["Mango", "Pear"]);
    let p = Pagination { limit: Some(0), offset: None, search: None };
    assert!(c.get_product_list(&p).unwrap().is_empty());
    let p = Pagination { limit: Some(3), offset: Some(9), search: None };
    assert!(c.get_product_list(&p).unwrap().is_empty());
    assert_eq!(names(&c.get_product_list(&all()).unwrap()), vec!["Apple", "Banana", "Kiwi", "Mango", "Pear"]);
}

#[test]
fn listing_defaults_to_ten() {
    let mut c = catalog();
    for i in 0..12 {
        c.create_product_with_categories(form(&format!("Item {:02}", i), None, &[])).unwrap();
    }
    let p = Pagination { limit: None, offset: None, search: None };
    let items = c.get_product_list(&p).unwrap();
    assert_eq!(items.len(), 10);
    assert_eq!(items[0].name, "Item 00");
    assert_eq!(items[9].name, "Item 09");
}

#[test]
fn negative_paging_is_refused() {
    let c = catalog();
    let p = Pagination { limit: Some(-1), offset: None, search: None };
    assert!(matches!(c.get_product_list(&p), Err(AppError::DatabaseError(_))));
    let p = Pagination { limit: None, offset: Some(-5), search: None };
    assert!(matches!(c.get_product_list(&p), Err(AppError::DatabaseError(_))));
}

#[test]
fn insert_with_taken_id_is_refused() {
    let mut c = catalog();
    let r = c.insert_product(form("First", None, &[]), 5).unwrap();
    assert_eq!(r.id, 5);
    assert!(matches!(c.insert_product(form("Second", None, &[]), 5), Err(AppError::DatabaseError(_))));
    assert_eq!(names(&c.get_product_list(&all()).unwrap()), vec!["First"]);
}

#[test]
fn duplicate_category_is_refused() {
    let mut c = catalog();
    assert!(matches!(c.add_category(DAIRY, "Again".to_string()), Err(AppError::DatabaseError(_))));
}

#[test]
fn nameless_form_is_invalid() {
    let mut c = catalog();
    match c.create_product_with_categories(form("", None, &[])) {
        Err(AppError::ValidationError(m)) => assert_eq!(m, "name must not be empty"),
        _ => panic!("a form without a name is invalid"),
    }
    let r = c.create_product_with_categories(form("Tea", None, &[])).unwrap();
    assert!(matches!(c.update_product_by_id(r.id, form("", None, &[])), Err(AppError::ValidationError(_))));
    assert_eq!(c.get_product_by_id(r.id).unwrap().name, "Tea");
    assert!(c.get_product_list(&all()).unwrap().len() == 1);
}
