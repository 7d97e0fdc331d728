use entity_repo::repository::Repository;
use entity_repo::v2::{Product, ProductRepository, calculate_total};

#[test]
fn product_new_sets_every_field_verbatim() {
    let product = Product::new("p1".to_string(), "Widget".to_string(), 999, "tools".to_string());
    assert_eq!(product.id, "p1");
    assert_eq!(product.name, "Widget");
    assert_eq!(product.price, 999);
    assert_eq!(product.category, "tools");
}

#[test]
fn find_by_category_returns_exactly_the_matching_products() {
    let mut repo = ProductRepository::new();
    repo.save(Product::new("p1".to_string(), "Widget".to_string(), 999, "tools".to_string()));
    repo.save(Product::new("p2".to_string(), "Gadget".to_string(), 1999, "tools".to_string()));
    repo.save(Product::new("p3".to_string(), "Mug".to_string(), 499, "kitchen".to_string()));
    let tools = repo.find_by_category("tools");
    let mut ids: Vec<&str> = tools.iter().map(|p| p.id.as_str()).collect();
    ids.sort();
    assert_eq!(ids, ["p1", "p2"]);
    assert!(repo.find_by_category("missing").is_empty());
}

#[test]
fn trait_capability_set_works_for_products() {
    let mut repo = ProductRepository::new();
    repo.save(Product::new("p1".to_string(), "Widget".to_string(), 999, "tools".to_string()));
    let found = Repository::find_by_id(&repo, "p1").expect("saved product must be found");
    assert_eq!(found.name, "Widget");
    assert!(Repository::find_by_id(&repo, "p2").is_none());
    let removed = repo.delete("p1").expect("delete must return the product");
    assert_eq!(removed.price, 999);
    assert!(repo.delete("p1").is_none());
}

#[test]
fn calculate_total_sums_prices() {
    let empty: Vec<Product> = Vec::new();
    assert_eq!(calculate_total(&empty), 0);
    let products = vec![
        Product::new("p1".to_string(), "Widget".to_string(), 250, "tools".to_string()),
        Product::new("p2".to_string(), "Gadget".to_string(), 350, "tools".to_string()),
    ];
    assert_eq!(calculate_total(&products), 600);
}

#[test]
fn calculate_total_of_one_product_is_its_price() {
    let products = vec![Product::new(
        "p1".to_string(),
        "Widget".to_string(),
        999,
        "tools".to_string(),
    )];
    assert_eq!(calculate_total(&products), 999);
}
