use product_checkout::catalog::Product;
use product_checkout::checkout::{
    build_payload, checkout_step, config_from_env, resolve_names, ConfigError, DatabaseCommand,
    InteractionError, InteractionResponse,
};

fn product(id: i32, name: &str) -> Product {
    Product {
        id,
        name: name.to_string(),
        href: format!("/p/{}", id),
        price_cents: 100,
        description: String::new(),
        image_src: String::new(),
        image_alt: String::new(),
    }
}

fn pharmacy() -> Vec<Product> {
    vec![
        product(1, "Aspirin"),
        product(2, "Warfarin"),
        product(3, "Ibuprofen"),
    ]
}

#[test]
fn config_complete() {
    let r = config_from_env(
        Some("postgres://localhost/shop".to_string()),
        Some("some-token".to_string()),
        Some("https://example.test/check".to_string()),
    );
    let c = r.expect("complete configuration");
    assert_eq!(c.database_url, "postgres://localhost/shop");
    assert_eq!(c.lambda_token, "some-token");
    assert_eq!(c.lambda_url, "https://example.test/check");
}

#[test]
fn config_missing_database_url() {
    let r = config_from_env(None, Some("t".to_string()), Some("u".to_string()));
    assert_eq!(r.unwrap_err(), ConfigError::MissingDatabaseUrl);
}

#[test]
fn config_missing_token() {
    let r = config_from_env(Some("d".to_string()), None, Some("u".to_string()));
    assert_eq!(r.unwrap_err(), ConfigError::MissingLambdaToken);
}

#[test]
fn config_missing_url() {
    let r = config_from_env(Some("d".to_string()), Some("t".to_string()), None);
    assert_eq!(r.unwrap_err(), ConfigError::MissingLambdaUrl);
}

#[test]
fn resolves_one_name_per_matched_id() {
    let names = resolve_names(&pharmacy(), &vec![1, 2]);
    assert_eq!(names, vec!["Aspirin".to_string(), "Warfarin".to_string()]);
}

#[test]
fn unmatched_id_is_silently_excluded() {
    let names = resolve_names(&pharmacy(), &vec![3, 42]);
    assert_eq!(names, vec!["Ibuprofen".to_string()]);
    let none = resolve_names(&pharmacy(), &vec![42]);
    assert!(none.is_empty());
}

#[test]
fn empty_selection_resolves_to_no_names() {
    let names = resolve_names(&pharmacy(), &Vec::new());
    assert!(names.is_empty());
}

#[test]
fn duplicate_ids_resolve_to_one_name_per_row() {
    // The selection is treated as a set: a repeated id matches the same
    // single row and yields one name.
    let names = resolve_names(&pharmacy(), &vec![1, 1]);
    assert_eq!(names, vec!["Aspirin".to_string()]);
}

#[test]
fn payload_carries_the_resolved_names() {
    let names = vec!["Aspirin".to_string(), "Warfarin".to_string()];
    let payload = build_payload(names.clone());
    assert_eq!(payload.medications, names);
}

#[test]
fn conflict_response_blocks_and_sends_nothing() {
    let names = resolve_names(&pharmacy(), &vec![1, 2]);
    assert_eq!(names, vec!["Aspirin".to_string(), "Warfarin".to_string()]);
    let response = InteractionResponse {
        message: "conflict".to_string(),
        interactions: Some(vec![vec!["Aspirin".to_string(), "Warfarin".to_string()]]),
    };
    let mut queue: Vec<DatabaseCommand> = Vec::new();
    let r = checkout_step(names, response, &mut queue);
    assert_eq!(
        r.unwrap_err(),
        InteractionError {
            message: "conflict".to_string(),
            interactions: vec![vec!["Aspirin".to_string(), "Warfarin".to_string()]],
        }
    );
    assert!(queue.is_empty());
}

#[test]
fn clean_response_enqueues_one_insert() {
    let names = resolve_names(&pharmacy(), &vec![3]);
    assert_eq!(names, vec!["Ibuprofen".to_string()]);
    let response = InteractionResponse {
        message: "ok".to_string(),
        interactions: None,
    };
    let mut queue: Vec<DatabaseCommand> = Vec::new();
    let r = checkout_step(names, response, &mut queue);
    assert_eq!(r.unwrap(), true);
    assert_eq!(queue, vec![DatabaseCommand::Insert(vec!["Ibuprofen".to_string()])]);
}

#[test]
fn empty_interaction_list_still_counts_as_conflict() {
    // The branch tests only the presence of the field, not its contents.
    let response = InteractionResponse {
        message: "odd".to_string(),
        interactions: Some(Vec::new()),
    };
    let mut queue: Vec<DatabaseCommand> = Vec::new();
    let r = checkout_step(vec!["Aspirin".to_string()], response, &mut queue);
    let e = r.unwrap_err();
    assert_eq!(e.message, "odd");
    assert!(e.interactions.is_empty());
    assert!(queue.is_empty());
}
