use navigator::metadata::{
    extract_artifact_id_name, extract_artifact_type, extract_crate_layer, extract_file_extension,
    extract_role,
};

#[test]
fn extension_cases() {
    assert_eq!(extract_file_extension("main.rs"), Some("rs".to_string()));
    assert_eq!(extract_file_extension("archive.tar.gz"), Some("gz".to_string()));
    assert_eq!(extract_file_extension("Makefile"), None);
    assert_eq!(extract_file_extension("trailing."), None);
    assert_eq!(extract_file_extension(".gitignore"), Some("gitignore".to_string()));
    assert_eq!(extract_file_extension(""), None);
}

#[test]
fn crate_layer_cases() {
    assert_eq!(extract_crate_layer("crates/backend/src/main.rs"), Some("backend".to_string()));
    assert_eq!(extract_crate_layer("CRATES/Frontend/lib.rs"), Some("frontend".to_string()));
    assert_eq!(extract_crate_layer("crates\\contracts\\mod.rs"), Some("contracts".to_string()));
    // case folding is the full Unicode mapping, not only ASCII
    assert_eq!(extract_crate_layer("crates/bac\u{212A}end"), Some("backend".to_string()));
    assert_eq!(extract_crate_layer("src/main.rs"), None);
}

#[test]
fn artifact_type_cases() {
    assert_eq!(extract_artifact_type("src/domain/n001_project/model.rs"), Some("domain".to_string()));
    assert_eq!(extract_artifact_type("src/usecases/s501_scan/mod.rs"), Some("usecase".to_string()));
    assert_eq!(extract_artifact_type("src/shared/db.rs"), Some("shared".to_string()));
    assert_eq!(extract_artifact_type("src/main.rs"), None);
    // the marker is case-sensitive and needs both slashes
    assert_eq!(extract_artifact_type("src/Domain/x.rs"), None);
    assert_eq!(extract_artifact_type("domain"), None);
}

#[test]
fn artifact_identity_cases() {
    let (id, name) = extract_artifact_id_name("src/domain/n001_project/model.rs");
    assert_eq!(id, Some("n001_".to_string()));
    assert_eq!(name, Some("project".to_string()));

    let (id, name) = extract_artifact_id_name("src/usecases/s501_create_snapshot/mod.rs");
    assert_eq!(id, Some("s501_".to_string()));
    assert_eq!(name, Some("create_snapshot".to_string()));

    // the first qualifying segment wins
    let (id, _) = extract_artifact_id_name("a9_x/b7_y");
    assert_eq!(id, Some("a9_".to_string()));

    // a letter run longer than one qualifies too
    let (id, name) = extract_artifact_id_name("src/ab1_x/file.rs");
    assert_eq!(id, Some("ab1_".to_string()));
    assert_eq!(name, Some("x".to_string()));
    let (id, name) = extract_artifact_id_name("crates/abc123_doc");
    assert_eq!(id, Some("abc123_".to_string()));
    assert_eq!(name, Some("doc".to_string()));

    // the digits must run unbroken from the letters to the underscore
    let (id, name) = extract_artifact_id_name("a1b2_x");
    assert_eq!(id, None);
    assert_eq!(name, None);

    // an underscore without the letter-digit prefix does not qualify
    let (id, name) = extract_artifact_id_name("src/some_dir/file.rs");
    assert_eq!(id, None);
    assert_eq!(name, None);

    let (id, name) = extract_artifact_id_name("plain/path/file.rs");
    assert_eq!(id, None);
    assert_eq!(name, None);
}

#[test]
fn role_cases() {
    // directories never get a role
    assert_eq!(extract_role("src/domain/n001_project/ui", "ui", true), None);
    // a `ui` segment wins over the base name
    assert_eq!(
        extract_role("src/domain/n001_project/ui/list/mod.rs", "mod.rs", false),
        Some("ui".to_string())
    );
    assert_eq!(extract_role("src/domain/n001_project/model.rs", "model.rs", false), Some("model".to_string()));
    assert_eq!(
        extract_role("src/domain/n001_project/repository.rs", "repository.rs", false),
        Some("repository".to_string())
    );
    assert_eq!(extract_role("src/x/service.rs", "service.rs", false), Some("service".to_string()));
    assert_eq!(extract_role("src/x/other.rs", "other.rs", false), None);
}
