use opz::cache::{
    cache_file_name, github_repository_index_cache_file_name, is_cache_file_name, is_cache_fresh,
    item_list_cache_dir_from_env, CacheEnv, CachePlatform,
};
use opz::ids::{free_id, stable_hex_hash, stable_id};

fn env_with(set: impl FnOnce(&mut CacheEnv)) -> CacheEnv {
    let mut env = CacheEnv::unset();
    set(&mut env);
    env
}

fn some(value: &str) -> Option<String> {
    Some(value.to_string())
}

#[test]
fn test_cache_file_path_with_vault() {
    let name1 = cache_file_name(Some("my-vault"));
    let name2 = cache_file_name(Some("other-vault"));

    assert_ne!(name1, name2);

    assert!(name1.ends_with(".json"));
    assert!(name2.ends_with(".json"));

    assert!(name1.starts_with("item_list_"));
}

#[test]
fn test_cache_file_path_without_vault() {
    let name = cache_file_name(None);

    assert!(name.ends_with(".json"));
    assert!(name.starts_with("item_list_"));
}

#[test]
fn test_cache_file_path_deterministic() {
    let name1 = cache_file_name(Some("test-vault"));
    let name2 = cache_file_name(Some("test-vault"));
    assert_eq!(name1, name2);

    let name3 = cache_file_name(None);
    let name4 = cache_file_name(None);
    assert_eq!(name3, name4);
}

#[test]
fn test_stable_hex_hash_has_fixed_values() {
    assert_eq!(stable_hex_hash(""), "cbf29ce484222325");
    assert_eq!(stable_hex_hash("_all_"), "3e0d70f177ee4766");
    assert_eq!(stable_hex_hash("test-vault"), "18e1186c195d50bc");
    assert_eq!(
        stable_hex_hash("github_repositories:_all_"),
        "63aa79d753dde420"
    );
}

#[test]
fn cache_files_are_named_by_the_hash() {
    assert_eq!(cache_file_name(None), "item_list_3e0d70f177ee4766.json");
    assert_eq!(
        github_repository_index_cache_file_name(None),
        "github_repository_index_63aa79d753dde420.json"
    );
    assert!(is_cache_file_name("item_list_3e0d70f177ee4766.json"));
    assert!(is_cache_file_name("github_repository_index_x.json"));
    assert!(!is_cache_file_name("item_list_x.txt"));
    assert!(!is_cache_file_name("other.json"));
}

#[test]
fn caches_are_fresh_for_a_minute() {
    assert!(is_cache_fresh(0));
    assert!(is_cache_fresh(59));
    assert!(!is_cache_fresh(60));
}

#[test]
fn test_item_list_cache_dir_prefers_xdg_cache_home() {
    let dir = item_list_cache_dir_from_env(
        CachePlatform::Other,
        &env_with(|env| {
            env.xdg_cache_home = some("/tmp/xdg-cache");
            env.home = some("/home/user");
        }),
    )
    .unwrap();

    assert_eq!(dir.base, "/tmp/xdg-cache");
    assert_eq!(dir.below, ["opz"]);
}

#[test]
fn test_item_list_cache_dir_uses_macos_cache_path() {
    let dir = item_list_cache_dir_from_env(
        CachePlatform::Macos,
        &env_with(|env| env.home = some("/Users/alice")),
    )
    .unwrap();

    assert_eq!(dir.base, "/Users/alice");
    assert_eq!(dir.below, ["Library", "Caches", "dev.opz.opz"]);
}

#[test]
fn test_item_list_cache_dir_uses_linux_home_cache_path() {
    let dir = item_list_cache_dir_from_env(
        CachePlatform::Other,
        &env_with(|env| env.home = some("/home/alice")),
    )
    .unwrap();

    assert_eq!(dir.base, "/home/alice");
    assert_eq!(dir.below, [".cache", "opz"]);
}

#[test]
fn test_item_list_cache_dir_uses_windows_local_app_data() {
    let dir = item_list_cache_dir_from_env(
        CachePlatform::Windows,
        &env_with(|env| {
            env.local_app_data = some(r"C:\Users\alice\AppData\Local");
            env.app_data = some(r"C:\Users\alice\AppData\Roaming");
            env.user_profile = some(r"C:\Users\alice");
        }),
    )
    .unwrap();

    assert_eq!(dir.base, r"C:\Users\alice\AppData\Local");
    assert_eq!(dir.below, ["opz"]);
}

#[test]
fn test_item_list_cache_dir_uses_windows_app_data_fallback() {
    let dir = item_list_cache_dir_from_env(
        CachePlatform::Windows,
        &env_with(|env| {
            env.app_data = some(r"C:\Users\alice\AppData\Roaming");
            env.user_profile = some(r"C:\Users\alice");
        }),
    )
    .unwrap();

    assert_eq!(dir.base, r"C:\Users\alice\AppData\Roaming");
    assert_eq!(dir.below, ["opz"]);
}

#[test]
fn test_item_list_cache_dir_uses_windows_userprofile_fallback() {
    let dir = item_list_cache_dir_from_env(
        CachePlatform::Windows,
        &env_with(|env| env.user_profile = some(r"C:\Users\alice")),
    )
    .unwrap();

    assert_eq!(dir.base, r"C:\Users\alice");
    assert_eq!(dir.below, ["AppData", "Local", "opz"]);
}

#[test]
fn test_item_list_cache_dir_errors_without_home_like_env() {
    let err =
        item_list_cache_dir_from_env(CachePlatform::Other, &CacheEnv::unset()).unwrap_err();
    assert_eq!(err.to_string(), "no cache dir");
}

#[test]
fn non_ascii_labels_receive_stable_nonempty_ids() {
    let first = stable_id("本番", "field");
    let second = stable_id("本番", "field");
    assert_eq!(first, second);
    assert!(first.starts_with("field_"));
    assert_ne!(first, stable_id("監査", "field"));
}

#[test]
fn labels_become_identifiers() {
    assert_eq!(stable_id("Production", "field"), "production");
    assert_eq!(stable_id("API Token!", "field"), "api_token");
}

#[test]
fn taken_identifiers_are_passed_over() {
    let used = vec![Some("a".to_string()), None, Some("a_2".to_string())];
    assert_eq!(free_id(&used, "a"), "a_3");
    assert_eq!(free_id(&used, "b"), "b");
}
