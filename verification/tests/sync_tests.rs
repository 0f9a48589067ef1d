use cargo_backup::Package;
use cargo_backup::codec::serialize_packages;
use cargo_backup::sync::{
    Config, File, Gist, Method, SyncError, plan_pull, plan_push, after_push, extract_backup,
};
use cargo_backup::version::Version;

fn pkg(name: &str, v: (u64, u64, u64)) -> Package {
    Package {
        name: name.to_string(),
        features: vec![],
        all_features: false,
        no_default_features: false,
        version: Version::release(v.0, v.1, v.2),
    }
}

fn backup_gist(content: Option<String>) -> Gist {
    Gist {
        id: "g1".to_string(),
        files: vec![File {
            filename: "backup.json".to_string(),
            raw_url: None,
            content,
        }],
        public: false,
    }
}

#[test]
fn pull_requires_a_credential() {
    let cfg = Config { gist_id: Some("g1".to_string()) };
    assert_eq!(plan_pull(&None, &cfg).unwrap_err(), SyncError::NotAuthenticated);
}

#[test]
fn pull_requires_a_document_id() {
    let cfg = Config { gist_id: None };
    let auth = Some("tok".to_string());
    assert_eq!(plan_pull(&auth, &cfg).unwrap_err(), SyncError::NotConfigured);
}

#[test]
fn pull_reads_the_configured_document() {
    let cfg = Config { gist_id: Some("g1".to_string()) };
    let auth = Some("tok".to_string());
    let req = plan_pull(&auth, &cfg).unwrap();
    assert_eq!(req.method, Method::Get);
    assert_eq!(req.url, "https://api.github.com/gists/g1");
    assert_eq!(req.auth_header, "token tok");
    assert!(req.body.is_none());
}

#[test]
fn push_requires_a_credential() {
    let cfg = Config { gist_id: None };
    let ps = vec![pkg("a", (1, 0, 0))];
    assert_eq!(plan_push(&None, &cfg, &ps).unwrap_err(), SyncError::NotAuthenticated);
}

#[test]
fn first_push_creates_a_document() {
    let cfg = Config { gist_id: None };
    let auth = Some("tok".to_string());
    let ps = vec![pkg("a", (1, 0, 0))];
    let req = plan_push(&auth, &cfg, &ps).unwrap();
    assert_eq!(req.method, Method::Post);
    assert_eq!(req.url, "https://api.github.com/gists");
    assert_eq!(req.auth_header, "token tok");
    let body = req.body.unwrap();
    assert_eq!(
        body,
        "{\"description\":\"Cargo package backup\",\"public\":false,\"files\":\
         {\"backup.json\":{\"content\":\"[{\\\"name\\\":\\\"a\\\",\\\"features\\\":[],\
         \\\"all_features\\\":false,\\\"no_default_features\\\":false,\
         \\\"version\\\":\\\"1.0.0\\\"}]\"}}}"
    );
}

#[test]
fn later_pushes_patch_the_same_document() {
    let cfg = Config { gist_id: Some("g1".to_string()) };
    let auth = Some("tok".to_string());
    let ps = vec![pkg("a", (1, 0, 0))];
    let req = plan_push(&auth, &cfg, &ps).unwrap();
    assert_eq!(req.method, Method::Patch);
    assert_eq!(req.url, "https://api.github.com/gists/g1");
}

#[test]
fn first_push_success_attaches_the_new_id() {
    let cfg = Config { gist_id: None };
    let (cfg2, persist) = after_push(&cfg, 201, &Some("fresh".to_string())).unwrap();
    assert_eq!(cfg2.gist_id, Some("fresh".to_string()));
    assert!(persist);
}

#[test]
fn update_push_success_keeps_the_id() {
    let cfg = Config { gist_id: Some("g1".to_string()) };
    let (cfg2, persist) = after_push(&cfg, 200, &None).unwrap();
    assert_eq!(cfg2.gist_id, Some("g1".to_string()));
    assert!(!persist);
}

#[test]
fn failed_push_is_a_remote_error() {
    let cfg = Config { gist_id: None };
    assert_eq!(
        after_push(&cfg, 404, &Some("id".to_string())).unwrap_err(),
        SyncError::RemoteError
    );
}

#[test]
fn create_without_an_id_in_the_answer_is_a_remote_error() {
    let cfg = Config { gist_id: None };
    assert_eq!(after_push(&cfg, 201, &None).unwrap_err(), SyncError::RemoteError);
}

#[test]
fn push_then_pull_returns_the_pushed_set() {
    let ps = vec![pkg("a", (1, 2, 3)), pkg("b", (0, 1, 0))];
    // what a push writes into the document ...
    let content = serialize_packages(&ps);
    // ... a pull of that document reads back, equal.
    let gist = backup_gist(Some(content));
    let back = extract_backup(&gist).unwrap();
    assert_eq!(back, ps);
}

#[test]
fn extract_needs_the_backup_file() {
    let gist = Gist { id: "g1".to_string(), files: vec![], public: false };
    assert_eq!(extract_backup(&gist).unwrap_err(), SyncError::RemoteError);
}

#[test]
fn extract_needs_content() {
    let gist = backup_gist(None);
    assert_eq!(extract_backup(&gist).unwrap_err(), SyncError::RemoteError);
}

#[test]
fn extract_rejects_malformed_content() {
    let gist = backup_gist(Some("not a backup".to_string()));
    assert_eq!(extract_backup(&gist).unwrap_err(), SyncError::RemoteError);
}

#[test]
fn extract_uses_the_first_backup_file() {
    let ps = vec![pkg("real", (1, 0, 0))];
    let gist = Gist {
        id: "g1".to_string(),
        files: vec![
            File { filename: "notes.txt".to_string(), raw_url: None, content: None },
            File {
                filename: "backup.json".to_string(),
                raw_url: None,
                content: Some(serialize_packages(&ps)),
            },
        ],
        public: false,
    };
    assert_eq!(extract_backup(&gist).unwrap(), ps);
}

#[test]
fn error_messages_name_the_failure() {
    assert_eq!(SyncError::NotAuthenticated.message(), "not logged in");
    assert_eq!(SyncError::NotConfigured.message(), "remote document id not set");
    assert_eq!(SyncError::RemoteError.message(), "remote request failed");
    assert_eq!(SyncError::AuthDenied.message(), "access denied");
    assert_eq!(SyncError::AuthExpired.message(), "login session expired");
    assert_eq!(SyncError::AuthFailed.message(), "login failed");
    assert_eq!(SyncError::LocalIOError.message(), "local file error");
    assert_eq!(SyncError::PackageManagerError.message(), "package manager invocation failed");
}

#[test]
fn config_defaults_to_no_document() {
    let cfg = Config::default();
    assert!(cfg.gist_id.is_none());
    assert_eq!(Config::get_name(), "github");
    let cfg2 = cfg.set_id("abc".to_string());
    assert_eq!(cfg2.gist_id, Some("abc".to_string()));
}

#[test]
fn pull_status_rule_matches_push() {
    assert!(cargo_backup::sync::after_pull(200).is_ok());
    assert!(cargo_backup::sync::after_pull(204).is_ok());
    assert_eq!(cargo_backup::sync::after_pull(404).unwrap_err(), SyncError::RemoteError);
    assert_eq!(cargo_backup::sync::after_pull(500).unwrap_err(), SyncError::RemoteError);
}
