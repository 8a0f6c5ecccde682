use code_remote::cluster::ConnectionError;
use code_remote::cluster::SessionType;
use code_remote::provision::format_remote_uri;
use code_remote::provision::format_status_query;
use code_remote::provision::parse_node_name;
use code_remote::provision::resolve_working_directory;
use code_remote::provision::ProvisionPhase;
use code_remote::provision::ProvisionStep;
use code_remote::provision::Provisioner;
use code_remote::session::classify_connection_failure;
use code_remote::session::format_error_message;
use code_remote::session::needs_private_key;
use code_remote::session::needs_secret;
use code_remote::session::should_retry_with_passphrase;
use code_remote::spawner::Spawner;

#[test]
fn test_get_spawn_command_full() {
    let spawner = Spawner::new("p1", "acct", "gpu", "01:00:00", "/work", "--exclusive");
    assert_eq!(
        spawner.get_spawn_command(),
        "salloc --job-name=p1 -A acct -p gpu -t 01:00:00 --exclusive --no-shell; exit"
    );
}

#[test]
fn test_get_spawn_command_skips_empty_fields() {
    let spawner = Spawner::new("p1", "", "", "", "", "");
    assert_eq!(spawner.get_spawn_command(), "salloc --job-name=p1 --no-shell; exit");
    let spawner = Spawner::new("", "", "", "", "", "");
    assert_eq!(spawner.get_spawn_command(), "salloc --no-shell; exit");
}

#[test]
fn test_format_status_query() {
    assert_eq!(format_status_query("p1"), "squeue -u $USER --name p1");
}

#[test]
fn test_classify_connection_failure() {
    assert_eq!(classify_connection_failure(true), ConnectionError::WrongHost);
    assert_eq!(
        classify_connection_failure(false),
        ConnectionError::WrongUserOrIdentityFile
    );
}

#[test]
fn test_parse_node_name() {
    assert_eq!(parse_node_name(""), None);
    assert_eq!(parse_node_name("   \n"), None);
    assert_eq!(parse_node_name("node001\n"), Some("node001".to_string()));
    assert_eq!(parse_node_name("  node001  \nsecond line\n"), Some("node001".to_string()));
}

#[test]
fn test_resolve_working_directory() {
    assert_eq!(resolve_working_directory("/work", "/home/me\n"), "/work");
    assert_eq!(resolve_working_directory("", "/home/me\n"), "/home/me");
}

#[test]
fn test_format_remote_uri() {
    assert_eq!(
        format_remote_uri("p1", "/home/me"),
        "vscode-remote://ssh-remote+cr-p1//home/me"
    );
}

#[test]
fn test_empty_discovery_submits_exactly_once() {
    // an empty first discovery triggers one submission; the re-query
    // then publishes the node the scheduler assigned
    let mut p = Provisioner::new();
    assert_eq!(p.phase, ProvisionPhase::FirstQuery);
    let step = p.on_query_result(None);
    assert_eq!(step, ProvisionStep::RunSubmit);
    let step = p.on_submit_done();
    assert_eq!(step, ProvisionStep::RunQuery);
    let step = p.on_query_result(Some("node001".to_string()));
    assert_eq!(step, ProvisionStep::Publish("node001".to_string()));
    assert_eq!(p.phase, ProvisionPhase::Finished);
}

#[test]
fn test_existing_allocation_is_reused_without_submission() {
    let mut p = Provisioner::new();
    let step = p.on_query_result(Some("node002".to_string()));
    assert_eq!(step, ProvisionStep::Publish("node002".to_string()));
    assert_eq!(p.phase, ProvisionPhase::Finished);
}

#[test]
fn test_no_node_after_submission_fails() {
    let mut p = Provisioner::new();
    p.on_query_result(None);
    p.on_submit_done();
    let step = p.on_query_result(None);
    assert_eq!(step, ProvisionStep::Fail);
    assert_eq!(p.phase, ProvisionPhase::Finished);
}

#[test]
fn test_needs_private_key() {
    assert!(needs_private_key(&SessionType::IdentityFile));
    assert!(needs_private_key(&SessionType::Passphrase));
    assert!(!needs_private_key(&SessionType::Password));
}

#[test]
fn test_needs_secret() {
    assert!(!needs_secret(&SessionType::IdentityFile));
    assert!(needs_secret(&SessionType::Passphrase));
    assert!(needs_secret(&SessionType::Password));
}

#[test]
fn test_format_error_message_hints() {
    assert_eq!(
        format_error_message("failed to lookup address information: x"),
        "Error: failed to lookup address information: Name or service not known.\nPlease check the hostname!"
    );
    assert_eq!(
        format_error_message("Connection refused (os error 111)"),
        "Error: Connection refused.\nPlease check if the SSH port is open!"
    );
    assert_eq!(
        format_error_message("Username/PublicKey rejected"),
        "Error: Username/PublicKey combination invalid.\nPlease check both entries!"
    );
    assert_eq!(
        format_error_message("File not found"),
        "Error: Identity file not found.\nPlease check if the file path exists!"
    );
    assert_eq!(format_error_message("something else"), "Error: something else");
}

#[test]
fn test_retry_with_passphrase_only_for_identity_file() {
    assert!(should_retry_with_passphrase(
        "Error: keyfile auth failed",
        &SessionType::IdentityFile
    ));
    assert!(!should_retry_with_passphrase(
        "Error: keyfile auth failed",
        &SessionType::Passphrase
    ));
    assert!(!should_retry_with_passphrase(
        "Error: keyfile auth failed",
        &SessionType::Password
    ));
    assert!(!should_retry_with_passphrase(
        "Error: wrong password",
        &SessionType::IdentityFile
    ));
}
