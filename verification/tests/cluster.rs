use code_remote::cluster::Cluster;
use code_remote::cluster::ClusterError;

#[test]
fn cluster_test_new_cluster() {
    let cluster = Cluster::validated("test", "localhost", "root", "/tmp/id_rsa", true).unwrap();
    assert_eq!(cluster.name, "test");
    assert_eq!(cluster.host, "localhost");
    assert_eq!(cluster.user, "root");
    assert_eq!(cluster.identity_file, "/tmp/id_rsa");
}

#[test]
fn test_new_cluster_empty_name() {
    let cluster = Cluster::new("", "localhost", "root", "/tmp/id_rsa");
    assert_eq!(cluster, Err(ClusterError::EmptyName));
}

#[test]
fn test_new_cluster_empty_host() {
    let cluster = Cluster::new("test", "", "root", "/tmp/id_rsa");
    assert_eq!(cluster, Err(ClusterError::EmptyHost));
}

#[test]
fn test_new_cluster_empty_user() {
    let cluster = Cluster::new("test", "localhost", "", "/tmp/id_rsa");
    assert_eq!(cluster, Err(ClusterError::EmptyUser));
}

#[test]
fn test_new_cluster_empty_identity_file() {
    let cluster = Cluster::new("test", "localhost", "root", "");
    assert_eq!(cluster, Err(ClusterError::EmptyIdentityFile));
}

#[test]
fn test_new_cluster_none_existing_identity_file() {
    let cluster = Cluster::new("test", "localhost", "root", "this_file_does_not_exist");
    assert_eq!(cluster, Err(ClusterError::NoneExistingIdentityFile));
}

#[test]
fn test_validation_rejects_before_any_connection() {
    // an empty identity file fails validation outright, whatever the
    // host says; no connection is ever attempted for such a record
    let cluster = Cluster::new("c", "nonexistent.invalid", "user", "");
    assert_eq!(cluster, Err(ClusterError::EmptyIdentityFile));
}

#[test]
fn test_cluster_is_valid_reports_first_failing_field() {
    let c = Cluster::from_fields("", "", "", "");
    assert_eq!(c.cluster_is_valid(), Err(ClusterError::EmptyName));
    let c = Cluster::from_fields("n", "", "", "");
    assert_eq!(c.cluster_is_valid(), Err(ClusterError::EmptyHost));
    let c = Cluster::from_fields("n", "h", "", "");
    assert_eq!(c.cluster_is_valid(), Err(ClusterError::EmptyUser));
    let c = Cluster::from_fields("n", "h", "u", "");
    assert_eq!(c.cluster_is_valid(), Err(ClusterError::EmptyIdentityFile));
    let c = Cluster::from_fields("n", "h", "u", "this_file_does_not_exist");
    assert_eq!(c.cluster_is_valid(), Err(ClusterError::NoneExistingIdentityFile));
    assert!(Cluster::validated("n", "h", "u", "f", true).is_ok());
}

#[test]
fn test_new_empty_has_empty_fields() {
    let c = Cluster::new_empty();
    assert_eq!(c.name, "");
    assert_eq!(c.host, "");
    assert_eq!(c.user, "");
    assert_eq!(c.identity_file, "");
}

#[test]
fn test_format_config_entry_with_identity_file() {
    let c = Cluster::from_fields("hpc", "hpc.example.org", "me", "/home/me/.ssh/key");
    let entry = c.format_config_entry();
    assert_eq!(
        entry,
        "# code-remote: start hpc\n\
         Host cr-hpc\n\
         \x20   HostName hpc.example.org\n\
         \x20   User me\n\
         \x20   IdentityFile /home/me/.ssh/key\n\
         # code-remote: end hpc"
    );
}

#[test]
fn test_format_config_entry_without_identity_file() {
    let c = Cluster::from_fields("hpc", "hpc.example.org", "me", "");
    let entry = c.format_config_entry();
    assert_eq!(
        entry,
        "# code-remote: start hpc\n\
         Host cr-hpc\n\
         \x20   HostName hpc.example.org\n\
         \x20   User me\n\
         # code-remote: end hpc"
    );
}

#[test]
fn test_append_ssh_config_skips_present_entry() {
    let c = Cluster::from_fields("a", "h", "u", "f");
    let config = "Host x\n    HostName y\n";
    let once = c.append_ssh_config(config, "Host x");
    assert_eq!(once, config);
    let added = c.append_ssh_config(config, "Host z");
    assert_eq!(added, "Host x\n    HostName y\n\nHost z\n");
}
