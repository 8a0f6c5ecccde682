use code_remote::cluster::Cluster;
use code_remote::spawner::Spawner;
use code_remote::sshconfig::count_start_markers;
use code_remote::sshconfig::upsert_config_block;

#[test]
fn test_publish_twice_keeps_one_block_with_second_values() {
    // publishing a route block for preset "p1" twice in a row leaves
    // exactly one "p1" block, with the second publish's values winning
    let cluster = Cluster::from_fields("hpc", "hpc.example.org", "me", "/home/me/.ssh/key");
    let spawner = Spawner::new("p1", "", "", "01:00:00", "", "");
    let config = "Host other\n    HostName elsewhere\n";

    let once = spawner.add_cluster_to_ssh_config(config, "node001", &cluster);
    assert_eq!(count_start_markers(&once, "p1"), 1);

    let twice = spawner.add_cluster_to_ssh_config(&once, "node002", &cluster);
    assert_eq!(count_start_markers(&twice, "p1"), 1);
    assert!(twice.contains("HostName node002"));
    assert!(!twice.contains("HostName node001"));

    // the double publish leaves the file exactly as one publish of the
    // second block would
    let direct = spawner.add_cluster_to_ssh_config(config, "node002", &cluster);
    assert_eq!(twice, direct);
}

#[test]
fn test_republish_over_an_already_published_config() {
    // the re-run case: the config already holds a published block
    let cluster = Cluster::from_fields("hpc", "hpc.example.org", "me", "");
    let spawner = Spawner::new("p1", "", "", "", "", "");
    let config = "Host other\n    HostName elsewhere\n";
    let first = spawner.add_cluster_to_ssh_config(config, "node001", &cluster);
    let second = spawner.add_cluster_to_ssh_config(&first, "node002", &cluster);
    let third = spawner.add_cluster_to_ssh_config(&second, "node003", &cluster);
    assert_eq!(count_start_markers(&third, "p1"), 1);
    let direct = spawner.add_cluster_to_ssh_config(config, "node003", &cluster);
    assert_eq!(third, direct);
}

#[test]
fn test_publish_preserves_unrelated_content() {
    let cluster = Cluster::from_fields("hpc", "hpc.example.org", "me", "");
    let config = "Host other\n    HostName elsewhere\n";
    let published = cluster.add_cluster_to_ssh_config(config);
    assert!(published.starts_with("Host other\n    HostName elsewhere\n"));
    assert!(published.contains("# code-remote: start hpc\n"));
    assert!(published.contains("Host cr-hpc\n"));
    assert!(published.ends_with("# code-remote: end hpc\n"));
}

#[test]
fn test_publish_into_empty_config() {
    let cluster = Cluster::from_fields("hpc", "h", "me", "");
    let published = cluster.add_cluster_to_ssh_config("");
    assert_eq!(
        published,
        "\n# code-remote: start hpc\n\
         Host cr-hpc\n\
         \x20   HostName h\n\
         \x20   User me\n\
         # code-remote: end hpc\n"
    );
}

#[test]
fn test_upsert_removes_only_matching_blocks() {
    let config = "\
# code-remote: start a
Host cr-a
# code-remote: end a
# code-remote: start b
Host cr-b
# code-remote: end b
";
    let replaced = upsert_config_block(config, "a", "# code-remote: start a\nHost cr-a2\n# code-remote: end a");
    assert_eq!(count_start_markers(&replaced, "a"), 1);
    assert_eq!(count_start_markers(&replaced, "b"), 1);
    assert!(replaced.contains("Host cr-a2"));
    assert!(!replaced.contains("Host cr-a\n"));
    assert!(replaced.contains("Host cr-b"));
}

#[test]
fn test_spawner_block_contains_jump_route() {
    let cluster = Cluster::from_fields("hpc", "hpc.example.org", "me", "/home/me/.ssh/key");
    let spawner = Spawner::new("p1", "", "", "", "", "");
    let entry = spawner.format_config_entry("node017", &cluster);
    assert_eq!(
        entry,
        "# code-remote: start p1\n\
         Host cr-p1\n\
         \x20   HostName node017\n\
         \x20   User me\n\
         \x20   IdentityFile /home/me/.ssh/key\n\
         \x20   ProxyJump cr-hpc\n\
         # code-remote: end p1"
    );
}

#[test]
fn test_spawner_block_without_identity_file() {
    let cluster = Cluster::from_fields("hpc", "hpc.example.org", "me", "");
    let spawner = Spawner::new("p1", "", "", "", "", "");
    let entry = spawner.format_config_entry("node017", &cluster);
    assert!(!entry.contains("IdentityFile"));
    assert!(entry.contains("    ProxyJump cr-hpc\n"));
}
