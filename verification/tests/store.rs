use code_remote::cluster::Cluster;
use code_remote::spawner::Spawner;
use code_remote::store::decode_cluster_list;
use code_remote::store::decode_spawner_list;
use code_remote::store::encode_cluster_list;
use code_remote::store::encode_spawner_list;
use code_remote::toml_list::StoreError;
use code_remote::toml_list::TomlList;

#[test]
fn test_encode_cluster_list_text() {
    let mut list: TomlList<Cluster> = TomlList::new();
    list.push(Cluster::from_fields("mname", "mhost", "muser", "mid"));
    let text = encode_cluster_list(&list);
    assert_eq!(
        text,
        "[[entry]]\n\
         name = \"mname\"\n\
         host = \"mhost\"\n\
         user = \"muser\"\n\
         identity_file = \"mid\"\n"
    );
}

#[test]
fn test_cluster_store_round_trip() {
    let mut list: TomlList<Cluster> = TomlList::new();
    list.push(Cluster::from_fields("mname", "mhost", "muser", "mid"));
    list.push(Cluster::from_fields("other", "example.org", "me", "/home/me/.ssh/key"));
    let text = encode_cluster_list(&list);
    let loaded = decode_cluster_list(&text).unwrap();
    assert_eq!(loaded.len(), 2);
    let entry = loaded.get(0).unwrap();
    assert_eq!(entry.name, "mname");
    assert_eq!(entry.host, "mhost");
    assert_eq!(entry.user, "muser");
    assert_eq!(entry.identity_file, "mid");
    let entry = loaded.get(1).unwrap();
    assert_eq!(entry.name, "other");
    assert_eq!(entry.host, "example.org");
}

#[test]
fn test_round_trip_escapes_awkward_values() {
    // quotes, backslashes and line breaks in fields survive the store
    let mut list: TomlList<Cluster> = TomlList::new();
    list.push(Cluster::from_fields(
        "we\"ird",
        "h\\ost",
        "line\nbreak",
        "tab\there",
    ));
    let text = encode_cluster_list(&list);
    let loaded = decode_cluster_list(&text).unwrap();
    let entry = loaded.get(0).unwrap();
    assert_eq!(entry.name, "we\"ird");
    assert_eq!(entry.host, "h\\ost");
    assert_eq!(entry.user, "line\nbreak");
    assert_eq!(entry.identity_file, "tab\there");
}

#[test]
fn test_spawner_store_round_trip() {
    let mut list: TomlList<Spawner> = TomlList::new();
    list.push(Spawner::new("p1", "acct", "gpu", "01:00:00", "/work", "--exclusive"));
    let text = encode_spawner_list(&list);
    let loaded = decode_spawner_list(&text).unwrap();
    assert_eq!(loaded.len(), 1);
    let entry = loaded.get(0).unwrap();
    assert_eq!(entry.preset_name, "p1");
    assert_eq!(entry.account, "acct");
    assert_eq!(entry.partition, "gpu");
    assert_eq!(entry.time, "01:00:00");
    assert_eq!(entry.working_directory, "/work");
    assert_eq!(entry.other_options, "--exclusive");
}

#[test]
fn test_empty_store_is_empty_list() {
    let loaded = decode_cluster_list("").unwrap();
    assert_eq!(loaded.len(), 0);
}

#[test]
fn test_corrupt_store_is_rejected() {
    assert_eq!(decode_cluster_list("not a list"), Err(StoreError::CorruptStore));
    assert_eq!(
        decode_cluster_list("[[entry]]\nname = \"unterminated"),
        Err(StoreError::CorruptStore)
    );
    assert_eq!(
        decode_cluster_list("[[entry]]\nwrong_key = \"x\"\n"),
        Err(StoreError::CorruptStore)
    );
}
