use code_remote::cluster::Cluster;
use code_remote::toml_list::StoreError;
use code_remote::toml_list::TomlList;

#[test]
fn toml_list_test_new() {
    let list: TomlList<Cluster> = TomlList::new();
    assert_eq!(list.len(), 0);
}

#[test]
fn test_push() {
    let mut list: TomlList<Cluster> = TomlList::new();
    let cluster = Cluster::from_fields("test", "test", "test", "test");
    list.push(cluster);
    assert_eq!(list.len(), 1);
}

#[test]
fn test_get() {
    let mut list: TomlList<Cluster> = TomlList::new();
    let cluster = Cluster::from_fields("mname", "mhost", "muser", "mid");
    list.push(cluster);
    let entry = list.get(0).unwrap();
    assert_eq!(entry.name, "mname");
    assert_eq!(entry.host, "mhost");
    assert_eq!(entry.user, "muser");
    assert_eq!(entry.identity_file, "mid");
}

#[test]
fn test_get_out_of_range() {
    let list: TomlList<Cluster> = TomlList::new();
    assert_eq!(list.get(0), Err(StoreError::IndexOutOfRange));
}

#[test]
fn test_set_and_remove() {
    let mut list: TomlList<Cluster> = TomlList::new();
    list.push(Cluster::from_fields("a", "h1", "u1", "f1"));
    list.push(Cluster::from_fields("b", "h2", "u2", "f2"));
    list.set(0, Cluster::from_fields("c", "h3", "u3", "f3")).unwrap();
    assert_eq!(list.get(0).unwrap().name, "c");
    assert_eq!(
        list.set(5, Cluster::from_fields("d", "h", "u", "f")),
        Err(StoreError::IndexOutOfRange)
    );
    list.remove(0);
    assert_eq!(list.len(), 1);
    assert_eq!(list.get(0).unwrap().name, "b");
}
