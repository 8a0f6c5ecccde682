use code_remote::cluster::Cluster;
use code_remote::entry::Entry;
use code_remote::menu::EntryMenu;
use code_remote::menu::Focus;
use code_remote::menu::InputMode;
use code_remote::menu::MenuAction;
use code_remote::menu::MenuInput;
use code_remote::names::dedup_name;
use code_remote::spawner::Spawner;

fn create_dummy_cluster_menu() -> EntryMenu<Cluster> {
    let mut menu: EntryMenu<Cluster> = EntryMenu::new();
    menu.add_entry(Cluster::from_fields(
        "levante",
        "levante.dkrz.de",
        "u301533",
        "/home/silvano/.ssh/levante_key",
    ));
    menu.add_entry(Cluster::from_fields("cluster2", "host2", "user2", "identity_file2"));
    menu
}

#[test]
fn cluster_menu_test_get_entry() {
    let mut cluster_menu = create_dummy_cluster_menu();
    let cluster = cluster_menu.get_entry().unwrap();
    assert_eq!(cluster.name, "levante");
    cluster_menu.list_counter.increment();
    let cluster = cluster_menu.get_entry().unwrap();
    assert_eq!(cluster.name, "cluster2");
}

#[test]
fn cluster_state_test_get_entry() {
    let mut cluster_state = create_dummy_cluster_menu();
    let cluster = cluster_state.get_entry().unwrap();
    assert_eq!(cluster.name, "levante");
    cluster_state.list_counter.increment();
    let cluster = cluster_state.get_entry().unwrap();
    assert_eq!(cluster.name, "cluster2");
}

#[test]
fn cluster_menu_test_is_new_entry() {
    let mut cluster_menu = create_dummy_cluster_menu();
    assert!(!cluster_menu.is_new_entry());
    cluster_menu.list_counter.increment();
    assert!(!cluster_menu.is_new_entry());
    cluster_menu.list_counter.increment();
    assert!(cluster_menu.is_new_entry());
}

#[test]
fn cluster_state_test_is_new_entry() {
    let mut cluster_state = create_dummy_cluster_menu();
    assert!(!cluster_state.is_new_entry());
    cluster_state.list_counter.increment();
    assert!(!cluster_state.is_new_entry());
    cluster_state.list_counter.increment();
    assert!(cluster_state.is_new_entry());
}

#[test]
fn spawner_menu_test_add_entry() {
    let mut spawner_menu: EntryMenu<Spawner> = EntryMenu::new();
    let spawner = <Spawner as Entry>::default_entry();
    spawner_menu.add_entry(spawner);
    assert_eq!(spawner_menu.entries.len(), 1);
}

#[test]
fn spawner_state_test_add_entry() {
    let mut spawner_state: EntryMenu<Spawner> = EntryMenu::new();
    let spawner = <Spawner as Entry>::default_entry();
    spawner_state.add_entry(spawner);
    assert_eq!(spawner_state.entries.len(), 1);
}

#[test]
fn test_next() {
    let mut cluster_state = create_dummy_cluster_menu();
    assert_eq!(cluster_state.list_counter.get_value(), 0);
    cluster_state.list_counter.increment();
    assert_eq!(cluster_state.list_counter.get_value(), 1);
    cluster_state.list_counter.increment();
    assert_eq!(cluster_state.list_counter.get_value(), 2);
    cluster_state.list_counter.increment();
    assert_eq!(cluster_state.list_counter.get_value(), 0);
}

#[test]
fn test_previous() {
    let mut cluster_state = create_dummy_cluster_menu();
    cluster_state.list_counter.decrement();
    assert_eq!(cluster_state.list_counter.get_value(), 2);
    cluster_state.list_counter.decrement();
    assert_eq!(cluster_state.list_counter.get_value(), 1);
    cluster_state.list_counter.decrement();
    assert_eq!(cluster_state.list_counter.get_value(), 0);
}

#[test]
fn test_entry_names_end_with_create_new() {
    let menu = create_dummy_cluster_menu();
    let names = menu.get_entry_names();
    assert_eq!(names, vec!["levante", "cluster2", "Create New"]);
}

#[test]
fn test_default_name_is_deduplicated() {
    // requesting a new entry's default name "a" against ["a", "b"]
    // yields "a(1)"; against ["a", "a(1)"] it yields "a(2)"
    let mut menu: EntryMenu<Cluster> = EntryMenu::new();
    menu.add_entry(Cluster::from_fields("a", "h", "u", "f"));
    menu.add_entry(Cluster::from_fields("b", "h", "u", "f"));
    menu.list_counter.increment();
    menu.list_counter.increment();
    assert!(menu.is_new_entry());
    assert_eq!(menu.check_entry_name("a"), "a(1)");

    let mut menu2: EntryMenu<Cluster> = EntryMenu::new();
    menu2.add_entry(Cluster::from_fields("a", "h", "u", "f"));
    menu2.add_entry(Cluster::from_fields("a(1)", "h", "u", "f"));
    menu2.list_counter.increment();
    menu2.list_counter.increment();
    assert!(menu2.is_new_entry());
    assert_eq!(menu2.check_entry_name("a"), "a(2)");
}

#[test]
fn test_dedup_is_idempotent_on_its_own_result() {
    let names = vec!["a".to_string(), "b".to_string()];
    let once = dedup_name(&names, "a");
    assert_eq!(once, "a(1)");
    let twice = dedup_name(&names, &once);
    assert_eq!(twice, once);
}

#[test]
fn test_empty_name_gets_default_label() {
    // an empty proposal is replaced by the default label before the
    // collision check
    let mut menu: EntryMenu<Cluster> = EntryMenu::new();
    menu.add_entry(Cluster::from_fields("a", "h", "u", "f"));
    assert_eq!(menu.check_entry_name(""), "New Entry");
    menu.set_input_buffer("");
    assert_eq!(menu.get_entry().unwrap().name, "New Entry");
}

#[test]
fn test_empty_name_default_label_is_deduplicated() {
    let mut menu: EntryMenu<Cluster> = EntryMenu::new();
    menu.add_entry(Cluster::from_fields("New Entry", "h", "u", "f"));
    menu.add_entry(Cluster::from_fields("b", "h", "u", "f"));
    menu.list_counter.increment();
    // renaming "b" to the empty string lands on the default label,
    // which collides with the first record
    menu.set_input_buffer("");
    assert_eq!(menu.get_entry().unwrap().name, "New Entry(1)");
}

#[test]
fn test_own_name_is_not_a_collision() {
    // committing the selected record's unchanged name keeps it as is
    let menu = create_dummy_cluster_menu();
    assert_eq!(menu.check_entry_name("levante"), "levante");
    // but another record's name collides
    assert_eq!(menu.check_entry_name("cluster2"), "cluster2(1)");
}

#[test]
fn test_add_new_entry_names() {
    let mut menu: EntryMenu<Cluster> = EntryMenu::new();
    menu.add_new_entry();
    assert_eq!(menu.get_entry().unwrap().name, "New Entry");
    menu.list_counter.increment();
    assert!(menu.is_new_entry());
    menu.add_new_entry();
    menu.list_counter.increment();
    let names = menu.get_entry_names();
    assert_eq!(names, vec!["New Entry", "New Entry(1)", "Create New"]);
}

#[test]
fn three_records() {
    // removing at the selection leaves it on the logical successor,
    // and on the synthetic slot once the list runs out
    let mut menu: EntryMenu<Cluster> = EntryMenu::new();
    menu.add_entry(Cluster::from_fields("one", "h", "u", "f"));
    menu.add_entry(Cluster::from_fields("two", "h", "u", "f"));
    menu.add_entry(Cluster::from_fields("three", "h", "u", "f"));
    menu.list_counter.increment();
    assert_eq!(menu.get_entry().unwrap().name, "two");
    menu.remove_selected();
    assert_eq!(menu.list_counter.get_value(), 1);
    assert_eq!(menu.get_entry().unwrap().name, "three");
    menu.remove_selected();
    assert_eq!(menu.list_counter.get_value(), 1);
    assert!(menu.is_new_entry());
    menu.list_counter.decrement();
    assert_eq!(menu.get_entry().unwrap().name, "one");
    menu.remove_selected();
    assert!(menu.is_new_entry());
}

#[test]
fn test_commit_to_name_field_deduplicates() {
    let mut menu: EntryMenu<Cluster> = EntryMenu::new();
    menu.add_entry(Cluster::from_fields("a", "h", "u", "f"));
    menu.add_entry(Cluster::from_fields("b", "h", "u", "f"));
    // rename record "a" to "b": collides, becomes "b(1)"
    menu.set_input_buffer("b");
    assert_eq!(menu.get_entry().unwrap().name, "b(1)");
}

#[test]
fn test_commit_to_other_field_is_verbatim() {
    let mut menu: EntryMenu<Cluster> = EntryMenu::new();
    menu.add_entry(Cluster::from_fields("a", "h", "u", "f"));
    menu.info_counter.increment();
    menu.set_input_buffer("b");
    let entry = menu.get_entry().unwrap();
    assert_eq!(entry.name, "a");
    assert_eq!(entry.host, "b");
}

#[test]
fn test_get_input_buffer_reads_selected_field() {
    let mut menu = create_dummy_cluster_menu();
    assert_eq!(menu.get_input_buffer(), "levante");
    menu.info_counter.increment();
    assert_eq!(menu.get_input_buffer(), "levante.dkrz.de");
}

#[test]
fn test_enter_on_synthetic_slot_creates_and_edits() {
    let mut menu: EntryMenu<Cluster> = EntryMenu::new();
    assert!(menu.is_new_entry());
    let action = menu.input(MenuInput::Enter, "");
    assert_eq!(action, MenuAction::Persist);
    assert_eq!(menu.entries.len(), 1);
    assert_eq!(menu.focus, Focus::Info);
    assert_eq!(menu.input_mode, InputMode::Editing);
    assert_eq!(menu.get_entry().unwrap().name, "New Entry");
}

#[test]
fn test_remove_mode_flow() {
    let mut menu = create_dummy_cluster_menu();
    let action = menu.input(MenuInput::Delete, "");
    assert_eq!(action, MenuAction::Stay);
    assert_eq!(menu.input_mode, InputMode::Remove);
    // declining leaves the list alone
    menu.input(MenuInput::Decline, "");
    assert_eq!(menu.input_mode, InputMode::Normal);
    assert_eq!(menu.entries.len(), 2);
    // confirming removes the selected record
    menu.input(MenuInput::Delete, "");
    let action = menu.input(MenuInput::Confirm, "");
    assert_eq!(action, MenuAction::Persist);
    assert_eq!(menu.entries.len(), 1);
    assert_eq!(menu.focus, Focus::List);
    assert_eq!(menu.input_mode, InputMode::Normal);
}

#[test]
fn test_editing_flow_commits_buffer() {
    let mut menu = create_dummy_cluster_menu();
    menu.input(MenuInput::ToggleFocus, "");
    assert_eq!(menu.focus, Focus::Info);
    menu.input(MenuInput::Down, "");
    let action = menu.input(MenuInput::Edit, "");
    assert_eq!(action, MenuAction::Stay);
    assert_eq!(menu.input_mode, InputMode::Editing);
    let action = menu.input(MenuInput::Enter, "levante.example.org");
    assert_eq!(action, MenuAction::Persist);
    assert_eq!(menu.input_mode, InputMode::Normal);
    assert_eq!(menu.get_entry().unwrap().host, "levante.example.org");
}

#[test]
fn test_toggle_focus_is_noop_on_synthetic_slot() {
    let mut menu: EntryMenu<Cluster> = EntryMenu::new();
    assert!(menu.is_new_entry());
    menu.input(MenuInput::ToggleFocus, "");
    assert_eq!(menu.focus, Focus::List);
}

#[test]
fn test_right_activates_only_real_records() {
    let mut menu = create_dummy_cluster_menu();
    assert_eq!(menu.input(MenuInput::Right, ""), MenuAction::Activate);
    menu.list_counter.increment();
    menu.list_counter.increment();
    assert!(menu.is_new_entry());
    assert_eq!(menu.input(MenuInput::Right, ""), MenuAction::Stay);
}

#[test]
fn test_quit_and_back() {
    let mut menu = create_dummy_cluster_menu();
    assert_eq!(menu.input(MenuInput::Quit, ""), MenuAction::Quit);
    assert_eq!(menu.input(MenuInput::Left, ""), MenuAction::Back);
    menu.input(MenuInput::ToggleFocus, "");
    assert_eq!(menu.input(MenuInput::Left, ""), MenuAction::Stay);
}
