use yagetopts::schema::{GetOptConfig, GetOptOption, GetOptType};

fn option(short_name: &str, long_name: &str, description: &str, kind: &str) -> GetOptOption {
    GetOptOption {
        description: String::from(description),
        long_name: String::from(long_name),
        short_name: String::from(short_name),
        get_opt_type: String::from(kind),
    }
}

fn get_config() -> GetOptConfig {
    let mut config = GetOptConfig::new();
    config.insert(String::from("port"), option("p", "port", "Port to listen on", "OPT"));
    config.insert(String::from("verbose"), option("v", "verbose", "Say more", "FLAG"));
    config
}

#[test]
fn load_config() {
    let get_opt_config = get_config();

    assert_eq!(get_opt_config.len(), 2);
    assert!(get_opt_config.contains_key(&String::from("port")));
    assert!(get_opt_config.contains_key(&String::from("verbose")));
}

#[test]
fn new_config_is_empty() {
    let config = GetOptConfig::new();
    assert_eq!(config.len(), 0);
    assert!(!config.contains_key(&String::from("port")));
    assert!(config.get(&String::from("port")).is_none());
}

#[test]
fn every_inserted_key_is_reachable() {
    let keys = ["delta", "alpha", "charlie", "bravo", "echo"];
    let mut config = GetOptConfig::new();
    for key in keys.iter() {
        let fresh = config.insert(String::from(*key), option("", key, key, "FLAG"));
        assert!(fresh);
    }
    assert_eq!(config.len(), keys.len());
    for key in keys.iter() {
        let held = config.get(&String::from(*key));
        assert_eq!(held, Some(&option("", key, key, "FLAG")));
    }
    assert!(!config.contains_key(&String::from("foxtrot")));
}

#[test]
fn entries_stand_in_ascending_key_order() {
    let mut config = GetOptConfig::new();
    for key in ["b", "ab", "", "a", "c", "abc", "B", "\u{e9}", "z"].iter() {
        config.insert(String::from(*key), option("", "name", "", "FLAG"));
    }
    let mut keys: Vec<String> = Vec::new();
    for i in 0..config.len() {
        keys.push(config.key_at(i).clone());
    }
    assert_eq!(keys, vec!["", "B", "a", "ab", "abc", "b", "c", "z", "\u{e9}"]);
    let mut sorted = keys.clone();
    sorted.sort();
    assert_eq!(keys, sorted);
}

#[test]
fn insert_under_a_held_key_replaces_the_option() {
    let mut config = get_config();
    let fresh = config.insert(String::from("port"), option("P", "listen", "Other", "FLAG"));
    assert!(!fresh);
    assert_eq!(config.len(), 2);
    assert_eq!(
        config.get(&String::from("port")),
        Some(&option("P", "listen", "Other", "FLAG"))
    );
    assert_eq!(
        config.get(&String::from("verbose")),
        Some(&option("v", "verbose", "Say more", "FLAG"))
    );
}

#[test]
fn key_and_option_at_an_index_belong_together() {
    let config = get_config();
    assert_eq!(config.key_at(0), "port");
    assert_eq!(config.option_at(0), &option("p", "port", "Port to listen on", "OPT"));
    assert_eq!(config.key_at(1), "verbose");
    assert_eq!(config.option_at(1), &option("v", "verbose", "Say more", "FLAG"));
}

#[test]
fn kind_tags_are_case_sensitive() {
    assert_eq!(GetOptType::from_tag(&String::from("OPT")), Some(GetOptType::OPT));
    assert_eq!(GetOptType::from_tag(&String::from("FLAG")), Some(GetOptType::FLAG));
    assert_eq!(GetOptType::from_tag(&String::from("opt")), None);
    assert_eq!(GetOptType::from_tag(&String::from("Flag")), None);
    assert_eq!(GetOptType::from_tag(&String::from("")), None);
    assert_eq!(GetOptType::from_tag(&String::from("FLAGS")), None);
}

#[test]
fn entries_under_different_keys_are_all_held() {
    let entries = vec![
        (String::from("verbose"), option("v", "verbose", "Say more", "FLAG")),
        (String::from("port"), option("p", "port", "Port to listen on", "OPT")),
        (String::from("host"), option("", "host", "Host name", "OPT")),
    ];
    let config = GetOptConfig::from_entries(&entries);
    assert_eq!(config.len(), 3);
    for (key, held) in entries.iter() {
        assert!(config.contains_key(key));
        assert_eq!(config.get(key), Some(held));
    }
    assert_eq!(config.key_at(0), "host");
    assert_eq!(config.key_at(1), "port");
    assert_eq!(config.key_at(2), "verbose");
}

#[test]
fn later_entry_under_the_same_key_stands() {
    let entries = vec![
        (String::from("port"), option("p", "port", "First", "OPT")),
        (String::from("port"), option("q", "quay", "Second", "FLAG")),
    ];
    let config = GetOptConfig::from_entries(&entries);
    assert_eq!(config.len(), 1);
    assert_eq!(config.get(&String::from("port")), Some(&option("q", "quay", "Second", "FLAG")));
}

#[test]
fn no_entries_give_an_empty_schema() {
    let config = GetOptConfig::from_entries(&Vec::new());
    assert_eq!(config.len(), 0);
}
