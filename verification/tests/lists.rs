use spotiamp::lists::{add_to_list, delete_list, save_list, SavedList};

fn uris(v: &[&str]) -> Vec<String> {
    v.iter().map(|s| s.to_string()).collect()
}

#[test]
fn save_creates_then_overwrites() {
    let mut lists = Vec::new();
    save_list(&mut lists, "  Road trip ".to_string(), uris(&["spotify:track:a"]));
    assert_eq!(lists, vec![SavedList { name: "Road trip".to_string(), uris: uris(&["spotify:track:a"]) }]);
    save_list(&mut lists, "Road trip".to_string(), uris(&["spotify:track:b", "spotify:track:c"]));
    assert_eq!(lists.len(), 1);
    assert_eq!(lists[0].uris, uris(&["spotify:track:b", "spotify:track:c"]));
}

#[test]
fn blank_name_is_ignored() {
    let mut lists = Vec::new();
    save_list(&mut lists, "   ".to_string(), uris(&["x"]));
    add_to_list(&mut lists, "".to_string(), "x".to_string());
    add_to_list(&mut lists, "Mix".to_string(), "".to_string());
    assert!(lists.is_empty());
}

#[test]
fn add_is_idempotent_and_creates_lists() {
    let mut lists = Vec::new();
    add_to_list(&mut lists, "Mix".to_string(), "t1".to_string());
    add_to_list(&mut lists, " Mix".to_string(), "t2".to_string());
    add_to_list(&mut lists, "Mix".to_string(), "t1".to_string());
    assert_eq!(lists, vec![SavedList { name: "Mix".to_string(), uris: uris(&["t1", "t2"]) }]);
}

#[test]
fn delete_removes_exact_name_only() {
    let mut lists = vec![
        SavedList { name: "A".to_string(), uris: uris(&["1"]) },
        SavedList { name: "B".to_string(), uris: uris(&["2"]) },
        SavedList { name: "A".to_string(), uris: uris(&["3"]) },
    ];
    delete_list(&mut lists, " B".to_string());
    assert_eq!(lists.len(), 3);
    delete_list(&mut lists, "A".to_string());
    assert_eq!(lists, vec![SavedList { name: "B".to_string(), uris: uris(&["2"]) }]);
}
