use music_download::music::{diff_hashmap, index_by_id, Music, MusicMap};

fn song(id: &str, name: &str) -> Music {
    Music {
        id: id.to_string(),
        name: name.to_string(),
        pic_url: String::new(),
        singer: String::new(),
        album: String::new(),
        donw_url: String::new(),
        file_type: String::new(),
    }
}

fn table(items: &[(&str, &str)]) -> MusicMap {
    let mut m = MusicMap::new();
    for (id, name) in items {
        m.insert(id.to_string(), song(id, name));
    }
    m
}

#[test]
fn music_map_insert_get_and_replace() {
    let mut m = MusicMap::new();
    assert!(m.is_empty());
    m.insert("1".to_string(), song("1", "a"));
    m.insert("2".to_string(), song("2", "b"));
    assert_eq!(m.len(), 2);
    assert!(m.contains_key("1"));
    assert!(!m.contains_key("3"));
    assert_eq!(m.get("2").unwrap().name, "b");
    m.insert("1".to_string(), song("1", "c"));
    assert_eq!(m.len(), 2);
    assert_eq!(m.get("1").unwrap().name, "c");
    assert_eq!(m.keys(), vec!["1".to_string(), "2".to_string()]);
    let names: Vec<String> = m.values().into_iter().map(|x| x.name).collect();
    assert_eq!(names, vec!["c".to_string(), "b".to_string()]);
}

#[test]
fn diff_hashmap_keeps_keys_of_exactly_one_side() {
    let a = table(&[("1", "a1"), ("2", "a2"), ("3", "a3")]);
    let b = table(&[("2", "b2"), ("4", "b4")]);
    let d = diff_hashmap(&a, &b);
    assert_eq!(d.len(), 3);
    assert_eq!(d.get("1").unwrap().name, "a1");
    assert_eq!(d.get("3").unwrap().name, "a3");
    assert_eq!(d.get("4").unwrap().name, "b4");
    assert!(!d.contains_key("2"));
}

#[test]
fn diff_hashmap_is_symmetric() {
    let a = table(&[("1", "a1"), ("2", "a2")]);
    let b = table(&[("2", "b2"), ("3", "b3")]);
    let ab = diff_hashmap(&a, &b);
    let ba = diff_hashmap(&b, &a);
    assert_eq!(ab.len(), ba.len());
    for k in ab.keys() {
        assert_eq!(ab.get(&k), ba.get(&k));
    }
}

#[test]
fn diff_hashmap_of_a_table_with_itself_is_empty() {
    let a = table(&[("1", "a1"), ("2", "a2")]);
    assert!(diff_hashmap(&a, &a).is_empty());
    let empty = MusicMap::new();
    let d = diff_hashmap(&a, &empty);
    assert_eq!(d.keys(), a.keys());
}

#[test]
fn diff_hashmap_gives_songs_still_to_download() {
    let all = table(&[("1", "a"), ("2", "b"), ("3", "c")]);
    let done = table(&[("2", "b")]);
    let left = diff_hashmap(&all, &done);
    assert_eq!(left.keys(), vec!["1".to_string(), "3".to_string()]);
}

#[test]
fn index_by_id_keeps_the_last_song_of_an_id() {
    let m = index_by_id(vec![song("1", "x"), song("2", "y"), song("1", "z")]);
    assert_eq!(m.len(), 2);
    assert_eq!(m.get("1").unwrap().name, "z");
    assert_eq!(m.get("2").unwrap().name, "y");
    assert_eq!(m.keys(), vec!["1".to_string(), "2".to_string()]);
}

#[test]
fn duplicate_copies_every_field() {
    let a = Music {
        id: "9".into(),
        name: "n".into(),
        pic_url: "p".into(),
        singer: "s".into(),
        album: "al".into(),
        donw_url: "u".into(),
        file_type: "mp3".into(),
    };
    assert_eq!(a.duplicate(), a);
    let p = Music::placeholder();
    assert_eq!(p, song("", ""));
}
