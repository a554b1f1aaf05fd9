use psfsp::index::{entry_name, FileIndex};

#[test]
fn insert_keeps_names_distinct() {
    let mut idx = FileIndex::new();
    assert_eq!(idx.len(), 0);
    assert!(idx.insert(String::from("a.txt")));
    assert!(idx.insert(String::from("b.txt")));
    assert!(!idx.insert(String::from("a.txt")));
    assert_eq!(idx.len(), 2);
    assert_eq!(idx.name(0), "a.txt");
    assert_eq!(idx.name(1), "b.txt");
    assert_eq!(idx.position(&String::from("b.txt")), Some(1));
    assert_eq!(idx.position(&String::from("c.txt")), None);
    assert!(idx.contains(&String::from("a.txt")));
    assert!(!idx.contains(&String::from("A.txt")));
}

#[test]
fn entry_names_drop_the_directory() {
    assert_eq!(entry_name(b"share/notes.txt", 5), b"notes.txt".to_vec());
    assert_eq!(entry_name(b"share/", 5), Vec::<u8>::new());
    assert_eq!(entry_name(b"./x", 1), b"x".to_vec());
}
