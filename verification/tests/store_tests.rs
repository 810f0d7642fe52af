//! The favourites store: add, distinct read, remove.

use image_favourites::store::FavouritesStore;

fn paths(store: &FavouritesStore) -> Vec<String> {
    store.get_favourites()
}

#[test]
fn added_paths_are_listed() {
    let mut store = FavouritesStore::new();
    store.add_favourite("/pics/a.png".to_string());
    store.add_favourite("/pics/b.jpg".to_string());
    let listed = paths(&store);
    assert!(listed.contains(&"/pics/a.png".to_string()));
    assert!(listed.contains(&"/pics/b.jpg".to_string()));
    assert_eq!(listed.len(), 2);
}

#[test]
fn duplicate_adds_are_listed_once() {
    let mut store = FavouritesStore::new();
    store.add_favourite("/pics/a.png".to_string());
    store.add_favourite("/pics/a.png".to_string());
    store.add_favourite("/pics/b.jpg".to_string());
    store.add_favourite("/pics/a.png".to_string());
    let listed = paths(&store);
    assert_eq!(listed, vec!["/pics/a.png".to_string(), "/pics/b.jpg".to_string()]);
}

#[test]
fn listing_keeps_first_insertion_order() {
    let mut store = FavouritesStore::new();
    store.add_favourite("/z".to_string());
    store.add_favourite("/a".to_string());
    store.add_favourite("/m".to_string());
    store.add_favourite("/a".to_string());
    let listed = paths(&store);
    assert_eq!(listed, vec!["/z".to_string(), "/a".to_string(), "/m".to_string()]);
}

#[test]
fn removed_paths_are_not_listed() {
    let mut store = FavouritesStore::new();
    store.add_favourite("/pics/a.png".to_string());
    store.add_favourite("/pics/b.jpg".to_string());
    store.add_favourite("/pics/a.png".to_string());
    store.remove_favourite(&"/pics/a.png".to_string());
    let listed = paths(&store);
    assert_eq!(listed, vec!["/pics/b.jpg".to_string()]);
}

#[test]
fn removing_an_absent_path_changes_nothing() {
    let mut store = FavouritesStore::new();
    store.add_favourite("/pics/a.png".to_string());
    store.remove_favourite(&"/pics/missing.png".to_string());
    let listed = paths(&store);
    assert_eq!(listed, vec!["/pics/a.png".to_string()]);
}

#[test]
fn removing_from_an_empty_store_succeeds() {
    let mut store = FavouritesStore::new();
    store.remove_favourite(&"/anything".to_string());
    assert!(paths(&store).is_empty());
}

#[test]
fn a_path_can_be_added_back_after_removal() {
    let mut store = FavouritesStore::new();
    store.add_favourite("/p".to_string());
    store.remove_favourite(&"/p".to_string());
    store.add_favourite("/p".to_string());
    assert_eq!(paths(&store), vec!["/p".to_string()]);
}
