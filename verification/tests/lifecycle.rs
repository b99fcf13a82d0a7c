use dim_core::library::{
    cascade_delete, get_all_library, get_all_unmatched_media, get_self, library_delete,
    library_get, library_post, mark_hidden,
};
use dim_core::publisher::Publisher;
use dim_core::store::{Media, MediaFile, Store};

fn store_with(names: &[&str]) -> Store {
    let mut store = Store::new();
    let mut publisher = Publisher::new();
    for n in names {
        library_post(&mut store, &mut publisher, n.to_string());
    }
    store
}

#[test]
fn scenario_create_list_delete_observe() {
    let mut store = Store::new();
    let mut publisher = Publisher::new();
    publisher.subscribe(8);

    let id = library_post(&mut store, &mut publisher, "Movies".to_string());
    assert_eq!(id, 1);
    let listed = library_get(&store);
    assert_eq!(listed.len(), 1);
    assert_eq!(listed[0].id, 1);
    assert_eq!(listed[0].name, "Movies");
    assert!(!listed[0].hidden);
    assert_eq!(
        publisher.subscribers[0].queue[0],
        b"{\"id\":1,\"type\":\"created\"}".to_vec()
    );

    assert!(library_delete(&mut store, &mut publisher, 1).is_ok());
    assert!(library_get(&store).is_empty());
    assert_eq!(
        publisher.subscribers[0].queue[1],
        b"{\"id\":1,\"type\":\"removed\"}".to_vec()
    );

    let second = library_delete(&mut store, &mut publisher, 1);
    assert_eq!(second, Err(dim_core::CoreError::NotFound));
}

#[test]
fn mark_hidden_reports_one_then_zero() {
    let mut store = store_with(&["Shows"]);
    assert_eq!(mark_hidden(&mut store, 1), 1);
    assert_eq!(mark_hidden(&mut store, 1), 0);
    assert_eq!(mark_hidden(&mut store, 77), 0);
}

#[test]
fn hidden_resource_leaves_listings_before_cascade() {
    let mut store = store_with(&["Movies"]);
    store.media.push(Media {
        id: 10,
        library_id: 1,
        name: "Alien".to_string(),
        poster_path: None,
        episode: false,
    });
    assert_eq!(mark_hidden(&mut store, 1), 1);
    assert!(library_get(&store).is_empty());
    assert!(get_self(&store, 1).is_err());
    assert!(get_all_library(&store, 1).is_err());
    // the rows still physically exist until the worker runs
    assert_eq!(store.libraries.len(), 1);
    assert_eq!(store.media.len(), 1);
}

#[test]
fn cascade_removes_resource_and_dependents() {
    let mut store = store_with(&["Movies", "Shows"]);
    store.media.push(Media {
        id: 10,
        library_id: 1,
        name: "Alien".to_string(),
        poster_path: None,
        episode: false,
    });
    store.media.push(Media {
        id: 11,
        library_id: 2,
        name: "Lost".to_string(),
        poster_path: None,
        episode: false,
    });
    store.mediafiles.push(MediaFile {
        id: 20,
        library_id: 1,
        raw_name: "alien".to_string(),
        duration: Some(6000),
        target_file: "/data/movies/alien.mkv".to_string(),
        media_id: Some(10),
    });
    assert_eq!(mark_hidden(&mut store, 1), 1);
    cascade_delete(&mut store, 1);
    assert_eq!(store.libraries.len(), 1);
    assert_eq!(store.libraries[0].id, 2);
    assert_eq!(store.media.len(), 1);
    assert_eq!(store.media[0].library_id, 2);
    assert!(store.mediafiles.is_empty());
}

#[test]
fn listing_is_ordered_by_name() {
    let store = store_with(&["Zebra", "Alpha", "Media"]);
    let listed = library_get(&store);
    let names: Vec<&str> = listed.iter().map(|l| l.name.as_str()).collect();
    assert_eq!(names, vec!["Alpha", "Media", "Zebra"]);
}

#[test]
fn get_all_library_groups_sorted_records_under_library_name() {
    let mut store = store_with(&["Movies"]);
    for (id, name) in [(10, "Zodiac"), (11, "Alien"), (12, "Heat")] {
        store.media.push(Media {
            id,
            library_id: 1,
            name: name.to_string(),
            poster_path: None,
            episode: false,
        });
    }
    // an episode row is never listed here
    store.media.push(Media {
        id: 13,
        library_id: 1,
        name: "Pilot".to_string(),
        poster_path: None,
        episode: true,
    });
    let (name, records) = get_all_library(&store, 1).unwrap();
    assert_eq!(name, "Movies");
    let names: Vec<&str> = records.iter().map(|m| m.name.as_str()).collect();
    assert_eq!(names, vec!["Alien", "Heat", "Zodiac"]);
}

#[test]
fn unmatched_media_lists_only_unmatched_rows_of_the_library() {
    let mut store = store_with(&["Movies", "Shows"]);
    store.mediafiles.push(MediaFile {
        id: 20,
        library_id: 1,
        raw_name: "unknown1".to_string(),
        duration: None,
        target_file: "/data/movies/unknown1.mkv".to_string(),
        media_id: None,
    });
    store.mediafiles.push(MediaFile {
        id: 21,
        library_id: 1,
        raw_name: "alien".to_string(),
        duration: Some(6000),
        target_file: "/data/movies/alien.mkv".to_string(),
        media_id: Some(10),
    });
    store.mediafiles.push(MediaFile {
        id: 22,
        library_id: 2,
        raw_name: "unknown2".to_string(),
        duration: None,
        target_file: "/data/shows/unknown2.mkv".to_string(),
        media_id: None,
    });
    let unmatched = get_all_unmatched_media(&store, 1);
    assert_eq!(unmatched.len(), 1);
    assert_eq!(unmatched[0].id, 20);
}

#[test]
fn get_self_finds_only_visible_rows() {
    let mut store = store_with(&["Movies"]);
    let lib = get_self(&store, 1).unwrap();
    assert_eq!(lib.id, 1);
    assert_eq!(lib.name, "Movies");
    assert!(get_self(&store, 2).is_err());
    mark_hidden(&mut store, 1);
    assert!(get_self(&store, 1).is_err());
}
