use announcer::store::{AssetStore, StoreError};

#[test]
fn active_clip_absent_is_none() {
    let store = AssetStore::new();
    assert_eq!(store.get_active_clip(&"alice".to_string(), 1), None);
    assert!(!store.get_random_flag(&"alice".to_string(), 1));
}

#[test]
fn set_active_then_get() {
    let mut store = AssetStore::new();
    store.set_active(&"alice".to_string(), 7, &"funny".to_string());
    assert_eq!(store.get_active_clip(&"alice".to_string(), 7), Some("funny".to_string()));
    assert_eq!(store.get_active_clip(&"alice".to_string(), 8), None);
    assert_eq!(store.get_active_clip(&"bob".to_string(), 7), None);
}

#[test]
fn set_active_twice_same_as_once() {
    let name = "alice".to_string();
    let clip = "funny".to_string();
    let mut once = AssetStore::new();
    once.set_active(&name, 7, &clip);
    let mut twice = AssetStore::new();
    twice.set_active(&name, 7, &clip);
    twice.set_active(&name, 7, &clip);
    assert_eq!(once.get_active_clip(&name, 7), twice.get_active_clip(&name, 7));
    assert_eq!(once.get_random_flag(&name, 7), twice.get_random_flag(&name, 7));
}

#[test]
fn set_active_overwrites_selection_only() {
    let name = "alice".to_string();
    let mut store = AssetStore::new();
    store.set_active(&name, 7, &"first".to_string());
    store.toggle_random(&name, 7).unwrap();
    assert!(store.get_random_flag(&name, 7));
    store.set_active(&name, 7, &"second".to_string());
    assert_eq!(store.get_active_clip(&name, 7), Some("second".to_string()));
    assert!(store.get_random_flag(&name, 7), "upsert must keep the random flag");
}

#[test]
fn toggle_random_unknown_name_fails() {
    let mut store = AssetStore::new();
    let r = store.toggle_random(&"ghost".to_string(), 3);
    assert_eq!(r, Err(StoreError::UnknownName));
    assert!(!store.get_random_flag(&"ghost".to_string(), 3));
}

#[test]
fn toggle_random_flips_in_place() {
    let name = "alice".to_string();
    let mut store = AssetStore::new();
    store.set_active(&name, 7, &"funny".to_string());
    assert!(!store.get_random_flag(&name, 7));
    store.toggle_random(&name, 7).unwrap();
    assert!(store.get_random_flag(&name, 7));
    store.toggle_random(&name, 7).unwrap();
    assert!(!store.get_random_flag(&name, 7));
    assert_eq!(store.get_active_clip(&name, 7), Some("funny".to_string()));
}

#[test]
fn library_listing_keeps_order() {
    let name = "bob".to_string();
    let mut store = AssetStore::new();
    assert!(!store.has_library(&name));
    assert_eq!(store.list_clip_names(&name), None);
    store.register_clip(&name, &"one".to_string());
    store.register_clip(&name, &"two".to_string());
    store.register_clip(&name, &"three".to_string());
    assert!(store.has_library(&name));
    assert_eq!(
        store.list_clip_names(&name),
        Some(vec!["one".to_string(), "two".to_string(), "three".to_string()])
    );
}

#[test]
fn register_clip_twice_keeps_one_entry() {
    let name = "bob".to_string();
    let mut store = AssetStore::new();
    store.register_clip(&name, &"one".to_string());
    store.register_clip(&name, &"one".to_string());
    assert_eq!(store.list_clip_names(&name), Some(vec!["one".to_string()]));
}

#[test]
fn set_active_checked_requires_existing_clip() {
    let name = "alice".to_string();
    let mut store = AssetStore::new();
    let r = store.set_active_checked(&name, 7, &"funny".to_string());
    assert_eq!(r, Err(StoreError::NoSuchClip));
    assert_eq!(store.get_active_clip(&name, 7), None);
    store.register_clip(&name, &"funny".to_string());
    assert!(store.library_has_clip(&name, &"funny".to_string()));
    store.set_active_checked(&name, 7, &"funny".to_string()).unwrap();
    assert_eq!(store.get_active_clip(&name, 7), Some("funny".to_string()));
}

#[test]
fn store_error_messages() {
    assert_eq!(StoreError::UnknownName.message(), "no record exists for this name");
    assert_eq!(StoreError::NoSuchClip.message(), "no such clip in this name's library");
}

#[test]
fn display_names_enumerates_libraries() {
    let mut store = AssetStore::new();
    assert!(store.list_display_names().is_empty());
    store.register_clip(&"alice".to_string(), &"one".to_string());
    store.register_clip(&"bob".to_string(), &"two".to_string());
    store.register_clip(&"alice".to_string(), &"three".to_string());
    let mut names = store.list_display_names();
    names.sort();
    assert_eq!(names, vec!["alice".to_string(), "bob".to_string()]);
}
