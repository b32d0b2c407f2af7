//! The resource store: unique identifiers, replacement, and reference
//! resolution.

use c2pa::resource_store::{ResourceStore, UriOrResource};

#[test]
fn test_put_and_get_stream() {
    let mut store = ResourceStore::new();
    assert!(store.get_stream("thumbnail.jpg").is_none());

    store.put("thumbnail.jpg", vec![1, 2, 3]);
    assert_eq!(store.get_stream("thumbnail.jpg"), Some(&vec![1, 2, 3]));
    assert!(store.get_stream("other.jpg").is_none());

    // identifiers are unique: a second put replaces, never duplicates
    store.put("thumbnail.jpg", vec![9]);
    assert_eq!(store.get_stream("thumbnail.jpg"), Some(&vec![9]));
    assert_eq!(store.entries.len(), 1);

    store.put("icon.png", vec![4, 5]);
    assert_eq!(store.entries.len(), 2);
    assert_eq!(store.get_stream("icon.png"), Some(&vec![4, 5]));
}

#[test]
fn test_uri_or_resource_resolution() {
    let mut store = ResourceStore::new();
    store.put("manifest_thumbnail.jpg", vec![7, 7, 7]);

    let embedded = UriOrResource::Resource {
        identifier: "manifest_thumbnail.jpg".to_string(),
    };
    assert_eq!(embedded.resolve(&store), Some(&vec![7, 7, 7]));

    let missing = UriOrResource::Resource {
        identifier: "absent".to_string(),
    };
    assert!(missing.resolve(&store).is_none());

    // an external reference is not fetched by the core
    let external = UriOrResource::Uri {
        url: "https://example.com/asset.jpg".to_string(),
        hash: vec![0, 1],
    };
    assert!(external.resolve(&store).is_none());
}
