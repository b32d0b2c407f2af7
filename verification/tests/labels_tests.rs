//! Label registry behavior: version suffix parsing, version application,
//! and thumbnail format labels.

use c2pa::labels;

#[test]
fn version_of_unsuffixed_labels_is_none() {
    assert_eq!(labels::version("c2pa.ingredient"), None);
    assert_eq!(labels::version("c2pa.actions"), None);
    assert_eq!(labels::version("c2pa.thumbnail.claim.jpeg"), None);
    assert_eq!(labels::version("x"), None);
    assert_eq!(labels::version(""), None);
}

#[test]
fn version_of_suffixed_labels() {
    assert_eq!(labels::version("c2pa.ingredient.v2"), Some(2));
    assert_eq!(labels::version("c2pa.actions.v2"), Some(2));
    assert_eq!(labels::version("x.v10"), Some(10));
    assert_eq!(labels::version("x.v999"), Some(999));
}

#[test]
fn malformed_suffixes_never_parse_as_versions() {
    assert_eq!(labels::version("x.v2a"), None);
    assert_eq!(labels::version("x.V2"), None);
    assert_eq!(labels::version("x.v-2"), None);
    assert_eq!(labels::version("c2pa.ingredient.V2"), None);
    assert_eq!(labels::version("c2pa.ingredient.x2"), None);
    assert_eq!(labels::version("c2pa.ingredient.v-2"), None);
    assert_eq!(labels::version("x.v"), None);
    assert_eq!(labels::version("x.v+2"), None);
    // too large for usize
    assert_eq!(labels::version("x.v99999999999999999999999999"), None);
}

#[test]
fn set_version_one_is_identity() {
    assert_eq!(labels::set_version("c2pa.ingredient", 1), "c2pa.ingredient");
    assert_eq!(labels::set_version("c2pa.actions", 1), "c2pa.actions");
}

#[test]
fn set_version_suffixes_and_parses_back() {
    assert_eq!(labels::set_version("c2pa.ingredient", 2), "c2pa.ingredient.v2");
    assert_eq!(labels::set_version("c2pa.actions", 3), "c2pa.actions.v3");
    assert_eq!(labels::version(&labels::set_version("c2pa.actions", 2)), Some(2));
    assert_eq!(labels::version(&labels::set_version("a.b.c", 17)), Some(17));
}

#[test]
fn thumbnail_format_known_types() {
    assert_eq!(
        labels::add_thumbnail_format(labels::CLAIM_THUMBNAIL, "image/jpeg"),
        labels::JPEG_CLAIM_THUMBNAIL
    );
    assert_eq!(
        labels::add_thumbnail_format(labels::INGREDIENT_THUMBNAIL, "image/png"),
        labels::PNG_INGREDIENT_THUMBNAIL
    );
    assert_eq!(
        labels::add_thumbnail_format(labels::CLAIM_THUMBNAIL, "jpg"),
        labels::JPEG_CLAIM_THUMBNAIL
    );
    assert_eq!(
        labels::add_thumbnail_format(labels::CLAIM_THUMBNAIL, "jpeg"),
        labels::JPEG_CLAIM_THUMBNAIL
    );
    assert_eq!(
        labels::add_thumbnail_format(labels::INGREDIENT_THUMBNAIL, "png"),
        labels::PNG_INGREDIENT_THUMBNAIL
    );
    assert_eq!(
        labels::add_thumbnail_format(labels::CLAIM_THUMBNAIL, "image/svg+xml"),
        labels::SVG_CLAIM_THUMBNAIL
    );
    assert_eq!(
        labels::add_thumbnail_format(labels::INGREDIENT_THUMBNAIL, "svg"),
        labels::SVG_INGREDIENT_THUMBNAIL
    );
}

#[test]
fn thumbnail_format_other_types() {
    assert_eq!(
        labels::add_thumbnail_format("c2pa.thumbnail.claim", "image/webp"),
        "c2pa.thumbnail.claim/webp"
    );
    assert_eq!(
        labels::add_thumbnail_format("c2pa.thumbnail.claim", "application/pdf"),
        "c2pa.thumbnail.claim/application/pdf"
    );
    assert_eq!(
        labels::add_thumbnail_format("c2pa.thumbnail.claim", "image/a/b"),
        "c2pa.thumbnail.claim/image/a/b"
    );
    assert_eq!(labels::add_thumbnail_format("c2pa.thumbnail.claim", "webp"), "c2pa.thumbnail.claim/webp");
}

#[test]
fn standard_label_constants() {
    assert_eq!(labels::ACTIONS, "c2pa.actions");
    assert_eq!(labels::INGREDIENT, "c2pa.ingredient");
    assert_eq!(labels::CLAIM, "c2pa.claim");
    assert_eq!(labels::DATA_HASH, "c2pa.hash.data");
    assert_eq!(labels::TIMESTAMP, "c2pa.time-stamp");
    assert_eq!(labels::ASSET_REFERENCE, "c2pa.asset-ref");
}
