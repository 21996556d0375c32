use bevy_spicy_data::text_sync::{AssetEvent, BoundText, TextAsset, UiDataText};

fn bound(handle: u64, sections: &[&str]) -> BoundText {
    BoundText {
        binding: UiDataText { handle },
        sections: sections.iter().map(|s| s.to_string()).collect(),
    }
}

fn assets() -> Vec<TextAsset> {
    vec![
        TextAsset { handle: 1, text: "Hello".to_string() },
        TextAsset { handle: 2, text: "World".to_string() },
    ]
}

#[test]
fn modified_asset_reaches_its_consumers() {
    let mut targets = vec![bound(1, &["old", "keep"]), bound(2, &["two"]), bound(1, &["x"])];
    UiDataText::keep_in_sync(&vec![AssetEvent::Modified(1)], &assets(), &mut targets);
    assert_eq!(targets, vec![bound(1, &["Hello", "keep"]), bound(2, &["two"]), bound(1, &["Hello"])]);
}

#[test]
fn created_asset_reaches_its_consumers() {
    let mut targets = vec![bound(2, &["?"])];
    UiDataText::keep_in_sync(&vec![AssetEvent::Created(2)], &assets(), &mut targets);
    assert_eq!(targets, vec![bound(2, &["World"])]);
}

#[test]
fn removed_or_unknown_assets_change_nothing() {
    let mut targets = vec![bound(1, &["a"]), bound(3, &["b"])];
    UiDataText::keep_in_sync(
        &vec![AssetEvent::Removed(1), AssetEvent::Modified(3)],
        &assets(),
        &mut targets,
    );
    assert_eq!(targets, vec![bound(1, &["a"]), bound(3, &["b"])]);
}

#[test]
fn consumer_without_sections_is_skipped() {
    let mut targets = vec![bound(1, &[])];
    UiDataText::keep_in_sync(&vec![AssetEvent::Modified(1)], &assets(), &mut targets);
    assert_eq!(targets, vec![bound(1, &[])]);
}

#[test]
fn newly_bound_consumers_get_current_text() {
    let mut targets = vec![bound(2, &["", "tail"]), bound(9, &["none"])];
    UiDataText::when_inserted(&assets(), &mut targets);
    assert_eq!(targets, vec![bound(2, &["World", "tail"]), bound(9, &["none"])]);
}
