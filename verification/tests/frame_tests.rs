use tangerine::frame::{FrameBuilder, FrameError};
use tangerine::layer::{LayerIdentifier, LayerTable};

#[test]
fn layers_order_before_sprites() {
    // Requests [(sprite 5, layer 2), (sprite 1, layer 1), (sprite 2, layer 1)]:
    // layer 1 paints first, and inside it sprite 1 before sprite 2.
    let table = LayerTable::new();
    let mut frame: FrameBuilder<u32> = FrameBuilder::new();
    frame.submit_sprite(5, Some(LayerIdentifier::Ordinal(2)), 50);
    frame.submit_sprite(1, Some(LayerIdentifier::Ordinal(1)), 10);
    frame.submit_sprite(2, Some(LayerIdentifier::Ordinal(1)), 20);
    let plan = frame.finalize(&table, 6).unwrap();
    let sprites: Vec<usize> = plan.ordered.iter().map(|e| e.sprite).collect();
    assert_eq!(sprites, vec![1, 2, 5]);
    let payloads: Vec<u32> = plan.ordered.iter().map(|e| e.instance).collect();
    assert_eq!(payloads, vec![10, 20, 50]);
    assert_eq!(plan.sources, vec![1, 2, 0]);
    assert_eq!(plan.runs.len(), 3);
}

#[test]
fn same_sprite_requests_batch_into_one_run() {
    let table = LayerTable::new();
    let mut frame: FrameBuilder<u32> = FrameBuilder::new();
    frame.submit_sprite(3, None, 1);
    frame.submit_sprite(7, None, 2);
    frame.submit_sprite(3, None, 3);
    let plan = frame.finalize(&table, 8).unwrap();
    let sprites: Vec<usize> = plan.ordered.iter().map(|e| e.sprite).collect();
    assert_eq!(sprites, vec![3, 3, 7]);
    assert_eq!(plan.runs.len(), 2);
    assert_eq!((plan.runs[0].sprite, plan.runs[0].first, plan.runs[0].count), (3, 0, 2));
    assert_eq!((plan.runs[1].sprite, plan.runs[1].first, plan.runs[1].count), (7, 2, 1));
}

#[test]
fn equal_keys_keep_submission_order() {
    let table = LayerTable::new();
    let mut frame: FrameBuilder<&'static str> = FrameBuilder::new();
    frame.submit_sprite(4, None, "first");
    frame.submit_sprite(4, None, "second");
    frame.submit_sprite(4, None, "third");
    let plan = frame.finalize(&table, 5).unwrap();
    let payloads: Vec<&str> = plan.ordered.iter().map(|e| e.instance).collect();
    assert_eq!(payloads, vec!["first", "second", "third"]);
    assert_eq!(plan.runs.len(), 1);
    assert_eq!(plan.runs[0].count, 3);
}

#[test]
fn unregistered_name_orders_as_layer_zero() {
    let mut table = LayerTable::new();
    table.set_layer(String::from("fg"), 5);
    let mut frame: FrameBuilder<u32> = FrameBuilder::new();
    frame.submit_sprite(9, Some(LayerIdentifier::Named(String::from("fg"))), 0);
    frame.submit_sprite(2, Some(LayerIdentifier::Named(String::from("missing"))), 0);
    frame.submit_sprite(1, Some(LayerIdentifier::Ordinal(0)), 0);
    frame.submit_sprite(0, None, 0);
    let plan = frame.finalize(&table, 10).unwrap();
    // The unregistered name lands with the explicit zeros; "fg" paints last.
    let sprites: Vec<usize> = plan.ordered.iter().map(|e| e.sprite).collect();
    assert_eq!(sprites, vec![0, 1, 2, 9]);
}

#[test]
fn negative_layers_paint_first() {
    let mut table = LayerTable::new();
    table.set_layer(String::from("bg"), -4);
    let mut frame: FrameBuilder<u32> = FrameBuilder::new();
    frame.submit_sprite(1, None, 0);
    frame.submit_sprite(6, Some(LayerIdentifier::Named(String::from("bg"))), 0);
    let plan = frame.finalize(&table, 7).unwrap();
    let sprites: Vec<usize> = plan.ordered.iter().map(|e| e.sprite).collect();
    assert_eq!(sprites, vec![6, 1]);
}

#[test]
fn stale_sprite_index_fails_the_frame() {
    let table = LayerTable::new();
    let mut frame: FrameBuilder<u32> = FrameBuilder::new();
    frame.submit_sprite(1, None, 0);
    frame.submit_sprite(9, None, 0);
    let e = frame.finalize(&table, 3).unwrap_err();
    assert_eq!(e, FrameError::InvalidSpriteIndex(9));
}

#[test]
fn empty_frame_has_no_runs() {
    let table = LayerTable::new();
    let mut frame: FrameBuilder<u32> = FrameBuilder::new();
    let plan = frame.finalize(&table, 0).unwrap();
    assert_eq!(plan.ordered.len(), 0);
    assert_eq!(plan.runs.len(), 0);
}

#[test]
fn layer_table_lookup() {
    let mut table = LayerTable::new();
    table.set_layer(String::from("hud"), 12);
    table.set_layer(String::from("hud"), 3);
    assert_eq!(table.lookup("hud"), Some(3));
    assert_eq!(table.lookup("other"), None);
    assert_eq!(table.resolve_ordinal(&Some(LayerIdentifier::Named(String::from("hud")))), 3);
    assert_eq!(table.resolve_ordinal(&Some(LayerIdentifier::Named(String::from("other")))), 0);
    assert_eq!(table.resolve_ordinal(&Some(LayerIdentifier::Ordinal(-7))), -7);
    assert_eq!(table.resolve_ordinal(&None), 0);
}
