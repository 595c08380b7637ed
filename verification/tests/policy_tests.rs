use atlas_engine::{
    BulkSlotPlan, Canvas, Error, REGEN_INTERVAL_SECS, RESPONSE_MAX_SIZE, RegenDecision,
    RegenTrigger, Tile, TileAction, TileFetch, bulk_slot_step, encode_bulk_slot, tile_action,
    upload_invalidates,
};

#[test]
fn bulk_missing_thumbnail_yields_nil_and_keeps_the_counter() {
    let (plan, counter) = bulk_slot_step(1234, RESPONSE_MAX_SIZE, None);
    assert!(matches!(plan, BulkSlotPlan::EmitNil));
    assert_eq!(counter, 1234);
    // The emitted slot is a nil, not an error.
    assert_eq!(encode_bulk_slot(None), vec![0xC0]);
}

#[test]
fn bulk_found_thumbnail_advances_the_counter() {
    let (plan, counter) = bulk_slot_step(100, RESPONSE_MAX_SIZE, Some(4096));
    match plan {
        BulkSlotPlan::EmitBlob(size) => assert_eq!(size, 4096),
        _ => panic!("a found thumbnail is streamed"),
    }
    assert_eq!(counter, 100 + 4096);
}

#[test]
fn bulk_crossing_the_ceiling_aborts_payload_too_large() {
    let over = RESPONSE_MAX_SIZE + 1;
    let (plan, counter) = bulk_slot_step(over, RESPONSE_MAX_SIZE, Some(10));
    match plan {
        BulkSlotPlan::Abort(Error::PayloadTooLarge(n)) => assert_eq!(n, over),
        _ => panic!("a counter past the ceiling aborts the stream"),
    }
    assert_eq!(counter, over);
}

#[test]
fn stale_cache_serves_and_regenerates_detached() {
    // last update 20 minutes ago, file present: serve the stale file now,
    // regenerate in the background.
    let t = RegenTrigger { last_update: 10_000 };
    let now = 10_000 + 20 * 60;
    assert!(now - t.last_update > REGEN_INTERVAL_SECS);
    assert!(matches!(t.decide(true, now), RegenDecision::ServeStaleAndRegen));
}

#[test]
fn cold_cache_blocks_and_fresh_cache_serves() {
    let t = RegenTrigger { last_update: 10_000 };
    assert!(matches!(t.decide(false, 10_000 + 20 * 60), RegenDecision::BuildBlocking));
    assert!(matches!(t.decide(true, 10_000 + 60), RegenDecision::ServeFresh));

    let mut t = t;
    t.mark_regenerated(99_000);
    assert_eq!(t.last_update, 99_000);
}

#[test]
fn uploads_invalidate_finalized_collections_only() {
    assert!(upload_invalidates(true));
    assert!(!upload_invalidates(false));
}

#[test]
fn tile_decisions() {
    assert!(matches!(tile_action(TileFetch::Missing), TileAction::Skip));
    assert!(matches!(tile_action(TileFetch::FormatError), TileAction::Skip));
    let decoded = TileFetch::Decoded(Tile { width: 1, height: 1, pixels: vec![1, 2, 3, 4] });
    assert!(matches!(tile_action(decoded), TileAction::Copy(_)));
    let io = TileFetch::IoError(String::from("disk gone"));
    match tile_action(io) {
        TileAction::Abort(Error::Internal(_)) => {},
        _ => panic!("a structural failure aborts the composite"),
    }
}

#[test]
fn copy_tile_places_pixels_and_leaves_the_rest() {
    let mut canvas = Canvas::new(4, 3);
    assert_eq!(canvas.pixels.len(), 4 * 4 * 3);
    assert!(canvas.pixels.iter().all(|b| *b == 0));

    let tile = Tile { width: 2, height: 2, pixels: (1..=16).collect() };
    canvas.copy_tile(&tile, 1, 1);

    // Pixel (1,1) holds the tile's first pixel, (2,2) its last.
    let at = |x: usize, y: usize| 4 * (y * 4 + x);
    assert_eq!(&canvas.pixels[at(1, 1)..at(1, 1) + 4], &[1, 2, 3, 4]);
    assert_eq!(&canvas.pixels[at(2, 1)..at(2, 1) + 4], &[5, 6, 7, 8]);
    assert_eq!(&canvas.pixels[at(1, 2)..at(1, 2) + 4], &[9, 10, 11, 12]);
    assert_eq!(&canvas.pixels[at(2, 2)..at(2, 2) + 4], &[13, 14, 15, 16]);
    // Everything outside the rectangle is still transparent.
    assert_eq!(&canvas.pixels[at(0, 0)..at(0, 0) + 4], &[0, 0, 0, 0]);
    assert_eq!(&canvas.pixels[at(3, 2)..at(3, 2) + 4], &[0, 0, 0, 0]);
}

#[test]
fn oversized_tile_is_clipped_not_dropped() {
    // A 2x2 tile with only 1x1 of room keeps its top-left pixel.
    let tile = Tile { width: 2, height: 2, pixels: (1..=16).collect() };
    let clipped = tile.crop(1, 1);
    assert_eq!((clipped.width, clipped.height), (1, 1));
    assert_eq!(clipped.pixels, vec![1, 2, 3, 4]);

    // A tile already inside the bounds is untouched.
    let same = tile.crop(5, 5);
    assert_eq!((same.width, same.height), (2, 2));
    assert_eq!(same.pixels, tile.pixels);

    let mut canvas = Canvas::new(2, 2);
    let clipped = tile.crop(2 - 1, 2 - 1);
    canvas.copy_tile(&clipped, 1, 1);
    let at = |x: usize, y: usize| 4 * (y * 2 + x);
    assert_eq!(&canvas.pixels[at(1, 1)..at(1, 1) + 4], &[1, 2, 3, 4]);
    assert_eq!(&canvas.pixels[at(0, 0)..at(0, 0) + 4], &[0, 0, 0, 0]);
}
