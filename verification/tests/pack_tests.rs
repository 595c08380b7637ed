use atlas_engine::{
    AtlasMapping, Image, ImageMetadata, gen_atlas, pack_dynamic, pack_rows, plan_static_atlas,
    shrink_to_area_budget, shrink_to_icon_bound, total_area,
};

fn square(id: u128, side: u32) -> Image {
    Image {
        id,
        collection_id: 7,
        width: side,
        height: side,
        metadata: ImageMetadata { palette: None, date_time: None, name: None },
    }
}

fn rect(id: u128, w: u32, h: u32) -> Image {
    Image {
        id,
        collection_id: 7,
        width: w,
        height: h,
        metadata: ImageMetadata { palette: None, date_time: None, name: None },
    }
}

fn overlap(a: &AtlasMapping, b: &AtlasMapping) -> bool {
    (a.x as u64) < (b.x as u64 + b.width as u64) && (b.x as u64) < (a.x as u64 + a.width as u64)
        && (a.y as u64) < (b.y as u64 + b.height as u64)
        && (b.y as u64) < (a.y as u64 + a.height as u64)
}

#[test]
fn golden_four_squares() {
    // Heights [40,30,20,10], icon bound 100x100, area budget 3000:
    // 40*40+30*30+20*20+10*10 == 3000 exactly, so no downscale happens, and
    // the row width target is floor(sqrt(3000)) == 54.
    let records = vec![square(1, 40), square(2, 30), square(3, 20), square(4, 10)];
    let (work, pages) = pack_dynamic(records, 100, 100, 3000, 4000).unwrap();

    assert_eq!(work.len(), 4);
    assert_eq!(work[0].height, 40);
    assert_eq!(work[3].height, 10);
    assert_eq!(pages.len(), 1);

    let mapping = &pages[0].mapping;
    assert_eq!(mapping.len(), 4);
    // Row 1: the 40-square alone (40 + 30 == 70 is not under 54).
    assert_eq!((mapping[0].id, mapping[0].x, mapping[0].y), (1, 0, 0));
    // Row 2: the 30- and 20-squares (30 + 20 == 50 is under 54).
    assert_eq!((mapping[1].id, mapping[1].x, mapping[1].y), (2, 0, 40));
    assert_eq!((mapping[2].id, mapping[2].x, mapping[2].y), (3, 30, 40));
    // Row 3: the 10-square.
    assert_eq!((mapping[3].id, mapping[3].x, mapping[3].y), (4, 0, 70));
    assert_eq!((pages[0].width, pages[0].height), (54, 80));
}

#[test]
fn row_width_is_the_clamped_square_root() {
    // Total area 3000: the target is floor(sqrt(3000)) == 54, clamped to
    // the side budget when that is smaller.
    let records = vec![square(1, 40), square(2, 30), square(3, 20), square(4, 10)];
    let (_, row_width, _, _) = pack_rows(&records, 0, 4000);
    assert_eq!(row_width, 54);
    let (_, row_width, _, _) = pack_rows(&records, 0, 20);
    assert_eq!(row_width, 20);
}

#[test]
fn no_two_placements_overlap() {
    let records = vec![
        rect(1, 33, 21),
        rect(2, 14, 21),
        rect(3, 50, 17),
        rect(4, 8, 17),
        rect(5, 19, 12),
        rect(6, 7, 9),
        rect(7, 24, 5),
    ];
    let (mapping, (w, h)) = gen_atlas(&records, 0, 60);
    assert!(h <= 60);
    for i in 0..mapping.len() {
        assert!(mapping[i].x + mapping[i].width <= w);
        assert!(mapping[i].y + mapping[i].height <= h);
        for j in 0..mapping.len() {
            if i != j {
                assert!(!overlap(&mapping[i], &mapping[j]));
            }
        }
    }
}

#[test]
fn canvas_height_is_sum_of_row_heights() {
    let records = vec![rect(1, 20, 30), rect(2, 20, 30), rect(3, 20, 10), rect(4, 20, 10)];
    let (rows, _row_width, canvas_w, canvas_h) = pack_rows(&records, 0, 1000);
    let mut sum = 0u32;
    for r in rows.iter() {
        sum += r.height;
        assert!(r.width <= canvas_w);
    }
    assert_eq!(canvas_h, sum);
}

#[test]
fn oversized_first_record_widens_canvas() {
    // A record wider than the nominal row width is still placed, growing
    // the canvas width to fit it.
    let records = vec![rect(1, 300, 10), rect(2, 5, 10)];
    let (mapping, (w, _h)) = gen_atlas(&records, 0, 1000);
    assert_eq!(mapping[0].x, 0);
    assert_eq!(mapping[0].width, 300);
    assert!(w >= 300);
}

#[test]
fn paging_splits_when_height_budget_hits() {
    let records = vec![rect(1, 10, 10), rect(2, 10, 10), rect(3, 10, 10)];
    let (sorted, pages) = plan_static_atlas(records).unwrap();
    assert_eq!(sorted.len(), 3);
    assert_eq!(pages.len(), 1);

    // With a tiny side budget the dynamic path spreads rows over pages.
    let records = vec![rect(1, 10, 10), rect(2, 10, 10), rect(3, 10, 10)];
    let (_, pages) = pack_dynamic(records, 100, 100, 10000, 10).unwrap();
    let total: usize = pages.iter().map(|p| p.mapping.len()).sum();
    assert_eq!(total, 3);
    assert!(pages.len() >= 2);
    for p in pages.iter() {
        assert!(p.height <= 10);
    }
}

#[test]
fn icon_bound_halving_terminates_and_is_exact() {
    // 1000x500 against a 100x100 bound: four halvings, an exact
    // power-of-two fraction of the input.
    assert_eq!(shrink_to_icon_bound(1000, 500, 100, 100), (62, 31));
    assert_eq!((1000 / 16, 500 / 16), (62, 31));
    // Already fitting: untouched.
    assert_eq!(shrink_to_icon_bound(80, 60, 100, 100), (80, 60));
    // A zero bound drives both sides to zero.
    assert_eq!(shrink_to_icon_bound(7, 7, 0, 0), (0, 0));
}

#[test]
fn area_budget_halving_stops_at_first_fit() {
    let mut records = vec![square(1, 40), square(2, 30), square(3, 20), square(4, 10)];
    // Total area is exactly 3000: the budget fits, nothing moves.
    shrink_to_area_budget(&mut records, 3000);
    assert_eq!(records[0].width, 40);
    assert_eq!(total_area(&records), 3000);

    // One under: a single lock-step halving quarters (or better) the area.
    let mut records = vec![square(1, 40), square(2, 30), square(3, 20), square(4, 10)];
    shrink_to_area_budget(&mut records, 2999);
    let dims: Vec<(u32, u32)> = records.iter().map(|m| (m.width, m.height)).collect();
    assert_eq!(dims, vec![(20, 20), (15, 15), (10, 10), (5, 5)]);
    assert_eq!(total_area(&records), 750);
}

#[test]
fn degenerate_area_budget_is_a_bad_request() {
    let records = vec![square(1, 40)];
    let err = pack_dynamic(records, 100, 100, 1, 4000).unwrap_err();
    assert!(err.is_bad_request());
}

#[test]
fn too_tall_record_is_a_bad_request() {
    let records = vec![rect(1, 10, 5000)];
    let err = plan_static_atlas(records).unwrap_err();
    assert!(err.is_bad_request());
}
