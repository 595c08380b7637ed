use atlas_engine::{
    Anchor, CompareDist, CompareFunctionVariants, CosScore, DateTimeDist,
    DistanceFunctionVariants,
    ExpansionGridOptions, Filter, GridDistanceFunction, Image, ImageMetadata, Layout,
    LayoutOptions, LayoutRequest, PaletteCosDist, PaletteDist, RawPoint, SCALE, Score,
    SortOptions, TimeHistOptions, TimeHistResolution, TsneOptions, apply_filter,
    civil_from_days, create_expansion_grid, do_layout, normalize_embedding, time_hist,
    time_key_of, Rank,
};
use chrono::Datelike;

fn with_ts(id: u128, ts: i64) -> Image {
    Image {
        id,
        collection_id: 1,
        width: 10,
        height: 10,
        metadata: ImageMetadata { palette: None, date_time: Some(ts), name: None },
    }
}

fn with_palette(id: u128, palette: Vec<(u8, u8, u8)>) -> Image {
    Image {
        id,
        collection_id: 1,
        width: 10,
        height: 10,
        metadata: ImageMetadata { palette: Some(palette), date_time: None, name: None },
    }
}

fn bare(id: u128) -> Image {
    Image {
        id,
        collection_id: 1,
        width: 10,
        height: 10,
        metadata: ImageMetadata { palette: None, date_time: None, name: None },
    }
}

#[test]
fn civil_date_matches_chrono() {
    let days: [i64; 7] = [0, 1, -1, 19000, -25567, 738000, -1000000];
    for d in days {
        let (y, m, dd) = civil_from_days(d);
        let dt = chrono::DateTime::from_timestamp(d * 86400, 0).unwrap();
        let date = dt.date_naive();
        assert_eq!((y, m, dd), (date.year() as i64, date.month() as i64, date.day() as i64));
    }
}

#[test]
fn week_key_matches_chrono_format() {
    let stamps: [i64; 5] = [0, 86400 * 3, 1700000000, 946684800, 1600000000];
    for ts in stamps {
        let key = time_key_of(&TimeHistResolution::Week, ts);
        let dt = chrono::DateTime::from_timestamp(ts, 0).unwrap();
        let week: i64 = dt.format("%W").to_string().parse().unwrap();
        assert_eq!((key.a, key.b), (dt.date_naive().year() as i64, week));
    }
}

#[test]
fn month_and_hour_keys() {
    let ts = 1700000000i64;
    let dt = chrono::DateTime::from_timestamp(ts, 0).unwrap();
    let mk = time_key_of(&TimeHistResolution::Month, ts);
    assert_eq!((mk.a, mk.b), (dt.date_naive().year() as i64, dt.date_naive().month() as i64));
    let hk = time_key_of(&TimeHistResolution::Hour, ts);
    assert_eq!(hk.a, ts / 3600);
}

#[test]
fn buckets_group_by_day_and_drop_untimestamped() {
    let day = 86400i64;
    let records = vec![
        with_ts(1, 2 * day + 10),
        with_ts(2, 100),
        bare(9),
        with_ts(3, 2 * day + 600),
        with_ts(4, 50),
    ];
    let buckets = time_hist(records, &TimeHistOptions { resolution: TimeHistResolution::Day });
    assert_eq!(buckets.len(), 2);
    let first: Vec<u128> = buckets[0].iter().map(|m| m.id).collect();
    let second: Vec<u128> = buckets[1].iter().map(|m| m.id).collect();
    assert_eq!(first, vec![4, 2]);
    assert_eq!(second, vec![1, 3]);
}

#[test]
fn palette_score_is_the_weighted_channel_difference() {
    let a = with_palette(1, vec![(10, 0, 0), (50, 60, 70)]);
    let b = with_palette(2, vec![(1, 2, 3), (50, 50, 50)]);
    // Index 0: (10-1)+(0-2)+(0-3) = 4 weighted 1; index 1: 0+10+20 = 30
    // weighted 100.
    match PaletteDist.dist(&a, &b) {
        Score::Finite(v) => assert_eq!(v, 4 + 30 * 100),
        _ => panic!("palette score should be finite"),
    }
    // A missing palette scores as infinity.
    assert!(matches!(PaletteDist.dist(&a, &bare(3)), Score::Infinite));
}

#[test]
fn timestamp_score_is_the_epoch_difference() {
    let a = with_ts(1, 500);
    let b = with_ts(2, 123);
    match DateTimeDist.dist(&a, &b) {
        Score::Finite(v) => assert_eq!(v, 377),
        _ => panic!("timestamp score should be finite"),
    }
}

#[test]
fn palette_cosine_aggregates() {
    let a = with_palette(1, vec![(3, 4, 0)]);
    let b = with_palette(2, vec![(1, 2, 2)]);
    match PaletteCosDist.dist(&a, &b) {
        CosScore::Terms { count, sq_a, sq_b } => {
            assert_eq!(count, 3 + 4 + 0 + 1 + 2 + 2);
            assert_eq!(sq_a, 9 + 16);
            assert_eq!(sq_b, 1 + 4 + 4);
        },
        _ => panic!("both palettes are present"),
    }
}

#[test]
fn sort_layout_orders_by_reference_distance() {
    let mut images = vec![with_ts(1, 100), with_ts(2, 40), with_ts(3, 90)];
    let req = LayoutRequest {
        opts: LayoutOptions::Sort(
            SortOptions {
                compare: CompareFunctionVariants::ComparativeDist {
                    compared_to: 1,
                    dist: DistanceFunctionVariants::DateTime,
                },
            },
        ),
        filter: None,
    };
    let layout = do_layout(&req, &mut images, None).unwrap();
    match layout {
        Layout::Sort { data } => {
            let ids: Vec<u128> = data.iter().map(|u| u.0).collect();
            // Distances to record 1: 0, 60, 10.
            assert_eq!(ids, vec![1, 3, 2]);
        },
        _ => panic!("a sort request answers with a sort layout"),
    }
}

#[test]
fn missing_reference_fails_with_not_found() {
    let mut images = vec![with_ts(1, 100)];
    let req = LayoutRequest {
        opts: LayoutOptions::Sort(
            SortOptions {
                compare: CompareFunctionVariants::ComparativeDist {
                    compared_to: 99,
                    dist: DistanceFunctionVariants::DateTime,
                },
            },
        ),
        filter: None,
    };
    let err = do_layout(&req, &mut images, None).unwrap_err();
    match err {
        atlas_engine::Error::NotFound(msg) => {
            assert_eq!(msg, "image with id 00000000-0000-0000-0000-000000000063");
        },
        _ => panic!("an unknown reference id is a not-found failure"),
    }
}

#[test]
fn time_hist_leaves_the_record_list_alone() {
    let mut images = vec![with_ts(1, 100), bare(2), with_ts(3, 90_000)];
    let req = LayoutRequest {
        opts: LayoutOptions::TimeHist(TimeHistOptions { resolution: TimeHistResolution::Day }),
        filter: None,
    };
    do_layout(&req, &mut images, None).unwrap();
    let ids: Vec<u128> = images.iter().map(|m| m.id).collect();
    assert_eq!(ids, vec![1, 2, 3]);
    assert_eq!(images[0].metadata.date_time, Some(100));
}

#[test]
fn expansion_grid_fills_cost_order() {
    let images = vec![bare(1), bare(2), bare(3)];
    let opts = ExpansionGridOptions {
        anchor: Some(Anchor::BottomLeft),
        grid_dist: Some(GridDistanceFunction::Manhattan),
        compare: CompareFunctionVariants::SignedDist {
            dist: DistanceFunctionVariants::DateTime,
        },
    };
    let grid = create_expansion_grid(&images, &opts);
    assert_eq!(grid.len(), 3);
    for row in grid.iter() {
        assert_eq!(row.len(), 3);
    }
    assert_eq!(grid[0][0].as_ref().map(|u| u.0), Some(1));
    assert_eq!(grid[0][1].as_ref().map(|u| u.0), Some(2));
    assert_eq!(grid[1][0].as_ref().map(|u| u.0), Some(3));
    assert!(grid[2][2].is_none());
}

#[test]
fn normalization_pins_extremes() {
    let points = vec![
        RawPoint { id: 1, x: 0, y: -10 },
        RawPoint { id: 2, x: 10, y: 0 },
        RawPoint { id: 3, x: 20, y: 10 },
    ];
    let out = normalize_embedding(&points);
    assert_eq!(out.len(), 3);
    let xs: Vec<u32> = out.iter().map(|p| p.x).collect();
    let ys: Vec<u32> = out.iter().map(|p| p.y).collect();
    assert_eq!(xs, vec![0, SCALE / 2, SCALE]);
    assert_eq!(ys, vec![0, SCALE / 2, SCALE]);
    for p in out.iter() {
        assert!(p.x <= SCALE && p.y <= SCALE);
    }
    // A collapsed axis maps to zero everywhere.
    let flat = vec![RawPoint { id: 1, x: 5, y: 1 }, RawPoint { id: 2, x: 5, y: 2 }];
    let out = normalize_embedding(&flat);
    assert_eq!((out[0].x, out[1].x), (0, 0));
    assert_eq!((out[0].y, out[1].y), (0, SCALE));
}

#[test]
fn tsne_layout_normalizes_given_embedding() {
    let mut images = vec![bare(1), bare(2)];
    let req = LayoutRequest {
        opts: LayoutOptions::Tsne(TsneOptions { dist: DistanceFunctionVariants::DateTime }),
        filter: None,
    };
    let embedding = vec![RawPoint { id: 1, x: -4, y: 0 }, RawPoint { id: 2, x: 4, y: 1 }];
    let layout = do_layout(&req, &mut images, Some(&embedding)).unwrap();
    match layout {
        Layout::Pos { data } => {
            assert_eq!(data.len(), 2);
            assert_eq!((data[0].id, data[0].x), (1, 0));
            assert_eq!((data[1].id, data[1].x), (2, SCALE));
        },
        _ => panic!("an embedding request answers with positions"),
    }
}

#[test]
fn filter_keeps_only_records_with_named_fields() {
    let images = vec![with_ts(1, 5), bare(2), with_ts(3, 9), with_ts(4, 2)];
    let f = Filter {
        has_metadata: Some(vec![String::from("date_time")]),
        limit: Some(2),
    };
    let out = apply_filter(images, &f).unwrap();
    let ids: Vec<u128> = out.iter().map(|m| m.id).collect();
    assert_eq!(ids, vec![1, 3]);
}

#[test]
fn filter_with_unknown_field_name_is_a_bad_request() {
    let images = vec![with_ts(1, 5), bare(2)];
    let f = Filter { has_metadata: Some(vec![String::from("unknown_field")]), limit: None };
    let err = apply_filter(images, &f).unwrap_err();
    assert!(err.is_bad_request());
}

#[test]
fn time_hist_layout_is_an_inverted_grid() {
    let mut images = vec![with_ts(1, 100), bare(2), with_ts(3, 90_000)];
    let req = LayoutRequest {
        opts: LayoutOptions::TimeHist(TimeHistOptions { resolution: TimeHistResolution::Day }),
        filter: None,
    };
    let layout = do_layout(&req, &mut images, None).unwrap();
    match layout {
        Layout::Grid { data, invert } => {
            assert!(invert);
            assert_eq!(data.len(), 2);
            assert_eq!(data[0][0].as_ref().map(|u| u.0), Some(1));
            assert_eq!(data[1][0].as_ref().map(|u| u.0), Some(3));
        },
        _ => panic!("a histogram request answers with a grid"),
    }
}

#[test]
fn cosine_comparator_orders_by_the_historical_formula() {
    // Scores to the reference: sqrt(sq_a) / (count * sqrt(sq_b)). The
    // brighter palette has the larger denominator, hence the smaller
    // score, and sorts first.
    let reference = with_palette(1, vec![(1, 1, 1)]);
    let dim = with_palette(2, vec![(2, 2, 2)]);
    let bright = with_palette(3, vec![(5, 5, 5)]);
    let cmp = CompareDist {
        dist: DistanceFunctionVariants::PaletteCos,
        compared_to: reference,
    };
    assert!(matches!(cmp.compare(&dim, &bright), Rank::Greater));
    assert!(matches!(cmp.compare(&bright, &dim), Rank::Less));
    assert!(matches!(cmp.compare(&dim, &dim), Rank::Equal));
    // A record with no palette scores as infinity and sorts last.
    assert!(matches!(cmp.compare(&bright, &bare(4)), Rank::Less));
}
