use mini_geojson::geo_operations::process_feature;
use mini_geojson::geo_operations::remove_null_or_empty_properties;
use mini_geojson::geo_operations::truncate_coord;
use mini_geojson::geo_operations::truncate_coordinate_in_array;
use mini_geojson::json::Json;
use mini_geojson::json::Number;

fn num(mantissa: u64, scale: i32) -> Json {
    Json::Num(Number { neg: false, mantissa, scale })
}

fn s(text: &str) -> String {
    text.to_string()
}

/// The feature every property test starts from: a Point with four
/// properties, one empty, one null.
fn sample_feature() -> Json {
    Json::Obj(vec![
        (s("type"), Json::Str(s("Feature"))),
        (
            s("properties"),
            Json::Obj(vec![
                (s("name"), Json::Str(s("test"))),
                (s("empty"), Json::Str(s(""))),
                (s("null"), Json::Null),
                (s("value"), Json::Str(s("value"))),
            ]),
        ),
        (
            s("geometry"),
            Json::Obj(vec![
                (s("type"), Json::Str(s("Point"))),
                (s("coordinates"), Json::Arr(vec![num(1234567, 6), num(2345678, 6)])),
            ]),
        ),
    ])
}

fn feature_with(properties: Vec<(String, Json)>, coordinates: Vec<Json>) -> Json {
    Json::Obj(vec![
        (s("type"), Json::Str(s("Feature"))),
        (s("properties"), Json::Obj(properties)),
        (
            s("geometry"),
            Json::Obj(vec![
                (s("type"), Json::Str(s("Point"))),
                (s("coordinates"), Json::Arr(coordinates)),
            ]),
        ),
    ])
}

#[test]
fn geo_operations_test_truncate_coord() {
    let mut coordinates = Json::Arr(vec![num(1234567, 6), num(2345678, 6)]);
    let decimal = 2;

    truncate_coordinate_in_array(&mut coordinates, decimal);

    assert_eq!(coordinates, Json::Arr(vec![num(123, 2), num(235, 2)]));
}

#[test]
fn geo_operations_test_truncate_coordinate_in_array_of_array() {
    let mut coordinates = Json::Arr(vec![
        Json::Arr(vec![num(1234567, 6), num(2345678, 6)]),
        Json::Arr(vec![num(4567890, 6), num(5678901, 6)]),
    ]);
    let decimal = 2;

    truncate_coordinate_in_array(&mut coordinates, decimal);

    assert_eq!(
        coordinates,
        Json::Arr(vec![
            Json::Arr(vec![num(123, 2), num(235, 2)]),
            Json::Arr(vec![num(457, 2), num(568, 2)]),
        ])
    );
}

#[test]
fn geo_operations_truncate_coordinate_in_geojson_geometry() {
    let ring = || {
        Json::Arr(vec![
            Json::Arr(vec![num(1234567, 6), num(2345678, 6)]),
            Json::Arr(vec![num(4567890, 6), num(5678901, 6)]),
            Json::Arr(vec![num(7890123, 6), num(8901234, 6)]),
            Json::Arr(vec![num(1234567, 6), num(2345678, 6)]),
        ])
    };
    let truncated_ring = || {
        Json::Arr(vec![
            Json::Arr(vec![num(123, 2), num(235, 2)]),
            Json::Arr(vec![num(457, 2), num(568, 2)]),
            Json::Arr(vec![num(789, 2), num(890, 2)]),
            Json::Arr(vec![num(123, 2), num(235, 2)]),
        ])
    };
    let mut coordinates = Json::Arr(vec![ring(), ring(), ring()]);
    let decimal = 2;
    truncate_coordinate_in_array(&mut coordinates, decimal);
    assert_eq!(
        coordinates,
        Json::Arr(vec![truncated_ring(), truncated_ring(), truncated_ring()])
    );
}

#[test]
fn test_remove_null_or_empty_properties() {
    let mut geojson = sample_feature();

    remove_null_or_empty_properties(&mut geojson);

    assert_eq!(
        geojson,
        feature_with(
            vec![(s("name"), Json::Str(s("test"))), (s("value"), Json::Str(s("value")))],
            vec![num(1234567, 6), num(2345678, 6)],
        )
    );
}

#[test]
fn test_process_feature_with_only_truncation() {
    let mut geojson = sample_feature();

    process_feature(&mut geojson, Some(2), false, None, None);

    assert_eq!(
        geojson,
        feature_with(
            vec![
                (s("name"), Json::Str(s("test"))),
                (s("empty"), Json::Str(s(""))),
                (s("null"), Json::Null),
                (s("value"), Json::Str(s("value"))),
            ],
            vec![num(123, 2), num(235, 2)],
        )
    );
}

#[test]
fn test_process_feature_with_only_remove_null_properties() {
    let mut geojson = sample_feature();

    process_feature(&mut geojson, None, true, None, None);

    assert_eq!(
        geojson,
        feature_with(
            vec![(s("name"), Json::Str(s("test"))), (s("value"), Json::Str(s("value")))],
            vec![num(1234567, 6), num(2345678, 6)],
        )
    );
}

#[test]
fn test_process_feature_with_truncation_and_remove_null_properties() {
    let mut geojson = sample_feature();

    process_feature(&mut geojson, Some(2), true, None, None);

    assert_eq!(
        geojson,
        feature_with(
            vec![(s("name"), Json::Str(s("test"))), (s("value"), Json::Str(s("value")))],
            vec![num(123, 2), num(235, 2)],
        )
    );
}

#[test]
fn test_process_feature_with_only_remove_properties() {
    let mut geojson = sample_feature();

    process_feature(&mut geojson, None, false, Some(&vec![s("name"), s("empty")]), None);

    assert_eq!(
        geojson,
        feature_with(
            vec![(s("null"), Json::Null), (s("value"), Json::Str(s("value")))],
            vec![num(1234567, 6), num(2345678, 6)],
        )
    );
}

#[test]
fn test_process_feature_with_only_keep_properties() {
    let mut geojson = sample_feature();

    process_feature(&mut geojson, None, false, None, Some(&vec![s("name"), s("empty")]));

    assert_eq!(
        geojson,
        feature_with(
            vec![(s("name"), Json::Str(s("test"))), (s("empty"), Json::Str(s("")))],
            vec![num(1234567, 6), num(2345678, 6)],
        )
    );
}

#[test]
fn test_process_feature_with_truncation_and_keep_properties() {
    let mut geojson = sample_feature();

    process_feature(&mut geojson, Some(2), false, None, Some(&vec![s("name"), s("empty")]));

    assert_eq!(
        geojson,
        feature_with(
            vec![(s("name"), Json::Str(s("test"))), (s("empty"), Json::Str(s("")))],
            vec![num(123, 2), num(235, 2)],
        )
    );
}

#[test]
fn test_truncate_twice_is_once() {
    let mut once = Json::Arr(vec![num(1234567, 6), num(987654321, 4)]);
    truncate_coordinate_in_array(&mut once, 3);
    let mut twice = Json::Arr(vec![num(1234567, 6), num(987654321, 4)]);
    truncate_coordinate_in_array(&mut twice, 3);
    truncate_coordinate_in_array(&mut twice, 3);
    assert_eq!(once, twice);
}

#[test]
fn test_truncate_coord_rounds_half_away_from_zero() {
    // 1.5 with no decimals kept becomes 2
    let up = truncate_coord(Number { neg: false, mantissa: 15, scale: 1 }, 0);
    assert_eq!(up, Number { neg: false, mantissa: 2, scale: 0 });
    // -1.5 becomes -2, not -1
    let down = truncate_coord(Number { neg: true, mantissa: 15, scale: 1 }, 0);
    assert_eq!(down, Number { neg: true, mantissa: 2, scale: 0 });
}

#[test]
fn test_truncate_coord_with_zero_decimal_collapses_to_integer() {
    let r = truncate_coord(Number { neg: false, mantissa: 98765, scale: 3 }, 0);
    assert_eq!(r, Number { neg: false, mantissa: 99, scale: 0 });
}

#[test]
fn test_truncate_coord_with_huge_decimal_changes_nothing() {
    let n = Number { neg: false, mantissa: 1234567, scale: 6 };
    assert_eq!(truncate_coord(n, 1000000), n);
}

#[test]
fn test_truncate_coord_with_huge_scale_rounds_to_zero() {
    // 1234567 * 10^-80 has nothing left at 2 decimals
    let r = truncate_coord(Number { neg: false, mantissa: 1234567, scale: 80 }, 2);
    assert_eq!(r, Number { neg: false, mantissa: 0, scale: 2 });
}

#[test]
fn test_truncate_leaves_whole_numbers_alone() {
    // 12 * 10^3, held with a negative scale, has no decimals to cut
    let n = Number { neg: false, mantissa: 12, scale: -3 };
    assert_eq!(truncate_coord(n, 2), n);
}

#[test]
fn test_truncate_leaves_strings_and_nulls_alone() {
    let mut value = Json::Arr(vec![Json::Str(s("text")), Json::Null, Json::Bool(true)]);
    truncate_coordinate_in_array(&mut value, 2);
    assert_eq!(
        value,
        Json::Arr(vec![Json::Str(s("text")), Json::Null, Json::Bool(true)])
    );
}

#[test]
fn test_remove_null_or_empty_keeps_empty_arrays() {
    let mut geojson = Json::Obj(vec![
        (
            s("properties"),
            Json::Obj(vec![
                (s("list"), Json::Arr(vec![])),
                (s("blank"), Json::Str(s(""))),
            ]),
        ),
    ]);
    remove_null_or_empty_properties(&mut geojson);
    assert_eq!(
        geojson,
        Json::Obj(vec![(s("properties"), Json::Obj(vec![(s("list"), Json::Arr(vec![]))]))])
    );
}

#[test]
fn test_process_feature_without_geometry_is_untouched() {
    let mut geojson = Json::Obj(vec![
        (s("type"), Json::Str(s("Feature"))),
        (
            s("properties"),
            Json::Obj(vec![(s("null"), Json::Null), (s("empty"), Json::Str(s("")))]),
        ),
    ]);
    let expected = Json::Obj(vec![
        (s("type"), Json::Str(s("Feature"))),
        (
            s("properties"),
            Json::Obj(vec![(s("null"), Json::Null), (s("empty"), Json::Str(s("")))]),
        ),
    ]);

    process_feature(&mut geojson, Some(2), true, Some(&vec![s("null")]), None);

    assert_eq!(geojson, expected);
}

#[test]
fn test_remove_missing_key_is_a_no_op() {
    let mut geojson = sample_feature();
    let mut untouched = sample_feature();

    process_feature(&mut geojson, None, false, Some(&vec![s("key_to_delete")]), None);
    process_feature(&mut untouched, None, false, None, None);

    assert_eq!(geojson, untouched);
}
