use mini_geojson::args::ArgError;
use mini_geojson::args::Args;
use mini_geojson::file_operations::add_prefix_to_filename;
use mini_geojson::file_operations::extract_filename_from_path;
use mini_geojson::file_operations::process_geojson;
use mini_geojson::json::Json;
use mini_geojson::json::Number;

fn argv(tokens: &[&str]) -> Vec<String> {
    tokens.iter().map(|t| t.to_string()).collect()
}

fn num(mantissa: u64, scale: i32) -> Json {
    Json::Num(Number { neg: false, mantissa, scale })
}

fn s(text: &str) -> String {
    text.to_string()
}

fn point_feature(name: &str, mantissa: u64, scale: i32) -> Json {
    Json::Obj(vec![
        (s("type"), Json::Str(s("Feature"))),
        (s("properties"), Json::Obj(vec![(s("name"), Json::Str(s(name)))])),
        (
            s("geometry"),
            Json::Obj(vec![
                (s("type"), Json::Str(s("Point"))),
                (s("coordinates"), Json::Arr(vec![num(mantissa, scale)])),
            ]),
        ),
    ])
}

#[test]
fn integration_test_test_extract_filename_from_path_with_no_filename_given() {
    let filename = extract_filename_from_path("/home/user/");
    assert_eq!(filename, None);
}

#[test]
fn integration_test_test_extract_filename_from_path() {
    let filename = extract_filename_from_path("/home/user/input.geojson");
    assert_eq!(filename, Some("input.geojson".to_string()));
}

#[test]
fn integration_test_test_extract_filename_with_filename_for_path() {
    let filename = extract_filename_from_path("input.geojson");
    assert_eq!(filename, Some("input.geojson".to_string()));
}

#[test]
fn integration_test_test_add_prefix_to_filename() {
    let filename = add_prefix_to_filename("input.geojson", "min_");
    assert_eq!(filename, "min_input.geojson");
}

#[test]
fn test_process_geojson_on_single_feature() {
    let mut doc = point_feature("solo", 1234567, 6);
    process_geojson(&mut doc, Some(2), false, None, None);
    assert_eq!(doc, point_feature("solo", 123, 2));
}

#[test]
fn test_process_geojson_keeps_feature_count_and_order() {
    let mut doc = Json::Obj(vec![
        (s("type"), Json::Str(s("FeatureCollection"))),
        (
            s("features"),
            Json::Arr(vec![
                point_feature("first", 1234567, 6),
                point_feature("second", 2345678, 6),
                point_feature("third", 4567890, 6),
            ]),
        ),
    ]);
    process_geojson(&mut doc, Some(2), false, None, None);
    assert_eq!(
        doc,
        Json::Obj(vec![
            (s("type"), Json::Str(s("FeatureCollection"))),
            (
                s("features"),
                Json::Arr(vec![
                    point_feature("first", 123, 2),
                    point_feature("second", 235, 2),
                    point_feature("third", 457, 2),
                ]),
            ),
        ])
    );
}

#[test]
fn test_process_geojson_skips_malformed_features() {
    let mut doc = Json::Obj(vec![(
        s("features"),
        Json::Arr(vec![Json::Null, Json::Str(s("stray")), point_feature("kept", 15, 1)]),
    )]);
    process_geojson(&mut doc, Some(0), false, None, None);
    assert_eq!(
        doc,
        Json::Obj(vec![(
            s("features"),
            Json::Arr(vec![Json::Null, Json::Str(s("stray")), point_feature("kept", 2, 0)]),
        )])
    );
}

#[test]
fn test_process_geojson_leaves_unrecognised_documents_alone() {
    let mut doc = Json::Obj(vec![(s("hello"), Json::Str(s("world")))]);
    process_geojson(&mut doc, Some(2), true, None, None);
    assert_eq!(doc, Json::Obj(vec![(s("hello"), Json::Str(s("world")))]));
}

#[test]
fn test_arg_parsing_reports_missing_input() {
    let r = Args::parse_from(&argv(&["mini-geojson", "-d", "3"]));
    assert_eq!(r.unwrap_err(), ArgError::MissingInput);
}

#[test]
fn test_arg_parsing_reports_missing_value() {
    let r = Args::parse_from(&argv(&["mini-geojson", "-i"]));
    assert_eq!(r.unwrap_err(), ArgError::MissingValue);
}

#[test]
fn test_arg_parsing_reports_invalid_decimal() {
    let r = Args::parse_from(&argv(&["mini-geojson", "-i", "input.geojson", "-d", "x3"]));
    assert_eq!(r.unwrap_err(), ArgError::InvalidDecimal);
}

#[test]
fn test_arg_parsing_reports_unknown_argument() {
    let r = Args::parse_from(&argv(&["mini-geojson", "-i", "input.geojson", "--frobnicate"]));
    assert_eq!(r.unwrap_err(), ArgError::UnknownArgument);
}

#[test]
fn test_arg_parsing_gathers_key_lists() {
    let args = Args::parse_from(&argv(&[
        "mini-geojson",
        "-i",
        "input.geojson",
        "-r",
        "name,key_to_delete",
        "-k",
        "id",
        "name",
    ]))
    .unwrap();
    assert_eq!(
        args.properties_to_remove,
        Some(vec![s("name"), s("key_to_delete")])
    );
    assert_eq!(args.properties_to_keep, Some(vec![s("id"), s("name")]));
}

#[test]
fn test_arg_parsing_with_remove_null_properties_flag() {
    let args = Args::parse_from(&argv(&[
        "mini-geojson",
        "-i",
        "input.geojson",
        "--remove-null-properties",
    ]))
    .unwrap();
    assert!(args.remove_null_properties);
    assert_eq!(args.properties_to_remove, None);
    assert_eq!(args.properties_to_keep, None);
}

#[test]
fn test_arg_parsing() {
    let args = Args::parse_from(&argv(&["mini-geojson", "-i", "input.geojson", "-d", "3"]))
        .unwrap();

    assert_eq!(args.input, "input.geojson");
    assert_eq!(args.output, "./output/");
    assert_eq!(args.decimal, Some(3));
}

#[test]
fn test_truncation_follows_the_decimal_flag_alone() {
    // the parsed decimal reaches processing as it is: no other flag is
    // needed for truncation to happen
    let args = Args::parse_from(&argv(&["mini-geojson", "-i", "in.geojson", "-d", "2"]))
        .unwrap();
    assert!(!args.remove_null_properties);

    let mut doc = point_feature("solo", 1234567, 6);
    process_geojson(
        &mut doc,
        args.decimal,
        args.remove_null_properties,
        args.properties_to_remove.as_ref(),
        args.properties_to_keep.as_ref(),
    );
    assert_eq!(doc, point_feature("solo", 123, 2));
}

#[test]
fn test_arg_parsing_appends_repeated_key_flags() {
    let args = Args::parse_from(&argv(&[
        "mini-geojson",
        "-i",
        "input.geojson",
        "-r",
        "one",
        "-r",
        "two,three",
    ]))
    .unwrap();
    assert_eq!(
        args.properties_to_remove,
        Some(vec![s("one"), s("two"), s("three")])
    );
}

#[test]
fn test_arg_parsing_with_bare_key_flag_gives_empty_list() {
    let args = Args::parse_from(&argv(&["mini-geojson", "-r", "-i", "input.geojson"])).unwrap();
    assert_eq!(args.properties_to_remove, Some(vec![]));
}

#[test]
fn test_arg_parsing_accepts_equals_form() {
    let args = Args::parse_from(&argv(&[
        "mini-geojson",
        "--input=input.geojson",
        "-o=output.geojson",
        "--decimal=3",
    ]))
    .unwrap();
    assert_eq!(args.input, "input.geojson");
    assert_eq!(args.output, "output.geojson");
    assert_eq!(args.decimal, Some(3));
}

#[test]
fn test_arg_parsing_accepts_equals_form_key_lists() {
    let args = Args::parse_from(&argv(&[
        "mini-geojson",
        "-i",
        "input.geojson",
        "--properties-to-remove=name,key_to_delete",
        "-k=id",
    ]))
    .unwrap();
    assert_eq!(
        args.properties_to_remove,
        Some(vec![s("name"), s("key_to_delete")])
    );
    assert_eq!(args.properties_to_keep, Some(vec![s("id")]));
}
