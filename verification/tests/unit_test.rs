use mini_geojson::args::Args;
use mini_geojson::file_operations::add_prefix_to_filename;
use mini_geojson::file_operations::extract_filename_from_path;
use mini_geojson::geo_operations::truncate_coordinate_in_array;
use mini_geojson::json::Json;
use mini_geojson::json::Number;

fn argv(tokens: &[&str]) -> Vec<String> {
    tokens.iter().map(|t| t.to_string()).collect()
}

fn num(mantissa: u64, scale: i32) -> Json {
    Json::Num(Number { neg: false, mantissa, scale })
}

#[test]
fn unit_test_test_base_arg_parsing_with_short_arg() {
    let args = Args::parse_from(&argv(&["mini-geojson", "-i", "input.geojson", "-d", "3"]))
        .unwrap();
    assert_eq!(args.input, "input.geojson");
    assert_eq!(args.output, "./output/");
    assert_eq!(args.decimal, Some(3));
    assert!(!args.overwrite);
    assert!(!args.pretty);
}

#[test]
fn unit_test_test_all_args_parsing_with_short_arg() {
    let args = Args::parse_from(&argv(&[
        "mini-geojson",
        "-i",
        "input.geojson",
        "-o",
        "output.geojson",
        "-d",
        "3",
        "-O",
        "-p",
    ]))
    .unwrap();
    assert_eq!(args.input, "input.geojson");
    assert_eq!(args.output, "output.geojson");
    assert_eq!(args.decimal, Some(3));
    assert!(args.overwrite);
    assert!(args.pretty);
}

#[test]
fn unit_test_test_base_arg_parsing_with_long_arg() {
    let args = Args::parse_from(&argv(&[
        "mini-geojson",
        "--input",
        "input.geojson",
        "--decimal",
        "3",
    ]))
    .unwrap();
    assert_eq!(args.input, "input.geojson");
    assert_eq!(args.output, "./output/");
    assert_eq!(args.decimal, Some(3));
    assert!(!args.overwrite);
    assert!(!args.pretty);
}

#[test]
fn unit_test_test_all_args_parsing_with_long_arg() {
    let args = Args::parse_from(&argv(&[
        "mini-geojson",
        "--input",
        "input.geojson",
        "--output",
        "output.geojson",
        "--decimal",
        "3",
        "--overwrite",
        "--pretty",
    ]))
    .unwrap();
    assert_eq!(args.input, "input.geojson");
    assert_eq!(args.output, "output.geojson");
    assert_eq!(args.decimal, Some(3));
    assert!(args.overwrite);
    assert!(args.pretty);
}

#[test]
fn unit_test_test_extract_filename_from_path_with_no_filename_given() {
    let filename = extract_filename_from_path("/home/user/");
    assert_eq!(filename, None);
}

#[test]
fn unit_test_test_extract_filename_from_path() {
    let filename = extract_filename_from_path("/home/user/input.geojson");
    assert_eq!(filename, Some("input.geojson".to_string()));
}

#[test]
fn unit_test_test_extract_filename_with_filename_for_path() {
    let filename = extract_filename_from_path("input.geojson");
    assert_eq!(filename, Some("input.geojson".to_string()));
}

#[test]
fn unit_test_test_add_prefix_to_filename() {
    let filename = add_prefix_to_filename("input.geojson", "min_");
    assert_eq!(filename, "min_input.geojson");
}

#[test]
fn unit_test_test_truncate_coord() {
    let mut coordinates = Json::Arr(vec![num(1234567, 6), num(2345678, 6)]);
    let decimal = 2;

    truncate_coordinate_in_array(&mut coordinates, decimal);

    assert_eq!(coordinates, Json::Arr(vec![num(123, 2), num(235, 2)]));
}

#[test]
fn unit_test_test_truncate_coordinate_in_array_of_array() {
    let mut coordinates = Json::Arr(vec![
        Json::Arr(vec![num(1234567, 6), num(2345678, 6)]),
        Json::Arr(vec![num(4567890, 6), num(5678901, 6)]),
    ]);
    let decimal = 2;

    truncate_coordinate_in_array(&mut coordinates, decimal);

    assert_eq!(
        coordinates,
        Json::Arr(vec![
            Json::Arr(vec![num(123, 2), num(235, 2)]),
            Json::Arr(vec![num(457, 2), num(568, 2)]),
        ])
    );
}

#[test]
fn unit_test_truncate_coordinate_in_geojson_geometry() {
    let ring = || {
        Json::Arr(vec![
            Json::Arr(vec![num(1234567, 6), num(2345678, 6)]),
            Json::Arr(vec![num(4567890, 6), num(5678901, 6)]),
            Json::Arr(vec![num(7890123, 6), num(8901234, 6)]),
            Json::Arr(vec![num(1234567, 6), num(2345678, 6)]),
        ])
    };
    let truncated_ring = || {
        Json::Arr(vec![
            Json::Arr(vec![num(123, 2), num(235, 2)]),
            Json::Arr(vec![num(457, 2), num(568, 2)]),
            Json::Arr(vec![num(789, 2), num(890, 2)]),
            Json::Arr(vec![num(123, 2), num(235, 2)]),
        ])
    };
    let mut coordinates = Json::Arr(vec![ring(), ring(), ring()]);
    let decimal = 2;
    truncate_coordinate_in_array(&mut coordinates, decimal);
    assert_eq!(
        coordinates,
        Json::Arr(vec![truncated_ring(), truncated_ring(), truncated_ring()])
    );
}
