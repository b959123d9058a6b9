use raytracer::cube::Cube;
use raytracer::material::Material;
use raytracer::scalar::Scalar;
use raytracer::scene_text::{fields, parse_number, parse_scene, MaterialTable, SceneError};
use raytracer::vector::Vector3;

fn s(thousandths: i64) -> Scalar {
    Scalar::from_raw(thousandths * 1_000_000)
}

fn v(x: i64, y: i64, z: i64) -> Vector3 {
    Vector3::new(s(x), s(y), s(z))
}

fn tinted(shade: i64) -> Material {
    let mut m = Material::black();
    m.diffuse = v(shade, shade, shade);
    m
}

fn table() -> MaterialTable {
    MaterialTable {
        names: vec![b"obsidian".to_vec(), b"portal".to_vec(), b"obsidian".to_vec()],
        materials: vec![tinted(100), tinted(200), tinted(300)],
    }
}

fn parse(text: &str) -> Result<Vec<Cube>, SceneError> {
    parse_scene(&text.as_bytes().to_vec(), &table())
}

fn number(text: &str) -> Option<Scalar> {
    let bytes = text.as_bytes().to_vec();
    parse_number(&bytes, 0, bytes.len())
}

#[test]
fn scene_of_two_boxes() {
    let cubes = parse("-2.5 0 0 1.5 obsidian\n0.0 0.0 -1.0 1.5 portal\n").unwrap();
    assert_eq!(
        cubes,
        vec![
            Cube::new(v(-2500, 0, 0), s(1500), tinted(100)),
            Cube::new(v(0, 0, -1000), s(1500), tinted(200)),
        ]
    );
}

#[test]
fn last_line_needs_no_line_feed() {
    let cubes = parse("1 2 3 4 portal").unwrap();
    assert_eq!(cubes, vec![Cube::new(v(1000, 2000, 3000), s(4000), tinted(200))]);
}

#[test]
fn empty_text_is_an_empty_scene() {
    assert_eq!(parse(""), Ok(vec![]));
    assert_eq!(parse("\n\n\n"), Ok(vec![]));
    assert_eq!(parse("   \t \r\n \n"), Ok(vec![]));
}

#[test]
fn comments_and_empty_lines_say_nothing() {
    let text = "# a scene\n\n   # indented, with 1 2 3 4 fields\n1 2 3 4 portal\n#\n";
    assert_eq!(parse(text).unwrap().len(), 1);
    // a comment sign inside a field is no comment
    assert_eq!(
        parse("1 2 3 4 portal#"),
        Err(SceneError::UnknownMaterial { line: 1, start: 8, end: 15 })
    );
}

#[test]
fn fields_are_separated_by_any_blanks() {
    let cubes = parse("  1\t2   3 \t 4\tportal  \r\n").unwrap();
    assert_eq!(cubes, vec![Cube::new(v(1000, 2000, 3000), s(4000), tinted(200))]);
}

#[test]
fn first_material_of_a_name_is_taken() {
    let cubes = parse("0 0 0 1 obsidian").unwrap();
    assert_eq!(cubes[0].material, tinted(100));
}

#[test]
fn too_few_or_too_many_fields() {
    assert_eq!(parse("1 2 3 portal"), Err(SceneError::FieldCount { line: 1, found: 4 }));
    assert_eq!(parse("1 2 3 4 portal 5"), Err(SceneError::FieldCount { line: 1, found: 6 }));
    assert_eq!(parse("\n\nportal\n"), Err(SceneError::FieldCount { line: 3, found: 1 }));
}

#[test]
fn field_that_is_no_number() {
    assert_eq!(
        parse("x 2 3 4 portal"),
        Err(SceneError::InvalidNumber { line: 1, field: 0, start: 0, end: 1 })
    );
    assert_eq!(
        parse("1 2.5.1 3 4 portal"),
        Err(SceneError::InvalidNumber { line: 1, field: 1, start: 2, end: 7 })
    );
    assert_eq!(
        parse("# first\n1 2 3e 4 portal"),
        Err(SceneError::InvalidNumber { line: 2, field: 2, start: 12, end: 14 })
    );
    assert_eq!(
        parse("1 2 3 - portal"),
        Err(SceneError::InvalidNumber { line: 1, field: 3, start: 6, end: 7 })
    );
    // the first wrong field is named
    assert_eq!(
        parse("1 y z size nothing"),
        Err(SceneError::InvalidNumber { line: 1, field: 1, start: 2, end: 3 })
    );
}

#[test]
fn unknown_material() {
    assert_eq!(
        parse("1 2 3 4 glass"),
        Err(SceneError::UnknownMaterial { line: 1, start: 8, end: 13 })
    );
    assert_eq!(
        parse("1 2 3 4 Portal"),
        Err(SceneError::UnknownMaterial { line: 1, start: 8, end: 14 })
    );
    assert_eq!(
        parse("1 2 3 4 porta"),
        Err(SceneError::UnknownMaterial { line: 1, start: 8, end: 13 })
    );
    assert_eq!(
        parse_scene(&b"1 2 3 4 portal".to_vec(), &MaterialTable { names: vec![], materials: vec![] }),
        Err(SceneError::UnknownMaterial { line: 1, start: 8, end: 14 })
    );
    // a name without a material is no material
    let short = MaterialTable { names: vec![b"portal".to_vec()], materials: vec![] };
    assert_eq!(
        parse_scene(&b"1 2 3 4 portal".to_vec(), &short),
        Err(SceneError::UnknownMaterial { line: 1, start: 8, end: 14 })
    );
}

#[test]
fn negative_size_gives_no_valid_box() {
    assert_eq!(parse("0 0 0 -1 portal"), Err(SceneError::InvalidBounds { line: 1 }));
    assert_eq!(parse("0 0 0 0 portal").unwrap().len(), 1);
}

#[test]
fn first_wrong_line_stops_the_reading() {
    assert_eq!(
        parse("1 2 3 4 portal\n1 2 3\n1 2 3 4 glass\n"),
        Err(SceneError::FieldCount { line: 2, found: 3 })
    );
}

#[test]
fn decimal_numbers() {
    assert_eq!(number("0"), Some(s(0)));
    assert_eq!(number("7"), Some(s(7000)));
    assert_eq!(number("-7"), Some(s(-7000)));
    assert_eq!(number("+7"), Some(s(7000)));
    assert_eq!(number("1.5"), Some(s(1500)));
    assert_eq!(number("-0.25"), Some(s(-250)));
    assert_eq!(number("007.50"), Some(s(7500)));
    assert_eq!(number("5."), Some(s(5000)));
    assert_eq!(number(".5"), Some(s(500)));
    assert_eq!(number("-.5"), Some(s(-500)));
    assert_eq!(number("-0"), Some(s(0)));
    assert_eq!(number("0.000000001"), Some(Scalar::from_raw(1)));
    assert_eq!(number("123.456789012"), Some(Scalar::from_raw(123_456_789_012)));
}

#[test]
fn digits_beyond_the_ninth_are_left_out() {
    assert_eq!(number("0.1234567899"), Some(Scalar::from_raw(123_456_789)));
    assert_eq!(number("-0.9999999999"), Some(Scalar::from_raw(-999_999_999)));
    assert_eq!(number("0.0000000009"), Some(s(0)));
}

#[test]
fn numbers_out_of_range_are_clamped() {
    assert_eq!(number("9223372036.854775807"), Some(Scalar::from_raw(i64::MAX)));
    assert_eq!(number("9223372036.854775808"), Some(Scalar::from_raw(i64::MAX)));
    assert_eq!(number("9223372036.854775806"), Some(Scalar::from_raw(i64::MAX - 1)));
    assert_eq!(number("-9223372036.854775808"), Some(Scalar::from_raw(i64::MIN)));
    assert_eq!(number("-9223372036.854775809"), Some(Scalar::from_raw(i64::MIN)));
    assert_eq!(number("9999999999"), Some(Scalar::from_raw(i64::MAX)));
    assert_eq!(number("10000000000"), Some(Scalar::from_raw(i64::MAX)));
    assert_eq!(
        number("123456789012345678901234567890123456789012345678901234567890"),
        Some(Scalar::from_raw(i64::MAX))
    );
    assert_eq!(
        number("-123456789012345678901234567890123456789012345678901234567890.5"),
        Some(Scalar::from_raw(i64::MIN))
    );
}

#[test]
fn what_is_no_decimal_number() {
    let wrong = [
        "", "-", "+", ".", "-.", "1.2.3", "--1", "+-1", "1-", "0x10", "1,5", " 1", "1 ", "e", "e5",
        ".e5", "-e5", "1e", "1E", "1e+", "1e-", "1e5.5", "1e--5", "1ee5", "1e5e5", "1e 5", "1e5 ",
        "1.5f", "1_000",
    ];
    for text in wrong {
        assert_eq!(number(text), None, "{:?}", text);
    }
}

#[test]
fn no_scalar_stands_for_infinity_or_for_what_is_no_number() {
    for text in ["inf", "-inf", "+inf", "infinity", "Infinity", "INF", "nan", "NaN", "-nan"] {
        assert_eq!(number(text), None, "{:?}", text);
    }
    assert_eq!(
        parse("inf 0 0 1 portal"),
        Err(SceneError::InvalidNumber { line: 1, field: 0, start: 0, end: 3 })
    );
}

#[test]
fn numbers_with_an_exponent() {
    assert_eq!(number("1e3"), Some(s(1_000_000)));
    assert_eq!(number("1E3"), Some(s(1_000_000)));
    assert_eq!(number("1e+3"), Some(s(1_000_000)));
    assert_eq!(number("1e-3"), Some(s(1)));
    assert_eq!(number("1e0"), Some(s(1000)));
    assert_eq!(number("1.5e2"), Some(s(150_000)));
    assert_eq!(number("2.5e-1"), Some(s(250)));
    assert_eq!(number("-2.5e-1"), Some(s(-250)));
    assert_eq!(number("7.25E-2"), Some(Scalar::from_raw(72_500_000)));
    assert_eq!(number(".5e1"), Some(s(5000)));
    assert_eq!(number("5.e1"), Some(s(50_000)));
    assert_eq!(number("1234.5678e-2"), Some(Scalar::from_raw(12_345_678_000)));
    assert_eq!(number("1234.5678e2"), Some(Scalar::from_raw(123_456_780_000_000)));
    assert_eq!(number("1234.5678e5"), Some(Scalar::from_raw(123_456_780_000_000_000)));
    assert_eq!(number("0.1234567899e1"), Some(Scalar::from_raw(1_234_567_899)));
    assert_eq!(number("1e9"), Some(Scalar::from_raw(1_000_000_000_000_000_000)));
    assert_eq!(number("0.0000000000000000001e19"), Some(s(1000)));
    // in a scene
    assert_eq!(
        parse("1e3 -2.5e-1 0 1.5e0 portal"),
        Ok(vec![Cube::new(
            Vector3::new(s(1_000_000), s(-250), s(0)),
            s(1500),
            tinted(200)
        )])
    );
}

#[test]
fn what_an_exponent_moves_behind_the_ninth_digit_is_left_out() {
    assert_eq!(number("1e-9"), Some(Scalar::from_raw(1)));
    assert_eq!(number("1e-10"), Some(s(0)));
    assert_eq!(number("9e-10"), Some(s(0)));
    assert_eq!(number("-9e-10"), Some(s(0)));
    assert_eq!(number("123456789e-17"), Some(Scalar::from_raw(1)));
    assert_eq!(
        number("12345678912345678912e-10"),
        Some(Scalar::from_raw(1_234_567_891_234_567_891))
    );
    assert_eq!(
        number("-12345678912345678912e-10"),
        Some(Scalar::from_raw(-1_234_567_891_234_567_891))
    );
    assert_eq!(number("1e-99999999999999999999999999999999999999999999"), Some(s(0)));
    assert_eq!(number("987654321987654321e-99999999999999999999999"), Some(s(0)));
}

#[test]
fn numbers_with_an_exponent_are_clamped() {
    assert_eq!(number("1e10"), Some(Scalar::from_raw(i64::MAX)));
    assert_eq!(number("1e19"), Some(Scalar::from_raw(i64::MAX)));
    assert_eq!(number("-1e30"), Some(Scalar::from_raw(i64::MIN)));
    assert_eq!(number("9223372036854775807e-9"), Some(Scalar::from_raw(i64::MAX)));
    assert_eq!(number("9223372036854775808e-9"), Some(Scalar::from_raw(i64::MAX)));
    assert_eq!(number("-9223372036854775808e-9"), Some(Scalar::from_raw(i64::MIN)));
    assert_eq!(number("-9223372036854775807e-9"), Some(Scalar::from_raw(i64::MIN + 1)));
    assert_eq!(number("92233720368.54775806e-1"), Some(Scalar::from_raw(i64::MAX - 1)));
    assert_eq!(number("1e99999999999999999999999999999999999999999999"), Some(Scalar::from_raw(i64::MAX)));
    assert_eq!(number("0.000000000000000000000000000001e1180591620717411303424"), Some(Scalar::from_raw(i64::MAX)));
    // nothing times any power of ten is nothing
    assert_eq!(number("0e999"), Some(s(0)));
    assert_eq!(number("-0e5"), Some(s(0)));
    assert_eq!(number("0.000e100"), Some(s(0)));
    assert_eq!(number("0e99999999999999999999999999999999999999999999"), Some(s(0)));
    assert_eq!(number("000.000e-99999999999999999999999999999999999999"), Some(s(0)));
}

#[test]
fn fields_of_a_line() {
    let text = b"  ab  c\tdef ".to_vec();
    assert_eq!(fields(&text, 0, text.len()), vec![(2, 4), (6, 7), (8, 11)]);
    assert_eq!(fields(&text, 3, 10), vec![(3, 4), (6, 7), (8, 10)]);
    assert_eq!(fields(&text, 4, 6), vec![]);
    assert_eq!(fields(&text, 5, 5), vec![]);
    let text = b"one".to_vec();
    assert_eq!(fields(&text, 0, 3), vec![(0, 3)]);
}
