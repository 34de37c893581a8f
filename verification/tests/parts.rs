use sqlit::build_column::build_column;
use sqlit::converters::{int_from, usize_from, Converter, ToBool, ToDate, ToFloat, ToInt, ToString};
use sqlit::floats::{Float, FloatMath};
use sqlit::ingest::{read_field, read_line, CsvFinder, SepFinder, SpacesFinder, TsvFinder};
use sqlit::ops::binary_ops::{binary_iterate, prepare_binary_args, MapType};
use sqlit::ops::general::{Count, Distinct};
use sqlit::ops::{MapOp, OpContext, ReduceOp};
use sqlit::order::Order;
use sqlit::parser::rdp::RecursiveDescentParser;
use sqlit::parser::ParserNodeType;
use sqlit::result::{ErrorType, SqlError};
use sqlit::table::load::{create_column_map, extract_table_name, parse_header_line};
use sqlit::table::{Column, ColumnType, Store, Table};
use sqlit::tokenizer::Tokenizer;

struct Hardware;

fn number(value: Float) -> f64 {
    f64::from_bits(value.to_bits())
}

fn float(value: f64) -> Float {
    Float::from_bits(value.to_bits())
}

impl FloatMath for Hardware {
    fn parse(&self, field: &str) -> Option<Float> {
        field.parse::<f64>().ok().map(float)
    }

    fn format(&self, value: Float) -> String {
        number(value).to_string()
    }

    fn from_int(&self, value: i64) -> Float {
        float(value as f64)
    }

    fn add(&self, a: Float, b: Float) -> Float {
        float(number(a) + number(b))
    }

    fn subtract(&self, a: Float, b: Float) -> Float {
        float(number(a) - number(b))
    }

    fn multiply(&self, a: Float, b: Float) -> Float {
        float(number(a) * number(b))
    }

    fn divide(&self, a: Float, b: Float) -> Float {
        float(number(a) / number(b))
    }

    fn remainder(&self, a: Float, b: Float) -> Float {
        float(number(a) % number(b))
    }
}

fn csv() -> Box<dyn SepFinder> {
    Box::new(CsvFinder {}) as Box<dyn SepFinder>
}

fn texts(values: &[&str]) -> Vec<String> {
    values.iter().map(|v| v.to_string()).collect()
}

#[test]
fn convert_int() {
    let source = "12";

    let kernel = Hardware;
    let mut float_converter = ToFloat { floats: &kernel };
    let mut int_converter = ToInt {};

    match int_converter.convert(source) {
        None => assert!(false),
        Some(i) => assert_eq!(i, 12),
    }

    match float_converter.convert(source) {
        None => assert!(false),
        Some(f) => assert_eq!(number(f), 12.0),
    }
}

#[test]
fn convert_float() {
    let source = "12.56";

    let kernel = Hardware;
    let mut float_converter = ToFloat { floats: &kernel };
    let mut int_converter = ToInt {};

    match int_converter.convert(source) {
        None => assert!(true),
        Some(_i) => assert!(false),
    }

    match float_converter.convert(source) {
        None => assert!(false),
        Some(f) => assert_eq!(number(f), 12.56),
    }
}

#[test]
fn convert_bool() {
    let true_source = "true";
    let false_source = "false";
    let true_as_int = "1";
    let false_as_int = "0";
    let false_as_non_one = "2";

    let mut c = ToBool {};

    match c.convert(true_source) {
        None => assert!(false),
        Some(b) => assert!(b),
    }

    match c.convert(false_source) {
        None => assert!(false),
        Some(b) => assert!(!b),
    }

    match c.convert(true_as_int) {
        None => assert!(true),
        Some(_b) => assert!(false),
    }

    match c.convert(false_as_int) {
        None => assert!(true),
        Some(_b) => assert!(false),
    }

    match c.convert(false_as_non_one) {
        None => assert!(true),
        Some(_b) => assert!(false),
    }
}

#[test]
fn integers_are_read_as_the_standard_library_reads_them() {
    for field in [
        "0", "12", "+12", "-12", "-0", "+0", "007", "", "-", "+", "12a", " 12", "12 ", "1_2", "--1",
        "+-1", "1.0", "9223372036854775807", "9223372036854775808", "-9223372036854775808",
        "-9223372036854775809", "18446744073709551615", "18446744073709551616",
        "99999999999999999999999999", "٣",
    ] {
        assert_eq!(int_from(field), field.parse::<i64>().ok(), "{:?}", field);
        assert_eq!(usize_from(field), field.parse::<usize>().ok(), "{:?}", field);
    }
    assert_eq!(int_from("-9223372036854775808"), Some(i64::MIN));
    assert_eq!(usize_from("42"), Some(42));
    assert_eq!(ToString {}.convert("as it is"), Some("as it is".to_string()));
}

#[test]
fn convert_date() {
    let date = "2020-12-08";

    let mut converter = ToDate::new();

    match converter.convert(date) {
        Some(_d) => assert!(true),
        _ => assert!(false),
    }
}

#[test]
fn convert_date_gives_midnight_and_keeps_its_format() {
    let mut converter = ToDate::new();
    assert_eq!(converter.convert("2020-12-08"), Some(1607385600));
    assert_eq!(converter.convert("12/09/2020"), None);
    assert_eq!(converter.convert("2020-12-09"), Some(1607472000));

    let mut other = ToDate::new();
    assert_eq!(other.convert("2020-12-08T00:00:00+01:00"), Some(1607382000));
    assert_eq!(other.convert("Tue, 8 Dec 2020 00:00:00 +0000"), Some(1607385600));
    assert_eq!(other.convert("12/09/2020"), Some(1607472000));
    assert_eq!(other.convert("2020-12-09"), None);
    assert_eq!(other.convert("no date"), None);
}

#[test]
fn test_line_read() {
    let line = "this,is,a,4,'csv'";

    let parts = read_line(line.to_string(), &csv());

    assert_eq!(parts.len(), 5);
    parts.into_iter().zip(vec!["this", "is", "a", "4", "csv"].into_iter()).for_each(|(l, r)| {
        assert_eq!(l, r);
    });
}

#[test]
fn test_dynamic_pass() {
    let line = "this,is,a,4,'csv'";

    let parts = read_line(line.to_string(), &(Box::new(CsvFinder {}) as Box<dyn SepFinder>));

    // A field between quotes is read without them.
    parts.into_iter().zip(vec!["this", "is", "a", "4", "csv"].into_iter()).for_each(|(l, r)| {
        assert_eq!(l, r);
    });
}

#[test]
fn tough_csv() {
    let header = "valence,year,acousticness,artists,danceability,duration_ms,energy,explicit,id,instrumentalness,key,liveness,loudness,mode,name,popularity,release_date,speechiness,tempo";
    let l1 = "0.0594,1921,0.982,\"['Sergei Rachmaninoff', 'James Levine', 'Berliner Philharmoniker']\",0.279,831667,0.211,0,4BJqT0PrAfrxzMOxytFOIz,0.878,10,0.665,-20.096,1,\"Piano Concerto No. 3 in D Minor, Op. 30: III. Finale. Alla breve\",4,1921,0.0366,80.954";
    let l2 = "0.963,1921,0.732,['Dennis Day'],0.8190000000000001,180533,0.341,0,7xPhfUan2yNtyFG0cUWkt8,0.0,7,0.16,-12.441,1,Clancy Lowered the Boom,5,1921,0.415,60.93600000000001";

    let sep = csv();

    let length_header = read_line(header.to_string(), &sep).len();

    let l1_header = read_line(l1.to_string(), &sep);

    let l2_header = read_line(l2.to_string(), &sep);

    assert_eq!(length_header, l1_header.len());
    assert_eq!(length_header, l2_header.len())
}

#[test]
fn read_line_with_tabs_and_with_spaces() {
    let tabs = Box::new(TsvFinder {}) as Box<dyn SepFinder>;
    assert_eq!(read_line("a b\tc\t\"d\te\"".to_string(), &tabs), texts(&["a b", "c", "d\te"]));

    let spaces = Box::new(SpacesFinder {}) as Box<dyn SepFinder>;
    assert_eq!(read_line("one two   three  four".to_string(), &spaces), texts(&["one two", "three", "four"]));

    assert_eq!(read_line("".to_string(), &csv()), Vec::<String>::new());
    assert_eq!(read_line("a,,b , c".to_string(), &csv()), texts(&["a", "b", "c"]));
    assert_eq!(read_line("'open, quote".to_string(), &csv()), texts(&["open, quote"]));
}

#[test]
fn read_field_stops_at_the_separator() {
    let chars: Vec<char> = "ab \"c,d\" , e".chars().collect();
    assert_eq!(read_field(&chars, 0, chars.len(), &csv()), ("ab c,d".to_string(), 8));
    assert_eq!(read_field(&chars, 8, chars.len(), &csv()), ("".to_string(), 8));
    assert_eq!(read_field(&chars, 10, chars.len(), &csv()), (" e".to_string(), 12));
    assert_eq!(read_field(&chars, 0, 2, &csv()), ("ab".to_string(), 2));
}

#[test]
fn header_names_are_cleaned() {
    let names = parse_header_line("Team.Name, POINTS ,'Day'".to_string(), &csv());
    assert_eq!(names, texts(&["team_name", "points", "day"]));
    let index = create_column_map(&"t".to_string(), &names);
    assert_eq!(index.len(), 3);
    assert_eq!(index[1].qualifier, "t");
    assert_eq!(index[1].name, "points");
    assert_eq!(index[1].position, 1);
}

#[test]
fn test_binary_iterate() {
    let mut left = vec![Some(1), Some(2), Some(3)];
    let mut right = vec![Some(1), Some(2), Some(3)];
    let mut t = MapType::LL;
    let output: Vec<Option<usize>> = binary_iterate(&left, &right, t, |a: &usize, b: &usize| a + b);

    for (i, num) in vec![2, 4, 6].into_iter().map(Some).enumerate() {
        assert_eq!(num, output[i]);
    }

    left = vec![Some(1)];
    right = vec![Some(1), Some(2), Some(3)];
    t = MapType::SL;

    let output: Vec<Option<usize>> = binary_iterate(&left, &right, t, |a: &usize, b: &usize| a + b);

    for (i, num) in vec![2, 3, 4].into_iter().map(Some).enumerate() {
        assert_eq!(num, output[i]);
    }

    let left = vec![Some(1), Some(2), Some(3)];
    let right = vec![Some(1)];
    let t = MapType::LS;

    let output: Vec<Option<usize>> = binary_iterate(&left, &right, t, |a: &usize, b: &usize| a + b);

    for (i, num) in vec![2, 3, 4].into_iter().map(Some).enumerate() {
        assert_eq!(num, output[i]);
    }
}

#[test]
fn binary_iterate_gives_null_for_a_pair_with_a_null() {
    let left = vec![Some(1), None, Some(3)];
    let right = vec![None, Some(2), Some(3)];
    let output: Vec<Option<usize>> =
        binary_iterate(&left, &right, MapType::LL, |a: &usize, b: &usize| a * b);
    assert_eq!(output, vec![None, None, Some(9)]);

    let one = vec![Some(2)];
    let none: Vec<Option<usize>> = vec![];
    let output: Vec<Option<usize>> =
        binary_iterate(&one, &none, MapType::SL, |a: &usize, b: &usize| a * b);
    assert_eq!(output, vec![]);
}

#[test]
fn build_booleans() {
    let raw_booleans = vec!["true", "false", "false"].iter().map(|v| v.to_string()).collect();

    let column = build_column(raw_booleans, "nan", &Hardware);

    match column {
        Column::Booleans(v) => {
            assert!(v[0].unwrap());
            assert!(!v[1].unwrap());
            assert!(!v[2].unwrap());
        }

        _ => {
            assert!(false)
        }
    }
}

#[test]
fn build_booleans_fail() {
    let raw_booleans = vec!["true", "false", "233"].iter().map(|v| v.to_string()).collect();

    let column = build_column(raw_booleans, "nan", &Hardware);

    match column {
        Column::Strings(_) => {
            assert!(true)
        }

        _ => {
            assert!(false)
        }
    }
}

#[test]
fn build_column_tries_the_types_in_order() {
    match build_column(texts(&["2020-12-08", "null", "2021-01-01"]), "null", &Hardware) {
        Column::Dates(v) => assert_eq!(v, vec![Some(1607385600), None, Some(1609459200)]),
        _ => assert!(false),
    }
    match build_column(texts(&["1", "-2", "null"]), "null", &Hardware) {
        Column::Ints(v) => assert_eq!(v, vec![Some(1), Some(-2), None]),
        _ => assert!(false),
    }
    match build_column(texts(&["1", "2.5", "null"]), "null", &Hardware) {
        Column::Floats(v) => {
            assert_eq!(v.len(), 3);
            assert_eq!(number(v[0].unwrap()), 1.0);
            assert_eq!(number(v[1].unwrap()), 2.5);
            assert!(v[2].is_none());
        }
        _ => assert!(false),
    }
    match build_column(texts(&["1", "two", "null"]), "null", &Hardware) {
        Column::Strings(v) => {
            assert_eq!(v, vec![Some("1".to_string()), Some("two".to_string()), None])
        }
        _ => assert!(false),
    }
    match build_column(texts(&[]), "null", &Hardware) {
        Column::Booleans(v) => assert!(v.is_empty()),
        _ => assert!(false),
    }
}

#[test]
fn test_order() {
    let c = Column::Ints(vec![1, 2, 3, 4].into_iter().map(Some).collect());
    let order = vec![3, 2, 1, 0];

    let new = c.order(&order);

    match new {
        Column::Ints(i) => {
            assert_eq!(i.len(), 4);
            i.into_iter().zip((1..=4).rev()).for_each(|(a, b)| {
                assert_eq!(a, Some(b));
            })
        }
        _ => assert!(false),
    }
}

#[test]
fn column_operations() {
    let c = Column::Strings(vec![Some("a".to_string()), None, Some("c".to_string())]);
    assert_eq!(c.len(), 3);
    assert_eq!(c.type_(), ColumnType::String);
    assert_eq!(c.new_empty().len(), 0);
    assert_eq!(c.new_empty().type_(), ColumnType::String);

    match c.limit(2) {
        Column::Strings(v) => assert_eq!(v, vec![Some("a".to_string()), None]),
        _ => assert!(false),
    }
    match c.limit(7) {
        Column::Strings(v) => assert_eq!(v.len(), 3),
        _ => assert!(false),
    }
    match c.row(2) {
        Column::Strings(v) => assert_eq!(v, vec![Some("c".to_string())]),
        _ => assert!(false),
    }
    match c.select(&vec![Some(true), Some(false), Some(true)]) {
        Column::Strings(v) => assert_eq!(v, vec![Some("a".to_string()), Some("c".to_string())]),
        _ => assert!(false),
    }
    match c.select(&vec![None, Some(true)]) {
        Column::Strings(v) => assert_eq!(v, vec![None]),
        _ => assert!(false),
    }
    match c.concat(&Column::Strings(vec![Some("d".to_string())])) {
        Ok(Column::Strings(v)) => assert_eq!(v.len(), 4),
        _ => assert!(false),
    }
    match c.concat(&Column::Ints(vec![Some(1)])) {
        Err(e) => assert_eq!(e.kind(), ErrorType::Type),
        Ok(_) => assert!(false),
    }

    let mut ints = Column::Ints(vec![Some(5)]);
    ints.push_null();
    assert!(ints.extend(&Column::Ints(vec![Some(7)])).is_ok());
    assert!(ints.extend(&Column::Booleans(vec![Some(true)])).is_err());
    match &ints {
        Column::Ints(v) => assert_eq!(v, &vec![Some(5), None, Some(7)]),
        _ => assert!(false),
    }

    let mut written = String::new();
    ints.as_writable(0, &mut written, "NULL", &Hardware);
    ints.as_writable(1, &mut written, "NULL", &Hardware);
    Column::Ints(vec![Some(-120)]).as_writable(0, &mut written, "NULL", &Hardware);
    Column::Booleans(vec![Some(false)]).as_writable(0, &mut written, "NULL", &Hardware);
    Column::Floats(vec![Some(float(0.5))]).as_writable(0, &mut written, "NULL", &Hardware);
    assert_eq!(written, "5NULL-120false0.5");
}

#[test]
fn rows_are_ordered_with_a_null_equal_to_every_row() {
    let ints = Column::Ints(vec![Some(3), None, Some(-1), None]);
    assert_eq!(ints.row_order(0, 2), Order::Greater);
    assert_eq!(ints.row_order(2, 0), Order::Less);
    assert_eq!(ints.row_order(1, 0), Order::Equal);
    assert_eq!(ints.row_order(0, 1), Order::Equal);
    assert_eq!(ints.row_order(1, 3), Order::Equal);
    assert_eq!(ints.row_order(0, 9), Order::Equal);

    let bools = Column::Booleans(vec![Some(true), Some(false), None]);
    assert_eq!(bools.row_order(0, 1), Order::Less);
    assert_eq!(bools.row_order(1, 0), Order::Greater);
    assert_eq!(bools.row_order(2, 0), Order::Equal);
    assert_eq!(bools.row_order(0, 2), Order::Equal);
    assert_eq!(bools.row_order(1, 2), Order::Equal);

    let dates = Column::Dates(vec![Some(10), None, Some(-10)]);
    assert_eq!(dates.row_order(2, 0), Order::Less);
    assert_eq!(dates.row_order(1, 2), Order::Equal);
    let texts = Column::Strings(vec![None, Some("a".to_string())]);
    assert_eq!(texts.row_order(0, 1), Order::Equal);
    assert_eq!(texts.row_order(1, 0), Order::Equal);
    let reals = Column::Floats(vec![None, Some(float(1.0))]);
    assert_eq!(reals.row_order(0, 1), Order::Equal);
    assert_eq!(reals.row_order(1, 0), Order::Equal);

    let strings = Column::Strings(vec![Some("ab".to_string()), Some("b".to_string()), Some("a".to_string())]);
    assert_eq!(strings.row_order(0, 1), Order::Less);
    assert_eq!(strings.row_order(0, 2), Order::Greater);
    assert_eq!(strings.row_order(0, 0), Order::Equal);

    let floats = Column::Floats(vec![
        Some(float(-1.5)),
        Some(float(0.0)),
        Some(float(-0.0)),
        Some(float(f64::NAN)),
        Some(float(f64::INFINITY)),
    ]);
    assert_eq!(floats.row_order(0, 1), Order::Less);
    assert_eq!(floats.row_order(1, 2), Order::Equal);
    assert_eq!(floats.row_order(4, 3), Order::Less);
    assert_eq!(floats.row_order(3, 3), Order::Equal);
    assert_eq!(floats.row_order(1, 0), Order::Greater);
}

#[test]
fn elem_order_is_the_row_order() {
    let ints = Column::Ints(vec![Some(3), None, Some(-1)]);
    assert_eq!(ints.elem_order(0, 2), std::cmp::Ordering::Greater);
    assert_eq!(ints.elem_order(1, 2), std::cmp::Ordering::Equal);
    assert_eq!(ints.elem_order(2, 0), std::cmp::Ordering::Less);
    assert_eq!(ints.elem_order(1, 1), std::cmp::Ordering::Equal);
    assert_eq!(ints.elem_order(0, 3), std::cmp::Ordering::Equal);
}

#[test]
fn floats_compare_as_numbers() {
    let values = [-2.5, -0.0, 0.0, 1.0e-310, 3.0, f64::INFINITY, f64::NEG_INFINITY, f64::NAN];
    for a in values {
        for b in values {
            assert_eq!(float(a).lt(&float(b)), a < b);
            assert_eq!(float(a).eq(&float(b)), a == b);
            if a == b {
                assert_eq!(float(a).hash_bits(), float(b).hash_bits());
            }
        }
        assert_eq!(float(a).is_nan(), a.is_nan());
    }
}

#[test]
fn prepare_binary_args_checks_the_shape() {
    let three = Column::Ints(vec![Some(1), Some(2), Some(3)]);
    let one = Column::Ints(vec![Some(1)]);
    let two = Column::Ints(vec![Some(1), Some(2)]);

    assert_eq!(prepare_binary_args(&vec![&three, &three]).ok().unwrap().sizes, MapType::LL);
    assert_eq!(prepare_binary_args(&vec![&one, &three]).ok().unwrap().sizes, MapType::SL);
    assert_eq!(prepare_binary_args(&vec![&three, &one]).ok().unwrap().sizes, MapType::LS);
    assert_eq!(prepare_binary_args(&vec![&three, &two]).err().unwrap().kind(), ErrorType::Runtime);
    assert_eq!(prepare_binary_args(&vec![&three]).err().unwrap().kind(), ErrorType::Runtime);
}

fn ints(column: Column) -> Vec<Option<i64>> {
    match column {
        Column::Ints(v) => v,
        _ => panic!("not an integer column"),
    }
}

fn bools(column: Column) -> Vec<Option<bool>> {
    match column {
        Column::Booleans(v) => v,
        _ => panic!("not a boolean column"),
    }
}

fn floats(column: Column) -> Vec<Option<f64>> {
    match column {
        Column::Floats(v) => v.into_iter().map(|f| f.map(number)).collect(),
        _ => panic!("not a float column"),
    }
}

#[test]
fn seeded_map_operators() {
    let ops = OpContext::new(Box::new(Hardware));
    let a = Column::Ints(vec![Some(7), None, Some(-3), Some(i64::MAX)]);
    let b = Column::Ints(vec![Some(2), Some(1), Some(0), Some(1)]);
    let half = Column::Floats(vec![Some(float(0.5))]);

    assert_eq!(ints(ops.apply("+", &vec![&a, &b]).ok().unwrap()), vec![Some(9), None, Some(-3), Some(i64::MIN)]);
    assert_eq!(ints(ops.apply("-", &vec![&a, &b]).ok().unwrap()), vec![Some(5), None, Some(-3), Some(i64::MAX - 1)]);
    assert_eq!(ints(ops.apply("*", &vec![&a, &b]).ok().unwrap()), vec![Some(14), None, Some(0), Some(i64::MAX)]);
    assert_eq!(ints(ops.apply("/", &vec![&a, &b]).ok().unwrap()), vec![Some(3), None, None, Some(i64::MAX)]);
    assert_eq!(ints(ops.apply("%", &vec![&a, &b]).ok().unwrap()), vec![Some(1), None, None, Some(0)]);
    assert_eq!(
        floats(ops.apply("+", &vec![&b, &half]).ok().unwrap()),
        vec![Some(2.5), Some(1.5), Some(0.5), Some(1.5)]
    );
    assert_eq!(floats(ops.apply("*", &vec![&half, &half]).ok().unwrap()), vec![Some(0.25)]);

    assert_eq!(bools(ops.apply("=", &vec![&a, &b]).ok().unwrap()), vec![Some(false), None, Some(false), Some(false)]);
    assert_eq!(bools(ops.apply("!=", &vec![&a, &b]).ok().unwrap()), vec![Some(true), None, Some(true), Some(true)]);
    assert_eq!(bools(ops.apply(">", &vec![&a, &b]).ok().unwrap()), vec![Some(true), None, Some(false), Some(true)]);
    assert_eq!(bools(ops.apply("<=", &vec![&a, &b]).ok().unwrap()), vec![Some(false), None, Some(true), Some(false)]);
    assert_eq!(bools(ops.apply("<", &vec![&half, &b]).ok().unwrap()), vec![Some(true), Some(true), Some(false), Some(true)]);
    assert_eq!(bools(ops.apply(">=", &vec![&b, &half]).ok().unwrap()), vec![Some(true), Some(true), Some(false), Some(true)]);

    let words = Column::Strings(vec![Some("b".to_string()), Some("a".to_string()), None]);
    let word = Column::Strings(vec![Some("b".to_string())]);
    assert_eq!(bools(ops.apply("=", &vec![&words, &word]).ok().unwrap()), vec![Some(true), Some(false), None]);
    assert_eq!(bools(ops.apply("<", &vec![&words, &word]).ok().unwrap()), vec![Some(false), Some(true), None]);

    let p = Column::Booleans(vec![Some(true), Some(true), Some(false), None]);
    let q = Column::Booleans(vec![Some(true), Some(false), Some(false), Some(true)]);
    assert_eq!(bools(ops.apply("and", &vec![&p, &q]).ok().unwrap()), vec![Some(true), Some(false), Some(false), None]);
    assert_eq!(bools(ops.apply("or", &vec![&p, &q]).ok().unwrap()), vec![Some(true), Some(true), Some(false), None]);
    assert_eq!(bools(ops.apply("xor", &vec![&p, &q]).ok().unwrap()), vec![Some(false), Some(true), Some(false), None]);
    assert_eq!(bools(ops.apply("!", &vec![&p]).ok().unwrap()), vec![Some(false), Some(false), Some(true), None]);
    assert_eq!(bools(ops.apply("is_null", &vec![&p]).ok().unwrap()), vec![Some(false), Some(false), Some(false), Some(true)]);
    assert_eq!(bools(ops.apply("not_null", &vec![&a]).ok().unwrap()), vec![Some(true), Some(false), Some(true), Some(true)]);

    let dates = Column::Dates(vec![Some(1607385600), None, Some(-1)]);
    assert_eq!(ints(ops.apply("year", &vec![&dates]).ok().unwrap()), vec![Some(2020), None, Some(1969)]);

    assert_eq!(ops.apply("+", &vec![&a, &p]).err().unwrap().kind(), ErrorType::Type);
    assert_eq!(ops.apply("<", &vec![&p, &q]).err().unwrap().kind(), ErrorType::Type);
    assert_eq!(ops.apply("and", &vec![&a, &b]).err().unwrap().kind(), ErrorType::Type);
    assert_eq!(ops.apply("!", &vec![&a]).err().unwrap().kind(), ErrorType::Type);
    assert_eq!(ops.apply("year", &vec![&a]).err().unwrap().kind(), ErrorType::Type);
    assert_eq!(ops.apply("+", &vec![&a]).err().unwrap().kind(), ErrorType::Runtime);
    assert_eq!(ops.apply("!", &vec![&p, &q]).err().unwrap().kind(), ErrorType::Runtime);
    assert_eq!(ops.apply("+", &vec![&a, &word]).err().unwrap().kind(), ErrorType::Type);
    let short = Column::Ints(vec![Some(1), Some(2)]);
    assert_eq!(ops.apply("+", &vec![&a, &short]).err().unwrap().kind(), ErrorType::Runtime);
    assert_eq!(ops.apply("sum", &vec![&a]).err().unwrap().kind(), ErrorType::Lookup);
}

#[test]
fn seeded_reduce_operators() {
    let ops = OpContext::new(Box::new(Hardware));
    let a = Column::Ints(vec![Some(7), None, Some(-3), Some(5)]);
    let f = Column::Floats(vec![Some(float(1.5)), None, Some(float(f64::NAN)), Some(float(-2.0))]);
    let nulls = Column::Ints(vec![None, None]);
    let empty = Column::Floats(vec![]);
    let words = Column::Strings(vec![Some("a".to_string())]);

    assert_eq!(ints(ops.reduce("count", &a).ok().unwrap()), vec![Some(4)]);
    assert_eq!(ints(ops.reduce("count", &words).ok().unwrap()), vec![Some(1)]);
    assert_eq!(ints(ops.reduce("count", &empty).ok().unwrap()), vec![Some(0)]);
    assert_eq!(ints(ops.reduce("sum", &a).ok().unwrap()), vec![Some(9)]);
    assert_eq!(ints(ops.reduce("sum", &nulls).ok().unwrap()), vec![Some(0)]);
    assert_eq!(floats(ops.reduce("sum", &empty).ok().unwrap()), vec![Some(0.0)]);
    assert_eq!(ints(ops.reduce("max", &a).ok().unwrap()), vec![Some(7)]);
    assert_eq!(ints(ops.reduce("min", &a).ok().unwrap()), vec![Some(-3)]);
    assert_eq!(floats(ops.reduce("max", &f).ok().unwrap()), vec![Some(1.5)]);
    assert_eq!(floats(ops.reduce("min", &f).ok().unwrap()), vec![Some(-2.0)]);
    assert_eq!(floats(ops.reduce("mean", &a).ok().unwrap()), vec![Some(3.0)]);

    assert_eq!(ops.reduce("max", &nulls).err().unwrap().kind(), ErrorType::Runtime);
    assert_eq!(ops.reduce("min", &empty).err().unwrap().kind(), ErrorType::Runtime);
    assert_eq!(ops.reduce("mean", &empty).err().unwrap().kind(), ErrorType::Runtime);
    assert_eq!(ops.reduce("sum", &words).err().unwrap().kind(), ErrorType::Type);
    assert_eq!(ops.reduce("mean", &words).err().unwrap().kind(), ErrorType::Type);
    assert_eq!(ops.reduce("median", &a).err().unwrap().kind(), ErrorType::Lookup);

    assert_eq!(ints(ops.dispatch("sum", &vec![&a]).ok().unwrap()), vec![Some(9)]);
    assert_eq!(ops.dispatch("sum", &vec![&a, &a]).err().unwrap().kind(), ErrorType::Runtime);
    assert_eq!(ops.dispatch("sum", &vec![]).err().unwrap().kind(), ErrorType::Runtime);
    assert_eq!(ops.dispatch("nothing", &vec![&a]).err().unwrap().kind(), ErrorType::Lookup);
    assert_eq!(bools(ops.dispatch("is_null", &vec![&a]).ok().unwrap()), vec![Some(false), Some(true), Some(false), Some(false)]);
}

struct Twice;

impl MapOp for Twice {
    fn apply(&self, arguments: &Vec<&Column>) -> Result<Column, SqlError> {
        arguments[0].concat(arguments[0])
    }
}

#[test]
fn a_registered_operator_replaces_a_seeded_one() {
    let mut ops = OpContext::new(Box::new(Hardware));
    let a = Column::Ints(vec![Some(1)]);
    ops.set_apply("twice", Box::new(Twice));
    ops.set_apply("!", Box::new(Twice));
    assert_eq!(ints(ops.apply("twice", &vec![&a]).ok().unwrap()), vec![Some(1), Some(1)]);
    assert_eq!(ints(ops.dispatch("!", &vec![&a]).ok().unwrap()), vec![Some(1), Some(1)]);
}

struct First;

impl ReduceOp for First {
    fn reduce(&self, argument: &Column) -> Result<Column, SqlError> {
        Ok(argument.limit(1))
    }
}

#[test]
fn a_registered_reducer_is_dispatched() {
    let mut ops = OpContext::new(Box::new(Hardware));
    let a = Column::Ints(vec![Some(4), Some(5)]);
    ops.set_reduce("first", Box::new(First));
    ops.set_reduce("sum", Box::new(First));
    assert_eq!(ints(ops.reduce("first", &a).ok().unwrap()), vec![Some(4)]);
    assert_eq!(ints(ops.dispatch("sum", &vec![&a]).ok().unwrap()), vec![Some(4)]);
    assert_eq!(ints(ops.dispatch("max", &vec![&a]).ok().unwrap()), vec![Some(5)]);
    assert_eq!(ints(Count {}.reduce(&a).ok().unwrap()), vec![Some(2)]);
    assert_eq!(Distinct {}.reduce(&a).err().unwrap().kind(), ErrorType::Runtime);
}

#[test]
fn parse_basic_select() {
    let t = Tokenizer::new();
    let tokens = t.tokenize("SELECT a, b, c FROM table".to_string());
    let maybe_tree = RecursiveDescentParser::new(tokens).parse();

    match maybe_tree {
        Err(_e) => assert!(false),
        Ok(tree) => assert!(tree.children.len() > 0),
    }
}

#[test]
fn parse_two_function_select() {
    let t = Tokenizer::new();
    let tokens = t.tokenize("select mean(teampoints), mean(assists) from nba_games_stats".to_string());
    let maybe_tree = RecursiveDescentParser::new(tokens).parse();

    match maybe_tree {
        Err(_e) => assert!(false),
        Ok(tree) => {
            let (type_, _tokens, mut nodes) = tree.release();

            assert_eq!(type_, ParserNodeType::Query);

            let columns = nodes.pop_front().unwrap();
            let _from = nodes.pop_front().unwrap();

            let (type_, _tokens, nodes) = columns.release();

            assert_eq!(type_, ParserNodeType::Columns);
            assert_eq!(nodes.len(), 2);
        }
    }
}

#[test]
fn parse_as_clause() {
    let t = Tokenizer::new();
    let tokens = t.tokenize("SELECT mean(assists) as time FROM nba_games_stats".to_string());
    let maybe_tree = RecursiveDescentParser::new(tokens).parse();

    match maybe_tree {
        Err(_e) => assert!(false),
        Ok(tree) => {
            let (type_, _tokens, mut nodes) = tree.release();

            assert_eq!(type_, ParserNodeType::Query);

            let columns = nodes.pop_front().unwrap();
            let _from = nodes.pop_front().unwrap();

            let (type_, _tokens, nodes) = columns.release();

            assert_eq!(type_, ParserNodeType::Columns);
            assert_eq!(nodes[0].children.len(), 2);
            assert_eq!(nodes[0].children[1].tokens[0].get_text(), "time");
        }
    }
}

fn parse(query: &str) -> Result<sqlit::parser::ParserNode, SqlError> {
    let tokens = Tokenizer::new().tokenize(query.to_string());
    RecursiveDescentParser::new(tokens).parse()
}

#[test]
fn parser_rejects_what_the_grammar_does_not_allow() {
    for query in [
        "",
        "from t",
        "select",
        "select a from",
        "select a where b from t",
        "select a from t limit x",
        "select (a from t",
        "select f(a from t",
        "select a, from t",
        "select a from t left join u",
        "select a from t order by 1",
        "select a from t into ",
        "select a from (select b) ",
    ] {
        match parse(query) {
            Err(e) => assert_eq!(e.kind(), ErrorType::Syntax),
            Ok(_) => assert!(false, "{}", query),
        }
    }
}

#[test]
fn parser_keeps_the_clauses_and_the_operators_in_order() {
    let tree = parse(
        "select a + b * 2 as x, * from t u left join (select 1 as c) v on u.a = v.c \
         where a > 1 and b != 2 group by a order by a desc, b limit 3 into 'out.tsv'",
    )
    .ok()
    .unwrap();
    let kinds: Vec<ParserNodeType> = tree.children.iter().map(|c| *c.get_type()).collect();
    assert_eq!(
        kinds,
        vec![
            ParserNodeType::Columns,
            ParserNodeType::From,
            ParserNodeType::Where,
            ParserNodeType::GroupBy,
            ParserNodeType::OrderBy,
            ParserNodeType::Limit,
            ParserNodeType::Into,
        ]
    );
    let columns = &tree.children[0];
    assert_eq!(columns.children.len(), 2);
    assert_eq!(*columns.children[1].get_type(), ParserNodeType::StarOperator);
    let term = &columns.children[0].children[0].children[0].children[0];
    assert_eq!(*term.get_type(), ParserNodeType::Term);
    assert!(term.get_tokens()[0].is("+"));
    assert!(term.children[1].get_tokens()[0].is("*"));
    let from = &tree.children[1];
    assert_eq!(from.children.len(), 3);
    assert!(from.get_tokens()[0].is("left join"));
    assert!(from.children[0].get_tokens()[1].is("u"));
    assert_eq!(from.children[1].children.len(), 1);
    let order = &tree.children[4];
    assert!(order.children[0].get_tokens()[1].is("desc"));
    assert_eq!(order.children[1].get_tokens().len(), 1);
    assert!(tree.children[6].get_tokens()[0].is("'out.tsv'"));
}

#[test]
fn test_get() {
    let alias = extract_table_name("tests/data/nba.games.stats.csv").unwrap();
    assert_eq!(alias, "nba_games_stats");
    let loaded = Table::from_lines(
        alias,
        "Team,Points".to_string(),
        texts(&["ATL,102", "BOS,99"]),
        &csv(),
        "null",
        &Hardware,
    );
    let mut s = Store::new();
    s.set(loaded.table);

    match s.get("nba_games_stats") {
        Ok(_t) => assert!(true),
        Err(_e) => assert!(false),
    };
    match s.get("nba") {
        Ok(_t) => assert!(false),
        Err(e) => assert_eq!(e.kind(), ErrorType::Lookup),
    };
    assert_eq!(s.list().len(), 1);
    assert_eq!(extract_table_name("/"), None);
    assert_eq!(extract_table_name("Data.File").unwrap(), "data");
}

#[test]
fn errors_are_shown_with_their_kind() {
    assert_eq!(SqlError::new("no", ErrorType::Syntax).to_string(), "Syntax Error: no");
    assert_eq!(SqlError::io_error("disk").to_string(), "IO Error: disk");
    assert_eq!(SqlError::io_error("disk").kind(), ErrorType::IO);
    assert_eq!(
        SqlError::args_length_error(1, 20, "sum").to_string(),
        "Runtime Error: sum expects 1 argument(s) but received 20 argument(s)"
    );
    assert_eq!(SqlError::look_up_error("a", "table").to_string(), "Lookup Error: a not found in table");
    assert_eq!(SqlError::new("t", ErrorType::Type).to_string(), "Type Error: t");
}
