use sqlit::eval::{eval, FileOutput};
use sqlit::floats::{Float, FloatMath};
use sqlit::ingest::{CsvFinder, SepFinder, TsvFinder};
use sqlit::ops::OpContext;
use sqlit::parser::rdp::RecursiveDescentParser;
use sqlit::result::{ErrorType, SqlError, SqlResult};
use sqlit::table::{Column, ColumnType, Store, Table};
use sqlit::tokenizer::Tokenizer;

struct Hardware;

fn number(value: Float) -> f64 {
    f64::from_bits(value.to_bits())
}

fn float(value: f64) -> Float {
    Float::from_bits(value.to_bits())
}

impl FloatMath for Hardware {
    fn parse(&self, field: &str) -> Option<Float> {
        field.parse::<f64>().ok().map(float)
    }

    fn format(&self, value: Float) -> String {
        number(value).to_string()
    }

    fn from_int(&self, value: i64) -> Float {
        float(value as f64)
    }

    fn add(&self, a: Float, b: Float) -> Float {
        float(number(a) + number(b))
    }

    fn subtract(&self, a: Float, b: Float) -> Float {
        float(number(a) - number(b))
    }

    fn multiply(&self, a: Float, b: Float) -> Float {
        float(number(a) * number(b))
    }

    fn divide(&self, a: Float, b: Float) -> Float {
        float(number(a) / number(b))
    }

    fn remainder(&self, a: Float, b: Float) -> Float {
        float(number(a) % number(b))
    }
}

fn load(alias: &str, header: &str, lines: &[&str]) -> Table {
    let separator = Box::new(CsvFinder {}) as Box<dyn SepFinder>;
    Table::from_lines(
        alias.to_string(),
        header.to_string(),
        lines.iter().map(|l| l.to_string()).collect(),
        &separator,
        "null",
        &Hardware,
    )
    .table
}

// null_test
//
// first,second,third
// 0,"hello",null
// 0,"bye",true
// 1,"null",false
// null,"null",false
fn null_test() -> Table {
    load(
        "null_test",
        "first,second,third",
        &["0,\"hello\",null", "0,\"bye\",true", "1,\"null\",false", "null,\"null\",false"],
    )
}

fn data() -> Table {
    load(
        "data",
        "name,danceability",
        &["waltz,0.3", "polka,0.9", "dirge,null", "tango,0.6", "march,0.3"],
    )
}

fn store() -> Store {
    let mut store = Store::new();
    store.set(null_test());
    store.set(data());
    store.set(load("empty", "a,b", &[]));
    store.set(load("points", "team,points,day", &["x,3,2020-01-01", "y,5,2021-06-30", "x,4,2021-01-01", "z,null,null", "y,1,2020-02-02"]));
    store
}

fn eval_with(query: &str, store: &Store, written: &mut Vec<FileOutput>) -> SqlResult<Table> {
    let mut ops = OpContext::new(Box::new(Hardware));

    let tokenizer = Tokenizer::new();

    let tokens = tokenizer.tokenize(query.to_string());

    let parsed = RecursiveDescentParser::new(tokens).parse()?;

    eval(parsed, &mut ops, store, written)
}

fn eval_query(query: &str) -> SqlResult<Table> {
    eval_with(query, &store(), &mut Vec::new())
}

fn table_less(query: &str) -> SqlResult<Table> {
    eval_with(query, &Store::new(), &mut Vec::new())
}

fn ints(column: &Column) -> Vec<Option<i64>> {
    match column {
        Column::Ints(v) => v.clone(),
        _ => panic!("not an integer column"),
    }
}

fn bools(column: &Column) -> Vec<Option<bool>> {
    match column {
        Column::Booleans(v) => v.clone(),
        _ => panic!("not a boolean column"),
    }
}

fn strings(column: &Column) -> Vec<Option<String>> {
    match column {
        Column::Strings(v) => v.clone(),
        _ => panic!("not a text column"),
    }
}

fn floats(column: &Column) -> Vec<Option<f64>> {
    match column {
        Column::Floats(v) => v.iter().map(|f| f.map(number)).collect(),
        _ => panic!("not a float column"),
    }
}

fn words(values: &[&str]) -> Vec<Option<String>> {
    values.iter().map(|v| Some(v.to_string())).collect()
}

fn rectangular(t: &Table) -> bool {
    t.is_rectangular() && t.columns.iter().all(|c| c.len() == t.len())
}

#[test]
fn queries_against_null_table_test_column_is_hello() {
    let result = eval_query("select second = 'hello' from null_test where second = 'hello'");

    match result {
        Err(_e) => assert!(false),
        Ok(t) => {
            assert!(t.len() > 0);
            assert_eq!(t.len(), 1);

            let cols = t.into_columns();

            assert_eq!(cols.len(), 1);

            match cols[0].column.as_ref() {
                Column::Booleans(b) => {
                    assert!(b[0].unwrap());
                }
                _ => assert!(false),
            }
        }
    }
}

#[test]
fn queries_against_table_test_column_is_hello() {
    let mut store = Store::new();
    store.set(null_test());
    let result = eval_with(
        "select second = 'hello' from null_test where second = 'hello'",
        &store,
        &mut Vec::new(),
    );

    match result {
        Err(_e) => assert!(false),
        Ok(t) => {
            assert!(t.len() > 0);

            let cols = t.into_columns();

            assert_eq!(cols.len(), 1);

            match cols[0].column.as_ref() {
                Column::Booleans(b) => {
                    assert!(b[0].unwrap());
                }
                _ => assert!(false),
            }
        }
    }
}

#[test]
fn queries_against_table_test_join() {
    let result = eval_query("select * from null_test a left join null_test b on a.first = b.first");

    if !result.is_ok() {
        println!("{}", result.err().unwrap().to_string());
        assert!(false);

        return;
    }

    let t = result.unwrap();

    assert_eq!(t.len(), 6);

    assert_eq!(t.to_columns().len(), 6);
    assert!(rectangular(&t));
    assert_eq!(ints(&t.columns[0]), vec![Some(0), Some(0), Some(0), Some(0), Some(1), None]);
    assert_eq!(ints(&t.columns[3]), vec![Some(0), Some(0), Some(0), Some(0), Some(1), None]);
    assert_eq!(
        strings(&t.columns[1]),
        vec![Some("hello".to_string()), Some("hello".to_string()), Some("bye".to_string()), Some("bye".to_string()), None, None]
    );
    assert_eq!(
        strings(&t.columns[4]),
        vec![Some("hello".to_string()), Some("bye".to_string()), Some("hello".to_string()), Some("bye".to_string()), None, None]
    );
    assert_eq!(bools(&t.columns[5]), vec![None, Some(true), None, Some(true), Some(false), None]);
}

#[test]
fn test_string_equality() {
    let result = table_less("select 'hello' = 'hello'");

    match result {
        Err(_e) => assert!(false),
        Ok(t) => {
            assert_eq!(t.len(), 1);
            let cols = t.into_columns();

            assert_eq!(cols.len(), 1);

            match cols[0].column.as_ref() {
                Column::Booleans(b) => {
                    assert!(b[0].unwrap());
                }
                _ => assert!(false),
            }
        }
    }
}

#[test]
fn test_select_from_select() {
    let result = table_less("select second, first from (select 1 as first, 2 as second) table");

    match result {
        Err(e) => {
            println!("{}", e.to_string());
            assert!(false)
        }
        Ok(t) => {
            assert_eq!(t.len(), 1);
            let cols = t.into_columns();

            assert_eq!(cols.len(), 2);

            match cols[0].column.as_ref() {
                Column::Ints(i) => {
                    assert_eq!(i[0].unwrap(), 2)
                }
                _ => assert!(false),
            }
            match cols[1].column.as_ref() {
                Column::Ints(i) => {
                    assert_eq!(i[0].unwrap(), 1)
                }
                _ => assert!(false),
            }
        }
    }
}

#[test]
fn case_sensitive_string_comp() {
    let result = table_less("select 1 from (select 'Hello' as hello) table where hello = 'Hello'");

    match result {
        Err(e) => {
            println!("{}", e.to_string());
            assert!(false)
        }
        Ok(t) => {
            assert_eq!(t.len(), 1);
            let cols = t.into_columns();

            assert_eq!(cols.len(), 1);

            match cols[0].column.as_ref() {
                Column::Ints(b) => {
                    assert_eq!(b[0].unwrap(), 1)
                }
                _ => assert!(false),
            }
        }
    }
}

#[test]
fn test_danceability() {
    let t = eval_query("select name, danceability from data order by danceability").ok().unwrap();
    assert_eq!(t.len(), 5);
    // A null is equal to every value, so `dirge` keeps its place and the
    // rows after it do not pass it.
    assert_eq!(
        strings(&t.columns[0]),
        words(&["waltz", "polka", "dirge", "march", "tango"])
    );
    assert_eq!(floats(&t.columns[1]), vec![Some(0.3), Some(0.9), None, Some(0.3), Some(0.6)]);

    let known = eval_query(
        "select name, danceability from (select name, danceability from data where not_null(danceability)) d \
         order by danceability",
    )
    .ok()
    .unwrap();
    assert_eq!(strings(&known.columns[0]), words(&["waltz", "march", "tango", "polka"]));
    assert_eq!(floats(&known.columns[1]), vec![Some(0.3), Some(0.3), Some(0.6), Some(0.9)]);
}

#[test]
fn order_by_descending_reverses_distinct_keys() {
    let up = eval_query("select points from (select points from points where not_null(points)) p order by points")
        .ok()
        .unwrap();
    assert_eq!(ints(&up.columns[0]), vec![Some(1), Some(3), Some(4), Some(5)]);
    let down = eval_query(
        "select points from (select points from points where not_null(points)) p order by points desc",
    )
    .ok()
    .unwrap();
    assert_eq!(ints(&down.columns[0]), vec![Some(5), Some(4), Some(3), Some(1)]);
    let with_null = eval_query("select points from points order by points").ok().unwrap();
    assert_eq!(ints(&with_null.columns[0]), vec![Some(3), Some(4), Some(5), None, Some(1)]);
    let both = eval_query("select team, points from points order by team desc, points").ok().unwrap();
    assert_eq!(strings(&both.columns[0]), words(&["z", "y", "y", "x", "x"]));
    assert_eq!(ints(&both.columns[1]), vec![None, Some(1), Some(5), Some(3), Some(4)]);
    assert_eq!(eval_query("select team from points order by nothing").err().unwrap().kind(), ErrorType::Lookup);
}

#[test]
fn select_star_gives_the_table() {
    let source = null_test();
    let t = eval_query("select * from null_test").ok().unwrap();
    assert_eq!(t.column_names(), source.column_names());
    assert_eq!(t.len(), 4);
    assert_eq!(ints(&t.columns[0]), ints(&source.columns[0]));
    assert_eq!(strings(&t.columns[1]), strings(&source.columns[1]));
    assert_eq!(bools(&t.columns[2]), bools(&source.columns[2]));
    let more = eval_query("select first, * from null_test").ok().unwrap();
    assert_eq!(more.width(), 4);
}

#[test]
fn where_keeps_the_rows_that_hold() {
    let t = eval_query("select team, points from points where (points > 3) and (team != 'z')").ok().unwrap();
    assert_eq!(strings(&t.columns[0]), words(&["y", "x"]));
    assert_eq!(ints(&t.columns[1]), vec![Some(5), Some(4)]);

    let empty = eval_query("select a, b from empty where a = b").ok().unwrap();
    assert_eq!(empty.len(), 0);
    assert_eq!(empty.column_names(), vec!["a".to_string(), "b".to_string()]);
    assert!(rectangular(&empty));

    assert_eq!(eval_query("select team from points where points").err().unwrap().kind(), ErrorType::Type);
    assert_eq!(eval_query("select team from points where 1 = 1").err().unwrap().kind(), ErrorType::Runtime);
    assert_eq!(eval_query("select team from points where nothing = 1").err().unwrap().kind(), ErrorType::Lookup);
}

#[test]
fn limit_truncates() {
    let none = eval_query("select team, points from points limit 0").ok().unwrap();
    assert_eq!(none.len(), 0);
    assert_eq!(none.column_names(), vec!["team".to_string(), "points".to_string()]);
    assert_eq!(none.columns[0].type_(), ColumnType::String);
    assert_eq!(none.columns[1].type_(), ColumnType::Int);

    let two = eval_query("select team from points limit 2").ok().unwrap();
    assert_eq!(strings(&two.columns[0]), words(&["x", "y"]));

    let all = eval_query("select team from points limit 100").ok().unwrap();
    assert_eq!(strings(&all.columns[0]), words(&["x", "y", "x", "z", "y"]));

    assert_eq!(eval_query("select team from points limit 1.5").err().unwrap().kind(), ErrorType::Type);
}

#[test]
fn group_by_gives_one_row_for_each_key() {
    let t = eval_query("select team, sum(points), count(points) from points group by team")
        .ok()
        .unwrap();
    assert_eq!(t.len(), 3);
    assert!(rectangular(&t));
    assert_eq!(strings(&t.columns[0]), words(&["x", "y", "z"]));
    assert_eq!(ints(&t.columns[1]), vec![Some(7), Some(6), Some(0)]);
    assert_eq!(ints(&t.columns[2]), vec![Some(2), Some(2), Some(1)]);

    let means = eval_query("select team, mean(points) as m from points where not_null(points) group by team order by m desc")
        .ok()
        .unwrap();
    assert_eq!(strings(&means.columns[0]), words(&["x", "y"]));
    assert_eq!(floats(&means.columns[1]), vec![Some(3.5), Some(3.0)]);
    assert_eq!(means.column_names(), vec!["team".to_string(), "m".to_string()]);

    let years = eval_query("select year as y, count(team) from points group by year(day)").ok().unwrap();
    assert_eq!(ints(&years.columns[0]), vec![Some(2020), Some(2021), None]);
    assert_eq!(ints(&years.columns[1]), vec![Some(2), Some(2), Some(1)]);

    let empty = eval_query("select a, count(b) from empty group by a").ok().unwrap();
    assert_eq!(empty.len(), 0);

    let constant = eval_query("select count(a) from empty group by 1").ok().unwrap();
    assert_eq!(constant.len(), 0);

    assert_eq!(
        eval_query("select team, points from points group by team").err().unwrap().kind(),
        ErrorType::Runtime
    );
}

#[test]
fn projections_are_brought_to_one_length() {
    let t = eval_query("select 1, points + 1, points * 0.5, 'x', max(points) from points").ok().unwrap();
    assert!(rectangular(&t));
    assert_eq!(t.len(), 5);
    assert_eq!(ints(&t.columns[0]), vec![Some(1); 5]);
    assert_eq!(ints(&t.columns[1]), vec![Some(4), Some(6), Some(5), None, Some(2)]);
    assert_eq!(floats(&t.columns[2]), vec![Some(1.5), Some(2.5), Some(2.0), None, Some(0.5)]);
    assert_eq!(ints(&t.columns[4]), vec![Some(5); 5]);

    let none = eval_query("select 1, a from empty").ok().unwrap();
    assert_eq!(none.len(), 0);
    assert!(rectangular(&none));

    assert_eq!(
        eval_query("select points, (select points from points limit 2) from points").err().unwrap().kind(),
        ErrorType::Runtime
    );
}

#[test]
fn expressions() {
    let t = table_less("select 1 + 2 * 3, (1 + 2) * 3, 7 / 2, 7 / 0, 7 - 4, 1 < 2, 1.5 + 1, 'b' > 'a', sum(4), is_null(1)")
        .ok()
        .unwrap();
    assert_eq!(ints(&t.columns[0]), vec![Some(7)]);
    assert_eq!(ints(&t.columns[1]), vec![Some(9)]);
    assert_eq!(ints(&t.columns[2]), vec![Some(3)]);
    assert_eq!(ints(&t.columns[3]), vec![None]);
    assert_eq!(ints(&t.columns[4]), vec![Some(3)]);
    assert_eq!(bools(&t.columns[5]), vec![Some(true)]);
    assert_eq!(floats(&t.columns[6]), vec![Some(2.5)]);
    assert_eq!(bools(&t.columns[7]), vec![Some(true)]);
    assert_eq!(ints(&t.columns[8]), vec![Some(4)]);
    assert_eq!(bools(&t.columns[9]), vec![Some(false)]);

    let literal = table_less("select 'nan', true, '2020-12-08', 'some text'").ok().unwrap();
    assert_eq!(bools(&literal.columns[0]), vec![None]);
    assert_eq!(bools(&literal.columns[1]), vec![Some(true)]);
    assert_eq!(literal.columns[2].type_(), ColumnType::Date);
    assert_eq!(strings(&literal.columns[3]), words(&["some text"]));

    assert_eq!(table_less("select a").err().unwrap().kind(), ErrorType::Lookup);
    assert_eq!(table_less("select f(1)").err().unwrap().kind(), ErrorType::Lookup);
    assert_eq!(table_less("select 1 + 'a'").err().unwrap().kind(), ErrorType::Type);
    assert_eq!(table_less("select sum(1, 2)").err().unwrap().kind(), ErrorType::Runtime);
    assert_eq!(table_less("select - 1").err().unwrap().kind(), ErrorType::Runtime);
    assert_eq!(table_less("select 1 +").err().unwrap().kind(), ErrorType::Syntax);
    assert_eq!(table_less("select 1 from nowhere").err().unwrap().kind(), ErrorType::Lookup);
    assert_eq!(table_less("select (select 1, 2)").err().unwrap().kind(), ErrorType::Runtime);
}

#[test]
fn qualified_names() {
    let t = eval_query("select p.team, q.points from points p left join points q on p.points = q.points")
        .ok()
        .unwrap();
    assert_eq!(strings(&t.columns[0]), words(&["x", "y", "x", "z", "y"]));
    assert_eq!(ints(&t.columns[1]), vec![Some(3), Some(5), Some(4), None, Some(1)]);
    assert_eq!(
        eval_query("select team from points p left join points q on p.points = q.points").err().unwrap().kind(),
        ErrorType::Lookup
    );
    assert_eq!(eval_query("select nobody.team from points").err().unwrap().kind(), ErrorType::Lookup);
    assert_eq!(
        eval_query("select p.team from points p left join points q on q.points").err().unwrap().kind(),
        ErrorType::Type
    );
}

#[test]
fn into_gives_the_text_of_the_file() {
    let mut written: Vec<FileOutput> = Vec::new();
    let store = store();
    let t = eval_with("select * from null_test into 'out.csv'", &store, &mut written).ok().unwrap();
    assert_eq!(t.len(), 0);
    assert_eq!(t.width(), 0);
    assert_eq!(written.len(), 1);
    assert_eq!(written[0].filename, "out.csv");
    assert_eq!(
        written[0].content,
        "first,second,third\n\"0\",\"hello\",\"NULL\"\n\"0\",\"bye\",\"true\"\n\"1\",\"NULL\",\"false\"\n\"NULL\",\"NULL\",\"false\""
    );

    eval_with("select team, points from points limit 1 into 'out.tsv'", &store, &mut written).ok().unwrap();
    assert_eq!(written.len(), 2);
    assert_eq!(written[1].filename, "out.tsv");
    assert_eq!(written[1].content, "team\tpoints\n\"x\"\t\"3\"");
}

#[test]
fn a_written_table_is_read_back() {
    let mut written: Vec<FileOutput> = Vec::new();
    let store = store();
    eval_with("select * from null_test into 'out.tsv'", &store, &mut written).ok().unwrap();
    let mut lines = written[0].content.lines().map(|l| l.to_string());
    let header = lines.next().unwrap();
    let separator = Box::new(TsvFinder {}) as Box<dyn SepFinder>;
    let back = Table::from_lines("null_test".to_string(), header, lines.collect(), &separator, "NULL", &Hardware);
    assert!(back.skipped.is_empty());
    let source = null_test();
    assert_eq!(back.table.column_names(), source.column_names());
    assert_eq!(ints(&back.table.columns[0]), ints(&source.columns[0]));
    assert_eq!(strings(&back.table.columns[1]), strings(&source.columns[1]));
    assert_eq!(bools(&back.table.columns[2]), bools(&source.columns[2]));
}

#[test]
fn lines_with_too_few_fields_are_left_out() {
    let separator = Box::new(CsvFinder {}) as Box<dyn SepFinder>;
    let loaded = Table::from_lines(
        "t".to_string(),
        "A.B,c,D".to_string(),
        vec!["1,2,3".to_string(), "1,2".to_string(), "4,5,6,7".to_string()],
        &separator,
        "null",
        &Hardware,
    );
    assert_eq!(loaded.skipped, vec![1]);
    assert_eq!(loaded.table.column_names(), vec!["a_b".to_string(), "c".to_string(), "d".to_string()]);
    assert_eq!(loaded.table.len(), 2);
    assert_eq!(loaded.table.alias(), "t");
    assert_eq!(ints(&loaded.table.columns[0]), vec![Some(1), Some(4)]);
    assert_eq!(ints(&loaded.table.columns[1]), vec![Some(2), Some(5)]);
    assert_eq!(ints(&loaded.table.columns[2]), vec![Some(3), Some(6)]);
}

#[test]
fn every_result_has_columns_of_one_length() {
    for query in [
        "select * from points",
        "select 1, team from points where points > 1",
        "select team, count(points) from points group by team",
        "select * from points p left join null_test n on p.points = n.first",
        "select team from points order by points desc limit 3",
        "select 1",
        "select count(a), a from empty",
    ] {
        let t = eval_query(query).ok().unwrap();
        assert!(rectangular(&t), "{}", query);
    }
}

#[test]
fn a_tree_that_is_no_query_is_refused() {
    let tokens = Tokenizer::new().tokenize("select a from t".to_string());
    let tree = RecursiveDescentParser::new(tokens).parse().ok().unwrap();
    let (_kind, _tokens, mut children) = tree.release();
    let columns = children.pop_front().unwrap();
    let mut ops = OpContext::new(Box::new(Hardware));
    let refused: Result<Table, SqlError> = eval(columns, &mut ops, &Store::new(), &mut Vec::new());
    assert_eq!(refused.err().unwrap().kind(), ErrorType::Runtime);
}

// capitals_test
//
// one,two
// first last,1
// First Last,2
// fIRST lAST,3
fn capitals_test() -> Table {
    load("capitals_test", "one,two", &["first last,1", "First Last,2", "fIRST lAST,3"])
}

fn eval_against(query: &str, table: Table) -> SqlResult<Table> {
    let mut store = Store::new();
    store.set(table);
    let mut written = Vec::new();
    eval_with(query, &store, &mut written)
}

#[test]
fn queries_against_null_table_test_join() {
    let result = eval_against("select * from null_test a left join null_test b on a.first = b.first", null_test());

    if !result.is_ok() {
        println!("{}", result.err().unwrap().to_string());
        assert!(false);

        return;
    }

    let t = result.ok().unwrap();

    println!("{}", t.to_string(&Hardware).unwrap());
    // The two rows with `first = 0` pair with each other, which gives four
    // rows; the row with 1 pairs with itself, and the row without a key
    // stands alone beside nulls.
    assert_eq!(t.len(), 6);

    assert_eq!(t.to_columns().len(), 6);
}

#[test]
fn test_string_comp() {
    // The text of a token is in lower case, so the literal is `first last`.
    let result = eval_against("select * from capitals_test where one = 'First Last'", capitals_test());

    match result {
        Ok(r) => {
            assert_eq!(r.len(), 1);
        }
        Err(e) => {
            println!("{}", e.to_string());
            assert!(false);
        }
    };
}
