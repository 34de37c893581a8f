use sqlit::eval::commands::{PrintableColumns, PrintableTableNames, PrintableTables};
use sqlit::floats::{Float, FloatMath};
use sqlit::ingest::{CsvFinder, SepFinder};
use sqlit::linefeed_io::TableCompleter;
use sqlit::parser::rdp::RecursiveDescentParser;
use sqlit::result::ErrorType;
use sqlit::table::render::{find_column_width, render_grid};
use sqlit::table::{Column, NamedColumn, Store, Table};
use std::rc::Rc;
use sqlit::tokenizer::{Token, TokenType, Tokenizer};

struct Hardware;

fn number(value: Float) -> f64 {
    f64::from_bits(value.to_bits())
}

fn float(value: f64) -> Float {
    Float::from_bits(value.to_bits())
}

impl FloatMath for Hardware {
    fn parse(&self, field: &str) -> Option<Float> {
        field.parse::<f64>().ok().map(float)
    }

    fn format(&self, value: Float) -> String {
        number(value).to_string()
    }

    fn from_int(&self, value: i64) -> Float {
        float(value as f64)
    }

    fn add(&self, a: Float, b: Float) -> Float {
        float(number(a) + number(b))
    }

    fn subtract(&self, a: Float, b: Float) -> Float {
        float(number(a) - number(b))
    }

    fn multiply(&self, a: Float, b: Float) -> Float {
        float(number(a) * number(b))
    }

    fn divide(&self, a: Float, b: Float) -> Float {
        float(number(a) / number(b))
    }

    fn remainder(&self, a: Float, b: Float) -> Float {
        float(number(a) % number(b))
    }
}

fn load(alias: &str, header: &str, lines: &[&str]) -> Table {
    let separator = Box::new(CsvFinder {}) as Box<dyn SepFinder>;
    Table::from_lines(
        alias.to_string(),
        header.to_string(),
        lines.iter().map(|l| l.to_string()).collect(),
        &separator,
        "null",
        &Hardware,
    )
    .table
}

fn points() -> Table {
    load("points", "team,points,day,share,won", &["x,3,2020-01-01,0.5,true", "yankees,null,null,null,null"])
}

#[test]
fn a_table_is_shown_in_aligned_columns() {
    let shown = points().to_string(&Hardware).unwrap();
    assert_eq!(
        shown,
        "team     points  day                  share  won    \n\
         x        3       2020-01-01 00:00:00  0.5    true   \n\
         yankees  NULL    NULL                 NULL   NULL   "
    );
    assert_eq!(Table::new().to_string(&Hardware).unwrap(), "\n");
    // A column without fields is a boolean column.
    assert_eq!(load("t", "a", &[]).to_string(&Hardware).unwrap(), "a      \n");
}

#[test]
fn a_null_is_not_counted_in_the_width_of_its_column() {
    let mut t = Table::new();
    t.push(
        NamedColumn { name: "ab".to_string(), column: Rc::new(Column::Ints(vec![Some(1), None])) },
        None,
    );
    assert_eq!(t.to_string(&Hardware).unwrap(), "ab  \n1   \nNULL");

    // A column that shows a null is as wide as `NULL`, so that the
    // columns after it stay aligned.
    let narrow = load("t", "a,b", &["1,x", "null,y"]);
    assert_eq!(narrow.to_string(&Hardware).unwrap(), "a   b  \n1   x  \nNULLy  ");

    // A boolean column is five wide and two more, whatever it holds.
    let flags = load("t", "f", &["true"]);
    assert_eq!(flags.to_string(&Hardware).unwrap(), "f      \ntrue   ");
    let long = load("t", "long_name", &["true", "null"]);
    assert_eq!(long.to_string(&Hardware).unwrap(), "long_name  \ntrue       \nNULL       ");
}

#[test]
fn a_grid_is_laid_out_by_its_widest_texts() {
    let names = vec!["n".to_string(), "longer".to_string()];
    let grid = vec![
        vec!["12345".to_string(), "".to_string()],
        vec!["a".to_string(), "b".to_string()],
    ];
    assert_eq!(
        render_grid(&names, &grid, &vec![7, 8], 2),
        "n      longer  \n12345  a       \n       b       "
    );
    assert_eq!(render_grid(&names, &grid, &vec![0, 1], 2), "nlonger\n12345a\nb");
    let mixed = Column::Strings(vec![Some("12345".to_string()), None]);
    assert_eq!(find_column_width("n", &mixed, &grid[0], 2), Some(7));
    let short = Column::Ints(vec![Some(1), None]);
    assert_eq!(find_column_width("n", &short, &vec!["1".to_string(), "NULL".to_string()], 2), Some(4));
    assert_eq!(find_column_width("n", &short, &vec!["1".to_string()], 1), Some(3));
    let flags = Column::Booleans(vec![]);
    assert_eq!(find_column_width("n", &flags, &vec![], 0), Some(7));
}

#[test]
fn a_tree_is_shown_with_every_node_above_its_children() {
    let tokens = Tokenizer::new().tokenize("select a, 'b\"c' from t".to_string());
    let tree = RecursiveDescentParser::new(tokens).parse().ok().unwrap();
    let shown = tree.to_string().unwrap();
    let lines: Vec<&str> = shown.lines().collect();
    assert_eq!(lines.len(), 10);
    assert_eq!(lines[0], "Query ");
    assert_eq!(lines[1], format!("{:<32}From ", "Columns "));
    assert_eq!(lines[2], format!("{:<15}{:<17}FromStatement \"t\" ", "Expression ", "Expression "));
    assert_eq!(lines[3], "Equality       Equality ");
    assert_eq!(lines[8], "Primary        Primary ");
    assert_eq!(lines[9], "Identifier \"a\" Literal \"'b\\\"c'\" ");
    assert!(shown.ends_with('\n'));
}

#[test]
fn a_token_is_shown_with_its_class() {
    assert_eq!(Token::new("select".to_string(), TokenType::Keyword).to_string(), "(keyword: select)");
    assert_eq!(Token::new("+".to_string(), TokenType::Operator).to_string(), "(operator: +)");
    assert_eq!(TokenType::Literal.to_str(), "literal");
    assert_eq!(TokenType::Identifier.to_str(), "identifier");
    assert_eq!(TokenType::Separator.to_str(), "separator");
    assert_eq!(Token::new("a".to_string(), TokenType::Identifier).get_text(), "a");
}

#[test]
fn names_are_completed() {
    let completer = TableCompleter::new(vec![points().meta(), load("teams", "team,town", &[]).meta()]);
    assert_eq!(
        completer.complete("t"),
        Some(vec!["team".to_string(), "teams".to_string(), "team".to_string(), "town".to_string()])
    );
    assert_eq!(completer.complete("po"), Some(vec!["points".to_string(), "points".to_string()]));
    assert_eq!(completer.complete("teams"), Some(vec!["teams".to_string()]));
    assert_eq!(completer.complete("teamster"), None);
    assert_eq!(completer.complete("").map(|found| found.len()), Some(9));
}

#[test]
fn table_meta_tells_names_types_and_length() {
    let meta = points().meta();
    assert_eq!(meta.alias, "points");
    assert_eq!(meta.length, 2);
    let names: Vec<&str> = meta.columns.iter().map(|(name, _)| name.as_str()).collect();
    assert_eq!(names, vec!["team", "points", "day", "share", "won"]);
    let kinds: Vec<sqlit::table::ColumnType> = meta.columns.iter().map(|(_, kind)| *kind).collect();
    assert_eq!(
        kinds,
        vec![
            sqlit::table::ColumnType::String,
            sqlit::table::ColumnType::Int,
            sqlit::table::ColumnType::Date,
            sqlit::table::ColumnType::Float,
            sqlit::table::ColumnType::Boolean,
        ]
    );
}

#[test]
fn the_tables_of_a_store_are_listed() {
    let mut store = Store::new();
    store.set(load("teams", "team,town", &[]));
    store.set(load("points", "team,points", &[]));
    store.set(load("teams", "team,city", &[]));
    assert_eq!(PrintableTableNames::from(&store).to_string(), "teams points");
    assert_eq!(
        PrintableTables::from(&store).to_string(),
        "teams: team city\n\npoints: team points"
    );
    assert_eq!(PrintableColumns::from(store.get("points").ok().unwrap()).to_string(), "team points");
    assert_eq!(PrintableTableNames::from(&Store::new()).to_string(), "");
}

#[test]
fn a_table_under_a_new_alias_is_reached_by_it() {
    let t = points().with_new_alias("p".to_string());
    assert_eq!(t.alias(), "p");
    assert!(t.column("p", "team").is_some());
    assert!(t.column("P", "team").is_some());
    assert!(t.column("points", "team").is_none());
    assert!(t.column("p", "nothing").is_none());
    assert!(t.column_search("team").is_ok());
    assert!(t.column_search("nothing").is_err());
    let one = t.row(1);
    assert_eq!(one.len(), 1);
    let both = t.merge(&one).ok().unwrap();
    assert_eq!(both.len(), 3);
    assert!(t.merge(&load("u", "a", &[])).is_err());
    assert_eq!(Table::from_tables(vec![]).ok().unwrap().width(), 0);
    assert_ne!(t.hash_row(0), t.hash_row(1));
    assert_eq!(both.hash_row(1), both.hash_row(2));
}

#[test]
fn a_union_stacks_the_rows_and_names_what_stops_it() {
    let first = load("a", "n,word", &["1,x", "2,y"]);
    let second = load("b", "m,text", &["3,z"]);
    let all = Table::from_tables(vec![first.clone(), second.clone(), first.clone()]).ok().unwrap();
    assert_eq!(all.len(), 5);
    assert_eq!(all.alias(), "a");
    assert_eq!(all.to_string(&Hardware).unwrap(), "n  word  \n1  x     \n2  y     \n3  z     \n1  x     \n2  y     ");
    let narrow = load("c", "n", &["1"]);
    let other = load("d", "n,word", &["x,y"]);
    assert_eq!(
        Table::from_tables(vec![first.clone(), narrow.clone(), other.clone()]).err().unwrap().kind(),
        ErrorType::Runtime
    );
    assert_eq!(
        Table::from_tables(vec![first.clone(), other, narrow]).err().unwrap().kind(),
        ErrorType::Type
    );
    assert_eq!(Table::from_tables(vec![second]).ok().unwrap().len(), 1);
}
