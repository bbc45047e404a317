use simple_db::text::i32_to_string;
use simple_db::Storage;
use simple_db::{
    evaluate_expression_without_storage, execute_sql, get_default_db_path, remove_comments, split_statements,
    ArithmeticOperator, Column, ColumnType, DataType, Database, DbError, ErrorDisplayMode, Expression, Lexer,
    MemoryStorage, SqlParser, SqlStatement, StorageType, Table, TableFormatter, Token, TokenOf, Transaction,
    TypeError,
};

fn column(name: &str, data_type: ColumnType, nullable: bool, primary_key: bool) -> Column {
    Column { name: name.to_string(), data_type, nullable, primary_key }
}

fn run(db: &mut Database, sql: &str) -> String {
    db.execute_sql(sql).unwrap_or_else(|e| panic!("{} failed: {:?}", sql, e))
}

#[test]
fn lexer_produces_tokens_and_comments() {
    let tokens = Lexer::new().tokenize("select a, 'x' FROM t -- note").unwrap();
    let expected: Vec<Token> = vec![
        TokenOf::Select,
        TokenOf::Identifier("a".to_string()),
        TokenOf::Comma,
        TokenOf::String("x".to_string()),
        TokenOf::From,
        TokenOf::Identifier("t".to_string()),
        TokenOf::Comment(" note".to_string()),
    ];
    assert_eq!(tokens, expected);
}

#[test]
fn lexer_handles_operators_quotes_and_block_comments() {
    let tokens = Lexer::new().tokenize("a>=1 /* c */ b != \"q\" <= < > NOT null").unwrap();
    let expected: Vec<Token> = vec![
        TokenOf::Identifier("a".to_string()),
        TokenOf::Ge,
        TokenOf::Number(1),
        TokenOf::MultiLineComment(" c ".to_string()),
        TokenOf::Identifier("b".to_string()),
        TokenOf::Ne,
        TokenOf::String("q".to_string()),
        TokenOf::Le,
        TokenOf::Lt,
        TokenOf::Gt,
        TokenOf::Not,
        TokenOf::Null,
    ];
    assert_eq!(tokens, expected);
}

#[test]
fn lexer_uses_unicode_letters_and_whitespace() {
    let tokens = Lexer::new().tokenize("été\u{a0}x_1\t2").unwrap();
    let expected: Vec<Token> = vec![
        TokenOf::Identifier("été".to_string()),
        TokenOf::Identifier("x_1".to_string()),
        TokenOf::Number(2),
    ];
    assert_eq!(tokens, expected);
}

#[test]
fn lexer_rejects_unknown_character_and_large_number() {
    assert!(matches!(Lexer::new().tokenize("a # b"), Err(DbError::SqlError(_))));
    assert!(matches!(Lexer::new().tokenize("2147483648"), Err(DbError::SqlError(_))));
    assert_eq!(Lexer::new().tokenize("2147483647").unwrap(), vec![TokenOf::Number(2147483647)]);
}

#[test]
fn parser_rejects_two_primary_keys_and_empty_input() {
    let mut p = SqlParser::new();
    assert!(p.parse("CREATE TABLE t(a INT PRIMARY KEY, b INT PRIMARY KEY)").is_err());
    assert!(p.parse("-- only a comment").is_err());
    assert!(p.parse("").is_err());
    assert!(p.parse("SELECT * FROM t extra").is_err());
}

#[test]
fn parser_builds_statements() {
    let mut p = SqlParser::new();
    match p.parse("CREATE TABLE t(id INT(11) PRIMARY KEY, n VARCHAR(5) NOT NULL, m INT NULL);").unwrap() {
        SqlStatement::CreateTable { name, columns } => {
            assert_eq!(name, "t");
            assert_eq!(columns.len(), 3);
            assert_eq!(columns[0].data_type, ColumnType::Int(Some(11)));
            assert!(columns[0].primary_key);
            assert_eq!(columns[1].data_type, ColumnType::Varchar(5));
            assert!(!columns[1].nullable);
            assert!(columns[2].nullable);
        },
        other => panic!("unexpected {:?}", other),
    }
    assert!(matches!(p.parse("DROP TABLE a, b;").unwrap(), SqlStatement::DropTables { names } if names.len() == 2));
    assert!(matches!(p.parse("DROP TABLE a;").unwrap(), SqlStatement::DropTable { .. }));
    assert!(matches!(p.parse("INSERT INTO t VALUES (1),(2);").unwrap(), SqlStatement::InsertMultiple { rows, .. } if rows.len() == 2));
    assert!(matches!(p.parse("INSERT INTO t VALUES (1, 'a', NULL);").unwrap(), SqlStatement::Insert { values, .. } if values.len() == 3));
    assert!(matches!(p.parse("SELECT a, b FROM t;").unwrap(), SqlStatement::Select { columns, .. } if columns.len() == 2));
    assert!(matches!(p.parse("SELECT a + 1 FROM t;").unwrap(), SqlStatement::SelectWithExpressions { .. }));
    assert!(matches!(p.parse("SELECT 1, 2;").unwrap(), SqlStatement::SelectExpression { expressions } if expressions.len() == 2));
    assert!(matches!(p.parse("UPDATE t SET a = 1, b = 'x' WHERE c IS NULL;").unwrap(), SqlStatement::Update { set, where_clause: Some(_), .. } if set.len() == 2));
    assert!(matches!(p.parse("DELETE FROM t;").unwrap(), SqlStatement::Delete { where_clause: None, .. }));
}

#[test]
fn arithmetic_precedence_and_headers() {
    let mut db = Database::new(StorageType::Memory);
    assert_eq!(run(&mut db, "SELECT 2*3+1;"), "| 2*3+1 |\n| ----- |\n| 7     |\n");
    assert_eq!(run(&mut db, "SELECT (1+2)*3;"), "| (1+2)*3 |\n| ------- |\n| 9       |\n");
    assert_eq!(run(&mut db, "SELECT 10-2-3, 7/2, 0-7/2;"), "| 10-2-3 | 7/2 | 0-7/2 |\n| ------ | --- | ----- |\n| 5      | 3   | -3    |\n");
    assert_eq!(run(&mut db, "SELECT NULL+1;"), "| NULL+1 |\n| ------ |\n|        |\n");
}

#[test]
fn arithmetic_errors() {
    let mut db = Database::new(StorageType::Memory);
    assert!(matches!(db.execute_sql("SELECT 1/0;"), Err(DbError::SqlError(_))));
    assert!(matches!(db.execute_sql("SELECT NULL/0;"), Err(DbError::SqlError(_))));
    assert!(matches!(db.execute_sql("SELECT 2147483647+1;"), Err(DbError::SqlError(_))));
    assert!(matches!(db.execute_sql("SELECT 'a'+1;"), Err(DbError::SqlError(_))));
    assert!(matches!(db.execute_sql("SELECT x;"), Err(DbError::SqlError(_))));
}

#[test]
fn expression_on_a_row() {
    let columns = vec![column("a", ColumnType::Int(None), true, false), column("b", ColumnType::Int(None), true, false)];
    let row = vec![DataType::Int(6), DataType::Int(4)];
    let e = Expression::Binary {
        left: Box::new(Expression::Column("a".to_string())),
        operator: ArithmeticOperator::Subtract,
        right: Box::new(Expression::Column("b".to_string())),
    };
    assert!(matches!(evaluate_expression_without_storage(&e, &row, &columns), Ok(DataType::Int(2))));
    let missing = Expression::Column("z".to_string());
    assert!(evaluate_expression_without_storage(&missing, &row, &columns).is_err());
}

#[test]
fn comparisons_in_where() {
    let mut db = Database::new(StorageType::Memory);
    run(&mut db, "CREATE TABLE w(n VARCHAR(5), k INT);");
    run(&mut db, "INSERT INTO w VALUES ('b', 2), ('a', 1), ('c', NULL);");
    assert_eq!(run(&mut db, "SELECT n FROM w WHERE n > 'a' AND n < 'c';"), "| n   |\n| --- |\n| b   |\n");
    assert!(db.execute_sql("SELECT n FROM w WHERE k <= 2;").is_err());
    assert_eq!(run(&mut db, "SELECT n FROM w WHERE k IS NULL;"), "| n   |\n| --- |\n| c   |\n");
    assert_eq!(run(&mut db, "SELECT n FROM w WHERE k + 1 = 3;"), "| n   |\n| --- |\n| b   |\n");
    assert!(db.execute_sql("SELECT n FROM w WHERE n > 1;").is_err());
    assert!(db.execute_sql("SELECT n FROM w WHERE nope = 1;").is_err());
}

#[test]
fn order_by_mixes_numbers_and_text() {
    let mut db = Database::new(StorageType::Memory);
    run(&mut db, "CREATE TABLE o(v VARCHAR(5));");
    run(&mut db, "INSERT INTO o VALUES ('10'), ('9'), ('b'), ('a');");
    assert_eq!(run(&mut db, "SELECT v FROM o ORDER BY v;"), "| v   |\n| --- |\n| 9   |\n| 10  |\n| a   |\n| b   |\n");
    assert!(db.execute_sql("SELECT v FROM o ORDER BY w;").is_err());
}

#[test]
fn update_applies_to_matching_rows() {
    let mut db = Database::new(StorageType::Memory);
    run(&mut db, "CREATE TABLE u(id INT PRIMARY KEY, s VARCHAR(4));");
    run(&mut db, "INSERT INTO u VALUES (1,'a'),(2,'b');");
    run(&mut db, "UPDATE u SET s = 'z', nope = 3 WHERE id = 2;");
    assert_eq!(run(&mut db, "SELECT * FROM u;"), "| id  | s   |\n| --- | --- |\n| 1   | a   |\n| 2   | z   |\n");
}

#[test]
fn formatter_pads_and_blanks_null() {
    let headers = vec!["name".to_string(), "x".to_string()];
    let rows = vec![vec!["NULL".to_string(), "12345".to_string()]];
    assert_eq!(TableFormatter::format_table(&headers, &rows), "| name | x     |\n| ---- | ----- |\n|      | 12345 |\n");
}

#[test]
fn error_messages_in_both_modes() {
    let mut db = Database::new(StorageType::Memory);
    let e = DbError::SqlError("bad".to_string());
    assert_eq!(db.format_error(&e), "Error: Syntax error");
    assert_eq!(db.toggle_error_mode(), ErrorDisplayMode::Detailed);
    assert_eq!(db.format_error(&e), "SQL syntax error: bad");
    db.set_error_mode(ErrorDisplayMode::Brief);
    assert_eq!(db.get_error_mode(), ErrorDisplayMode::Brief);
    assert_eq!(DbError::IoError("x".to_string()).brief_message(), "Error: IO error");
    assert_eq!(DbError::Serialization("x".to_string()).detailed_message(), "Serialization error: x");
    assert_eq!(DbError::TableError("x".to_string()).brief_message(), "Error: Table error");
    assert_eq!(DbError::TransactionError("x".to_string()).brief_message(), "Error: Transaction error");
    let mismatch = DbError::TypeError(TypeError::TypeMismatch {
        expected: ColumnType::Varchar(3),
        actual: DataType::Int(-5),
    });
    assert_eq!(mismatch.brief_message(), "Type mismatch: expected VARCHAR(3), found -5");
    let long = DbError::TypeError(TypeError::StringLengthExceeded { max_length: 2, actual_length: 10 });
    assert_eq!(long.detailed_message(), "String too long: maximum length 2, actual length 10");
}

#[test]
fn table_validation_kinds() {
    let mut t = Table::new(
        "t".to_string(),
        vec![column("id", ColumnType::Int(None), true, true), column("s", ColumnType::Varchar(2), true, false)],
    );
    assert!(matches!(t.validate_row(&vec![DataType::Int(1)]), Err(TypeError::TypeMismatch { .. })));
    assert!(matches!(
        t.validate_row(&vec![DataType::Int(1), DataType::Varchar("abc".to_string())]),
        Err(TypeError::StringLengthExceeded { max_length: 2, actual_length: 3 })
    ));
    assert!(matches!(t.validate_row(&vec![DataType::Null, DataType::Null]), Err(TypeError::NullValue(_))));
    assert!(t.insert_row(vec![DataType::Int(1), DataType::Null]).is_ok());
    assert!(matches!(
        t.insert_row(vec![DataType::Int(1), DataType::Varchar("x".to_string())]),
        Err(TypeError::PrimaryKeyViolation(ref v)) if v == "1"
    ));
    assert_eq!(t.rows.len(), 1);
    assert!(DataType::Varchar("ab".to_string()).matches_column_type(&ColumnType::Varchar(2)));
    assert!(!DataType::Varchar("ab".to_string()).matches_column_type(&ColumnType::Int(None)));
    assert!(DataType::Null.matches_column_type(&ColumnType::Int(None)));
}

#[test]
fn storage_row_operations() {
    let mut s = MemoryStorage::new();
    let t = Table::new("t".to_string(), vec![column("id", ColumnType::Int(None), false, true)]);
    assert!(s.create_table(t).is_ok());
    assert!(s.insert_row("t", vec![DataType::Int(1)]).is_ok());
    assert!(s.insert_row("t", vec![DataType::Int(2)]).is_ok());
    assert!(s.update_row("t", 0, vec![DataType::Int(1)]).is_ok());
    assert!(s.update_row("t", 0, vec![DataType::Int(2)]).is_err());
    assert!(matches!(s.update_row("t", 5, vec![DataType::Int(9)]), Err(DbError::TableError(_))));
    assert!(s.delete_row("t", 0).is_ok());
    assert!(matches!(s.delete_row("t", 3), Err(DbError::TableError(_))));
    assert!(matches!(s.insert_row("nope", vec![]), Err(DbError::TableError(_))));
    assert_eq!(s.get_table("t").unwrap().rows.len(), 1);
    assert!(s.drop_table("t").is_ok());
    assert!(s.drop_table("t").is_err());
    assert!(s.list_tables().is_empty());
}

#[test]
fn save_and_load_round_trip() {
    let mut db = Database::new(StorageType::Memory);
    run(&mut db, "CREATE TABLE t(id INT PRIMARY KEY, n VARCHAR(4));");
    run(&mut db, "INSERT INTO t VALUES (1,'NULL'),(2,NULL);");
    let before = run(&mut db, "SELECT * FROM t;");
    let saved = db.save().unwrap();
    let mut fresh = Database::new(StorageType::File("somewhere".to_string()));
    assert!(fresh.load(saved).is_ok());
    assert_eq!(run(&mut fresh, "SELECT * FROM t;"), before);
    assert_eq!(fresh.get_storage_path(), "somewhere");
    assert_eq!(db.get_storage_path(), get_default_db_path());
    assert_eq!(get_default_db_path(), "db");
}

#[test]
fn load_refuses_invalid_tables() {
    let mut db = Database::new(StorageType::Memory);
    let mut bad = Table::new("t".to_string(), vec![column("id", ColumnType::Int(None), false, true)]);
    bad.rows.push(vec![DataType::Int(1)]);
    bad.rows.push(vec![DataType::Int(1)]);
    assert!(matches!(db.load(vec![bad]), Err(DbError::Serialization(_))));
    let a = Table::new("t".to_string(), vec![]);
    let b = Table::new("t".to_string(), vec![]);
    assert!(matches!(db.load(vec![a, b]), Err(DbError::Serialization(_))));
    assert!(db.list_tables().unwrap().is_empty());
}

#[test]
fn transaction_commit_applies_changes() {
    let mut storage = MemoryStorage::new();
    let mut tx = Transaction::new();
    assert!(tx.create_table(&mut storage, "t".to_string(), vec![column("id", ColumnType::Int(None), false, true)]).is_ok());
    assert!(tx.insert_row("t", vec![DataType::Int(1)]).is_ok());
    assert!(tx.insert_row("t", vec![DataType::Int(2)]).is_ok());
    assert!(tx.update_row("t", 1, vec![DataType::Int(3)]).is_ok());
    assert!(tx.delete_row("t", 0).is_ok());
    assert_eq!(storage.get_table("t").unwrap().rows.len(), 0);
    assert!(tx.commit(&mut storage).is_ok());
    let t = storage.get_table("t").unwrap();
    assert_eq!(t.rows.len(), 1);
    assert!(matches!(t.rows[0][0], DataType::Int(3)));
    let mut tx2 = Transaction::new();
    assert!(tx2.insert_row("t", vec![DataType::Int(3)]).is_ok());
    assert!(tx2.commit(&mut storage).is_err());
    assert!(Transaction::new().rollback().is_ok());
}

#[test]
fn database_transaction_and_direct_rows() {
    let mut db = Database::new(StorageType::Memory);
    assert!(db.create_table("t".to_string(), vec![column("v", ColumnType::Int(None), true, false)]).is_ok());
    assert!(db.create_table("t".to_string(), vec![]).is_err());
    assert!(db.insert_row("t", vec![DataType::Int(5)]).is_ok());
    assert!(db.update_row("t", 0, vec![DataType::Int(6)]).is_ok());
    let mut tx = db.begin_transaction();
    assert!(tx.insert_row("t", vec![DataType::Int(7)]).is_ok());
    assert!(db.commit_transaction(tx).is_ok());
    assert_eq!(run(&mut db, "SELECT * FROM t;"), "| v   |\n| --- |\n| 6   |\n| 7   |\n");
    assert!(db.delete_row("t", 0).is_ok());
    assert!(db.drop_table("t").is_ok());
    assert!(db.drop_table("t").is_err());
}

#[test]
fn comments_are_removed_outside_strings() {
    assert_eq!(remove_comments("SELECT 1 -- c\n; /* x */ SELECT '--'"), "SELECT 1 \n;  SELECT '--'");
    assert_eq!(split_statements("a; ;b ;\n"), vec!["a".to_string(), "b".to_string()]);
}

#[test]
fn script_reports_outputs_and_errors() {
    let r = execute_sql("CREATE TABLE t(a INT); SELECT * FROM t;");
    assert!(r.success);
    assert_eq!(r.output, "There are no results to be displayed.\n");
    let r = execute_sql("CREATE TABLE t(a INT); INSERT INTO t VALUES (1); SELECT * FROM t; SELECT a FROM t; DROP TABLE zz;");
    assert!(!r.success);
    assert_eq!(r.output, "| a   |\n| --- |\n| 1   |\n\n| a   |\n| --- |\n| 1   |\nError: Table error\n");
    assert_eq!(r.error_message, "Error: Table error");
}

#[test]
fn multi_drop_continues_past_missing_tables() {
    let mut db = Database::new(StorageType::Memory);
    run(&mut db, "CREATE TABLE a(x INT);");
    run(&mut db, "CREATE TABLE b(x INT);");
    run(&mut db, "DROP TABLE a, missing, b;");
    assert!(db.list_tables().unwrap().is_empty());
}

#[test]
fn integer_text_form() {
    assert_eq!(i32_to_string(0), "0");
    assert_eq!(i32_to_string(-2147483648), "-2147483648");
    assert_eq!(i32_to_string(907), "907");
}

fn table_count<S: Storage>(s: &S) -> usize {
    s.list_tables().len()
}

#[test]
fn storage_trait_on_memory_store() {
    let mut s = MemoryStorage::new();
    assert!(!s.is_file_storage());
    let t = Table::new("t".to_string(), vec![column("a", ColumnType::Int(None), true, false)]);
    assert!(Storage::create_table(&mut s, t).is_ok());
    assert!(Storage::insert_row(&mut s, "t", vec![DataType::Null]).is_ok());
    assert_eq!(table_count(&s), 1);
    assert!(Storage::get_table(&s, "t").is_some());
    assert!(Storage::drop_table(&mut s, "t").is_ok());
    assert_eq!(table_count(&s), 0);
}

#[test]
fn statements_without_optional_clauses_and_grouped_conditions() {
    let mut db = Database::new(StorageType::Memory);
    run(&mut db, "create table g(a INT, b int)");
    run(&mut db, "INSERT INTO g VALUES (1, 1), (2, 5), (0, 3);");
    run(&mut db, "UPDATE g SET b = 9;");
    assert_eq!(
        run(&mut db, "SELECT a FROM g WHERE (a > 1 OR a < 1) AND a != 5;"),
        "| a   |\n| --- |\n| 2   |\n| 0   |\n"
    );
    assert_eq!(run(&mut db, "SELECT a, b FROM g WHERE a + b IS NOT NULL ORDER BY a ASC;"), "| a   | b   |\n| --- | --- |\n| 0   | 9   |\n| 1   | 9   |\n| 2   | 9   |\n");
    assert!(db.execute_sql("INSERT INTO g VALUES (1, 2").is_err());
    assert!(db.execute_sql("SELECT a FROM g;;").is_err());
}

#[test]
fn error_details_follow_the_first_defect() {
    assert!(matches!(Lexer::new().tokenize("a # b"), Err(DbError::SqlError(ref m)) if m == "unknown character: #"));
    let t = Table::new(
        "t".to_string(),
        vec![
            column("a", ColumnType::Int(None), false, false),
            column("b", ColumnType::Int(None), false, false),
        ],
    );
    assert!(matches!(t.validate_row(&vec![DataType::Null]), Err(TypeError::TypeMismatch { .. })));
    assert!(matches!(
        t.validate_row(&vec![DataType::Null, DataType::Null]),
        Err(TypeError::NullValue(ref c)) if c == "a"
    ));
    let mut p = SqlParser::new();
    assert!(matches!(p.parse("SELECT a, b FROM t;").unwrap(), SqlStatement::Select { .. }));
    let mut db = Database::new(StorageType::Memory);
    assert!(matches!(db.execute_sql("DROP TABLE nope;"), Err(DbError::TableError(_))));
    assert!(matches!(db.execute_sql("SELECT * FROM nope;"), Err(DbError::TableError(_))));
    run(&mut db, "CREATE TABLE u(id INT PRIMARY KEY, s VARCHAR(2) NOT NULL);");
    run(&mut db, "INSERT INTO u VALUES (1,'a');");
    assert!(matches!(db.execute_sql("UPDATE u SET s = NULL;"), Err(DbError::TypeError(_))));
    assert!(matches!(db.execute_sql("INSERT INTO u VALUES (2);"), Err(DbError::SqlError(_))));
}

#[test]
fn script_stops_at_first_error_when_asked() {
    let mut db = Database::new(StorageType::Memory);
    let r = simple_db::run_script(&mut db, "CREATE TABLE t(a INT); INSERT INTO t VALUES ('x'); INSERT INTO t VALUES (1);", true);
    assert!(!r.success);
    assert_eq!(r.output, "Type mismatch: expected INT, found x\n");
    assert_eq!(r.error_message, "Type mismatch: expected INT, found x");
    assert_eq!(db.get_table("t").unwrap().unwrap().rows.len(), 0);
}

#[test]
fn lexer_skips_every_unicode_space() {
    let tokens = Lexer::new().tokenize("a\u{3000}b\u{2028}c\u{85}d").unwrap();
    assert_eq!(tokens.len(), 4);
    assert!(Lexer::new().tokenize("a\u{200b}b").is_err());
}

#[test]
fn create_table_rejects_repeated_column_names() {
    let mut p = SqlParser::new();
    assert!(matches!(p.parse("CREATE TABLE t(a INT, b INT, a VARCHAR(3));"), Err(DbError::SqlError(_))));
    assert!(p.parse("CREATE TABLE t(a INT, b INT);").is_ok());
}

#[test]
fn qualified_column_names() {
    let mut s = MemoryStorage::new();
    let t = Table::new("t".to_string(), vec![column("a", ColumnType::Int(None), true, false), column("c", ColumnType::Int(None), true, false)]);
    assert!(s.create_table(t).is_ok());
    let row = vec![DataType::Int(1), DataType::Int(7)];
    let exec = simple_db::SqlExecutor::new();
    let q = Expression::Column("t.c".to_string());
    assert!(matches!(exec.evaluate_expression(&s, &q, Some(&row), "t"), Ok(DataType::Int(7))));
    let other = Expression::Column("u.c".to_string());
    assert!(matches!(exec.evaluate_expression(&s, &other, Some(&row), "t"), Err(DbError::SqlError(_))));
    assert!(matches!(exec.evaluate_expression(&s, &q, None, "t"), Err(DbError::SqlError(_))));
    let columns = vec![column("a", ColumnType::Int(None), true, false), column("c", ColumnType::Int(None), true, false)];
    assert!(matches!(evaluate_expression_without_storage(&q, &row, &columns), Ok(DataType::Int(7))));
}

#[test]
fn multi_drop_reports_each_missing_table() {
    let mut s = MemoryStorage::new();
    assert!(s.create_table(Table::new("a".to_string(), vec![])).is_ok());
    let mut exec = simple_db::SqlExecutor::new();
    let stmt = SqlStatement::DropTables { names: vec!["a".to_string(), "x".to_string(), "a".to_string()] };
    assert!(exec.execute(&mut s, stmt).is_ok());
    assert_eq!(exec.warnings(), &vec!["table does not exist: x".to_string(), "table does not exist: a".to_string()]);
    assert!(exec.execute(&mut s, SqlStatement::DropTables { names: vec!["y".to_string(), "z".to_string()] }).is_ok());
    assert_eq!(exec.warnings().len(), 2);
    assert!(exec.execute(&mut s, SqlStatement::SelectExpression { expressions: vec![Expression::Literal(DataType::Int(1))] }).is_ok());
    assert!(exec.warnings().is_empty());
}
