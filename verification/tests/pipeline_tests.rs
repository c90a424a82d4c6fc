use streamshell::cell::Cell;
use streamshell::command::{Argument, CompileContext, FileData, Printer};
use streamshell::csv;
use streamshell::head;
use streamshell::schema::{same_cols, CellType, ColumnType};
use streamshell::stream::{Row, Stream};

fn int_row(v: i128) -> Row {
    Row { cells: vec![Cell::Integer(v)] }
}

fn int_schema() -> Vec<ColumnType> {
    vec![ColumnType::named("n", CellType::Integer)]
}

#[test]
fn stream_preserves_order() {
    let mut s = Stream::unlimited();
    s.initialize(int_schema()).unwrap();
    s.send(int_row(1)).unwrap();
    s.send(int_row(2)).unwrap();
    s.send(int_row(3)).unwrap();
    for expected in [1i128, 2, 3] {
        let row = s.recv().unwrap();
        match &row.cells[0] {
            Cell::Integer(v) => assert_eq!(*v, expected),
            _ => panic!("expected an integer cell"),
        }
    }
    assert!(s.recv().is_none());
}

#[test]
fn stream_schema_is_write_once() {
    let mut s = Stream::unlimited();
    s.initialize(int_schema()).unwrap();
    let again = s.initialize(vec![ColumnType::named("other", CellType::Text)]);
    assert!(again.is_err());
    let schema = s.get_type().unwrap();
    assert_eq!(schema.len(), 1);
    assert_eq!(schema[0].name, "n");
}

#[test]
fn schema_equality_is_structural() {
    assert!(same_cols(&int_schema(), &int_schema()));
    let other = vec![ColumnType::named("n", CellType::Text)];
    assert!(!same_cols(&int_schema(), &other));
    let renamed = vec![ColumnType::named("m", CellType::Integer)];
    assert!(!same_cols(&int_schema(), &renamed));
}

#[test]
fn send_to_closed_consumer_fails() {
    let mut s = Stream::unlimited();
    s.initialize(int_schema()).unwrap();
    s.close_consumer();
    assert!(s.send(int_row(1)).is_err());
}

#[test]
fn head_zero_forwards_nothing() {
    let mut input = Stream::unlimited();
    input.initialize(int_schema()).unwrap();
    for v in 0..4 {
        input.send(int_row(v)).unwrap();
    }
    let mut output = Stream::unlimited();
    output.initialize(int_schema()).unwrap();
    head::run(0, &mut input, &mut output).unwrap();
    assert_eq!(output.pending(), 0);
    assert_eq!(input.pending(), 4);
}

#[test]
fn head_two_forwards_first_two_and_stops_consuming() {
    let mut input = Stream::unlimited();
    input.initialize(int_schema()).unwrap();
    for v in 1..=5 {
        input.send(int_row(v)).unwrap();
    }
    let mut output = Stream::unlimited();
    output.initialize(int_schema()).unwrap();
    head::run(2, &mut input, &mut output).unwrap();
    assert_eq!(output.pending(), 2);
    assert_eq!(input.pending(), 3);
    for expected in [1i128, 2] {
        let row = output.recv().unwrap();
        match &row.cells[0] {
            Cell::Integer(v) => assert_eq!(*v, expected),
            _ => panic!("expected an integer cell"),
        }
    }
}

#[test]
fn head_line_count_arguments() {
    assert_eq!(head::get_line_count(&vec![]).unwrap(), 10);
    let one = vec![Argument { name: None, cell: Cell::Integer(7) }];
    assert_eq!(head::get_line_count(&one).unwrap(), 7);
    let bad = vec![Argument { name: None, cell: Cell::text("x") }];
    assert_eq!(head::get_line_count(&bad).unwrap_err().message, "Expected a number");
    let two = vec![
        Argument { name: None, cell: Cell::Integer(1) },
        Argument { name: None, cell: Cell::Integer(2) },
    ];
    assert_eq!(head::get_line_count(&two).unwrap_err().message, "Too many arguments");
}

#[test]
fn head_compile_adopts_input_schema() {
    let mut input = Stream::unlimited();
    input.initialize(int_schema()).unwrap();
    input.send(int_row(1)).unwrap();
    let mut ctx = CompileContext {
        arguments: vec![],
        input,
        output: Stream::unlimited(),
        globs: vec![],
        files: vec![],
        printer: Printer::new(),
    };
    head::compile_and_run(&mut ctx).unwrap();
    let schema = ctx.output.get_type().unwrap();
    assert_eq!(schema.len(), 1);
    assert_eq!(schema[0].name, "n");
    assert_eq!(ctx.output.pending(), 1);
}

fn csv_config(columns: Vec<ColumnType>) -> csv::Config {
    csv::Config {
        separator: ',',
        columns,
        skip_head: 0,
        trim: None,
        files: vec![],
    }
}

fn outer_schema(columns: &Vec<ColumnType>) -> Vec<ColumnType> {
    let mut inner: Vec<ColumnType> = Vec::new();
    for c in columns {
        inner.push(c.duplicate());
    }
    vec![
        ColumnType::named("file", CellType::File),
        ColumnType::named("data", CellType::Output(inner)),
    ]
}

#[test]
fn csv_worker_end_to_end() {
    let columns = vec![
        ColumnType::named("a", CellType::Integer),
        ColumnType::named("b", CellType::Integer),
    ];
    let cfg = csv_config(columns);
    let lines: Vec<String> = vec!["a,b".to_string(), "1,2".to_string(), "3,4".to_string()];
    let mut output = Stream::unlimited();
    output.initialize(outer_schema(&cfg.columns)).unwrap();
    let mut printer = Printer::new();
    csv::handle(&"data.csv".to_string(), &lines, &cfg, &mut output, &mut printer).unwrap();
    // The header line cannot be read as integers: reported, skipped.
    assert_eq!(printer.count(), 1);
    let outer = output.recv().unwrap();
    match &outer.cells[0] {
        Cell::File(name) => assert_eq!(name, "data.csv"),
        _ => panic!("expected a file cell"),
    }
    let mut nested = match outer.cells.into_iter().nth(1).unwrap() {
        Cell::Output(s) => s,
        _ => panic!("expected a nested stream cell"),
    };
    let expected = [[1i128, 2], [3, 4]];
    for exp in expected {
        let row = nested.recv().unwrap();
        for (cell, want) in row.cells.iter().zip(exp.iter()) {
            match cell {
                Cell::Integer(v) => assert_eq!(v, want),
                _ => panic!("expected an integer cell"),
            }
        }
    }
    assert!(nested.recv().is_none());
}

#[test]
fn csv_malformed_row_is_skipped_with_diagnostic() {
    let columns = vec![
        ColumnType::named("a", CellType::Text),
        ColumnType::named("b", CellType::Text),
    ];
    let cfg = csv_config(columns);
    let lines: Vec<String> = vec!["a,b".to_string(), "1".to_string(), "3,4".to_string()];
    let mut output = Stream::unlimited();
    output.initialize(outer_schema(&cfg.columns)).unwrap();
    let mut printer = Printer::new();
    csv::handle(&"data.csv".to_string(), &lines, &cfg, &mut output, &mut printer).unwrap();
    assert_eq!(printer.count(), 1);
    assert_eq!(printer.messages[0], "csv: Wrong number of columns in CSV file");
    let outer = output.recv().unwrap();
    let mut nested = match outer.cells.into_iter().nth(1).unwrap() {
        Cell::Output(s) => s,
        _ => panic!("expected a nested stream cell"),
    };
    assert_eq!(nested.pending(), 2);
    let first = nested.recv().unwrap();
    assert_eq!(first.cells[0].to_string(), "a");
    assert_eq!(first.cells[1].to_string(), "b");
    let second = nested.recv().unwrap();
    assert_eq!(second.cells[0].to_string(), "3");
    assert_eq!(second.cells[1].to_string(), "4");
}

#[test]
fn csv_parse_arguments() {
    let args = vec![
        Argument { name: Some("col".to_string()), cell: Cell::text("a:integer") },
        Argument { name: Some("sep".to_string()), cell: Cell::text(";") },
        Argument { name: Some("trim".to_string()), cell: Cell::text("'") },
        Argument { name: Some("head".to_string()), cell: Cell::Integer(2) },
        Argument { name: None, cell: Cell::text("input.csv") },
    ];
    let cfg = csv::parse(&args, &vec![]).unwrap();
    assert_eq!(cfg.separator, ';');
    assert_eq!(cfg.trim, Some('\''));
    assert_eq!(cfg.skip_head, 2);
    assert_eq!(cfg.columns.len(), 1);
    assert_eq!(cfg.columns[0].name, "a");
    assert_eq!(cfg.files, vec!["input.csv"]);
}

#[test]
fn csv_parse_rejects_bad_arguments() {
    let parse_err = |args: &Vec<Argument>| -> String {
        match csv::parse(args, &vec![]) {
            Err(e) => e.message,
            Ok(_) => panic!("expected the arguments to be rejected"),
        }
    };
    let bad_col = vec![Argument {
        name: Some("col".to_string()),
        cell: Cell::text("justaname"),
    }];
    assert_eq!(
        parse_err(&bad_col),
        "Expected a column description on the form name:type, got justaname"
    );
    let bad_sep = vec![Argument { name: Some("sep".to_string()), cell: Cell::text(",,") }];
    assert_eq!(parse_err(&bad_sep), "Separator must be exactly one character long");
    let bad_trim = vec![Argument { name: Some("trim".to_string()), cell: Cell::text("ab") }];
    assert_eq!(parse_err(&bad_trim), "Only one character can be trimmed");
    let unknown = vec![Argument { name: Some("nope".to_string()), cell: Cell::text("x") }];
    assert_eq!(parse_err(&unknown), "Unknown parameter nope");
    let wrong_kind = vec![Argument { name: Some("col".to_string()), cell: Cell::Integer(1) }];
    assert_eq!(parse_err(&wrong_kind), "Unknown parameter col");
    let wrong_sep_kind = vec![Argument { name: Some("sep".to_string()), cell: Cell::Integer(1) }];
    assert_eq!(parse_err(&wrong_sep_kind), "Unknown parameter sep");
    let not_a_file = vec![Argument { name: None, cell: Cell::Integer(3) }];
    assert_eq!(parse_err(&not_a_file), "Expected a file name");
    let glob_cell = Cell::text("*.csv").cast(CellType::Glob).unwrap();
    let unexpanded = vec![Argument { name: None, cell: glob_cell }];
    assert_eq!(parse_err(&unexpanded), "Glob pattern was not expanded");
}

#[test]
fn csv_run_with_detached_consumer_changes_nothing() {
    let columns = vec![ColumnType::named("a", CellType::Text)];
    let cfg = csv_config(columns);
    let mut output = Stream::unlimited();
    output.initialize(outer_schema(&cfg.columns)).unwrap();
    output.close_consumer();
    let mut printer = Printer::new();
    let contents = vec![FileData {
        name: "f".to_string(),
        lines: vec!["x".to_string(), "y,z".to_string()],
    }];
    let err = csv::run(&cfg, &contents, &mut output, &mut printer).unwrap_err();
    assert_eq!(err.message, "Sending to closed stream");
    assert_eq!(output.pending(), 0);
    assert_eq!(printer.count(), 0);
}

#[test]
fn csv_argument_error_leaves_output_uninitialized() {
    let mut ctx = CompileContext {
        arguments: vec![Argument { name: Some("nope".to_string()), cell: Cell::text("x") }],
        input: Stream::unlimited(),
        output: Stream::unlimited(),
        globs: vec![],
        files: vec![],
        printer: Printer::new(),
    };
    let err = csv::compile_and_run(&mut ctx).unwrap_err();
    assert_eq!(err.message, "Unknown parameter nope");
    assert!(ctx.output.get_type().is_none());
    assert_eq!(ctx.output.pending(), 0);
}

#[test]
fn head_argument_error_leaves_output_uninitialized() {
    let mut input = Stream::unlimited();
    input.initialize(int_schema()).unwrap();
    input.send(int_row(1)).unwrap();
    let mut ctx = CompileContext {
        arguments: vec![Argument { name: None, cell: Cell::text("x") }],
        input,
        output: Stream::unlimited(),
        globs: vec![],
        files: vec![],
        printer: Printer::new(),
    };
    let err = head::compile_and_run(&mut ctx).unwrap_err();
    assert_eq!(err.message, "Expected a number");
    assert!(ctx.output.get_type().is_none());
    assert_eq!(ctx.input.pending(), 1);
}

#[test]
fn csv_compile_and_run_fans_out() {
    let mut ctx = CompileContext {
        arguments: vec![
            Argument { name: Some("col".to_string()), cell: Cell::text("a:integer") },
            Argument { name: Some("col".to_string()), cell: Cell::text("b:integer") },
            Argument { name: None, cell: Cell::text("one.csv") },
        ],
        input: Stream::unlimited(),
        output: Stream::unlimited(),
        globs: vec![],
        files: vec![FileData {
            name: "one.csv".to_string(),
            lines: vec!["5,6".to_string()],
        }],
        printer: Printer::new(),
    };
    csv::compile_and_run(&mut ctx).unwrap();
    let schema = ctx.output.get_type().unwrap();
    assert_eq!(schema.len(), 2);
    assert_eq!(schema[0].name, "file");
    assert_eq!(schema[1].name, "data");
    assert_eq!(ctx.output.pending(), 1);
    let outer = ctx.output.recv().unwrap();
    let mut nested = match outer.cells.into_iter().nth(1).unwrap() {
        Cell::Output(s) => s,
        _ => panic!("expected a nested stream cell"),
    };
    let row = nested.recv().unwrap();
    assert_eq!(row.cells[0].to_string(), "5");
    assert_eq!(row.cells[1].to_string(), "6");
}

#[test]
fn csv_trim_removes_configured_character() {
    let columns = vec![ColumnType::named("a", CellType::Text)];
    let mut cfg = csv_config(columns);
    cfg.trim = Some('\'');
    let lines: Vec<String> = vec!["'padded'".to_string()];
    let mut output = Stream::unlimited();
    output.initialize(outer_schema(&cfg.columns)).unwrap();
    let mut printer = Printer::new();
    csv::handle(&"f".to_string(), &lines, &cfg, &mut output, &mut printer).unwrap();
    let outer = output.recv().unwrap();
    let mut nested = match outer.cells.into_iter().nth(1).unwrap() {
        Cell::Output(s) => s,
        _ => panic!("expected a nested stream cell"),
    };
    let row = nested.recv().unwrap();
    assert_eq!(row.cells[0].to_string(), "padded");
}
