use std::cmp::Ordering;
use streamshell::cell::{Alignment, Cell, ListValue, RowWithTypes};
use streamshell::schema::{CellType, ColumnType};
use streamshell::time::{duration_format, DurationValue};

#[test]
fn text_casts() {
    assert_eq!(Cell::text("112432").cast(CellType::Integer).is_err(), false);
    assert_eq!(Cell::text("1d").cast(CellType::Integer).is_err(), true);
    assert_eq!(Cell::text("1d").cast(CellType::Glob).is_err(), false);
    assert_eq!(Cell::text("1d").cast(CellType::File).is_err(), false);
    assert_eq!(Cell::text("1d").cast(CellType::Time).is_err(), true);
    assert_eq!(Cell::text("fad").cast(CellType::Field).is_err(), false);
    assert_eq!(Cell::text("fad").cast(CellType::Op).is_err(), false);
}

#[test]
fn test_duration_format() {
    assert_eq!(duration_format(&DurationValue::from_micros(0)), "0".to_string());
    assert_eq!(duration_format(&DurationValue::from_micros(1)), "0.000001".to_string());
    assert_eq!(duration_format(&DurationValue::from_micros(100)), "0.0001".to_string());
    assert_eq!(duration_format(&DurationValue::from_millis(1)), "0.001".to_string());
    assert_eq!(duration_format(&DurationValue::from_millis(1000)), "1".to_string());
    assert_eq!(duration_format(&DurationValue::from_millis(1000 * 61)), "1:01".to_string());
    assert_eq!(duration_format(&DurationValue::from_millis(1000 * 3601)), "1:00:01".to_string());
    assert_eq!(
        duration_format(&DurationValue::from_millis(1000 * (3600 * 24 * 3 + 1))),
        "3d0:00:01".to_string()
    );
    assert_eq!(
        duration_format(&DurationValue::from_millis(1000 * (3600 * 24 * 365 * 10 + 1))),
        "10y0d0:00:01".to_string()
    );
    assert_eq!(
        duration_format(&DurationValue::from_millis(1000 * (3600 * 24 * 365 * 10 + 1) + 1)),
        "10y0d0:00:01".to_string()
    );
}

#[test]
fn cast_round_trip_format_preserving() {
    let back = Cell::text("hello")
        .cast(CellType::File)
        .unwrap()
        .cast(CellType::Text)
        .unwrap();
    assert_eq!(back.to_string(), "hello");
    let back = Cell::text("he*llo")
        .cast(CellType::Glob)
        .unwrap()
        .cast(CellType::Text)
        .unwrap();
    assert_eq!(back.to_string(), "he*llo");
}

#[test]
fn cast_round_trip_integer_value() {
    let back = Cell::text("0042")
        .cast(CellType::Integer)
        .unwrap()
        .cast(CellType::Text)
        .unwrap();
    assert_eq!(back.to_string(), "42");
    match Cell::text("-17").cast(CellType::Integer).unwrap() {
        Cell::Integer(v) => assert_eq!(v, -17),
        _ => panic!("expected an integer cell"),
    }
}

#[test]
fn op_has_no_conversion_back_to_text() {
    let op = Cell::text("x").cast(CellType::Op).unwrap();
    let err = match op.cast(CellType::Text) {
        Err(e) => e,
        Ok(_) => panic!("expected the cast to fail"),
    };
    assert_eq!(err.message, "Unimplemented conversion");
}

#[test]
fn cast_identity_returns_value_unchanged() {
    match Cell::Integer(5).cast(CellType::Integer).unwrap() {
        Cell::Integer(v) => assert_eq!(v, 5),
        _ => panic!("expected an integer cell"),
    }
    match Cell::text("x").cast(CellType::Text).unwrap() {
        Cell::Text(s) => assert_eq!(s, "x"),
        _ => panic!("expected a text cell"),
    }
}

#[test]
fn field_casts_are_unimplemented() {
    let targets = [
        CellType::File,
        CellType::Glob,
        CellType::Integer,
        CellType::Op,
        CellType::Regex,
        CellType::Text,
    ];
    for t in targets {
        let field = Cell::Field(vec!["fad".to_string()]);
        let err = match field.cast(t) {
            Err(e) => e,
            Ok(_) => panic!("expected the cast to fail"),
        };
        assert_eq!(err.message, "Unimplemented conversion");
    }
}

#[test]
fn integer_overflow_is_rejected() {
    assert!(Cell::text("170141183460469231731687303715884105727")
        .cast(CellType::Integer)
        .is_ok());
    assert!(Cell::text("170141183460469231731687303715884105728")
        .cast(CellType::Integer)
        .is_err());
    assert!(Cell::text("-170141183460469231731687303715884105728")
        .cast(CellType::Integer)
        .is_ok());
}

#[test]
fn regex_casts_check_syntax() {
    assert!(Cell::text("a+b*").cast(CellType::Regex).is_ok());
    assert!(Cell::text("(unclosed").cast(CellType::Regex).is_err());
    let back = Cell::text("a+")
        .cast(CellType::Regex)
        .unwrap()
        .cast(CellType::Text)
        .unwrap();
    assert_eq!(back.to_string(), "a+");
}

#[test]
fn cross_type_order_is_fixed_and_antisymmetric() {
    let samples = || {
        vec![
            Cell::text("a"),
            Cell::Integer(1),
            Cell::Op("+".to_string()),
            Cell::Bool(true),
            Cell::File("p".to_string()),
        ]
    };
    let left = samples();
    let right = samples();
    for (i, a) in left.iter().enumerate() {
        for (j, b) in right.iter().enumerate() {
            if i != j {
                let ab = a.compare(b).unwrap();
                let ba = b.compare(a).unwrap();
                assert_ne!(ab, Ordering::Equal);
                assert_eq!(ab == Ordering::Less, ba == Ordering::Greater);
            }
        }
    }
    assert_eq!(Cell::text("z").compare(&Cell::Integer(1)), Some(Ordering::Less));
    assert_eq!(Cell::Bool(false).compare(&Cell::Integer(5)), Some(Ordering::Greater));
}

#[test]
fn glob_text_equality_not_transitive() {
    let glob = Cell::text("a*").cast(CellType::Glob).unwrap();
    let abc = Cell::text("abc");
    let abd = Cell::text("abd");
    assert!(glob.equals(&abc));
    assert!(abc.equals(&glob));
    assert!(glob.equals(&abd));
    assert!(abd.equals(&glob));
    assert!(!abc.equals(&abd));
}

#[test]
fn same_type_comparisons() {
    assert_eq!(Cell::text("a").compare(&Cell::text("b")), Some(Ordering::Less));
    assert_eq!(Cell::Integer(4).compare(&Cell::Integer(4)), Some(Ordering::Equal));
    assert_eq!(Cell::Integer(9).compare(&Cell::Integer(4)), Some(Ordering::Greater));
    let a = Cell::Command(streamshell::cell::CommandRef { name: "x".to_string() });
    let b = Cell::Command(streamshell::cell::CommandRef { name: "x".to_string() });
    assert_eq!(a.compare(&b), None);
}

#[test]
fn alignment_of_cells() {
    assert!(matches!(Cell::Integer(1).alignment(), Alignment::Right));
    assert!(matches!(Cell::text("x").alignment(), Alignment::Left));
}

#[test]
fn to_string_of_cells() {
    assert_eq!(Cell::Integer(-7).to_string(), "-7");
    assert_eq!(Cell::Bool(true).to_string(), "true");
    assert_eq!(Cell::Field(vec!["a".to_string(), "b".to_string()]).to_string(), "%a.b");
    let glob = Cell::text("p?q").cast(CellType::Glob).unwrap();
    assert_eq!(glob.to_string(), "*{p?q}");
    let re = Cell::text("x+").cast(CellType::Regex).unwrap();
    assert_eq!(re.to_string(), "r{x+}");
    assert_eq!(Cell::Op("*".to_string()).to_string(), "*");
}

#[test]
fn partial_clone_refuses_streams() {
    let err = match Cell::empty_stream().partial_clone() {
        Err(e) => e,
        Ok(_) => panic!("expected the copy to fail"),
    };
    assert_eq!(err.message, "Invalid use of stream");
    let copy = Cell::text("v").partial_clone().unwrap();
    assert!(copy.equals(&Cell::text("v")));
}

#[test]
fn materialize_drains_stream() {
    match Cell::empty_stream().materialize() {
        Cell::Rows(table) => {
            assert_eq!(table.types.len(), 0);
            assert_eq!(table.rows.len(), 0);
        },
        _ => panic!("expected a materialized table"),
    }
}

#[test]
fn hashing_follows_type_descriptor() {
    assert!(Cell::text("a").cell_type().is_hashable());
    assert!(!Cell::empty_stream().cell_type().is_hashable());
    let h1 = Cell::text("same").hash_code();
    let h2 = Cell::text("same").hash_code();
    assert_eq!(h1, h2);
}

#[test]
fn composite_equality_requires_matching_element_types() {
    let int_list = Cell::List(ListValue { elem: CellType::Integer, cells: vec![] });
    let text_list = Cell::List(ListValue { elem: CellType::Text, cells: vec![] });
    assert!(!int_list.equals(&text_list));
    assert!(!text_list.equals(&int_list));
    let int_list_again = Cell::List(ListValue { elem: CellType::Integer, cells: vec![] });
    assert!(int_list.equals(&int_list_again));
    let filled_a = Cell::List(ListValue {
        elem: CellType::Integer,
        cells: vec![Cell::Integer(1)],
    });
    let filled_b = Cell::List(ListValue {
        elem: CellType::Integer,
        cells: vec![Cell::Integer(1)],
    });
    assert!(filled_a.equals(&filled_b));
}

#[test]
fn row_equality_requires_matching_schema() {
    let a = Cell::Row(RowWithTypes {
        types: vec![ColumnType::named("n", CellType::Integer)],
        cells: vec![Cell::Integer(1)],
    });
    let renamed = Cell::Row(RowWithTypes {
        types: vec![ColumnType::named("m", CellType::Integer)],
        cells: vec![Cell::Integer(1)],
    });
    assert!(!a.equals(&renamed));
    let same = Cell::Row(RowWithTypes {
        types: vec![ColumnType::named("n", CellType::Integer)],
        cells: vec![Cell::Integer(1)],
    });
    assert!(a.equals(&same));
}

#[test]
fn file_comparison_of_missing_paths_is_false() {
    let a = Cell::File("no/such/path/one".to_string());
    let b = Cell::File("no/such/path/one".to_string());
    assert!(!a.equals(&b));
}

#[test]
fn file_expand_collects_paths() {
    let globs: Vec<(String, Vec<String>)> =
        vec![("*.csv".to_string(), vec!["a.csv".to_string(), "b.csv".to_string()])];
    let mut out: Vec<String> = Vec::new();
    Cell::text("plain.txt").file_expand(&globs, &mut out).unwrap();
    let glob = Cell::text("*.csv").cast(CellType::Glob).unwrap();
    glob.file_expand(&globs, &mut out).unwrap();
    assert_eq!(out, vec!["plain.txt", "a.csv", "b.csv"]);
    let err = Cell::Integer(3).file_expand(&globs, &mut out).unwrap_err();
    assert_eq!(err.message, "Expected a file name");
}
