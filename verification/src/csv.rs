//! The separated-value reader: a fan-out command that turns each input
//! file into a nested stream of typed rows.

use vstd::prelude::*;
use vstd::string::StringExecFns;
use crate::JobError;
use crate::cell::{Cell, CellV, StreamV, cell_v, cells_v, cast_v, strings_v, globs_v, lookup_glob,
    stream_v, row_v, lemma_cells_v};
use crate::chars::{str_to_chars, chars_to_string, eq_chars, split_chars, split_seq, trim_chars,
    trim_seq, chunks_v};
use crate::command::{Argument, CompileContext, FileData, Printer, args_v, files_v, arg_v};
use crate::schema::{CellType, CellTypeV, ColumnType, ColumnTypeV, col_v, cols_v, clone_cols,
    type_of_name, lemma_cols_v};
use crate::stream::{Row, Stream};

verus! {

broadcast use vstd::string::group_string_axioms;

/// The configuration of one reader invocation.
pub struct Config {
    pub separator: char,
    pub columns: Vec<ColumnType>,
    pub skip_head: usize,
    pub trim: Option<char>,
    pub files: Vec<String>,
}

/// Mathematical image of a configuration.
pub struct ConfigV {
    pub sep: char,
    pub columns: Seq<ColumnTypeV>,
    pub skip: int,
    pub trim: Option<char>,
    pub files: Seq<Seq<char>>,
}

/// The view of a configuration.
pub open spec fn config_v(c: Config) -> ConfigV {
    ConfigV {
        sep: c.separator,
        columns: cols_v(c.columns),
        skip: c.skip_head as int,
        trim: c.trim,
        files: strings_v(c.files),
    }
}

/// The configuration before any argument is read: comma-separated, no
/// columns, no header lines skipped, no trimming, no files.
pub open spec fn init_config_v() -> ConfigV {
    ConfigV { sep: ',', columns: Seq::empty(), skip: 0, trim: None, files: Seq::empty() }
}

/// The configuration with one more file.
pub open spec fn with_file(acc: ConfigV, f: Seq<char>) -> ConfigV {
    ConfigV { files: acc.files.push(f), ..acc }
}

/// The configuration with a glob's files appended.
pub open spec fn with_files(acc: ConfigV, fs: Seq<Seq<char>>) -> ConfigV {
    ConfigV { files: acc.files + fs, ..acc }
}

/// The configuration with one more column.
pub open spec fn with_column(acc: ConfigV, c: ColumnTypeV) -> ConfigV {
    ConfigV { columns: acc.columns.push(c), ..acc }
}

/// The configuration with the header-line count set.
pub open spec fn with_skip(acc: ConfigV, n: int) -> ConfigV {
    ConfigV { skip: n, ..acc }
}

/// The configuration with the separator set.
pub open spec fn with_sep(acc: ConfigV, c: char) -> ConfigV {
    ConfigV { sep: c, ..acc }
}

/// The configuration with the trim character set.
pub open spec fn with_trim(acc: ConfigV, c: char) -> ConfigV {
    ConfigV { trim: Some(c), ..acc }
}

/// Fold the arguments into a configuration: bare arguments name files
/// (a glob through its recorded expansion), `col` adds a `name:type`
/// column, `head` sets the header-line count, `sep` and `trim` set
/// their single character.  Anything else fails.
pub open spec fn parse_v(
    args: Seq<(Option<Seq<char>>, CellV)>,
    globs: Seq<(Seq<char>, Seq<Seq<char>>)>,
    acc: ConfigV,
) -> Option<ConfigV>
    decreases args.len(),
{
    if args.len() == 0 {
        Some(acc)
    } else {
        let a = args[0];
        let rest = args.skip(1);
        match a.0 {
            None => match a.1 {
                CellV::Text(s) => parse_v(rest, globs, with_file(acc, s)),
                CellV::File(p) => parse_v(rest, globs, with_file(acc, p)),
                CellV::Glob(g) => match lookup_glob(globs, g) {
                    Some(paths) => parse_v(rest, globs, with_files(acc, paths)),
                    None => None,
                },
                _ => None,
            },
            Some(name) => if name == "col"@ {
                match a.1 {
                    CellV::Text(s) => {
                        let parts = split_seq(s, ':');
                        if parts.len() == 2 && type_of_name(parts[1]) is Some {
                            parse_v(
                                rest,
                                globs,
                                with_column(
                                    acc,
                                    ColumnTypeV {
                                        name: parts[0],
                                        cell_type: type_of_name(parts[1])->0,
                                    },
                                ),
                            )
                        } else {
                            None
                        }
                    },
                    _ => None,
                }
            } else if name == "head"@ {
                match a.1 {
                    CellV::Integer(i) => if 0 <= i <= usize::MAX as int {
                        parse_v(rest, globs, with_skip(acc, i))
                    } else {
                        None
                    },
                    _ => None,
                }
            } else if name == "sep"@ {
                match a.1 {
                    CellV::Text(s) => if s.len() == 1 {
                        parse_v(rest, globs, with_sep(acc, s[0]))
                    } else {
                        None
                    },
                    _ => None,
                }
            } else if name == "trim"@ {
                match a.1 {
                    CellV::Text(s) => if s.len() == 1 {
                        parse_v(rest, globs, with_trim(acc, s[0]))
                    } else {
                        None
                    },
                    _ => None,
                }
            } else {
                None
            },
        }
    }
}

/// The diagnostic one argument earns when it is rejected, or nothing
/// when it is accepted.  Whether an argument is rejected, and with
/// which message, depends on that argument alone, never on what was
/// accumulated before it.
pub open spec fn arg_err_v(
    a: (Option<Seq<char>>, CellV),
    globs: Seq<(Seq<char>, Seq<Seq<char>>)>,
) -> Option<Seq<char>> {
    match a.0 {
        None => match a.1 {
            CellV::Text(_) => None,
            CellV::File(_) => None,
            CellV::Glob(g) => if lookup_glob(globs, g) is Some {
                None
            } else {
                Some("Glob pattern was not expanded"@)
            },
            _ => Some("Expected a file name"@),
        },
        Some(name) => if name == "col"@ {
            match a.1 {
                CellV::Text(s) => {
                    let parts = split_seq(s, ':');
                    if parts.len() == 2 && type_of_name(parts[1]) is Some {
                        None
                    } else {
                        Some("Expected a column description on the form name:type, got "@ + s)
                    }
                },
                _ => Some("Unknown parameter "@ + name),
            }
        } else if name == "head"@ {
            match a.1 {
                CellV::Integer(i) => if 0 <= i <= usize::MAX as int {
                    None
                } else {
                    Some("Invalid header line count"@)
                },
                _ => Some("Unknown parameter "@ + name),
            }
        } else if name == "sep"@ {
            match a.1 {
                CellV::Text(s) => if s.len() == 1 {
                    None
                } else {
                    Some("Separator must be exactly one character long"@)
                },
                _ => Some("Unknown parameter "@ + name),
            }
        } else if name == "trim"@ {
            match a.1 {
                CellV::Text(s) => if s.len() == 1 {
                    None
                } else {
                    Some("Only one character can be trimmed"@)
                },
                _ => Some("Unknown parameter "@ + name),
            }
        } else {
            Some("Unknown parameter "@ + name)
        },
    }
}

/// The diagnostic of the first rejected argument; arguments are read
/// left to right and the first rejection fails the whole command.
pub open spec fn parse_err_v(
    args: Seq<(Option<Seq<char>>, CellV)>,
    globs: Seq<(Seq<char>, Seq<Seq<char>>)>,
) -> Seq<char>
    decreases args.len(),
{
    if args.len() == 0 {
        Seq::empty()
    } else {
        match arg_err_v(args[0], globs) {
            Some(m) => m,
            None => parse_err_v(args.skip(1), globs),
        }
    }
}

/// Resolve the arguments into a configuration, or fail with a
/// descriptive error: the error names the first rejected argument's
/// fault, as `arg_err_v` spells it out shape by shape.
#[verifier::rlimit(60)]
pub fn parse(arguments: &Vec<Argument>, globs: &Vec<(String, Vec<String>)>) -> (r: Result<
    Config,
    JobError,
>)
    ensures
        r is Ok <==> parse_v(args_v(*arguments), globs_v(*globs), init_config_v()) is Some,
        r is Ok ==> config_v(r->Ok_0) == parse_v(
            args_v(*arguments),
            globs_v(*globs),
            init_config_v(),
        )->0,
        r is Err ==> r->Err_0.message@ == parse_err_v(args_v(*arguments), globs_v(*globs)),
{
    let ghost whole = args_v(*arguments);
    let ghost gv = globs_v(*globs);
    let mut separator: char = ',';
    let mut columns: Vec<ColumnType> = Vec::new();
    let mut skip_head: usize = 0;
    let mut trim: Option<char> = None;
    let mut files: Vec<String> = Vec::new();
    let mut i: usize = 0;
    proof {
        lemma_cols_v(columns);
        assert(whole.skip(0) =~= whole);
        assert(cols_v(columns) =~= Seq::<ColumnTypeV>::empty());
        assert(strings_v(files) =~= Seq::<Seq<char>>::empty());
    }
    while i < arguments.len()
        invariant
            i <= arguments@.len(),
            whole == args_v(*arguments),
            gv == globs_v(*globs),
            parse_v(whole, gv, init_config_v()) == parse_v(
                whole.skip(i as int),
                gv,
                ConfigV {
                    sep: separator,
                    columns: cols_v(columns),
                    skip: skip_head as int,
                    trim: trim,
                    files: strings_v(files),
                },
            ),
            parse_err_v(whole, gv) == parse_err_v(whole.skip(i as int), gv),
        decreases arguments@.len() - i,
    {
        let ghost acc = ConfigV {
            sep: separator,
            columns: cols_v(columns),
            skip: skip_head as int,
            trim: trim,
            files: strings_v(files),
        };
        proof {
            assert(whole.skip(i as int)[0] == arg_v(arguments@[i as int]));
            assert(whole.skip(i as int).skip(1) =~= whole.skip(i + 1));
        }
        let arg = &arguments[i];
        match &arg.name {
            None => {
                match arg.cell.file_expand(globs, &mut files) {
                    Ok(()) => {},
                    Err(e) => {
                        proof {
                            let av = whole.skip(i as int)[0];
                            let cv = cell_v(arguments@[i as int].cell);
                            if cv is Glob {
                                assert(lookup_glob(gv, cv->Glob_0) is None);
                            }
                            assert(arg_err_v(av, gv) == Some(e.message@));
                            assert(parse_err_v(whole.skip(i as int), gv) == e.message@);
                        }
                        return Err(e);
                    },
                }
                proof {
                    let cv = cell_v(arguments@[i as int].cell);
                    if cv is Text {
                        assert(strings_v(files) == acc.files.push(cv->Text_0));
                        assert(parse_v(whole.skip(i as int), gv, acc) == parse_v(
                            whole.skip(i + 1),
                            gv,
                            with_file(acc, cv->Text_0),
                        ));
                    } else if cv is File {
                        assert(strings_v(files) == acc.files.push(cv->File_0));
                        assert(parse_v(whole.skip(i as int), gv, acc) == parse_v(
                            whole.skip(i + 1),
                            gv,
                            with_file(acc, cv->File_0),
                        ));
                    } else {
                        assert(cv is Glob);
                        assert(lookup_glob(gv, cv->Glob_0) is Some);
                        assert(strings_v(files) == acc.files + lookup_glob(gv, cv->Glob_0)->0);
                        assert(parse_v(whole.skip(i as int), gv, acc) == parse_v(
                            whole.skip(i + 1),
                            gv,
                            with_files(acc, lookup_glob(gv, cv->Glob_0)->0),
                        ));
                    }
                }
            },
            Some(name) => {
                let nm = str_to_chars(name.as_str());
                if eq_chars(&nm, &str_to_chars("col")) {
                    match &arg.cell {
                        Cell::Text(s) => {
                            let cs = str_to_chars(s.as_str());
                            let parts = split_chars(&cs, ':');
                            if parts.len() == 2 {
                                proof {
                                    assert(chunks_v(parts)[0] == parts@[0]@);
                                    assert(chunks_v(parts)[1] == parts@[1]@);
                                }
                                match CellType::from_name(chars_to_string(&parts[1]).as_str()) {
                                    Some(t) => {
                                        let ghost oldcols = cols_v(columns);
                                        proof {
                                            lemma_cols_v(columns);
                                        }
                                        let col = ColumnType::named(
                                            chars_to_string(&parts[0]).as_str(),
                                            t,
                                        );
                                        columns.push(col);
                                        proof {
                                            lemma_cols_v(columns);
                                            assert(cols_v(columns) =~= oldcols.push(col_v(col)));
                                            let sv = cell_v(arguments@[i as int].cell)->Text_0;
                                            let parts = split_seq(sv, ':');
                                            assert(parts.len() == 2);
                                            assert(col_v(col) == (ColumnTypeV {
                                                name: parts[0],
                                                cell_type: type_of_name(parts[1])->0,
                                            }));
                                            assert(parse_v(whole.skip(i as int), gv, acc)
                                                == parse_v(
                                                whole.skip(i + 1),
                                                gv,
                                                with_column(
                                                    acc,
                                                    ColumnTypeV {
                                                        name: parts[0],
                                                        cell_type: type_of_name(parts[1])->0,
                                                    },
                                                ),
                                            ));
                                        }
                                    },
                                    None => {
                                        let mut msg = String::from_str(
                                            "Expected a column description on the form name:type, got ",
                                        );
                                        msg.append(s.as_str());
                                        proof {
                                            let av = whole.skip(i as int)[0];
                                            assert(arg_err_v(av, gv) == Some(msg@));
                                            assert(parse_err_v(whole.skip(i as int), gv) == msg@);
                                        }
                                        return Err(JobError::new(msg));
                                    },
                                }
                            } else {
                                let mut msg = String::from_str(
                                    "Expected a column description on the form name:type, got ",
                                );
                                msg.append(s.as_str());
                                proof {
                                    let av = whole.skip(i as int)[0];
                                    assert(arg_err_v(av, gv) == Some(msg@));
                                    assert(parse_err_v(whole.skip(i as int), gv) == msg@);
                                }
                                return Err(JobError::new(msg));
                            }
                        },
                        _ => {
                            let mut msg = String::from_str("Unknown parameter ");
                            msg.append(name.as_str());
                            proof {
                                let av = whole.skip(i as int)[0];
                                assert(arg_err_v(av, gv) == Some(msg@));
                                assert(parse_err_v(whole.skip(i as int), gv) == msg@);
                            }
                            return Err(JobError::new(msg));
                        },
                    }
                } else if eq_chars(&nm, &str_to_chars("head")) {
                    match &arg.cell {
                        Cell::Integer(v) => {
                            if *v >= 0 && *v <= (usize::MAX as i128) {
                                skip_head = *v as usize;
                                proof {
                                    assert(parse_v(whole.skip(i as int), gv, acc) == parse_v(
                                        whole.skip(i + 1),
                                        gv,
                                        with_skip(acc, *v as int),
                                    ));
                                }
                            } else {
                                proof {
                                    let av = whole.skip(i as int)[0];
                                    assert(arg_err_v(av, gv) == Some(
                                        "Invalid header line count"@,
                                    ));
                                    assert(parse_err_v(whole.skip(i as int), gv)
                                        == "Invalid header line count"@);
                                }
                                return Err(
                                    JobError::new(String::from_str("Invalid header line count")),
                                );
                            }
                        },
                        _ => {
                            let mut msg = String::from_str("Unknown parameter ");
                            msg.append(name.as_str());
                            proof {
                                let av = whole.skip(i as int)[0];
                                assert(arg_err_v(av, gv) == Some(msg@));
                                assert(parse_err_v(whole.skip(i as int), gv) == msg@);
                            }
                            return Err(JobError::new(msg));
                        },
                    }
                } else if eq_chars(&nm, &str_to_chars("sep")) {
                    match &arg.cell {
                        Cell::Text(s) => {
                            let cs = str_to_chars(s.as_str());
                            if cs.len() == 1 {
                                separator = cs[0];
                                proof {
                                    let av = whole.skip(i as int)[0];
                                    let sv = cell_v(arguments@[i as int].cell)->Text_0;
                                    assert(cs@[0] == sv[0]);
                                    assert(sv.len() == 1);
                                    assert(av.0 == Some(nm@));
                                    assert(av.1 == CellV::Text(sv));
                                    assert(parse_v(whole.skip(i as int), gv, acc) == parse_v(
                                        whole.skip(i + 1),
                                        gv,
                                        with_sep(acc, sv[0]),
                                    ));
                                }
                            } else {
                                proof {
                                    let av = whole.skip(i as int)[0];
                                    let sv = cell_v(arguments@[i as int].cell)->Text_0;
                                    assert(sv.len() != 1);
                                    assert(arg_err_v(av, gv) == Some(
                                        "Separator must be exactly one character long"@,
                                    ));
                                    assert(parse_err_v(whole.skip(i as int), gv)
                                        == "Separator must be exactly one character long"@);
                                }
                                return Err(
                                    JobError::new(
                                        String::from_str(
                                            "Separator must be exactly one character long",
                                        ),
                                    ),
                                );
                            }
                        },
                        _ => {
                            let mut msg = String::from_str("Unknown parameter ");
                            msg.append(name.as_str());
                            proof {
                                let av = whole.skip(i as int)[0];
                                assert(arg_err_v(av, gv) == Some(msg@));
                                assert(parse_err_v(whole.skip(i as int), gv) == msg@);
                            }
                            return Err(JobError::new(msg));
                        },
                    }
                } else if eq_chars(&nm, &str_to_chars("trim")) {
                    match &arg.cell {
                        Cell::Text(s) => {
                            let cs = str_to_chars(s.as_str());
                            if cs.len() == 1 {
                                trim = Some(cs[0]);
                                proof {
                                    let sv = cell_v(arguments@[i as int].cell)->Text_0;
                                    assert(cs@[0] == sv[0]);
                                    assert(parse_v(whole.skip(i as int), gv, acc) == parse_v(
                                        whole.skip(i + 1),
                                        gv,
                                        with_trim(acc, sv[0]),
                                    ));
                                }
                            } else {
                                proof {
                                    let av = whole.skip(i as int)[0];
                                    let sv = cell_v(arguments@[i as int].cell)->Text_0;
                                    assert(sv.len() != 1);
                                    assert(arg_err_v(av, gv) == Some(
                                        "Only one character can be trimmed"@,
                                    ));
                                    assert(parse_err_v(whole.skip(i as int), gv)
                                        == "Only one character can be trimmed"@);
                                }
                                return Err(
                                    JobError::new(
                                        String::from_str("Only one character can be trimmed"),
                                    ),
                                );
                            }
                        },
                        _ => {
                            let mut msg = String::from_str("Unknown parameter ");
                            msg.append(name.as_str());
                            proof {
                                let av = whole.skip(i as int)[0];
                                assert(arg_err_v(av, gv) == Some(msg@));
                                assert(parse_err_v(whole.skip(i as int), gv) == msg@);
                            }
                            return Err(JobError::new(msg));
                        },
                    }
                } else {
                    let mut msg = String::from_str("Unknown parameter ");
                    msg.append(name.as_str());
                    proof {
                        let av = whole.skip(i as int)[0];
                        assert(arg_err_v(av, gv) == Some(msg@));
                        assert(parse_err_v(whole.skip(i as int), gv) == msg@);
                    }
                    return Err(JobError::new(msg));
                }
            },
        }
        proof {
            assert(arg_err_v(whole.skip(i as int)[0], gv) is None);
            assert(parse_err_v(whole.skip(i as int), gv) == parse_err_v(whole.skip(i + 1), gv));
        }
        i = i + 1;
    }
    proof {
        assert(whole.skip(i as int).len() == 0);
    }
    Ok(Config { separator, columns, skip_head, trim, files })
}

/// The fields of a line after optional trimming.
pub open spec fn trim_fields(fs: Seq<Seq<char>>, trim: Option<char>) -> Seq<Seq<char>> {
    match trim {
        None => fs,
        Some(c) => Seq::new(fs.len(), |i: int| trim_seq(fs[i], c)),
    }
}

/// Cast each field to its column's type, from position `i` on; a single
/// failed cast fails the row.
pub open spec fn cast_fields(fields: Seq<Seq<char>>, columns: Seq<ColumnTypeV>, i: int) -> Option<
    Seq<CellV>,
>
    decreases fields.len() - i,
{
    if i < 0 || i >= fields.len() {
        Some(Seq::empty())
    } else {
        match cast_v(CellV::Text(fields[i]), columns[i].cell_type) {
            None => None,
            Some(c) => match cast_fields(fields, columns, i + 1) {
                None => None,
                Some(rest) => Some(seq![c] + rest),
            },
        }
    }
}

/// The typed cells of one line, or nothing when the field count does
/// not match the declared columns or a field fails to cast.
pub open spec fn csv_line_cells(
    line: Seq<char>,
    sep: char,
    trim: Option<char>,
    columns: Seq<ColumnTypeV>,
) -> Option<Seq<CellV>> {
    let fields = trim_fields(split_seq(line, sep), trim);
    if fields.len() != columns.len() {
        None
    } else {
        cast_fields(fields, columns, 0)
    }
}

/// The well-formed rows of a file's lines, in order; malformed lines
/// are skipped.
pub open spec fn csv_rows_spec(
    lines: Seq<Seq<char>>,
    sep: char,
    trim: Option<char>,
    columns: Seq<ColumnTypeV>,
) -> Seq<Seq<CellV>>
    decreases lines.len(),
{
    if lines.len() == 0 {
        Seq::empty()
    } else {
        match csv_line_cells(lines[0], sep, trim, columns) {
            Some(cells) => seq![cells] + csv_rows_spec(lines.skip(1), sep, trim, columns),
            None => csv_rows_spec(lines.skip(1), sep, trim, columns),
        }
    }
}

/// How many lines are malformed: each is reported once and skipped.
pub open spec fn csv_bad_count(
    lines: Seq<Seq<char>>,
    sep: char,
    trim: Option<char>,
    columns: Seq<ColumnTypeV>,
) -> int
    decreases lines.len(),
{
    if lines.len() == 0 {
        0int
    } else {
        (if csv_line_cells(lines[0], sep, trim, columns) is None {
            1int
        } else {
            0int
        }) + csv_bad_count(lines.skip(1), sep, trim, columns)
    }
}

/// The lines left after skipping the header lines.
pub open spec fn lines_after(lines: Seq<Seq<char>>, skip: int) -> Seq<Seq<char>> {
    if 0 <= skip <= lines.len() {
        lines.skip(skip)
    } else {
        Seq::empty()
    }
}

/// Trim each field.
fn apply_trim(raw: Vec<Vec<char>>, trim: &Option<char>) -> (r: Vec<Vec<char>>)
    ensures
        chunks_v(r) == trim_fields(chunks_v(raw), *trim),
{
    match trim {
        None => raw,
        Some(c) => {
            let mut out: Vec<Vec<char>> = Vec::new();
            let mut i: usize = 0;
            while i < raw.len()
                invariant
                    i <= raw@.len(),
                    out@.len() == i,
                    forall|k: int| 0 <= k < i ==> out@[k]@ == trim_seq(raw@[k]@, *c),
                    *trim == Some(*c),
                decreases raw@.len() - i,
            {
                let t = trim_chars(&raw[i], *c);
                out.push(t);
                i = i + 1;
            }
            proof {
                assert(chunks_v(out) =~= trim_fields(chunks_v(raw), *trim));
            }
            out
        },
    }
}

/// Cast the fields of a row to their column types, from position `j`.
fn parse_row_from(fields: &Vec<Vec<char>>, columns: &Vec<ColumnType>, j: usize) -> (r: Result<
    Vec<Cell>,
    JobError,
>)
    requires
        j <= fields@.len(),
        fields@.len() == columns@.len(),
    ensures
        r is Ok <==> cast_fields(chunks_v(*fields), cols_v(*columns), j as int) is Some,
        r is Ok ==> cells_v(r->Ok_0) == cast_fields(chunks_v(*fields), cols_v(*columns), j as int)
            ->0,
    decreases fields@.len() - j,
{
    proof {
        lemma_cols_v(*columns);
    }
    if j == fields.len() {
        let out: Vec<Cell> = Vec::new();
        proof {
            lemma_cells_v(out);
            assert(cells_v(out) =~= Seq::<CellV>::empty());
        }
        Ok(out)
    } else {
        proof {
            assert(chunks_v(*fields)[j as int] == fields@[j as int]@);
        }
        let cell = Cell::text(chars_to_string(&fields[j]).as_str());
        let t = columns[j].cell_type.duplicate();
        match cell.cast(t) {
            Ok(c) => {
                match parse_row_from(fields, columns, j + 1) {
                    Ok(rest) => {
                        let ghost restvec = rest;
                        let mut out = rest;
                        out.insert(0, c);
                        proof {
                            assert(out@ =~= seq![c] + restvec@);
                            lemma_cells_v(out);
                            lemma_cells_v(restvec);
                            assert forall|k: int| 0 <= k < out@.len() implies cells_v(out)[k] == (
                            seq![cell_v(c)] + cells_v(restvec))[k] by {
                                if k > 0 {
                                    assert(out@[k] == restvec@[k - 1]);
                                }
                            }
                            assert(cells_v(out) =~= seq![cell_v(c)] + cells_v(restvec));
                        }
                        Ok(out)
                    },
                    Err(e) => Err(e),
                }
            },
            Err(e) => Err(e),
        }
    }
}

/// Read one file: create its nested stream, fill it with the file's
/// well-formed rows, report each malformed line once, and announce the
/// file on the outer stream as a row of its name and the nested stream.
pub fn handle(
    file: &String,
    lines: &Vec<String>,
    cfg: &Config,
    output: &mut Stream,
    printer: &mut Printer,
) -> (r: Result<(), JobError>)
    requires
        old(output).schema is Some,
    ensures
        ({
            let body = lines_after(strings_v(*lines), cfg.skip_head as int);
            let rows = csv_rows_spec(body, cfg.separator, cfg.trim, cols_v(cfg.columns));
            &&& old(output).consumer_open ==> r is Ok && stream_v(*final(output)).queue
                == stream_v(*old(output)).queue.push(
                seq![
                    CellV::File(file@),
                    CellV::Output(
                        StreamV {
                            schema: Some(cols_v(cfg.columns)),
                            queue: rows,
                            consumer_open: true,
                        },
                    ),
                ],
            ) && strings_v(final(printer).messages).len() == strings_v(
                old(printer).messages,
            ).len() + csv_bad_count(body, cfg.separator, cfg.trim, cols_v(cfg.columns))
            &&& !old(output).consumer_open ==> r is Err && *final(output) == *old(output)
                && *final(printer) == *old(printer)
            &&& stream_v(*final(output)).schema == stream_v(*old(output)).schema
            &&& final(output).consumer_open == old(output).consumer_open
        }),
{
    if !output.consumer_open {
        return Err(JobError::new(String::from_str("Sending to closed stream")));
    }
    let ghost body = lines_after(strings_v(*lines), cfg.skip_head as int);
    let mut nested = Stream::unlimited();
    match nested.initialize(clone_cols(&cfg.columns)) {
        Ok(()) => {},
        Err(e) => {
            // A fresh stream has no schema yet, so initialization succeeds.
            proof {
                assert(false);
            }
            return Err(e);
        },
    }
    let base: usize = if cfg.skip_head < lines.len() {
        cfg.skip_head
    } else {
        lines.len()
    };
    proof {
        if cfg.skip_head as int > strings_v(*lines).len() {
            assert(body =~= strings_v(*lines).skip(base as int));
        }
        assert(body == strings_v(*lines).skip(base as int));
        assert(body.skip(0) =~= body);
    }
    let mut i: usize = base;
    while i < lines.len()
        invariant
            base <= i <= lines@.len(),
            body == strings_v(*lines).skip(base as int),
            stream_v(nested).schema == Some(cols_v(cfg.columns)),
            nested.schema is Some,
            nested.consumer_open,
            csv_rows_spec(body, cfg.separator, cfg.trim, cols_v(cfg.columns)) == stream_v(
                nested,
            ).queue + csv_rows_spec(
                body.skip(i - base),
                cfg.separator,
                cfg.trim,
                cols_v(cfg.columns),
            ),
            strings_v(printer.messages).len() == strings_v(old(printer).messages).len()
                + csv_bad_count(body, cfg.separator, cfg.trim, cols_v(cfg.columns))
                - csv_bad_count(body.skip(i - base), cfg.separator, cfg.trim, cols_v(cfg.columns)),
            *output == *old(output),
        decreases lines@.len() - i,
    {
        let ghost remaining = body.skip(i - base);
        proof {
            assert(remaining[0] == body[i - base]);
            assert(body[i - base] == strings_v(*lines)[i as int]);
            assert(remaining.skip(1) =~= body.skip(i - base + 1));
        }
        let cs = str_to_chars(lines[i].as_str());
        let raw = split_chars(&cs, cfg.separator);
        let fields = apply_trim(raw, &cfg.trim);
        if fields.len() != cfg.columns.len() {
            proof {
                lemma_cols_v(cfg.columns);
                assert(csv_line_cells(
                    remaining[0],
                    cfg.separator,
                    cfg.trim,
                    cols_v(cfg.columns),
                ) is None);
            }
            printer.error("csv: Wrong number of columns in CSV file");
        } else {
            proof {
                lemma_cols_v(cfg.columns);
            }
            match parse_row_from(&fields, &cfg.columns, 0) {
                Ok(cells) => {
                    match nested.send(Row { cells }) {
                        Ok(()) => {},
                        Err(e) => {
                            // The nested consumer half is still held here.
                            proof {
                                assert(false);
                            }
                            return Err(e);
                        },
                    }
                },
                Err(e) => {
                    printer.report_failure(e);
                },
            }
        }
        i = i + 1;
    }
    proof {
        assert(body.skip(i - base).len() == 0);
        assert(csv_rows_spec(
            body.skip(i - base),
            cfg.separator,
            cfg.trim,
            cols_v(cfg.columns),
        ) =~= Seq::<Seq<CellV>>::empty());
        assert(stream_v(nested).queue =~= csv_rows_spec(
            body,
            cfg.separator,
            cfg.trim,
            cols_v(cfg.columns),
        ));
    }
    let mut cells: Vec<Cell> = Vec::new();
    cells.push(Cell::File(file.clone()));
    cells.push(Cell::Output(nested));
    let out_row = Row { cells };
    proof {
        lemma_cells_v(out_row.cells);
        assert(row_v(out_row) =~= seq![
            cell_v(out_row.cells@[0]),
            cell_v(out_row.cells@[1]),
        ]);
    }
    match output.send(out_row) {
        Ok(()) => Ok(()),
        Err(e) => Err(e),
    }
}

/// The outer row announcing one file: its name and its nested stream.
pub open spec fn outer_row(
    name: Seq<char>,
    lines: Seq<Seq<char>>,
    sep: char,
    trim: Option<char>,
    skip: int,
    columns: Seq<ColumnTypeV>,
) -> Seq<CellV> {
    seq![
        CellV::File(name),
        CellV::Output(
            StreamV {
                schema: Some(columns),
                queue: csv_rows_spec(lines_after(lines, skip), sep, trim, columns),
                consumer_open: true,
            },
        ),
    ]
}

/// The outer rows of a reader invocation: one per input file, in order.
pub open spec fn outer_rows(
    fs: Seq<(Seq<char>, Seq<Seq<char>>)>,
    sep: char,
    trim: Option<char>,
    skip: int,
    columns: Seq<ColumnTypeV>,
) -> Seq<Seq<CellV>> {
    Seq::new(fs.len(), |i: int| outer_row(fs[i].0, fs[i].1, sep, trim, skip, columns))
}

/// How many malformed lines all the files hold together.
pub open spec fn bad_total(
    fs: Seq<(Seq<char>, Seq<Seq<char>>)>,
    sep: char,
    trim: Option<char>,
    skip: int,
    columns: Seq<ColumnTypeV>,
) -> int
    decreases fs.len(),
{
    if fs.len() == 0 {
        0int
    } else {
        csv_bad_count(lines_after(fs[0].1, skip), sep, trim, columns) + bad_total(
            fs.skip(1),
            sep,
            trim,
            skip,
            columns,
        )
    }
}

/// Read every file of the invocation, announcing each on the output
/// stream with its nested stream of rows.
pub fn run(
    cfg: &Config,
    contents: &Vec<FileData>,
    output: &mut Stream,
    printer: &mut Printer,
) -> (r: Result<(), JobError>)
    requires
        old(output).schema is Some,
    ensures
        ({
            let fs = files_v(*contents);
            &&& old(output).consumer_open ==> r is Ok && stream_v(*final(output)).queue
                == stream_v(*old(output)).queue + outer_rows(
                fs,
                cfg.separator,
                cfg.trim,
                cfg.skip_head as int,
                cols_v(cfg.columns),
            ) && strings_v(final(printer).messages).len() == strings_v(
                old(printer).messages,
            ).len() + bad_total(
                fs,
                cfg.separator,
                cfg.trim,
                cfg.skip_head as int,
                cols_v(cfg.columns),
            )
            &&& !old(output).consumer_open && fs.len() > 0 ==> r is Err && *final(output) == *old(
                output,
            ) && *final(printer) == *old(printer)
            &&& !old(output).consumer_open && fs.len() == 0 ==> r is Ok && *final(output) == *old(
                output,
            ) && *final(printer) == *old(printer)
            &&& stream_v(*final(output)).schema == stream_v(*old(output)).schema
            &&& final(output).consumer_open == old(output).consumer_open
        }),
{
    let ghost fs = files_v(*contents);
    let ghost sep = cfg.separator;
    let ghost skip = cfg.skip_head as int;
    let ghost cols = cols_v(cfg.columns);
    proof {
        assert(stream_v(*old(output)).queue + outer_rows(fs, sep, cfg.trim, skip, cols).take(0)
            =~= stream_v(*old(output)).queue);
        assert(fs.skip(0) =~= fs);
    }
    let mut i: usize = 0;
    while i < contents.len()
        invariant
            i <= contents@.len(),
            fs == files_v(*contents),
            sep == cfg.separator,
            skip == cfg.skip_head as int,
            cols == cols_v(cfg.columns),
            output.schema is Some,
            output.consumer_open == old(output).consumer_open,
            old(output).consumer_open ==> stream_v(*output).queue == stream_v(
                *old(output),
            ).queue + outer_rows(fs, sep, cfg.trim, skip, cols).take(i as int),
            !old(output).consumer_open ==> i == 0 && *output == *old(output) && *printer == *old(
                printer,
            ),
            strings_v(printer.messages).len() == strings_v(old(printer).messages).len()
                + bad_total(fs, sep, cfg.trim, skip, cols) - bad_total(
                fs.skip(i as int),
                sep,
                cfg.trim,
                skip,
                cols,
            ),
            stream_v(*output).schema == stream_v(*old(output)).schema,
        decreases contents@.len() - i,
    {
        proof {
            assert(fs[i as int] == (contents@[i as int].name@, strings_v(
                contents@[i as int].lines,
            )));
            assert(fs.skip(i as int)[0] == fs[i as int]);
            assert(fs.skip(i as int).skip(1) =~= fs.skip(i + 1));
        }
        match handle(&contents[i].name, &contents[i].lines, cfg, output, printer) {
            Ok(()) => {},
            Err(e) => {
                return Err(e);
            },
        }
        i = i + 1;
        proof {
            if old(output).consumer_open {
                assert(outer_rows(fs, sep, cfg.trim, skip, cols)[i - 1] == outer_row(
                    fs[i - 1].0,
                    fs[i - 1].1,
                    sep,
                    cfg.trim,
                    skip,
                    cols,
                ));
                assert(stream_v(*output).queue =~= stream_v(*old(output)).queue + outer_rows(
                    fs,
                    sep,
                    cfg.trim,
                    skip,
                    cols,
                ).take(i as int));
            }
        }
    }
    proof {
        assert(outer_rows(fs, sep, cfg.trim, skip, cols).take(i as int) =~= outer_rows(
            fs,
            sep,
            cfg.trim,
            skip,
            cols,
        ));
        assert(fs.skip(i as int).len() == 0);
    }
    Ok(())
}

/// Compile and run the reader: resolve the arguments, fix the output
/// schema as a file column and a nested-stream column, and read the
/// files.
pub fn compile_and_run(context: &mut CompileContext) -> (r: Result<(), JobError>)
    ensures
        parse_v(
            args_v(old(context).arguments),
            globs_v(old(context).globs),
            init_config_v(),
        ) is None ==> r is Err && *final(context) == *old(context) && r->Err_0.message@
            == parse_err_v(args_v(old(context).arguments), globs_v(old(context).globs)),
        old(context).output.schema is Some ==> r is Err && *final(context) == *old(context),
        ({
            let pc = parse_v(
                args_v(old(context).arguments),
                globs_v(old(context).globs),
                init_config_v(),
            );
            pc is Some && old(context).output.schema is None && old(
                context,
            ).output.consumer_open ==> r is Ok && stream_v(final(context).output).queue
                == stream_v(old(context).output).queue + outer_rows(
                files_v(old(context).files),
                pc->0.sep,
                pc->0.trim,
                pc->0.skip,
                pc->0.columns,
            ) && stream_v(final(context).output).schema == Some(
                seq![
                    ColumnTypeV { name: "file"@, cell_type: CellTypeV::File },
                    ColumnTypeV {
                        name: "data"@,
                        cell_type: CellTypeV::Output(pc->0.columns),
                    },
                ],
            )
        }),
{
    let cfg = match parse(&context.arguments, &context.globs) {
        Ok(c) => c,
        Err(e) => {
            return Err(e);
        },
    };
    let mut schema: Vec<ColumnType> = Vec::new();
    schema.push(ColumnType::named("file", CellType::File));
    schema.push(ColumnType::named("data", CellType::Output(clone_cols(&cfg.columns))));
    proof {
        lemma_cols_v(schema);
        assert(cols_v(schema) =~= seq![
            ColumnTypeV { name: "file"@, cell_type: CellTypeV::File },
            ColumnTypeV {
                name: "data"@,
                cell_type: CellTypeV::Output(cols_v(cfg.columns)),
            },
        ]);
    }
    match context.output.initialize(schema) {
        Ok(()) => {},
        Err(e) => {
            return Err(e);
        },
    }
    run(&cfg, &context.files, &mut context.output, &mut context.printer)
}


} // verus!
