//! The cell algebra: the tagged-union value type that flows through
//! pipelines, its views, and its cast, comparison, equality and hash
//! operations.

use vstd::prelude::*;
use vstd::string::StringExecFns;
use crate::JobError;
use crate::chars::{str_to_chars, chars_to_string, eq_chars, cmp_chars, format_i128, parse_i128,
    lex_cmp, int_str, int_of_str, valid_int_str, lemma_lex_cmp_eq};
use crate::glob::{GlobPattern, glob_match};
use crate::outside::{regex_valid, compile_regex, clone_regex, format_local_time, canonical_path};
use crate::schema::{CellType, CellTypeV, ColumnType, ColumnTypeV, ctv, cols_v, cols_v_from, clone_cols,
    cmp_type_v, type_rank, type_hashable, lemma_cmp_type_eq, lemma_cmp_type_flip, lemma_cols_v,
    same_cols};
use crate::stream::{Row, Stream};
use crate::time::{TimeValue, DurationValue, duration_str, duration_format};

verus! {

broadcast use vstd::std_specs::vec::axiom_vec_index_decreases;

/// A fully materialized table: a schema and the rows that carry it.
pub struct Table {
    pub types: Vec<ColumnType>,
    pub rows: Vec<Row>,
}

/// A single row together with its schema.
pub struct RowWithTypes {
    pub types: Vec<ColumnType>,
    pub cells: Vec<Cell>,
}

/// An ordered collection of cells of one element type.
pub struct ListValue {
    pub elem: CellType,
    pub cells: Vec<Cell>,
}

/// A typed mapping held as ordered key/value pairs.
pub struct DictValue {
    pub key: CellType,
    pub val: CellType,
    pub entries: Vec<(Cell, Cell)>,
}

/// A reference to an invocable command.
pub struct CommandRef {
    pub name: String,
}

/// A deferred block of pipeline code, identified by its registration.
pub struct ClosureRef {
    pub id: u64,
}

/// A reference to a lexical scope.
pub struct EnvRef {
    pub id: u64,
}

/// The runtime value type of the pipeline.
pub enum Cell {
    Text(String),
    Integer(i128),
    Time(TimeValue),
    Duration(DurationValue),
    Field(Vec<String>),
    Glob(GlobPattern),
    Regex(String, regex::Regex),
    Op(String),
    Command(CommandRef),
    Closure(ClosureRef),
    Output(Stream),
    File(String),
    Rows(Table),
    Row(RowWithTypes),
    List(ListValue),
    Dict(DictValue),
    Env(EnvRef),
    Bool(bool),
}

/// Mathematical image of a cell.  A compiled regular expression is
/// identified by its pattern text; a stream by its schema, queue and
/// consumer state.
pub enum CellV {
    Text(Seq<char>),
    Integer(int),
    Time(int, int),
    Duration(int, int),
    Field(Seq<Seq<char>>),
    Glob(Seq<char>),
    Regex(Seq<char>),
    Op(Seq<char>),
    Command(Seq<char>),
    Closure(int),
    Output(StreamV),
    File(Seq<char>),
    Rows(TableV),
    Row(RowTypedV),
    List(ListV),
    Dict(DictV),
    Env(int),
    Bool(bool),
}

/// Mathematical image of a stream.
pub struct StreamV {
    pub schema: Option<Seq<ColumnTypeV>>,
    pub queue: Seq<Seq<CellV>>,
    pub consumer_open: bool,
}

/// Mathematical image of a table.
pub struct TableV {
    pub types: Seq<ColumnTypeV>,
    pub rows: Seq<Seq<CellV>>,
}

/// Mathematical image of a typed row.
pub struct RowTypedV {
    pub types: Seq<ColumnTypeV>,
    pub cells: Seq<CellV>,
}

/// Mathematical image of a list.
pub struct ListV {
    pub elem: CellTypeV,
    pub cells: Seq<CellV>,
}

/// Mathematical image of a dictionary.
pub struct DictV {
    pub key: CellTypeV,
    pub val: CellTypeV,
    pub entries: Seq<(CellV, CellV)>,
}

/// The views of a vector of owned strings.
pub open spec fn strings_v(v: Vec<String>) -> Seq<Seq<char>> {
    Seq::new(v@.len(), |i: int| v@[i]@)
}

/// The view of a cell.
pub open spec fn cell_v(c: Cell) -> CellV
    decreases c, 0int,
{
    match c {
        Cell::Text(s) => CellV::Text(s@),
        Cell::Integer(i) => CellV::Integer(i as int),
        Cell::Time(t) => CellV::Time(t.secs as int, t.nanos as int),
        Cell::Duration(d) => CellV::Duration(d.secs as int, d.nanos as int),
        Cell::Field(f) => CellV::Field(strings_v(f)),
        Cell::Glob(g) => CellV::Glob(g.pattern@),
        Cell::Regex(s, _) => CellV::Regex(s@),
        Cell::Op(s) => CellV::Op(s@),
        Cell::Command(c) => CellV::Command(c.name@),
        Cell::Closure(c) => CellV::Closure(c.id as int),
        Cell::Output(s) => CellV::Output(
            StreamV {
                schema: match s.schema {
                    Some(cols) => Some(cols_v(cols)),
                    None => None,
                },
                queue: rows_v_from(s.queue, 0),
                consumer_open: s.consumer_open,
            },
        ),
        Cell::File(s) => CellV::File(s@),
        Cell::Rows(t) => CellV::Rows(
            TableV { types: cols_v(t.types), rows: rows_v_from(t.rows, 0) },
        ),
        Cell::Row(r) => CellV::Row(
            RowTypedV { types: cols_v(r.types), cells: cells_v_from(r.cells, 0) },
        ),
        Cell::List(l) => CellV::List(ListV { elem: ctv(l.elem), cells: cells_v_from(l.cells, 0) }),
        Cell::Dict(d) => CellV::Dict(
            DictV { key: ctv(d.key), val: ctv(d.val), entries: entries_v_from(d.entries, 0) },
        ),
        Cell::Env(e) => CellV::Env(e.id as int),
        Cell::Bool(b) => CellV::Bool(b),
    }
}

/// The views of the cells of a vector from position `i` on.
pub open spec fn cells_v_from(cs: Vec<Cell>, i: int) -> Seq<CellV>
    decreases cs, cs@.len() - i,
    via cells_v_from_dec
{
    if 0 <= i < cs@.len() {
        seq![cell_v(cs@[i])] + cells_v_from(cs, i + 1)
    } else {
        Seq::empty()
    }
}

#[via_fn]
proof fn cells_v_from_dec(cs: Vec<Cell>, i: int) {
    if 0 <= i < cs@.len() {
        vstd::std_specs::vec::axiom_vec_index_decreases(cs, i);
        assert(decreases_to!(cs => cs[i]));
    }
}

/// The views of the rows of a vector from position `i` on.
pub open spec fn rows_v_from(rs: Vec<Row>, i: int) -> Seq<Seq<CellV>>
    decreases rs, rs@.len() - i,
    via rows_v_from_dec
{
    if 0 <= i < rs@.len() {
        seq![cells_v_from(rs@[i].cells, 0)] + rows_v_from(rs, i + 1)
    } else {
        Seq::empty()
    }
}

#[via_fn]
proof fn rows_v_from_dec(rs: Vec<Row>, i: int) {
    if 0 <= i < rs@.len() {
        vstd::std_specs::vec::axiom_vec_index_decreases(rs, i);
        assert(decreases_to!(rs => rs[i]));
        assert(decreases_to!(rs@[i] => rs@[i].cells));
    }
}

/// The views of the entries of a dictionary from position `i` on.
pub open spec fn entries_v_from(es: Vec<(Cell, Cell)>, i: int) -> Seq<(CellV, CellV)>
    decreases es, es@.len() - i,
    via entries_v_from_dec
{
    if 0 <= i < es@.len() {
        seq![(cell_v(es@[i].0), cell_v(es@[i].1))] + entries_v_from(es, i + 1)
    } else {
        Seq::empty()
    }
}

#[via_fn]
proof fn entries_v_from_dec(es: Vec<(Cell, Cell)>, i: int) {
    if 0 <= i < es@.len() {
        vstd::std_specs::vec::axiom_vec_index_decreases(es, i);
        assert(decreases_to!(es => es[i]));
        assert(decreases_to!(es@[i] => es@[i].0));
        assert(decreases_to!(es@[i] => es@[i].1));
    }
}

/// The views of a vector of cells.
pub open spec fn cells_v(cs: Vec<Cell>) -> Seq<CellV> {
    cells_v_from(cs, 0)
}

/// The views of a vector of rows.
pub open spec fn rows_v(rs: Vec<Row>) -> Seq<Seq<CellV>> {
    rows_v_from(rs, 0)
}

/// The view of one row.
pub open spec fn row_v(r: Row) -> Seq<CellV> {
    cells_v_from(r.cells, 0)
}

/// The view of a stream.
pub open spec fn stream_v(s: Stream) -> StreamV {
    StreamV {
        schema: match s.schema {
            Some(cols) => Some(cols_v(cols)),
            None => None,
        },
        queue: rows_v_from(s.queue, 0),
        consumer_open: s.consumer_open,
    }
}

/// The cell views of a vector are its elements' views, in order.
pub proof fn lemma_cells_v(cs: Vec<Cell>)
    ensures
        cells_v(cs).len() == cs@.len(),
        forall|j: int| 0 <= j < cs@.len() ==> cells_v(cs)[j] == cell_v(cs@[j]),
{
    lemma_cells_v_from(cs, 0);
}

proof fn lemma_cells_v_from(cs: Vec<Cell>, i: int)
    requires
        0 <= i <= cs@.len(),
    ensures
        cells_v_from(cs, i).len() == cs@.len() - i,
        forall|j: int| i <= j < cs@.len() ==> cells_v_from(cs, i)[j - i] == cell_v(cs@[j]),
    decreases cs@.len() - i,
{
    if i < cs@.len() {
        lemma_cells_v_from(cs, i + 1);
    }
}

/// The row views of a vector are its rows' views, in order.
pub proof fn lemma_rows_v(rs: Vec<Row>)
    ensures
        rows_v(rs).len() == rs@.len(),
        forall|j: int| 0 <= j < rs@.len() ==> rows_v(rs)[j] == row_v(rs@[j]),
{
    lemma_rows_v_from(rs, 0);
}

proof fn lemma_rows_v_from(rs: Vec<Row>, i: int)
    requires
        0 <= i <= rs@.len(),
    ensures
        rows_v_from(rs, i).len() == rs@.len() - i,
        forall|j: int| i <= j < rs@.len() ==> rows_v_from(rs, i)[j - i] == row_v(rs@[j]),
    decreases rs@.len() - i,
{
    if i < rs@.len() {
        lemma_rows_v_from(rs, i + 1);
    }
}

/// The entry views of a vector are its entries' views, in order.
pub proof fn lemma_entries_v(es: Vec<(Cell, Cell)>)
    ensures
        entries_v_from(es, 0).len() == es@.len(),
        forall|j: int|
            0 <= j < es@.len() ==> entries_v_from(es, 0)[j] == (
            cell_v(es@[j].0),
            cell_v(es@[j].1),
            ),
{
    lemma_entries_v_from(es, 0);
}

proof fn lemma_entries_v_from(es: Vec<(Cell, Cell)>, i: int)
    requires
        0 <= i <= es@.len(),
    ensures
        entries_v_from(es, i).len() == es@.len() - i,
        forall|j: int|
            i <= j < es@.len() ==> entries_v_from(es, i)[j - i] == (
            cell_v(es@[j].0),
            cell_v(es@[j].1),
            ),
    decreases es@.len() - i,
{
    if i < es@.len() {
        lemma_entries_v_from(es, i + 1);
    }
}

/// Appending a row to a vector appends its view to the vector's view.
pub proof fn lemma_rows_v_push(old_q: Vec<Row>, new_q: Vec<Row>, row: Row)
    requires
        new_q@ == old_q@.push(row),
    ensures
        rows_v(new_q) == rows_v(old_q).push(row_v(row)),
{
    lemma_rows_v(old_q);
    lemma_rows_v(new_q);
    assert(rows_v(new_q) =~= rows_v(old_q).push(row_v(row)));
}

/// Removing the first row of a vector drops the first view.
pub proof fn lemma_rows_v_remove(old_q: Vec<Row>, new_q: Vec<Row>)
    requires
        old_q@.len() > 0,
        new_q@ == old_q@.remove(0),
    ensures
        rows_v(new_q) == rows_v(old_q).skip(1),
        rows_v(old_q).len() > 0,
{
    lemma_rows_v(old_q);
    lemma_rows_v(new_q);
    assert(new_q@ =~= old_q@.skip(1));
    assert(rows_v(new_q) =~= rows_v(old_q).skip(1));
}

/// The type a cell view carries.
pub open spec fn type_of_v(v: CellV) -> CellTypeV {
    match v {
        CellV::Text(_) => CellTypeV::Text,
        CellV::Integer(_) => CellTypeV::Integer,
        CellV::Time(_, _) => CellTypeV::Time,
        CellV::Duration(_, _) => CellTypeV::Duration,
        CellV::Field(_) => CellTypeV::Field,
        CellV::Glob(_) => CellTypeV::Glob,
        CellV::Regex(_) => CellTypeV::Regex,
        CellV::Op(_) => CellTypeV::Op,
        CellV::Command(_) => CellTypeV::Command,
        CellV::Closure(_) => CellTypeV::Closure,
        CellV::Output(s) => CellTypeV::Output(
            match s.schema {
                Some(cols) => cols,
                None => Seq::empty(),
            },
        ),
        CellV::File(_) => CellTypeV::File,
        CellV::Rows(t) => CellTypeV::Rows(t.types),
        CellV::Row(r) => CellTypeV::Row(r.types),
        CellV::List(l) => CellTypeV::List(Box::new(l.elem)),
        CellV::Dict(d) => CellTypeV::Dict(Box::new(d.key), Box::new(d.val)),
        CellV::Env(_) => CellTypeV::Env,
        CellV::Bool(_) => CellTypeV::Bool,
    }
}

/// How a cell is aligned when rendered in a table.
pub enum Alignment {
    Left,
    Right,
}

impl Cell {
    /// A text cell from a string slice.
    pub fn text(s: &str) -> (r: Cell)
        ensures
            cell_v(r) == CellV::Text(s@),
    {
        Cell::Text(String::from_str(s))
    }

    /// An operator cell from a string slice.
    pub fn op(s: &str) -> (r: Cell)
        ensures
            cell_v(r) == CellV::Op(s@),
    {
        Cell::Op(String::from_str(s))
    }

    /// A cell holding a fresh, already initialized stream with an empty
    /// schema and no rows.
    pub fn empty_stream() -> (r: Cell)
        ensures
            cell_v(r) == CellV::Output(
                StreamV {
                    schema: Some(Seq::empty()),
                    queue: Seq::empty(),
                    consumer_open: true,
                },
            ),
    {
        let mut s = Stream::unlimited();
        let empty_schema: Vec<ColumnType> = Vec::new();
        proof {
            lemma_cols_v(empty_schema);
            assert(cols_v(empty_schema) =~= Seq::<ColumnTypeV>::empty());
        }
        let r = s.initialize(empty_schema);
        Cell::Output(s)
    }

    /// Numbers and moments are right-aligned; everything else left.
    pub fn alignment(&self) -> (r: Alignment)
        ensures
            r is Right <==> (cell_v(*self) is Time || cell_v(*self) is Duration || cell_v(*self)
                is Integer),
    {
        match self {
            Cell::Time(_) | Cell::Duration(_) | Cell::Integer(_) => Alignment::Right,
            _ => Alignment::Left,
        }
    }

    /// The type descriptor of this cell.
    pub fn cell_type(&self) -> (r: CellType)
        ensures
            ctv(r) == type_of_v(cell_v(*self)),
    {
        let r = match self {
            Cell::Text(_) => CellType::Text,
            Cell::Integer(_) => CellType::Integer,
            Cell::Time(_) => CellType::Time,
            Cell::Duration(_) => CellType::Duration,
            Cell::Field(_) => CellType::Field,
            Cell::Glob(_) => CellType::Glob,
            Cell::Regex(_, _) => CellType::Regex,
            Cell::Op(_) => CellType::Op,
            Cell::Command(_) => CellType::Command,
            Cell::Closure(_) => CellType::Closure,
            Cell::Output(s) => match &s.schema {
                Some(cols) => CellType::Output(clone_cols(cols)),
                None => CellType::Output(Vec::new()),
            },
            Cell::File(_) => CellType::File,
            Cell::Rows(t) => CellType::Rows(clone_cols(&t.types)),
            Cell::Row(r) => CellType::Row(clone_cols(&r.types)),
            Cell::List(l) => CellType::List(Box::new(l.elem.duplicate())),
            Cell::Dict(d) => CellType::Dict(
                Box::new(d.key.duplicate()),
                Box::new(d.val.duplicate()),
            ),
            Cell::Env(_) => CellType::Env,
            Cell::Bool(_) => CellType::Bool,
        };
        proof {
            match self {
                Cell::Output(s) => {
                    if s.schema is None {
                        assert(cols_v_from(r->Output_0, 0) =~= Seq::<ColumnTypeV>::empty());
                    }
                },
                _ => {},
            }
        }
        r
    }
}

/// Order verdict between two integers.
pub open spec fn int_cmp(a: int, b: int) -> core::cmp::Ordering {
    if a < b {
        core::cmp::Ordering::Less
    } else if a > b {
        core::cmp::Ordering::Greater
    } else {
        core::cmp::Ordering::Equal
    }
}

/// Order verdict between two integer pairs, first component first.
pub open spec fn pair_cmp(a1: int, a2: int, b1: int, b2: int) -> core::cmp::Ordering {
    if a1 != b1 {
        int_cmp(a1, b1)
    } else {
        int_cmp(a2, b2)
    }
}

/// Lexicographic order over dotted paths.
pub open spec fn fields_cmp(a: Seq<Seq<char>>, b: Seq<Seq<char>>) -> core::cmp::Ordering
    decreases a.len(),
{
    if a.len() == 0 && b.len() == 0 {
        core::cmp::Ordering::Equal
    } else if a.len() == 0 {
        core::cmp::Ordering::Less
    } else if b.len() == 0 {
        core::cmp::Ordering::Greater
    } else {
        let c = lex_cmp(a[0], b[0]);
        if c != core::cmp::Ordering::Equal {
            c
        } else {
            fields_cmp(a.skip(1), b.skip(1))
        }
    }
}

/// The order between two cells.  Cells of different type order by the
/// fixed global type order; cells of the same type by the variant's own
/// rule; commands, closures, streams, scopes and dictionaries are
/// incomparable even with themselves.
pub open spec fn cmp_cell_v(a: CellV, b: CellV) -> Option<core::cmp::Ordering>
    decreases a, 0int,
{
    if type_of_v(a) != type_of_v(b) {
        Some(cmp_type_v(type_of_v(a), type_of_v(b)))
    } else {
        match (a, b) {
            (CellV::Text(s1), CellV::Text(s2)) => Some(lex_cmp(s1, s2)),
            (CellV::Field(f1), CellV::Field(f2)) => Some(fields_cmp(f1, f2)),
            (CellV::Glob(p1), CellV::Glob(p2)) => Some(lex_cmp(p1, p2)),
            (CellV::Regex(s1), CellV::Regex(s2)) => Some(lex_cmp(s1, s2)),
            (CellV::Integer(i1), CellV::Integer(i2)) => Some(int_cmp(i1, i2)),
            (CellV::Time(s1, n1), CellV::Time(s2, n2)) => Some(pair_cmp(s1, n1, s2, n2)),
            (CellV::Duration(s1, n1), CellV::Duration(s2, n2)) => Some(pair_cmp(s1, n1, s2, n2)),
            (CellV::Op(s1), CellV::Op(s2)) => Some(lex_cmp(s1, s2)),
            (CellV::File(s1), CellV::File(s2)) => Some(lex_cmp(s1, s2)),
            (CellV::Bool(b1), CellV::Bool(b2)) => Some(
                int_cmp(if b1 { 1int } else { 0int }, if b2 { 1int } else { 0int }),
            ),
            (CellV::Rows(t1), CellV::Rows(t2)) => rows_cmp_v(t1.rows, t2.rows),
            (CellV::Row(r1), CellV::Row(r2)) => cells_cmp_v(r1.cells, r2.cells),
            (CellV::List(l1), CellV::List(l2)) => cells_cmp_v(l1.cells, l2.cells),
            _ => None,
        }
    }
}

/// Element-wise order over cell sequences, first difference decides; an
/// incomparable element makes the whole comparison incomparable.
pub open spec fn cells_cmp_v(a: Seq<CellV>, b: Seq<CellV>) -> Option<core::cmp::Ordering>
    decreases a, 1int,
    via cells_cmp_v_dec
{
    if a.len() == 0 && b.len() == 0 {
        Some(core::cmp::Ordering::Equal)
    } else if a.len() == 0 {
        Some(core::cmp::Ordering::Less)
    } else if b.len() == 0 {
        Some(core::cmp::Ordering::Greater)
    } else {
        match cmp_cell_v(a[0], b[0]) {
            None => None,
            Some(o) => if o == core::cmp::Ordering::Equal {
                cells_cmp_v(a.skip(1), b.skip(1))
            } else {
                Some(o)
            },
        }
    }
}

#[via_fn]
proof fn cells_cmp_v_dec(a: Seq<CellV>, b: Seq<CellV>) {
    if a.len() != 0 && b.len() != 0 {
        vstd::seq::axiom_seq_index_decreases(a, 0);
        vstd::seq::axiom_seq_len_decreases(a, a.skip(1));
    }
}

/// Element-wise order over row sequences.
pub open spec fn rows_cmp_v(a: Seq<Seq<CellV>>, b: Seq<Seq<CellV>>) -> Option<
    core::cmp::Ordering,
>
    decreases a, 2int,
    via rows_cmp_v_dec
{
    if a.len() == 0 && b.len() == 0 {
        Some(core::cmp::Ordering::Equal)
    } else if a.len() == 0 {
        Some(core::cmp::Ordering::Less)
    } else if b.len() == 0 {
        Some(core::cmp::Ordering::Greater)
    } else {
        match cells_cmp_v(a[0], b[0]) {
            None => None,
            Some(o) => if o == core::cmp::Ordering::Equal {
                rows_cmp_v(a.skip(1), b.skip(1))
            } else {
                Some(o)
            },
        }
    }
}

#[via_fn]
proof fn rows_cmp_v_dec(a: Seq<Seq<CellV>>, b: Seq<Seq<CellV>>) {
    if a.len() != 0 && b.len() != 0 {
        vstd::seq::axiom_seq_index_decreases(a, 0);
        vstd::seq::axiom_seq_len_decreases(a, a.skip(1));
    }
}

/// Whether an equality test between these two cells consults the file
/// system instead of the values alone.
pub open spec fn is_file_pair(a: CellV, b: CellV) -> bool {
    (a is File && b is File) || (a is File && b is Text) || (a is Text && b is File)
}

/// Structural equality between cells, with one deliberate exception: a
/// glob compared with a text matches the pattern against the text, a
/// shorthand that is symmetric but not transitive.  A composite cell
/// carries its element or column types in its `CellType`, so equality
/// between composites asks that those embedded types agree as well:
/// cells of incompatible `CellType` are never equal.  File comparisons
/// are resolved against the file system by the running code and are
/// stated here over the raw paths only.
pub open spec fn eq_v(a: CellV, b: CellV) -> bool {
    match (a, b) {
        (CellV::Text(s1), CellV::Text(s2)) => s1 == s2,
        (CellV::Glob(g), CellV::Text(t)) => glob_match(g, t),
        (CellV::Text(t), CellV::Glob(g)) => glob_match(g, t),
        (CellV::Integer(i1), CellV::Integer(i2)) => i1 == i2,
        (CellV::Time(s1, n1), CellV::Time(s2, n2)) => s1 == s2 && n1 == n2,
        (CellV::Duration(s1, n1), CellV::Duration(s2, n2)) => s1 == s2 && n1 == n2,
        (CellV::Field(f1), CellV::Field(f2)) => f1 == f2,
        (CellV::Glob(p1), CellV::Glob(p2)) => p1 == p2,
        (CellV::Regex(s1), CellV::Regex(s2)) => s1 == s2,
        (CellV::Op(s1), CellV::Op(s2)) => s1 == s2,
        (CellV::Command(c1), CellV::Command(c2)) => c1 == c2,
        (CellV::List(l1), CellV::List(l2)) => l1.elem == l2.elem && cells_cmp_v(
            l1.cells,
            l2.cells,
        ) == Some(core::cmp::Ordering::Equal),
        (CellV::Rows(t1), CellV::Rows(t2)) => t1.types == t2.types && rows_cmp_v(
            t1.rows,
            t2.rows,
        ) == Some(core::cmp::Ordering::Equal),
        (CellV::Row(r1), CellV::Row(r2)) => r1.types == r2.types && cells_cmp_v(
            r1.cells,
            r2.cells,
        ) == Some(core::cmp::Ordering::Equal),
        (CellV::File(s1), CellV::File(s2)) => s1 == s2,
        (CellV::Bool(b1), CellV::Bool(b2)) => b1 == b2,
        _ => false,
    }
}

/// Glob–text equality reads the same in both directions.
pub proof fn law_glob_text_symmetric(g: Seq<char>, t: Seq<char>)
    ensures
        eq_v(CellV::Glob(g), CellV::Text(t)) == eq_v(CellV::Text(t), CellV::Glob(g)),
{
}

/// The field-path order gives `Equal` exactly on equal paths.
proof fn lemma_fields_cmp_eq(a: Seq<Seq<char>>, b: Seq<Seq<char>>)
    ensures
        fields_cmp(a, b) == core::cmp::Ordering::Equal <==> a == b,
    decreases a.len(),
{
    if a.len() == 0 && b.len() == 0 {
        assert(a =~= b);
    } else if a.len() == 0 || b.len() == 0 {
    } else {
        lemma_lex_cmp_eq(a[0], b[0]);
        lemma_fields_cmp_eq(a.skip(1), b.skip(1));
        if fields_cmp(a, b) == core::cmp::Ordering::Equal {
            assert forall|k: int| 0 <= k < a.len() implies a[k] == b[k] by {
                if k > 0 {
                    assert(a.skip(1)[k - 1] == a[k]);
                    assert(b.skip(1)[k - 1] == b[k]);
                }
            }
            assert(a =~= b);
        } else {
            if a == b {
                assert(a.skip(1) =~= b.skip(1));
            }
        }
    }
}

/// An `Equal` verdict between two cells holds in both directions.
proof fn lemma_cmp_cell_eq_sym(a: CellV, b: CellV)
    ensures
        cmp_cell_v(a, b) == Some(core::cmp::Ordering::Equal) ==> cmp_cell_v(b, a) == Some(
            core::cmp::Ordering::Equal,
        ),
    decreases a, 0int,
{
    if type_of_v(a) != type_of_v(b) {
        lemma_cmp_type_eq(type_of_v(a), type_of_v(b));
    } else {
        match (a, b) {
            (CellV::Text(s1), CellV::Text(s2)) => {
                lemma_lex_cmp_eq(s1, s2);
                lemma_lex_cmp_eq(s2, s1);
            },
            (CellV::Field(f1), CellV::Field(f2)) => {
                lemma_fields_cmp_eq(f1, f2);
                lemma_fields_cmp_eq(f2, f1);
            },
            (CellV::Glob(p1), CellV::Glob(p2)) => {
                lemma_lex_cmp_eq(p1, p2);
                lemma_lex_cmp_eq(p2, p1);
            },
            (CellV::Regex(s1), CellV::Regex(s2)) => {
                lemma_lex_cmp_eq(s1, s2);
                lemma_lex_cmp_eq(s2, s1);
            },
            (CellV::Op(s1), CellV::Op(s2)) => {
                lemma_lex_cmp_eq(s1, s2);
                lemma_lex_cmp_eq(s2, s1);
            },
            (CellV::File(s1), CellV::File(s2)) => {
                lemma_lex_cmp_eq(s1, s2);
                lemma_lex_cmp_eq(s2, s1);
            },
            (CellV::Rows(t1), CellV::Rows(t2)) => {
                lemma_rows_cmp_eq_sym(t1.rows, t2.rows);
            },
            (CellV::Row(r1), CellV::Row(r2)) => {
                lemma_cells_cmp_eq_sym(r1.cells, r2.cells);
            },
            (CellV::List(l1), CellV::List(l2)) => {
                lemma_cells_cmp_eq_sym(l1.cells, l2.cells);
            },
            _ => {},
        }
    }
}

/// An `Equal` verdict between two cell sequences holds in both
/// directions.
proof fn lemma_cells_cmp_eq_sym(a: Seq<CellV>, b: Seq<CellV>)
    ensures
        cells_cmp_v(a, b) == Some(core::cmp::Ordering::Equal) ==> cells_cmp_v(b, a) == Some(
            core::cmp::Ordering::Equal,
        ),
    decreases a, 1int,
{
    if a.len() != 0 && b.len() != 0 {
        vstd::seq::axiom_seq_index_decreases(a, 0);
        vstd::seq::axiom_seq_len_decreases(a, a.skip(1));
        lemma_cmp_cell_eq_sym(a[0], b[0]);
        lemma_cells_cmp_eq_sym(a.skip(1), b.skip(1));
    }
}

/// An `Equal` verdict between two row sequences holds in both
/// directions.
proof fn lemma_rows_cmp_eq_sym(a: Seq<Seq<CellV>>, b: Seq<Seq<CellV>>)
    ensures
        rows_cmp_v(a, b) == Some(core::cmp::Ordering::Equal) ==> rows_cmp_v(b, a) == Some(
            core::cmp::Ordering::Equal,
        ),
    decreases a, 2int,
{
    if a.len() != 0 && b.len() != 0 {
        vstd::seq::axiom_seq_index_decreases(a, 0);
        vstd::seq::axiom_seq_len_decreases(a, a.skip(1));
        lemma_cells_cmp_eq_sym(a[0], b[0]);
        lemma_rows_cmp_eq_sym(a.skip(1), b.skip(1));
    }
}

/// Cells of incompatible type are never equal: between two cells whose
/// type descriptors differ, equality can hold only through the
/// glob/text pattern shorthand; a comparison involving a file path goes
/// through the file system and is not decided by the values alone.
pub proof fn law_incompatible_types_unequal(a: CellV, b: CellV)
    requires
        type_of_v(a) != type_of_v(b),
        !is_file_pair(a, b),
        !(a is Glob && b is Text),
        !(a is Text && b is Glob),
    ensures
        !eq_v(a, b),
{
}

/// Equality between cells reads the same in both directions: the
/// glob/text shorthand matches the pattern whichever side it stands on,
/// and every other cross-variant pair is unequal both ways.  A pair
/// that involves a file path is resolved through the file system and is
/// not pinned here.
pub proof fn law_equality_symmetric(a: CellV, b: CellV)
    requires
        !is_file_pair(a, b),
    ensures
        eq_v(a, b) == eq_v(b, a),
{
    match (a, b) {
        (CellV::List(l1), CellV::List(l2)) => {
            lemma_cells_cmp_eq_sym(l1.cells, l2.cells);
            lemma_cells_cmp_eq_sym(l2.cells, l1.cells);
        },
        (CellV::Rows(t1), CellV::Rows(t2)) => {
            lemma_rows_cmp_eq_sym(t1.rows, t2.rows);
            lemma_rows_cmp_eq_sym(t2.rows, t1.rows);
        },
        (CellV::Row(r1), CellV::Row(r2)) => {
            lemma_cells_cmp_eq_sym(r1.cells, r2.cells);
            lemma_cells_cmp_eq_sym(r2.cells, r1.cells);
        },
        _ => {},
    }
}

/// Between cells of different type, the order is decided by the fixed
/// global type ranking, exactly one direction holds, and swapping the
/// operands swaps the verdict.
pub proof fn law_cross_type_total_order(a: CellV, b: CellV)
    requires
        type_of_v(a) != type_of_v(b),
    ensures
        cmp_cell_v(a, b) == Some(cmp_type_v(type_of_v(a), type_of_v(b))),
        cmp_cell_v(a, b) is Some,
        cmp_cell_v(a, b)->0 == core::cmp::Ordering::Less || cmp_cell_v(a, b)->0
            == core::cmp::Ordering::Greater,
        (cmp_cell_v(a, b)->0 == core::cmp::Ordering::Less) <==> (cmp_cell_v(b, a)->0
            == core::cmp::Ordering::Greater),
{
    lemma_cmp_type_eq(type_of_v(a), type_of_v(b));
    lemma_cmp_type_flip(type_of_v(a), type_of_v(b));
}

/// Whether two path strings name the same file once the file system has
/// resolved them; unresolvable paths compare unequal.
pub fn file_result_compare(f1: &str, f2: &str) -> bool {
    match (canonical_path(f1), canonical_path(f2)) {
        (Some(p1), Some(p2)) => p1 == p2,
        _ => false,
    }
}

/// Compare two cell vectors element-wise from position `i` on.
fn cmp_cells_from(a: &Vec<Cell>, b: &Vec<Cell>, i: usize) -> (r: Option<core::cmp::Ordering>)
    requires
        i <= a@.len(),
        i <= b@.len(),
    ensures
        r == cells_cmp_v(cells_v_from(*a, i as int), cells_v_from(*b, i as int)),
    decreases *a, a@.len() - i,
{
    proof {
        lemma_cells_v_from(*a, i as int);
        lemma_cells_v_from(*b, i as int);
    }
    if i == a.len() && i == b.len() {
        Some(core::cmp::Ordering::Equal)
    } else if i == a.len() {
        Some(core::cmp::Ordering::Less)
    } else if i == b.len() {
        Some(core::cmp::Ordering::Greater)
    } else {
        proof {
            vstd::std_specs::vec::axiom_vec_index_decreases(*a, i as int);
            assert(decreases_to!(*a => a@[i as int]));
            assert(cells_v_from(*a, i as int)[0] == cell_v(a@[i as int]));
            assert(cells_v_from(*b, i as int)[0] == cell_v(b@[i as int]));
        }
        match a[i].compare(&b[i]) {
            None => None,
            Some(o) => {
                if matches!(o, core::cmp::Ordering::Equal) {
                    let r = cmp_cells_from(a, b, i + 1);
                    proof {
                        assert(cells_v_from(*a, i as int).skip(1) =~= cells_v_from(*a, i + 1));
                        assert(cells_v_from(*b, i as int).skip(1) =~= cells_v_from(*b, i + 1));
                    }
                    r
                } else {
                    Some(o)
                }
            },
        }
    }
}

/// Compare two row vectors element-wise from position `i` on.
fn cmp_rows_from(a: &Vec<Row>, b: &Vec<Row>, i: usize) -> (r: Option<core::cmp::Ordering>)
    requires
        i <= a@.len(),
        i <= b@.len(),
    ensures
        r == rows_cmp_v(rows_v_from(*a, i as int), rows_v_from(*b, i as int)),
    decreases *a, a@.len() - i,
{
    proof {
        lemma_rows_v_from(*a, i as int);
        lemma_rows_v_from(*b, i as int);
    }
    if i == a.len() && i == b.len() {
        Some(core::cmp::Ordering::Equal)
    } else if i == a.len() {
        Some(core::cmp::Ordering::Less)
    } else if i == b.len() {
        Some(core::cmp::Ordering::Greater)
    } else {
        proof {
            vstd::std_specs::vec::axiom_vec_index_decreases(*a, i as int);
            assert(decreases_to!(*a => a@[i as int]));
            assert(decreases_to!(a@[i as int] => a@[i as int].cells));
            assert(rows_v_from(*a, i as int)[0] == row_v(a@[i as int]));
            assert(rows_v_from(*b, i as int)[0] == row_v(b@[i as int]));
        }
        match cmp_cells_from(&a[i].cells, &b[i].cells, 0) {
            None => None,
            Some(o) => {
                if matches!(o, core::cmp::Ordering::Equal) {
                    let r = cmp_rows_from(a, b, i + 1);
                    proof {
                        assert(rows_v_from(*a, i as int).skip(1) =~= rows_v_from(*a, i + 1));
                        assert(rows_v_from(*b, i as int).skip(1) =~= rows_v_from(*b, i + 1));
                    }
                    r
                } else {
                    Some(o)
                }
            },
        }
    }
}

/// Compare two string vectors lexicographically from position `i` on.
fn cmp_strings_from(a: &Vec<String>, b: &Vec<String>, i: usize) -> (r: core::cmp::Ordering)
    requires
        i <= a@.len(),
        i <= b@.len(),
    ensures
        r == fields_cmp(strings_v(*a).skip(i as int), strings_v(*b).skip(i as int)),
    decreases a@.len() - i,
{
    let ghost va = strings_v(*a).skip(i as int);
    let ghost vb = strings_v(*b).skip(i as int);
    if i == a.len() && i == b.len() {
        core::cmp::Ordering::Equal
    } else if i == a.len() {
        core::cmp::Ordering::Less
    } else if i == b.len() {
        core::cmp::Ordering::Greater
    } else {
        proof {
            assert(va[0] == a@[i as int]@);
            assert(vb[0] == b@[i as int]@);
        }
        let ca = str_to_chars(a[i].as_str());
        let cb = str_to_chars(b[i].as_str());
        let c = cmp_chars(&ca, &cb);
        if matches!(c, core::cmp::Ordering::Equal) {
            let r = cmp_strings_from(a, b, i + 1);
            proof {
                assert(va.skip(1) =~= strings_v(*a).skip(i + 1));
                assert(vb.skip(1) =~= strings_v(*b).skip(i + 1));
            }
            r
        } else {
            c
        }
    }
}

/// Whether two string vectors hold the same strings.
fn eq_strings(a: &Vec<String>, b: &Vec<String>) -> (r: bool)
    ensures
        r == (strings_v(*a) == strings_v(*b)),
{
    if a.len() != b.len() {
        proof {
            assert(strings_v(*a).len() != strings_v(*b).len());
        }
        return false;
    }
    let mut i: usize = 0;
    while i < a.len()
        invariant
            i <= a@.len(),
            a@.len() == b@.len(),
            forall|k: int| 0 <= k < i ==> strings_v(*a)[k] == strings_v(*b)[k],
        decreases a@.len() - i,
    {
        let ca = str_to_chars(a[i].as_str());
        let cb = str_to_chars(b[i].as_str());
        if !eq_chars(&ca, &cb) {
            proof {
                assert(strings_v(*a)[i as int] != strings_v(*b)[i as int]);
            }
            return false;
        }
        i = i + 1;
    }
    proof {
        assert(strings_v(*a) =~= strings_v(*b));
    }
    true
}


/// Whether two strings hold the same characters.
fn string_eq(a: &String, b: &String) -> (r: bool)
    ensures
        r == (a@ == b@),
{
    let ca = str_to_chars(a.as_str());
    let cb = str_to_chars(b.as_str());
    eq_chars(&ca, &cb)
}

impl Cell {
    /// Compare this cell with another, per the rules of the algebra.
    pub fn compare(&self, other: &Cell) -> (r: Option<core::cmp::Ordering>)
        ensures
            r == cmp_cell_v(cell_v(*self), cell_v(*other)),
        decreases *self, 0int,
    {
        let ta = self.cell_type();
        let tb = other.cell_type();
        if !ta.same_type(&tb) {
            Some(ta.compare(&tb))
        } else {
            match (self, other) {
                (Cell::Text(s1), Cell::Text(s2)) => {
                    let a = str_to_chars(s1.as_str());
                    let b = str_to_chars(s2.as_str());
                    Some(cmp_chars(&a, &b))
                },
                (Cell::Field(f1), Cell::Field(f2)) => {
                    let r = cmp_strings_from(f1, f2, 0);
                    proof {
                        assert(strings_v(*f1).skip(0) =~= strings_v(*f1));
                        assert(strings_v(*f2).skip(0) =~= strings_v(*f2));
                    }
                    Some(r)
                },
                (Cell::Glob(g1), Cell::Glob(g2)) => {
                    let a = str_to_chars(g1.pattern.as_str());
                    let b = str_to_chars(g2.pattern.as_str());
                    Some(cmp_chars(&a, &b))
                },
                (Cell::Regex(s1, _), Cell::Regex(s2, _)) => {
                    let a = str_to_chars(s1.as_str());
                    let b = str_to_chars(s2.as_str());
                    Some(cmp_chars(&a, &b))
                },
                (Cell::Integer(i1), Cell::Integer(i2)) => {
                    if *i1 < *i2 {
                        Some(core::cmp::Ordering::Less)
                    } else if *i1 > *i2 {
                        Some(core::cmp::Ordering::Greater)
                    } else {
                        Some(core::cmp::Ordering::Equal)
                    }
                },
                (Cell::Time(t1), Cell::Time(t2)) => {
                    if t1.secs != t2.secs {
                        if t1.secs < t2.secs {
                            Some(core::cmp::Ordering::Less)
                        } else {
                            Some(core::cmp::Ordering::Greater)
                        }
                    } else if t1.nanos < t2.nanos {
                        Some(core::cmp::Ordering::Less)
                    } else if t1.nanos > t2.nanos {
                        Some(core::cmp::Ordering::Greater)
                    } else {
                        Some(core::cmp::Ordering::Equal)
                    }
                },
                (Cell::Duration(d1), Cell::Duration(d2)) => {
                    if d1.secs != d2.secs {
                        if d1.secs < d2.secs {
                            Some(core::cmp::Ordering::Less)
                        } else {
                            Some(core::cmp::Ordering::Greater)
                        }
                    } else if d1.nanos < d2.nanos {
                        Some(core::cmp::Ordering::Less)
                    } else if d1.nanos > d2.nanos {
                        Some(core::cmp::Ordering::Greater)
                    } else {
                        Some(core::cmp::Ordering::Equal)
                    }
                },
                (Cell::Op(s1), Cell::Op(s2)) => {
                    let a = str_to_chars(s1.as_str());
                    let b = str_to_chars(s2.as_str());
                    Some(cmp_chars(&a, &b))
                },
                (Cell::File(s1), Cell::File(s2)) => {
                    let a = str_to_chars(s1.as_str());
                    let b = str_to_chars(s2.as_str());
                    Some(cmp_chars(&a, &b))
                },
                (Cell::Bool(b1), Cell::Bool(b2)) => {
                    if !*b1 && *b2 {
                        Some(core::cmp::Ordering::Less)
                    } else if *b1 && !*b2 {
                        Some(core::cmp::Ordering::Greater)
                    } else {
                        Some(core::cmp::Ordering::Equal)
                    }
                },
                (Cell::Rows(t1), Cell::Rows(t2)) => {
                    proof {
                        assert(decreases_to!(*self => t1.rows));
                    }
                    cmp_rows_from(&t1.rows, &t2.rows, 0)
                },
                (Cell::Row(r1), Cell::Row(r2)) => {
                    proof {
                        assert(decreases_to!(*self => r1.cells));
                    }
                    cmp_cells_from(&r1.cells, &r2.cells, 0)
                },
                (Cell::List(l1), Cell::List(l2)) => {
                    proof {
                        assert(decreases_to!(*self => l1.cells));
                    }
                    cmp_cells_from(&l1.cells, &l2.cells, 0)
                },
                _ => None,
            }
        }
    }

    /// Whether this cell equals another.  A glob against a text matches
    /// the pattern; a file against a file or a text is resolved through
    /// the file system, so only the non-file cases are pinned to the
    /// mathematical equality.
    pub fn equals(&self, other: &Cell) -> (r: bool)
        ensures
            !is_file_pair(cell_v(*self), cell_v(*other)) ==> r == eq_v(
                cell_v(*self),
                cell_v(*other),
            ),
    {
        match (self, other) {
            (Cell::Text(s1), Cell::Text(s2)) => string_eq(s1, s2),
            (Cell::Glob(g), Cell::Text(t)) => g.matches(t.as_str()),
            (Cell::Text(t), Cell::Glob(g)) => g.matches(t.as_str()),
            (Cell::Integer(i1), Cell::Integer(i2)) => *i1 == *i2,
            (Cell::Time(t1), Cell::Time(t2)) => t1.secs == t2.secs && t1.nanos == t2.nanos,
            (Cell::Duration(d1), Cell::Duration(d2)) => d1.secs == d2.secs && d1.nanos == d2.nanos,
            (Cell::Field(f1), Cell::Field(f2)) => eq_strings(f1, f2),
            (Cell::Glob(p1), Cell::Glob(p2)) => string_eq(&p1.pattern, &p2.pattern),
            (Cell::Regex(s1, _), Cell::Regex(s2, _)) => string_eq(s1, s2),
            (Cell::Op(s1), Cell::Op(s2)) => string_eq(s1, s2),
            (Cell::Command(c1), Cell::Command(c2)) => string_eq(&c1.name, &c2.name),
            (Cell::List(l1), Cell::List(l2)) => {
                if !l1.elem.same_type(&l2.elem) {
                    false
                } else {
                    let r = cmp_cells_from(&l1.cells, &l2.cells, 0);
                    matches!(r, Some(core::cmp::Ordering::Equal))
                }
            },
            (Cell::Rows(t1), Cell::Rows(t2)) => {
                if !same_cols(&t1.types, &t2.types) {
                    false
                } else {
                    let r = cmp_rows_from(&t1.rows, &t2.rows, 0);
                    matches!(r, Some(core::cmp::Ordering::Equal))
                }
            },
            (Cell::Row(r1), Cell::Row(r2)) => {
                if !same_cols(&r1.types, &r2.types) {
                    false
                } else {
                    let r = cmp_cells_from(&r1.cells, &r2.cells, 0);
                    matches!(r, Some(core::cmp::Ordering::Equal))
                }
            },
            (Cell::File(f1), Cell::File(f2)) => file_result_compare(f1.as_str(), f2.as_str()),
            (Cell::Text(t), Cell::File(f)) => file_result_compare(t.as_str(), f.as_str()),
            (Cell::File(f), Cell::Text(t)) => file_result_compare(t.as_str(), f.as_str()),
            (Cell::Bool(b1), Cell::Bool(b2)) => *b1 == *b2,
            _ => false,
        }
    }
}

/// Whether a character sequence parses as a wide integer: well-formed
/// and within the wide integer range.
pub open spec fn parses_int(s: Seq<char>) -> bool {
    valid_int_str(s) && -170141183460469231731687303715884105728 <= int_of_str(s)
        <= 170141183460469231731687303715884105727
}

/// Whether the conversion table lists this source/target pair at all.
/// An unlisted pair always fails with the unimplemented-conversion
/// error; a listed pair may still fail on malformed input.
pub open spec fn cast_listed(v: CellV, t: CellTypeV) -> bool {
    match v {
        CellV::Text(_) => t is File || t is Glob || t is Integer || t is Field || t is Op
            || t is Regex,
        CellV::File(_) => t is Text || t is Glob || t is Integer || t is Op || t is Regex,
        CellV::Glob(_) => t is Text || t is File || t is Integer || t is Op || t is Regex,
        CellV::Regex(_) => t is Text || t is File || t is Glob || t is Integer || t is Op,
        CellV::Integer(_) => t is Text || t is File || t is Glob || t is Field || t is Op
            || t is Regex,
        _ => false,
    }
}

/// The conversion table.  A cell already of the target type passes
/// through unchanged; otherwise the listed pairs convert through the
/// value's text, and every other pair fails.
pub open spec fn cast_v(v: CellV, t: CellTypeV) -> Option<CellV> {
    if type_of_v(v) == t {
        Some(v)
    } else {
        match (v, t) {
            (CellV::Text(s), CellTypeV::File) => Some(CellV::File(s)),
            (CellV::Text(s), CellTypeV::Glob) => Some(CellV::Glob(s)),
            (CellV::Text(s), CellTypeV::Integer) => if parses_int(s) {
                Some(CellV::Integer(int_of_str(s)))
            } else {
                None
            },
            (CellV::Text(s), CellTypeV::Field) => Some(CellV::Field(seq![s])),
            (CellV::Text(s), CellTypeV::Op) => Some(CellV::Op(s)),
            (CellV::Text(s), CellTypeV::Regex) => if regex_valid(s) {
                Some(CellV::Regex(s))
            } else {
                None
            },
            (CellV::File(s), CellTypeV::Text) => Some(CellV::Text(s)),
            (CellV::File(s), CellTypeV::Glob) => Some(CellV::Glob(s)),
            (CellV::File(s), CellTypeV::Integer) => if parses_int(s) {
                Some(CellV::Integer(int_of_str(s)))
            } else {
                None
            },
            (CellV::File(s), CellTypeV::Op) => Some(CellV::Op(s)),
            (CellV::File(s), CellTypeV::Regex) => if regex_valid(s) {
                Some(CellV::Regex(s))
            } else {
                None
            },
            (CellV::Glob(p), CellTypeV::Text) => Some(CellV::Text(p)),
            (CellV::Glob(p), CellTypeV::File) => Some(CellV::File(p)),
            (CellV::Glob(p), CellTypeV::Integer) => if parses_int(p) {
                Some(CellV::Integer(int_of_str(p)))
            } else {
                None
            },
            (CellV::Glob(p), CellTypeV::Op) => Some(CellV::Op(p)),
            (CellV::Glob(p), CellTypeV::Regex) => if regex_valid(p) {
                Some(CellV::Regex(p))
            } else {
                None
            },
            (CellV::Regex(s), CellTypeV::File) => Some(CellV::File(s)),
            (CellV::Regex(s), CellTypeV::Glob) => Some(CellV::Glob(s)),
            (CellV::Regex(s), CellTypeV::Integer) => if parses_int(s) {
                Some(CellV::Integer(int_of_str(s)))
            } else {
                None
            },
            (CellV::Regex(s), CellTypeV::Text) => Some(CellV::Text(s)),
            (CellV::Regex(s), CellTypeV::Op) => Some(CellV::Op(s)),
            (CellV::Integer(i), CellTypeV::Text) => Some(CellV::Text(int_str(i))),
            (CellV::Integer(i), CellTypeV::File) => Some(CellV::File(int_str(i))),
            (CellV::Integer(i), CellTypeV::Glob) => Some(CellV::Glob(int_str(i))),
            (CellV::Integer(i), CellTypeV::Field) => Some(CellV::Field(seq![int_str(i)])),
            (CellV::Integer(i), CellTypeV::Op) => Some(CellV::Op(int_str(i))),
            (CellV::Integer(i), CellTypeV::Regex) => if regex_valid(int_str(i)) {
                Some(CellV::Regex(int_str(i)))
            } else {
                None
            },
            _ => None,
        }
    }
}

/// Casting a cell to its own type returns it unchanged.
pub proof fn law_cast_identity(v: CellV)
    ensures
        cast_v(v, type_of_v(v)) == Some(v),
{
}

/// The decimal rendering of an integer parses back to that integer.
pub proof fn lemma_int_str_value(n: int)
    ensures
        valid_int_str(int_str(n)),
        int_of_str(int_str(n)) == n,
{
    if n >= 0 {
        crate::chars::lemma_dec_digits_value(n as nat);
        let s = int_str(n);
        assert(crate::chars::is_digit_char(s[0]));
    } else {
        crate::chars::lemma_dec_digits_value((-n) as nat);
        let s = int_str(n);
        assert(s[0] == '-');
        assert(s.skip(1) =~= crate::chars::dec_digits((-n) as nat));
    }
}

/// A text cast to a file or a glob and back to text reproduces the
/// original text; a text cast to an integer and back reproduces the
/// numeric value, though not necessarily the original spelling.
pub proof fn law_cast_round_trip(s: Seq<char>)
    ensures
        cast_v(CellV::Text(s), CellTypeV::File) == Some(CellV::File(s)),
        cast_v(CellV::File(s), CellTypeV::Text) == Some(CellV::Text(s)),
        cast_v(CellV::Text(s), CellTypeV::Glob) == Some(CellV::Glob(s)),
        cast_v(CellV::Glob(s), CellTypeV::Text) == Some(CellV::Text(s)),
        parses_int(s) ==> cast_v(CellV::Text(s), CellTypeV::Integer) == Some(
            CellV::Integer(int_of_str(s)),
        ),
        parses_int(s) ==> cast_v(CellV::Integer(int_of_str(s)), CellTypeV::Text) == Some(
            CellV::Text(int_str(int_of_str(s))),
        ) && int_of_str(int_str(int_of_str(s))) == int_of_str(s),
{
    if parses_int(s) {
        lemma_int_str_value(int_of_str(s));
    }
}

/// Casting a dotted path to any other kind is not implemented: every
/// such cast fails, and with the unimplemented-conversion error.
pub proof fn law_field_cast_unimplemented(f: Seq<Seq<char>>, t: CellTypeV)
    requires
        t != CellTypeV::Field,
    ensures
        cast_v(CellV::Field(f), t) is None,
        !cast_listed(CellV::Field(f), t),
{
}

/// Parse a string as a wide-integer cell.
fn parse_int_cell(s: &String) -> (r: Result<Cell, JobError>)
    ensures
        r is Ok <==> parses_int(s@),
        r is Ok ==> cell_v(r->Ok_0) == CellV::Integer(int_of_str(s@)),
    {
    let v = str_to_chars(s.as_str());
    match parse_i128(&v) {
        Some(n) => Ok(Cell::Integer(n)),
        None => Err(JobError::new(String::from_str("Invalid integer format"))),
    }
}

/// Compile a string into a regular-expression cell.
fn compile_regex_cell(s: String) -> (r: Result<Cell, JobError>)
    ensures
        r is Ok <==> regex_valid(s@),
        r is Ok ==> cell_v(r->Ok_0) == CellV::Regex(s@),
{
    match compile_regex(s.as_str()) {
        Ok(re) => Ok(Cell::Regex(s, re)),
        Err(msg) => Err(JobError::new(msg)),
    }
}

impl Cell {
    /// Convert this cell to the given type, per the conversion table: a
    /// cell already of the target type passes through unchanged, the
    /// listed pairs convert (some only for well-formed input), and
    /// every unlisted pair fails with the unimplemented-conversion
    /// error.
    pub fn cast(self, new_type: CellType) -> (r: Result<Cell, JobError>)
        ensures
            r is Ok <==> cast_v(cell_v(self), ctv(new_type)) is Some,
            r is Ok ==> cell_v(r->Ok_0) == cast_v(cell_v(self), ctv(new_type))->0,
            r is Err && !cast_listed(cell_v(self), ctv(new_type)) ==> r->Err_0.message@
                == "Unimplemented conversion"@,
    {
        let t = self.cell_type();
        if t.same_type(&new_type) {
            return Ok(self);
        }
        match (self, new_type) {
            (Cell::Text(s), CellType::File) => Ok(Cell::File(s)),
            (Cell::Text(s), CellType::Glob) => Ok(Cell::Glob(GlobPattern::new(s))),
            (Cell::Text(s), CellType::Integer) => parse_int_cell(&s),
            (Cell::Text(s), CellType::Field) => {
                let mut f: Vec<String> = Vec::new();
                f.push(s);
                proof {
                    assert(strings_v(f) =~= seq![f@[0]@]);
                }
                Ok(Cell::Field(f))
            },
            (Cell::Text(s), CellType::Op) => Ok(Cell::Op(s)),
            (Cell::Text(s), CellType::Regex) => compile_regex_cell(s),
            (Cell::File(s), CellType::Text) => Ok(Cell::Text(s)),
            (Cell::File(s), CellType::Glob) => Ok(Cell::Glob(GlobPattern::new(s))),
            (Cell::File(s), CellType::Integer) => parse_int_cell(&s),
            (Cell::File(s), CellType::Op) => Ok(Cell::Op(s)),
            (Cell::File(s), CellType::Regex) => compile_regex_cell(s),
            (Cell::Glob(g), CellType::Text) => Ok(Cell::Text(g.pattern)),
            (Cell::Glob(g), CellType::File) => Ok(Cell::File(g.pattern)),
            (Cell::Glob(g), CellType::Integer) => parse_int_cell(&g.pattern),
            (Cell::Glob(g), CellType::Op) => Ok(Cell::Op(g.pattern)),
            (Cell::Glob(g), CellType::Regex) => compile_regex_cell(g.pattern),
            (Cell::Regex(s, _), CellType::File) => Ok(Cell::File(s)),
            (Cell::Regex(s, _), CellType::Glob) => Ok(Cell::Glob(GlobPattern::new(s))),
            (Cell::Regex(s, _), CellType::Integer) => parse_int_cell(&s),
            (Cell::Regex(s, _), CellType::Text) => Ok(Cell::Text(s)),
            (Cell::Regex(s, _), CellType::Op) => Ok(Cell::Op(s)),
            (Cell::Integer(i), CellType::Text) => {
                let digits = format_i128(i);
                Ok(Cell::Text(chars_to_string(&digits)))
            },
            (Cell::Integer(i), CellType::File) => {
                let digits = format_i128(i);
                Ok(Cell::File(chars_to_string(&digits)))
            },
            (Cell::Integer(i), CellType::Glob) => {
                let digits = format_i128(i);
                Ok(Cell::Glob(GlobPattern::new(chars_to_string(&digits))))
            },
            (Cell::Integer(i), CellType::Field) => {
                let digits = format_i128(i);
                let mut f: Vec<String> = Vec::new();
                f.push(chars_to_string(&digits));
                proof {
                    assert(strings_v(f) =~= seq![f@[0]@]);
                }
                Ok(Cell::Field(f))
            },
            (Cell::Integer(i), CellType::Op) => {
                let digits = format_i128(i);
                Ok(Cell::Op(chars_to_string(&digits)))
            },
            (Cell::Integer(i), CellType::Regex) => {
                let digits = format_i128(i);
                compile_regex_cell(chars_to_string(&digits))
            },
            _ => Err(JobError::new(String::from_str("Unimplemented conversion"))),
        }
    }
}

/// A dotted path joined with dots.
pub open spec fn join_dot(f: Seq<Seq<char>>) -> Seq<char>
    decreases f.len(),
{
    if f.len() == 0 {
        Seq::empty()
    } else if f.len() == 1 {
        f[0]
    } else {
        f[0] + "."@ + join_dot(f.skip(1))
    }
}

/// The rendering of a cell.  A timestamp's rendering depends on the
/// machine's time zone and is not pinned here.
pub open spec fn cell_str(v: CellV) -> Seq<char> {
    match v {
        CellV::Text(s) => s,
        CellV::Integer(i) => int_str(i),
        CellV::Time(_, _) => Seq::empty(),
        CellV::Duration(s, n) => duration_str(s, n / 1000),
        CellV::Field(f) => "%"@ + join_dot(f),
        CellV::Glob(p) => "*{"@ + p + "}"@,
        CellV::Regex(s) => "r{"@ + s + "}"@,
        CellV::Op(s) => s,
        CellV::Command(_) => "Command"@,
        CellV::Closure(_) => "<Closure>"@,
        CellV::Output(_) => "<Output>"@,
        CellV::File(s) => s,
        CellV::Rows(_) => "<Rows>"@,
        CellV::Row(_) => "<Row>"@,
        CellV::List(_) => "<List>"@,
        CellV::Dict(_) => "<Dict>"@,
        CellV::Env(_) => "<Env>"@,
        CellV::Bool(b) => if b {
            "true"@
        } else {
            "false"@
        },
    }
}

/// Join the strings from position `i` on with dots.
fn join_fields_from(f: &Vec<String>, i: usize) -> (r: Vec<char>)
    requires
        i <= f@.len(),
    ensures
        r@ == join_dot(strings_v(*f).skip(i as int)),
    decreases f@.len() - i,
{
    let ghost vf = strings_v(*f).skip(i as int);
    if i == f.len() {
        Vec::new()
    } else if i + 1 == f.len() {
        let r = str_to_chars(f[i].as_str());
        proof {
            assert(vf[0] == f@[i as int]@);
            assert(vf.len() == 1);
        }
        r
    } else {
        proof {
            assert(vf[0] == f@[i as int]@);
            assert(vf.len() > 1);
            assert(vf.skip(1) =~= strings_v(*f).skip(i + 1));
        }
        let mut r = str_to_chars(f[i].as_str());
        r.push('.');
        let rest = join_fields_from(f, i + 1);
        let mut k: usize = 0;
        let ghost mid = r@;
        while k < rest.len()
            invariant
                k <= rest@.len(),
                r@ == mid + rest@.take(k as int),
            decreases rest@.len() - k,
        {
            r.push(rest[k]);
            k = k + 1;
            proof {
                assert(r@ =~= mid + rest@.take(k as int));
            }
        }
        proof {
            assert(r@ =~= mid + rest@);
            reveal_strlit(".");
            assert(mid =~= f@[i as int]@ + "."@);
            assert(r@ =~= vf[0] + "."@ + join_dot(vf.skip(1)));
        }
        r
    }
}

impl Cell {
    /// Render this cell as text.  Every kind but a timestamp is pinned
    /// to the mathematical rendering; a timestamp is formatted by the
    /// machine's local time zone.
    pub fn to_string(&self) -> (r: String)
        ensures
            !(cell_v(*self) is Time) ==> r@ == cell_str(cell_v(*self)),
    {
        match self {
            Cell::Text(s) => s.clone(),
            Cell::Integer(i) => {
                let digits = format_i128(*i);
                chars_to_string(&digits)
            },
            Cell::Time(t) => format_local_time(t.secs, t.nanos),
            Cell::Duration(d) => duration_format(d),
            Cell::Field(f) => {
                let tail = join_fields_from(f, 0);
                let mut out = String::from_str("%");
                out.append(chars_to_string(&tail).as_str());
                proof {
                    assert(strings_v(*f).skip(0) =~= strings_v(*f));
                }
                out
            },
            Cell::Glob(g) => {
                let mut out = String::from_str("*{");
                out.append(g.pattern.as_str());
                out.append("}");
                out
            },
            Cell::Regex(p, _) => {
                let mut out = String::from_str("r{");
                out.append(p.as_str());
                out.append("}");
                out
            },
            Cell::Op(s) => s.clone(),
            Cell::Command(_) => String::from_str("Command"),
            Cell::Closure(_) => String::from_str("<Closure>"),
            Cell::Output(_) => String::from_str("<Output>"),
            Cell::File(s) => s.clone(),
            Cell::Rows(_) => String::from_str("<Rows>"),
            Cell::Row(_) => String::from_str("<Row>"),
            Cell::List(_) => String::from_str("<List>"),
            Cell::Dict(_) => String::from_str("<Dict>"),
            Cell::Env(_) => String::from_str("<Env>"),
            Cell::Bool(b) => {
                if *b {
                    String::from_str("true")
                } else {
                    String::from_str("false")
                }
            },
        }
    }
}

/// Whether a cell holds a live stream anywhere inside.
pub open spec fn has_stream(v: CellV) -> bool
    decreases v, 0int,
{
    match v {
        CellV::Output(_) => true,
        CellV::Rows(t) => rows_have_stream(t.rows),
        CellV::Row(r) => cells_have_stream(r.cells),
        CellV::List(l) => cells_have_stream(l.cells),
        CellV::Dict(d) => entries_have_stream(d.entries),
        _ => false,
    }
}

/// Whether any cell of the sequence holds a live stream.
pub open spec fn cells_have_stream(cs: Seq<CellV>) -> bool
    decreases cs, 1int,
    via cells_have_stream_dec
{
    if cs.len() == 0 {
        false
    } else {
        has_stream(cs[0]) || cells_have_stream(cs.skip(1))
    }
}

#[via_fn]
proof fn cells_have_stream_dec(cs: Seq<CellV>) {
    if cs.len() != 0 {
        vstd::seq::axiom_seq_index_decreases(cs, 0);
        vstd::seq::axiom_seq_len_decreases(cs, cs.skip(1));
    }
}

/// Whether any row of the sequence holds a live stream.
pub open spec fn rows_have_stream(rs: Seq<Seq<CellV>>) -> bool
    decreases rs, 2int,
    via rows_have_stream_dec
{
    if rs.len() == 0 {
        false
    } else {
        cells_have_stream(rs[0]) || rows_have_stream(rs.skip(1))
    }
}

#[via_fn]
proof fn rows_have_stream_dec(rs: Seq<Seq<CellV>>) {
    if rs.len() != 0 {
        vstd::seq::axiom_seq_index_decreases(rs, 0);
        vstd::seq::axiom_seq_len_decreases(rs, rs.skip(1));
    }
}

/// Whether any entry of the sequence holds a live stream.
pub open spec fn entries_have_stream(es: Seq<(CellV, CellV)>) -> bool
    decreases es, 1int,
    via entries_have_stream_dec
{
    if es.len() == 0 {
        false
    } else {
        has_stream(es[0].0) || has_stream(es[0].1) || entries_have_stream(es.skip(1))
    }
}

#[via_fn]
proof fn entries_have_stream_dec(es: Seq<(CellV, CellV)>) {
    if es.len() != 0 {
        vstd::seq::axiom_seq_index_decreases(es, 0);
        vstd::seq::axiom_seq_len_decreases(es, es.skip(1));
    }
}

/// A sequence holds a stream exactly when one of its cells does.
proof fn lemma_cells_have_stream(cs: Seq<CellV>)
    ensures
        cells_have_stream(cs) <==> exists|j: int| 0 <= j < cs.len() && has_stream(cs[j]),
    decreases cs.len(),
{
    if cs.len() != 0 {
        lemma_cells_have_stream(cs.skip(1));
        if cells_have_stream(cs) {
            if has_stream(cs[0]) {
                assert(0 <= 0 < cs.len() && has_stream(cs[0]));
            } else {
                let j = choose|j: int| 0 <= j < cs.skip(1).len() && has_stream(cs.skip(1)[j]);
                assert(cs.skip(1)[j] == cs[j + 1]);
            }
        } else {
            if exists|j: int| 0 <= j < cs.len() && has_stream(cs[j]) {
                let j = choose|j: int| 0 <= j < cs.len() && has_stream(cs[j]);
                if j > 0 {
                    assert(cs.skip(1)[j - 1] == cs[j]);
                }
            }
        }
    }
}

/// A row sequence holds a stream exactly when one of its rows does.
proof fn lemma_rows_have_stream(rs: Seq<Seq<CellV>>)
    ensures
        rows_have_stream(rs) <==> exists|j: int| 0 <= j < rs.len() && cells_have_stream(rs[j]),
    decreases rs.len(),
{
    if rs.len() != 0 {
        lemma_rows_have_stream(rs.skip(1));
        if rows_have_stream(rs) {
            if cells_have_stream(rs[0]) {
                assert(0 <= 0 < rs.len() && cells_have_stream(rs[0]));
            } else {
                let j = choose|j: int|
                    0 <= j < rs.skip(1).len() && cells_have_stream(rs.skip(1)[j]);
                assert(rs.skip(1)[j] == rs[j + 1]);
            }
        } else {
            if exists|j: int| 0 <= j < rs.len() && cells_have_stream(rs[j]) {
                let j = choose|j: int| 0 <= j < rs.len() && cells_have_stream(rs[j]);
                if j > 0 {
                    assert(rs.skip(1)[j - 1] == rs[j]);
                }
            }
        }
    }
}

/// An entry sequence holds a stream exactly when one of its pairs does.
proof fn lemma_entries_have_stream(es: Seq<(CellV, CellV)>)
    ensures
        entries_have_stream(es) <==> exists|j: int|
            0 <= j < es.len() && (has_stream(es[j].0) || has_stream(es[j].1)),
    decreases es.len(),
{
    if es.len() != 0 {
        lemma_entries_have_stream(es.skip(1));
        if entries_have_stream(es) {
            if has_stream(es[0].0) || has_stream(es[0].1) {
                assert(0 <= 0 < es.len() && (has_stream(es[0].0) || has_stream(es[0].1)));
            } else {
                let j = choose|j: int|
                    0 <= j < es.skip(1).len() && (has_stream(es.skip(1)[j].0) || has_stream(
                        es.skip(1)[j].1,
                    ));
                assert(es.skip(1)[j] == es[j + 1]);
            }
        } else {
            if exists|j: int| 0 <= j < es.len() && (has_stream(es[j].0) || has_stream(es[j].1)) {
                let j = choose|j: int|
                    0 <= j < es.len() && (has_stream(es[j].0) || has_stream(es[j].1));
                if j > 0 {
                    assert(es.skip(1)[j - 1] == es[j]);
                }
            }
        }
    }
}

/// Copy the strings of a vector.
fn clone_strings(v: &Vec<String>) -> (r: Vec<String>)
    ensures
        strings_v(r) == strings_v(*v),
{
    let mut out: Vec<String> = Vec::new();
    let mut i: usize = 0;
    while i < v.len()
        invariant
            i <= v@.len(),
            out@.len() == i,
            forall|k: int| 0 <= k < i ==> out@[k]@ == v@[k]@,
        decreases v@.len() - i,
    {
        out.push(v[i].clone());
        i = i + 1;
    }
    proof {
        assert(strings_v(out) =~= strings_v(*v));
    }
    out
}

/// Copy the cells of a vector, failing on the first live stream.
fn clone_cells_vec(cs: &Vec<Cell>) -> (r: Result<Vec<Cell>, JobError>)
    ensures
        r is Ok <==> !cells_have_stream(cells_v(*cs)),
        r is Ok ==> cells_v(r->Ok_0) == cells_v(*cs),
        r is Err ==> r->Err_0.message@ == "Invalid use of stream"@,
    decreases *cs, 0int,
{
    proof {
        lemma_cells_v(*cs);
        lemma_cells_have_stream(cells_v(*cs));
    }
    let mut out: Vec<Cell> = Vec::new();
    let mut i: usize = 0;
    while i < cs.len()
        invariant
            i <= cs@.len(),
            out@.len() == i,
            forall|k: int| 0 <= k < i ==> !has_stream(cell_v(cs@[k])),
            forall|k: int| 0 <= k < i ==> cell_v(out@[k]) == cell_v(cs@[k]),
        decreases cs@.len() - i,
    {
        proof {
            vstd::std_specs::vec::axiom_vec_index_decreases(*cs, i as int);
            assert(decreases_to!(*cs => cs@[i as int]));
        }
        match cs[i].partial_clone() {
            Ok(c) => {
                out.push(c);
            },
            Err(e) => {
                proof {
                    lemma_cells_v(*cs);
                    lemma_cells_have_stream(cells_v(*cs));
                    assert(has_stream(cells_v(*cs)[i as int]));
                }
                return Err(e);
            },
        }
        i = i + 1;
    }
    proof {
        lemma_cells_v(out);
        assert(cells_v(out) =~= cells_v(*cs));
    }
    Ok(out)
}

/// Copy the rows of a vector, failing on the first live stream.
fn clone_rows_vec(rs: &Vec<Row>) -> (r: Result<Vec<Row>, JobError>)
    ensures
        r is Ok <==> !rows_have_stream(rows_v(*rs)),
        r is Ok ==> rows_v(r->Ok_0) == rows_v(*rs),
        r is Err ==> r->Err_0.message@ == "Invalid use of stream"@,
    decreases *rs, 1int,
{
    proof {
        lemma_rows_v(*rs);
        lemma_rows_have_stream(rows_v(*rs));
    }
    let mut out: Vec<Row> = Vec::new();
    let mut i: usize = 0;
    while i < rs.len()
        invariant
            i <= rs@.len(),
            out@.len() == i,
            forall|k: int| 0 <= k < i ==> !cells_have_stream(row_v(rs@[k])),
            forall|k: int| 0 <= k < i ==> row_v(out@[k]) == row_v(rs@[k]),
        decreases rs@.len() - i,
    {
        proof {
            vstd::std_specs::vec::axiom_vec_index_decreases(*rs, i as int);
            assert(decreases_to!(*rs => rs@[i as int]));
            assert(decreases_to!(rs@[i as int] => rs@[i as int].cells));
        }
        match clone_cells_vec(&rs[i].cells) {
            Ok(cells) => {
                proof {
                    assert(cells_v(rs@[i as int].cells) == cells_v_from(rs@[i as int].cells, 0));
                }
                out.push(Row { cells });
            },
            Err(e) => {
                proof {
                    lemma_rows_v(*rs);
                    lemma_rows_have_stream(rows_v(*rs));
                    assert(cells_have_stream(rows_v(*rs)[i as int]));
                }
                return Err(e);
            },
        }
        i = i + 1;
    }
    proof {
        lemma_rows_v(out);
        assert(rows_v(out) =~= rows_v(*rs));
    }
    Ok(out)
}

/// Copy the entries of a dictionary, failing on the first live stream.
fn clone_entries_vec(es: &Vec<(Cell, Cell)>) -> (r: Result<Vec<(Cell, Cell)>, JobError>)
    ensures
        r is Ok <==> !entries_have_stream(entries_v_from(*es, 0)),
        r is Ok ==> entries_v_from(r->Ok_0, 0) == entries_v_from(*es, 0),
        r is Err ==> r->Err_0.message@ == "Invalid use of stream"@,
    decreases *es, 0int,
{
    proof {
        lemma_entries_v(*es);
        lemma_entries_have_stream(entries_v_from(*es, 0));
    }
    let mut out: Vec<(Cell, Cell)> = Vec::new();
    let mut i: usize = 0;
    while i < es.len()
        invariant
            i <= es@.len(),
            out@.len() == i,
            forall|k: int|
                0 <= k < i ==> !has_stream(cell_v(es@[k].0)) && !has_stream(cell_v(es@[k].1)),
            forall|k: int|
                0 <= k < i ==> cell_v(out@[k].0) == cell_v(es@[k].0) && cell_v(out@[k].1)
                    == cell_v(es@[k].1),
        decreases es@.len() - i,
    {
        proof {
            vstd::std_specs::vec::axiom_vec_index_decreases(*es, i as int);
            assert(decreases_to!(*es => es@[i as int]));
            assert(decreases_to!(es@[i as int] => es@[i as int].0));
            assert(decreases_to!(es@[i as int] => es@[i as int].1));
        }
        let k = match es[i].0.partial_clone() {
            Ok(c) => c,
            Err(e) => {
                proof {
                    lemma_entries_v(*es);
                    lemma_entries_have_stream(entries_v_from(*es, 0));
                    assert(entries_v_from(*es, 0)[i as int] == (
                        cell_v(es@[i as int].0),
                        cell_v(es@[i as int].1),
                    ));
                    assert(has_stream(entries_v_from(*es, 0)[i as int].0));
                }
                return Err(e);
            },
        };
        let v = match es[i].1.partial_clone() {
            Ok(c) => c,
            Err(e) => {
                proof {
                    lemma_entries_v(*es);
                    lemma_entries_have_stream(entries_v_from(*es, 0));
                    assert(entries_v_from(*es, 0)[i as int] == (
                        cell_v(es@[i as int].0),
                        cell_v(es@[i as int].1),
                    ));
                    assert(has_stream(entries_v_from(*es, 0)[i as int].1));
                }
                return Err(e);
            },
        };
        out.push((k, v));
        i = i + 1;
    }
    proof {
        lemma_entries_v(out);
        assert(entries_v_from(out, 0) =~= entries_v_from(*es, 0));
    }
    Ok(out)
}

impl Cell {
    /// Copy this cell.  Every kind can be copied except a live stream,
    /// anywhere inside: a producer/consumer pair cannot be duplicated
    /// without breaking its single ownership, so such a copy fails.
    pub fn partial_clone(&self) -> (r: Result<Cell, JobError>)
        ensures
            r is Ok <==> !has_stream(cell_v(*self)),
            r is Ok ==> cell_v(r->Ok_0) == cell_v(*self),
            r is Err ==> r->Err_0.message@ == "Invalid use of stream"@,
        decreases *self, 1int,
    {
        match self {
            Cell::Text(s) => Ok(Cell::Text(s.clone())),
            Cell::Integer(i) => Ok(Cell::Integer(*i)),
            Cell::Time(t) => Ok(Cell::Time(TimeValue { secs: t.secs, nanos: t.nanos })),
            Cell::Duration(d) => Ok(Cell::Duration(DurationValue { secs: d.secs, nanos: d.nanos })),
            Cell::Field(f) => Ok(Cell::Field(clone_strings(f))),
            Cell::Glob(g) => Ok(Cell::Glob(g.duplicate())),
            Cell::Regex(s, re) => Ok(Cell::Regex(s.clone(), clone_regex(re))),
            Cell::Op(s) => Ok(Cell::Op(s.clone())),
            Cell::Command(c) => Ok(Cell::Command(CommandRef { name: c.name.clone() })),
            Cell::Closure(c) => Ok(Cell::Closure(ClosureRef { id: c.id })),
            Cell::Output(_) => Err(JobError::new(String::from_str("Invalid use of stream"))),
            Cell::File(s) => Ok(Cell::File(s.clone())),
            Cell::Rows(t) => {
                proof {
                    assert(decreases_to!(*self => t.rows));
                }
                match clone_rows_vec(&t.rows) {
                    Ok(rows) => Ok(Cell::Rows(Table { types: clone_cols(&t.types), rows })),
                    Err(e) => Err(e),
                }
            },
            Cell::Row(rw) => {
                proof {
                    assert(decreases_to!(*self => rw.cells));
                }
                match clone_cells_vec(&rw.cells) {
                    Ok(cells) => Ok(
                        Cell::Row(RowWithTypes { types: clone_cols(&rw.types), cells }),
                    ),
                    Err(e) => Err(e),
                }
            },
            Cell::List(l) => {
                proof {
                    assert(decreases_to!(*self => l.cells));
                }
                match clone_cells_vec(&l.cells) {
                    Ok(cells) => Ok(Cell::List(ListValue { elem: l.elem.duplicate(), cells })),
                    Err(e) => Err(e),
                }
            },
            Cell::Dict(d) => {
                proof {
                    assert(decreases_to!(*self => d.entries));
                }
                match clone_entries_vec(&d.entries) {
                    Ok(entries) => Ok(
                        Cell::Dict(
                            DictValue {
                                key: d.key.duplicate(),
                                val: d.val.duplicate(),
                                entries,
                            },
                        ),
                    ),
                    Err(e) => Err(e),
                }
            },
            Cell::Env(e) => Ok(Cell::Env(EnvRef { id: e.id })),
            Cell::Bool(b) => Ok(Cell::Bool(*b)),
        }
    }
}

/// The materialization of a cell: a drained stream becomes a table,
/// and every nested value is materialized in turn.
pub open spec fn materialize_v(v: CellV) -> CellV
    decreases v, 0int,
{
    match v {
        CellV::Output(s) => CellV::Rows(
            TableV {
                types: match s.schema {
                    Some(cols) => cols,
                    None => Seq::empty(),
                },
                rows: mat_rows(s.queue),
            },
        ),
        CellV::Rows(t) => CellV::Rows(TableV { types: t.types, rows: mat_rows(t.rows) }),
        CellV::Row(r) => CellV::Row(RowTypedV { types: r.types, cells: mat_cells(r.cells) }),
        CellV::List(l) => CellV::List(ListV { elem: l.elem, cells: mat_cells(l.cells) }),
        CellV::Dict(d) => CellV::Dict(
            DictV { key: d.key, val: d.val, entries: mat_entries(d.entries) },
        ),
        _ => v,
    }
}

/// Materialize every cell of a sequence.
pub open spec fn mat_cells(cs: Seq<CellV>) -> Seq<CellV>
    decreases cs, 1int,
    via mat_cells_dec
{
    if cs.len() == 0 {
        Seq::empty()
    } else {
        seq![materialize_v(cs[0])] + mat_cells(cs.skip(1))
    }
}

#[via_fn]
proof fn mat_cells_dec(cs: Seq<CellV>) {
    if cs.len() != 0 {
        vstd::seq::axiom_seq_index_decreases(cs, 0);
        vstd::seq::axiom_seq_len_decreases(cs, cs.skip(1));
    }
}

/// Materialize every row of a sequence.
pub open spec fn mat_rows(rs: Seq<Seq<CellV>>) -> Seq<Seq<CellV>>
    decreases rs, 2int,
    via mat_rows_dec
{
    if rs.len() == 0 {
        Seq::empty()
    } else {
        seq![mat_cells(rs[0])] + mat_rows(rs.skip(1))
    }
}

#[via_fn]
proof fn mat_rows_dec(rs: Seq<Seq<CellV>>) {
    if rs.len() != 0 {
        vstd::seq::axiom_seq_index_decreases(rs, 0);
        vstd::seq::axiom_seq_len_decreases(rs, rs.skip(1));
    }
}

/// Materialize every entry of a sequence.
pub open spec fn mat_entries(es: Seq<(CellV, CellV)>) -> Seq<(CellV, CellV)>
    decreases es, 1int,
    via mat_entries_dec
{
    if es.len() == 0 {
        Seq::empty()
    } else {
        seq![(materialize_v(es[0].0), materialize_v(es[0].1))] + mat_entries(es.skip(1))
    }
}

#[via_fn]
proof fn mat_entries_dec(es: Seq<(CellV, CellV)>) {
    if es.len() != 0 {
        vstd::seq::axiom_seq_index_decreases(es, 0);
        vstd::seq::axiom_seq_len_decreases(es, es.skip(1));
    }
}

/// Materialization of a sequence is element-wise.
proof fn lemma_mat_cells(cs: Seq<CellV>)
    ensures
        mat_cells(cs).len() == cs.len(),
        forall|j: int| 0 <= j < cs.len() ==> mat_cells(cs)[j] == materialize_v(cs[j]),
    decreases cs.len(),
{
    if cs.len() != 0 {
        lemma_mat_cells(cs.skip(1));
        assert forall|j: int| 0 <= j < cs.len() implies mat_cells(cs)[j] == materialize_v(
            cs[j],
        ) by {
            if j > 0 {
                assert(cs.skip(1)[j - 1] == cs[j]);
            }
        }
    }
}

/// Materialization of a row sequence is element-wise.
proof fn lemma_mat_rows(rs: Seq<Seq<CellV>>)
    ensures
        mat_rows(rs).len() == rs.len(),
        forall|j: int| 0 <= j < rs.len() ==> mat_rows(rs)[j] == mat_cells(rs[j]),
    decreases rs.len(),
{
    if rs.len() != 0 {
        lemma_mat_rows(rs.skip(1));
        assert forall|j: int| 0 <= j < rs.len() implies mat_rows(rs)[j] == mat_cells(rs[j]) by {
            if j > 0 {
                assert(rs.skip(1)[j - 1] == rs[j]);
            }
        }
    }
}

/// Materialization of an entry sequence is element-wise.
proof fn lemma_mat_entries(es: Seq<(CellV, CellV)>)
    ensures
        mat_entries(es).len() == es.len(),
        forall|j: int|
            0 <= j < es.len() ==> mat_entries(es)[j] == (
            materialize_v(es[j].0),
            materialize_v(es[j].1),
            ),
    decreases es.len(),
{
    if es.len() != 0 {
        lemma_mat_entries(es.skip(1));
        assert forall|j: int| 0 <= j < es.len() implies mat_entries(es)[j] == (
            materialize_v(es[j].0),
            materialize_v(es[j].1),
        ) by {
            if j > 0 {
                assert(es.skip(1)[j - 1] == es[j]);
            }
        }
    }
}

/// Materialize each cell of a vector.
fn materialize_cells(cs: &Vec<Cell>) -> (r: Vec<Cell>)
    ensures
        cells_v(r) == mat_cells(cells_v(*cs)),
    decreases *cs, 0int,
{
    proof {
        lemma_cells_v(*cs);
        lemma_mat_cells(cells_v(*cs));
    }
    let mut out: Vec<Cell> = Vec::new();
    let mut i: usize = 0;
    while i < cs.len()
        invariant
            i <= cs@.len(),
            out@.len() == i,
            forall|k: int| 0 <= k < i ==> cell_v(out@[k]) == materialize_v(cell_v(cs@[k])),
        decreases cs@.len() - i,
    {
        proof {
            vstd::std_specs::vec::axiom_vec_index_decreases(*cs, i as int);
            assert(decreases_to!(*cs => cs@[i as int]));
        }
        let c = materialize_cell(&cs[i]);
        out.push(c);
        i = i + 1;
    }
    proof {
        lemma_cells_v(out);
        lemma_cells_v(*cs);
        lemma_mat_cells(cells_v(*cs));
        assert(cells_v(out) =~= mat_cells(cells_v(*cs)));
    }
    out
}

/// Materialize each row of a vector.
fn materialize_rows(rs: &Vec<Row>) -> (r: Vec<Row>)
    ensures
        rows_v(r) == mat_rows(rows_v(*rs)),
    decreases *rs, 1int,
{
    let mut out: Vec<Row> = Vec::new();
    let mut i: usize = 0;
    while i < rs.len()
        invariant
            i <= rs@.len(),
            out@.len() == i,
            forall|k: int| 0 <= k < i ==> row_v(out@[k]) == mat_cells(row_v(rs@[k])),
        decreases rs@.len() - i,
    {
        proof {
            vstd::std_specs::vec::axiom_vec_index_decreases(*rs, i as int);
            assert(decreases_to!(*rs => rs@[i as int]));
            assert(decreases_to!(rs@[i as int] => rs@[i as int].cells));
        }
        let cells = materialize_cells(&rs[i].cells);
        out.push(Row { cells });
        i = i + 1;
    }
    proof {
        lemma_rows_v(out);
        lemma_rows_v(*rs);
        lemma_mat_rows(rows_v(*rs));
        assert(rows_v(out) =~= mat_rows(rows_v(*rs)));
    }
    out
}

/// Materialize each entry of a vector.
fn materialize_entries(es: &Vec<(Cell, Cell)>) -> (r: Vec<(Cell, Cell)>)
    ensures
        entries_v_from(r, 0) == mat_entries(entries_v_from(*es, 0)),
    decreases *es, 0int,
{
    let mut out: Vec<(Cell, Cell)> = Vec::new();
    let mut i: usize = 0;
    while i < es.len()
        invariant
            i <= es@.len(),
            out@.len() == i,
            forall|k: int|
                0 <= k < i ==> cell_v(out@[k].0) == materialize_v(cell_v(es@[k].0)) && cell_v(
                    out@[k].1,
                ) == materialize_v(cell_v(es@[k].1)),
        decreases es@.len() - i,
    {
        proof {
            vstd::std_specs::vec::axiom_vec_index_decreases(*es, i as int);
            assert(decreases_to!(*es => es@[i as int]));
            assert(decreases_to!(es@[i as int] => es@[i as int].0));
            assert(decreases_to!(es@[i as int] => es@[i as int].1));
        }
        let k = materialize_cell(&es[i].0);
        let v = materialize_cell(&es[i].1);
        out.push((k, v));
        i = i + 1;
    }
    proof {
        lemma_entries_v(out);
        lemma_entries_v(*es);
        lemma_mat_entries(entries_v_from(*es, 0));
        assert(entries_v_from(out, 0) =~= mat_entries(entries_v_from(*es, 0)));
    }
    out
}

/// Materialize one cell without consuming it.
fn materialize_cell(c: &Cell) -> (r: Cell)
    ensures
        cell_v(r) == materialize_v(cell_v(*c)),
    decreases *c, 1int,
{
    match c {
        Cell::Output(s) => {
            proof {
                assert(decreases_to!(*c => *s));
                assert(decreases_to!(*s => s.queue));
            }
            let types = match &s.schema {
                Some(cols) => clone_cols(cols),
                None => Vec::new(),
            };
            let rows = materialize_rows(&s.queue);
            proof {
                if s.schema is None {
                    assert(cols_v_from(types, 0) =~= Seq::<ColumnTypeV>::empty());
                }
            }
            Cell::Rows(Table { types, rows })
        },
        Cell::Rows(t) => {
            proof {
                assert(decreases_to!(*c => t.rows));
            }
            Cell::Rows(Table { types: clone_cols(&t.types), rows: materialize_rows(&t.rows) })
        },
        Cell::Row(rw) => {
            proof {
                assert(decreases_to!(*c => rw.cells));
            }
            Cell::Row(
                RowWithTypes {
                    types: clone_cols(&rw.types),
                    cells: materialize_cells(&rw.cells),
                },
            )
        },
        Cell::List(l) => {
            proof {
                assert(decreases_to!(*c => l.cells));
            }
            Cell::List(
                ListValue { elem: l.elem.duplicate(), cells: materialize_cells(&l.cells) },
            )
        },
        Cell::Dict(d) => {
            proof {
                assert(decreases_to!(*c => d.entries));
            }
            Cell::Dict(
                DictValue {
                    key: d.key.duplicate(),
                    val: d.val.duplicate(),
                    entries: materialize_entries(&d.entries),
                },
            )
        },
        Cell::Text(s) => Cell::Text(s.clone()),
        Cell::Integer(i) => Cell::Integer(*i),
        Cell::Time(t) => Cell::Time(TimeValue { secs: t.secs, nanos: t.nanos }),
        Cell::Duration(d) => Cell::Duration(DurationValue { secs: d.secs, nanos: d.nanos }),
        Cell::Field(f) => Cell::Field(clone_strings(f)),
        Cell::Glob(g) => Cell::Glob(g.duplicate()),
        Cell::Regex(s, re) => Cell::Regex(s.clone(), clone_regex(re)),
        Cell::Op(s) => Cell::Op(s.clone()),
        Cell::Command(cm) => Cell::Command(CommandRef { name: cm.name.clone() }),
        Cell::Closure(cl) => Cell::Closure(ClosureRef { id: cl.id }),
        Cell::File(s) => Cell::File(s.clone()),
        Cell::Env(e) => Cell::Env(EnvRef { id: e.id }),
        Cell::Bool(b) => Cell::Bool(*b),
    }
}

impl Cell {
    /// Materialize this cell: drain a stream into an owned table and
    /// materialize everything nested; plain values pass through.
    pub fn materialize(self) -> (r: Cell)
        ensures
            cell_v(r) == materialize_v(cell_v(self)),
    {
        materialize_cell(&self)
    }
}

/// One mixing step of the rolling hash.
pub open spec fn combine64(h: int, x: int) -> int {
    (h * 1099511628211 + x) % 0x10000000000000000
}

/// The rolling hash of a character sequence.
pub open spec fn hash_chars_v(s: Seq<char>) -> int
    decreases s.len(),
{
    if s.len() == 0 {
        1469598103934665603
    } else {
        combine64(hash_chars_v(s.drop_last()), (s.last() as u32) as int)
    }
}

/// The hash of a hashable cell: its type rank mixed with the hash of
/// its contents.  Only hashable kinds are ever hashed; the others are
/// given an arbitrary fixed image here.
pub open spec fn hash_v(v: CellV) -> int {
    combine64(
        type_rank(type_of_v(v)),
        match v {
            CellV::Text(s) => hash_chars_v(s),
            CellV::Integer(i) => hash_chars_v(int_str(i)),
            CellV::Time(s, n) => combine64(hash_chars_v(int_str(s)), n),
            CellV::Duration(s, n) => combine64(hash_chars_v(int_str(s)), n),
            CellV::Field(f) => hash_chars_v(join_dot(f)),
            CellV::Glob(p) => hash_chars_v(p),
            CellV::Regex(s) => hash_chars_v(s),
            CellV::Op(s) => hash_chars_v(s),
            CellV::Command(_) => 0,
            CellV::File(s) => hash_chars_v(s),
            CellV::Bool(b) => if b {
                1
            } else {
                0
            },
            _ => 0,
        },
    )
}

/// One mixing step of the rolling hash.
fn combine_exec(h: u64, x: u64) -> (r: u64)
    ensures
        r as int == combine64(h as int, x as int),
{
    (((h as u128) * 1099511628211 + (x as u128)) % 0x10000000000000000) as u64
}

/// The rolling hash of a character vector.
/// Extending a character sequence extends its hash by one mixing step.
proof fn lemma_hash_chars_step(s: Seq<char>, i: int)
    requires
        0 <= i < s.len(),
    ensures
        hash_chars_v(s.take(i + 1)) == combine64(hash_chars_v(s.take(i)), (s[i] as u32) as int),
{
    assert(s.take(i + 1).drop_last() =~= s.take(i));
    assert(s.take(i + 1).last() == s[i]);
}

fn hash_chars(v: &Vec<char>) -> (r: u64)
    ensures
        r as int == hash_chars_v(v@),
{
    let mut h: u64 = 1469598103934665603;
    let mut i: usize = 0;
    while i < v.len()
        invariant
            i <= v@.len(),
            h as int == hash_chars_v(v@.take(i as int)),
        decreases v@.len() - i,
    {
        proof {
            lemma_hash_chars_step(v@, i as int);
        }
        let c = v[i];
        let x32: u32 = c as u32;
        let x: u64 = x32 as u64;
        h = combine_exec(h, x);
        i = i + 1;
    }
    proof {
        assert(v@.take(v@.len() as int) =~= v@);
    }
    h
}

impl Cell {
    /// The hash of this cell.  Hashing is defined only for the hashable
    /// kinds; callers must consult the type descriptor first, since
    /// hashing anything else is a fatal contract violation, not a
    /// recoverable error.
    pub fn hash_code(&self) -> (r: u64)
        requires
            type_hashable(type_of_v(cell_v(*self))),
        ensures
            r as int == hash_v(cell_v(*self)),
    {
        let rank = self.cell_type().rank() as u64;
        match self {
            Cell::Text(s) => {
                let v = str_to_chars(s.as_str());
                combine_exec(rank, hash_chars(&v))
            },
            Cell::Integer(i) => {
                let digits = format_i128(*i);
                combine_exec(rank, hash_chars(&digits))
            },
            Cell::Time(t) => {
                let digits = format_i128(t.secs as i128);
                proof {
                    assert(int_str(t.secs as i128 as int) == int_str(t.secs as int));
                }
                combine_exec(rank, combine_exec(hash_chars(&digits), t.nanos as u64))
            },
            Cell::Duration(d) => {
                let digits = format_i128(d.secs as i128);
                proof {
                    assert(int_str(d.secs as i128 as int) == int_str(d.secs as int));
                }
                combine_exec(rank, combine_exec(hash_chars(&digits), d.nanos as u64))
            },
            Cell::Field(f) => {
                let joined = join_fields_from(f, 0);
                proof {
                    assert(strings_v(*f).skip(0) =~= strings_v(*f));
                }
                combine_exec(rank, hash_chars(&joined))
            },
            Cell::Glob(g) => {
                let v = str_to_chars(g.pattern.as_str());
                combine_exec(rank, hash_chars(&v))
            },
            Cell::Regex(p, _) => {
                let v = str_to_chars(p.as_str());
                combine_exec(rank, hash_chars(&v))
            },
            Cell::Op(s) => {
                let v = str_to_chars(s.as_str());
                combine_exec(rank, hash_chars(&v))
            },
            Cell::Command(_) => combine_exec(rank, 0),
            Cell::File(s) => {
                let v = str_to_chars(s.as_str());
                combine_exec(rank, hash_chars(&v))
            },
            Cell::Bool(b) => combine_exec(rank, if *b { 1 } else { 0 }),
            _ => {
                // Excluded by the precondition: these kinds are not hashable.
                proof {
                    assert(false);
                }
                0
            },
        }
    }
}

/// The view of a glob-expansion table: each pattern with the paths the
/// file system gave for it.
pub open spec fn globs_v(t: Vec<(String, Vec<String>)>) -> Seq<(Seq<char>, Seq<Seq<char>>)> {
    Seq::new(t@.len(), |i: int| (t@[i].0@, strings_v(t@[i].1)))
}

/// The expansion recorded for a pattern, if any.
pub open spec fn lookup_glob(table: Seq<(Seq<char>, Seq<Seq<char>>)>, p: Seq<char>) -> Option<
    Seq<Seq<char>>,
>
    decreases table.len(),
{
    if table.len() == 0 {
        None
    } else if table[0].0 == p {
        Some(table[0].1)
    } else {
        lookup_glob(table.skip(1), p)
    }
}

/// Find the expansion recorded for a pattern.
fn find_glob<'a>(table: &'a Vec<(String, Vec<String>)>, p: &String) -> (r: Option<&'a Vec<String>>)
    ensures
        r is Some <==> lookup_glob(globs_v(*table), p@) is Some,
        r is Some ==> strings_v(*r->0) == lookup_glob(globs_v(*table), p@)->0,
{
    let ghost gv = globs_v(*table);
    proof {
        assert(gv.skip(0) =~= gv);
    }
    let mut i: usize = 0;
    while i < table.len()
        invariant
            i <= table@.len(),
            gv == globs_v(*table),
            lookup_glob(gv, p@) == lookup_glob(gv.skip(i as int), p@),
        decreases table@.len() - i,
    {
        proof {
            assert(gv.skip(i as int)[0] == (table@[i as int].0@, strings_v(table@[i as int].1)));
            assert(gv.skip(i as int).skip(1) =~= gv.skip(i + 1));
        }
        if string_eq(&table[i].0, p) {
            return Some(&table[i].1);
        }
        i = i + 1;
    }
    proof {
        assert(gv.skip(i as int) =~= Seq::<(Seq<char>, Seq<Seq<char>>)>::empty());
    }
    None
}

impl Cell {
    /// Resolve this cell as a set of file names, appending to `v`: a
    /// text or file cell names its path directly; a glob cell expands
    /// to the paths the file system reported for its pattern, handed in
    /// through `globs`; any other kind is no file name.
    pub fn file_expand(&self, globs: &Vec<(String, Vec<String>)>, v: &mut Vec<String>) -> (r:
        Result<(), JobError>)
        ensures
            cell_v(*self) matches CellV::Text(s) ==> r is Ok && strings_v(*final(v)) == strings_v(
                *old(v),
            ).push(s),
            cell_v(*self) matches CellV::File(s) ==> r is Ok && strings_v(*final(v)) == strings_v(
                *old(v),
            ).push(s),
            cell_v(*self) matches CellV::Glob(p) ==> {
                &&& lookup_glob(globs_v(*globs), p) matches Some(paths) ==> r is Ok && strings_v(
                    *final(v),
                ) == strings_v(*old(v)) + paths
                &&& lookup_glob(globs_v(*globs), p) is None ==> r is Err && *final(v) == *old(v)
                    && r->Err_0.message@ == "Glob pattern was not expanded"@
            },
            !(cell_v(*self) is Text || cell_v(*self) is File || cell_v(*self) is Glob) ==> r
                is Err && *final(v) == *old(v) && r->Err_0.message@ == "Expected a file name"@,
    {
        match self {
            Cell::Text(s) => {
                v.push(s.clone());
                proof {
                    assert(strings_v(*v) =~= strings_v(*old(v)).push(s@));
                }
                Ok(())
            },
            Cell::File(s) => {
                v.push(s.clone());
                proof {
                    assert(strings_v(*v) =~= strings_v(*old(v)).push(s@));
                }
                Ok(())
            },
            Cell::Glob(g) => {
                match find_glob(globs, &g.pattern) {
                    Some(paths) => {
                        let mut i: usize = 0;
                        while i < paths.len()
                            invariant
                                i <= paths@.len(),
                                v@.len() == old(v)@.len() + i,
                                forall|k: int| 0 <= k < old(v)@.len() ==> v@[k] == old(v)@[k],
                                forall|j: int|
                                    0 <= j < i ==> v@[old(v)@.len() + j]@ == paths@[j]@,
                            decreases paths@.len() - i,
                        {
                            v.push(paths[i].clone());
                            i = i + 1;
                        }
                        proof {
                            assert(strings_v(*v) =~= strings_v(*old(v)) + strings_v(*paths));
                        }
                        Ok(())
                    },
                    None => Err(
                        JobError::new(String::from_str("Glob pattern was not expanded")),
                    ),
                }
            },
            _ => Err(JobError::new(String::from_str("Expected a file name"))),
        }
    }
}

} // verus!
