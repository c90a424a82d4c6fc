//! Type descriptors: the `CellType` of every cell and the named column
//! types that make up a row schema.

use vstd::prelude::*;
use vstd::string::StringExecFns;
use crate::chars::{lex_cmp, lemma_lex_cmp_eq, lemma_lex_cmp_flip, str_to_chars, eq_chars,
    cmp_chars};

verus! {

broadcast use vstd::std_specs::vec::axiom_vec_index_decreases;

/// The type descriptor of a cell.  Composite kinds embed the schema of
/// what they contain.
pub enum CellType {
    Text,
    Integer,
    Time,
    Duration,
    Field,
    Glob,
    Regex,
    Op,
    Command,
    Closure,
    Output(Vec<ColumnType>),
    File,
    Rows(Vec<ColumnType>),
    Row(Vec<ColumnType>),
    List(Box<CellType>),
    Dict(Box<CellType>, Box<CellType>),
    Env,
    Bool,
}

/// A named column: the unit a row schema is made of.
pub struct ColumnType {
    pub name: String,
    pub cell_type: CellType,
}

/// Mathematical image of a `CellType`.
pub enum CellTypeV {
    Text,
    Integer,
    Time,
    Duration,
    Field,
    Glob,
    Regex,
    Op,
    Command,
    Closure,
    Output(Seq<ColumnTypeV>),
    File,
    Rows(Seq<ColumnTypeV>),
    Row(Seq<ColumnTypeV>),
    List(Box<CellTypeV>),
    Dict(Box<CellTypeV>, Box<CellTypeV>),
    Env,
    Bool,
}

/// Mathematical image of a `ColumnType`.
pub struct ColumnTypeV {
    pub name: Seq<char>,
    pub cell_type: CellTypeV,
}

/// The view of a type descriptor.
pub open spec fn ctv(t: CellType) -> CellTypeV
    decreases t, 0int,
{
    match t {
        CellType::Text => CellTypeV::Text,
        CellType::Integer => CellTypeV::Integer,
        CellType::Time => CellTypeV::Time,
        CellType::Duration => CellTypeV::Duration,
        CellType::Field => CellTypeV::Field,
        CellType::Glob => CellTypeV::Glob,
        CellType::Regex => CellTypeV::Regex,
        CellType::Op => CellTypeV::Op,
        CellType::Command => CellTypeV::Command,
        CellType::Closure => CellTypeV::Closure,
        CellType::Output(cols) => CellTypeV::Output(cols_v_from(cols, 0)),
        CellType::File => CellTypeV::File,
        CellType::Rows(cols) => CellTypeV::Rows(cols_v_from(cols, 0)),
        CellType::Row(cols) => CellTypeV::Row(cols_v_from(cols, 0)),
        CellType::List(t1) => CellTypeV::List(Box::new(ctv(*t1))),
        CellType::Dict(k, v) => CellTypeV::Dict(Box::new(ctv(*k)), Box::new(ctv(*v))),
        CellType::Env => CellTypeV::Env,
        CellType::Bool => CellTypeV::Bool,
    }
}

/// The view of a schema.
pub open spec fn cols_v(cols: Vec<ColumnType>) -> Seq<ColumnTypeV> {
    cols_v_from(cols, 0)
}

/// The view of the columns from position `i` on.
pub open spec fn cols_v_from(cols: Vec<ColumnType>, i: int) -> Seq<ColumnTypeV>
    decreases cols, cols@.len() - i,
    via cols_v_from_dec
{
    if 0 <= i < cols@.len() {
        seq![
            ColumnTypeV { name: cols@[i].name@, cell_type: ctv(cols@[i].cell_type) },
        ] + cols_v_from(cols, i + 1)
    } else {
        Seq::empty()
    }
}

#[via_fn]
proof fn cols_v_from_dec(cols: Vec<ColumnType>, i: int) {
    if 0 <= i < cols@.len() {
        vstd::std_specs::vec::axiom_vec_index_decreases(cols, i);
        assert(decreases_to!(cols => cols[i]));
        assert(decreases_to!(cols@[i] => cols@[i].cell_type));
    }
}

/// The view of one column.
pub open spec fn col_v(c: ColumnType) -> ColumnTypeV {
    ColumnTypeV { name: c.name@, cell_type: ctv(c.cell_type) }
}

/// A schema's view has one entry per column, the view of that column.
pub proof fn lemma_cols_v(cols: Vec<ColumnType>)
    ensures
        cols_v(cols).len() == cols@.len(),
        forall|j: int| 0 <= j < cols@.len() ==> cols_v(cols)[j] == col_v(cols@[j]),
{
    lemma_cols_v_from(cols, 0);
}

proof fn lemma_cols_v_from(cols: Vec<ColumnType>, i: int)
    requires
        0 <= i <= cols@.len(),
    ensures
        cols_v_from(cols, i).len() == cols@.len() - i,
        forall|j: int|
            i <= j < cols@.len() ==> cols_v_from(cols, i)[j - i] == col_v(cols@[j]),
    decreases cols@.len() - i,
{
    if i < cols@.len() {
        lemma_cols_v_from(cols, i + 1);
    }
}

/// The position of each type tag in the fixed global ordering that
/// decides comparisons between cells of different type.
pub open spec fn type_rank(t: CellTypeV) -> int {
    match t {
        CellTypeV::Text => 0,
        CellTypeV::Integer => 1,
        CellTypeV::Time => 2,
        CellTypeV::Duration => 3,
        CellTypeV::Field => 4,
        CellTypeV::Glob => 5,
        CellTypeV::Regex => 6,
        CellTypeV::Op => 7,
        CellTypeV::Command => 8,
        CellTypeV::Closure => 9,
        CellTypeV::Output(_) => 10,
        CellTypeV::File => 11,
        CellTypeV::Rows(_) => 12,
        CellTypeV::Row(_) => 13,
        CellTypeV::List(_) => 14,
        CellTypeV::Dict(_, _) => 15,
        CellTypeV::Env => 16,
        CellTypeV::Bool => 17,
    }
}

/// Total order over type descriptors: first by tag rank, then by the
/// embedded schemas or element types.
pub open spec fn cmp_type_v(a: CellTypeV, b: CellTypeV) -> core::cmp::Ordering
    decreases a, 0int,
{
    if type_rank(a) < type_rank(b) {
        core::cmp::Ordering::Less
    } else if type_rank(a) > type_rank(b) {
        core::cmp::Ordering::Greater
    } else {
        match (a, b) {
            (CellTypeV::Output(x), CellTypeV::Output(y)) => cmp_cols_v(x, y),
            (CellTypeV::Rows(x), CellTypeV::Rows(y)) => cmp_cols_v(x, y),
            (CellTypeV::Row(x), CellTypeV::Row(y)) => cmp_cols_v(x, y),
            (CellTypeV::List(x), CellTypeV::List(y)) => cmp_type_v(*x, *y),
            (CellTypeV::Dict(k1, v1), CellTypeV::Dict(k2, v2)) => {
                let c = cmp_type_v(*k1, *k2);
                if c == core::cmp::Ordering::Equal {
                    cmp_type_v(*v1, *v2)
                } else {
                    c
                }
            },
            _ => core::cmp::Ordering::Equal,
        }
    }
}

/// Lexicographic order over schemas: column by column, name first,
/// then column type; a shorter schema comes first.
pub open spec fn cmp_cols_v(a: Seq<ColumnTypeV>, b: Seq<ColumnTypeV>) -> core::cmp::Ordering
    decreases a, 0int,
    via cmp_cols_v_dec
{
    if a.len() == 0 && b.len() == 0 {
        core::cmp::Ordering::Equal
    } else if a.len() == 0 {
        core::cmp::Ordering::Less
    } else if b.len() == 0 {
        core::cmp::Ordering::Greater
    } else {
        let c = lex_cmp(a[0].name, b[0].name);
        if c != core::cmp::Ordering::Equal {
            c
        } else {
            let d = cmp_type_v(a[0].cell_type, b[0].cell_type);
            if d != core::cmp::Ordering::Equal {
                d
            } else {
                cmp_cols_v(a.skip(1), b.skip(1))
            }
        }
    }
}

#[via_fn]
proof fn cmp_cols_v_dec(a: Seq<ColumnTypeV>, b: Seq<ColumnTypeV>) {
    if a.len() != 0 {
        vstd::seq::axiom_seq_index_decreases(a, 0);
        assert(decreases_to!(a => a[0]));
        assert(decreases_to!(a[0] => a[0].cell_type));
        vstd::seq::axiom_seq_len_decreases(a, a.skip(1));
    }
}

/// Comparing a type descriptor with itself, or with an equal one, gives
/// `Equal`; distinct descriptors never do.
pub proof fn lemma_cmp_type_eq(a: CellTypeV, b: CellTypeV)
    ensures
        cmp_type_v(a, b) == core::cmp::Ordering::Equal <==> a == b,
    decreases a, 0int,
{
    match (a, b) {
        (CellTypeV::Output(x), CellTypeV::Output(y)) => {
            lemma_cmp_cols_eq(x, y);
        },
        (CellTypeV::Rows(x), CellTypeV::Rows(y)) => {
            lemma_cmp_cols_eq(x, y);
        },
        (CellTypeV::Row(x), CellTypeV::Row(y)) => {
            lemma_cmp_cols_eq(x, y);
        },
        (CellTypeV::List(x), CellTypeV::List(y)) => {
            lemma_cmp_type_eq(*x, *y);
        },
        (CellTypeV::Dict(k1, v1), CellTypeV::Dict(k2, v2)) => {
            lemma_cmp_type_eq(*k1, *k2);
            lemma_cmp_type_eq(*v1, *v2);
        },
        _ => {},
    }
}

/// Schemas compare `Equal` exactly when they are the same sequence.
pub proof fn lemma_cmp_cols_eq(a: Seq<ColumnTypeV>, b: Seq<ColumnTypeV>)
    ensures
        cmp_cols_v(a, b) == core::cmp::Ordering::Equal <==> a == b,
    decreases a, 1int,
{
    if a.len() == 0 && b.len() == 0 {
        assert(a =~= b);
    } else if a.len() == 0 || b.len() == 0 {
    } else {
        lemma_lex_cmp_eq(a[0].name, b[0].name);
        lemma_cmp_type_eq(a[0].cell_type, b[0].cell_type);
        proof_decreases_cols(a);
        lemma_cmp_cols_eq(a.skip(1), b.skip(1));
        if cmp_cols_v(a, b) == core::cmp::Ordering::Equal {
            assert(a[0].name == b[0].name && a[0].cell_type == b[0].cell_type);
            assert(a.skip(1) == b.skip(1));
            assert forall|k: int| 0 <= k < a.len() implies a[k] == b[k] by {
                if k > 0 {
                    assert(a.skip(1)[k - 1] == a[k - 1 + 1]);
                    assert(b.skip(1)[k - 1] == b[k - 1 + 1]);
                }
            }
            assert(a =~= b);
        } else {
            if a == b {
                assert(a.skip(1) =~= b.skip(1));
            }
        }
    }
}

/// Swapping the arguments of the type order swaps its verdict.
pub proof fn lemma_cmp_type_flip(a: CellTypeV, b: CellTypeV)
    ensures
        cmp_type_v(a, b) == core::cmp::Ordering::Less <==> cmp_type_v(b, a)
            == core::cmp::Ordering::Greater,
        cmp_type_v(a, b) == core::cmp::Ordering::Equal <==> cmp_type_v(b, a)
            == core::cmp::Ordering::Equal,
    decreases a, 0int,
{
    match (a, b) {
        (CellTypeV::Output(x), CellTypeV::Output(y)) => {
            lemma_cmp_cols_flip(x, y);
        },
        (CellTypeV::Rows(x), CellTypeV::Rows(y)) => {
            lemma_cmp_cols_flip(x, y);
        },
        (CellTypeV::Row(x), CellTypeV::Row(y)) => {
            lemma_cmp_cols_flip(x, y);
        },
        (CellTypeV::List(x), CellTypeV::List(y)) => {
            lemma_cmp_type_flip(*x, *y);
        },
        (CellTypeV::Dict(k1, v1), CellTypeV::Dict(k2, v2)) => {
            lemma_cmp_type_flip(*k1, *k2);
            lemma_cmp_type_flip(*v1, *v2);
        },
        _ => {},
    }
}

/// Swapping the arguments of the schema order swaps its verdict.
pub proof fn lemma_cmp_cols_flip(a: Seq<ColumnTypeV>, b: Seq<ColumnTypeV>)
    ensures
        cmp_cols_v(a, b) == core::cmp::Ordering::Less <==> cmp_cols_v(b, a)
            == core::cmp::Ordering::Greater,
        cmp_cols_v(a, b) == core::cmp::Ordering::Equal <==> cmp_cols_v(b, a)
            == core::cmp::Ordering::Equal,
    decreases a, 1int,
{
    if a.len() != 0 && b.len() != 0 {
        lemma_lex_cmp_flip(a[0].name, b[0].name);
        lemma_lex_cmp_eq(a[0].name, b[0].name);
        lemma_lex_cmp_eq(b[0].name, a[0].name);
        lemma_cmp_type_flip(a[0].cell_type, b[0].cell_type);
        proof_decreases_cols(a);
        lemma_cmp_cols_flip(a.skip(1), b.skip(1));
    }
}

/// A schema's tail is a smaller value than the schema.
proof fn proof_decreases_cols(a: Seq<ColumnTypeV>)
    requires
        a.len() > 0,
    ensures
        decreases_to!(a => a.skip(1)),
{
    vstd::seq::axiom_seq_len_decreases(a, a.skip(1));
}

/// Which type descriptors admit hashing; streams, tables, rows, lists,
/// dictionaries, closures and scopes do not.
pub open spec fn type_hashable(t: CellTypeV) -> bool {
    match t {
        CellTypeV::Env => false,
        CellTypeV::Dict(_, _) => false,
        CellTypeV::Rows(_) => false,
        CellTypeV::Closure => false,
        CellTypeV::List(_) => false,
        CellTypeV::Output(_) => false,
        CellTypeV::Row(_) => false,
        _ => true,
    }
}

/// The descriptor a type name in a column description denotes.
pub open spec fn type_of_name(s: Seq<char>) -> Option<CellTypeV> {
    if s == "text"@ {
        Some(CellTypeV::Text)
    } else if s == "integer"@ {
        Some(CellTypeV::Integer)
    } else if s == "time"@ {
        Some(CellTypeV::Time)
    } else if s == "duration"@ {
        Some(CellTypeV::Duration)
    } else if s == "field"@ {
        Some(CellTypeV::Field)
    } else if s == "glob"@ {
        Some(CellTypeV::Glob)
    } else if s == "regex"@ {
        Some(CellTypeV::Regex)
    } else if s == "op"@ {
        Some(CellTypeV::Op)
    } else if s == "file"@ {
        Some(CellTypeV::File)
    } else if s == "bool"@ {
        Some(CellTypeV::Bool)
    } else {
        None
    }
}

impl CellType {
    /// Compare two type descriptors in the fixed global order.
    pub fn compare(&self, other: &CellType) -> (r: core::cmp::Ordering)
        ensures
            r == cmp_type_v(ctv(*self), ctv(*other)),
        decreases *self, 0int,
    {
        let ra = self.rank();
        let rb = other.rank();
        if ra < rb {
            core::cmp::Ordering::Less
        } else if ra > rb {
            core::cmp::Ordering::Greater
        } else {
            match (self, other) {
                (CellType::Output(x), CellType::Output(y)) => cmp_cols_from(x, y, 0),
                (CellType::Rows(x), CellType::Rows(y)) => cmp_cols_from(x, y, 0),
                (CellType::Row(x), CellType::Row(y)) => cmp_cols_from(x, y, 0),
                (CellType::List(x), CellType::List(y)) => x.compare(y),
                (CellType::Dict(k1, v1), CellType::Dict(k2, v2)) => {
                    let c = k1.compare(k2);
                    if matches!(c, core::cmp::Ordering::Equal) {
                        v1.compare(v2)
                    } else {
                        c
                    }
                },
                _ => core::cmp::Ordering::Equal,
            }
        }
    }

    /// Whether this descriptor equals another.
    pub fn same_type(&self, other: &CellType) -> (r: bool)
        ensures
            r == (ctv(*self) == ctv(*other)),
    {
        let c = self.compare(other);
        proof {
            lemma_cmp_type_eq(ctv(*self), ctv(*other));
        }
        matches!(c, core::cmp::Ordering::Equal)
    }

    /// The rank of this descriptor's tag in the global order.
    pub fn rank(&self) -> (r: u32)
        ensures
            r == type_rank(ctv(*self)),
    {
        match self {
            CellType::Text => 0,
            CellType::Integer => 1,
            CellType::Time => 2,
            CellType::Duration => 3,
            CellType::Field => 4,
            CellType::Glob => 5,
            CellType::Regex => 6,
            CellType::Op => 7,
            CellType::Command => 8,
            CellType::Closure => 9,
            CellType::Output(_) => 10,
            CellType::File => 11,
            CellType::Rows(_) => 12,
            CellType::Row(_) => 13,
            CellType::List(_) => 14,
            CellType::Dict(_, _) => 15,
            CellType::Env => 16,
            CellType::Bool => 17,
        }
    }

    /// Whether cells of this type may be hashed.
    pub fn is_hashable(&self) -> (r: bool)
        ensures
            r == type_hashable(ctv(*self)),
    {
        match self {
            CellType::Env => false,
            CellType::Dict(_, _) => false,
            CellType::Rows(_) => false,
            CellType::Closure => false,
            CellType::List(_) => false,
            CellType::Output(_) => false,
            CellType::Row(_) => false,
            _ => true,
        }
    }

    /// Resolve a type name from a column description such as `name:integer`.
    pub fn from_name(s: &str) -> (r: Option<CellType>)
        ensures
            r is Some <==> type_of_name(s@) is Some,
            r is Some ==> ctv(r->0) == type_of_name(s@)->0,
    {
        let v = str_to_chars(s);
        if eq_chars(&v, &str_to_chars("text")) {
            Some(CellType::Text)
        } else if eq_chars(&v, &str_to_chars("integer")) {
            Some(CellType::Integer)
        } else if eq_chars(&v, &str_to_chars("time")) {
            Some(CellType::Time)
        } else if eq_chars(&v, &str_to_chars("duration")) {
            Some(CellType::Duration)
        } else if eq_chars(&v, &str_to_chars("field")) {
            Some(CellType::Field)
        } else if eq_chars(&v, &str_to_chars("glob")) {
            Some(CellType::Glob)
        } else if eq_chars(&v, &str_to_chars("regex")) {
            Some(CellType::Regex)
        } else if eq_chars(&v, &str_to_chars("op")) {
            Some(CellType::Op)
        } else if eq_chars(&v, &str_to_chars("file")) {
            Some(CellType::File)
        } else if eq_chars(&v, &str_to_chars("bool")) {
            Some(CellType::Bool)
        } else {
            None
        }
    }

    /// A structural copy of this descriptor.
    pub fn duplicate(&self) -> (r: CellType)
        ensures
            ctv(r) == ctv(*self),
        decreases *self, 0int,
    {
        match self {
            CellType::Text => CellType::Text,
            CellType::Integer => CellType::Integer,
            CellType::Time => CellType::Time,
            CellType::Duration => CellType::Duration,
            CellType::Field => CellType::Field,
            CellType::Glob => CellType::Glob,
            CellType::Regex => CellType::Regex,
            CellType::Op => CellType::Op,
            CellType::Command => CellType::Command,
            CellType::Closure => CellType::Closure,
            CellType::Output(cols) => CellType::Output(clone_cols(cols)),
            CellType::File => CellType::File,
            CellType::Rows(cols) => CellType::Rows(clone_cols(cols)),
            CellType::Row(cols) => CellType::Row(clone_cols(cols)),
            CellType::List(t1) => CellType::List(Box::new(t1.duplicate())),
            CellType::Dict(k, v) => CellType::Dict(
                Box::new(k.duplicate()),
                Box::new(v.duplicate()),
            ),
            CellType::Env => CellType::Env,
            CellType::Bool => CellType::Bool,
        }
    }
}

impl ColumnType {
    /// Build a named column.
    pub fn named(name: &str, cell_type: CellType) -> (r: ColumnType)
        ensures
            col_v(r) == (ColumnTypeV { name: name@, cell_type: ctv(cell_type) }),
    {
        ColumnType { name: String::from_str(name), cell_type }
    }

    /// A structural copy of this column.
    pub fn duplicate(&self) -> (r: ColumnType)
        ensures
            col_v(r) == col_v(*self),
        decreases *self,
    {
        ColumnType { name: self.name.clone(), cell_type: self.cell_type.duplicate() }
    }
}

/// Compare two schemas from position `i` on, column by column.
fn cmp_cols_from(a: &Vec<ColumnType>, b: &Vec<ColumnType>, i: usize) -> (r: core::cmp::Ordering)
    requires
        i <= a@.len(),
        i <= b@.len(),
    ensures
        r == cmp_cols_v(cols_v_from(*a, i as int), cols_v_from(*b, i as int)),
    decreases *a, a@.len() - i,
{
    proof {
        lemma_cols_v_from(*a, i as int);
        lemma_cols_v_from(*b, i as int);
    }
    if i == a.len() && i == b.len() {
        core::cmp::Ordering::Equal
    } else if i == a.len() {
        core::cmp::Ordering::Less
    } else if i == b.len() {
        core::cmp::Ordering::Greater
    } else {
        let ghost va = cols_v_from(*a, i as int);
        let ghost vb = cols_v_from(*b, i as int);
        proof {
            assert(va[0] == col_v(a@[i as int]));
            assert(vb[0] == col_v(b@[i as int]));
        }
        let an = str_to_chars(a[i].name.as_str());
        let bn = str_to_chars(b[i].name.as_str());
        let c = cmp_chars(&an, &bn);
        if !matches!(c, core::cmp::Ordering::Equal) {
            c
        } else {
            proof {
                vstd::std_specs::vec::axiom_vec_index_decreases(*a, i as int);
                assert(decreases_to!(*a => a@[i as int]));
                assert(decreases_to!(a@[i as int] => a@[i as int].cell_type));
            }
            let d = a[i].cell_type.compare(&b[i].cell_type);
            if !matches!(d, core::cmp::Ordering::Equal) {
                d
            } else {
                let r = cmp_cols_from(a, b, i + 1);
                proof {
                    assert(va.skip(1) =~= cols_v_from(*a, i + 1));
                    assert(vb.skip(1) =~= cols_v_from(*b, i + 1));
                }
                r
            }
        }
    }
}

/// Compare two schemas in the fixed lexicographic order.
pub fn cmp_cols(a: &Vec<ColumnType>, b: &Vec<ColumnType>) -> (r: core::cmp::Ordering)
    ensures
        r == cmp_cols_v(cols_v(*a), cols_v(*b)),
{
    cmp_cols_from(a, b, 0)
}

/// Whether two schemas are the same.
pub fn same_cols(a: &Vec<ColumnType>, b: &Vec<ColumnType>) -> (r: bool)
    ensures
        r == (cols_v(*a) == cols_v(*b)),
{
    let c = cmp_cols(a, b);
    proof {
        lemma_cmp_cols_eq(cols_v(*a), cols_v(*b));
    }
    matches!(c, core::cmp::Ordering::Equal)
}

/// A structural copy of a schema.
pub fn clone_cols(cols: &Vec<ColumnType>) -> (r: Vec<ColumnType>)
    ensures
        cols_v(r) == cols_v(*cols),
    decreases *cols, 0int,
{
    let mut out: Vec<ColumnType> = Vec::new();
    let mut i: usize = 0;
    while i < cols.len()
        invariant
            i <= cols@.len(),
            out@.len() == i,
            forall|j: int| 0 <= j < i ==> col_v(out@[j]) == col_v(cols@[j]),
        decreases cols@.len() - i,
    {
        proof {
            vstd::std_specs::vec::axiom_vec_index_decreases(*cols, i as int);
            assert(decreases_to!(*cols => cols@[i as int]));
        }
        let c = cols[i].duplicate();
        out.push(c);
        i = i + 1;
    }
    proof {
        lemma_cols_v(out);
        lemma_cols_v(*cols);
        assert(cols_v(out) =~= cols_v(*cols));
    }
    out
}

} // verus!
