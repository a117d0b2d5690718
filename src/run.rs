//! Running a generated parser on an input token stream.
//!
//! The reading body works on a position in the input and a log of captures
//! (field index, start and end of the captured tokens, in the order they
//! were made). The record is then assembled from the log: a vector field
//! gets every capture of its field, a scalar field the last one.
//!
//! What one capture of a field consumes is decided outside: the caller hands
//! in, for each field and each start position, where a capture that starts
//! there ends (`ends[f][p]`), as the host's "parse one value of the field's
//! declared type" found it. A capture is accepted only when it consumes at
//! least one token, stays inside the input, and covers whole brace groups.

use vstd::prelude::*;
use crate::token::{Tok, TokKind, Delim, same_text, str_equal, is_brace, nested};
use crate::model::{Mult, Parser, ParserV, StepV, Step};

verus! {

/// A one-token capture class: the simplest way to fill `ends`, where a
/// field's value is a single identifier, literal or punctuation mark.
#[derive(Clone, Copy, Debug, PartialEq, Eq, Structural)]
pub enum Capture {
    Ident,
    Int,
    Str,
    /// Any literal.
    Lit,
    Punct,
    /// Any token but a delimiter.
    Any,
}

pub open spec fn admits(c: Capture, t: Tok) -> bool {
    match c {
        Capture::Ident => t.kind == TokKind::Ident,
        Capture::Int => t.kind == TokKind::Int,
        Capture::Str => t.kind == TokKind::Str,
        Capture::Lit => t.kind == TokKind::Int || t.kind == TokKind::Str || t.kind == TokKind::Lit,
        Capture::Punct => t.kind == TokKind::Punct,
        Capture::Any => !(t.kind is Open) && !(t.kind is Close),
    }
}

impl Capture {
    /// Does a capture of this kind accept the token?
    pub fn admits(&self, t: &Tok) -> (r: bool)
        ensures
            r == admits(*self, *t),
    {
        match self {
            Capture::Ident => t.kind == TokKind::Ident,
            Capture::Int => t.kind == TokKind::Int,
            Capture::Str => t.kind == TokKind::Str,
            Capture::Lit => t.kind == TokKind::Int || t.kind == TokKind::Str || t.kind == TokKind::Lit,
            Capture::Punct => t.kind == TokKind::Punct,
            Capture::Any => !matches!(t.kind, TokKind::Open(_)) && !matches!(t.kind, TokKind::Close(_)),
        }
    }
}

/// Why a parse failed, with the input position where it did.
#[derive(Clone, Copy, Debug, PartialEq, Eq, Structural)]
pub enum ParseError {
    /// A literal of the template is not the token at this position: the
    /// position, the index of the step, and the index of the literal within
    /// that step's run.
    Mismatch(usize, usize, usize),
    /// A hole that is not optional found no alternative to capture.
    NoCapture(usize),
    /// A block was expected and no opening brace came.
    NoBlock(usize),
    /// Tokens are left inside a block (or after the input, for a whole
    /// parse) at this position.
    Leftover(usize),
    /// A required field (its index) holds no value.
    Unfilled(usize),
    /// The capture ends given do not match the field table in number.
    Schema,
    /// The cursor lies past the end of the input.
    Cursor(usize),
}

/// A captured field value.
#[derive(Debug)]
pub enum Value {
    /// A required scalar: the tokens it was captured from.
    One(Vec<Tok>),
    /// An optional scalar.
    Maybe(Option<Vec<Tok>>),
    /// A vector: every capture, in order.
    Many(Vec<Vec<Tok>>),
}

pub enum ValueV {
    One(Seq<Tok>),
    Maybe(Option<Seq<Tok>>),
    Many(Seq<Seq<Tok>>),
}

pub open spec fn seqs_view(v: Seq<Vec<Tok>>) -> Seq<Seq<Tok>> {
    v.map_values(|x: Vec<Tok>| x@)
}

impl View for Value {
    type V = ValueV;

    open spec fn view(&self) -> ValueV {
        match self {
            Value::One(t) => ValueV::One(t@),
            Value::Maybe(o) => ValueV::Maybe(
                match o {
                    Some(t) => Some(t@),
                    None => None,
                },
            ),
            Value::Many(v) => ValueV::Many(seqs_view(v@)),
        }
    }
}

/// The record that a parse produces: its type's name, and for each field of
/// the table its name and value.
#[derive(Debug)]
pub struct Record {
    pub name: String,
    pub names: Vec<String>,
    pub values: Vec<Value>,
}

pub struct RecordV {
    pub name: Seq<char>,
    pub names: Seq<Seq<char>>,
    pub values: Seq<ValueV>,
}

impl View for Record {
    type V = RecordV;

    open spec fn view(&self) -> RecordV {
        RecordV {
            name: self.name@,
            names: names_view(self.names@),
            values: values_view(self.values@),
        }
    }
}

pub open spec fn names_view(ns: Seq<String>) -> Seq<Seq<char>> {
    ns.map_values(|s: String| s@)
}

pub open spec fn values_view(vs: Seq<Value>) -> Seq<ValueV> {
    vs.map_values(|v: Value| v@)
}

/// The names of the fields of a table.
pub open spec fn field_names(fs: Seq<(Seq<char>, Mult)>) -> Seq<Seq<char>> {
    fs.map_values(|f: (Seq<char>, Mult)| f.0)
}

/// Where a capture of field `f` that starts at `pos` ends, if the field
/// accepts a value there: at least one token, inside the input, covering
/// whole brace groups.
pub open spec fn cap_end(ends: Seq<Vec<Option<usize>>>, input: Seq<Tok>, f: usize, pos: int) -> Option<usize> {
    if f < ends.len() && 0 <= pos < ends[f as int]@.len() {
        match ends[f as int]@[pos] {
            Some(e) => if pos < e <= input.len() && nested(input, pos, e as int) {
                Some(e)
            } else {
                None
            },
            None => None,
        }
    } else {
        None
    }
}

/// The first alternative, from the `j`-th on, whose field accepts a value
/// at `pos`: the field and the end of its capture.
pub open spec fn first_alt(
    xs: Seq<usize>,
    ends: Seq<Vec<Option<usize>>>,
    input: Seq<Tok>,
    pos: int,
    j: int,
) -> Option<(usize, usize)>
    decreases xs.len() - j,
{
    if j < 0 || j >= xs.len() {
        None
    } else {
        match cap_end(ends, input, xs[j], pos) {
            Some(e) => Some((xs[j], e)),
            None => first_alt(xs, ends, input, pos, j + 1),
        }
    }
}

/// Matches the literals from the `j`-th on, by their text, against the input
/// from `pos` on: the position after them. A brace of the input belongs to
/// a block and matches no literal.
pub open spec fn lits_from(ts: Seq<Tok>, input: Seq<Tok>, pos: int, j: int) -> Result<int, ParseError>
    decreases ts.len() - j,
{
    if j < 0 || j >= ts.len() {
        Ok(pos)
    } else if 0 <= pos < input.len() && same_text(ts[j], input[pos]) && !is_brace(input[pos]) {
        lits_from(ts, input, pos + 1, j + 1)
    } else {
        Err(ParseError::Mismatch(pos as usize, 0, j as usize))
    }
}

/// A `<SEQ>` loop: each round captures a value for the first alternative
/// that accepts one, until none does.
pub open spec fn repeat_from(
    xs: Seq<usize>,
    ends: Seq<Vec<Option<usize>>>,
    input: Seq<Tok>,
    pos: int,
    log: Seq<(usize, usize, usize)>,
) -> (int, Seq<(usize, usize, usize)>)
    decreases input.len() - pos,
{
    if pos < 0 || pos >= input.len() {
        (pos, log)
    } else {
        match first_alt(xs, ends, input, pos, 0) {
            Some((f, e)) => if pos < e && e <= input.len() {
                repeat_from(xs, ends, input, e as int, log.push((f, pos as usize, e)))
            } else {
                (pos, log)
            },
            None => (pos, log),
        }
    }
}

/// The token at `pos` has kind `k`.
pub open spec fn kind_at(input: Seq<Tok>, pos: int, k: TokKind) -> bool {
    0 <= pos < input.len() && input[pos].kind == k
}

/// One step of the reading body: the position and log after it.
pub open spec fn run_step(
    s: StepV,
    ends: Seq<Vec<Option<usize>>>,
    input: Seq<Tok>,
    pos: int,
    log: Seq<(usize, usize, usize)>,
) -> Result<(int, Seq<(usize, usize, usize)>), ParseError> {
    match s {
        StepV::Lits(ts) => match lits_from(ts, input, pos, 0) {
            Ok(p) => Ok((p, log)),
            Err(e) => Err(e),
        },
        StepV::Hole(xs, o) => match first_alt(xs, ends, input, pos, 0) {
            Some((f, e)) => Ok((e as int, log.push((f, pos as usize, e)))),
            None => if o {
                Ok((pos, log))
            } else {
                Err(ParseError::NoCapture(pos as usize))
            },
        },
        StepV::Repeat(xs) => Ok(repeat_from(xs, ends, input, pos, log)),
        StepV::Open => if kind_at(input, pos, TokKind::Open(Delim::Brace)) {
            Ok((pos + 1, log))
        } else {
            Err(ParseError::NoBlock(pos as usize))
        },
        StepV::Close => if kind_at(input, pos, TokKind::Close(Delim::Brace)) {
            Ok((pos + 1, log))
        } else {
            Err(ParseError::Leftover(pos as usize))
        },
    }
}

/// An error of step `k`, with the step's index filled in.
pub open spec fn locate(e: ParseError, k: usize) -> ParseError {
    match e {
        ParseError::Mismatch(at, _, j) => ParseError::Mismatch(at, k, j),
        _ => e,
    }
}

/// The steps from the `k`-th on.
pub open spec fn run_from(
    steps: Seq<StepV>,
    ends: Seq<Vec<Option<usize>>>,
    input: Seq<Tok>,
    k: int,
    pos: int,
    log: Seq<(usize, usize, usize)>,
) -> Result<(int, Seq<(usize, usize, usize)>), ParseError>
    decreases steps.len() - k,
{
    if k < 0 || k >= steps.len() {
        Ok((pos, log))
    } else {
        match run_step(steps[k], ends, input, pos, log) {
            Ok((p, l)) => run_from(steps, ends, input, k + 1, p, l),
            Err(e) => Err(locate(e, k as usize)),
        }
    }
}

/// The captures of field `f`, in order, as start and end positions.
pub open spec fn caps(log: Seq<(usize, usize, usize)>, f: usize) -> Seq<(usize, usize)>
    decreases log.len(),
{
    if log.len() == 0 {
        seq![]
    } else {
        let r = caps(log.drop_last(), f);
        if log.last().0 == f {
            r.push((log.last().1, log.last().2))
        } else {
            r
        }
    }
}

/// The tokens of a capture.
pub open spec fn piece(input: Seq<Tok>, r: (usize, usize)) -> Seq<Tok> {
    input.subrange(r.0 as int, r.1 as int)
}

/// The tokens of each capture.
pub open spec fn pieces(input: Seq<Tok>, rs: Seq<(usize, usize)>) -> Seq<Seq<Tok>>
    decreases rs.len(),
{
    if rs.len() == 0 {
        seq![]
    } else {
        pieces(input, rs.drop_last()).push(piece(input, rs.last()))
    }
}

/// The value of a field of multiplicity `m` with captures `rs`.
pub open spec fn value_of(m: Mult, input: Seq<Tok>, rs: Seq<(usize, usize)>) -> Option<ValueV> {
    match m {
        Mult::Required => if rs.len() > 0 {
            Some(ValueV::One(piece(input, rs.last())))
        } else {
            None
        },
        Mult::Optional => Some(
            ValueV::Maybe(if rs.len() > 0 { Some(piece(input, rs.last())) } else { None }),
        ),
        Mult::Many => Some(ValueV::Many(pieces(input, rs))),
    }
}

/// The values of the fields from the `j`-th on, after `acc`.
pub open spec fn fill(
    fields: Seq<(Seq<char>, Mult)>,
    input: Seq<Tok>,
    log: Seq<(usize, usize, usize)>,
    j: int,
    acc: Seq<ValueV>,
) -> Result<Seq<ValueV>, ParseError>
    decreases fields.len() - j,
{
    if j < 0 || j >= fields.len() {
        Ok(acc)
    } else {
        match value_of(fields[j].1, input, caps(log, j as usize)) {
            Some(v) => fill(fields, input, log, j + 1, acc.push(v)),
            None => Err(ParseError::Unfilled(j as usize)),
        }
    }
}

/// What a parse from `pos` gives: the record and the position after it.
pub open spec fn parse_spec(
    p: ParserV,
    ends: Seq<Vec<Option<usize>>>,
    input: Seq<Tok>,
    pos: int,
) -> Result<(RecordV, int), ParseError> {
    if ends.len() != p.fields.len() {
        Err(ParseError::Schema)
    } else if pos < 0 || pos > input.len() {
        Err(ParseError::Cursor(pos as usize))
    } else {
        match run_from(p.steps, ends, input, 0, pos, seq![]) {
            Err(e) => Err(e),
            Ok((end, log)) => match fill(p.fields, input, log, 0, seq![]) {
                Err(e) => Err(e),
                Ok(vals) => Ok(
                    (RecordV { name: p.record, names: field_names(p.fields), values: vals }, end),
                ),
            },
        }
    }
}

/// Every capture of the log lies inside the input.
pub open spec fn valid_log(log: Seq<(usize, usize, usize)>, n: int) -> bool {
    forall|i: int| 0 <= i < log.len() ==> (#[trigger] log[i]).1 <= log[i].2 <= n
}

pub(crate) proof fn lemma_first_alt_found(
    xs: Seq<usize>,
    ends: Seq<Vec<Option<usize>>>,
    input: Seq<Tok>,
    pos: int,
    j: int,
)
    ensures
        first_alt(xs, ends, input, pos, j) matches Some((f, e)) ==> 0 <= pos < e <= input.len()
            && cap_end(ends, input, f, pos) == Some(e) && xs.contains(f),
    decreases xs.len() - j,
{
    if 0 <= j < xs.len() {
        lemma_first_alt_found(xs, ends, input, pos, j + 1);
        if cap_end(ends, input, xs[j], pos) is Some {
            assert(xs.contains(xs[j]));
        }
    }
}

proof fn lemma_repeat_valid(
    xs: Seq<usize>,
    ends: Seq<Vec<Option<usize>>>,
    input: Seq<Tok>,
    pos: int,
    log: Seq<(usize, usize, usize)>,
)
    requires
        0 <= pos <= input.len(),
        valid_log(log, input.len() as int),
    ensures
        ({
            let (q, l) = repeat_from(xs, ends, input, pos, log);
            pos <= q <= input.len() && valid_log(l, input.len() as int)
        }),
    decreases input.len() - pos,
{
    if pos < input.len() {
        lemma_first_alt_found(xs, ends, input, pos, 0);
        if let Some((f, e)) = first_alt(xs, ends, input, pos, 0) {
            let l2 = log.push((f, pos as usize, e));
            assert(valid_log(l2, input.len() as int)) by {
                assert forall|i: int| 0 <= i < l2.len() implies (#[trigger] l2[i]).1 <= l2[i].2
                    <= input.len() by {
                    if i < log.len() {
                        assert(l2[i] == log[i]);
                    }
                }
            }
            lemma_repeat_valid(xs, ends, input, e as int, l2);
        }
    }
}

/// Where a capture of field `f` at `pos` ends, if one is accepted there.
fn capture_end(ends: &Vec<Vec<Option<usize>>>, input: &Vec<Tok>, f: usize, pos: usize) -> (r: Option<usize>)
    ensures
        r == cap_end(ends@, input@, f, pos as int),
{
    if f < ends.len() && pos < ends[f].len() {
        match ends[f][pos] {
            Some(e) => {
                if pos < e && e <= input.len() && crate::token::is_nested(input, pos, e) {
                    Some(e)
                } else {
                    None
                }
            },
            None => None,
        }
    } else {
        None
    }
}

/// Tries the alternatives in order at `pos`: the field of the first that
/// accepts a value there, and the end of that value.
fn pick_alt(xs: &Vec<usize>, ends: &Vec<Vec<Option<usize>>>, input: &Vec<Tok>, pos: usize) -> (r:
    Option<(usize, usize)>)
    ensures
        r == first_alt(xs@, ends@, input@, pos as int, 0),
{
    let mut j: usize = 0;
    while j < xs.len()
        invariant
            j <= xs@.len(),
            first_alt(xs@, ends@, input@, pos as int, 0) == first_alt(
                xs@,
                ends@,
                input@,
                pos as int,
                j as int,
            ),
        decreases xs@.len() - j,
    {
        let f = xs[j];
        match capture_end(ends, input, f, pos) {
            Some(e) => {
                return Some((f, e));
            },
            None => {},
        }
        j = j + 1;
    }
    None
}

/// Matches a run of literals against the input, token by token, by their
/// rendered text.
fn match_lits(ts: &Vec<Tok>, input: &Vec<Tok>, pos: usize) -> (r: Result<usize, ParseError>)
    ensures
        match r {
            Ok(p) => lits_from(ts@, input@, pos as int, 0) == Ok::<int, ParseError>(p as int),
            Err(e) => lits_from(ts@, input@, pos as int, 0) == Err::<int, ParseError>(e),
        },
{
    let mut p: usize = pos;
    let mut j: usize = 0;
    while j < ts.len()
        invariant
            j <= ts@.len(),
            lits_from(ts@, input@, pos as int, 0) == lits_from(ts@, input@, p as int, j as int),
        decreases ts@.len() - j,
    {
        if p < input.len() && ts[j].same_text(&input[p]) && !input[p].is_brace() {
            p = p + 1;
            j = j + 1;
        } else {
            return Err(ParseError::Mismatch(p, 0, j));
        }
    }
    Ok(p)
}

/// Runs a `<SEQ>` loop: one capture per round, until no alternative
/// accepts a value. Every round consumes a token or more, so the loop ends.
fn run_repeat(
    xs: &Vec<usize>,
    ends: &Vec<Vec<Option<usize>>>,
    input: &Vec<Tok>,
    pos: usize,
    log: &mut Vec<(usize, usize, usize)>,
) -> (r: usize)
    ensures
        repeat_from(xs@, ends@, input@, pos as int, old(log)@) == (r as int, final(log)@),
{
    let mut p: usize = pos;
    loop
        invariant
            repeat_from(xs@, ends@, input@, pos as int, old(log)@) == repeat_from(
                xs@,
                ends@,
                input@,
                p as int,
                log@,
            ),
        ensures
            repeat_from(xs@, ends@, input@, pos as int, old(log)@) == (p as int, log@),
        decreases input@.len() - p,
    {
        if p >= input.len() {
            break ;
        }
        proof {
            lemma_first_alt_found(xs@, ends@, input@, p as int, 0);
        }
        match pick_alt(xs, ends, input, p) {
            Some((f, e)) => {
                log.push((f, p, e));
                p = e;
            },
            None => {
                break ;
            },
        }
    }
    p
}

/// Runs one step of the reading body.
fn exec_step(
    s: &Step,
    ends: &Vec<Vec<Option<usize>>>,
    input: &Vec<Tok>,
    pos: usize,
    log: &mut Vec<(usize, usize, usize)>,
) -> (r: Result<usize, ParseError>)
    requires
        pos <= input@.len(),
        valid_log(old(log)@, input@.len() as int),
    ensures
        match r {
            Ok(p) => run_step(s@, ends@, input@, pos as int, old(log)@) == Ok::<_, ParseError>(
                (p as int, final(log)@),
            ) && p <= input@.len() && valid_log(final(log)@, input@.len() as int),
            Err(e) => run_step(s@, ends@, input@, pos as int, old(log)@) == Err::<
                (int, Seq<(usize, usize, usize)>),
                ParseError,
            >(e),
        },
{
    let n = input.len();
    match s {
        Step::Lits(ts) => {
            proof {
                lemma_lits_bound(ts@, input@, pos as int, 0);
            }
            match_lits(ts, input, pos)
        },
        Step::Hole(xs, o) => {
            proof {
                lemma_first_alt_found(xs@, ends@, input@, pos as int, 0);
            }
            match pick_alt(xs, ends, input, pos) {
                Some((f, e)) => {
                    let ghost l0 = log@;
                    log.push((f, pos, e));
                    proof {
                        assert forall|i: int| 0 <= i < log@.len() implies (#[trigger] log@[i]).1
                            <= log@[i].2 <= input@.len() by {
                            if i < l0.len() {
                                assert(log@[i] == l0[i]);
                            }
                        }
                    }
                    Ok(e)
                },
                None => {
                    if *o {
                        Ok(pos)
                    } else {
                        Err(ParseError::NoCapture(pos))
                    }
                },
            }
        },
        Step::Repeat(xs) => {
            proof {
                lemma_repeat_valid(xs@, ends@, input@, pos as int, log@);
            }
            Ok(run_repeat(xs, ends, input, pos, log))
        },
        Step::Open => {
            if pos < n && input[pos].kind == TokKind::Open(Delim::Brace) {
                Ok(pos + 1)
            } else {
                Err(ParseError::NoBlock(pos))
            }
        },
        Step::Close => {
            if pos < n && input[pos].kind == TokKind::Close(Delim::Brace) {
                Ok(pos + 1)
            } else {
                Err(ParseError::Leftover(pos))
            }
        },
    }
}

proof fn lemma_lits_bound(ts: Seq<Tok>, input: Seq<Tok>, pos: int, j: int)
    requires
        0 <= pos <= input.len(),
    ensures
        lits_from(ts, input, pos, j) matches Ok(q) ==> pos <= q <= input.len(),
    decreases ts.len() - j,
{
    if 0 <= j < ts.len() && pos < input.len() {
        lemma_lits_bound(ts, input, pos + 1, j + 1);
    }
}

/// Runs the whole reading body from `pos`: the position after it and the
/// captures made.
fn exec_steps(steps: &Vec<Step>, ends: &Vec<Vec<Option<usize>>>, input: &Vec<Tok>, pos: usize) -> (r:
    Result<(usize, Vec<(usize, usize, usize)>), ParseError>)
    requires
        pos <= input@.len(),
    ensures
        match r {
            Ok((p, log)) => run_from(crate::model::steps_view(steps@), ends@, input@, 0, pos as int, seq![])
                == Ok::<_, ParseError>((p as int, log@)) && valid_log(log@, input@.len() as int),
            Err(e) => run_from(crate::model::steps_view(steps@), ends@, input@, 0, pos as int, seq![])
                == Err::<(int, Seq<(usize, usize, usize)>), ParseError>(e),
        },
{
    let ghost sv = crate::model::steps_view(steps@);
    let mut log: Vec<(usize, usize, usize)> = Vec::new();
    let mut p: usize = pos;
    let mut k: usize = 0;
    proof {
        assert(log@ =~= seq![]);
    }
    while k < steps.len()
        invariant
            k <= steps@.len(),
            p <= input@.len(),
            valid_log(log@, input@.len() as int),
            sv == crate::model::steps_view(steps@),
            run_from(sv, ends@, input@, 0, pos as int, seq![]) == run_from(
                sv,
                ends@,
                input@,
                k as int,
                p as int,
                log@,
            ),
        decreases steps@.len() - k,
    {
        assert(sv[k as int] == steps@[k as int]@);
        match exec_step(&steps[k], ends, input, p, &mut log) {
            Ok(q) => {
                p = q;
            },
            Err(e) => {
                let e2 = match e {
                    ParseError::Mismatch(at, _, j) => ParseError::Mismatch(at, k, j),
                    _ => e,
                };
                return Err(e2);
            },
        }
        k = k + 1;
    }
    Ok((p, log))
}

/// The captures of field `f`, in order.
fn collect(log: &Vec<(usize, usize, usize)>, f: usize) -> (r: Vec<(usize, usize)>)
    ensures
        r@ == caps(log@, f),
{
    let mut out: Vec<(usize, usize)> = Vec::new();
    let mut i: usize = 0;
    proof {
        assert(log@.subrange(0, 0) =~= seq![]);
        assert(out@ =~= seq![]);
    }
    while i < log.len()
        invariant
            i <= log@.len(),
            out@ == caps(log@.subrange(0, i as int), f),
        decreases log@.len() - i,
    {
        proof {
            assert(log@.subrange(0, i + 1).drop_last() =~= log@.subrange(0, i as int));
        }
        let (g, a, b) = log[i];
        if g == f {
            out.push((a, b));
        }
        i = i + 1;
    }
    proof {
        assert(log@.subrange(0, i as int) =~= log@);
    }
    out
}

/// The tokens `input[a..b]`.
fn slice(input: &Vec<Tok>, a: usize, b: usize) -> (r: Vec<Tok>)
    requires
        a <= b <= input@.len(),
    ensures
        r@ == input@.subrange(a as int, b as int),
{
    let mut out: Vec<Tok> = Vec::new();
    let mut i: usize = a;
    while i < b
        invariant
            a <= i <= b,
            b <= input@.len(),
            out@ =~= input@.subrange(a as int, i as int),
        decreases b - i,
    {
        out.push(input[i].copy());
        i = i + 1;
    }
    out
}

/// The tokens of each capture of `rs`.
fn slices(input: &Vec<Tok>, rs: &Vec<(usize, usize)>) -> (r: Vec<Vec<Tok>>)
    requires
        forall|i: int| 0 <= i < rs@.len() ==> (#[trigger] rs@[i]).0 <= rs@[i].1 <= input@.len(),
    ensures
        seqs_view(r@) == pieces(input@, rs@),
{
    let mut out: Vec<Vec<Tok>> = Vec::new();
    let mut i: usize = 0;
    proof {
        assert(seqs_view(out@) =~= seq![]);
        assert(rs@.subrange(0, 0) =~= seq![]);
    }
    while i < rs.len()
        invariant
            i <= rs@.len(),
            forall|i: int| 0 <= i < rs@.len() ==> (#[trigger] rs@[i]).0 <= rs@[i].1 <= input@.len(),
            seqs_view(out@) == pieces(input@, rs@.subrange(0, i as int)),
        decreases rs@.len() - i,
    {
        let (a, b) = rs[i];
        let v = slice(input, a, b);
        proof {
            assert(rs@.subrange(0, i + 1).drop_last() =~= rs@.subrange(0, i as int));
            assert(seqs_view(out@.push(v)) =~= seqs_view(out@).push(v@));
        }
        out.push(v);
        i = i + 1;
    }
    proof {
        assert(rs@.subrange(0, i as int) =~= rs@);
    }
    out
}

proof fn lemma_caps_valid(log: Seq<(usize, usize, usize)>, f: usize, n: int)
    requires
        valid_log(log, n),
    ensures
        forall|i: int| 0 <= i < caps(log, f).len() ==> (#[trigger] caps(log, f)[i]).0 <= caps(log, f)[i].1 <= n,
    decreases log.len(),
{
    if log.len() > 0 {
        assert(valid_log(log.drop_last(), n)) by {
            assert forall|i: int| 0 <= i < log.drop_last().len() implies (#[trigger] log.drop_last()[i]).1
                <= log.drop_last()[i].2 <= n by {
                assert(log.drop_last()[i] == log[i]);
            }
        }
        lemma_caps_valid(log.drop_last(), f, n);
        assert(log.last() == log[log.len() - 1]);
        let r = caps(log.drop_last(), f);
        assert forall|i: int| 0 <= i < caps(log, f).len() implies (#[trigger] caps(log, f)[i]).0 <= caps(
            log,
            f,
        )[i].1 <= n by {
            if i < r.len() {
                assert(caps(log, f)[i] == r[i]);
            }
        }
    }
}

/// The construction epilogue: the value of each field from the captures.
fn fill_values(fields: &Vec<crate::model::Field>, input: &Vec<Tok>, log: &Vec<(usize, usize, usize)>) -> (r:
    Result<Vec<Value>, ParseError>)
    requires
        valid_log(log@, input@.len() as int),
    ensures
        match r {
            Ok(vs) => fill(crate::model::fields_view(fields@), input@, log@, 0, seq![]) == Ok::<
                _,
                ParseError,
            >(values_view(vs@)),
            Err(e) => fill(crate::model::fields_view(fields@), input@, log@, 0, seq![]) == Err::<
                Seq<ValueV>,
                ParseError,
            >(e),
        },
{
    let ghost fv = crate::model::fields_view(fields@);
    let mut vs: Vec<Value> = Vec::new();
    let mut j: usize = 0;
    proof {
        assert(values_view(vs@) =~= seq![]);
    }
    while j < fields.len()
        invariant
            j <= fields@.len(),
            valid_log(log@, input@.len() as int),
            fv == crate::model::fields_view(fields@),
            fill(fv, input@, log@, 0, seq![]) == fill(fv, input@, log@, j as int, values_view(vs@)),
        decreases fields@.len() - j,
    {
        assert(fv[j as int] == fields@[j as int]@);
        let cs = collect(log, j);
        proof {
            lemma_caps_valid(log@, j, input@.len() as int);
        }
        let n = cs.len();
        let v = match fields[j].mult {
            Mult::Required => {
                if n == 0 {
                    return Err(ParseError::Unfilled(j));
                }
                let (a, b) = cs[n - 1];
                Value::One(slice(input, a, b))
            },
            Mult::Optional => {
                if n == 0 {
                    Value::Maybe(None)
                } else {
                    let (a, b) = cs[n - 1];
                    Value::Maybe(Some(slice(input, a, b)))
                }
            },
            Mult::Many => Value::Many(slices(input, &cs)),
        };
        proof {
            assert(values_view(vs@.push(v)) =~= values_view(vs@).push(v@));
        }
        vs.push(v);
        j = j + 1;
    }
    Ok(vs)
}

/// What a parse of the whole input gives: the record, or an error; tokens
/// left after the record are an error at the first of them.
pub open spec fn parse_all_spec(p: ParserV, ends: Seq<Vec<Option<usize>>>, input: Seq<Tok>) -> Result<
    RecordV,
    ParseError,
> {
    match parse_spec(p, ends, input, 0) {
        Err(e) => Err(e),
        Ok((rec, end)) => if end == input.len() {
            Ok(rec)
        } else {
            Err(ParseError::Leftover(end as usize))
        },
    }
}

/// The capture ends of one-token capture classes: `kinds[f]` says which
/// single tokens field `f` accepts.
pub fn token_ends(kinds: &Vec<Capture>, input: &Vec<Tok>) -> (r: Vec<Vec<Option<usize>>>)
    ensures
        r@.len() == kinds@.len(),
        forall|f: int|
            0 <= f < kinds@.len() ==> (#[trigger] r@[f])@.len() == input@.len() && forall|p: int|
                0 <= p < input@.len() ==> (#[trigger] r@[f]@[p]) == (if admits(kinds@[f], input@[p]) {
                    Some((p + 1) as usize)
                } else {
                    None
                }),
{
    let mut r: Vec<Vec<Option<usize>>> = Vec::new();
    let mut f: usize = 0;
    while f < kinds.len()
        invariant
            f <= kinds@.len(),
            r@.len() == f,
            forall|g: int|
                0 <= g < f ==> (#[trigger] r@[g])@.len() == input@.len() && forall|p: int|
                    0 <= p < input@.len() ==> (#[trigger] r@[g]@[p]) == (if admits(
                        kinds@[g],
                        input@[p],
                    ) {
                        Some((p + 1) as usize)
                    } else {
                        None
                    }),
        decreases kinds@.len() - f,
    {
        let mut row: Vec<Option<usize>> = Vec::new();
        let mut p: usize = 0;
        let n = input.len();
        while p < n
            invariant
                p <= n,
                n == input@.len(),
                f < kinds@.len(),
                row@.len() == p,
                forall|q: int|
                    0 <= q < p ==> (#[trigger] row@[q]) == (if admits(kinds@[f as int], input@[q]) {
                        Some((q + 1) as usize)
                    } else {
                        None
                    }),
            decreases n - p,
        {
            if kinds[f].admits(&input[p]) {
                row.push(Some(p + 1));
            } else {
                row.push(None);
            }
            p = p + 1;
        }
        r.push(row);
        f = f + 1;
    }
    r
}

impl Parser {
    /// Reads one record from `input` at `*cursor`. `ends[f][p]` is where a
    /// value of field `f` that starts at `p` ends, if one does. The reading
    /// runs on a fork of the cursor: on success the cursor moves past what
    /// was read, on failure it does not move.
    pub fn parse(&self, ends: &Vec<Vec<Option<usize>>>, input: &Vec<Tok>, cursor: &mut usize) -> (r:
        Result<Record, ParseError>)
        ensures
            match r {
                Ok(rec) => parse_spec(self@, ends@, input@, *old(cursor) as int) == Ok::<
                    _,
                    ParseError,
                >((rec@, *final(cursor) as int)),
                Err(e) => parse_spec(self@, ends@, input@, *old(cursor) as int) == Err::<
                    (RecordV, int),
                    ParseError,
                >(e) && *final(cursor) == *old(cursor),
            },
    {
        if ends.len() != self.fields.len() {
            return Err(ParseError::Schema);
        }
        let fork: usize = *cursor;
        if fork > input.len() {
            return Err(ParseError::Cursor(fork));
        }
        match exec_steps(&self.steps, ends, input, fork) {
            Err(e) => Err(e),
            Ok((end, log)) => match fill_values(&self.fields, input, &log) {
                Err(e) => Err(e),
                Ok(values) => {
                    let ghost fv = self@.fields;
                    let mut names: Vec<String> = Vec::new();
                    let mut i: usize = 0;
                    while i < self.fields.len()
                        invariant
                            i <= self.fields@.len(),
                            fv == crate::model::fields_view(self.fields@),
                            names_view(names@) =~= field_names(fv).subrange(0, i as int),
                        decreases self.fields@.len() - i,
                    {
                        assert(fv[i as int] == self.fields@[i as int]@);
                        let nm = self.fields[i].name.clone();
                        proof {
                            assert(names_view(names@.push(nm)) =~= names_view(names@).push(nm@));
                            assert(field_names(fv).subrange(0, i + 1) =~= field_names(fv).subrange(
                                0,
                                i as int,
                            ).push(fv[i as int].0));
                        }
                        names.push(nm);
                        i = i + 1;
                    }
                    proof {
                        assert(field_names(fv).subrange(0, i as int) =~= field_names(fv));
                    }
                    *cursor = end;
                    Ok(Record { name: self.record.clone(), names, values })
                },
            },
        }
    }

    /// Reads the whole input as one record. Tokens left after it are an
    /// error.
    pub fn parse_all(&self, ends: &Vec<Vec<Option<usize>>>, input: &Vec<Tok>) -> (r: Result<
        Record,
        ParseError,
    >)
        ensures
            match r {
                Ok(rec) => parse_all_spec(self@, ends@, input@) == Ok::<_, ParseError>(rec@),
                Err(e) => parse_all_spec(self@, ends@, input@) == Err::<RecordV, ParseError>(e),
            },
    {
        let mut cursor: usize = 0;
        match self.parse(ends, input, &mut cursor) {
            Err(e) => Err(e),
            Ok(rec) => {
                if cursor == input.len() {
                    Ok(rec)
                } else {
                    Err(ParseError::Leftover(cursor))
                }
            },
        }
    }
}

impl Record {
    /// The value of the field named `name`.
    pub fn get(&self, name: &str) -> (r: Option<&Value>)
        ensures
            match r {
                Some(v) => exists|i: int|
                    0 <= i < self.names@.len() && i < self.values@.len() && self.names@[i]@ == name@
                        && self.values@[i] == *v,
                None => forall|i: int|
                    0 <= i < self.names@.len() && i < self.values@.len() ==> self.names@[i]@ != name@,
            },
    {
        let mut i: usize = 0;
        while i < self.names.len() && i < self.values.len()
            invariant
                forall|k: int| 0 <= k < i ==> self.names@[k]@ != name@,
            decreases self.names@.len() - i,
        {
            if str_equal(self.names[i].as_str(), name) {
                return Some(&self.values[i]);
            }
            i = i + 1;
        }
        None
    }
}

} // verus!
