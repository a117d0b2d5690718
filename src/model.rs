//! The template model: the step list, the field table and the record name,
//! built from the scanned items.

use vstd::prelude::*;
use crate::token::Tok;
use crate::scan::{Binding, Item, ItemV, GenError, binds_view, items_view, scan, scan_from};

verus! {

/// How a field accumulates its captures.
#[derive(Clone, Copy, Debug, PartialEq, Eq, Structural)]
pub enum Mult {
    /// A scalar that the parse always fills: the record holds the value.
    Required,
    /// A scalar that may stay empty: the record holds an option.
    Optional,
    /// A vector binding: the record holds every capture, in order.
    Many,
}

/// One entry of the field table.
#[derive(Debug)]
pub struct Field {
    pub name: String,
    pub mult: Mult,
}

impl View for Field {
    type V = (Seq<char>, Mult);

    open spec fn view(&self) -> (Seq<char>, Mult) {
        (self.name@, self.mult)
    }
}

pub open spec fn fields_view(fs: Seq<Field>) -> Seq<(Seq<char>, Mult)> {
    fs.map_values(|f: Field| f@)
}

/// One step of the reading body. Holes name their alternatives by their
/// index in the field table.
#[derive(Debug)]
pub enum Step {
    /// A run of literal tokens, matched one by one.
    Lits(Vec<Tok>),
    /// A hole: its alternatives in order, and whether it is optional.
    Hole(Vec<usize>, bool),
    /// A `<SEQ>`: its alternatives, tried again until none matches.
    Repeat(Vec<usize>),
    /// The opening brace of a block.
    Open,
    /// The closing brace of a block.
    Close,
}

/// A step as a plain value.
pub enum StepV {
    Lits(Seq<Tok>),
    Hole(Seq<usize>, bool),
    Repeat(Seq<usize>),
    Open,
    Close,
}

impl View for Step {
    type V = StepV;

    open spec fn view(&self) -> StepV {
        match self {
            Step::Lits(ts) => StepV::Lits(ts@),
            Step::Hole(xs, o) => StepV::Hole(xs@, *o),
            Step::Repeat(xs) => StepV::Repeat(xs@),
            Step::Open => StepV::Open,
            Step::Close => StepV::Close,
        }
    }
}

pub open spec fn steps_view(ss: Seq<Step>) -> Seq<StepV> {
    ss.map_values(|s: Step| s@)
}

/// A generated parser: the record's name, its field table and the steps
/// that read the input.
#[derive(Debug)]
pub struct Parser {
    pub record: String,
    pub fields: Vec<Field>,
    pub steps: Vec<Step>,
}

/// A parser as a plain value.
pub struct ParserV {
    pub record: Seq<char>,
    pub fields: Seq<(Seq<char>, Mult)>,
    pub steps: Seq<StepV>,
}

impl View for Parser {
    type V = ParserV;

    open spec fn view(&self) -> ParserV {
        ParserV {
            record: self.record@,
            fields: fields_view(self.fields@),
            steps: steps_view(self.steps@),
        }
    }
}

/// The state of the builder between two items.
pub struct Build {
    pub steps: Seq<StepV>,
    pub fields: Seq<(Seq<char>, Mult)>,
    pub record: Option<Seq<char>>,
    pub depth: nat,
}

/// The first index at or after `k` of a field named `name`.
pub open spec fn lookup(fs: Seq<(Seq<char>, Mult)>, name: Seq<char>, k: int) -> Option<int>
    decreases fs.len() - k,
{
    if k < 0 || k >= fs.len() {
        None
    } else if fs[k].0 == name {
        Some(k)
    } else {
        lookup(fs, name, k + 1)
    }
}

/// Resolves one binding against the table: the first mention of a name adds
/// it (a vector as `Many`, a scalar as `scalar`); a later one must agree on
/// being a vector. `k` is the item's position, for the error.
pub open spec fn bind_field(
    fs: Seq<(Seq<char>, Mult)>,
    b: (Seq<char>, bool),
    scalar: Mult,
    k: int,
) -> Result<(Seq<(Seq<char>, Mult)>, usize), GenError> {
    match lookup(fs, b.0, 0) {
        Some(x) => if (fs[x].1 == Mult::Many) == b.1 {
            Ok((fs, x as usize))
        } else {
            Err(GenError::KindConflict(k as usize))
        },
        None => Ok((fs.push((b.0, if b.1 { Mult::Many } else { scalar })), fs.len() as usize)),
    }
}

/// Resolves the bindings from the `j`-th on, after `acc` for the earlier
/// ones.
pub open spec fn resolve(
    fs: Seq<(Seq<char>, Mult)>,
    bs: Seq<(Seq<char>, bool)>,
    scalar: Mult,
    k: int,
    j: int,
    acc: Seq<usize>,
) -> Result<(Seq<(Seq<char>, Mult)>, Seq<usize>), GenError>
    decreases bs.len() - j,
{
    if j < 0 || j >= bs.len() {
        Ok((fs, acc))
    } else {
        match bind_field(fs, bs[j], scalar, k) {
            Ok((fs2, x)) => resolve(fs2, bs, scalar, k, j + 1, acc.push(x)),
            Err(e) => Err(e),
        }
    }
}

/// Adds a literal token to the run that ends the step list, or starts one.
pub open spec fn add_lit(steps: Seq<StepV>, t: Tok) -> Seq<StepV> {
    if steps.len() > 0 && steps.last() is Lits {
        steps.update(steps.len() - 1, StepV::Lits(steps.last()->Lits_0.push(t)))
    } else {
        steps.push(StepV::Lits(seq![t]))
    }
}

/// What item `k` does to the builder's state.
pub open spec fn build_item(st: Build, it: ItemV, k: int) -> Result<Build, GenError> {
    match it {
        ItemV::Lit(t) => Ok(Build { steps: add_lit(st.steps, t), ..st }),
        ItemV::Hole(bs, o) => {
            let scalar = if bs.len() == 1 && !o { Mult::Required } else { Mult::Optional };
            match resolve(st.fields, bs, scalar, k, 0, seq![]) {
                Ok((fs, xs)) => Ok(Build { steps: st.steps.push(StepV::Hole(xs, o)), fields: fs, ..st }),
                Err(e) => Err(e),
            }
        },
        ItemV::Repeat(bs) => match resolve(st.fields, bs, Mult::Optional, k, 0, seq![]) {
            Ok((fs, xs)) => Ok(Build { steps: st.steps.push(StepV::Repeat(xs)), fields: fs, ..st }),
            Err(e) => Err(e),
        },
        ItemV::For(n) => if st.record is Some {
            Err(GenError::ExtraFor(k as usize))
        } else {
            Ok(Build { record: Some(n), ..st })
        },
        ItemV::Open => Ok(Build { steps: st.steps.push(StepV::Open), depth: st.depth + 1, ..st }),
        ItemV::Close => if st.depth == 0 {
            Err(GenError::Unbalanced(k as usize))
        } else {
            Ok(Build { steps: st.steps.push(StepV::Close), depth: (st.depth - 1) as nat, ..st })
        },
    }
}

/// The builder's state after the items from the `k`-th on.
pub open spec fn build_from(items: Seq<ItemV>, k: int, st: Build) -> Result<Build, GenError>
    decreases items.len() - k,
{
    if k < 0 || k >= items.len() {
        Ok(st)
    } else {
        match build_item(st, items[k], k) {
            Ok(st2) => build_from(items, k + 1, st2),
            Err(e) => Err(e),
        }
    }
}

pub open spec fn empty_build() -> Build {
    Build { steps: seq![], fields: seq![], record: None, depth: 0 }
}

/// The parser that a list of items describes.
pub open spec fn build_spec(items: Seq<ItemV>) -> Result<ParserV, GenError> {
    match build_from(items, 0, empty_build()) {
        Err(e) => Err(e),
        Ok(st) => if st.record is None {
            Err(GenError::NoFor)
        } else if st.depth != 0 {
            Err(GenError::Unbalanced(items.len() as usize))
        } else {
            Ok(ParserV { record: st.record->Some_0, fields: st.fields, steps: st.steps })
        },
    }
}

/// The parser that a template describes.
pub open spec fn generate_spec(t: Seq<Tok>) -> Result<ParserV, GenError> {
    match scan_from(t, 0) {
        Ok(items) => build_spec(items),
        Err(e) => Err(e),
    }
}

pub open spec fn opt_name(o: Option<String>) -> Option<Seq<char>> {
    match o {
        Some(n) => Some(n@),
        None => None,
    }
}

pub(crate) proof fn lemma_lookup_found(fs: Seq<(Seq<char>, Mult)>, name: Seq<char>, k: int)
    ensures
        lookup(fs, name, k) matches Some(x) ==> 0 <= k <= x < fs.len() && fs[x].0 == name,
    decreases fs.len() - k,
{
    if 0 <= k < fs.len() && fs[k].0 != name {
        lemma_lookup_found(fs, name, k + 1);
    }
}

/// The index of the first field named `name`.
fn find_field(fs: &Vec<Field>, name: &String) -> (r: Option<usize>)
    ensures
        match r {
            Some(x) => lookup(fields_view(fs@), name@, 0) == Some(x as int),
            None => lookup(fields_view(fs@), name@, 0) is None,
        },
{
    let mut i: usize = 0;
    while i < fs.len()
        invariant
            i <= fs@.len(),
            lookup(fields_view(fs@), name@, 0) == lookup(fields_view(fs@), name@, i as int),
        decreases fs@.len() - i,
    {
        if fs[i].name == *name {
            return Some(i);
        }
        i = i + 1;
    }
    None
}

/// Resolves one binding, adding its field to the table on first mention.
fn add_binding(fs: &mut Vec<Field>, b: &Binding, scalar: Mult, k: usize) -> (r: Result<usize, GenError>)
    ensures
        match r {
            Ok(x) => bind_field(fields_view(old(fs)@), b@, scalar, k as int) == Ok::<_, GenError>(
                (fields_view(final(fs)@), x),
            ),
            Err(e) => bind_field(fields_view(old(fs)@), b@, scalar, k as int) == Err::<
                (Seq<(Seq<char>, Mult)>, usize),
                GenError,
            >(e),
        },
{
    proof {
        lemma_lookup_found(fields_view(fs@), b.name@, 0);
    }
    match find_field(fs, &b.name) {
        Some(x) => {
            assert(fields_view(fs@)[x as int] == fs@[x as int]@);
            if (fs[x].mult == Mult::Many) == b.vec {
                Ok(x)
            } else {
                Err(GenError::KindConflict(k))
            }
        },
        None => {
            let x = fs.len();
            let mult = if b.vec { Mult::Many } else { scalar };
            let f = Field { name: b.name.clone(), mult };
            fs.push(f);
            proof {
                assert(fields_view(fs@) =~= fields_view(old(fs)@).push(f@));
            }
            Ok(x)
        },
    }
}

/// Resolves every binding of a hole or a `<SEQ>`, in order.
fn resolve_all(fs: &mut Vec<Field>, bs: &Vec<Binding>, scalar: Mult, k: usize) -> (r: Result<
    Vec<usize>,
    GenError,
>)
    ensures
        match r {
            Ok(xs) => resolve(fields_view(old(fs)@), binds_view(bs@), scalar, k as int, 0, seq![])
                == Ok::<_, GenError>((fields_view(final(fs)@), xs@)),
            Err(e) => resolve(fields_view(old(fs)@), binds_view(bs@), scalar, k as int, 0, seq![])
                == Err::<(Seq<(Seq<char>, Mult)>, Seq<usize>), GenError>(e),
        },
{
    let mut xs: Vec<usize> = Vec::new();
    let mut j: usize = 0;
    proof {
        assert(xs@ =~= seq![]);
    }
    while j < bs.len()
        invariant
            j <= bs@.len(),
            resolve(fields_view(old(fs)@), binds_view(bs@), scalar, k as int, 0, seq![]) == resolve(
                fields_view(fs@),
                binds_view(bs@),
                scalar,
                k as int,
                j as int,
                xs@,
            ),
        decreases bs@.len() - j,
    {
        assert(binds_view(bs@)[j as int] == bs@[j as int]@);
        match add_binding(fs, &bs[j], scalar, k) {
            Ok(x) => {
                xs.push(x);
            },
            Err(e) => {
                return Err(e);
            },
        }
        j = j + 1;
    }
    Ok(xs)
}

/// Folds the scanned items into a parser: literal runs become one step,
/// holes and `<SEQ>`s resolve their bindings against the field table, and
/// `<FOR>` names the record. Refuses a template without exactly one `<FOR>`,
/// with unbalanced braces, or with a name bound both as vector and scalar.
pub fn build(items: &Vec<Item>) -> (r: Result<Parser, GenError>)
    ensures
        match r {
            Ok(p) => build_spec(items_view(items@)) == Ok::<_, GenError>(p@),
            Err(e) => build_spec(items_view(items@)) == Err::<ParserV, GenError>(e),
        },
{
    let ghost iv = items_view(items@);
    let mut steps: Vec<Step> = Vec::new();
    let mut fields: Vec<Field> = Vec::new();
    let mut record: Option<String> = None;
    let mut depth: usize = 0;
    let mut k: usize = 0;
    proof {
        assert(steps_view(steps@) =~= seq![]);
        assert(fields_view(fields@) =~= seq![]);
    }
    while k < items.len()
        invariant
            k <= items@.len(),
            depth <= k,
            iv == items_view(items@),
            build_from(iv, 0, empty_build()) == build_from(
                iv,
                k as int,
                Build {
                    steps: steps_view(steps@),
                    fields: fields_view(fields@),
                    record: opt_name(record),
                    depth: depth as nat,
                },
            ),
        decreases items@.len() - k,
    {
        let ghost st = Build {
            steps: steps_view(steps@),
            fields: fields_view(fields@),
            record: opt_name(record),
            depth: depth as nat,
        };
        assert(iv[k as int] == items@[k as int]@);
        match &items[k] {
            Item::Lit(t) => {
                let n = steps.len();
                if n > 0 && matches!(steps[n - 1], Step::Lits(_)) {
                    let last = steps.pop().unwrap();
                    proof {
                        assert(steps_view(steps@.push(last)) =~= st.steps);
                    }
                    match last {
                        Step::Lits(mut v) => {
                            v.push(t.copy());
                            let s2 = Step::Lits(v);
                            proof {
                                assert(steps_view(steps@.push(s2)) =~= add_lit(st.steps, *t));
                            }
                            steps.push(s2);
                        },
                        _ => {},
                    }
                } else {
                    let mut v: Vec<Tok> = Vec::new();
                    v.push(t.copy());
                    let s2 = Step::Lits(v);
                    proof {
                        assert(v@ =~= seq![*t]);
                        assert(steps_view(steps@.push(s2)) =~= add_lit(st.steps, *t));
                    }
                    steps.push(s2);
                }
            },
            Item::Hole(bs, o) => {
                let scalar = if bs.len() == 1 && !*o { Mult::Required } else { Mult::Optional };
                match resolve_all(&mut fields, bs, scalar, k) {
                    Ok(xs) => {
                        let s2 = Step::Hole(xs, *o);
                        proof {
                            assert(steps_view(steps@.push(s2)) =~= st.steps.push(s2@));
                        }
                        steps.push(s2);
                    },
                    Err(e) => {
                        return Err(e);
                    },
                }
            },
            Item::Repeat(bs) => {
                match resolve_all(&mut fields, bs, Mult::Optional, k) {
                    Ok(xs) => {
                        let s2 = Step::Repeat(xs);
                        proof {
                            assert(steps_view(steps@.push(s2)) =~= st.steps.push(s2@));
                        }
                        steps.push(s2);
                    },
                    Err(e) => {
                        return Err(e);
                    },
                }
            },
            Item::For(n) => {
                if record.is_some() {
                    return Err(GenError::ExtraFor(k));
                }
                record = Some(n.clone());
            },
            Item::Open => {
                proof {
                    assert(steps_view(steps@.push(Step::Open)) =~= st.steps.push(StepV::Open));
                }
                steps.push(Step::Open);
                depth = depth + 1;
            },
            Item::Close => {
                if depth == 0 {
                    return Err(GenError::Unbalanced(k));
                }
                proof {
                    assert(steps_view(steps@.push(Step::Close)) =~= st.steps.push(StepV::Close));
                }
                steps.push(Step::Close);
                depth = depth - 1;
            },
        }
        k = k + 1;
    }
    match record {
        None => Err(GenError::NoFor),
        Some(name) => {
            if depth != 0 {
                Err(GenError::Unbalanced(items.len()))
            } else {
                Ok(Parser { record: name, fields, steps })
            }
        },
    }
}

/// Generates the parser that a template describes: scans the template's
/// tokens, then builds the model. No parser comes out of a template that
/// has no `<FOR>`, or that breaks the header grammar.
pub fn quote_template(t: &Vec<Tok>) -> (r: Result<Parser, GenError>)
    ensures
        match r {
            Ok(p) => generate_spec(t@) == Ok::<_, GenError>(p@),
            Err(e) => generate_spec(t@) == Err::<ParserV, GenError>(e),
        },
{
    match scan(t) {
        Ok(items) => build(&items),
        Err(e) => Err(e),
    }
}

} // verus!
