//! Properties that hold of every template and every input.

use vstd::prelude::*;
use crate::token::{Tok, TokKind, Delim, same_text, is_brace, balance, nested};
use crate::model::{
    Build, Mult, StepV, bind_field, build_from, build_item, empty_build, generate_spec, lookup,
    resolve,
};
use crate::scan::{ItemV, scan_from};
use crate::run::{
    ValueV, caps, cap_end, fill, first_alt, kind_at, lits_from, parse_spec, repeat_from, run_from,
    run_step, value_of,
};

verus! {

/// Generation is a function of the template alone: two parsers generated
/// from one template are the same parser, and give the same result on every
/// input from every position.
pub proof fn law_generation_deterministic(
    t1: Seq<Tok>,
    t2: Seq<Tok>,
    ends: Seq<Vec<Option<usize>>>,
    input: Seq<Tok>,
    pos: int,
)
    requires
        t1 == t2,
        generate_spec(t1) is Ok,
    ensures
        generate_spec(t2) == generate_spec(t1),
        parse_spec(generate_spec(t1)->Ok_0, ends, input, pos) == parse_spec(
            generate_spec(t2)->Ok_0,
            ends,
            input,
            pos,
        ),
{
}

/// A literal matches an input token that renders the same and is not a
/// brace of a block.
pub open spec fn lit_ok(l: Tok, t: Tok) -> bool {
    same_text(l, t) && !is_brace(t)
}

/// A run of literals succeeds exactly when each of its tokens matches the
/// input token at the corresponding position, and then it consumes exactly
/// those tokens.
pub proof fn law_literals_consumed(ts: Seq<Tok>, input: Seq<Tok>, pos: int)
    requires
        0 <= pos <= input.len(),
    ensures
        lits_from(ts, input, pos, 0) is Ok <==> (pos + ts.len() <= input.len() && forall|j: int|
            0 <= j < ts.len() ==> lit_ok(#[trigger] ts[j], input[pos + j])),
        lits_from(ts, input, pos, 0) matches Ok(q) ==> q == pos + ts.len(),
{
    lemma_lits_from(ts, input, pos, 0);
}

proof fn lemma_lits_from(ts: Seq<Tok>, input: Seq<Tok>, pos: int, j: int)
    requires
        0 <= pos <= input.len(),
        0 <= j <= ts.len(),
    ensures
        lits_from(ts, input, pos, j) is Ok <==> (pos + ts.len() - j <= input.len() && forall|i: int|
            j <= i < ts.len() ==> lit_ok(#[trigger] ts[i], input[pos + i - j])),
        lits_from(ts, input, pos, j) matches Ok(q) ==> q == pos + ts.len() - j,
    decreases ts.len() - j,
{
    if j < ts.len() {
        if pos < input.len() {
            lemma_lits_from(ts, input, pos + 1, j + 1);
        }
        let all_j = forall|i: int| j <= i < ts.len() ==> lit_ok(#[trigger] ts[i], input[pos + i - j]);
        let all_j1 = forall|i: int|
            j + 1 <= i < ts.len() ==> lit_ok(#[trigger] ts[i], input[pos + 1 + i - (j + 1)]);
        if pos < input.len() && lit_ok(ts[j], input[pos]) {
            if all_j1 {
                assert forall|i: int| j <= i < ts.len() implies lit_ok(#[trigger] ts[i], input[pos + i - j]) by {
                    if i > j {
                        assert(lit_ok(ts[i], input[pos + 1 + i - (j + 1)]));
                    }
                }
            }
            if all_j {
                assert forall|i: int| j + 1 <= i < ts.len() implies lit_ok(
                    #[trigger] ts[i],
                    input[pos + 1 + i - (j + 1)],
                ) by {
                    assert(lit_ok(ts[i], input[pos + i - j]));
                }
            }
        } else {
            if pos + ts.len() - j <= input.len() && all_j {
                assert(lit_ok(ts[j], input[pos + j - j]));
            }
        }
    }
}

/// Alternatives are tried in declaration order: the one chosen at `pos` is
/// the first whose field accepts a value there, with that value's end; and
/// none is chosen only when no alternative accepts one.
pub proof fn law_first_in_order(xs: Seq<usize>, ends: Seq<Vec<Option<usize>>>, input: Seq<Tok>, pos: int)
    ensures
        first_alt(xs, ends, input, pos, 0) matches Some((f, e)) ==> exists|j: int|
            0 <= j < xs.len() && xs[j] == f && cap_end(ends, input, xs[j], pos) == Some(e) && forall|
                i: int,
            | 0 <= i < j ==> (#[trigger] cap_end(ends, input, xs[i], pos)) is None,
        first_alt(xs, ends, input, pos, 0) is None ==> forall|i: int|
            0 <= i < xs.len() ==> (#[trigger] cap_end(ends, input, xs[i], pos)) is None,
{
    lemma_first_in_order(xs, ends, input, pos, 0);
}

proof fn lemma_first_in_order(xs: Seq<usize>, ends: Seq<Vec<Option<usize>>>, input: Seq<Tok>, pos: int, k: int)
    requires
        0 <= k <= xs.len(),
        forall|i: int| 0 <= i < k ==> (#[trigger] cap_end(ends, input, xs[i], pos)) is None,
    ensures
        first_alt(xs, ends, input, pos, k) matches Some((f, e)) ==> exists|j: int|
            0 <= j < xs.len() && xs[j] == f && cap_end(ends, input, xs[j], pos) == Some(e) && forall|
                i: int,
            | 0 <= i < j ==> (#[trigger] cap_end(ends, input, xs[i], pos)) is None,
        first_alt(xs, ends, input, pos, k) is None ==> forall|i: int|
            0 <= i < xs.len() ==> (#[trigger] cap_end(ends, input, xs[i], pos)) is None,
    decreases xs.len() - k,
{
    if k < xs.len() {
        if cap_end(ends, input, xs[k], pos) is None {
            lemma_first_in_order(xs, ends, input, pos, k + 1);
        }
    }
}

/// A hole either captures, for the first of its alternatives that accepts
/// a value at the cursor, the tokens of that value (at least one), and
/// moves past them; or, when none accepts one and the hole is optional,
/// leaves cursor and captures as they were; or, when none accepts one and
/// the hole is required, fails.
pub proof fn law_hole_capture(
    xs: Seq<usize>,
    o: bool,
    ends: Seq<Vec<Option<usize>>>,
    input: Seq<Tok>,
    pos: int,
    log: Seq<(usize, usize, usize)>,
)
    ensures
        match run_step(StepV::Hole(xs, o), ends, input, pos, log) {
            Ok((q, l)) => match first_alt(xs, ends, input, pos, 0) {
                Some((f, e)) => 0 <= pos < e <= input.len() && q == e && l == log.push(
                    (f, pos as usize, e),
                ) && xs.contains(f) && cap_end(ends, input, f, pos) == Some(e),
                None => o && q == pos && l == log,
            },
            Err(_) => !o && first_alt(xs, ends, input, pos, 0) is None,
        },
{
    crate::run::lemma_first_alt_found(xs, ends, input, pos, 0);
}

/// A `<SEQ>` loop ends: each round commits at least one token, capturing
/// the value of the first alternative that accepts one where the round
/// starts, and the rounds follow each other without gap; the loop stops
/// where no alternative accepts a value, or at the end of the input. The
/// captures are appended to those before, one per round.
pub proof fn law_sequence_progress(
    xs: Seq<usize>,
    ends: Seq<Vec<Option<usize>>>,
    input: Seq<Tok>,
    pos: int,
    log: Seq<(usize, usize, usize)>,
)
    requires
        0 <= pos <= input.len(),
    ensures
        ({
            let (q, l) = repeat_from(xs, ends, input, pos, log);
            &&& pos <= q <= input.len()
            &&& log.len() <= l.len()
            &&& l.subrange(0, log.len() as int) == log
            &&& l.len() == log.len() ==> q == pos
            &&& l.len() > log.len() ==> l[log.len() as int].1 == pos && l.last().2 == q
            &&& forall|i: int|
                log.len() <= i < l.len() ==> (#[trigger] l[i]).1 < l[i].2 && first_alt(
                    xs,
                    ends,
                    input,
                    l[i].1 as int,
                    0,
                ) == Some((l[i].0, l[i].2))
            &&& forall|i: int| log.len() <= i < l.len() - 1 ==> (#[trigger] l[i]).2 == l[i + 1].1
            &&& (q >= input.len() || first_alt(xs, ends, input, q, 0) is None)
        }),
    decreases input.len() - pos,
{
    if pos < input.len() {
        crate::run::lemma_first_alt_found(xs, ends, input, pos, 0);
        if let Some((f, e)) = first_alt(xs, ends, input, pos, 0) {
            let log2 = log.push((f, pos as usize, e));
            law_sequence_progress(xs, ends, input, e as int, log2);
            let (q, l) = repeat_from(xs, ends, input, e as int, log2);
            assert(l.subrange(0, log.len() as int) =~= l.subrange(0, log2.len() as int).subrange(
                0,
                log.len() as int,
            ));
            assert(l[log.len() as int] == l.subrange(0, log2.len() as int)[log.len() as int]);
            assert forall|i: int| log.len() <= i < l.len() - 1 implies (#[trigger] l[i]).2 == l[i + 1].1 by {
                if i == log.len() && l.len() > log2.len() {
                    assert(l[log2.len() as int].1 == e);
                }
            }
        }
    }
}

/// Each field's value follows its multiplicity: a vector field holds the
/// tokens of every capture made for it, in order, so its length is the
/// number of captures; an optional field holds the last capture, and is
/// filled exactly when a capture was made; a required field holds the last
/// capture, and the record is built only when there is one.
pub proof fn law_multiplicity(fields: Seq<(Seq<char>, Mult)>, input: Seq<Tok>, log: Seq<(usize, usize, usize)>)
    ensures
        fill(fields, input, log, 0, seq![]) matches Ok(vals) ==> {
            &&& vals.len() == fields.len()
            &&& forall|f: int|
                0 <= f < fields.len() ==> {
                    let cs = caps(log, f as usize);
                    match (#[trigger] fields[f]).1 {
                        Mult::Many => vals[f] == ValueV::Many(crate::run::pieces(input, cs))
                            && crate::run::pieces(input, cs).len() == cs.len(),
                        Mult::Optional => vals[f] == ValueV::Maybe(
                            if cs.len() > 0 { Some(crate::run::piece(input, cs.last())) } else { None },
                        ),
                        Mult::Required => cs.len() > 0 && vals[f] == ValueV::One(
                            crate::run::piece(input, cs.last()),
                        ),
                    }
                }
        },
        fill(fields, input, log, 0, seq![]) is Err ==> exists|f: int|
            0 <= f < fields.len() && fields[f].1 == Mult::Required && caps(log, f as usize).len() == 0,
{
    lemma_fill(fields, input, log, 0, seq![]);
    assert forall|f: int| #![trigger caps(log, f as usize)] 0 <= f < fields.len() implies crate::run::pieces(input, caps(log, f as usize)).len()
        == caps(log, f as usize).len() by {
        lemma_pieces_len(input, caps(log, f as usize));
    }
}

proof fn lemma_pieces_len(input: Seq<Tok>, rs: Seq<(usize, usize)>)
    ensures
        crate::run::pieces(input, rs).len() == rs.len(),
    decreases rs.len(),
{
    if rs.len() > 0 {
        lemma_pieces_len(input, rs.drop_last());
    }
}

proof fn lemma_fill(
    fields: Seq<(Seq<char>, Mult)>,
    input: Seq<Tok>,
    log: Seq<(usize, usize, usize)>,
    j: int,
    acc: Seq<ValueV>,
)
    requires
        0 <= j <= fields.len(),
        acc.len() == j,
    ensures
        fill(fields, input, log, j, acc) matches Ok(vals) ==> {
            &&& vals.len() == fields.len()
            &&& vals.subrange(0, j) == acc
            &&& forall|f: int|
                j <= f < fields.len() ==> value_of(fields[f].1, input, caps(log, f as usize)) == Some(
                    #[trigger] vals[f],
                )
        },
        fill(fields, input, log, j, acc) is Err ==> exists|f: int|
            j <= f < fields.len() && fields[f].1 == Mult::Required && caps(log, f as usize).len() == 0,
    decreases fields.len() - j,
{
    if j < fields.len() {
        match value_of(fields[j].1, input, caps(log, j as usize)) {
            Some(v) => {
                lemma_fill(fields, input, log, j + 1, acc.push(v));
                if let Ok(vals) = fill(fields, input, log, j, acc) {
                    assert(vals.subrange(0, j) =~= vals.subrange(0, j + 1).subrange(0, j));
                    assert(vals[j] == vals.subrange(0, j + 1)[j]);
                }
            },
            None => {},
        }
    }
}

/// What a step adds to the block depth.
pub open spec fn step_delta(s: StepV) -> int {
    match s {
        StepV::Open => 1,
        StepV::Close => -1,
        _ => 0,
    }
}

/// Blocks opened less blocks closed by the steps.
pub open spec fn steps_balance(steps: Seq<StepV>) -> int
    decreases steps.len(),
{
    if steps.len() == 0 {
        0
    } else {
        steps_balance(steps.drop_last()) + step_delta(steps.last())
    }
}

proof fn lemma_balance_split(input: Seq<Tok>, a: int, b: int, c: int)
    requires
        a <= b <= c,
    ensures
        balance(input, a, c) == balance(input, a, b) + balance(input, b, c),
    decreases c - b,
{
    if b < c {
        lemma_balance_split(input, a, b, c - 1);
    }
}

proof fn lemma_balance_zero(input: Seq<Tok>, a: int, b: int)
    requires
        forall|i: int| a <= i < b ==> !is_brace(#[trigger] input[i]),
    ensures
        balance(input, a, b) == 0,
    decreases b - a,
{
    if a < b {
        lemma_balance_zero(input, a, b - 1);
    }
}

/// Each step consumes, net, the braces it stands for: a block's opening
/// step one opening brace, its closing step one closing brace, and any other
/// step (literals, which never match a brace, and captures, which cover
/// whole brace groups) none at all. The closing step of a block succeeds
/// exactly on a closing brace.
pub proof fn law_step_braces(
    s: StepV,
    ends: Seq<Vec<Option<usize>>>,
    input: Seq<Tok>,
    pos: int,
    log: Seq<(usize, usize, usize)>,
)
    requires
        0 <= pos <= input.len(),
    ensures
        run_step(s, ends, input, pos, log) matches Ok((q, l)) ==> pos <= q <= input.len() && balance(
            input,
            pos,
            q,
        ) == step_delta(s),
        s is Close ==> (run_step(s, ends, input, pos, log) is Ok <==> kind_at(
            input,
            pos,
            TokKind::Close(Delim::Brace),
        )),
{
    match s {
        StepV::Lits(ts) => {
            law_literals_consumed(ts, input, pos);
            if let Ok(q) = lits_from(ts, input, pos, 0) {
                assert forall|i: int| pos <= i < q implies !is_brace(#[trigger] input[i]) by {
                    assert(lit_ok(ts[i - pos], input[pos + (i - pos)]));
                }
                lemma_balance_zero(input, pos, q);
            }
        },
        StepV::Hole(xs, o) => {
            law_hole_capture(xs, o, ends, input, pos, log);
        },
        StepV::Repeat(xs) => {
            lemma_repeat_balance(xs, ends, input, pos, log);
        },
        StepV::Open => {
            if run_step(s, ends, input, pos, log) is Ok {
                assert(balance(input, pos, pos + 1) == balance(input, pos, pos) + 1);
            }
        },
        StepV::Close => {
            if run_step(s, ends, input, pos, log) is Ok {
                assert(balance(input, pos, pos + 1) == balance(input, pos, pos) - 1);
            }
        },
    }
}

proof fn lemma_repeat_balance(
    xs: Seq<usize>,
    ends: Seq<Vec<Option<usize>>>,
    input: Seq<Tok>,
    pos: int,
    log: Seq<(usize, usize, usize)>,
)
    requires
        0 <= pos <= input.len(),
    ensures
        ({
            let (q, l) = repeat_from(xs, ends, input, pos, log);
            pos <= q <= input.len() && balance(input, pos, q) == 0
        }),
    decreases input.len() - pos,
{
    if pos < input.len() {
        crate::run::lemma_first_alt_found(xs, ends, input, pos, 0);
        if let Some((f, e)) = first_alt(xs, ends, input, pos, 0) {
            lemma_repeat_balance(xs, ends, input, e as int, log.push((f, pos as usize, e)));
            let (q, l) = repeat_from(xs, ends, input, pos, log);
            lemma_balance_split(input, pos, e as int, q);
        }
    }
}

/// Every required field of the table has a hole of its own: a step that
/// captures it alone and is not optional.
pub open spec fn required_have_holes(fields: Seq<(Seq<char>, Mult)>, steps: Seq<StepV>) -> bool {
    forall|f: int|
        0 <= f < fields.len() && (#[trigger] fields[f]).1 == Mult::Required ==> exists|k: int|
            0 <= k < steps.len() && steps[k] == StepV::Hole(seq![f as usize], false)
}

/// Resolving bindings only appends fields, each a vector or of the given
/// scalar multiplicity.
proof fn lemma_resolve(
    fs: Seq<(Seq<char>, Mult)>,
    bs: Seq<(Seq<char>, bool)>,
    scalar: Mult,
    k: int,
    j: int,
    acc: Seq<usize>,
)
    requires
        0 <= j <= bs.len(),
    ensures
        resolve(fs, bs, scalar, k, j, acc) matches Ok((fs2, xs)) ==> {
            &&& fs.len() <= fs2.len()
            &&& fs2.subrange(0, fs.len() as int) == fs
            &&& forall|i: int|
                fs.len() <= i < fs2.len() ==> (#[trigger] fs2[i]).1 == Mult::Many || fs2[i].1 == scalar
            &&& xs.len() == acc.len() + bs.len() - j
            &&& xs.subrange(0, acc.len() as int) == acc
            &&& (j + 1 == bs.len() && fs2.len() > fs.len()) ==> fs2.len() == fs.len() + 1
                && xs.last() == fs.len() as usize
        },
    decreases bs.len() - j,
{
    if j < bs.len() {
        crate::model::lemma_lookup_found(fs, bs[j].0, 0);
        if let Ok((fs1, x)) = bind_field(fs, bs[j], scalar, k) {
            lemma_resolve(fs1, bs, scalar, k, j + 1, acc.push(x));
            if let Ok((fs2, xs)) = resolve(fs, bs, scalar, k, j, acc) {
                assert(fs2.subrange(0, fs.len() as int) =~= fs2.subrange(0, fs1.len() as int).subrange(
                    0,
                    fs.len() as int,
                ));
                assert(xs.subrange(0, acc.len() as int) =~= xs.subrange(0, acc.len() as int + 1).subrange(
                    0,
                    acc.len() as int,
                ));
                assert forall|i: int| fs.len() <= i < fs2.len() implies (#[trigger] fs2[i]).1
                    == Mult::Many || fs2[i].1 == scalar by {
                    if i < fs1.len() {
                        assert(fs2[i] == fs2.subrange(0, fs1.len() as int)[i]);
                    }
                }
                if j + 1 == bs.len() {
                    assert(xs[acc.len() as int] == xs.subrange(0, acc.len() as int + 1)[acc.len() as int]);
                }
            }
        }
    } else {
        assert(fs.subrange(0, fs.len() as int) =~= fs);
        assert(acc.subrange(0, acc.len() as int) =~= acc);
    }
}

/// The builder keeps a hole for every required field.
proof fn lemma_build_item(st: Build, it: ItemV, k: int)
    requires
        required_have_holes(st.fields, st.steps),
    ensures
        build_item(st, it, k) matches Ok(st2) ==> required_have_holes(st2.fields, st2.steps),
{
    if let Ok(st2) = build_item(st, it, k) {
        match it {
            ItemV::Lit(t) => {
                assert forall|f: int|
                    0 <= f < st2.fields.len() && (#[trigger] st2.fields[f]).1 == Mult::Required implies exists|
                    k2: int,
                | 0 <= k2 < st2.steps.len() && st2.steps[k2] == StepV::Hole(seq![f as usize], false) by {
                    let k1 = choose|k1: int|
                        0 <= k1 < st.steps.len() && st.steps[k1] == StepV::Hole(seq![f as usize], false);
                    assert(st2.steps[k1] == st.steps[k1]);
                }
            },
            ItemV::Hole(bs, o) => {
                let scalar = if bs.len() == 1 && !o { Mult::Required } else { Mult::Optional };
                lemma_resolve(st.fields, bs, scalar, k, 0, seq![]);
                let (fs2, xs) = resolve(st.fields, bs, scalar, k, 0, seq![])->Ok_0;
                assert forall|f: int|
                    0 <= f < st2.fields.len() && (#[trigger] st2.fields[f]).1 == Mult::Required implies exists|
                    k2: int,
                | 0 <= k2 < st2.steps.len() && st2.steps[k2] == StepV::Hole(seq![f as usize], false) by {
                    if f < st.fields.len() {
                        assert(st2.fields[f] == fs2.subrange(0, st.fields.len() as int)[f]);
                        let k1 = choose|k1: int|
                            0 <= k1 < st.steps.len() && st.steps[k1] == StepV::Hole(seq![f as usize], false);
                        assert(st2.steps[k1] == st.steps[k1]);
                    } else {
                        assert(xs =~= seq![f as usize]);
                        assert(st2.steps[st.steps.len() as int] == StepV::Hole(seq![f as usize], false));
                    }
                }
            },
            ItemV::Repeat(bs) => {
                lemma_resolve(st.fields, bs, Mult::Optional, k, 0, seq![]);
                let (fs2, xs) = resolve(st.fields, bs, Mult::Optional, k, 0, seq![])->Ok_0;
                assert forall|f: int|
                    0 <= f < st2.fields.len() && (#[trigger] st2.fields[f]).1 == Mult::Required implies exists|
                    k2: int,
                | 0 <= k2 < st2.steps.len() && st2.steps[k2] == StepV::Hole(seq![f as usize], false) by {
                    assert(st2.fields[f] == fs2.subrange(0, st.fields.len() as int)[f]);
                    let k1 = choose|k1: int|
                        0 <= k1 < st.steps.len() && st.steps[k1] == StepV::Hole(seq![f as usize], false);
                    assert(st2.steps[k1] == st.steps[k1]);
                }
            },
            _ => {
                assert forall|f: int|
                    0 <= f < st2.fields.len() && (#[trigger] st2.fields[f]).1 == Mult::Required implies exists|
                    k2: int,
                | 0 <= k2 < st2.steps.len() && st2.steps[k2] == StepV::Hole(seq![f as usize], false) by {
                    let k1 = choose|k1: int|
                        0 <= k1 < st.steps.len() && st.steps[k1] == StepV::Hole(seq![f as usize], false);
                    assert(st2.steps[k1] == st.steps[k1]);
                }
            },
        }
    }
}

proof fn lemma_build_from(items: Seq<ItemV>, k: int, st: Build)
    requires
        required_have_holes(st.fields, st.steps),
    ensures
        build_from(items, k, st) matches Ok(st2) ==> required_have_holes(st2.fields, st2.steps),
    decreases items.len() - k,
{
    if 0 <= k < items.len() {
        lemma_build_item(st, items[k], k);
        if let Ok(st2) = build_item(st, items[k], k) {
            lemma_build_from(items, k + 1, st2);
        }
    }
}

/// A step never drops the captures made before it.
proof fn lemma_step_extends(
    s: StepV,
    ends: Seq<Vec<Option<usize>>>,
    input: Seq<Tok>,
    pos: int,
    log: Seq<(usize, usize, usize)>,
)
    requires
        0 <= pos <= input.len(),
    ensures
        run_step(s, ends, input, pos, log) matches Ok((q, l)) ==> log.len() <= l.len() && l.subrange(
            0,
            log.len() as int,
        ) == log && 0 <= q <= input.len(),
        (s is Hole && s->Hole_0.len() == 1 && !s->Hole_1) ==> (run_step(s, ends, input, pos, log) matches Ok(
            (q, l),
        ) ==> l.len() == log.len() + 1 && l[log.len() as int].0 == s->Hole_0[0]),
{
    law_step_braces(s, ends, input, pos, log);
    match s {
        StepV::Hole(xs, o) => {
            law_hole_capture(xs, o, ends, input, pos, log);
            if let Ok((q, l)) = run_step(s, ends, input, pos, log) {
                assert(l.subrange(0, log.len() as int) =~= log);
                if let Some((f, e)) = first_alt(xs, ends, input, pos, 0) {
                    if xs.len() == 1 {
                        assert(xs.contains(f));
                        let w = choose|w: int| 0 <= w < xs.len() && xs[w] == f;
                        assert(w == 0);
                    }
                }
            }
        },
        StepV::Repeat(xs) => {
            law_sequence_progress(xs, ends, input, pos, log);
        },
        _ => {
            if let Ok((q, l)) = run_step(s, ends, input, pos, log) {
                assert(l.subrange(0, log.len() as int) =~= log);
            }
        },
    }
}

/// A required hole of a single binding that the run passes leaves a
/// capture of its field in the log.
proof fn lemma_run_holes(
    steps: Seq<StepV>,
    ends: Seq<Vec<Option<usize>>>,
    input: Seq<Tok>,
    k: int,
    pos: int,
    log: Seq<(usize, usize, usize)>,
)
    requires
        0 <= k,
        0 <= pos <= input.len(),
    ensures
        run_from(steps, ends, input, k, pos, log) matches Ok((q, l)) ==> {
            &&& log.len() <= l.len()
            &&& l.subrange(0, log.len() as int) == log
            &&& forall|k2: int|
                k <= k2 < steps.len() && (#[trigger] steps[k2]) is Hole && steps[k2]->Hole_0.len() == 1
                    && !steps[k2]->Hole_1 ==> exists|i: int|
                    0 <= i < l.len() && (#[trigger] l[i]).0 == steps[k2]->Hole_0[0]
        },
    decreases steps.len() - k,
{
    if k < steps.len() {
        lemma_step_extends(steps[k], ends, input, pos, log);
        if let Ok((p1, l1)) = run_step(steps[k], ends, input, pos, log) {
            lemma_run_holes(steps, ends, input, k + 1, p1, l1);
            if let Ok((q, l)) = run_from(steps, ends, input, k, pos, log) {
                assert(l.subrange(0, log.len() as int) =~= l.subrange(0, l1.len() as int).subrange(
                    0,
                    log.len() as int,
                ));
                assert forall|k2: int|
                    k <= k2 < steps.len() && (#[trigger] steps[k2]) is Hole && steps[k2]->Hole_0.len() == 1
                        && !steps[k2]->Hole_1 implies exists|i: int|
                    0 <= i < l.len() && (#[trigger] l[i]).0 == steps[k2]->Hole_0[0] by {
                    if k2 == k {
                        assert(l[log.len() as int] == l.subrange(0, l1.len() as int)[log.len() as int]);
                    }
                }
            }
        }
    } else {
        if let Ok((q, l)) = run_from(steps, ends, input, k, pos, log) {
            assert(l.subrange(0, log.len() as int) =~= log);
        }
    }
}

proof fn lemma_caps_nonempty(log: Seq<(usize, usize, usize)>, f: usize, i: int)
    requires
        0 <= i < log.len(),
        log[i].0 == f,
    ensures
        caps(log, f).len() > 0,
    decreases log.len(),
{
    if i < log.len() - 1 {
        assert(log.drop_last()[i] == log[i]);
        lemma_caps_nonempty(log.drop_last(), f, i);
    }
}

/// A parser generated from a template never fails for want of a required
/// field: whenever its reading body succeeds, every required field has been
/// captured, and the record is built.
pub proof fn law_required_filled(
    t: Seq<Tok>,
    ends: Seq<Vec<Option<usize>>>,
    input: Seq<Tok>,
    pos: int,
)
    requires
        generate_spec(t) is Ok,
        0 <= pos <= input.len(),
    ensures
        ({
            let p = generate_spec(t)->Ok_0;
            run_from(p.steps, ends, input, 0, pos, seq![]) matches Ok((q, log)) ==> fill(
                p.fields,
                input,
                log,
                0,
                seq![],
            ) is Ok
        }),
{
    let items = scan_from(t, 0)->Ok_0;
    assert(required_have_holes(empty_build().fields, empty_build().steps));
    lemma_build_from(items, 0, empty_build());
    let p = generate_spec(t)->Ok_0;
    lemma_run_holes(p.steps, ends, input, 0, pos, seq![]);
    if let Ok((q, log)) = run_from(p.steps, ends, input, 0, pos, seq![]) {
        law_multiplicity(p.fields, input, log);
        if fill(p.fields, input, log, 0, seq![]) is Err {
            let f = choose|f: int|
                0 <= f < p.fields.len() && p.fields[f].1 == Mult::Required && caps(log, f as usize).len()
                    == 0;
            assert(p.fields[f].1 == Mult::Required);
            let k = choose|k: int| 0 <= k < p.steps.len() && p.steps[k] == StepV::Hole(seq![f as usize], false);
            assert(p.steps[k]->Hole_0[0] == f as usize);
            let i = choose|i: int| 0 <= i < log.len() && (#[trigger] log[i]).0 == f as usize;
            lemma_caps_nonempty(log, f as usize, i);
        }
    }
}

proof fn lemma_steps_balance_front(s: StepV, rest: Seq<StepV>)
    ensures
        steps_balance(seq![s] + rest) == step_delta(s) + steps_balance(rest),
    decreases rest.len(),
{
    if rest.len() > 0 {
        assert((seq![s] + rest).drop_last() =~= seq![s] + rest.drop_last());
        assert((seq![s] + rest).last() == rest.last());
        lemma_steps_balance_front(s, rest.drop_last());
    } else {
        assert((seq![s] + rest).drop_last() =~= seq![]);
        assert((seq![s] + rest).last() == s);
        assert(steps_balance(seq![]) == 0);
    }
}

/// A successful run consumes as many braces, net, as its steps open.
proof fn lemma_run_balance(
    steps: Seq<StepV>,
    ends: Seq<Vec<Option<usize>>>,
    input: Seq<Tok>,
    k: int,
    pos: int,
    log: Seq<(usize, usize, usize)>,
)
    requires
        0 <= k <= steps.len(),
        0 <= pos <= input.len(),
    ensures
        run_from(steps, ends, input, k, pos, log) matches Ok((q, l)) ==> pos <= q <= input.len()
            && balance(input, pos, q) == steps_balance(steps.subrange(k, steps.len() as int)),
    decreases steps.len() - k,
{
    if k < steps.len() {
        let s = steps[k];
        law_step_braces(s, ends, input, pos, log);
        if let Ok((p1, l1)) = run_step(s, ends, input, pos, log) {
            lemma_run_balance(steps, ends, input, k + 1, p1, l1);
            assert(steps.subrange(k, steps.len() as int) =~= seq![s] + steps.subrange(
                k + 1,
                steps.len() as int,
            ));
            lemma_steps_balance_front(s, steps.subrange(k + 1, steps.len() as int));
            if let Ok((q, l)) = run_from(steps, ends, input, k, pos, log) {
                lemma_balance_split(input, pos, p1, q);
            }
        }
    } else {
        assert(steps.subrange(k, steps.len() as int) =~= seq![]);
    }
}

/// The builder's depth counts the blocks its steps leave open.
proof fn lemma_build_depth(items: Seq<ItemV>, k: int, st: Build)
    requires
        st.depth == steps_balance(st.steps),
    ensures
        build_from(items, k, st) matches Ok(st2) ==> st2.depth == steps_balance(st2.steps),
    decreases items.len() - k,
{
    if 0 <= k < items.len() {
        if let Ok(st2) = build_item(st, items[k], k) {
            if st2.steps.len() == st.steps.len() + 1 {
                assert(st2.steps.drop_last() =~= st.steps);
            } else if st2.steps.len() == st.steps.len() && st.steps.len() > 0 {
                assert(st2.steps.drop_last() =~= st.steps.drop_last());
            } else {
                assert(st2.steps =~= st.steps);
            }
            lemma_build_depth(items, k + 1, st2);
        }
    }
}

/// No prefix of the steps closes more blocks than it opened.
pub open spec fn prefixes_nonneg(steps: Seq<StepV>) -> bool {
    forall|m: int| 0 <= m <= steps.len() ==> steps_balance(#[trigger] steps.subrange(0, m)) >= 0
}

/// The builder's steps never close a block that is not open.
proof fn lemma_build_prefixes(items: Seq<ItemV>, k: int, st: Build)
    requires
        st.depth == steps_balance(st.steps),
        prefixes_nonneg(st.steps),
    ensures
        build_from(items, k, st) matches Ok(st2) ==> prefixes_nonneg(st2.steps),
    decreases items.len() - k,
{
    if 0 <= k < items.len() {
        if let Ok(st2) = build_item(st, items[k], k) {
            assert(st2.depth == steps_balance(st2.steps)) by {
                if st2.steps.len() == st.steps.len() + 1 {
                    assert(st2.steps.drop_last() =~= st.steps);
                } else if st2.steps.len() == st.steps.len() && st.steps.len() > 0 {
                    assert(st2.steps.drop_last() =~= st.steps.drop_last());
                } else {
                    assert(st2.steps =~= st.steps);
                }
            }
            assert forall|m: int| 0 <= m <= st2.steps.len() implies steps_balance(
                #[trigger] st2.steps.subrange(0, m),
            ) >= 0 by {
                if m == st2.steps.len() {
                    assert(st2.steps.subrange(0, m) =~= st2.steps);
                } else {
                    assert(m <= st.steps.len());
                    if st2.steps.len() == st.steps.len() + 1 {
                        assert(st2.steps.subrange(0, m) =~= st.steps.subrange(0, m));
                    } else if st2.steps.len() == st.steps.len() {
                        assert(st2.steps.subrange(0, m) =~= st.steps.subrange(0, m));
                    } else {
                        assert(st2.steps =~= st.steps);
                    }
                }
            }
            lemma_build_prefixes(items, k + 1, st2);
        }
    }
}

/// Blocks nest in the input as they do in the template. The first `m`
/// steps of a generated parser consume, net, as many opening braces as they
/// leave blocks open, and never more closing braces than opening ones: so
/// the closing step of a block meets the brace that closes the group its
/// opening step entered, after the nested steps have read every token inside
/// it. After all the steps the consumed input is brace-balanced.
pub proof fn law_blocks_nested(
    t: Seq<Tok>,
    ends: Seq<Vec<Option<usize>>>,
    input: Seq<Tok>,
    pos: int,
    m: int,
)
    requires
        generate_spec(t) is Ok,
        0 <= pos <= input.len(),
        0 <= m <= generate_spec(t)->Ok_0.steps.len(),
    ensures
        ({
            let steps = generate_spec(t)->Ok_0.steps;
            run_from(steps.subrange(0, m), ends, input, 0, pos, seq![]) matches Ok((q, l)) ==> {
                &&& balance(input, pos, q) == steps_balance(steps.subrange(0, m))
                &&& balance(input, pos, q) >= 0
                &&& m == steps.len() ==> balance(input, pos, q) == 0
            }
        }),
{
    let items = scan_from(t, 0)->Ok_0;
    assert(prefixes_nonneg(empty_build().steps)) by {
        assert forall|m: int| 0 <= m <= 0 implies steps_balance(
            #[trigger] empty_build().steps.subrange(0, m),
        ) >= 0 by {
            assert(empty_build().steps.subrange(0, m) =~= seq![]);
        }
    }
    lemma_build_depth(items, 0, empty_build());
    lemma_build_prefixes(items, 0, empty_build());
    let steps = generate_spec(t)->Ok_0.steps;
    let sub = steps.subrange(0, m);
    lemma_run_balance(sub, ends, input, 0, pos, seq![]);
    assert(sub.subrange(0, sub.len() as int) =~= sub);
    assert(steps.subrange(0, steps.len() as int) =~= steps);
}

/// No two fields of the table share a name.
pub open spec fn names_unique(fs: Seq<(Seq<char>, Mult)>) -> bool {
    forall|i: int, j: int| 0 <= i < j < fs.len() ==> (#[trigger] fs[i]).0 != (#[trigger] fs[j]).0
}

proof fn lemma_lookup_none(fs: Seq<(Seq<char>, Mult)>, name: Seq<char>, k: int)
    requires
        0 <= k,
    ensures
        lookup(fs, name, k) is None ==> forall|i: int| k <= i < fs.len() ==> (#[trigger] fs[i]).0 != name,
    decreases fs.len() - k,
{
    if k < fs.len() && fs[k].0 != name {
        lemma_lookup_none(fs, name, k + 1);
    }
}

proof fn lemma_resolve_unique(
    fs: Seq<(Seq<char>, Mult)>,
    bs: Seq<(Seq<char>, bool)>,
    scalar: Mult,
    k: int,
    j: int,
    acc: Seq<usize>,
)
    requires
        names_unique(fs),
        0 <= j,
    ensures
        resolve(fs, bs, scalar, k, j, acc) matches Ok((fs2, xs)) ==> names_unique(fs2),
    decreases bs.len() - j,
{
    if j < bs.len() {
        lemma_lookup_none(fs, bs[j].0, 0);
        if let Ok((fs1, x)) = bind_field(fs, bs[j], scalar, k) {
            assert(names_unique(fs1)) by {
                assert forall|a: int, b: int| 0 <= a < b < fs1.len() implies (#[trigger] fs1[a]).0 != (
                #[trigger] fs1[b]).0 by {
                    if b == fs.len() && fs1.len() > fs.len() {
                        assert(fs1[a] == fs[a]);
                    } else {
                        assert(fs1[a] == fs[a] && fs1[b] == fs[b]);
                    }
                }
            }
            lemma_resolve_unique(fs1, bs, scalar, k, j + 1, acc.push(x));
        }
    }
}

proof fn lemma_build_unique(items: Seq<ItemV>, k: int, st: Build)
    requires
        names_unique(st.fields),
        0 <= k,
    ensures
        build_from(items, k, st) matches Ok(st2) ==> names_unique(st2.fields),
    decreases items.len() - k,
{
    if k < items.len() {
        match items[k] {
            ItemV::Hole(bs, o) => {
                let scalar = if bs.len() == 1 && !o { Mult::Required } else { Mult::Optional };
                lemma_resolve_unique(st.fields, bs, scalar, k, 0, seq![]);
            },
            ItemV::Repeat(bs) => {
                lemma_resolve_unique(st.fields, bs, Mult::Optional, k, 0, seq![]);
            },
            _ => {},
        }
        if let Ok(st2) = build_item(st, items[k], k) {
            lemma_build_unique(items, k + 1, st2);
        }
    }
}

/// Each name has one field: however often a template mentions a name, the
/// field table of the generated parser holds it once.
pub proof fn law_field_names_unique(t: Seq<Tok>)
    requires
        generate_spec(t) is Ok,
    ensures
        names_unique(generate_spec(t)->Ok_0.fields),
{
    let items = scan_from(t, 0)->Ok_0;
    lemma_build_unique(items, 0, empty_build());
}

/// Steps run in template order, each from where the one before it ended:
/// a run from step `k` succeeds exactly when step `k` succeeds at the
/// cursor and the rest of the steps succeed from where it stopped. So the
/// literals, holes and blocks of a template, those inside a block included,
/// consume the input one after another, in the order they are written.
pub proof fn law_steps_in_order(
    steps: Seq<StepV>,
    ends: Seq<Vec<Option<usize>>>,
    input: Seq<Tok>,
    k: int,
    pos: int,
    log: Seq<(usize, usize, usize)>,
)
    requires
        0 <= k < steps.len(),
        0 <= pos <= input.len(),
    ensures
        run_from(steps, ends, input, k, pos, log) is Ok <==> (run_step(steps[k], ends, input, pos, log) matches Ok(
            (p1, l1),
        ) && run_from(steps, ends, input, k + 1, p1, l1) is Ok),
        run_step(steps[k], ends, input, pos, log) matches Ok((p1, l1)) ==> pos <= p1 <= input.len()
            && run_from(steps, ends, input, k, pos, log) == run_from(steps, ends, input, k + 1, p1, l1),
{
    law_step_braces(steps[k], ends, input, pos, log);
}

} // verus!
