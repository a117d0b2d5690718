//! The template scanner: from the template's tokens to a stream of items.

use vstd::prelude::*;
use crate::token::{Tok, TokKind, Delim, is_punct, is_word};

verus! {

/// A field reference inside a hole or a `<SEQ>`; `vec` marks `@name`.
#[derive(Debug)]
pub struct Binding {
    pub name: String,
    pub vec: bool,
}

impl View for Binding {
    type V = (Seq<char>, bool);

    open spec fn view(&self) -> (Seq<char>, bool) {
        (self.name@, self.vec)
    }
}

/// The bindings of a list, as plain values.
pub open spec fn binds_view(bs: Seq<Binding>) -> Seq<(Seq<char>, bool)> {
    bs.map_values(|b: Binding| b@)
}

/// One element of a scanned template.
#[derive(Debug)]
pub enum Item {
    /// A token to be matched verbatim.
    Lit(Tok),
    /// `#<a | @b ?>` (or `#<a | @b>?`): alternatives, and whether the hole
    /// is optional.
    Hole(Vec<Binding>, bool),
    /// `#<FOR: Name>`.
    For(String),
    /// `#<SEQ: a | @b>`.
    Repeat(Vec<Binding>),
    /// An opening brace.
    Open,
    /// A closing brace.
    Close,
}

/// An item as a plain value.
pub enum ItemV {
    Lit(Tok),
    Hole(Seq<(Seq<char>, bool)>, bool),
    For(Seq<char>),
    Repeat(Seq<(Seq<char>, bool)>),
    Open,
    Close,
}

impl View for Item {
    type V = ItemV;

    open spec fn view(&self) -> ItemV {
        match self {
            Item::Lit(t) => ItemV::Lit(*t),
            Item::Hole(bs, o) => ItemV::Hole(binds_view(bs@), *o),
            Item::For(n) => ItemV::For(n@),
            Item::Repeat(bs) => ItemV::Repeat(binds_view(bs@)),
            Item::Open => ItemV::Open,
            Item::Close => ItemV::Close,
        }
    }
}

pub open spec fn items_view(v: Seq<Item>) -> Seq<ItemV> {
    v.map_values(|it: Item| it@)
}

/// Why a template was refused; each carries the token position, or for
/// errors found after scanning, the position of the item.
#[derive(Clone, Copy, Debug, PartialEq, Eq, Structural)]
pub enum GenError {
    /// A hole or construct header that does not follow the grammar.
    Malformed(usize),
    /// `?` after the bindings of a `<SEQ>`.
    OptionalSeq(usize),
    /// No `<FOR>` construct in the template.
    NoFor,
    /// A second `<FOR>` construct.
    ExtraFor(usize),
    /// A name bound once as a vector and once as a scalar.
    KindConflict(usize),
    /// A closing brace without an opening one, or the reverse.
    Unbalanced(usize),
}

/// `@`? IDENT at position `i`: the binding and the position after it.
pub open spec fn bind_at(t: Seq<Tok>, i: int) -> Option<((Seq<char>, bool), int)> {
    let v = i < t.len() && is_punct(t[i], '@');
    let j = if v { i + 1 } else { i };
    if 0 <= j < t.len() && t[j].kind == TokKind::Ident {
        Some(((t[j].text@, v), j + 1))
    } else {
        None
    }
}

/// The bindings that follow a first one: (`|` binding)*, as far as they go.
pub open spec fn binds_after(t: Seq<Tok>, i: int) -> (Seq<(Seq<char>, bool)>, int)
    decreases t.len() - i,
{
    if 0 <= i < t.len() && is_punct(t[i], '|') {
        match bind_at(t, i + 1) {
            Some((b, j)) => {
                let (rest, k) = binds_after(t, j);
                (seq![b] + rest, k)
            },
            None => (seq![], i),
        }
    } else {
        (seq![], i)
    }
}

/// A non-empty `|`-separated binding list at position `i`.
pub open spec fn binds_at(t: Seq<Tok>, i: int) -> Option<(Seq<(Seq<char>, bool)>, int)> {
    match bind_at(t, i) {
        Some((b, j)) => {
            let (rest, k) = binds_after(t, j);
            Some((seq![b] + rest, k))
        },
        None => None,
    }
}

/// The token at `i` is the punctuation `c`.
pub open spec fn punct_at(t: Seq<Tok>, i: int, c: char) -> bool {
    0 <= i < t.len() && is_punct(t[i], c)
}

/// The header `#<...>` that starts at `i`, and the position after it. A
/// hole's optional flag may follow its `>`; after a `<SEQ>` it is refused.
pub open spec fn header_at(t: Seq<Tok>, i: int) -> Result<(ItemV, int), GenError> {
    let j = i + 2;
    if j + 1 < t.len() && is_punct(t[j + 1], ':') && is_word(t[j], "FOR"@) {
        if j + 3 < t.len() && t[j + 2].kind == TokKind::Ident && is_punct(t[j + 3], '>') {
            Ok((ItemV::For(t[j + 2].text@), j + 4))
        } else {
            Err(GenError::Malformed((j + 2) as usize))
        }
    } else if j + 1 < t.len() && is_punct(t[j + 1], ':') && is_word(t[j], "SEQ"@) {
        match binds_at(t, j + 2) {
            None => Err(GenError::Malformed((j + 2) as usize)),
            Some((bs, k)) => if punct_at(t, k, '?') {
                Err(GenError::OptionalSeq(k as usize))
            } else if punct_at(t, k, '>') {
                if punct_at(t, k + 1, '?') {
                    Err(GenError::OptionalSeq((k + 1) as usize))
                } else {
                    Ok((ItemV::Repeat(bs), k + 1))
                }
            } else {
                Err(GenError::Malformed(k as usize))
            },
        }
    } else {
        match binds_at(t, j) {
            None => Err(GenError::Malformed(j as usize)),
            Some((bs, k)) => {
                let o = punct_at(t, k, '?');
                let m = if o { k + 1 } else { k };
                if punct_at(t, m, '>') {
                    let after = punct_at(t, m + 1, '?');
                    Ok((ItemV::Hole(bs, o || after), if after { m + 2 } else { m + 1 }))
                } else {
                    Err(GenError::Malformed(m as usize))
                }
            },
        }
    }
}

/// The items of the template from position `i` on.
pub open spec fn scan_from(t: Seq<Tok>, i: int) -> Result<Seq<ItemV>, GenError>
    decreases t.len() - i,
{
    if i < 0 || i >= t.len() {
        Ok(seq![])
    } else if punct_at(t, i, '#') && punct_at(t, i + 1, '<') {
        match header_at(t, i) {
            Err(e) => Err(e),
            Ok((it, j)) => if j <= i {
                Err(GenError::Malformed(i as usize))
            } else {
                prepend(it, scan_from(t, j))
            },
        }
    } else if t[i].kind == TokKind::Open(Delim::Brace) {
        prepend(ItemV::Open, scan_from(t, i + 1))
    } else if t[i].kind == TokKind::Close(Delim::Brace) {
        prepend(ItemV::Close, scan_from(t, i + 1))
    } else {
        prepend(ItemV::Lit(t[i]), scan_from(t, i + 1))
    }
}

pub open spec fn prepend<A>(a: A, r: Result<Seq<A>, GenError>) -> Result<Seq<A>, GenError> {
    match r {
        Ok(s) => Ok(seq![a] + s),
        Err(e) => Err(e),
    }
}

/// `p` followed by the items of `r`, or the error of `r`.
pub open spec fn glue<A>(p: Seq<A>, r: Result<Seq<A>, GenError>) -> Result<Seq<A>, GenError> {
    match r {
        Ok(s) => Ok(p + s),
        Err(e) => Err(e),
    }
}

proof fn lemma_glue_prepend<A>(p: Seq<A>, a: A, r: Result<Seq<A>, GenError>)
    ensures
        glue(p, prepend(a, r)) == glue(p.push(a), r),
{
    if let Ok(s) = r {
        assert(p + (seq![a] + s) =~= p.push(a) + s);
    }
}

proof fn lemma_binds_push(bs: Seq<Binding>, b: Binding)
    ensures
        binds_view(bs.push(b)) == binds_view(bs).push(b@),
{
    assert(binds_view(bs.push(b)) =~= binds_view(bs).push(b@));
}

fn punct_at_exec(t: &Vec<Tok>, i: usize, c: char) -> (r: bool)
    ensures
        r == punct_at(t@, i as int, c),
{
    i < t.len() && t[i].is_punct(c)
}

/// Reads one binding, `@`? IDENT, at position `i`.
fn parse_binding(t: &Vec<Tok>, i: usize) -> (r: Option<(Binding, usize)>)
    ensures
        match r {
            Some((b, j)) => bind_at(t@, i as int) == Some((b@, j as int)),
            None => bind_at(t@, i as int) is None,
        },
{
    let n = t.len();
    let v = punct_at_exec(t, i, '@');
    let j = if v { i + 1 } else { i };
    if j < t.len() && t[j].kind == TokKind::Ident {
        let b = Binding { name: t[j].text.clone(), vec: v };
        Some((b, j + 1))
    } else {
        None
    }
}

/// Reads a non-empty `|`-separated list of bindings at position `i`.
fn parse_bindings(t: &Vec<Tok>, i: usize) -> (r: Option<(Vec<Binding>, usize)>)
    ensures
        match r {
            Some((bs, j)) => binds_at(t@, i as int) == Some((binds_view(bs@), j as int)),
            None => binds_at(t@, i as int) is None,
        },
{
    match parse_binding(t, i) {
        None => None,
        Some((b, j0)) => {
            let mut bs: Vec<Binding> = Vec::new();
            bs.push(b);
            proof {
                assert(binds_view(bs@) =~= seq![b@]);
            }
            let mut j: usize = j0;
            let n = t.len();
            loop
                invariant
                    j <= t@.len(),
                    n == t@.len(),
                    binds_at(t@, i as int) == Some(
                        (binds_view(bs@) + binds_after(t@, j as int).0, binds_after(t@, j as int).1),
                    ),
                ensures
                    j <= t@.len(),
                    binds_at(t@, i as int) == Some((binds_view(bs@), j as int)),
                decreases t@.len() - j,
            {
                if punct_at_exec(t, j, '|') {
                    match parse_binding(t, j + 1) {
                        Some((b, k)) => {
                            proof {
                                lemma_binds_push(bs@, b);
                                let rest = binds_after(t@, k as int);
                                assert(binds_view(bs@) + (seq![b@] + rest.0)
                                    =~= binds_view(bs@).push(b@) + rest.0);
                            }
                            bs.push(b);
                            j = k;
                        },
                        None => {
                            proof {
                                assert(binds_view(bs@) + seq![] =~= binds_view(bs@));
                            }
                            break ;
                        },
                    }
                } else {
                    proof {
                        assert(binds_view(bs@) + seq![] =~= binds_view(bs@));
                    }
                    break ;
                }
            }
            Some((bs, j))
        },
    }
}

/// Reads the header `#<...>` that starts at `i`: a hole, `<FOR: Name>` or
/// `<SEQ: bindings>`. A hole's optional flag `?` may stand before its `>`
/// or right after it.
fn parse_header(t: &Vec<Tok>, i: usize) -> (r: Result<(Item, usize), GenError>)
    requires
        i + 2 <= t@.len(),
    ensures
        match r {
            Ok((it, j)) => header_at(t@, i as int) == Ok::<_, GenError>((it@, j as int)),
            Err(e) => header_at(t@, i as int) == Err::<(ItemV, int), GenError>(e),
        },
{
    let n = t.len();
    let j = i + 2;
    let colon = n - j > 1 && t[j + 1].is_punct(':');
    if colon && t[j].is_word("FOR") {
        if n - j > 3 && t[j + 2].kind == TokKind::Ident && t[j + 3].is_punct('>') {
            Ok((Item::For(t[j + 2].text.clone()), j + 4))
        } else {
            Err(GenError::Malformed(j + 2))
        }
    } else if colon && t[j].is_word("SEQ") {
        match parse_bindings(t, j + 2) {
            None => Err(GenError::Malformed(j + 2)),
            Some((bs, k)) => {
                if punct_at_exec(t, k, '?') {
                    Err(GenError::OptionalSeq(k))
                } else if punct_at_exec(t, k, '>') {
                    if punct_at_exec(t, k + 1, '?') {
                        Err(GenError::OptionalSeq(k + 1))
                    } else {
                        Ok((Item::Repeat(bs), k + 1))
                    }
                } else {
                    Err(GenError::Malformed(k))
                }
            },
        }
    } else {
        match parse_bindings(t, j) {
            None => Err(GenError::Malformed(j)),
            Some((bs, k)) => {
                let o = punct_at_exec(t, k, '?');
                let m = if o { k + 1 } else { k };
                if punct_at_exec(t, m, '>') {
                    let after = punct_at_exec(t, m + 1, '?');
                    Ok((Item::Hole(bs, o || after), if after { m + 2 } else { m + 1 }))
                } else {
                    Err(GenError::Malformed(m))
                }
            },
        }
    }
}

/// Scans a template into items: headers `#<...>` become holes and
/// constructs, braces become block markers, every other token a literal.
pub fn scan(t: &Vec<Tok>) -> (r: Result<Vec<Item>, GenError>)
    ensures
        match r {
            Ok(items) => scan_from(t@, 0) == Ok::<_, GenError>(items_view(items@)),
            Err(e) => scan_from(t@, 0) == Err::<Seq<ItemV>, GenError>(e),
        },
{
    let mut items: Vec<Item> = Vec::new();
    let mut i: usize = 0;
    let n = t.len();
    proof {
        assert(items_view(items@) + seq![] =~= items_view(items@));
        if let Ok(s) = scan_from(t@, 0) {
            assert(items_view(items@) + s =~= s);
        }
    }
    while i < t.len()
        invariant
            i <= t@.len(),
            n == t@.len(),
            scan_from(t@, 0) == glue(items_view(items@), scan_from(t@, i as int)),
        decreases t@.len() - i,
    {
        let next: usize;
        let it: Item;
        if punct_at_exec(t, i, '#') && punct_at_exec(t, i + 1, '<') {
            match parse_header(t, i) {
                Err(e) => {
                    return Err(e);
                },
                Ok((h, j)) => {
                    if j <= i {
                        return Err(GenError::Malformed(i));
                    }
                    it = h;
                    next = j;
                },
            }
        } else if t[i].kind == TokKind::Open(Delim::Brace) {
            it = Item::Open;
            next = i + 1;
        } else if t[i].kind == TokKind::Close(Delim::Brace) {
            it = Item::Close;
            next = i + 1;
        } else {
            it = Item::Lit(t[i].copy());
            next = i + 1;
        }
        proof {
            assert(scan_from(t@, i as int) == prepend(it@, scan_from(t@, next as int)));
            lemma_glue_prepend(items_view(items@), it@, scan_from(t@, next as int));
            assert(items_view(items@.push(it)) =~= items_view(items@).push(it@));
        }
        items.push(it);
        i = next;
    }
    proof {
        assert(items_view(items@) + seq![] =~= items_view(items@));
    }
    Ok(items)
}

} // verus!
