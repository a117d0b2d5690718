//! Tokens, as plain values: a kind and the text that the token renders to.

use vstd::prelude::*;

verus! {

/// The three delimiters that open and close a group.
#[derive(Clone, Copy, Debug, PartialEq, Eq, Structural)]
pub enum Delim {
    Paren,
    Bracket,
    Brace,
}

/// What sort of token a [`Tok`] is. A group is flattened into an `Open`
/// token, its contents, and a `Close` token.
#[derive(Clone, Copy, Debug, PartialEq, Eq, Structural)]
pub enum TokKind {
    Ident,
    Punct,
    /// An integer literal.
    Int,
    /// A string literal.
    Str,
    /// Any other literal (a float, a char, a byte string).
    Lit,
    Open(Delim),
    Close(Delim),
}

/// One token: its kind and its textual rendering.
#[derive(Debug)]
pub struct Tok {
    pub kind: TokKind,
    pub text: String,
}

/// The token is the punctuation character `c`.
pub open spec fn is_punct(t: Tok, c: char) -> bool {
    t.kind == TokKind::Punct && t.text@ == seq![c]
}

/// The token is an identifier that reads `w`.
pub open spec fn is_word(t: Tok, w: Seq<char>) -> bool {
    t.kind == TokKind::Ident && t.text@ == w
}

/// Two tokens match when their renderings are equal, whatever their kinds.
pub open spec fn same_text(a: Tok, b: Tok) -> bool {
    a.text@ == b.text@
}

/// A token is a brace of a block.
pub open spec fn is_brace(t: Tok) -> bool {
    t.kind == TokKind::Open(Delim::Brace) || t.kind == TokKind::Close(Delim::Brace)
}

/// What a token adds to the brace depth.
pub open spec fn brace_delta(t: Tok) -> int {
    if t.kind == TokKind::Open(Delim::Brace) {
        1
    } else if t.kind == TokKind::Close(Delim::Brace) {
        -1
    } else {
        0
    }
}

/// Opening braces less closing braces among `input[a..b]`.
pub open spec fn balance(input: Seq<Tok>, a: int, b: int) -> int
    decreases b - a,
{
    if b <= a {
        0
    } else {
        balance(input, a, b - 1) + brace_delta(input[b - 1])
    }
}

/// `input[a..b]` is made of whole brace groups: it closes as many braces
/// as it opens, and no prefix closes more than it opened.
pub open spec fn nested(input: Seq<Tok>, a: int, b: int) -> bool {
    balance(input, a, b) == 0 && forall|c: int| a <= c <= b ==> #[trigger] balance(input, a, c) >= 0
}

/// Is `input[a..b]` made of whole brace groups?
pub fn is_nested(input: &Vec<Tok>, a: usize, b: usize) -> (r: bool)
    requires
        a <= b <= input@.len(),
    ensures
        r == nested(input@, a as int, b as int),
{
    let mut depth: usize = 0;
    let mut i: usize = a;
    while i < b
        invariant
            a <= i <= b,
            b <= input@.len(),
            depth == balance(input@, a as int, i as int),
            forall|c: int| a <= c <= i ==> #[trigger] balance(input@, a as int, c) >= 0,
            depth <= i - a,
        decreases b - i,
    {
        if input[i].kind == TokKind::Open(Delim::Brace) {
            depth = depth + 1;
        } else if input[i].kind == TokKind::Close(Delim::Brace) {
            if depth == 0 {
                assert(balance(input@, a as int, i + 1) < 0);
                return false;
            }
            depth = depth - 1;
        }
        i = i + 1;
    }
    depth == 0
}

/// Equality of two strings, character by character.
pub fn str_equal(a: &str, b: &str) -> (r: bool)
    ensures
        r == (a@ == b@),
{
    let n = a.unicode_len();
    if n != b.unicode_len() {
        return false;
    }
    let mut i: usize = 0;
    while i < n
        invariant
            n == a@.len(),
            n == b@.len(),
            i <= n,
            forall|k: int| 0 <= k < i ==> a@[k] == b@[k],
        decreases n - i,
    {
        if a.get_char(i) != b.get_char(i) {
            return false;
        }
        i = i + 1;
    }
    assert(a@ =~= b@);
    true
}

impl Tok {
    /// Builds a token of the given kind and text.
    pub fn new(kind: TokKind, text: &str) -> (r: Tok)
        ensures
            r.kind == kind,
            r.text@ == text@,
    {
        Tok { kind, text: text.to_string() }
    }

    /// A copy of this token.
    pub fn copy(&self) -> (r: Tok)
        ensures
            r == *self,
    {
        Tok { kind: self.kind, text: self.text.clone() }
    }

    /// Is this token a brace of a block?
    pub fn is_brace(&self) -> (r: bool)
        ensures
            r == is_brace(*self),
    {
        self.kind == TokKind::Open(Delim::Brace) || self.kind == TokKind::Close(Delim::Brace)
    }

    /// Is this token the punctuation character `c`?
    pub fn is_punct(&self, c: char) -> (r: bool)
        ensures
            r == is_punct(*self, c),
    {
        let s = self.text.as_str();
        if self.kind == TokKind::Punct && s.unicode_len() == 1 {
            let d = s.get_char(0);
            proof {
                if d == c {
                    assert(s@ =~= seq![c]);
                }
            }
            d == c
        } else {
            proof {
                if self.kind == TokKind::Punct {
                    assert(s@.len() != seq![c].len());
                }
            }
            false
        }
    }

    /// Is this token an identifier that reads `w`?
    pub fn is_word(&self, w: &str) -> (r: bool)
        ensures
            r == is_word(*self, w@),
    {
        self.kind == TokKind::Ident && str_equal(self.text.as_str(), w)
    }

    /// Do the two tokens render to the same text?
    pub fn same_text(&self, other: &Tok) -> (r: bool)
        ensures
            r == same_text(*self, *other),
    {
        str_equal(self.text.as_str(), other.text.as_str())
    }
}

} // verus!
