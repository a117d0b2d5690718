use template_quote::{
    quote_template, token_ends, Capture, Delim, GenError, Mult, ParseError, Parser, Record, Tok,
    TokKind, Value,
};

fn tok(s: &str) -> Tok {
    let c = s.chars().next().unwrap();
    let kind = match s {
        "(" => TokKind::Open(Delim::Paren),
        ")" => TokKind::Close(Delim::Paren),
        "[" => TokKind::Open(Delim::Bracket),
        "]" => TokKind::Close(Delim::Bracket),
        "{" => TokKind::Open(Delim::Brace),
        "}" => TokKind::Close(Delim::Brace),
        _ if c.is_ascii_digit() => TokKind::Int,
        _ if c == '"' => TokKind::Str,
        _ if c.is_alphabetic() || c == '_' => TokKind::Ident,
        _ => TokKind::Punct,
    };
    Tok::new(kind, s)
}

fn toks(s: &str) -> Vec<Tok> {
    s.split_whitespace().map(tok).collect()
}

fn text(ts: &[Tok]) -> String {
    ts.iter().map(|t| t.text.clone()).collect::<Vec<_>>().join(" ")
}

fn parse_all(p: &Parser, kinds: &Vec<Capture>, input: &Vec<Tok>) -> Result<Record, ParseError> {
    p.parse_all(&token_ends(kinds, input), input)
}

fn parse_at(p: &Parser, kinds: &Vec<Capture>, input: &Vec<Tok>, cursor: &mut usize) -> Result<Record, ParseError> {
    p.parse(&token_ends(kinds, input), input, cursor)
}

fn one(v: Option<&Value>) -> String {
    match v {
        Some(Value::One(t)) => text(t),
        other => panic!("not a required value: {:?}", other),
    }
}

fn maybe(v: Option<&Value>) -> Option<String> {
    match v {
        Some(Value::Maybe(o)) => o.as_ref().map(|t| text(t)),
        other => panic!("not an optional value: {:?}", other),
    }
}

fn many(v: Option<&Value>) -> Vec<String> {
    match v {
        Some(Value::Many(ts)) => ts.iter().map(|t| text(t)).collect(),
        other => panic!("not a vector value: {:?}", other),
    }
}

#[test]
fn item_name_and_value() {
    let p = quote_template(&toks("# < FOR : Item > # < name > = # < value > ;")).unwrap();
    assert_eq!(p.record, "Item");
    assert_eq!(p.fields.len(), 2);
    assert_eq!(p.fields[0].mult, Mult::Required);
    let kinds = vec![Capture::Ident, Capture::Int];
    let r = parse_all(&p, &kinds, &toks("foo = 42 ;")).unwrap();
    assert_eq!(r.name, "Item");
    assert_eq!(one(r.get("name")), "foo");
    assert_eq!(one(r.get("value")), "42");
}

#[test]
fn item_missing_semicolon() {
    let p = quote_template(&toks("# < FOR : Item > # < name > = # < value > ;")).unwrap();
    let kinds = vec![Capture::Ident, Capture::Int];
    let input = toks("foo = 42");
    let mut cursor: usize = 0;
    assert_eq!(parse_at(&p, &kinds, &input, &mut cursor).unwrap_err(), ParseError::Mismatch(3, 3, 0));
    assert_eq!(cursor, 0);
}

#[test]
fn list_of_items() {
    let p = quote_template(&toks("# < FOR : List > [ # < SEQ : @ items > ]")).unwrap();
    let kinds = vec![Capture::Int];
    let r = parse_all(&p, &kinds, &toks("[ 1 2 3 ]")).unwrap();
    assert_eq!(many(r.get("items")), vec!["1", "2", "3"]);
    let r = parse_all(&p, &kinds, &toks("[ ]")).unwrap();
    assert!(many(r.get("items")).is_empty());
}

#[test]
fn optional_value() {
    let p = quote_template(&toks("# < FOR : Opt > # < v > ?")).unwrap();
    assert_eq!(p.fields[0].mult, Mult::Optional);
    let kinds = vec![Capture::Int];
    let r = parse_all(&p, &kinds, &toks("7")).unwrap();
    assert_eq!(maybe(r.get("v")), Some("7".to_string()));
    let r = parse_all(&p, &kinds, &Vec::new()).unwrap();
    assert_eq!(maybe(r.get("v")), None);
}

#[test]
fn optional_flag_inside_hole() {
    let p = quote_template(&toks("# < FOR : Opt > # < v ? >")).unwrap();
    assert_eq!(p.fields[0].mult, Mult::Optional);
    let kinds = vec![Capture::Int];
    let r = parse_all(&p, &kinds, &toks("7")).unwrap();
    assert_eq!(maybe(r.get("v")), Some("7".to_string()));
    let r = parse_all(&p, &kinds, &Vec::new()).unwrap();
    assert_eq!(maybe(r.get("v")), None);
}

#[test]
fn alternatives_first_match_wins() {
    let p = quote_template(&toks("# < FOR : Alt > # < a | @ bs >")).unwrap();
    let kinds = vec![Capture::Str, Capture::Int];
    let r = parse_all(&p, &kinds, &toks("\"x\"")).unwrap();
    assert_eq!(maybe(r.get("a")), Some("\"x\"".to_string()));
    assert!(many(r.get("bs")).is_empty());
    let r = parse_all(&p, &kinds, &toks("1")).unwrap();
    assert_eq!(maybe(r.get("a")), None);
    assert_eq!(many(r.get("bs")), vec!["1"]);
    let both = vec![Capture::Int, Capture::Int];
    let r = parse_all(&p, &both, &toks("1")).unwrap();
    assert_eq!(maybe(r.get("a")), Some("1".to_string()));
    assert!(many(r.get("bs")).is_empty());
}

#[test]
fn alternatives_none_matches() {
    let p = quote_template(&toks("# < FOR : Alt > # < a | @ bs >")).unwrap();
    let kinds = vec![Capture::Str, Capture::Int];
    assert_eq!(parse_all(&p, &kinds, &toks("x")).unwrap_err(), ParseError::NoCapture(0));
}

#[test]
fn nested_block() {
    let p = quote_template(&toks("# < FOR : Nested > { # < inner > }")).unwrap();
    let kinds = vec![Capture::Ident];
    let r = parse_all(&p, &kinds, &toks("{ hello }")).unwrap();
    assert_eq!(one(r.get("inner")), "hello");
    assert_eq!(parse_all(&p, &kinds, &toks("{ hello world }")).unwrap_err(), ParseError::Leftover(2));
    assert_eq!(parse_all(&p, &kinds, &toks("hello")).unwrap_err(), ParseError::NoBlock(0));
}

#[test]
fn no_for_construct() {
    assert_eq!(quote_template(&toks("# < name > = # < value >")).unwrap_err(), GenError::NoFor);
}

#[test]
fn second_for_construct() {
    let e = quote_template(&toks("# < FOR : A > # < FOR : B >")).unwrap_err();
    assert_eq!(e, GenError::ExtraFor(1));
}

#[test]
fn optional_sequence_refused() {
    let e = quote_template(&toks("# < FOR : A > # < SEQ : @ xs ? >")).unwrap_err();
    assert_eq!(e, GenError::OptionalSeq(12));
}

#[test]
fn optional_sequence_refused_after_close() {
    let e = quote_template(&toks("# < FOR : A > # < SEQ : @ xs > ?")).unwrap_err();
    assert_eq!(e, GenError::OptionalSeq(13));
}

#[test]
fn header_without_close() {
    let e = quote_template(&toks("# < FOR : A > # < x y")).unwrap_err();
    assert_eq!(e, GenError::Malformed(9));
    let e = quote_template(&toks("# < FOR A >")).unwrap_err();
    assert_eq!(e, GenError::Malformed(3));
}

#[test]
fn conflicting_multiplicity() {
    let e = quote_template(&toks("# < FOR : A > # < x > # < @ x >")).unwrap_err();
    assert_eq!(e, GenError::KindConflict(2));
}

#[test]
fn unbalanced_braces() {
    let e = quote_template(&toks("# < FOR : A > }")).unwrap_err();
    assert_eq!(e, GenError::Unbalanced(1));
    let e = quote_template(&toks("# < FOR : A > {")).unwrap_err();
    assert_eq!(e, GenError::Unbalanced(2));
}

#[test]
fn literal_runs_coalesce() {
    let p = quote_template(&toks("# < FOR : A > a b c # < x > d")).unwrap();
    assert_eq!(p.steps.len(), 3);
}

#[test]
fn sequence_with_scalar_keeps_last() {
    let p = quote_template(&toks("# < FOR : A > # < SEQ : x | @ ys >")).unwrap();
    let kinds = vec![Capture::Ident, Capture::Int];
    let r = parse_all(&p, &kinds, &toks("a 1 b 2 3")).unwrap();
    assert_eq!(maybe(r.get("x")), Some("b".to_string()));
    assert_eq!(many(r.get("ys")), vec!["1", "2", "3"]);
}

#[test]
fn cursor_advances_on_success_only() {
    let p = quote_template(&toks("# < FOR : A > # < x > ;")).unwrap();
    let kinds = vec![Capture::Ident];
    let input = toks("a ; b ; 1");
    let mut cursor: usize = 0;
    assert!(parse_at(&p, &kinds, &input, &mut cursor).is_ok());
    assert_eq!(cursor, 2);
    assert!(parse_at(&p, &kinds, &input, &mut cursor).is_ok());
    assert_eq!(cursor, 4);
    assert_eq!(parse_at(&p, &kinds, &input, &mut cursor).unwrap_err(), ParseError::NoCapture(4));
    assert_eq!(cursor, 4);
}

#[test]
fn same_template_same_behaviour() {
    let t = toks("# < FOR : A > ( # < SEQ : @ xs > )");
    let p1 = quote_template(&t).unwrap();
    let p2 = quote_template(&t).unwrap();
    let kinds = vec![Capture::Any];
    for input in ["( a b )", "( )", "a", "( a"] {
        let i = toks(input);
        let r1 = parse_all(&p1, &kinds, &i).map(|r| many(r.get("xs")));
        let r2 = parse_all(&p2, &kinds, &i).map(|r| many(r.get("xs")));
        assert_eq!(r1, r2);
    }
}

#[test]
fn schema_mismatch() {
    let p = quote_template(&toks("# < FOR : A > # < x >")).unwrap();
    assert_eq!(p.parse_all(&Vec::new(), &toks("a")).unwrap_err(), ParseError::Schema);
}

#[test]
fn literal_matched_by_text() {
    let p = quote_template(&toks("# < FOR : A > + # < x >")).unwrap();
    let kinds = vec![Capture::Any];
    let input = vec![Tok::new(TokKind::Ident, "+"), tok("a")];
    assert_eq!(one(parse_all(&p, &kinds, &input).unwrap().get("x")), "a");
    assert_eq!(parse_all(&p, &kinds, &toks("- a")).unwrap_err(), ParseError::Mismatch(0, 0, 0));
}

#[test]
fn empty_template_has_no_for() {
    assert_eq!(quote_template(&Vec::new()).unwrap_err(), GenError::NoFor);
}

#[test]
fn unknown_construct_is_malformed() {
    let e = quote_template(&toks("# < FOR : A > # < FOO : x >")).unwrap_err();
    assert_eq!(e, GenError::Malformed(9));
}

#[test]
fn dangling_separator_is_malformed() {
    let e = quote_template(&toks("# < FOR : A > # < a | >")).unwrap_err();
    assert_eq!(e, GenError::Malformed(9));
}

#[test]
fn sequence_stops_at_first_unaccepted() {
    let p = quote_template(&toks("# < FOR : A > # < SEQ : @ xs > ;")).unwrap();
    let kinds = vec![Capture::Int];
    let r = parse_all(&p, &kinds, &toks("1 2 ;")).unwrap();
    assert_eq!(many(r.get("xs")), vec!["1", "2"]);
    assert_eq!(parse_all(&p, &kinds, &toks("1 x ;")).unwrap_err(), ParseError::Mismatch(1, 1, 0));
}

#[test]
fn single_vector_hole_is_required() {
    let p = quote_template(&toks("# < FOR : A > # < @ xs >")).unwrap();
    let kinds = vec![Capture::Ident];
    assert_eq!(parse_all(&p, &kinds, &Vec::new()).unwrap_err(), ParseError::NoCapture(0));
    let r = parse_all(&p, &kinds, &toks("a")).unwrap();
    assert_eq!(many(r.get("xs")), vec!["a"]);
}

#[test]
fn vector_field_over_several_holes() {
    let p = quote_template(&toks("# < FOR : A > # < @ xs > , # < @ xs ? >")).unwrap();
    assert_eq!(p.fields.len(), 1);
    assert_eq!(p.fields[0].mult, Mult::Many);
    let kinds = vec![Capture::Int];
    let r = parse_all(&p, &kinds, &toks("1 , 2")).unwrap();
    assert_eq!(many(r.get("xs")), vec!["1", "2"]);
    let r = parse_all(&p, &kinds, &toks("1 ,")).unwrap();
    assert_eq!(many(r.get("xs")), vec!["1"]);
}

#[test]
fn nested_blocks() {
    let p = quote_template(&toks("# < FOR : A > { a { # < x > } }")).unwrap();
    let kinds = vec![Capture::Ident];
    let r = parse_all(&p, &kinds, &toks("{ a { b } }")).unwrap();
    assert_eq!(one(r.get("x")), "b");
    assert_eq!(parse_all(&p, &kinds, &toks("{ a { b c } }")).unwrap_err(), ParseError::Leftover(4));
}

#[test]
fn captures_never_take_delimiters() {
    let p = quote_template(&toks("# < FOR : A > # < x ? > ]")).unwrap();
    let kinds = vec![Capture::Any];
    let r = parse_all(&p, &kinds, &toks("]")).unwrap();
    assert_eq!(maybe(r.get("x")), None);
}

#[test]
fn trailing_input_is_leftover() {
    let p = quote_template(&toks("# < FOR : A > # < x >")).unwrap();
    let kinds = vec![Capture::Ident];
    assert_eq!(parse_all(&p, &kinds, &toks("a b")).unwrap_err(), ParseError::Leftover(1));
}

#[test]
fn tokens_compare_by_text() {
    let a = Tok::new(TokKind::Punct, "+");
    let b = Tok::new(TokKind::Ident, "+");
    let c = Tok::new(TokKind::Punct, "-");
    assert!(a.same_text(&b));
    assert!(!a.same_text(&c));
    assert!(a.is_punct('+'));
    assert!(!b.is_punct('+'));
    assert!(tok("FOR").is_word("FOR"));
    assert!(!tok("FOR").is_word("SEQ"));
}

fn ends_of(n: usize, spans: &[(usize, usize)]) -> Vec<Vec<Option<usize>>> {
    let mut row = vec![None; n];
    for &(a, b) in spans {
        row[a] = Some(b);
    }
    vec![row]
}

#[test]
fn capture_of_several_tokens() {
    let p = quote_template(&toks("# < FOR : A > # < x > ;")).unwrap();
    let input = toks("- 1 ;");
    let r = p.parse_all(&ends_of(3, &[(0, 2)]), &input).unwrap();
    assert_eq!(one(r.get("x")), "- 1");
    let input = toks("a + b ;");
    let r = p.parse_all(&ends_of(4, &[(0, 3)]), &input).unwrap();
    assert_eq!(one(r.get("x")), "a + b");
}

#[test]
fn sequence_of_multi_token_values() {
    let p = quote_template(&toks("# < FOR : L > [ # < SEQ : @ items > ]")).unwrap();
    let input = toks("[ - 1 2 - 3 ]");
    let r = p.parse_all(&ends_of(7, &[(1, 3), (3, 4), (4, 6)]), &input).unwrap();
    assert_eq!(many(r.get("items")), vec!["- 1", "2", "- 3"]);
}

#[test]
fn capture_with_braces_must_be_whole() {
    let p = quote_template(&toks("# < FOR : A > # < x > ;")).unwrap();
    let input = toks("{ a } ;");
    let r = p.parse_all(&ends_of(4, &[(0, 3)]), &input).unwrap();
    assert_eq!(one(r.get("x")), "{ a }");
    assert_eq!(p.parse_all(&ends_of(4, &[(0, 2)]), &input).unwrap_err(), ParseError::NoCapture(0));
}

#[test]
fn capture_that_consumes_nothing_is_refused() {
    let p = quote_template(&toks("# < FOR : A > # < x ? > ;")).unwrap();
    let input = toks(";");
    let r = p.parse_all(&ends_of(1, &[(0, 0)]), &input).unwrap();
    assert_eq!(maybe(r.get("x")), None);
    assert_eq!(p.parse_all(&ends_of(1, &[(0, 5)]), &input).unwrap().names.len(), 1);
}

#[test]
fn mismatch_names_the_literal() {
    let p = quote_template(&toks("# < FOR : A > # < x > = = ;")).unwrap();
    let kinds = vec![Capture::Ident];
    assert_eq!(parse_all(&p, &kinds, &toks("a = - ;")).unwrap_err(), ParseError::Mismatch(2, 1, 1));
}

#[test]
fn literal_never_matches_a_brace() {
    let p = quote_template(&toks("# < FOR : A > + # < x ? >")).unwrap();
    let input = vec![Tok::new(TokKind::Open(Delim::Brace), "+")];
    assert_eq!(p.parse_all(&vec![vec![None]], &input).unwrap_err(), ParseError::Mismatch(0, 0, 0));
}

#[test]
fn cursor_past_end() {
    let p = quote_template(&toks("# < FOR : A > # < x ? >")).unwrap();
    let mut cursor: usize = 5;
    assert_eq!(p.parse(&vec![vec![]], &Vec::new(), &mut cursor).unwrap_err(), ParseError::Cursor(5));
    assert_eq!(cursor, 5);
}
