use async_proc::emit::{dummy_select_for_ide, real_select};
use async_proc::mode::{mode_enabled, select};
use async_proc::parse::{parse_arms, ErrorKind};
use async_proc::token::{Arm, Binding, Delim, Tok};

fn id(s: &str) -> Tok {
    Tok::Ident(s.to_string())
}

fn ot(s: &str) -> Tok {
    Tok::Other(s.to_string())
}

fn brace(v: Vec<Tok>) -> Tok {
    Tok::Group(Delim::Brace, v)
}

fn paren(v: Vec<Tok>) -> Tok {
    Tok::Group(Delim::Paren, v)
}

/// `x = fetch_a() => { x.process() }, default { fallback() }`
fn scenario_input() -> Vec<Tok> {
    vec![
        id("x"),
        Tok::Assign,
        id("fetch_a"),
        paren(vec![]),
        Tok::FatArrow,
        brace(vec![id("x"), ot("."), id("process"), paren(vec![])]),
        Tok::Comma,
        id("default"),
        brace(vec![id("fallback"), paren(vec![])]),
    ]
}

fn clone_toks(v: &[Tok]) -> Vec<Tok> {
    v.iter()
        .map(|t| match t {
            Tok::Ident(s) => Tok::Ident(s.clone()),
            Tok::Assign => Tok::Assign,
            Tok::FatArrow => Tok::FatArrow,
            Tok::Comma => Tok::Comma,
            Tok::Group(Delim::Paren, g) => Tok::Group(Delim::Paren, clone_toks(g)),
            Tok::Group(Delim::Brace, g) => Tok::Group(Delim::Brace, clone_toks(g)),
            Tok::Group(Delim::Bracket, g) => Tok::Group(Delim::Bracket, clone_toks(g)),
            Tok::Group(Delim::Invisible, g) => Tok::Group(Delim::Invisible, clone_toks(g)),
            Tok::Other(s) => Tok::Other(s.clone()),
        })
        .collect()
}

fn count_top_else(v: &[Tok]) -> usize {
    v.iter()
        .filter(|t| match t {
            Tok::Ident(s) => s == "else",
            _ => false,
        })
        .count()
}

#[test]
fn passthrough_wraps_input_verbatim() {
    let out = real_select(scenario_input());
    assert_eq!(out.len(), 6);
    assert_eq!(out[0], ot("::"));
    assert_eq!(out[1], id("futures"));
    assert_eq!(out[2], ot("::"));
    assert_eq!(out[3], id("select"));
    assert_eq!(out[4], ot("!"));
    assert_eq!(out[5], brace(scenario_input()));
}

#[test]
fn arm_count_preserved_in_dummy_mode() {
    let arms = parse_arms(scenario_input()).unwrap();
    assert_eq!(arms.len(), 2);
    let out = dummy_select_for_ide(arms);
    // one `else` per arm, plus the single closing `else` of the guard
    assert_eq!(count_top_else(&out), 3);
    // 3 guard tokens + 15 + 4 fragment tokens + 2 closing tokens
    assert_eq!(out.len(), 24);
}

#[test]
fn bodies_preserved_verbatim_in_both_modes() {
    let body_a = vec![id("x"), ot("."), id("process"), paren(vec![])];
    let body_b = vec![id("fallback"), paren(vec![])];
    // passthrough: the whole input, bodies included, is the wrapper interior
    let p = real_select(scenario_input());
    match &p[5] {
        Tok::Group(Delim::Brace, inner) => {
            assert_eq!(inner[5], brace(clone_toks(&body_a)));
            assert_eq!(inner[8], brace(clone_toks(&body_b)));
        },
        _ => panic!("passthrough interior missing"),
    }
    // dummy mode: each fragment ends with its own body group
    let out = dummy_select_for_ide(parse_arms(scenario_input()).unwrap());
    assert_eq!(out[3 + 14], brace(body_a));
    assert_eq!(out[3 + 15 + 3], brace(body_b));
}

#[test]
fn reserved_keyword_arm_needs_no_expression() {
    let arms = parse_arms(vec![id("default"), brace(vec![id("X")])]).unwrap();
    assert_eq!(arms.len(), 1);
    assert_eq!(arms[0].binding, Binding::DefaultArm);
    assert_eq!(arms[0].expr, None);
    assert_eq!(arms[0].body, vec![id("X")]);

    let arms = parse_arms(vec![id("complete"), brace(vec![id("Y")])]).unwrap();
    assert_eq!(arms[0].binding, Binding::CompleteArm);
    assert_eq!(arms[0].expr, None);
}

#[test]
fn reserved_keyword_with_expression_fails_structurally() {
    // `default = foo() => { X }` must fail, not coerce
    let e = parse_arms(vec![
        id("default"),
        Tok::Assign,
        id("foo"),
        paren(vec![]),
        Tok::FatArrow,
        brace(vec![id("X")]),
    ])
    .unwrap_err();
    assert_eq!(e.kind, ErrorKind::ExpectedBody);
    assert_eq!(e.pos, 1);
}

#[test]
fn missing_separator_fails() {
    // `a = foo() { X }`: no `=>` anywhere, so the error points at the
    // unexpected brace group standing where the separator was owed
    let e = parse_arms(vec![
        id("a"),
        Tok::Assign,
        id("foo"),
        paren(vec![]),
        brace(vec![id("X")]),
    ])
    .unwrap_err();
    assert_eq!(e.kind, ErrorKind::ExpectedFatArrow);
    assert_eq!(e.pos, 4);
}

#[test]
fn mode_toggle_switches_generator_path() {
    let p = select(scenario_input(), false).unwrap();
    let d = select(scenario_input(), true).unwrap();
    assert_ne!(p, d);
    // forwarding wrapper marker vs. synthetic poll marker
    assert_eq!(p[0], ot("::"));
    assert_eq!(p[3], id("select"));
    assert_eq!(d[0], id("if"));
    assert!(d.iter().any(|t| *t == id("Poll")));
    assert!(!p.iter().any(|t| *t == id("Poll")));
}

#[test]
fn shorthand_body_parses_like_braced_single_token() {
    let short = parse_arms(vec![
        id("a"),
        Tok::Assign,
        id("foo"),
        paren(vec![]),
        Tok::FatArrow,
        id("bar"),
    ])
    .unwrap();
    let braced = parse_arms(vec![
        id("a"),
        Tok::Assign,
        id("foo"),
        paren(vec![]),
        Tok::FatArrow,
        brace(vec![id("bar")]),
    ])
    .unwrap();
    assert_eq!(short, braced);
    assert_eq!(short[0].body, vec![id("bar")]);
}

#[test]
fn discard_binding_takes_expression() {
    let arms = parse_arms(vec![
        id("_"),
        Tok::Assign,
        id("pending"),
        paren(vec![]),
        Tok::FatArrow,
        brace(vec![]),
    ])
    .unwrap();
    assert_eq!(arms[0].binding, Binding::Discard);
    assert_eq!(arms[0].expr, Some(vec![id("pending"), paren(vec![])]));
}

#[test]
fn error_positions_point_at_offending_token() {
    // arm must start with an identifier
    let e = parse_arms(vec![Tok::Comma]).unwrap_err();
    assert_eq!((e.pos, e.kind), (0, ErrorKind::ExpectedArm));
    // named binding must be followed by `=`
    let e = parse_arms(vec![id("a"), id("b")]).unwrap_err();
    assert_eq!((e.pos, e.kind), (1, ErrorKind::ExpectedEq));
    // `=` at the very end of the input
    let e = parse_arms(vec![id("a")]).unwrap_err();
    assert_eq!((e.pos, e.kind), (1, ErrorKind::ExpectedEq));
    // no `=>` anywhere after the expression: the last token is named
    let e = parse_arms(vec![id("a"), Tok::Assign, id("x")]).unwrap_err();
    assert_eq!((e.pos, e.kind), (2, ErrorKind::ExpectedFatArrow));
    // no `=>` and nothing at all after the `=`: no token to point at
    let e = parse_arms(vec![id("a"), Tok::Assign]).unwrap_err();
    assert_eq!((e.pos, e.kind), (2, ErrorKind::ExpectedFatArrow));
    // body missing after `=>`
    let e = parse_arms(vec![id("a"), Tok::Assign, Tok::FatArrow]).unwrap_err();
    assert_eq!((e.pos, e.kind), (3, ErrorKind::ExpectedBody));
    // body is neither a brace group nor an identifier
    let e = parse_arms(vec![id("a"), Tok::Assign, Tok::FatArrow, Tok::Comma]).unwrap_err();
    assert_eq!((e.pos, e.kind), (3, ErrorKind::ExpectedBody));
}

#[test]
fn fat_arrow_inside_group_does_not_end_expression() {
    let arms = parse_arms(vec![
        id("a"),
        Tok::Assign,
        paren(vec![Tok::FatArrow]),
        Tok::FatArrow,
        brace(vec![]),
    ])
    .unwrap();
    assert_eq!(arms[0].expr, Some(vec![paren(vec![Tok::FatArrow])]));
}

#[test]
fn empty_expression_is_tolerated() {
    let arms = parse_arms(vec![id("a"), Tok::Assign, Tok::FatArrow, brace(vec![id("b")])])
        .unwrap();
    assert_eq!(arms[0].expr, Some(vec![]));
    assert_eq!(arms[0].body, vec![id("b")]);
}

#[test]
fn trailing_comma_is_optional() {
    let with = parse_arms(vec![
        id("a"),
        Tok::Assign,
        id("x"),
        Tok::FatArrow,
        brace(vec![id("y")]),
        Tok::Comma,
    ])
    .unwrap();
    let without = parse_arms(vec![
        id("a"),
        Tok::Assign,
        id("x"),
        Tok::FatArrow,
        brace(vec![id("y")]),
    ])
    .unwrap();
    assert_eq!(with, without);
    assert_eq!(with.len(), 1);
}

#[test]
fn empty_input_yields_no_arms() {
    let arms = parse_arms(vec![]).unwrap();
    assert_eq!(arms, Vec::<Arm>::new());
    let out = dummy_select_for_ide(arms);
    assert_eq!(out.len(), 5);
    assert_eq!(out[0], id("if"));
    assert_eq!(out[1], id("false"));
    assert_eq!(out[3], id("else"));
}

#[test]
fn named_fragment_exposes_binding_and_expression() {
    let out = dummy_select_for_ide(parse_arms(scenario_input()).unwrap());
    // synthetic binding `x` in the pattern position of the first fragment
    assert_eq!(out[3 + 11], paren(vec![id("x")]));
    // the captured expression stands verbatim inside the scrutinee block
    match &out[3 + 13] {
        Tok::Group(Delim::Brace, s) => {
            assert_eq!(s[0], id("let"));
            assert_eq!(s[5], id("fetch_a"));
            assert_eq!(s[6], paren(vec![]));
            assert_eq!(s[7], ot(";"));
        },
        _ => panic!("scrutinee block missing"),
    }
    // the reserved-keyword fragment has no synthetic binding
    assert_eq!(out[3 + 15], id("else"));
    assert_eq!(out[3 + 16], id("if"));
    assert_eq!(out[3 + 17], id("false"));
}

#[test]
fn mode_signal_interpretation() {
    assert!(!mode_enabled(None));
    assert!(!mode_enabled(Some("0".to_string())));
    assert!(!mode_enabled(Some("false".to_string())));
    assert!(mode_enabled(Some("".to_string())));
    assert!(mode_enabled(Some("1".to_string())));
    assert!(mode_enabled(Some("TRUE".to_string())));
    assert!(mode_enabled(Some("False".to_string())));
}

#[test]
fn passthrough_never_consults_the_parser() {
    // structurally broken input still passes through unchanged
    let broken = vec![Tok::Comma, Tok::Comma];
    assert!(parse_arms(vec![Tok::Comma, Tok::Comma]).is_err());
    let out = select(broken, false).unwrap();
    assert_eq!(out[5], brace(vec![Tok::Comma, Tok::Comma]));
    // while completion-friendly mode reports the structural error
    let e = select(vec![Tok::Comma, Tok::Comma], true).unwrap_err();
    assert_eq!((e.pos, e.kind), (0, ErrorKind::ExpectedArm));
}
