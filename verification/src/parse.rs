//! The structural parser: segments a raw token sequence into arms without
//! interpreting expression or body contents, or fails with an error
//! positioned at the offending token.

use vstd::prelude::*;
use vstd::assert_seqs_equal;
use crate::token::{arm_wf, Arm, Binding, Delim, Tok};

verus! {

/// Which structural rule the input broke.
#[derive(Debug, Clone, Copy, PartialEq, Eq)]
pub enum ErrorKind {
    /// An arm must begin with an identifier, `_`, or a reserved keyword.
    ExpectedArm,
    /// A named or discard binding must be followed by `=`.
    ExpectedEq,
    /// The expression span must be closed by `=>`.
    ExpectedFatArrow,
    /// An arm body must be a brace group or a bare identifier.
    ExpectedBody,
}

/// A structural syntax error: the kind of rule broken, and the index of the
/// offending token in the input sequence. When the input ends where a token
/// was owed and no token can be pointed at, the index is the input length.
#[derive(Debug, PartialEq, Eq)]
pub struct ParseError {
    pub pos: usize,
    pub kind: ErrorKind,
}

/// The two reserved keywords that introduce an arm with no expression.
pub open spec fn special_name(s: Seq<char>) -> bool {
    s == "default"@ || s == "complete"@
}

/// The text of an identifier token.
pub open spec fn ident_text(t: Tok) -> Seq<char>
    recommends
        t is Ident,
{
    match t {
        Tok::Ident(s) => s@,
        _ => Seq::empty(),
    }
}

/// The index of the first `=>` at or after `i`, or the input length if none.
pub open spec fn fat_arrow_pos(input: Seq<Tok>, i: int) -> int
    decreases input.len() - i,
{
    if i >= input.len() {
        input.len() as int
    } else if input[i] is FatArrow {
        i
    } else {
        fat_arrow_pos(input, i + 1)
    }
}

pub proof fn lemma_fat_arrow_pos(input: Seq<Tok>, i: int)
    requires
        0 <= i <= input.len(),
    ensures
        i <= fat_arrow_pos(input, i) <= input.len(),
        fat_arrow_pos(input, i) < input.len() ==> input[fat_arrow_pos(input, i)] is FatArrow,
        forall|j: int| i <= j < fat_arrow_pos(input, i) ==> !(input[j] is FatArrow),
    decreases input.len() - i,
{
    if i < input.len() && !(input[i] is FatArrow) {
        lemma_fat_arrow_pos(input, i + 1);
    }
}

/// The outcome of scanning one arm: where it went wrong, or where its body
/// token stands and where the arm ends (before any separator).
pub enum ArmScan {
    Bad { pos: int, kind: ErrorKind },
    Good { bodyi: int, end: int },
}

/// Scan the body position of an arm: a brace group or a bare identifier.
pub open spec fn scan_body(input: Seq<Tok>, k: int) -> ArmScan {
    if k >= input.len() {
        ArmScan::Bad { pos: input.len() as int, kind: ErrorKind::ExpectedBody }
    } else if input[k] matches Tok::Group(Delim::Brace, _) {
        ArmScan::Good { bodyi: k, end: k + 1 }
    } else if input[k] is Ident {
        ArmScan::Good { bodyi: k, end: k + 1 }
    } else {
        ArmScan::Bad { pos: k, kind: ErrorKind::ExpectedBody }
    }
}

/// Scan one arm starting at `i`: a leading identifier, then (for named and
/// discard bindings) `=`, an opaque expression span and `=>`, then the body.
pub open spec fn scan_arm(input: Seq<Tok>, i: int) -> ArmScan
    recommends
        0 <= i < input.len(),
{
    if !(input[i] is Ident) {
        ArmScan::Bad { pos: i, kind: ErrorKind::ExpectedArm }
    } else if special_name(ident_text(input[i])) {
        scan_body(input, i + 1)
    } else if i + 1 >= input.len() || !(input[i + 1] is Assign) {
        ArmScan::Bad { pos: i + 1, kind: ErrorKind::ExpectedEq }
    } else if fat_arrow_pos(input, i + 2) >= input.len() {
        // no `=>` anywhere: the error points at the input's last token, the
        // unexpected token standing where the separator was owed; only an
        // expression span empty at the end of input leaves no token to name
        ArmScan::Bad {
            pos: if i + 2 < input.len() {
                input.len() - 1
            } else {
                input.len() as int
            },
            kind: ErrorKind::ExpectedFatArrow,
        }
    } else {
        scan_body(input, fat_arrow_pos(input, i + 2) + 1)
    }
}

pub proof fn lemma_scan_arm_good(input: Seq<Tok>, i: int)
    requires
        0 <= i < input.len(),
    ensures
        scan_arm(input, i) matches ArmScan::Good { bodyi, end } ==> i < bodyi < input.len()
            && end == bodyi + 1,
{
    if input[i] is Ident && !special_name(ident_text(input[i])) && i + 1 < input.len()
        && input[i + 1] is Assign {
        lemma_fat_arrow_pos(input, i + 2);
    }
}

/// The start of the next arm after one ending at `end`: one optional comma
/// separator is consumed.
pub open spec fn next_arm_start(input: Seq<Tok>, end: int) -> int {
    if end < input.len() && input[end] is Comma {
        end + 1
    } else {
        end
    }
}

/// Whether segmenting the whole input into arms fails.
pub open spec fn parse_fails(input: Seq<Tok>, i: int) -> bool
    decreases input.len() - i,
    when 0 <= i
    via parse_fails_decreases
{
    if i >= input.len() {
        false
    } else {
        match scan_arm(input, i) {
            ArmScan::Bad { .. } => true,
            ArmScan::Good { bodyi: _, end } => parse_fails(input, next_arm_start(input, end)),
        }
    }
}

#[via_fn]
proof fn parse_fails_decreases(input: Seq<Tok>, i: int) {
    if i < input.len() {
        lemma_scan_arm_good(input, i);
    }
}

/// The position and kind of the first structural error, meaningful only when
/// `parse_fails` holds.
pub open spec fn parse_err(input: Seq<Tok>, i: int) -> (int, ErrorKind)
    decreases input.len() - i,
    when 0 <= i
    via parse_err_decreases
{
    if i >= input.len() {
        (input.len() as int, ErrorKind::ExpectedArm)
    } else {
        match scan_arm(input, i) {
            ArmScan::Bad { pos, kind } => (pos, kind),
            ArmScan::Good { bodyi: _, end } => parse_err(input, next_arm_start(input, end)),
        }
    }
}

#[via_fn]
proof fn parse_err_decreases(input: Seq<Tok>, i: int) {
    if i < input.len() {
        lemma_scan_arm_good(input, i);
    }
}

/// The binding that the leading identifier token `t` denotes.
pub open spec fn binding_matches(t: Tok, b: Binding) -> bool {
    t matches Tok::Ident(s) && (if s@ == "default"@ {
        b is DefaultArm
    } else if s@ == "complete"@ {
        b is CompleteArm
    } else if s@ == "_"@ {
        b is Discard
    } else {
        b matches Binding::Named(n) && n@ == s@
    })
}

/// The expression span of the arm starting at `i`: absent for a reserved
/// keyword, otherwise exactly the tokens between `=` and the first `=>`.
pub open spec fn expr_matches(input: Seq<Tok>, i: int, a: Arm) -> bool {
    if special_name(ident_text(input[i])) {
        a.expr is None
    } else {
        a.expr matches Some(e) && e@ == input.subrange(i + 2, fat_arrow_pos(input, i + 2))
    }
}

/// The body span that the body token `t` denotes: the interior of a brace
/// group, or the single bare identifier itself.
pub open spec fn body_matches(t: Tok, body: Seq<Tok>) -> bool {
    match t {
        Tok::Group(Delim::Brace, v) => body == v@,
        Tok::Ident(_) => body =~= seq![t],
        _ => false,
    }
}

/// The arm starting at `i` parses to exactly `a`.
pub open spec fn arm_at(input: Seq<Tok>, i: int, a: Arm) -> bool {
    match scan_arm(input, i) {
        ArmScan::Bad { .. } => false,
        ArmScan::Good { bodyi, end: _ } => {
            &&& binding_matches(input[i], a.binding)
            &&& expr_matches(input, i, a)
            &&& body_matches(input[bodyi], a.body@)
        },
    }
}

/// The input from `i` on segments into exactly the arms `arms`, in order.
pub open spec fn arms_match(input: Seq<Tok>, i: int, arms: Seq<Arm>) -> bool
    decreases input.len() - i,
    when 0 <= i
    via arms_match_decreases
{
    if i >= input.len() {
        arms.len() == 0
    } else {
        match scan_arm(input, i) {
            ArmScan::Bad { .. } => false,
            ArmScan::Good { bodyi: _, end } => {
                &&& arms.len() > 0
                &&& arm_at(input, i, arms[0])
                &&& arms_match(input, next_arm_start(input, end), arms.skip(1))
            },
        }
    }
}

#[via_fn]
proof fn arms_match_decreases(input: Seq<Tok>, i: int, arms: Seq<Arm>) {
    if i < input.len() {
        lemma_scan_arm_good(input, i);
    }
}

proof fn lemma_subrange_snoc(s: Seq<Tok>, a: int, b: int)
    requires
        0 <= a <= b < s.len(),
    ensures
        s.subrange(a, b + 1) == s.subrange(a, b).push(s[b]),
{
    assert(s.subrange(a, b + 1) =~= s.subrange(a, b).push(s[b]));
}

pub proof fn lemma_fat_arrow_pos_unique(input: Seq<Tok>, a: int, p: int)
    requires
        0 <= a <= p <= input.len(),
        forall|j: int| a <= j < p ==> !(input[j] is FatArrow),
        p < input.len() ==> input[p] is FatArrow,
    ensures
        fat_arrow_pos(input, a) == p,
    decreases p - a,
{
    if a < p {
        lemma_fat_arrow_pos_unique(input, a + 1, p);
    }
}

/// `s` equals the text `kw`.
fn is_kw(s: &String, kw: &str) -> (r: bool)
    ensures
        r == (s@ == kw@),
{
    let k: String = kw.to_owned();
    *s == k
}

fn is_fat_arrow(t: &Tok) -> (r: bool)
    ensures
        r == (*t is FatArrow),
{
    match *t {
        Tok::FatArrow => true,
        _ => false,
    }
}

fn is_comma(t: &Tok) -> (r: bool)
    ensures
        r == (*t is Comma),
{
    match *t {
        Tok::Comma => true,
        _ => false,
    }
}

fn pop_front(toks: &mut Vec<Tok>) -> (t: Tok)
    requires
        old(toks)@.len() > 0,
    ensures
        t == old(toks)@[0],
        final(toks)@ == old(toks)@.skip(1),
{
    let t = toks.remove(0);
    proof {
        assert(toks@ =~= old(toks)@.skip(1));
    }
    t
}

/// Segment a raw token sequence into its ordered list of arms, or report the
/// first structural error with the index of the offending token. Expression
/// and body contents are captured verbatim, never interpreted.
pub fn parse_arms(tokens: Vec<Tok>) -> (r: Result<Vec<Arm>, ParseError>)
    ensures
        r is Ok <==> !parse_fails(tokens@, 0),
        (r matches Ok(arms) ==> arms_match(tokens@, 0, arms@)),
        (r matches Ok(arms) ==> forall|k: int| 0 <= k < arms@.len() ==> arm_wf(#[trigger] arms@[k])),
        (r matches Err(e) ==> e.pos == parse_err(tokens@, 0).0 && e.kind == parse_err(tokens@, 0).1),
{
    let n_total: usize = tokens.len();
    let ghost input = tokens@;
    let mut toks = tokens;
    let mut arms: Vec<Arm> = Vec::new();
    let mut pos: usize = 0;

    while toks.len() > 0
        invariant
            input == tokens@,
            input.len() == n_total as int,
            pos <= input.len(),
            toks@ == input.subrange(pos as int, input.len() as int),
            parse_fails(input, 0) == parse_fails(input, pos as int),
            parse_fails(input, pos as int) ==> parse_err(input, 0) == parse_err(
                input,
                pos as int,
            ),
            forall|rest: Seq<Arm>|
                arms_match(input, pos as int, rest) ==> arms_match(input, 0, arms@ + rest),
            forall|k: int| 0 <= k < arms@.len() ==> arm_wf(#[trigger] arms@[k]),
        decreases toks@.len(),
    {
        let ghost i = pos as int;
        let ghost arms_before = arms@;
        assert(toks@[0] == input[i]);
        let t = pop_front(&mut toks);
        pos = pos + 1;
        proof {
            assert(toks@ =~= input.subrange(pos as int, input.len() as int));
        }
        match t {
            Tok::Ident(name) => {
                let is_default = is_kw(&name, "default");
                let is_complete = is_kw(&name, "complete");
                let special = is_default || is_complete;
                proof {
                    assert(special == special_name(ident_text(input[i])));
                }
                let binding = if is_default {
                    Binding::DefaultArm
                } else if is_complete {
                    Binding::CompleteArm
                } else if is_kw(&name, "_") {
                    Binding::Discard
                } else {
                    Binding::Named(name)
                };
                assert(binding_matches(input[i], binding));
                let expr: Option<Vec<Tok>> = if !special {
                    // require `=`
                    let eq_ok = if toks.len() == 0 {
                        false
                    } else {
                        match &toks[0] {
                            Tok::Assign => true,
                            _ => false,
                        }
                    };
                    if !eq_ok {
                        proof {
                            assert(scan_arm(input, i) == ArmScan::Bad {
                                pos: i + 1,
                                kind: ErrorKind::ExpectedEq,
                            });
                        }
                        return Err(ParseError { pos, kind: ErrorKind::ExpectedEq });
                    }
                    let _ = pop_front(&mut toks);
                    pos = pos + 1;
                    proof {
                        assert(toks@ =~= input.subrange(pos as int, input.len() as int));
                    }
                    // capture opaque expression tokens until `=>`
                    let mut e: Vec<Tok> = Vec::new();
                    proof {
                        assert(e@ =~= input.subrange(i + 2, pos as int));
                    }
                    while toks.len() > 0 && !is_fat_arrow(&toks[0])
                        invariant
                            0 <= i,
                            input.len() == n_total as int,
                            i + 2 <= pos <= input.len(),
                            toks@ == input.subrange(pos as int, input.len() as int),
                            e@ == input.subrange(i + 2, pos as int),
                            forall|j: int| i + 2 <= j < pos ==> !(input[j] is FatArrow),
                        decreases toks@.len(),
                    {
                        let ghost p0 = pos as int;
                        let tt = pop_front(&mut toks);
                        pos = pos + 1;
                        e.push(tt);
                        proof {
                            assert(tt == input.subrange(p0, input.len() as int)[0]);
                            assert(tt == input[p0]);
                            assert(toks@ =~= input.subrange(pos as int, input.len() as int));
                            assert(pos as int == p0 + 1);
                            assert(e@ == input.subrange(i + 2, p0).push(input[p0]));
                            lemma_subrange_snoc(input, i + 2, p0);
                            assert(e@ =~= input.subrange(i + 2, pos as int));
                        }
                    }
                    proof {
                        if toks.len() > 0 {
                            assert(input[pos as int] is FatArrow);
                        }
                        lemma_fat_arrow_pos_unique(input, i + 2, pos as int);
                    }
                    if toks.len() == 0 {
                        let at = if e.len() > 0 {
                            pos - 1
                        } else {
                            pos
                        };
                        proof {
                            assert(e@.len() == pos - (i + 2));
                            assert(scan_arm(input, i) == ArmScan::Bad {
                                pos: at as int,
                                kind: ErrorKind::ExpectedFatArrow,
                            });
                        }
                        return Err(ParseError { pos: at, kind: ErrorKind::ExpectedFatArrow });
                    }
                    let _ = pop_front(&mut toks);
                    pos = pos + 1;
                    proof {
                        assert(toks@ =~= input.subrange(pos as int, input.len() as int));
                    }
                    Some(e)
                } else {
                    None
                };
                // the body: a brace group or a bare identifier
                let ghost k = pos as int;
                proof {
                    if special {
                        assert(k == i + 1);
                    } else {
                        assert(k == fat_arrow_pos(input, i + 2) + 1);
                    }
                }
                if toks.len() == 0 {
                    proof {
                        assert(scan_body(input, k) == ArmScan::Bad {
                            pos: input.len() as int,
                            kind: ErrorKind::ExpectedBody,
                        });
                    }
                    return Err(ParseError { pos, kind: ErrorKind::ExpectedBody });
                }
                let bt = pop_front(&mut toks);
                pos = pos + 1;
                proof {
                    assert(toks@ =~= input.subrange(pos as int, input.len() as int));
                }
                let body: Vec<Tok> = match bt {
                    Tok::Group(Delim::Brace, inner) => inner,
                    Tok::Ident(n2) => {
                        let mut b: Vec<Tok> = Vec::new();
                        b.push(Tok::Ident(n2));
                        b
                    },
                    _ => {
                        proof {
                            assert(scan_body(input, k) == ArmScan::Bad {
                                pos: k,
                                kind: ErrorKind::ExpectedBody,
                            });
                        }
                        return Err(ParseError { pos: pos - 1, kind: ErrorKind::ExpectedBody });
                    },
                };
                proof {
                    assert(scan_body(input, k) == ArmScan::Good { bodyi: k, end: k + 1 });
                    assert(scan_arm(input, i) == ArmScan::Good { bodyi: k, end: k + 1 });
                    assert(body_matches(input[k], body@));
                }
                let arm = Arm { binding, expr, body };
                proof {
                    assert(arm_at(input, i, arm));
                    assert(arm_wf(arm));
                }
                arms.push(arm);
                // one optional `,` separator between arms
                let ghost end = pos as int;
                if toks.len() > 0 {
                    let comma = is_comma(&toks[0]);
                    if comma {
                        let _ = pop_front(&mut toks);
                        pos = pos + 1;
                        proof {
                            assert(toks@ =~= input.subrange(pos as int, input.len() as int));
                        }
                    }
                }
                proof {
                    assert(pos as int == next_arm_start(input, end));
                    // the accumulated arms still parse the consumed prefix
                    assert forall|rest: Seq<Arm>|
                        arms_match(input, pos as int, rest) implies arms_match(
                        input,
                        0,
                        arms@ + rest,
                    ) by {
                        let one = seq![arm] + rest;
                        assert(one[0] == arm);
                        assert(one.skip(1) =~= rest);
                        assert(arms_match(input, i, one));
                        assert(arms_match(input, 0, arms_before + one));
                        assert(arms@ + rest =~= arms_before + one);
                    }
                }
            },
            _ => {
                proof {
                    assert(scan_arm(input, i) == ArmScan::Bad {
                        pos: i,
                        kind: ErrorKind::ExpectedArm,
                    });
                }
                return Err(ParseError { pos: pos - 1, kind: ErrorKind::ExpectedArm });
            },
        }
    }
    proof {
        assert(!parse_fails(input, pos as int));
        assert(arms_match(input, pos as int, Seq::<Arm>::empty()));
        assert(arms@ + Seq::<Arm>::empty() =~= arms@);
    }
    Ok(arms)
}

} // verus!
