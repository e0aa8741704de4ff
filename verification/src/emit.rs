//! The dual-mode generator. Passthrough mode wraps the verbatim input in an
//! invocation of the real multi-way-wait facility. Completion-friendly mode
//! synthesizes, per arm, an `else if` fragment that keeps the expression in
//! value position, binds the arm's name from a never-taken poll, and places
//! the body tokens where analysis reaches them; a never-true guard before and
//! a final `else` after defeat unreachability inference.

use vstd::prelude::*;
use crate::token::{arm_wf, binding_pat, seg_at, tok_brace, tok_ident, tok_other, Arm, Binding,
    Delim, Tok};

verus! {

/// Passthrough output: `::futures::select! { <input> }`, the original tokens
/// carried unchanged as the group interior.
pub open spec fn passthrough_matches(out: Seq<Tok>, input: Seq<Tok>) -> bool {
    &&& out.len() == 6
    &&& seg_at(out, 0, "futures"@)
    &&& seg_at(out, 2, "select"@)
    &&& tok_other(out[4], "!"@)
    &&& tok_brace(out[5], input)
}

/// The interior of a guard block: `unreachable!();`.
pub open spec fn unreachable_call_matches(u: Seq<Tok>) -> bool {
    &&& u.len() == 4
    &&& tok_ident(u[0], "unreachable"@)
    &&& tok_other(u[1], "!"@)
    &&& (u[2] matches Tok::Group(Delim::Paren, g) && g@.len() == 0)
    &&& tok_other(u[3], ";"@)
}

/// The interior of the pinning call: `::core::pin::Pin::new_unchecked(fut)`.
pub open spec fn pin_call_matches(c: Seq<Tok>) -> bool {
    &&& c.len() == 9
    &&& seg_at(c, 0, "core"@)
    &&& seg_at(c, 2, "pin"@)
    &&& seg_at(c, 4, "Pin"@)
    &&& seg_at(c, 6, "new_unchecked"@)
    &&& (c[8] matches Tok::Group(Delim::Paren, g) && g@.len() == 1 && tok_ident(g@[0], "fut"@))
}

/// The waker argument: `&::futures::task::noop_waker()`.
pub open spec fn waker_args_matches(w: Seq<Tok>) -> bool {
    &&& w.len() == 8
    &&& tok_other(w[0], "&"@)
    &&& seg_at(w, 1, "futures"@)
    &&& seg_at(w, 3, "task"@)
    &&& seg_at(w, 5, "noop_waker"@)
    &&& (w[7] matches Tok::Group(Delim::Paren, g) && g@.len() == 0)
}

/// The poll arguments:
/// `&mut fut, &mut ::futures::task::Context::from_waker(<waker>),`.
pub open spec fn poll_args_matches(a: Seq<Tok>) -> bool {
    &&& a.len() == 16
    &&& tok_other(a[0], "&"@)
    &&& tok_ident(a[1], "mut"@)
    &&& tok_ident(a[2], "fut"@)
    &&& a[3] is Comma
    &&& tok_other(a[4], "&"@)
    &&& tok_ident(a[5], "mut"@)
    &&& seg_at(a, 6, "futures"@)
    &&& seg_at(a, 8, "task"@)
    &&& seg_at(a, 10, "Context"@)
    &&& seg_at(a, 12, "from_waker"@)
    &&& (a[14] matches Tok::Group(Delim::Paren, g) && waker_args_matches(g@))
    &&& a[15] is Comma
}

/// The scrutinee block of a named-arm fragment: it takes a reference to the
/// captured expression, pins it, asserts fused-future shape, and polls once
/// with a no-op waker. The expression tokens stand verbatim at offset 5.
pub open spec fn scrutinee_matches(s: Seq<Tok>, expr: Seq<Tok>) -> bool {
    let e = expr.len() as int;
    &&& s.len() == 35 + e
    &&& tok_ident(s[0], "let"@)
    &&& tok_ident(s[1], "fut"@)
    &&& s[2] is Assign
    &&& tok_other(s[3], "&"@)
    &&& tok_ident(s[4], "mut"@)
    &&& s.subrange(5, 5 + e) == expr
    &&& tok_other(s[5 + e], ";"@)
    &&& tok_ident(s[6 + e], "let"@)
    &&& tok_ident(s[7 + e], "mut"@)
    &&& tok_ident(s[8 + e], "fut"@)
    &&& s[9 + e] is Assign
    &&& tok_ident(s[10 + e], "unsafe"@)
    &&& (s[11 + e] matches Tok::Group(Delim::Brace, g) && pin_call_matches(g@))
    &&& tok_other(s[12 + e], ";"@)
    &&& tok_ident(s[13 + e], "let"@)
    &&& tok_ident(s[14 + e], "_"@)
    &&& s[15 + e] is Assign
    &&& seg_at(s, 16 + e, "futures"@)
    &&& seg_at(s, 18 + e, "future"@)
    &&& seg_at(s, 20 + e, "FusedFuture"@)
    &&& seg_at(s, 22 + e, "is_terminated"@)
    &&& (s[24 + e] matches Tok::Group(Delim::Paren, g) && g@.len() == 2 && tok_other(g@[0], "&"@)
        && tok_ident(g@[1], "fut"@))
    &&& tok_other(s[25 + e], ";"@)
    &&& seg_at(s, 26 + e, "futures"@)
    &&& seg_at(s, 28 + e, "future"@)
    &&& seg_at(s, 30 + e, "FutureExt"@)
    &&& seg_at(s, 32 + e, "poll_unpin"@)
    &&& (s[34 + e] matches Tok::Group(Delim::Paren, g) && poll_args_matches(g@))
}

/// A named or discard arm's fragment:
/// `else if let ::futures::task::Poll::Ready(<pat>) = { <scrutinee> } { <body> }`.
pub open spec fn named_frag_matches(f: Seq<Tok>, pat: Seq<char>, expr: Seq<Tok>, body: Seq<
    Tok,
>) -> bool {
    &&& f.len() == 15
    &&& tok_ident(f[0], "else"@)
    &&& tok_ident(f[1], "if"@)
    &&& tok_ident(f[2], "let"@)
    &&& seg_at(f, 3, "futures"@)
    &&& seg_at(f, 5, "task"@)
    &&& seg_at(f, 7, "Poll"@)
    &&& seg_at(f, 9, "Ready"@)
    &&& (f[11] matches Tok::Group(Delim::Paren, g) && g@.len() == 1 && tok_ident(g@[0], pat))
    &&& f[12] is Assign
    &&& (f[13] matches Tok::Group(Delim::Brace, g) && scrutinee_matches(g@, expr))
    &&& tok_brace(f[14], body)
}

/// A reserved-keyword arm's fragment: `else if false { <body> }`, reachable
/// for analysis, with no synthetic binding.
pub open spec fn special_frag_matches(f: Seq<Tok>, body: Seq<Tok>) -> bool {
    &&& f.len() == 4
    &&& tok_ident(f[0], "else"@)
    &&& tok_ident(f[1], "if"@)
    &&& tok_ident(f[2], "false"@)
    &&& tok_brace(f[3], body)
}

/// The fragment emitted for one arm.
pub open spec fn frag_matches(f: Seq<Tok>, a: Arm) -> bool {
    if a.binding is Named || a.binding is Discard {
        a.expr matches Some(e) && named_frag_matches(f, binding_pat(a.binding), e@, a.body@)
    } else {
        special_frag_matches(f, a.body@)
    }
}

/// How many top-level tokens one arm's fragment holds.
pub open spec fn frag_len(a: Arm) -> int {
    if a.binding is Named || a.binding is Discard {
        15
    } else {
        4
    }
}

/// How many top-level tokens the fragments of `arms` hold together.
pub open spec fn frags_len(arms: Seq<Arm>) -> int
    decreases arms.len(),
{
    if arms.len() == 0 {
        0
    } else {
        frag_len(arms[0]) + frags_len(arms.skip(1))
    }
}

/// `s` is exactly the concatenation of the fragments of `arms`, in order.
pub open spec fn frags_match(s: Seq<Tok>, arms: Seq<Arm>) -> bool
    decreases arms.len(),
{
    if arms.len() == 0 {
        s.len() == 0
    } else {
        &&& s.len() >= frag_len(arms[0])
        &&& frag_matches(s.subrange(0, frag_len(arms[0])), arms[0])
        &&& frags_match(s.skip(frag_len(arms[0])), arms.skip(1))
    }
}

/// Completion-friendly output: a never-taken guard, one fragment per arm in
/// the original order, and a closing `else`, so no arm body is dead code.
pub open spec fn dummy_matches(out: Seq<Tok>, arms: Seq<Arm>) -> bool {
    &&& out.len() == 5 + frags_len(arms)
    &&& tok_ident(out[0], "if"@)
    &&& tok_ident(out[1], "false"@)
    &&& (out[2] matches Tok::Group(Delim::Brace, g) && unreachable_call_matches(g@))
    &&& frags_match(out.subrange(3, 3 + frags_len(arms)), arms)
    &&& tok_ident(out[3 + frags_len(arms)], "else"@)
    &&& (out[4 + frags_len(arms)] matches Tok::Group(Delim::Brace, g)
        && unreachable_call_matches(g@))
}

fn mk_ident(s: &str) -> (t: Tok)
    ensures
        tok_ident(t, s@),
{
    Tok::Ident(s.to_owned())
}

fn mk_other(s: &str) -> (t: Tok)
    ensures
        tok_other(t, s@),
{
    Tok::Other(s.to_owned())
}

fn push_seg(v: &mut Vec<Tok>, name: &str)
    ensures
        final(v)@.len() == old(v)@.len() + 2,
        forall|j: int| 0 <= j < old(v)@.len() ==> final(v)@[j] == old(v)@[j],
        seg_at(final(v)@, old(v)@.len() as int, name@),
{
    v.push(mk_other("::"));
    v.push(mk_ident(name));
}

fn unreachable_stmt() -> (v: Vec<Tok>)
    ensures
        unreachable_call_matches(v@),
{
    let mut v: Vec<Tok> = Vec::new();
    v.push(mk_ident("unreachable"));
    v.push(mk_other("!"));
    let args: Vec<Tok> = Vec::new();
    v.push(Tok::Group(Delim::Paren, args));
    v.push(mk_other(";"));
    v
}

fn pin_call() -> (v: Vec<Tok>)
    ensures
        pin_call_matches(v@),
{
    let mut v: Vec<Tok> = Vec::new();
    push_seg(&mut v, "core");
    push_seg(&mut v, "pin");
    push_seg(&mut v, "Pin");
    push_seg(&mut v, "new_unchecked");
    let mut args: Vec<Tok> = Vec::new();
    args.push(mk_ident("fut"));
    v.push(Tok::Group(Delim::Paren, args));
    v
}

fn waker_args() -> (v: Vec<Tok>)
    ensures
        waker_args_matches(v@),
{
    let mut v: Vec<Tok> = Vec::new();
    v.push(mk_other("&"));
    push_seg(&mut v, "futures");
    push_seg(&mut v, "task");
    push_seg(&mut v, "noop_waker");
    let args: Vec<Tok> = Vec::new();
    v.push(Tok::Group(Delim::Paren, args));
    v
}

fn poll_args() -> (v: Vec<Tok>)
    ensures
        poll_args_matches(v@),
{
    let mut v: Vec<Tok> = Vec::new();
    v.push(mk_other("&"));
    v.push(mk_ident("mut"));
    v.push(mk_ident("fut"));
    v.push(Tok::Comma);
    v.push(mk_other("&"));
    v.push(mk_ident("mut"));
    push_seg(&mut v, "futures");
    push_seg(&mut v, "task");
    push_seg(&mut v, "Context");
    push_seg(&mut v, "from_waker");
    v.push(Tok::Group(Delim::Paren, waker_args()));
    v.push(Tok::Comma);
    v
}

fn scrutinee(expr: Vec<Tok>) -> (v: Vec<Tok>)
    ensures
        scrutinee_matches(v@, expr@),
{
    let ghost e = expr@;
    let mut v: Vec<Tok> = Vec::new();
    v.push(mk_ident("let"));
    v.push(mk_ident("fut"));
    v.push(Tok::Assign);
    v.push(mk_other("&"));
    v.push(mk_ident("mut"));
    let mut ex = expr;
    v.append(&mut ex);
    proof {
        assert(v@.subrange(5, 5 + e.len() as int) =~= e);
    }
    v.push(mk_other(";"));
    v.push(mk_ident("let"));
    v.push(mk_ident("mut"));
    v.push(mk_ident("fut"));
    v.push(Tok::Assign);
    v.push(mk_ident("unsafe"));
    v.push(Tok::Group(Delim::Brace, pin_call()));
    v.push(mk_other(";"));
    v.push(mk_ident("let"));
    v.push(mk_ident("_"));
    v.push(Tok::Assign);
    push_seg(&mut v, "futures");
    push_seg(&mut v, "future");
    push_seg(&mut v, "FusedFuture");
    push_seg(&mut v, "is_terminated");
    let mut af: Vec<Tok> = Vec::new();
    af.push(mk_other("&"));
    af.push(mk_ident("fut"));
    v.push(Tok::Group(Delim::Paren, af));
    v.push(mk_other(";"));
    push_seg(&mut v, "futures");
    push_seg(&mut v, "future");
    push_seg(&mut v, "FutureExt");
    push_seg(&mut v, "poll_unpin");
    v.push(Tok::Group(Delim::Paren, poll_args()));
    proof {
        assert(v@.subrange(5, 5 + e.len() as int) =~= e);
    }
    v
}

fn named_frag(pat: String, expr: Vec<Tok>, body: Vec<Tok>) -> (f: Vec<Tok>)
    ensures
        named_frag_matches(f@, pat@, expr@, body@),
{
    let mut f: Vec<Tok> = Vec::new();
    f.push(mk_ident("else"));
    f.push(mk_ident("if"));
    f.push(mk_ident("let"));
    push_seg(&mut f, "futures");
    push_seg(&mut f, "task");
    push_seg(&mut f, "Poll");
    push_seg(&mut f, "Ready");
    let mut pv: Vec<Tok> = Vec::new();
    pv.push(Tok::Ident(pat));
    f.push(Tok::Group(Delim::Paren, pv));
    f.push(Tok::Assign);
    f.push(Tok::Group(Delim::Brace, scrutinee(expr)));
    f.push(Tok::Group(Delim::Brace, body));
    f
}

fn special_frag(body: Vec<Tok>) -> (f: Vec<Tok>)
    ensures
        special_frag_matches(f@, body@),
{
    let mut f: Vec<Tok> = Vec::new();
    f.push(mk_ident("else"));
    f.push(mk_ident("if"));
    f.push(mk_ident("false"));
    f.push(Tok::Group(Delim::Brace, body));
    f
}

/// Fragment lengths are never negative.
pub proof fn lemma_frags_len_nonneg(arms: Seq<Arm>)
    ensures
        frags_len(arms) >= 0,
    decreases arms.len(),
{
    if arms.len() > 0 {
        lemma_frags_len_nonneg(arms.skip(1));
    }
}

/// A fragment holds exactly `frag_len` top-level tokens.
proof fn lemma_frag_matches_len(f: Seq<Tok>, a: Arm)
    requires
        frag_matches(f, a),
    ensures
        f.len() == frag_len(a),
{
}

/// Fragments accumulate one arm at a time.
proof fn lemma_frags_snoc(s: Seq<Tok>, done: Seq<Arm>, f: Seq<Tok>, a: Arm)
    requires
        frags_match(s, done),
        frag_matches(f, a),
    ensures
        frags_match(s + f, done.push(a)),
    decreases done.len(),
{
    lemma_frag_matches_len(f, a);
    let da = done.push(a);
    if done.len() == 0 {
        assert(s + f =~= f);
        assert(da[0] == a);
        assert(da.skip(1) =~= Seq::<Arm>::empty());
        assert(f.subrange(0, frag_len(a)) =~= f);
        assert(f.skip(frag_len(a)) =~= Seq::<Tok>::empty());
        assert(frag_matches((s + f).subrange(0, frag_len(da[0])), da[0]));
        assert(frags_match((s + f).skip(frag_len(da[0])), da.skip(1)));
    } else {
        let fl = frag_len(done[0]);
        lemma_frags_snoc(s.skip(fl), done.skip(1), f, a);
        assert((s + f).subrange(0, fl) =~= s.subrange(0, fl));
        assert((s + f).skip(fl) =~= s.skip(fl) + f);
        assert(da.skip(1) =~= done.skip(1).push(a));
        assert(da[0] == done[0]);
        assert(frag_matches((s + f).subrange(0, frag_len(da[0])), da[0]));
        assert(frags_match((s + f).skip(frag_len(da[0])), da.skip(1)));
    }
}

/// The fragment lengths accumulate the same way.
proof fn lemma_frags_len_snoc(done: Seq<Arm>, a: Arm)
    ensures
        frags_len(done.push(a)) == frags_len(done) + frag_len(a),
    decreases done.len(),
{
    if done.len() == 0 {
        assert(done.push(a).skip(1) =~= Seq::<Arm>::empty());
        assert(frags_len(done.push(a).skip(1)) == 0);
    } else {
        lemma_frags_len_snoc(done.skip(1), a);
        assert(done.push(a).skip(1) =~= done.skip(1).push(a));
        assert(done.push(a)[0] == done[0]);
    }
}

fn pop_front_arm(arms: &mut Vec<Arm>) -> (a: Arm)
    requires
        old(arms)@.len() > 0,
    ensures
        a == old(arms)@[0],
        final(arms)@ == old(arms)@.skip(1),
{
    let a = arms.remove(0);
    proof {
        assert(arms@ =~= old(arms)@.skip(1));
    }
    a
}

/// Passthrough mode: wrap the verbatim input tokens in an invocation of the
/// real multi-way-wait facility, adding nothing, dropping nothing, and
/// reordering nothing inside the wrapper.
pub fn real_select(input: Vec<Tok>) -> (out: Vec<Tok>)
    ensures
        passthrough_matches(out@, input@),
{
    let mut out: Vec<Tok> = Vec::new();
    push_seg(&mut out, "futures");
    push_seg(&mut out, "select");
    out.push(mk_other("!"));
    out.push(Tok::Group(Delim::Brace, input));
    out
}

/// Completion-friendly mode: emit one fragment per arm, 1:1 and in order,
/// between an opening never-taken guard and a closing `else`.
pub fn dummy_select_for_ide(arms: Vec<Arm>) -> (out: Vec<Tok>)
    requires
        forall|k: int| 0 <= k < arms@.len() ==> arm_wf(#[trigger] arms@[k]),
    ensures
        dummy_matches(out@, arms@),
{
    let ghost all = arms@;
    let mut rem = arms;
    let mut out: Vec<Tok> = Vec::new();
    out.push(mk_ident("if"));
    out.push(mk_ident("false"));
    out.push(Tok::Group(Delim::Brace, unreachable_stmt()));
    let ghost mut done: Seq<Arm> = Seq::empty();
    proof {
        assert(out@.subrange(3, 3 + frags_len(done)) =~= Seq::<Tok>::empty());
        assert(done + rem@ =~= all);
    }
    while rem.len() > 0
        invariant
            forall|k: int| 0 <= k < all.len() ==> arm_wf(#[trigger] all[k]),
            done + rem@ == all,
            out@.len() == 3 + frags_len(done),
            tok_ident(out@[0], "if"@),
            tok_ident(out@[1], "false"@),
            (out@[2] matches Tok::Group(Delim::Brace, g) && unreachable_call_matches(g@)),
            frags_match(out@.subrange(3, out@.len() as int), done),
        decreases rem@.len(),
    {
        proof {
            assert(rem@[0] == all[done.len() as int]);
            assert(arm_wf(rem@[0]));
        }
        let a = pop_front_arm(&mut rem);
        let ghost ag = a;
        let Arm { binding, expr, body } = a;
        let mut frag: Vec<Tok> = match binding {
            Binding::Named(n) => {
                let ex: Vec<Tok> = match expr {
                    Option::Some(ex) => ex,
                    Option::None => Vec::new(),
                };
                named_frag(n, ex, body)
            },
            Binding::Discard => {
                let ex: Vec<Tok> = match expr {
                    Option::Some(ex) => ex,
                    Option::None => Vec::new(),
                };
                named_frag("_".to_owned(), ex, body)
            },
            Binding::DefaultArm => special_frag(body),
            Binding::CompleteArm => special_frag(body),
        };
        proof {
            assert(frag_matches(frag@, ag));
        }
        let ghost fg = frag@;
        let ghost mid = out@;
        out.append(&mut frag);
        proof {
            lemma_frags_len_nonneg(done);
            assert(out@ == mid + fg);
            lemma_frags_snoc(mid.subrange(3, mid.len() as int), done, fg, ag);
            assert(out@.subrange(3, out@.len() as int) =~= mid.subrange(3, mid.len() as int)
                + fg);
            lemma_frags_len_snoc(done, ag);
            done = done.push(ag);
            assert(done + rem@ =~= all);
        }
    }
    proof {
        assert(done =~= all);
        lemma_frags_len_nonneg(all);
    }
    let ghost mid = out@;
    out.push(mk_ident("else"));
    out.push(Tok::Group(Delim::Brace, unreachable_stmt()));
    proof {
        assert(out@.subrange(3, 3 + frags_len(all)) =~= mid.subrange(3, mid.len() as int));
    }
    out
}

} // verus!
