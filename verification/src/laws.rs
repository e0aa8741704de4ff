//! Laws relating the parser and the two generator modes: fragment counts,
//! verbatim body preservation, and mode distinguishability.

use vstd::prelude::*;
use crate::token::{tok_brace, tok_ident, Arm, Tok};
use crate::parse::{arms_match, body_matches, next_arm_start, scan_arm};
use crate::emit::{dummy_matches, frag_len, frag_matches, frags_len, frags_match,
    lemma_frags_len_nonneg, passthrough_matches};

verus! {

/// How many times the bare identifier `else` occurs at the top level of `s`.
pub open spec fn count_else(s: Seq<Tok>) -> int
    decreases s.len(),
{
    if s.len() == 0 {
        0
    } else {
        (if tok_ident(s[0], "else"@) {
            1int
        } else {
            0int
        }) + count_else(s.skip(1))
    }
}

/// None of the fixed identifiers that a fragment or the guard construct
/// emits besides its leading `else` reads as `else` itself.
proof fn lemma_marker_words_distinct()
    ensures
        "if"@ != "else"@,
        "let"@ != "else"@,
        "false"@ != "else"@,
        "futures"@ != "else"@,
        "task"@ != "else"@,
        "Poll"@ != "else"@,
        "Ready"@ != "else"@,
{
    reveal_strlit("else");
    reveal_strlit("if");
    reveal_strlit("let");
    reveal_strlit("false");
    reveal_strlit("futures");
    reveal_strlit("task");
    reveal_strlit("Poll");
    reveal_strlit("Ready");
    assert("else"@.len() == 4);
    assert("if"@.len() == 2);
    assert("let"@.len() == 3);
    assert("false"@.len() == 5);
    assert("futures"@.len() == 7);
    assert("Ready"@.len() == 5);
    assert("task"@ != "else"@) by {
        assert("task"@[0] == 't');
        assert("else"@[0] == 'e');
    }
    assert("Poll"@ != "else"@) by {
        assert("Poll"@[0] == 'P');
        assert("else"@[0] == 'e');
    }
}

proof fn lemma_count_else_concat(a: Seq<Tok>, b: Seq<Tok>)
    ensures
        count_else(a + b) == count_else(a) + count_else(b),
    decreases a.len(),
{
    if a.len() == 0 {
        assert(a + b =~= b);
    } else {
        lemma_count_else_concat(a.skip(1), b);
        assert((a + b).skip(1) =~= a.skip(1) + b);
        assert((a + b)[0] == a[0]);
    }
}

proof fn lemma_count_else_none(s: Seq<Tok>)
    requires
        forall|j: int| 0 <= j < s.len() ==> !tok_ident(#[trigger] s[j], "else"@),
    ensures
        count_else(s) == 0,
    decreases s.len(),
{
    if s.len() > 0 {
        lemma_count_else_none(s.skip(1));
    }
}

proof fn lemma_frag_count_one(f: Seq<Tok>, a: Arm)
    requires
        frag_matches(f, a),
    ensures
        count_else(f) == 1,
{
    lemma_marker_words_distinct();
    assert(tok_ident(f[0], "else"@));
    assert forall|j: int| 1 <= j < f.len() implies !tok_ident(#[trigger] f[j], "else"@) by {
        if a.binding is Named || a.binding is Discard {
            assert(f.len() == 15);
        } else {
            assert(f.len() == 4);
        }
    }
    assert(forall|j: int| 0 <= j < f.skip(1).len() ==> !tok_ident(
        #[trigger] f.skip(1)[j],
        "else"@,
    ));
    lemma_count_else_none(f.skip(1));
}

proof fn lemma_frags_count(s: Seq<Tok>, arms: Seq<Arm>)
    requires
        frags_match(s, arms),
    ensures
        count_else(s) == arms.len(),
    decreases arms.len(),
{
    if arms.len() == 0 {
    } else {
        let fl = frag_len(arms[0]);
        lemma_frag_count_one(s.subrange(0, fl), arms[0]);
        lemma_frags_count(s.skip(fl), arms.skip(1));
        assert(s =~= s.subrange(0, fl) + s.skip(fl));
        lemma_count_else_concat(s.subrange(0, fl), s.skip(fl));
    }
}

/// Arm count preservation: in completion-friendly mode the output holds one
/// fragment per parsed arm, 1:1 and in the original order; counting the
/// top-level `else` markers finds exactly the arms plus the one closing
/// `else` of the guard construct.
pub proof fn lemma_arm_count_preserved(out: Seq<Tok>, arms: Seq<Arm>)
    requires
        dummy_matches(out, arms),
    ensures
        count_else(out) == arms.len() + 1,
{
    lemma_marker_words_distinct();
    lemma_frags_len_nonneg(arms);
    let ll = frags_len(arms);
    let head = out.subrange(0, 3);
    let mid = out.subrange(3, 3 + ll);
    let tail = out.subrange(3 + ll, out.len() as int);
    assert(out =~= head + (mid + tail));
    lemma_frags_count(mid, arms);
    assert(forall|j: int| 0 <= j < head.len() ==> !tok_ident(#[trigger] head[j], "else"@));
    lemma_count_else_none(head);
    assert(tail.len() == 2);
    assert(tok_ident(tail[0], "else"@));
    assert(count_else(tail.skip(1)) == 0) by {
        lemma_count_else_none(tail.skip(1));
    }
    assert(count_else(tail) == 1);
    lemma_count_else_concat(mid, tail);
    lemma_count_else_concat(head, mid + tail);
}

/// Within a fragment sequence, the fragment of arm `i` stands at the offset
/// given by the lengths of the fragments before it.
proof fn lemma_frags_index(s: Seq<Tok>, arms: Seq<Arm>, i: int)
    requires
        frags_match(s, arms),
        0 <= i < arms.len(),
    ensures
        0 <= frags_len(arms.take(i)),
        frags_len(arms.take(i)) + frag_len(arms[i]) <= s.len(),
        frag_matches(
            s.subrange(
                frags_len(arms.take(i)),
                frags_len(arms.take(i)) + frag_len(arms[i]),
            ),
            arms[i],
        ),
    decreases i,
{
    let fl = frag_len(arms[0]);
    if i == 0 {
        assert(arms.take(0) =~= Seq::<Arm>::empty());
    } else {
        lemma_frags_index(s.skip(fl), arms.skip(1), i - 1);
        assert(arms.take(i).skip(1) =~= arms.skip(1).take(i - 1));
        assert(arms.take(i)[0] == arms[0]);
        let off = frags_len(arms.skip(1).take(i - 1));
        assert(frags_len(arms.take(i)) == fl + off);
        assert(arms.skip(1)[i - 1] == arms[i]);
        assert(s.skip(fl).subrange(off, off + frag_len(arms[i])) =~= s.subrange(
            fl + off,
            fl + off + frag_len(arms[i]),
        ));
    }
}

/// Opaque body preservation, completion-friendly mode: every arm's body
/// token sequence stands verbatim as the interior of the closing brace group
/// of that arm's own fragment.
pub proof fn lemma_body_preserved_dummy(out: Seq<Tok>, arms: Seq<Arm>, i: int)
    requires
        dummy_matches(out, arms),
        0 <= i < arms.len(),
    ensures
        ({
            let last = 3 + frags_len(arms.take(i)) + frag_len(arms[i]) - 1;
            3 <= last < out.len() && tok_brace(out[last], arms[i].body@)
        }),
{
    lemma_frags_len_nonneg(arms);
    let ll = frags_len(arms);
    let mid = out.subrange(3, 3 + ll);
    lemma_frags_index(mid, arms, i);
    let off = frags_len(arms.take(i));
    let fl = frag_len(arms[i]);
    let f = mid.subrange(off, off + fl);
    assert(tok_brace(f[fl - 1], arms[i].body@));
    assert(f[fl - 1] == out[3 + off + fl - 1]);
}

/// Opaque body preservation, passthrough mode: the wrapper carries the whole
/// input verbatim, so every parsed arm's body stands in the wrapped tokens
/// exactly as the parser read it: as a brace group's interior, or as the
/// single bare-identifier token itself.
pub proof fn lemma_body_preserved_passthrough(
    out: Seq<Tok>,
    input: Seq<Tok>,
    arms: Seq<Arm>,
    i: int,
)
    requires
        passthrough_matches(out, input),
        arms_match(input, 0, arms),
        0 <= i < arms.len(),
    ensures
        out[5] matches Tok::Group(_, g) && (exists|j: int|
            0 <= j < g@.len() && body_matches(#[trigger] g@[j], arms[i].body@)),
{
    lemma_arms_match_body(input, 0, arms, i);
}

/// From any well-parsed suffix, each arm's body token is found in the input.
proof fn lemma_arms_match_body(input: Seq<Tok>, start: int, arms: Seq<Arm>, i: int)
    requires
        0 <= start,
        arms_match(input, start, arms),
        0 <= i < arms.len(),
    ensures
        exists|j: int| 0 <= j < input.len() && body_matches(#[trigger] input[j], arms[i].body@),
    decreases i,
{
    crate::parse::lemma_scan_arm_good(input, start);
    let scan = scan_arm(input, start);
    let bodyi = scan->bodyi;
    let end = scan->end;
    if i == 0 {
        assert(body_matches(input[bodyi], arms[0].body@));
    } else {
        lemma_arms_match_body(input, next_arm_start(input, end), arms.skip(1), i - 1);
        assert(arms.skip(1)[i - 1] == arms[i]);
    }
}

/// Any two arm lists that one input segments into have the same length, so
/// the fragment count of a completion-friendly output is determined by the
/// input alone.
pub proof fn lemma_arm_count_unique(input: Seq<Tok>, i: int, a1: Seq<Arm>, a2: Seq<Arm>)
    requires
        0 <= i,
        arms_match(input, i, a1),
        arms_match(input, i, a2),
    ensures
        a1.len() == a2.len(),
    decreases input.len() - i,
{
    if i < input.len() {
        crate::parse::lemma_scan_arm_good(input, i);
        let end = scan_arm(input, i)->end;
        lemma_arm_count_unique(input, next_arm_start(input, end), a1.skip(1), a2.skip(1));
    }
}

/// Mode sensitivity: on any input, the two modes' outputs differ in shape;
/// the passthrough wrapper opens with a path token, the completion-friendly
/// expansion with the guard's `if` identifier.
pub proof fn lemma_mode_distinguishable(
    p: Seq<Tok>,
    d: Seq<Tok>,
    input: Seq<Tok>,
    arms: Seq<Arm>,
)
    requires
        passthrough_matches(p, input),
        dummy_matches(d, arms),
    ensures
        p != d,
        p[0] is Other,
        d[0] is Ident,
{
    assert(p[0] is Other);
    assert(d[0] is Ident);
    if p == d {
        assert(p[0] == d[0]);
        assert(false);
    }
}

} // verus!
