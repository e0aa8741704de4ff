//! The token model: raw macro-invocation tokens at the granularity the arm
//! grammar needs, and the parsed shape of one arm.

use vstd::prelude::*;

verus! {

/// Delimiter of a token group.
#[derive(Debug, PartialEq, Eq)]
pub enum Delim {
    Paren,
    Brace,
    Bracket,
    Invisible,
}

/// One raw token. Identifiers, `=`, `=>`, `,` and delimited groups are the
/// only shapes the arm grammar reads; every other token is carried verbatim
/// as opaque text, never interpreted.
#[derive(Debug, PartialEq, Eq)]
pub enum Tok {
    /// An identifier or keyword, including the discard marker `_`.
    Ident(String),
    /// A lone `=`.
    Assign,
    /// The arm separator `=>`.
    FatArrow,
    /// A `,` between arms.
    Comma,
    /// A delimited group with its interior tokens.
    Group(Delim, Vec<Tok>),
    /// Any other token (literal, punctuation), kept as opaque text.
    Other(String),
}

/// The binding position of one arm: a declared name, the discard marker `_`,
/// or one of the two reserved keywords that introduce a special arm.
#[derive(Debug, PartialEq, Eq)]
pub enum Binding {
    Named(String),
    Discard,
    DefaultArm,
    CompleteArm,
}

/// One parsed arm: a binding, an optional source-expression token span
/// (present exactly for named and discard bindings), and an opaque body span.
#[derive(Debug, PartialEq, Eq)]
pub struct Arm {
    pub binding: Binding,
    pub expr: Option<Vec<Tok>>,
    pub body: Vec<Tok>,
}

/// `t` is the identifier `s`.
pub open spec fn tok_ident(t: Tok, s: Seq<char>) -> bool {
    t matches Tok::Ident(n) && n@ == s
}

/// `t` is the opaque token with text `s`.
pub open spec fn tok_other(t: Tok, s: Seq<char>) -> bool {
    t matches Tok::Other(n) && n@ == s
}

/// `t` is a brace-delimited group whose interior is exactly `inner`.
pub open spec fn tok_brace(t: Tok, inner: Seq<Tok>) -> bool {
    t matches Tok::Group(Delim::Brace, v) && v@ == inner
}

/// A path segment `::name` standing at index `j` of `s`.
pub open spec fn seg_at(s: Seq<Tok>, j: int, name: Seq<char>) -> bool {
    tok_other(s[j], "::"@) && tok_ident(s[j + 1], name)
}

/// An arm is well formed when its expression span is present exactly for
/// named and discard bindings, and absent for the two reserved keywords.
pub open spec fn arm_wf(a: Arm) -> bool {
    (a.expr is Some) <==> (a.binding is Named || a.binding is Discard)
}

/// The identifier emitted in pattern position for a named or discard binding.
pub open spec fn binding_pat(b: Binding) -> Seq<char>
    recommends
        b is Named || b is Discard,
{
    match b {
        Binding::Named(n) => n@,
        _ => "_"@,
    }
}

} // verus!
