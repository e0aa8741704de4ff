//! Mode dispatch: one signal picks between the passthrough expansion and the
//! completion-friendly expansion of the same invocation tokens.

use vstd::prelude::*;
use crate::token::{Arm, Tok};
use crate::parse::{arms_match, parse_arms, parse_err, parse_fails, ParseError};
use crate::emit::{dummy_matches, dummy_select_for_ide, passthrough_matches, real_select};

verus! {

/// The interactive-analysis signal counts as enabled exactly when it is
/// present and its text is neither `0` nor `false`; absence is disabled.
pub open spec fn mode_enabled_spec(signal: Option<String>) -> bool {
    signal matches Some(v) && v@ != "0"@ && v@ != "false"@
}

/// Read the ambient mode signal's value: enabled when present and not one of
/// the two literal off values.
pub fn mode_enabled(signal: Option<String>) -> (r: bool)
    ensures
        r == mode_enabled_spec(signal),
{
    match signal {
        Option::Some(v) => {
            let zero: String = "0".to_owned();
            let falsy: String = "false".to_owned();
            !(v == zero) && !(v == falsy)
        },
        Option::None => false,
    }
}

/// In completion-friendly mode the output expands some arm list that the
/// input parses to.
pub open spec fn dummy_output_ok(input: Seq<Tok>, out: Seq<Tok>) -> bool {
    exists|arms: Seq<Arm>| arms_match(input, 0, arms) && dummy_matches(out, arms)
}

/// One invocation: with the mode signal off, wrap the untouched original
/// tokens for the real facility (the parser is not even consulted, so this
/// never fails); with it on, parse the arm list and synthesize the
/// completion-friendly expansion, failing exactly on structural errors.
pub fn select(input: Vec<Tok>, ide_mode: bool) -> (r: Result<Vec<Tok>, ParseError>)
    ensures
        !ide_mode ==> (r matches Ok(out) && passthrough_matches(out@, input@)),
        ide_mode ==> ((r is Ok) <==> !parse_fails(input@, 0)),
        ide_mode ==> (r matches Ok(out) ==> dummy_output_ok(input@, out@)),
        ide_mode ==> (r matches Err(e) ==> e.pos == parse_err(input@, 0).0 && e.kind
            == parse_err(input@, 0).1),
{
    if !ide_mode {
        Ok(real_select(input))
    } else {
        let ghost iv = input@;
        match parse_arms(input) {
            Result::Ok(arms) => {
                let ghost ag = arms@;
                let out = dummy_select_for_ide(arms);
                proof {
                    assert(arms_match(iv, 0, ag) && dummy_matches(out@, ag));
                    assert(dummy_output_ok(iv, out@)) by {
                        assert(arms_match(iv, 0, ag) && dummy_matches(out@, ag));
                    }
                }
                Ok(out)
            },
            Result::Err(e) => Err(e),
        }
    }
}

} // verus!
