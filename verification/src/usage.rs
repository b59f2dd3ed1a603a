//! The structure of a usage response: rate-limit windows and credits.
use vstd::prelude::*;
use crate::doc::{Doc, get_in, get_opt, get_spec, opt_ref};

verus! {

/// The rate-limit object: `rate_limits`, else `rate_limit`.
pub open spec fn rate_limits_spec(v: Doc) -> Option<Doc> {
    match get_spec(v, "rate_limits"@) {
        Some(x) => Some(x),
        None => get_spec(v, "rate_limit"@),
    }
}

/// Member `k1` of the rate-limit object, else member `k2`.
pub open spec fn window_spec(rl: Option<Doc>, k1: Seq<char>, k2: Seq<char>) -> Option<Doc> {
    match get_opt(rl, k1) {
        Some(x) => Some(x),
        None => get_opt(rl, k2),
    }
}

/// The primary (`primary_window` | `primary`) and secondary
/// (`secondary_window` | `secondary`) windows of a usage response; `None`
/// stands for a missing window.
pub fn wham_windows<'a>(v: &'a Doc) -> (r: (Option<&'a Doc>, Option<&'a Doc>))
    ensures
        opt_ref(r.0) == window_spec(rate_limits_spec(*v), "primary_window"@, "primary"@),
        opt_ref(r.1) == window_spec(rate_limits_spec(*v), "secondary_window"@, "secondary"@),
{
    let mut rl = v.get("rate_limits");
    if rl.is_none() {
        rl = v.get("rate_limit");
    }
    let mut primary = get_in(rl, "primary_window");
    if primary.is_none() {
        primary = get_in(rl, "primary");
    }
    let mut secondary = get_in(rl, "secondary_window");
    if secondary.is_none() {
        secondary = get_in(rl, "secondary");
    }
    (primary, secondary)
}

/// Where the credits of a usage response come from.
pub enum Credits<'a> {
    /// The `credits` member, as given.
    Given(&'a Doc),
    /// Only a `credits_balance` member: the credits are `{ "balance": it }`.
    Balance(&'a Doc),
}

pub open spec fn credits_view(c: Option<Credits>) -> Option<(bool, Doc)> {
    match c {
        Some(Credits::Given(d)) => Some((true, *d)),
        Some(Credits::Balance(d)) => Some((false, *d)),
        None => None,
    }
}

/// `credits` when present, else a balance-only record built from `credits_balance`.
pub open spec fn credits_spec(v: Doc) -> Option<(bool, Doc)> {
    match get_spec(v, "credits"@) {
        Some(c) => Some((true, c)),
        None => match get_spec(v, "credits_balance"@) {
            Some(b) => Some((false, b)),
            None => None,
        },
    }
}

/// The credits of a usage response.
pub fn wham_credits<'a>(v: &'a Doc) -> (r: Option<Credits<'a>>)
    ensures
        credits_view(r) == credits_spec(*v),
{
    match v.get("credits") {
        Some(c) => Some(Credits::Given(c)),
        None => match v.get("credits_balance") {
            Some(b) => Some(Credits::Balance(b)),
            None => None,
        },
    }
}


} // verus!
