//! URL shapes of the one source this pipeline reads.

use vstd::prelude::*;
use crate::text::{starts_with_seq, str_starts_with, ends_with_char, str_ends_with_char};

verus! {

/// A source-relative link resolved against the source's host; an absolute
/// link is kept as it is.
pub open spec fn spec_absolutize(u: Seq<char>) -> Seq<char> {
    if starts_with_seq(u, "http"@) {
        u
    } else {
        "https://fbref.com"@ + u
    }
}

/// The value of an optional hyperlink target, empty when absent.
pub open spec fn spec_absolutize_opt(o: Option<Seq<char>>) -> Seq<char> {
    match o {
        Some(u) => spec_absolutize(u),
        None => Seq::empty(),
    }
}

/// Resolves a possibly host-relative link.
pub fn absolutize(u: &str) -> (r: String)
    ensures
        r@ == spec_absolutize(u@),
{
    if str_starts_with(u, "http") {
        u.to_owned()
    } else {
        let base = "https://fbref.com";
        base.to_owned().concat(u)
    }
}

/// The deterministic placeholder identity of a fixture that has no report
/// link yet, derived from its date and sides.
pub open spec fn spec_synthetic_url(date: Seq<char>, home: Seq<char>, away: Seq<char>) -> Seq<
    char,
> {
    "fixture://"@ + date + "/"@ + home + "/"@ + away
}

/// Builds the placeholder URL of a far-future fixture.
pub fn synthetic_fixture_url(date: &str, home: &str, away: &str) -> (r: String)
    ensures
        r@ == spec_synthetic_url(date@, home@, away@),
{
    let mut out = "fixture://".to_owned();
    out.append(date);
    out.append("/");
    out.append(home);
    out.append("/");
    out.append(away);
    proof {
        assert(out@ =~= spec_synthetic_url(date@, home@, away@));
    }
    out
}

/// The per-season match-log address under a team's profile address: the
/// base (given a trailing slash if it lacks one), the season label, and the
/// schedule path.
pub open spec fn spec_season_url(base: Seq<char>, season: Seq<char>) -> Seq<char> {
    let b = if ends_with_char(base, '/') {
        base
    } else {
        base + "/"@
    };
    b + season + "/matchlogs/all_comps/schedule/"@
}

/// Builds one season's match-log URL for a team.
pub fn season_url(base: &str, season: &str) -> (r: String)
    ensures
        r@ == spec_season_url(base@, season@),
{
    let mut out = base.to_owned();
    if !str_ends_with_char(base, '/') {
        out.append("/");
    }
    out.append(season);
    out.append("/matchlogs/all_comps/schedule/");
    proof {
        assert(out@ =~= spec_season_url(base@, season@));
    }
    out
}

} // verus!
