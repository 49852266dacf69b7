//! Command-line options and the decision of what one invocation does.
//! Reading the flags from the process belongs to the surrounding program;
//! the decision rules themselves live here, verified.
use vstd::prelude::*;

verus! {

/// The options of one invocation, already parsed to plain values.
pub struct Args {
    /// Free-text restaurant or area search.
    pub query: Option<String>,
    /// Location search (mutually exclusive with `query`; not implemented).
    pub geo: Option<String>,
    /// Signed day offset from today for the menu fetch.
    pub day: i32,
    /// Keyword filter on menu item titles.
    pub filter: Option<String>,
    /// Cap on how many restaurants are queried for menus.
    pub number: Option<u16>,
    /// Print each restaurant's address.
    pub address: bool,
    /// Print each restaurant's URL.
    pub url: bool,
    /// Exclude restaurants that are not open right now (only meaningful for
    /// today, so incompatible with a non-zero day offset).
    pub hide_closed: bool,
    /// Store this language code and do nothing else.
    pub set_lang: Option<String>,
}

/// What one invocation does, decided from the flags alone.
pub enum Plan {
    /// `--set-lang` was given: store the language and stop.
    SetLanguage { lang: String },
    /// Neither a query nor a location was given: explain and stop.
    MissingQuery,
    /// Both a query and a location were given: explain and stop.
    QueryGeoConflict,
    /// A non-zero day offset together with the closed-status filter:
    /// explain and stop.
    DayHideClosedConflict,
    /// Run the full pipeline for this free-text query.
    RunQuery {
        query: String,
        day: i32,
        filter: Option<String>,
        number: Option<u16>,
        address: bool,
        url: bool,
        hide_closed: bool,
    },
    /// Only a location search was asked for, which is not implemented: do
    /// nothing.
    GeoUnsupported,
}

/// The decision rules, in the order the checks are applied: storing a
/// language wins over everything; then the query/location flags must name
/// exactly one of the two; then the closed-status filter refuses a non-zero
/// day offset; what remains either runs the query or hits the unimplemented
/// location search.
pub open spec fn spec_plan(a: Args) -> Plan {
    if a.set_lang is Some {
        Plan::SetLanguage { lang: a.set_lang->0 }
    } else if a.query is None && a.geo is None {
        Plan::MissingQuery
    } else if a.query is Some && a.geo is Some {
        Plan::QueryGeoConflict
    } else if a.day != 0 && a.hide_closed {
        Plan::DayHideClosedConflict
    } else if a.query is Some {
        Plan::RunQuery {
            query: a.query->0,
            day: a.day,
            filter: a.filter,
            number: a.number,
            address: a.address,
            url: a.url,
            hide_closed: a.hide_closed,
        }
    } else {
        Plan::GeoUnsupported
    }
}

/// Decides what this invocation does; exactly the rules of [`spec_plan`].
pub fn plan_command(args: Args) -> (p: Plan)
    ensures
        p == spec_plan(args),
{
    let Args { query, geo, day, filter, number, address, url, hide_closed, set_lang } = args;
    if let Some(lang) = set_lang {
        return Plan::SetLanguage { lang };
    }
    if query.is_none() && geo.is_none() {
        return Plan::MissingQuery;
    }
    if query.is_some() && geo.is_some() {
        return Plan::QueryGeoConflict;
    }
    if day != 0 && hide_closed {
        return Plan::DayHideClosedConflict;
    }
    match query {
        Some(q) => Plan::RunQuery { query: q, day, filter, number, address, url, hide_closed },
        None => Plan::GeoUnsupported,
    }
}

} // verus!
