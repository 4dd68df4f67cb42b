//! A stand-in for a planning model: turns a natural-language request into a
//! blueprint of the modules it would need.

use vstd::prelude::*;
use vstd::string::*;
use crate::blueprint::{Blueprint, Connection};
use crate::text::{has_sub, str_contains};

verus! {

/// The lower-case form of a text, as `str::to_lowercase` gives it.
pub uninterp spec fn lower_of(s: Seq<char>) -> Seq<char>;

/// Relies on `str::to_lowercase`: the result depends on the characters alone.
#[verifier::external_body]
pub(crate) fn lowercase(s: &str) -> (r: String)
    ensures
        r@ == lower_of(s@),
{
    s.to_lowercase()
}

pub open spec fn needs_calendar(l: Seq<char>) -> bool {
    has_sub(l, "calendar"@) || has_sub(l, "time"@) || has_sub(l, "schedule"@)
}

pub open spec fn needs_search(l: Seq<char>) -> bool {
    has_sub(l, "search"@) || has_sub(l, "find"@) || has_sub(l, "look for"@)
}

pub open spec fn needs_delete(l: Seq<char>) -> bool {
    has_sub(l, "delete"@) || has_sub(l, "remove"@) || has_sub(l, "cancel"@)
}

pub open spec fn needs_email(l: Seq<char>) -> bool {
    has_sub(l, "email"@) || has_sub(l, "send"@)
}

pub open spec fn wants_proposal(l: Seq<char>) -> bool {
    has_sub(l, "propose"@) || has_sub(l, "safely"@)
}

pub open spec fn when(b: bool, s: Seq<(Seq<char>, Seq<char>)>) -> Seq<(Seq<char>, Seq<char>)> {
    if b {
        s
    } else {
        Seq::empty()
    }
}

/// The components that a lower-cased request calls for, in order.
pub open spec fn request_components(l: Seq<char>) -> Seq<(Seq<char>, Seq<char>)> {
    seq![("agent"@, "modules/agent.wasm"@)]
        + when(needs_calendar(l), seq![("calendar"@, "modules/calendar.wasm"@)])
        + when(needs_search(l), seq![("search"@, "modules/search.wasm"@)])
        + when(needs_delete(l) && !needs_calendar(l), seq![("calendar"@, "modules/calendar.wasm"@)])
        + when(needs_email(l), seq![("emailer"@, "modules/emailer.wasm"@)])
}

/// The wiring that a lower-cased request calls for, in order.
pub open spec fn request_wiring(l: Seq<char>) -> Seq<(Seq<char>, Seq<char>)> {
    when(
        needs_calendar(l),
        seq![
            ("agent.local:calendar/read"@, "calendar.local:calendar/read"@),
            ("calendar.wasi:filesystem/types"@, "host.wasi:filesystem/types"@),
        ],
    ) + when(
        needs_search(l),
        seq![
            ("agent.local:search/query"@, "search.local:search/query"@),
            ("search.wasi:http/outgoing-handler"@, "host.wasi:http/outgoing-handler"@),
        ],
    ) + when(
        needs_delete(l) && !needs_calendar(l),
        seq![("calendar.wasi:filesystem/types"@, "host.wasi:filesystem/types"@)],
    ) + when(
        needs_delete(l) && wants_proposal(l),
        seq![("agent.local:calendar/propose_delete"@, "host.local:calendar/propose_delete"@)],
    ) + when(
        needs_delete(l) && !wants_proposal(l),
        seq![("agent.local:calendar/delete"@, "calendar.local:calendar/delete"@)],
    ) + when(
        needs_email(l),
        seq![
            ("agent.local:email/send"@, "emailer.local:email/send"@),
            ("emailer.wasi:http/outgoing-handler"@, "host.wasi:http/outgoing-handler"@),
        ],
    )
}

/// The components of a blueprint as (name, locator) text.
pub open spec fn components_view(bp: Blueprint) -> Seq<(Seq<char>, Seq<char>)> {
    bp.components@.map_values(|c: (String, String)| (c.0@, c.1@))
}

/// The wiring of a blueprint as (consumer key, provider key) text.
pub open spec fn wiring_view(bp: Blueprint) -> Seq<(Seq<char>, Seq<char>)> {
    bp.wiring@.map_values(|w: (String, Connection)| (w.0@, w.1.provider_spec()))
}

fn push_pair(v: &mut Vec<(String, String)>, a: &str, b: &str)
    ensures
        final(v)@.map_values(|c: (String, String)| (c.0@, c.1@)) == old(v)@.map_values(
            |c: (String, String)| (c.0@, c.1@),
        ).push((a@, b@)),
{
    v.push((String::from_str(a), String::from_str(b)));
    assert(final(v)@.map_values(|c: (String, String)| (c.0@, c.1@)) =~= old(v)@.map_values(
        |c: (String, String)| (c.0@, c.1@),
    ).push((a@, b@)));
}

fn push_wire(v: &mut Vec<(String, Connection)>, a: &str, b: &str)
    requires
        forall|i: int| 0 <= i < old(v)@.len() ==> (#[trigger] old(v)@[i]).1 is Simple,
    ensures
        final(v)@.map_values(|w: (String, Connection)| (w.0@, w.1.provider_spec())) == old(v)@.map_values(
            |w: (String, Connection)| (w.0@, w.1.provider_spec()),
        ).push((a@, b@)),
        forall|i: int| 0 <= i < final(v)@.len() ==> (#[trigger] final(v)@[i]).1 is Simple,
{
    v.push((String::from_str(a), Connection::Simple(String::from_str(b))));
    assert(final(v)@.map_values(|w: (String, Connection)| (w.0@, w.1.provider_spec())) =~= old(v)@.map_values(
        |w: (String, Connection)| (w.0@, w.1.provider_spec()),
    ).push((a@, b@)));
}

/// The blueprint for a request that is already in lower case.
pub fn blueprint_for_request(lower: &str) -> (r: Blueprint)
    ensures
        components_view(r) == request_components(lower@),
        wiring_view(r) == request_wiring(lower@),
        forall|i: int| 0 <= i < r.wiring@.len() ==> (#[trigger] r.wiring@[i]).1 is Simple,
        r.workflow is None,
{
    let cal = str_contains(lower, "calendar") || str_contains(lower, "time") || str_contains(lower, "schedule");
    let search = str_contains(lower, "search") || str_contains(lower, "find") || str_contains(lower, "look for");
    let delete = str_contains(lower, "delete") || str_contains(lower, "remove") || str_contains(lower, "cancel");
    let email = str_contains(lower, "email") || str_contains(lower, "send");
    let proposal = str_contains(lower, "propose") || str_contains(lower, "safely");
    let ghost l = lower@;

    let mut components: Vec<(String, String)> = Vec::new();
    let mut wiring: Vec<(String, Connection)> = Vec::new();
    push_pair(&mut components, "agent", "modules/agent.wasm");
    let ghost c0 = components@.map_values(|c: (String, String)| (c.0@, c.1@));
    if cal {
        push_pair(&mut components, "calendar", "modules/calendar.wasm");
        push_wire(&mut wiring, "agent.local:calendar/read", "calendar.local:calendar/read");
        push_wire(&mut wiring, "calendar.wasi:filesystem/types", "host.wasi:filesystem/types");
    }
    let ghost c1 = components@.map_values(|c: (String, String)| (c.0@, c.1@));
    let ghost w1 = wiring@.map_values(|w: (String, Connection)| (w.0@, w.1.provider_spec()));
    if search {
        push_pair(&mut components, "search", "modules/search.wasm");
        push_wire(&mut wiring, "agent.local:search/query", "search.local:search/query");
        push_wire(&mut wiring, "search.wasi:http/outgoing-handler", "host.wasi:http/outgoing-handler");
    }
    let ghost c2 = components@.map_values(|c: (String, String)| (c.0@, c.1@));
    let ghost w2 = wiring@.map_values(|w: (String, Connection)| (w.0@, w.1.provider_spec()));
    if delete && !cal {
        push_pair(&mut components, "calendar", "modules/calendar.wasm");
        push_wire(&mut wiring, "calendar.wasi:filesystem/types", "host.wasi:filesystem/types");
    }
    let ghost c3 = components@.map_values(|c: (String, String)| (c.0@, c.1@));
    let ghost w3 = wiring@.map_values(|w: (String, Connection)| (w.0@, w.1.provider_spec()));
    if delete && proposal {
        push_wire(&mut wiring, "agent.local:calendar/propose_delete", "host.local:calendar/propose_delete");
    }
    let ghost w4 = wiring@.map_values(|w: (String, Connection)| (w.0@, w.1.provider_spec()));
    if delete && !proposal {
        push_wire(&mut wiring, "agent.local:calendar/delete", "calendar.local:calendar/delete");
    }
    let ghost w5 = wiring@.map_values(|w: (String, Connection)| (w.0@, w.1.provider_spec()));
    if email {
        push_pair(&mut components, "emailer", "modules/emailer.wasm");
        push_wire(&mut wiring, "agent.local:email/send", "emailer.local:email/send");
        push_wire(&mut wiring, "emailer.wasi:http/outgoing-handler", "host.wasi:http/outgoing-handler");
    }
    let r = Blueprint { components, wiring, workflow: None };
    proof {
        assert(c1 =~= c0 + when(needs_calendar(l), seq![("calendar"@, "modules/calendar.wasm"@)]));
        assert(c2 =~= c1 + when(needs_search(l), seq![("search"@, "modules/search.wasm"@)]));
        assert(c3 =~= c2 + when(needs_delete(l) && !needs_calendar(l), seq![("calendar"@, "modules/calendar.wasm"@)]));
        assert(components_view(r) =~= request_components(l));
        assert(w1 =~= when(
            needs_calendar(l),
            seq![
                ("agent.local:calendar/read"@, "calendar.local:calendar/read"@),
                ("calendar.wasi:filesystem/types"@, "host.wasi:filesystem/types"@),
            ],
        ));
        assert(w2 =~= w1 + when(
            needs_search(l),
            seq![
                ("agent.local:search/query"@, "search.local:search/query"@),
                ("search.wasi:http/outgoing-handler"@, "host.wasi:http/outgoing-handler"@),
            ],
        ));
        assert(w3 =~= w2 + when(
            needs_delete(l) && !needs_calendar(l),
            seq![("calendar.wasi:filesystem/types"@, "host.wasi:filesystem/types"@)],
        ));
        assert(w4 =~= w3 + when(
            needs_delete(l) && wants_proposal(l),
            seq![("agent.local:calendar/propose_delete"@, "host.local:calendar/propose_delete"@)],
        ));
        assert(w5 =~= w4 + when(
            needs_delete(l) && !wants_proposal(l),
            seq![("agent.local:calendar/delete"@, "calendar.local:calendar/delete"@)],
        ));
        assert(wiring_view(r) =~= request_wiring(l));
    }
    r
}

/// The blueprint that a request calls for: the request is lower-cased, then
/// read by `blueprint_for_request`.
pub fn generate_blueprint_from_prompt(prompt: &str) -> (r: Blueprint)
    ensures
        components_view(r) == request_components(lower_of(prompt@)),
        wiring_view(r) == request_wiring(lower_of(prompt@)),
        r.workflow is None,
{
    let lower = lowercase(prompt);
    blueprint_for_request(lower.as_str())
}

} // verus!
