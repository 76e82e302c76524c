//! Standardized event records: a single log line `EVENT_JSON:<json>` whose
//! object carries the standard name, its version, the event kind, and a data
//! array. The byte-exact line is pinned by a spec function.
use vstd::prelude::*;

use vstd::string::StrSliceExecFns;
use vstd::string::StringExecFns;

use crate::env::Env;

verus! {

/// The exact text of an event log line.
pub open spec fn event_line(
    standard: Seq<char>,
    version: Seq<char>,
    event: Seq<char>,
    data_json: Seq<char>,
) -> Seq<char> {
    ("EVENT_JSON:{\"standard\":\"")@ + standard + ("\",\"version\":\"")@ + version + (
    "\",\"event\":\"")@ + event + ("\",\"data\":")@ + data_json + ("}")@
}

/// Builds the event line for the given pieces. `standard`, `version` and
/// `event` are identifiers chosen by the component and never need escaping;
/// `data_json` is already rendered JSON.
pub fn format_event_line(standard: &str, version: &str, event: &str, data_json: &str) -> (r:
    String)
    ensures
        r@ == event_line(standard@, version@, event@, data_json@),
{
    let mut out = String::new();
    out.append("EVENT_JSON:{\"standard\":\"");
    out.append(standard);
    out.append("\",\"version\":\"");
    out.append(version);
    out.append("\",\"event\":\"");
    out.append(event);
    out.append("\",\"data\":");
    out.append(data_json);
    out.append("}");
    proof {
        assert(out@ =~= event_line(standard@, version@, event@, data_json@));
    }
    out
}

/// Emits one event: appends its line to the log, touching nothing else.
pub fn emit_event(env: &mut Env, standard: &str, version: &str, event: &str, data_json: &str)
    ensures
        final(env).logs.deep_view() == old(env).logs.deep_view().push(
            event_line(standard@, version@, event@, data_json@),
        ),
        final(env).store == old(env).store,
        final(env).promises == old(env).promises,
        final(env).predecessor == old(env).predecessor,
        final(env).current_account == old(env).current_account,
        final(env).attached_deposit == old(env).attached_deposit,
        final(env).block_timestamp == old(env).block_timestamp,
{
    let line = format_event_line(standard, version, event, data_json);
    env.log(line);
    proof {
        assert(env.logs.deep_view() =~= old(env).logs.deep_view().push(
            event_line(standard@, version@, event@, data_json@),
        ));
    }
}

} // verus!
