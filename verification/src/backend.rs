//! The rules of the one door to the outside: which host may be asked,
//! how a request is classed and bounded, and what a value that came out
//! of an answer must look like before it goes into the next request.
//! The door itself (the network, the recorded answers) is the
//! embedding program's.

use vstd::prelude::*;
use vstd::string::StringExecFns;

use crate::json::{get, get_spec, Json, JsonV};
use crate::text::{
    chars_of, decimal, fmt_u64, has_prefix, is_line_mark, is_whitespace, is_ws, push_char,
    starts_with, trim_by, trim_chars, trim_pred,
};

verus! {

/// The public LINDAS SPARQL endpoint — the ONE host this server ever
/// connects to. Foreign IRIs are subjects this endpoint is asked about;
/// they are never fetched.
pub const LINDAS_ENDPOINT: &'static str = "https://lindas.admin.ch/query";

/// The prefix every connect target must carry.
pub const ENDPOINT_HOST: &'static str = "https://lindas.admin.ch/";

/// The identifying agent, with the address that answers for it.
pub const USER_AGENT: &'static str = "oh-mcp-lindas/0.1 (+https://openhelvetia.swiss; base-tier domain server)";

/// A SELECT/ASK is bounded by the caller's patience, in seconds.
pub const SELECT_TIMEOUT_SECS: u64 = 15;

/// The heavier class — a description of one IRI — in seconds.
pub const DESCRIBE_TIMEOUT_SECS: u64 = 30;

pub open spec fn select_class_spec() -> Seq<char> {
    "SPARQL select (timeout "@ + decimal(15) + " s)"@
}

pub open spec fn select_body_class_spec() -> Seq<char> {
    "SPARQL result body (select, timeout "@ + decimal(15) + " s)"@
}

pub open spec fn describe_class_spec() -> Seq<char> {
    "SPARQL describe (timeout "@ + decimal(30) + " s)"@
}

pub open spec fn describe_body_class_spec() -> Seq<char> {
    "SPARQL result body (describe, timeout "@ + decimal(30) + " s)"@
}

/// `prefix + n + suffix`.
fn framed_number(prefix: &str, n: u64, suffix: &str) -> (s: String)
    ensures
        s@ == prefix@ + decimal(n as nat) + suffix@,
{
    let mut s = String::from_str(prefix);
    let digits = fmt_u64(n);
    s.append(digits.as_str());
    s.append(suffix);
    s
}

/// The refusal of the call path names its class and its bound…
pub fn select_class() -> (s: String)
    ensures
        s@ == select_class_spec(),
{
    framed_number("SPARQL select (timeout ", SELECT_TIMEOUT_SECS, " s)")
}

/// …the body half says so, with the same bound…
pub fn select_body_class() -> (s: String)
    ensures
        s@ == select_body_class_spec(),
{
    framed_number("SPARQL result body (select, timeout ", SELECT_TIMEOUT_SECS, " s)")
}

/// …and the describe class carries its own…
pub fn describe_class() -> (s: String)
    ensures
        s@ == describe_class_spec(),
{
    framed_number("SPARQL describe (timeout ", DESCRIBE_TIMEOUT_SECS, " s)")
}

/// …with a body half of its own too.
pub fn describe_body_class() -> (s: String)
    ensures
        s@ == describe_body_class_spec(),
{
    framed_number("SPARQL result body (describe, timeout ", DESCRIBE_TIMEOUT_SECS, " s)")
}

/// The class PAIR a bound belongs to — the call half and the body half,
/// decided in one place.
pub fn classes_of(timeout_secs: u64) -> (r: (String, String))
    ensures
        timeout_secs == DESCRIBE_TIMEOUT_SECS ==> r.0@ == describe_class_spec() && r.1@
            == describe_body_class_spec(),
        timeout_secs != DESCRIBE_TIMEOUT_SECS ==> r.0@ == select_class_spec() && r.1@
            == select_body_class_spec(),
{
    if timeout_secs == DESCRIBE_TIMEOUT_SECS {
        (describe_class(), describe_body_class())
    } else {
        (select_class(), select_body_class())
    }
}

/// How an answer was served, carried into the provenance of every
/// answer.
#[derive(PartialEq, Eq, Structural)]
pub enum Served {
    Live,
    Fixture,
}

impl Clone for Served {
    fn clone(&self) -> (r: Self)
        ensures
            r == *self,
    {
        match self {
            Served::Live => Served::Live,
            Served::Fixture => Served::Fixture,
        }
    }
}

impl Copy for Served {

}

impl Served {
    pub open spec fn name(self) -> Seq<char> {
        match self {
            Served::Live => "live"@,
            Served::Fixture => "fixture"@,
        }
    }

    pub fn as_str(self) -> (r: &'static str)
        ensures
            r@ == self.name(),
    {
        match self {
            Served::Live => "live",
            Served::Fixture => "fixture",
        }
    }
}

/// One request of a tool: the stable semantic key its recorded answer
/// is filed under, the query that actually runs, and whether it reads
/// the wide body of a description (the 30 s bound) or not (15 s).
pub struct Request {
    pub key: String,
    pub query: String,
    pub wide: bool,
}

/// The bound a request runs under, in seconds.
pub open spec fn timeout_of(wide: bool) -> u64 {
    if wide {
        DESCRIBE_TIMEOUT_SECS
    } else {
        SELECT_TIMEOUT_SECS
    }
}

impl Request {
    pub fn timeout_secs(&self) -> (t: u64)
        ensures
            t == timeout_of(self.wide),
    {
        if self.wide {
            DESCRIBE_TIMEOUT_SECS
        } else {
            SELECT_TIMEOUT_SECS
        }
    }
}

/// One answer of the endpoint, as the door hands it back: the SPARQL
/// result document, how it was served and, live only, the moment.
pub struct Reply {
    pub value: Json,
    pub served: Served,
    pub retrieved_at: Option<String>,
}

/// What the door reports for a request: the answer, or the text of the
/// fault it ran into.
pub type Event = Result<Reply, String>;

/// The one-host rule: a connect target that is not the endpoint's host
/// never reaches a socket.
pub fn connect_target(endpoint: &str) -> (r: Result<(), String>)
    ensures
        r is Ok <==> has_prefix(endpoint@, ENDPOINT_HOST@),
        r matches Err(e) ==> e@ == "invalid-input: «"@ + endpoint@
            + "» is not the one host this server speaks to"@,
{
    if starts_with(endpoint, ENDPOINT_HOST) {
        Ok(())
    } else {
        let mut e = String::from_str("invalid-input: «");
        e.append(endpoint);
        e.append("» is not the one host this server speaks to");
        Err(e)
    }
}

/// The text of a request the endpoint did not answer: a 4xx status is a
/// permanent answer ABOUT the request (a malformed query, a serialisation
/// it cannot serve), anything else an outage of the named class.
pub open spec fn call_fault_spec(status: Option<u16>, class: Seq<char>, fault: Seq<char>) -> Seq<char> {
    match status {
        Some(code) => if 400 <= code < 500 {
            "bad-request: HTTP "@ + decimal(code as nat)
        } else {
            "upstream-unavailable: "@ + class + ": "@ + fault
        },
        None => "upstream-unavailable: "@ + class + ": "@ + fault,
    }
}

/// The text of a request the endpoint did not answer (`status` is the
/// HTTP status it answered with, if it answered one).
pub fn call_fault(status: Option<u16>, class: &str, fault: &str) -> (r: String)
    ensures
        r@ == call_fault_spec(status, class@, fault@),
{
    if let Some(code) = status {
        if 400 <= code && code < 500 {
            let mut r = String::from_str("bad-request: HTTP ");
            r.append(fmt_u64(code as u64).as_str());
            return r;
        }
    }
    let mut r = String::from_str("upstream-unavailable: ");
    r.append(class);
    r.append(": ");
    r.append(fault);
    r
}

/// The text of an answer whose body could not be read as JSON.
pub fn body_fault(body_class: &str, fault: &str) -> (r: String)
    ensures
        r@ == "upstream-unavailable: "@ + body_class@ + ": "@ + fault@,
{
    let mut r = String::from_str("upstream-unavailable: ");
    r.append(body_class);
    r.append(": ");
    r.append(fault);
    r
}

/// `normalise_value`: trim the line marks, then the whitespace.
pub open spec fn normalised(raw: Seq<char>) -> Seq<char> {
    trim_by(trim_by(raw, trim_pred(false)), trim_pred(true))
}

/// A value that came out of an answer before it goes into the next
/// request: the endpoint's CSV is CRLF and its JSON can carry stray
/// whitespace, so nothing is pasted raw.
pub fn normalise_value(raw: &str) -> (r: String)
    ensures
        r@ == normalised(raw@),
{
    let marks = trim_chars(raw, false);
    trim_chars(marks.as_str(), true)
}

/// A character that cannot stand inside `<…>`.
pub open spec fn iri_breaking(c: char) -> bool {
    is_ws(c) || c == '<' || c == '>' || c == '"' || c == '{' || c == '}' || c == '\\' || c == '|'
        || c == '^'
}

/// What `iri_safe` answers: the trimmed IRI, or why not.
pub open spec fn iri_safe_spec(iri: Seq<char>) -> Result<Seq<char>, Seq<char>> {
    let t = trim_by(iri, trim_pred(true));
    if t.len() == 0 {
        Err("an IRI is required"@)
    } else if !(has_prefix(t, "https://"@) || has_prefix(t, "http://"@)) {
        Err("«"@ + t + "» is no IRI (http/https expected)"@)
    } else if exists|i: int| 0 <= i < t.len() && iri_breaking(#[trigger] t[i]) {
        Err("«"@ + t + "» carries characters that cannot stand in an IRI"@)
    } else {
        Ok(t)
    }
}

/// An IRI this server may put into a query: syntactically sound, and
/// carrying nothing that could break out of `<…>`. The HOST is not
/// checked — a foreign IRI is a legitimate SUBJECT — only the shape is.
pub fn iri_safe(iri: &str) -> (r: Result<String, String>)
    ensures
        match r {
            Ok(t) => iri_safe_spec(iri@) == Ok::<Seq<char>, Seq<char>>(t@),
            Err(e) => iri_safe_spec(iri@) == Err::<Seq<char>, Seq<char>>(e@),
        },
{
    let trimmed = trim_chars(iri, true);
    let t = chars_of(trimmed.as_str());
    if t.len() == 0 {
        return Err(String::from_str("an IRI is required"));
    }
    if !(starts_with(trimmed.as_str(), "https://") || starts_with(trimmed.as_str(), "http://")) {
        let mut e = String::from_str("«");
        e.append(trimmed.as_str());
        e.append("» is no IRI (http/https expected)");
        return Err(e);
    }
    let mut i: usize = 0;
    while i < t.len()
        invariant
            0 <= i <= t@.len(),
            t@ == trimmed@,
            trimmed@ == trim_by(iri@, trim_pred(true)),
            t@.len() > 0,
            has_prefix(t@, "https://"@) || has_prefix(t@, "http://"@),
            forall|k: int| 0 <= k < i ==> !iri_breaking(#[trigger] t@[k]),
        decreases t@.len() - i,
    {
        let c = t[i];
        if is_whitespace(c) || c == '<' || c == '>' || c == '"' || c == '{' || c == '}' || c == '\\'
            || c == '|' || c == '^' {
            assert(iri_breaking(t@[i as int]));
            let mut e = String::from_str("«");
            e.append(trimmed.as_str());
            e.append("» carries characters that cannot stand in an IRI");
            return Err(e);
        }
        i = i + 1;
    }
    Ok(trimmed)
}

/// What one character of a bound literal becomes.
pub open spec fn literal_char(c: char) -> Seq<char> {
    if c == '\\' {
        seq!['\\', '\\']
    } else if c == '"' {
        seq!['\\', '"']
    } else if c == '\n' || c == '\r' {
        seq![' ']
    } else {
        seq![c]
    }
}

/// The literal escape of a whole value.
pub open spec fn literal_escaped(s: Seq<char>) -> Seq<char>
    decreases s.len(),
{
    if s.len() == 0 {
        Seq::empty()
    } else {
        literal_escaped(s.drop_last()) + literal_char(s.last())
    }
}

/// The literal escape for a bound value inside a query.
pub fn literal_safe(value: &str) -> (r: String)
    ensures
        r@ == literal_escaped(value@),
{
    let v = chars_of(value);
    let mut r = String::new();
    let mut i: usize = 0;
    while i < v.len()
        invariant
            0 <= i <= v@.len(),
            r@ == literal_escaped(v@.take(i as int)),
        decreases v@.len() - i,
    {
        let c = v[i];
        assert(v@.take(i + 1).drop_last() =~= v@.take(i as int));
        if c == '\\' {
            push_char(&mut r, '\\');
            push_char(&mut r, '\\');
        } else if c == '"' {
            push_char(&mut r, '\\');
            push_char(&mut r, '"');
        } else if c == '\n' || c == '\r' {
            push_char(&mut r, ' ');
        } else {
            push_char(&mut r, c);
        }
        i = i + 1;
        assert(r@ =~= literal_escaped(v@.take(i as int)));
    }
    assert(v@.take(v@.len() as int) =~= v@);
    r
}

/// The bindings of a SELECT answer (`results.bindings`), when it has them.
pub open spec fn bindings_spec(value: JsonV) -> Option<Seq<JsonV>> {
    match get_spec(value, "results"@) {
        Some(results) => match get_spec(results, "bindings"@) {
            Some(JsonV::Arr(items)) => Some(items),
            _ => None,
        },
        None => None,
    }
}

/// The bindings of a SELECT answer, or an upstream fault.
pub fn bindings(value: &Json) -> (r: Result<&Vec<Json>, String>)
    ensures
        r is Ok <==> bindings_spec(value@) is Some,
        r matches Ok(items) ==> bindings_spec(value@) == Some(crate::json::items_view(items@)),
        r matches Err(e) ==> e@ == "upstream-unavailable: no bindings in the answer"@,
{
    if let Some(results) = get(value, "results") {
        if let Some(Json::Arr(items)) = get(results, "bindings") {
            proof {
                crate::json::lemma_arr_view(*items);
            }
            return Ok(items);
        }
    }
    Err(String::from_str("upstream-unavailable: no bindings in the answer"))
}

/// The boolean of an ASK answer, when it has one.
pub open spec fn boolean_spec(value: JsonV) -> Option<bool> {
    match get_spec(value, "boolean"@) {
        Some(JsonV::Bool(b)) => Some(b),
        _ => None,
    }
}

/// The boolean of an ASK answer, or an upstream fault.
pub fn boolean(value: &Json) -> (r: Result<bool, String>)
    ensures
        r is Ok <==> boolean_spec(value@) is Some,
        r matches Ok(b) ==> boolean_spec(value@) == Some(b),
        r matches Err(e) ==> e@ == "upstream-unavailable: no boolean in the answer"@,
{
    match get(value, "boolean") {
        Some(Json::Bool(b)) => Ok(*b),
        _ => Err(String::from_str("upstream-unavailable: no boolean in the answer")),
    }
}

} // verus!
