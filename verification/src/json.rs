//! Machine-readable output for `--json` (scripting, CI, sharing).

use crate::diagnose;
use crate::diagnose::{Confidence, Verdict};
use crate::model::path;
use crate::model::{Fault, Hop, HopId, Layer, Metric, Millis, Path, Status};
use serde_json::Value;
use vstd::prelude::*;

verus! {

broadcast use vstd::string::group_string_axioms;

// ---- JSON values ----

/// What a JSON value holds. A number is held by its numeral.
pub enum Json {
    Null,
    Text(Seq<char>),
    Number(Seq<char>),
    List(Seq<Json>),
    Object(Map<Seq<char>, Json>),
}

/// `serde_json::Value`.
#[verifier::external_type_specification]
#[verifier::external_body]
pub struct ExValue(serde_json::Value);

/// What a `serde_json::Value` holds.
pub uninterp spec fn holds(v: serde_json::Value) -> Json;

/// The number that `serde_json::Number` reads from a text, if it reads one.
pub uninterp spec fn read_number(s: Seq<char>) -> Option<Json>;

/// The text that `serde_json::to_string_pretty` writes for what a value holds,
/// if it writes one.
pub uninterp spec fn pretty_text(j: Json) -> Option<Seq<char>>;

/// `serde_json::Value::Null` holds nothing.
#[verifier::external_body]
fn null() -> (r: Value)
    ensures
        holds(r) == Json::Null,
{
    Value::Null
}

/// `serde_json::Value::from` a string holds that text.
#[verifier::external_body]
fn string(s: &str) -> (r: Value)
    ensures
        holds(r) == Json::Text(s@),
{
    Value::from(s)
}

/// `serde_json::Value::from` a list of values holds what they hold, in order.
#[verifier::external_body]
fn list(items: Vec<Value>) -> (r: Value)
    ensures
        holds(r) == Json::List(items@.map_values(|v: Value| holds(v))),
{
    Value::from(items)
}

/// The fields of an object; nothing yet has none.
pub open spec fn fields(j: Json) -> Map<Seq<char>, Json> {
    match j {
        Json::Object(m) => m,
        _ => Map::empty(),
    }
}

/// Indexing a `serde_json::Value` by a key, to assign to it: an object holds
/// the value under the key from then on, in place of what it held there. A null
/// becomes an object first.
#[verifier::external_body]
fn field(object: Value, key: &str, value: Value) -> (r: Value)
    requires
        holds(object) is Null || holds(object) is Object,
    ensures
        holds(r) == Json::Object(fields(holds(object)).insert(key@, holds(value))),
{
    let mut object = object;
    object[key] = value;
    object
}

/// Reading a `serde_json::Number` from a numeral. Which number a numeral is
/// read as, with 64-bit precision, is left unsaid.
#[verifier::external_body]
fn number(numeral: &str) -> (r: Option<Value>)
    ensures
        match r {
            Some(v) => read_number(numeral@) == Some(holds(v)) && holds(v) is Number,
            None => read_number(numeral@) is None,
        },
{
    numeral.parse::<serde_json::Number>().ok().map(Value::Number)
}

/// `serde_json::to_string_pretty`: the text depends on what the value holds
/// alone, an object keeping its fields in the order of their keys.
#[verifier::external_body]
fn pretty(v: &Value) -> (r: Option<String>)
    ensures
        path::opt_text(r) == pretty_text(holds(*v)),
{
    serde_json::to_string_pretty(v).ok()
}

// ---- the document ----

/// The name of a status.
pub open spec fn status_name(s: Status) -> Seq<char> {
    match s {
        Status::Healthy => "ok"@,
        Status::Warn => "warn"@,
        Status::Fail => "fail"@,
        Status::Pending => "pending"@,
        Status::Skipped => "skipped"@,
    }
}

/// The name of a hop.
pub open spec fn id_name(id: HopId) -> Seq<char> {
    match id {
        HopId::Host => "host"@,
        HopId::Link => "link"@,
        HopId::Gateway => "gateway"@,
        HopId::Vpn => "vpn"@,
        HopId::Uplink => "uplink"@,
        HopId::Wan => "wan"@,
        HopId::Dns => "dns"@,
        HopId::Captive => "captive"@,
    }
}

/// The name of a confidence.
pub open spec fn confidence_name(c: Confidence) -> Seq<char> {
    match c {
        Confidence::Certain => "certain"@,
        Confidence::Likely => "likely"@,
        Confidence::Guess => "guess"@,
    }
}

/// A text, or null.
pub open spec fn text_or_null(o: Option<Seq<char>>) -> Json {
    match o {
        Some(s) => Json::Text(s),
        None => Json::Null,
    }
}

/// A hop's name, or null.
pub open spec fn id_or_null(o: Option<HopId>) -> Json {
    match o {
        Some(id) => Json::Text(id_name(id)),
        None => Json::Null,
    }
}

/// A fault's code, or null.
pub open spec fn fault_or_null(o: Option<Fault>) -> Json {
    match o {
        Some(f) => Json::Text(f.tag()),
        None => Json::Null,
    }
}

/// A number of milliseconds, or null.
pub open spec fn millis_or_null(o: Option<Millis>) -> Json {
    match o {
        Some(ms) => match read_number(ms.numeral()) {
            Some(n) => n,
            None => Json::Null,
        },
        None => Json::Null,
    }
}

/// A metric.
pub open spec fn metric_json(m: path::MetricView) -> Json {
    Json::Object(
        Map::empty().insert("label"@, Json::Text(m.label)).insert("value"@, Json::Text(m.value)).insert(
            "status"@,
            match m.status {
                Some(s) => Json::Text(status_name(s)),
                None => Json::Null,
            },
        ),
    )
}

/// A hop.
pub open spec fn hop_json(h: path::HopView) -> Json {
    Json::Object(
        Map::empty().insert("id"@, Json::Text(id_name(h.id))).insert(
            "layer"@,
            Json::Text(h.layer.name()),
        ).insert("title"@, Json::Text(h.title)).insert("subtitle"@, text_or_null(h.subtitle)).insert(
            "status"@,
            Json::Text(status_name(h.status)),
        ).insert("fault"@, fault_or_null(h.fault)).insert("summary"@, text_or_null(h.summary)).insert(
            "evidence"@,
            text_or_null(h.evidence),
        ).insert("latency_ms"@, millis_or_null(h.latency_ms)).insert(
            "metrics"@,
            Json::List(h.metrics.map_values(|m: path::MetricView| metric_json(m))),
        ),
    )
}

/// A verdict.
pub open spec fn verdict_json(v: diagnose::VerdictView) -> Json {
    Json::Object(
        Map::empty().insert("headline"@, Json::Text(v.headline)).insert(
            "cause"@,
            Json::Text(v.cause),
        ).insert("fix"@, text_or_null(v.fix)).insert(
            "confidence"@,
            Json::Text(confidence_name(v.confidence)),
        ).insert("source"@, id_or_null(v.source)),
    )
}

/// The name of the first break, or null.
pub open spec fn break_json(hops: Seq<path::HopView>) -> Json {
    match path::earliest(hops, Status::Fail) {
        Some(h) => Json::Text(id_name(h.id)),
        None => Json::Null,
    }
}

/// The whole diagnosis.
pub open spec fn document(hops: Seq<path::HopView>, v: diagnose::VerdictView) -> Json {
    Json::Object(
        Map::empty().insert("status"@, Json::Text(status_name(v.status))).insert(
            "verdict"@,
            verdict_json(v),
        ).insert("first_break"@, break_json(hops)).insert(
            "path"@,
            Json::List(hops.map_values(|h: path::HopView| hop_json(h))),
        ),
    )
}

/// The name of a status.
pub fn status_str(s: Status) -> (r: &'static str)
    ensures
        r@ == status_name(s),
{
    match s {
        Status::Healthy => "ok",
        Status::Warn => "warn",
        Status::Fail => "fail",
        Status::Pending => "pending",
        Status::Skipped => "skipped",
    }
}

/// The name of a hop.
pub fn id_str(id: HopId) -> (r: &'static str)
    ensures
        r@ == id_name(id),
{
    match id {
        HopId::Host => "host",
        HopId::Link => "link",
        HopId::Gateway => "gateway",
        HopId::Vpn => "vpn",
        HopId::Uplink => "uplink",
        HopId::Wan => "wan",
        HopId::Dns => "dns",
        HopId::Captive => "captive",
    }
}

fn confidence_str(c: Confidence) -> (r: &'static str)
    ensures
        r@ == confidence_name(c),
{
    match c {
        Confidence::Certain => "certain",
        Confidence::Likely => "likely",
        Confidence::Guess => "guess",
    }
}

fn optional(o: &Option<String>) -> (r: Value)
    ensures
        holds(r) == text_or_null(path::opt_text(*o)),
{
    match o {
        Some(s) => string(s.as_str()),
        None => null(),
    }
}

fn millis_value(o: Option<Millis>) -> (r: Value)
    ensures
        holds(r) == millis_or_null(o),
{
    match o {
        Some(ms) => match number(ms.numeral_text().as_str()) {
            Some(v) => v,
            None => null(),
        },
        None => null(),
    }
}

fn metric_value(m: &Metric) -> (r: Value)
    ensures
        holds(r) == metric_json(m@),
{
    let status = match m.status {
        Some(s) => string(status_str(s)),
        None => null(),
    };
    let o = field(null(), "label", string(m.label.as_str()));
    let o = field(o, "value", string(m.value.as_str()));
    field(o, "status", status)
}

fn metrics_value(h: &Hop) -> (r: Value)
    ensures
        holds(r) == Json::List(h@.metrics.map_values(|m: path::MetricView| metric_json(m))),
{
    let ghost all = h@.metrics.map_values(|m: path::MetricView| metric_json(m));
    let mut items: Vec<Value> = Vec::new();
    let mut i: usize = 0;
    while i < h.metrics.len()
        invariant
            i <= h.metrics@.len(),
            all == h@.metrics.map_values(|m: path::MetricView| metric_json(m)),
            items@.map_values(|v: Value| holds(v)) == all.take(i as int),
        decreases h.metrics@.len() - i,
    {
        let ghost before = items@.map_values(|v: Value| holds(v));
        let v = metric_value(&h.metrics[i]);
        items.push(v);
        assert(items@.map_values(|v: Value| holds(v)) =~= before.push(holds(v)));
        i += 1;
        assert(all.take(i as int) =~= before.push(all[i - 1]));
    }
    assert(all.take(i as int) == all);
    list(items)
}

fn hop_value(h: &Hop) -> (r: Value)
    ensures
        holds(r) == hop_json(h@),
{
    let fault = match h.fault {
        Some(f) => string(f.code()),
        None => null(),
    };
    let o = field(null(), "id", string(id_str(h.id)));
    let o = field(o, "layer", string(h.layer.label()));
    let o = field(o, "title", string(h.title.as_str()));
    let o = field(o, "subtitle", optional(&h.subtitle));
    let o = field(o, "status", string(status_str(h.status)));
    let o = field(o, "fault", fault);
    let o = field(o, "summary", optional(&h.summary));
    let o = field(o, "evidence", optional(&h.evidence));
    let o = field(o, "latency_ms", millis_value(h.latency_ms));
    field(o, "metrics", metrics_value(h))
}

fn path_value(path: &Path) -> (r: Value)
    ensures
        holds(r) == Json::List(path@.map_values(|h: path::HopView| hop_json(h))),
{
    let ghost all = path@.map_values(|h: path::HopView| hop_json(h));
    let mut items: Vec<Value> = Vec::new();
    let mut i: usize = 0;
    while i < path.hops.len()
        invariant
            i <= path.hops@.len(),
            all == path@.map_values(|h: path::HopView| hop_json(h)),
            items@.map_values(|v: Value| holds(v)) == all.take(i as int),
        decreases path.hops@.len() - i,
    {
        let ghost before = items@.map_values(|v: Value| holds(v));
        let v = hop_value(&path.hops[i]);
        items.push(v);
        assert(items@.map_values(|v: Value| holds(v)) =~= before.push(holds(v)));
        i += 1;
        assert(all.take(i as int) =~= before.push(all[i - 1]));
    }
    assert(all.take(i as int) == all);
    list(items)
}

fn verdict_value(v: &Verdict) -> (r: Value)
    ensures
        holds(r) == verdict_json(v@),
{
    let source = match v.source {
        Some(id) => string(id_str(id)),
        None => null(),
    };
    let o = field(null(), "headline", string(v.headline.as_str()));
    let o = field(o, "cause", string(v.cause.as_str()));
    let o = field(o, "fix", optional(&v.fix));
    let o = field(o, "confidence", string(confidence_str(v.confidence)));
    field(o, "source", source)
}

/// The diagnosis as a JSON value.
pub fn to_value(path: &Path, verdict: &Verdict) -> (r: Value)
    ensures
        holds(r) == document(path@, verdict@),
{
    let first_break = match path.first_break() {
        Some(h) => string(id_str(h.id)),
        None => null(),
    };
    let o = field(null(), "status", string(status_str(verdict.status)));
    let o = field(o, "verdict", verdict_value(verdict));
    let o = field(o, "first_break", first_break);
    field(o, "path", path_value(path))
}

/// The text of a document, or of an empty one where there is none.
pub open spec fn text_or_empty(o: Option<Seq<char>>) -> Seq<char> {
    match o {
        Some(s) => s,
        None => "{}"@,
    }
}

/// The text of a document, or of an empty one where there is none.
pub fn or_empty(text: Option<String>) -> (r: String)
    ensures
        r@ == text_or_empty(path::opt_text(text)),
{
    match text {
        Some(s) => s,
        None => "{}".to_string(),
    }
}

/// The diagnosis as JSON text.
pub fn to_string(path: &Path, verdict: &Verdict) -> (r: String)
    ensures
        r@ == text_or_empty(pretty_text(document(path@, verdict@))),
{
    or_empty(pretty(&to_value(path, verdict)))
}

// ---- laws ----

/// The first break, when there is one, names a hop of the path that failed.
pub proof fn the_first_break_names_a_hop_that_failed(hops: Seq<path::HopView>)
    ensures
        break_json(hops) is Null <==> !diagnose::any_with(hops, Status::Fail),
        break_json(hops) matches Json::Text(name) ==> exists|i: int|
            0 <= i < hops.len() && id_name((#[trigger] hops[i]).id) == name && hops[i].status
                == Status::Fail,
{
    path::lemma_earliest_exists(hops, Status::Fail);
}

/// The names of hops tell each from every other.
pub proof fn hop_names_are_distinct(a: HopId, b: HopId)
    ensures
        id_name(a) == id_name(b) <==> a == b,
{
    reveal_strlit("host");
    reveal_strlit("link");
    reveal_strlit("gateway");
    reveal_strlit("vpn");
    reveal_strlit("uplink");
    reveal_strlit("wan");
    reveal_strlit("dns");
    reveal_strlit("captive");
    if id_name(a) == id_name(b) {
        assert(id_name(a).len() == id_name(b).len());
        assert(id_name(a)[0] == id_name(b)[0]);
    }
}

/// The names of statuses tell each from every other.
pub proof fn status_names_are_distinct(a: Status, b: Status)
    ensures
        status_name(a) == status_name(b) <==> a == b,
{
    reveal_strlit("ok");
    reveal_strlit("warn");
    reveal_strlit("fail");
    reveal_strlit("pending");
    reveal_strlit("skipped");
    if status_name(a) == status_name(b) {
        assert(status_name(a)[0] == status_name(b)[0]);
    }
}

/// An object has this key.
pub open spec fn has_key(j: Json, key: Seq<char>) -> bool {
    j is Object && fields(j).contains_key(key)
}

/// The document has the keys that scripts are told of, at each level, and its
/// status is the verdict's.
pub proof fn the_document_has_its_documented_shape(
    hops: Seq<path::HopView>,
    v: diagnose::VerdictView,
    i: int,
)
    requires
        0 <= i < hops.len(),
    ensures
        has_key(document(hops, v), "status"@),
        has_key(document(hops, v), "verdict"@),
        has_key(document(hops, v), "first_break"@),
        has_key(document(hops, v), "path"@),
        fields(document(hops, v))["status"@] == Json::Text(status_name(v.status)),
        fields(document(hops, v))["verdict"@] == verdict_json(v),
        fields(document(hops, v))["path"@] matches Json::List(l) && l.len() == hops.len() && l[i]
            == hop_json(hops[i]),
        has_key(verdict_json(v), "headline"@),
        has_key(verdict_json(v), "cause"@),
        has_key(verdict_json(v), "fix"@),
        has_key(verdict_json(v), "confidence"@),
        has_key(verdict_json(v), "source"@),
        has_key(hop_json(hops[i]), "id"@),
        has_key(hop_json(hops[i]), "layer"@),
        has_key(hop_json(hops[i]), "title"@),
        has_key(hop_json(hops[i]), "status"@),
        has_key(hop_json(hops[i]), "fault"@),
        has_key(hop_json(hops[i]), "summary"@),
        has_key(hop_json(hops[i]), "evidence"@),
        has_key(hop_json(hops[i]), "metrics"@),
{
    reveal_strlit("status");
    reveal_strlit("verdict");
    reveal_strlit("first_break");
    reveal_strlit("path");
    assert("status"@.len() == 6 && "verdict"@.len() == 7 && "first_break"@.len() == 11
        && "path"@.len() == 4);
}

/// The names of statuses are those that scripts are told of.
pub proof fn status_names_are_the_documented_ones(s: Status)
    ensures
        status_name(s) == "ok"@ <==> s == Status::Healthy,
        status_name(s) == "warn"@ <==> s == Status::Warn,
        status_name(s) == "fail"@ <==> s == Status::Fail,
        status_name(s) == "pending"@ <==> s == Status::Pending,
        status_name(s) == "skipped"@ <==> s == Status::Skipped,
{
    reveal_strlit("ok");
    reveal_strlit("warn");
    reveal_strlit("fail");
    reveal_strlit("pending");
    reveal_strlit("skipped");
    assert("ok"@[0] == 'o' && "warn"@[0] == 'w' && "fail"@[0] == 'f' && "pending"@[0] == 'p'
        && "skipped"@[0] == 's');
}

/// The names of confidences tell each from every other.
pub proof fn confidence_names_are_distinct(a: Confidence, b: Confidence)
    ensures
        confidence_name(a) == confidence_name(b) <==> a == b,
        confidence_name(a) == "certain"@ <==> a == Confidence::Certain,
        confidence_name(a) == "likely"@ <==> a == Confidence::Likely,
        confidence_name(a) == "guess"@ <==> a == Confidence::Guess,
{
    reveal_strlit("certain");
    reveal_strlit("likely");
    reveal_strlit("guess");
    assert("certain"@.len() == 7 && "likely"@.len() == 6 && "guess"@.len() == 5);
}

/// Each key of a hop holds what the hop says under it.
pub proof fn a_hop_is_told_field_by_field(h: path::HopView, k: int)
    ensures
        ({
            let f = fields(hop_json(h));
            &&& f["id"@] == Json::Text(id_name(h.id))
            &&& f["layer"@] == Json::Text(h.layer.name())
            &&& f["title"@] == Json::Text(h.title)
            &&& f["subtitle"@] == text_or_null(h.subtitle)
            &&& f["status"@] == Json::Text(status_name(h.status))
            &&& f["fault"@] == (match h.fault {
                Some(x) => Json::Text(x.tag()),
                None => Json::Null,
            })
            &&& f["summary"@] == text_or_null(h.summary)
            &&& f["evidence"@] == text_or_null(h.evidence)
            &&& h.latency_ms is None ==> f["latency_ms"@] == Json::Null
            &&& f["metrics"@] matches Json::List(l) && l.len() == h.metrics.len() && (0 <= k
                < l.len() ==> {
                let m = fields(l[k]);
                &&& m["label"@] == Json::Text(h.metrics[k].label)
                &&& m["value"@] == Json::Text(h.metrics[k].value)
                &&& m["status"@] == (match h.metrics[k].status {
                    Some(s) => Json::Text(status_name(s)),
                    None => Json::Null,
                })
            })
        }),
{
    reveal_strlit("id");
    reveal_strlit("layer");
    reveal_strlit("title");
    reveal_strlit("subtitle");
    reveal_strlit("status");
    reveal_strlit("fault");
    reveal_strlit("summary");
    reveal_strlit("evidence");
    reveal_strlit("latency_ms");
    reveal_strlit("metrics");
    reveal_strlit("label");
    reveal_strlit("value");
    assert("id"@.len() == 2 && "status"@.len() == 6 && "latency_ms"@.len() == 10);
    assert("layer"@.len() == 5 && "title"@.len() == 5 && "fault"@.len() == 5);
    assert("layer"@[0] == 'l' && "title"@[0] == 't' && "fault"@[0] == 'f');
    assert("subtitle"@.len() == 8 && "evidence"@.len() == 8);
    assert("subtitle"@[0] == 's' && "evidence"@[0] == 'e');
    assert("summary"@.len() == 7 && "metrics"@.len() == 7);
    assert("summary"@[0] == 's' && "metrics"@[0] == 'm');
    assert("label"@.len() == 5 && "value"@.len() == 5 && "label"@[0] == 'l' && "value"@[0] == 'v');
}

/// Each key of a verdict holds what the verdict says under it.
pub proof fn a_verdict_is_told_field_by_field(v: diagnose::VerdictView)
    ensures
        ({
            let f = fields(verdict_json(v));
            &&& f["headline"@] == Json::Text(v.headline)
            &&& f["cause"@] == Json::Text(v.cause)
            &&& f["fix"@] == (match v.fix {
                Some(s) => Json::Text(s),
                None => Json::Null,
            })
            &&& f["confidence"@] == Json::Text(confidence_name(v.confidence))
            &&& f["source"@] == (match v.source {
                Some(id) => Json::Text(id_name(id)),
                None => Json::Null,
            })
        }),
{
    reveal_strlit("headline");
    reveal_strlit("cause");
    reveal_strlit("fix");
    reveal_strlit("confidence");
    reveal_strlit("source");
    assert("headline"@.len() == 8 && "cause"@.len() == 5 && "fix"@.len() == 3
        && "confidence"@.len() == 10 && "source"@.len() == 6);
}

/// The first break that a document names is the hop closest to the host that
/// failed.
pub proof fn the_first_break_is_the_closest(
    hops: Seq<path::HopView>,
    v: diagnose::VerdictView,
    i: int,
)
    requires
        path::distinct(hops),
        0 <= i < hops.len(),
        hops[i].status == Status::Fail,
        forall|j: int|
            0 <= j < hops.len() && (#[trigger] hops[j]).status == Status::Fail
                ==> hops[i].id.place() <= hops[j].id.place(),
    ensures
        fields(document(hops, v))["first_break"@] == Json::Text(id_name(hops[i].id)),
{
    reveal_strlit("status");
    reveal_strlit("verdict");
    reveal_strlit("first_break");
    reveal_strlit("path");
    assert("first_break"@.len() == 11 && "path"@.len() == 4);
    assert forall|j: int| 0 <= j < hops.len() && #[trigger] hops[j].status == Status::Fail implies hops[i].id.place()
        < hops[j].id.place() || (hops[i].id.place() == hops[j].id.place() && i <= j) by {
        path::chain_places_are_distinct(hops[i].id, hops[j].id);
    }
    assert(path::is_earliest(hops, Status::Fail, i));
    path::lemma_earliest(hops, Status::Fail, i);
}

/// The names of layers tell each from every other.
pub proof fn layer_names_are_distinct(a: Layer, b: Layer)
    ensures
        a.name() == b.name() <==> a == b,
{
    reveal_strlit("L2 Link");
    reveal_strlit("L3 Network");
    reveal_strlit("WAN");
    reveal_strlit("L7 App");
    assert("L2 Link"@.len() == 7 && "L3 Network"@.len() == 10 && "WAN"@.len() == 3
        && "L7 App"@.len() == 6);
}

} // verus!
