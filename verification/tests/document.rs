//! What scripts depend on: the exit codes and the shape of the JSON document.
//!
//! These hold whatever the health of the network, so each is asked of paths
//! that are healthy, degraded, broken and cut short alike.

use serde_json::Value;
use wtfi2::cli::{exit_code, Cli, Output};
use wtfi2::diagnose::{diagnose, Verdict};
use wtfi2::engine::{complete, unmeasured};
use wtfi2::json::{id_str, or_empty, status_str, to_string, to_value};
use wtfi2::model::{Fault, Hop, HopId, Layer, Metric, Millis, Path, Status};
use wtfi2::render::report;

const DOCUMENTED_EXIT_CODES: [i32; 5] = [0, 1, 2, 3, 4];

fn hop(id: HopId, layer: Layer, title: &str, status: Status) -> Hop {
    let mut h = Hop::new(id, layer, title);
    h.status = status;
    h.summary = Some(format!("{title} was asked"));
    h.evidence = Some("one request".to_string());
    h.metrics
        .push(Metric::new("Answer", "yes").with_status(status));
    h.metrics.push(Metric::new("Plain", "\u{1b} is a control"));
    h
}

fn chain(wan: Status, dns: Status) -> Vec<Hop> {
    vec![
        hop(HopId::Host, Layer::Link, "You", Status::Healthy),
        hop(HopId::Link, Layer::Link, "Wi-Fi", Status::Healthy),
        hop(HopId::Gateway, Layer::Network, "Gateway", Status::Healthy),
        hop(HopId::Wan, Layer::Internet, "Internet", wan),
        hop(HopId::Dns, Layer::Application, "DNS", dns),
        hop(HopId::Captive, Layer::Application, "Portal", Status::Healthy),
    ]
}

/// Sweeps of every outcome, with their verdicts.
fn runs() -> Vec<(Path, Verdict)> {
    let mut broken = chain(Status::Fail, Status::Fail);
    broken[3].fault = Some(Fault::NoInternet);
    broken[4].fault = Some(Fault::ResolverDead);
    let partial = vec![
        hop(HopId::Host, Layer::Link, "You", Status::Healthy),
        unmeasured(HopId::Wan, Layer::Internet, "Internet", "no time"),
    ];
    let stalled = CHAIN_IDS
        .iter()
        .map(|id| hop(*id, Layer::Network, "Hop", Status::Skipped))
        .collect();
    let sweeps: Vec<Vec<Hop>> = vec![
        chain(Status::Healthy, Status::Healthy),
        chain(Status::Healthy, Status::Warn),
        chain(Status::Healthy, Status::Fail),
        broken,
        partial,
        stalled,
        vec![],
    ];
    sweeps
        .into_iter()
        .map(|hops| {
            let path = complete(hops);
            let verdict = diagnose(&path);
            (path, verdict)
        })
        .collect()
}

const CHAIN_IDS: [HopId; 6] = [
    HopId::Host,
    HopId::Link,
    HopId::Gateway,
    HopId::Wan,
    HopId::Dns,
    HopId::Captive,
];

fn documents() -> Vec<Value> {
    runs()
        .iter()
        .map(|(path, verdict)| {
            let text = to_string(path, verdict);
            match text.parse::<Value>() {
                Ok(doc) => doc,
                Err(e) => panic!("must be parseable JSON: {e}\n{text}"),
            }
        })
        .collect()
}

#[test]
fn the_exit_code_is_one_the_readme_documents() {
    for (_, verdict) in runs() {
        let code = exit_code(verdict.status);
        assert!(
            DOCUMENTED_EXIT_CODES.contains(&code),
            "exit code {code} is not in the documented set {DOCUMENTED_EXIT_CODES:?}"
        );
    }
}

/// The exit code and the reported status are two channels for one answer, and
/// a script that branches on the code while a human reads the text must not be
/// told different things.
#[test]
fn the_exit_code_agrees_with_the_reported_status() {
    for (path, verdict) in runs() {
        let doc = to_value(&path, &verdict);
        let expected = match doc["status"].as_str().expect("status is a string") {
            "ok" => 0,
            "warn" => 1,
            "skipped" => 4,
            _ => 2,
        };
        assert_eq!(
            exit_code(verdict.status),
            expected,
            "status {} should exit {expected}",
            doc["status"]
        );
    }
}

#[test]
fn json_output_carries_the_documented_shape() {
    for doc in documents() {
        for key in ["status", "verdict", "first_break", "path"] {
            assert!(doc.get(key).is_some(), "missing top-level key `{key}`");
        }
        for key in ["headline", "cause", "fix", "confidence", "source"] {
            assert!(
                doc["verdict"].get(key).is_some(),
                "missing verdict key `{key}`"
            );
        }
        assert!(
            !doc["verdict"]["headline"]
                .as_str()
                .expect("headline is a string")
                .is_empty(),
            "a verdict with no headline says nothing"
        );

        let path = doc["path"].as_array().expect("path is an array");
        assert!(!path.is_empty(), "the path must have hops");
        for hop in path {
            for key in [
                "id", "layer", "title", "status", "fault", "summary", "evidence", "metrics",
            ] {
                assert!(hop.get(key).is_some(), "hop missing `{key}`: {hop}");
            }
            assert!(hop["metrics"].is_array(), "metrics must be an array: {hop}");
        }
    }
}

/// Statuses are a closed set that consumers match on.
#[test]
fn every_status_in_json_is_a_known_variant() {
    const KNOWN: [&str; 5] = ["ok", "warn", "fail", "pending", "skipped"];
    for doc in documents() {
        let mut seen: Vec<String> = vec![doc["status"].as_str().unwrap().to_string()];
        for hop in doc["path"].as_array().unwrap() {
            seen.push(hop["status"].as_str().unwrap().to_string());
            for metric in hop["metrics"].as_array().unwrap() {
                if let Some(s) = metric["status"].as_str() {
                    seen.push(s.to_string());
                }
            }
        }
        for status in seen {
            assert!(
                KNOWN.contains(&status.as_str()),
                "unknown status `{status}`"
            );
        }
    }
}

/// A one-shot report has finished by definition. A hop still `pending` in its
/// output means the sweep was truncated without being settled, which renders
/// as "Scanning your connection…" in a report that has stopped scanning.
#[test]
fn a_one_shot_run_leaves_no_hop_pending() {
    for doc in documents() {
        let pending: Vec<_> = doc["path"]
            .as_array()
            .unwrap()
            .iter()
            .filter(|h| h["status"] == "pending")
            .map(|h| h["id"].clone())
            .collect();
        assert!(pending.is_empty(), "hops left pending: {pending:?}");
        assert_ne!(doc["status"], "pending", "the verdict must have settled");
    }
}

/// `first_break`, when present, has to name a hop that is actually in the
/// path and actually failed — otherwise a consumer following the pointer
/// lands on nothing, or on a healthy hop.
#[test]
fn first_break_points_at_a_hop_that_really_failed() {
    let mut named = 0;
    for doc in documents() {
        let Some(id) = doc["first_break"].as_str() else {
            continue;
        };
        named += 1;
        let hop = doc["path"]
            .as_array()
            .unwrap()
            .iter()
            .find(|h| h["id"] == id)
            .unwrap_or_else(|| panic!("first_break `{id}` is not in the path"));
        assert_eq!(
            hop["status"], "fail",
            "first_break names a hop that is not failing"
        );
    }
    assert_eq!(named, 2, "two of the sweeps break");
}

/// Likewise the verdict's source hop: the report prints that hop's evidence,
/// so a dangling pointer would silently drop the basis for the claim.
#[test]
fn the_verdict_source_names_a_hop_in_the_path() {
    let mut named = 0;
    for doc in documents() {
        let Some(id) = doc["verdict"]["source"].as_str() else {
            continue;
        };
        named += 1;
        assert!(
            doc["path"]
                .as_array()
                .unwrap()
                .iter()
                .any(|h| h["id"] == id),
            "verdict.source `{id}` is not in the path"
        );
    }
    assert!(named > 0, "a broken hop owns its verdict");
}

#[test]
fn no_color_emits_no_ansi_escapes() {
    let path = complete(vec![unmeasured(
        HopId::Dns,
        Layer::Application,
        "DNS",
        "no time",
    )]);
    let text = report(&path, &diagnose(&path), true, false);
    assert!(!text.contains('\u{1b}'), "ANSI escape in --no-color output");
    assert!(!text.is_empty(), "the report should not be empty");
}

/// A consumer parsing JSON should never have to strip escapes, even where a
/// reading holds one.
#[test]
fn json_output_is_never_decorated() {
    for (path, verdict) in runs() {
        assert!(
            !to_string(&path, &verdict).contains('\u{1b}'),
            "ANSI escape in --json output"
        );
    }
}

#[test]
fn a_document_holds_what_the_path_says() {
    let mut gw = hop(HopId::Gateway, Layer::Network, "Gateway", Status::Fail);
    gw.fault = Some(Fault::GatewaySilent);
    gw.subtitle = Some("192.168.0.1".to_string());
    gw.latency_ms = Some(Millis::from_nanos(12_500_000));
    let path = complete(vec![gw]);
    let verdict = diagnose(&path);
    let doc = to_value(&path, &verdict);
    assert_eq!(doc["status"], "fail");
    assert_eq!(doc["first_break"], "gateway");
    assert_eq!(doc["verdict"]["headline"], verdict.headline.as_str());
    assert_eq!(doc["verdict"]["cause"], verdict.cause.as_str());
    let hop = &doc["path"][2];
    assert_eq!(hop["id"], "gateway");
    assert_eq!(hop["title"], "Gateway");
    assert_eq!(hop["subtitle"], "192.168.0.1");
    assert_eq!(hop["fault"], "gateway_silent");
    assert_eq!(hop["summary"], "Gateway was asked");
    assert_eq!(hop["evidence"], "one request");
    assert_eq!(hop["latency_ms"], 12.5);
    assert_eq!(hop["metrics"][0]["label"], "Answer");
    assert_eq!(hop["metrics"][0]["value"], "yes");
    assert_eq!(hop["metrics"][0]["status"], "fail");
    assert!(hop["metrics"][1]["status"].is_null());
    assert_eq!(hop["metrics"][1]["value"], "\u{1b} is a control");
    let dns = &doc["path"][4];
    assert_eq!(dns["id"], "dns");
    assert!(dns["latency_ms"].is_null());
    assert!(dns["subtitle"].is_null());
}

#[test]
fn the_text_of_a_document_is_indented() {
    let path = complete(vec![]);
    let text = to_string(&path, &diagnose(&path));
    assert!(text.starts_with("{\n  \""), "got: {text}");
    assert!(text.ends_with("\n}"), "got: {text}");
    assert_eq!(
        text.parse::<Value>().unwrap(),
        to_value(&path, &diagnose(&path))
    );
}

#[test]
fn text_that_could_not_be_written_is_an_empty_document() {
    assert_eq!(or_empty(Some("{}\n".to_string())), "{}\n");
    assert_eq!(or_empty(None), "{}");
}

#[test]
fn names_in_the_document_are_stable() {
    let statuses = [
        (Status::Healthy, "ok"),
        (Status::Warn, "warn"),
        (Status::Fail, "fail"),
        (Status::Pending, "pending"),
        (Status::Skipped, "skipped"),
    ];
    for (st, name) in statuses {
        assert_eq!(status_str(st), name);
    }
    let ids = [
        (HopId::Host, "host"),
        (HopId::Link, "link"),
        (HopId::Gateway, "gateway"),
        (HopId::Uplink, "uplink"),
        (HopId::Wan, "wan"),
        (HopId::Dns, "dns"),
        (HopId::Vpn, "vpn"),
        (HopId::Captive, "captive"),
    ];
    for (id, name) in ids {
        assert_eq!(id_str(id), name);
    }
}

#[test]
fn exit_codes_are_one_for_each_outcome() {
    assert_eq!(exit_code(Status::Healthy), 0);
    assert_eq!(exit_code(Status::Warn), 1);
    assert_eq!(exit_code(Status::Fail), 2);
    assert_eq!(exit_code(Status::Pending), 2);
    assert_eq!(exit_code(Status::Skipped), 4);
}

#[test]
fn a_sweep_is_never_given_no_time() {
    let mut cli = Cli::default();
    assert_eq!(cli.sweep_deadline(), 20);
    cli.timeout_secs = 0;
    assert_eq!(cli.sweep_deadline(), 1);
    cli.timeout_secs = 7;
    assert_eq!(cli.sweep_deadline(), 7);
}

#[test]
fn what_a_run_puts_out_follows_flags_and_terminal() {
    let plain = Cli::default();
    assert_eq!(
        plain.output(true),
        Output::Report {
            verbose: false,
            color: true
        }
    );
    assert_eq!(
        plain.output(false),
        Output::Report {
            verbose: false,
            color: false
        }
    );
    let uncolored = Cli {
        no_color: true,
        verbose: true,
        ..plain
    };
    assert_eq!(
        uncolored.output(true),
        Output::Report {
            verbose: true,
            color: false
        }
    );
    let json = Cli {
        json: true,
        ..plain
    };
    assert_eq!(json.output(true), Output::Json);
    let watch = Cli {
        watch: true,
        ..plain
    };
    assert_eq!(watch.output(true), Output::Dashboard);
    assert_eq!(
        watch.output(false),
        Output::Report {
            verbose: true,
            color: false
        }
    );
}
