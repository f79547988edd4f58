//! The scan engine's decision core.
//!
//! Per target, probes are attempted strictly in catalog order.  Each
//! attempt ends in one outcome — a response, a timeout, or a failure —
//! and the engine decides from it whether to report a detection, an
//! error, or to move to the next probe.  The connects, handshakes,
//! writes and reads that produce the outcomes are the caller's: the
//! caller attempts the probe at `ProbeScan::index`, hands the outcome
//! to `on_outcome`, and repeats until a result falls out.
//! `run_probe_pass` runs a whole pass over a pre-listed outcome
//! sequence, one outcome per attempted probe.

use vstd::prelude::*;
use crate::b64::{base64_of, base64_encode};
use crate::error::{RadarError, RadarErrorView};
use crate::lex::starts_with;
use crate::probes::{Match, MatchView, ServiceProbe, ServiceProbeView, spec_check_match};

verus! {

/// One endpoint to scan, as one input row names it.
#[derive(Clone, Debug)]
pub struct Target {
    pub ip: String,
    pub domain: Option<String>,
    pub port: u16,
}

#[verifier::ext_equal]
pub ghost struct TargetView {
    pub ip: Seq<char>,
    pub domain: Option<Seq<char>>,
    pub port: u16,
}

impl View for Target {
    type V = TargetView;

    open spec fn view(&self) -> TargetView {
        TargetView {
            ip: self.ip@,
            domain: match self.domain {
                Some(ref d) => Some(d@),
                None => None,
            },
            port: self.port,
        }
    }
}

/// How a scan run is configured.
#[derive(Clone, Debug)]
pub struct ScanConfig {
    pub tcp: bool,
    pub udp: bool,
    pub max_concurrent_scans: usize,
}

/// A successful detection on one connection: the base64 of the
/// response and the match that hit it.
#[derive(Clone, Debug)]
pub struct DetectionInner {
    pub response: String,
    pub service_match: Match,
}

#[verifier::ext_equal]
pub ghost struct DetectionInnerView {
    pub response: Seq<char>,
    pub service_match: MatchView,
}

impl View for DetectionInner {
    type V = DetectionInnerView;

    open spec fn view(&self) -> DetectionInnerView {
        DetectionInnerView { response: self.response@, service_match: self.service_match@ }
    }
}

/// An `ssl*`-classified detection together with what the rescan
/// through TLS yielded.
#[derive(Debug)]
pub struct DetectionWithTls {
    pub detection: DetectionInner,
    pub tls_wrapped_result: Result<DetectionInner, RadarError>,
}

#[verifier::ext_equal]
pub ghost struct DetectionWithTlsView {
    pub detection: DetectionInnerView,
    pub tls_wrapped_result: Result<DetectionInnerView, RadarErrorView>,
}

impl View for DetectionWithTls {
    type V = DetectionWithTlsView;

    open spec fn view(&self) -> DetectionWithTlsView {
        DetectionWithTlsView {
            detection: self.detection@,
            tls_wrapped_result: match self.tls_wrapped_result {
                Ok(ref d) => Ok(d@),
                Err(ref e) => Err(e@),
            },
        }
    }
}

/// What a whole target scan detected.
#[derive(Debug)]
pub enum Detection {
    DetectionWithoutTls(DetectionInner),
    DetectionWithTls(DetectionWithTls),
}

#[verifier::ext_equal]
pub ghost enum DetectionView {
    DetectionWithoutTls(DetectionInnerView),
    DetectionWithTls(DetectionWithTlsView),
}

impl View for Detection {
    type V = DetectionView;

    open spec fn view(&self) -> DetectionView {
        match self {
            Detection::DetectionWithoutTls(d) => DetectionView::DetectionWithoutTls(d@),
            Detection::DetectionWithTls(d) => DetectionView::DetectionWithTls(d@),
        }
    }
}

/// How one probe attempt ended, as the I/O driver reports it.
#[derive(Clone, Debug)]
pub enum ProbeOutcome {
    /// The TCP connect failed; the error's text.
    ConnectFailed(String),
    /// The TCP connect produced no connection within the timeout.
    ConnectTimedOut,
    /// The TLS handshake failed; the error's text.
    TlsFailed(String),
    /// The write or read failed; the error's text.
    IoFailed(String),
    /// The read produced nothing within the timeout.
    ReadTimedOut,
    /// The bytes read from the connection.
    Response(Vec<u8>),
}

#[verifier::ext_equal]
pub ghost enum ProbeOutcomeView {
    ConnectFailed(Seq<char>),
    ConnectTimedOut,
    TlsFailed(Seq<char>),
    IoFailed(Seq<char>),
    ReadTimedOut,
    Response(Seq<u8>),
}

impl View for ProbeOutcome {
    type V = ProbeOutcomeView;

    open spec fn view(&self) -> ProbeOutcomeView {
        match self {
            ProbeOutcome::ConnectFailed(s) => ProbeOutcomeView::ConnectFailed(s@),
            ProbeOutcome::ConnectTimedOut => ProbeOutcomeView::ConnectTimedOut,
            ProbeOutcome::TlsFailed(s) => ProbeOutcomeView::TlsFailed(s@),
            ProbeOutcome::IoFailed(s) => ProbeOutcomeView::IoFailed(s@),
            ProbeOutcome::ReadTimedOut => ProbeOutcomeView::ReadTimedOut,
            ProbeOutcome::Response(r) => ProbeOutcomeView::Response(r@),
        }
    }
}

/// The name of the probe whose read timeout is tolerated.
pub open spec fn null_name() -> Seq<u8> {
    seq![78u8, 85u8, 76u8, 76u8]
}

/// The service-label prefix that triggers a rescan through TLS.
pub open spec fn ssl_prefix() -> Seq<u8> {
    seq![115u8, 115u8, 108u8]
}

/// The carried response bytes, or empty when none were observed.
pub open spec fn prev_or_empty(prev: Option<Seq<u8>>) -> Seq<u8> {
    match prev {
        Some(r) => r,
        None => Seq::empty(),
    }
}

/// What the engine decides after one probe attempt: try the next
/// probe, carrying the partial response if one was observed, or end
/// the pass with a result.
#[verifier::ext_equal]
pub ghost enum ScanStep {
    Next(Option<Seq<u8>>),
    Done(Result<DetectionInnerView, RadarErrorView>),
}

/// The decision rules for one probe attempt:
/// - a response that hits a match ends the pass with the detection;
/// - a response that hits nothing is carried to the next probe;
/// - a read timeout is tolerated on the `NULL` probe and fatal on any
///   other;
/// - a connect failure or connect timeout after an earlier partial
///   response ends the pass with `NoDetection` of those bytes,
///   otherwise with the I/O error or the timeout;
/// - a TLS or I/O failure ends the pass with that error.
pub open spec fn spec_probe_step(
    probe: ServiceProbeView,
    outcome: ProbeOutcomeView,
    prev: Option<Seq<u8>>,
) -> ScanStep {
    match outcome {
        ProbeOutcomeView::ConnectFailed(e) => match prev {
            Some(r) => ScanStep::Done(Err(RadarErrorView::NoDetection(r))),
            None => ScanStep::Done(Err(RadarErrorView::Io(e))),
        },
        ProbeOutcomeView::ConnectTimedOut => match prev {
            Some(r) => ScanStep::Done(Err(RadarErrorView::NoDetection(r))),
            None => ScanStep::Done(Err(RadarErrorView::Elapsed)),
        },
        ProbeOutcomeView::TlsFailed(e) => ScanStep::Done(Err(RadarErrorView::Tls(e))),
        ProbeOutcomeView::IoFailed(e) => ScanStep::Done(Err(RadarErrorView::Io(e))),
        ProbeOutcomeView::ReadTimedOut => if probe.probe.name == null_name() {
            ScanStep::Next(prev)
        } else {
            ScanStep::Done(Err(RadarErrorView::Elapsed))
        },
        ProbeOutcomeView::Response(bytes) => match spec_check_match(probe.directives, bytes) {
            Some(m) => ScanStep::Done(
                Ok(DetectionInnerView { response: base64_of(bytes), service_match: m }),
            ),
            None => ScanStep::Next(Some(bytes)),
        },
    }
}

/// The result of a probe pass started at probe `i` with carried bytes
/// `prev`, where attempt `k` ends in `outcomes[k]`.  A pass that
/// exhausts the catalog yields `NoDetection` of the last response.
pub open spec fn spec_pass(
    probes: Seq<ServiceProbeView>,
    outcomes: Seq<ProbeOutcomeView>,
    i: int,
    prev: Option<Seq<u8>>,
) -> Result<DetectionInnerView, RadarErrorView>
    decreases probes.len() - i,
{
    if i < 0 || i >= probes.len() {
        Err(RadarErrorView::NoDetection(prev_or_empty(prev)))
    } else {
        match spec_probe_step(probes[i], outcomes[i], prev) {
            ScanStep::Done(r) => r,
            ScanStep::Next(p2) => spec_pass(probes, outcomes, i + 1, p2),
        }
    }
}

/// The per-target scan state: which probe to attempt next, and the
/// last non-matching response observed on an earlier probe.
#[derive(Debug)]
pub struct ProbeScan {
    pub index: usize,
    pub prev_response: Option<Vec<u8>>,
}

#[verifier::ext_equal]
pub ghost struct ProbeScanView {
    pub index: int,
    pub prev_response: Option<Seq<u8>>,
}

impl View for ProbeScan {
    type V = ProbeScanView;

    open spec fn view(&self) -> ProbeScanView {
        ProbeScanView {
            index: self.index as int,
            prev_response: match self.prev_response {
                Some(ref r) => Some(r@),
                None => None,
            },
        }
    }
}

impl ProbeScan {
    /// A pass positioned at the first probe, with nothing carried.
    pub fn new() -> (r: ProbeScan)
        ensures
            r@.index == 0,
            r@.prev_response is None,
    {
        ProbeScan { index: 0, prev_response: None }
    }

    /// Whether the pass has run out of probes to attempt.
    pub fn exhausted(&self, probes: &Vec<ServiceProbe>) -> (r: bool)
        ensures
            r == (self@.index >= probes@.len()),
    {
        self.index >= probes.len()
    }

    /// The result of a pass that ran out of probes without a match.
    pub fn exhausted_result(&self) -> (r: RadarError)
        ensures
            r@ == RadarErrorView::NoDetection(prev_or_empty(self@.prev_response)),
    {
        match &self.prev_response {
            Some(rb) => RadarError::NoDetection(crate::parse::clone_bytes(rb)),
            None => {
                let empty: Vec<u8> = Vec::new();
                proof {
                    assert(empty@ =~= Seq::<u8>::empty());
                }
                RadarError::NoDetection(empty)
            },
        }
    }

    /// Feeds the outcome of attempting the probe at `self.index`.
    /// `None` means: attempt the next probe.
    pub fn on_outcome(&mut self, probes: &Vec<ServiceProbe>, outcome: ProbeOutcome) -> (r:
        Option<Result<DetectionInner, RadarError>>)
        requires
            old(self)@.index < probes@.len(),
        ensures
            match spec_probe_step(
                probes@.map_values(|p: ServiceProbe| p@)[old(self)@.index],
                outcome@,
                old(self)@.prev_response,
            ) {
                ScanStep::Done(res) => match r {
                    Some(rr) => final(self)@ == old(self)@ && match (rr, res) {
                        (Ok(d), Ok(dv)) => d@ == dv,
                        (Err(e), Err(ev)) => e@ == ev,
                        _ => false,
                    },
                    None => false,
                },
                ScanStep::Next(p2) => r is None && final(self)@.index == old(self)@.index + 1
                    && final(self)@.prev_response == p2,
            },
    {
        proof {
            assert(probes@.map_values(|p: ServiceProbe| p@)[self@.index] == probes@[self@.index]@);
        }
        let n = probes.len();
        assert(self.index < n);
        match outcome {
            ProbeOutcome::ConnectFailed(e) => match &self.prev_response {
                Some(rb) => Some(Err(RadarError::NoDetection(crate::parse::clone_bytes(rb)))),
                None => Some(Err(RadarError::Io(e))),
            },
            ProbeOutcome::ConnectTimedOut => match &self.prev_response {
                Some(rb) => Some(Err(RadarError::NoDetection(crate::parse::clone_bytes(rb)))),
                None => Some(Err(RadarError::Elapsed)),
            },
            ProbeOutcome::TlsFailed(e) => Some(Err(RadarError::Tls(e))),
            ProbeOutcome::IoFailed(e) => Some(Err(RadarError::Io(e))),
            ProbeOutcome::ReadTimedOut => {
                let null_kw: [u8; 4] = [78u8, 85u8, 76u8, 76u8];
                proof {
                    assert(null_kw@ =~= null_name());
                }
                if crate::lex::bytes_eq(&probes[self.index].probe.name, null_kw.as_slice()) {
                    self.index = self.index + 1;
                    None
                } else {
                    Some(Err(RadarError::Elapsed))
                }
            },
            ProbeOutcome::Response(bytes) => {
                match probes[self.index].check_match(bytes.as_slice()) {
                    Some(m) => Some(
                        Ok(
                            DetectionInner {
                                response: base64_encode(bytes.as_slice()),
                                service_match: m,
                            },
                        ),
                    ),
                    None => {
                        self.prev_response = Some(bytes);
                        self.index = self.index + 1;
                        None
                    },
                }
            },
        }
    }
}

/// Runs a whole probe pass over a pre-listed outcome sequence, one
/// outcome per attempted probe.
pub fn run_probe_pass(probes: &Vec<ServiceProbe>, outcomes: &Vec<ProbeOutcome>) -> (r: Result<
    DetectionInner,
    RadarError,
>)
    requires
        outcomes@.len() >= probes@.len(),
    ensures
        match r {
            Ok(d) => spec_pass(
                probes@.map_values(|p: ServiceProbe| p@),
                outcomes@.map_values(|o: ProbeOutcome| o@),
                0,
                None,
            ) == Ok::<DetectionInnerView, RadarErrorView>(d@),
            Err(e) => spec_pass(
                probes@.map_values(|p: ServiceProbe| p@),
                outcomes@.map_values(|o: ProbeOutcome| o@),
                0,
                None,
            ) == Err::<DetectionInnerView, RadarErrorView>(e@),
        },
{
    let ghost pv = probes@.map_values(|p: ServiceProbe| p@);
    let ghost ov = outcomes@.map_values(|o: ProbeOutcome| o@);
    let mut scan = ProbeScan::new();
    loop
        invariant
            probes@.len() <= outcomes@.len(),
            pv == probes@.map_values(|p: ServiceProbe| p@),
            ov == outcomes@.map_values(|o: ProbeOutcome| o@),
            0 <= scan@.index <= probes@.len(),
            spec_pass(pv, ov, 0, None) == spec_pass(pv, ov, scan@.index, scan@.prev_response),
        decreases probes@.len() - scan@.index,
    {
        if scan.exhausted(probes) {
            return Err(scan.exhausted_result());
        }
        let outcome = crate::scan::clone_outcome(&outcomes[scan.index]);
        proof {
            assert(ov[scan@.index] == outcomes@[scan@.index]@);
        }
        match scan.on_outcome(probes, outcome) {
            Some(res) => {
                return res;
            },
            None => {},
        }
    }
}

/// Copies one probe outcome.
pub fn clone_outcome(o: &ProbeOutcome) -> (r: ProbeOutcome)
    ensures
        r@ == o@,
{
    match o {
        ProbeOutcome::ConnectFailed(s) => ProbeOutcome::ConnectFailed(s.clone()),
        ProbeOutcome::ConnectTimedOut => ProbeOutcome::ConnectTimedOut,
        ProbeOutcome::TlsFailed(s) => ProbeOutcome::TlsFailed(s.clone()),
        ProbeOutcome::IoFailed(s) => ProbeOutcome::IoFailed(s.clone()),
        ProbeOutcome::ReadTimedOut => ProbeOutcome::ReadTimedOut,
        ProbeOutcome::Response(b) => ProbeOutcome::Response(crate::parse::clone_bytes(b)),
    }
}

/// Whether a detection's service label begins with `ssl`, which calls
/// for a rescan of the whole probe sequence through TLS.
pub fn needs_tls_rescan(d: &DetectionInner) -> (r: bool)
    ensures
        r == starts_with(d@.service_match.service, ssl_prefix()),
{
    let kw: [u8; 3] = [115u8, 115u8, 108u8];
    proof {
        assert(kw@ =~= ssl_prefix());
    }
    crate::lex::slice_starts_with(d.service_match.service.as_slice(), kw.as_slice())
}

/// What a whole target scan yields, given the outcome traces of the
/// plaintext pass and (where the outer detection is `ssl*`) of the
/// TLS-wrapped pass.
pub open spec fn spec_scan(
    probes: Seq<ServiceProbeView>,
    outer: Seq<ProbeOutcomeView>,
    inner: Seq<ProbeOutcomeView>,
) -> Result<DetectionView, RadarErrorView> {
    match spec_pass(probes, outer, 0, None) {
        Ok(d) => if starts_with(d.service_match.service, ssl_prefix()) {
            Ok(
                DetectionView::DetectionWithTls(
                    DetectionWithTlsView {
                        detection: d,
                        tls_wrapped_result: spec_pass(probes, inner, 0, None),
                    },
                ),
            )
        } else {
            Ok(DetectionView::DetectionWithoutTls(d))
        },
        Err(e) => Err(e),
    }
}

/// Runs a whole target scan over pre-listed outcome traces: the
/// plaintext pass, then, when the detected service is `ssl*`, the
/// TLS-wrapped rescan.
pub fn scan_from_outcomes(
    probes: &Vec<ServiceProbe>,
    outer: &Vec<ProbeOutcome>,
    inner: &Vec<ProbeOutcome>,
) -> (r: Result<Detection, RadarError>)
    requires
        outer@.len() >= probes@.len(),
        inner@.len() >= probes@.len(),
    ensures
        match r {
            Ok(d) => spec_scan(
                probes@.map_values(|p: ServiceProbe| p@),
                outer@.map_values(|o: ProbeOutcome| o@),
                inner@.map_values(|o: ProbeOutcome| o@),
            ) == Ok::<DetectionView, RadarErrorView>(d@),
            Err(e) => spec_scan(
                probes@.map_values(|p: ServiceProbe| p@),
                outer@.map_values(|o: ProbeOutcome| o@),
                inner@.map_values(|o: ProbeOutcome| o@),
            ) == Err::<DetectionView, RadarErrorView>(e@),
        },
{
    match run_probe_pass(probes, outer) {
        Ok(d) => {
            if needs_tls_rescan(&d) {
                let tls_wrapped_result = run_probe_pass(probes, inner);
                Ok(
                    Detection::DetectionWithTls(
                        DetectionWithTls { detection: d, tls_wrapped_result },
                    ),
                )
            } else {
                Ok(Detection::DetectionWithoutTls(d))
            }
        },
        Err(e) => Err(e),
    }
}

/// A pass consumes at most one outcome per probe: outcome traces that
/// agree on the first `|probes|` entries give the same result, so no
/// scan makes more than `|probes|` timed attempts per pass.
pub proof fn lemma_pass_bounded(
    probes: Seq<ServiceProbeView>,
    o1: Seq<ProbeOutcomeView>,
    o2: Seq<ProbeOutcomeView>,
    i: int,
    prev: Option<Seq<u8>>,
)
    requires
        forall|k: int| 0 <= k < probes.len() ==> o1[k] == o2[k],
    ensures
        spec_pass(probes, o1, i, prev) == spec_pass(probes, o2, i, prev),
    decreases probes.len() - i,
{
    if 0 <= i < probes.len() {
        match spec_probe_step(probes[i], o1[i], prev) {
            ScanStep::Done(r) => {},
            ScanStep::Next(p2) => {
                lemma_pass_bounded(probes, o1, o2, i + 1, p2);
            },
        }
    }
}

} // verus!
