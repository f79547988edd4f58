//! The output shaper: flattens the scan result algebra into one
//! emission record per target.
//!
//! On a successful connect exactly one of `error` or `service_match`
//! is set; on a TLS-wrapped detection the outer match is always
//! populated.  All response fields carry base64 of raw bytes.

use vstd::prelude::*;
use crate::b64::{base64_of, base64_encode};
use crate::error::{RadarError, RadarErrorView, spec_message};
use crate::probes::{Match, MatchView};
use crate::scan::{
    Target, TargetView, Detection, DetectionView, DetectionInner, DetectionInnerView,
    DetectionWithTls,
};

verus! {

/// The flat record emitted for one target.
#[derive(Debug)]
pub struct RadarOutput {
    pub target: Target,
    pub timestamp: u64,
    pub tls: Option<bool>,
    pub tls_response: Option<String>,
    pub tls_service_match: Option<Match>,
    pub response: Option<String>,
    pub service_match: Option<Match>,
    pub error: Option<String>,
    pub tls_error: Option<String>,
}

#[verifier::ext_equal]
pub ghost struct RadarOutputView {
    pub target: TargetView,
    pub timestamp: u64,
    pub tls: Option<bool>,
    pub tls_response: Option<Seq<char>>,
    pub tls_service_match: Option<MatchView>,
    pub response: Option<Seq<char>>,
    pub service_match: Option<MatchView>,
    pub error: Option<Seq<char>>,
    pub tls_error: Option<Seq<char>>,
}

impl View for RadarOutput {
    type V = RadarOutputView;

    open spec fn view(&self) -> RadarOutputView {
        RadarOutputView {
            target: self.target@,
            timestamp: self.timestamp,
            tls: self.tls,
            tls_response: match self.tls_response {
                Some(ref s) => Some(s@),
                None => None,
            },
            tls_service_match: match self.tls_service_match {
                Some(ref m) => Some(m@),
                None => None,
            },
            response: match self.response {
                Some(ref s) => Some(s@),
                None => None,
            },
            service_match: match self.service_match {
                Some(ref m) => Some(m@),
                None => None,
            },
            error: match self.error {
                Some(ref s) => Some(s@),
                None => None,
            },
            tls_error: match self.tls_error {
                Some(ref s) => Some(s@),
                None => None,
            },
        }
    }
}

impl RadarOutputView {
    /// A record with every optional field absent.
    pub open spec fn empty(target: TargetView, timestamp: u64) -> RadarOutputView {
        RadarOutputView {
            target,
            timestamp,
            tls: None,
            tls_response: None,
            tls_service_match: None,
            response: None,
            service_match: None,
            error: None,
            tls_error: None,
        }
    }
}

/// The shaping table: how each scan result fills the flat record.
pub open spec fn spec_shape(
    target: TargetView,
    timestamp: u64,
    r: Result<DetectionView, RadarErrorView>,
) -> RadarOutputView {
    let base = RadarOutputView::empty(target, timestamp);
    match r {
        Ok(DetectionView::DetectionWithoutTls(d)) => RadarOutputView {
            tls: Some(false),
            response: Some(d.response),
            service_match: Some(d.service_match),
            ..base
        },
        Ok(DetectionView::DetectionWithTls(dt)) => match dt.tls_wrapped_result {
            Ok(inner) => RadarOutputView {
                tls: Some(true),
                response: Some(dt.detection.response),
                service_match: Some(dt.detection.service_match),
                tls_response: Some(inner.response),
                tls_service_match: Some(inner.service_match),
                ..base
            },
            Err(e) => RadarOutputView {
                tls: Some(true),
                response: Some(dt.detection.response),
                service_match: Some(dt.detection.service_match),
                tls_response: match e {
                    RadarErrorView::NoDetection(rb) => Some(base64_of(rb)),
                    _ => None,
                },
                tls_error: Some(spec_message(e)),
                ..base
            },
        },
        Err(e) => RadarOutputView {
            tls: Some(false),
            response: match e {
                RadarErrorView::NoDetection(rb) => Some(base64_of(rb)),
                _ => None,
            },
            error: Some(spec_message(e)),
            ..base
        },
    }
}

/// The record invariant: on a successful scan exactly the match side
/// is set and on a failed scan exactly the error side, and a
/// TLS-wrapped detection always populates the outer match, with the
/// inner match and the TLS error likewise mutually exclusive.
pub proof fn lemma_shape_invariant(
    target: TargetView,
    timestamp: u64,
    r: Result<DetectionView, RadarErrorView>,
)
    ensures
        spec_shape(target, timestamp, r).service_match is Some <==> r is Ok,
        spec_shape(target, timestamp, r).error is Some <==> r is Err,
        spec_shape(target, timestamp, r).tls == Some(
            r matches Ok(DetectionView::DetectionWithTls(_)),
        ),
        spec_shape(target, timestamp, r).tls_service_match is Some <==> (r matches Ok(
            DetectionView::DetectionWithTls(dt),
        ) && dt.tls_wrapped_result is Ok),
        spec_shape(target, timestamp, r).tls_error is Some <==> (r matches Ok(
            DetectionView::DetectionWithTls(dt),
        ) && dt.tls_wrapped_result is Err),
{
}

impl RadarOutput {
    /// A record for `target` with every optional field absent.
    pub fn new(target: Target, timestamp: u64) -> (r: RadarOutput)
        ensures
            r@ == RadarOutputView::empty(target@, timestamp),
    {
        RadarOutput {
            target,
            timestamp,
            tls: None,
            tls_response: None,
            tls_service_match: None,
            response: None,
            service_match: None,
            error: None,
            tls_error: None,
        }
    }

    /// Successful detection of a TLS service, and successful detection
    /// of the TLS-wrapped service.
    pub fn update_detection_with_tls(
        &mut self,
        detection: DetectionInner,
        tls_wrapped_detection: DetectionInner,
    )
        ensures
            final(self)@ == (RadarOutputView {
                tls: Some(true),
                response: Some(detection@.response),
                service_match: Some(detection@.service_match),
                tls_response: Some(tls_wrapped_detection@.response),
                tls_service_match: Some(tls_wrapped_detection@.service_match),
                ..old(self)@
            }),
    {
        self.tls = Some(true);
        self.response = Some(detection.response);
        self.service_match = Some(detection.service_match);
        self.tls_response = Some(tls_wrapped_detection.response);
        self.tls_service_match = Some(tls_wrapped_detection.service_match);
    }

    /// Successful detection of a TLS service, and an error attempting
    /// to detect the TLS-wrapped service.
    pub fn update_detection_with_tls_error(&mut self, detection: DetectionInner, e: RadarError)
        ensures
            final(self)@ == (RadarOutputView {
                tls: Some(true),
                response: Some(detection@.response),
                service_match: Some(detection@.service_match),
                tls_response: match e@ {
                    RadarErrorView::NoDetection(rb) => Some(base64_of(rb)),
                    _ => old(self)@.tls_response,
                },
                tls_error: Some(spec_message(e@)),
                ..old(self)@
            }),
    {
        self.tls = Some(true);
        self.response = Some(detection.response);
        self.service_match = Some(detection.service_match);
        match e {
            RadarError::NoDetection(ref rb) => {
                self.tls_response = Some(base64_encode(rb.as_slice()));
            },
            _ => (),
        }
        self.tls_error = Some(e.message());
    }

    /// Successful detection without TLS.
    pub fn update_detection_without_tls(&mut self, d: DetectionInner)
        ensures
            final(self)@ == (RadarOutputView {
                tls: Some(false),
                response: Some(d@.response),
                service_match: Some(d@.service_match),
                ..old(self)@
            }),
    {
        self.tls = Some(false);
        self.response = Some(d.response);
        self.service_match = Some(d.service_match);
    }

    /// A scan that ended in an error before any detection.
    pub fn update_error(&mut self, e: RadarError)
        ensures
            final(self)@ == (RadarOutputView {
                tls: Some(false),
                response: match e@ {
                    RadarErrorView::NoDetection(rb) => Some(base64_of(rb)),
                    _ => old(self)@.response,
                },
                error: Some(spec_message(e@)),
                ..old(self)@
            }),
    {
        self.tls = Some(false);
        match e {
            RadarError::NoDetection(ref rb) => {
                self.response = Some(base64_encode(rb.as_slice()));
            },
            _ => (),
        }
        self.error = Some(e.message());
    }

    /// Shapes one target's scan result into its emission record, per
    /// the shaping table.
    pub fn from_scan_result(
        target: Target,
        r: Result<Detection, RadarError>,
        timestamp: u64,
    ) -> (out: RadarOutput)
        ensures
            out@ == spec_shape(
                target@,
                timestamp,
                match r {
                    Ok(ref d) => Ok(d@),
                    Err(ref e) => Err(e@),
                },
            ),
    {
        let ghost rv: Result<DetectionView, RadarErrorView> = match r {
            Ok(ref d) => Ok(d@),
            Err(ref e) => Err(e@),
        };
        let mut output = RadarOutput::new(target, timestamp);
        match r {
            Ok(detection) => match detection {
                Detection::DetectionWithTls(dt) => {
                    let DetectionWithTls { detection, tls_wrapped_result } = dt;
                    match tls_wrapped_result {
                        Ok(tls_wrapped_detection) => {
                            output.update_detection_with_tls(detection, tls_wrapped_detection);
                        },
                        Err(e) => {
                            output.update_detection_with_tls_error(detection, e);
                        },
                    }
                },
                Detection::DetectionWithoutTls(detection) => {
                    output.update_detection_without_tls(detection);
                },
            },
            Err(e) => {
                output.update_error(e);
            },
        }
        proof {
            assert(output@ =~= spec_shape(target@, timestamp, rv));
        }
        output
    }
}

} // verus!
