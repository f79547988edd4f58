//! The per-scan error taxonomy.  Every failure mode of one target's
//! scan is contained here and reified as an error string in the
//! output record.

use vstd::prelude::*;

verus! {

/// Why a scan of one target failed.
///
/// `Io` and `Tls` carry the underlying error's text, captured where
/// the socket or handshake call is made.  `Elapsed` is a connect or
/// read that exceeded its timeout.  `NoDetection` carries the last
/// observed response bytes so the operator can inspect them.
#[derive(Clone, Debug)]
pub enum RadarError {
    Io(String),
    Elapsed,
    NoDetection(Vec<u8>),
    Tls(String),
}

#[verifier::ext_equal]
pub ghost enum RadarErrorView {
    Io(Seq<char>),
    Elapsed,
    NoDetection(Seq<u8>),
    Tls(Seq<char>),
}

impl View for RadarError {
    type V = RadarErrorView;

    open spec fn view(&self) -> RadarErrorView {
        match self {
            RadarError::Io(s) => RadarErrorView::Io(s@),
            RadarError::Elapsed => RadarErrorView::Elapsed,
            RadarError::NoDetection(r) => RadarErrorView::NoDetection(r@),
            RadarError::Tls(s) => RadarErrorView::Tls(s@),
        }
    }
}

/// The error's display text: the carried message for `Io` and `Tls`,
/// fixed phrases for the two others.
pub open spec fn spec_message(e: RadarErrorView) -> Seq<char> {
    match e {
        RadarErrorView::Io(s) => s,
        RadarErrorView::Elapsed => "deadline has elapsed"@,
        RadarErrorView::NoDetection(_) => "No Detection"@,
        RadarErrorView::Tls(s) => s,
    }
}

impl RadarError {
    /// The text under which this error is reported.
    pub fn message(&self) -> (r: String)
        ensures
            r@ == spec_message(self@),
    {
        match self {
            RadarError::Io(s) => s.clone(),
            RadarError::Elapsed => "deadline has elapsed".to_owned(),
            RadarError::NoDetection(_) => "No Detection".to_owned(),
            RadarError::Tls(s) => s.clone(),
        }
    }
}

} // verus!
