use radar::error::RadarError;
use radar::output::RadarOutput;
use radar::probes::Match;
use radar::scan::{Detection, DetectionInner, DetectionWithTls, Target};

fn target() -> Target {
    Target { ip: "198.51.100.3".to_owned(), domain: Some("example.test".to_owned()), port: 443 }
}

fn a_match(service: &str) -> Match {
    Match {
        service: service.as_bytes().to_vec(),
        pattern: b"^X".to_vec(),
        pattern_options: Vec::new(),
        version_info: Vec::new(),
    }
}

fn inner(service: &str, response: &str) -> DetectionInner {
    DetectionInner { response: response.to_owned(), service_match: a_match(service) }
}

#[test]
fn shape_detection_without_tls() {
    let out = RadarOutput::from_scan_result(
        target(),
        Ok(Detection::DetectionWithoutTls(inner("ssh", "c3No"))),
        42,
    );
    assert_eq!(out.timestamp, 42);
    assert_eq!(out.tls, Some(false));
    assert_eq!(out.response.as_deref(), Some("c3No"));
    assert_eq!(out.service_match.as_ref().unwrap().service, b"ssh");
    assert_eq!(out.tls_response, None);
    assert!(out.tls_service_match.is_none());
    assert_eq!(out.error, None);
    assert_eq!(out.tls_error, None);
}

#[test]
fn shape_detection_with_tls_success() {
    let out = RadarOutput::from_scan_result(
        target(),
        Ok(Detection::DetectionWithTls(DetectionWithTls {
            detection: inner("ssl/http", "b3V0ZXI="),
            tls_wrapped_result: Ok(inner("http", "aW5uZXI=")),
        })),
        7,
    );
    assert_eq!(out.tls, Some(true));
    assert_eq!(out.response.as_deref(), Some("b3V0ZXI="));
    assert_eq!(out.service_match.as_ref().unwrap().service, b"ssl/http");
    assert_eq!(out.tls_response.as_deref(), Some("aW5uZXI="));
    assert_eq!(out.tls_service_match.as_ref().unwrap().service, b"http");
    assert_eq!(out.error, None);
    assert_eq!(out.tls_error, None);
}

#[test]
fn shape_detection_with_tls_no_detection_error() {
    let out = RadarOutput::from_scan_result(
        target(),
        Ok(Detection::DetectionWithTls(DetectionWithTls {
            detection: inner("ssl/unknown", "b3V0ZXI="),
            tls_wrapped_result: Err(RadarError::NoDetection(b"inner bytes".to_vec())),
        })),
        7,
    );
    assert_eq!(out.tls, Some(true));
    assert_eq!(out.response.as_deref(), Some("b3V0ZXI="));
    assert_eq!(out.tls_response, Some(base64::encode(b"inner bytes")));
    assert!(out.tls_service_match.is_none());
    assert_eq!(out.tls_error.as_deref(), Some("No Detection"));
    assert_eq!(out.error, None);
}

#[test]
fn shape_detection_with_tls_other_error() {
    let out = RadarOutput::from_scan_result(
        target(),
        Ok(Detection::DetectionWithTls(DetectionWithTls {
            detection: inner("ssl/unknown", "b3V0ZXI="),
            tls_wrapped_result: Err(RadarError::Tls("bad certificate".to_owned())),
        })),
        7,
    );
    assert_eq!(out.tls, Some(true));
    assert_eq!(out.tls_response, None);
    assert_eq!(out.tls_error.as_deref(), Some("bad certificate"));
}

#[test]
fn shape_no_detection_error() {
    let out = RadarOutput::from_scan_result(
        target(),
        Err(RadarError::NoDetection(b"last seen".to_vec())),
        7,
    );
    assert_eq!(out.tls, Some(false));
    assert_eq!(out.error.as_deref(), Some("No Detection"));
    assert_eq!(out.response, Some(base64::encode(b"last seen")));
    assert!(out.service_match.is_none());
}

#[test]
fn shape_io_and_timeout_errors() {
    let out = RadarOutput::from_scan_result(
        target(),
        Err(RadarError::Io("connection reset".to_owned())),
        7,
    );
    assert_eq!(out.tls, Some(false));
    assert_eq!(out.error.as_deref(), Some("connection reset"));
    assert_eq!(out.response, None);

    let out2 = RadarOutput::from_scan_result(target(), Err(RadarError::Elapsed), 7);
    assert_eq!(out2.error.as_deref(), Some("deadline has elapsed"));
    assert_eq!(out2.response, None);
}

#[test]
fn error_messages() {
    assert_eq!(RadarError::Io("boom".to_owned()).message(), "boom");
    assert_eq!(RadarError::Elapsed.message(), "deadline has elapsed");
    assert_eq!(RadarError::NoDetection(vec![1, 2]).message(), "No Detection");
    assert_eq!(RadarError::Tls("tls boom".to_owned()).message(), "tls boom");
}

#[test]
fn base64_encoding_is_real() {
    // The response field is base64 of the raw bytes, not the bytes.
    let out = RadarOutput::from_scan_result(
        target(),
        Err(RadarError::NoDetection(b"abc".to_vec())),
        7,
    );
    assert_eq!(out.response.as_deref(), Some("YWJj"));
    let out2 = RadarOutput::from_scan_result(
        target(),
        Err(RadarError::NoDetection(Vec::new())),
        7,
    );
    assert_eq!(out2.response.as_deref(), Some(""));
}

#[test]
fn update_methods_fill_the_expected_fields() {
    let mut out = RadarOutput::new(target(), 9);
    assert_eq!(out.tls, None);
    out.update_detection_without_tls(inner("ftp", "cmVzcA=="));
    assert_eq!(out.tls, Some(false));
    assert_eq!(out.response.as_deref(), Some("cmVzcA=="));

    let mut out2 = RadarOutput::new(target(), 9);
    out2.update_detection_with_tls(inner("ssl/ftp", "outer"), inner("ftp", "inner"));
    assert_eq!(out2.tls, Some(true));
    assert_eq!(out2.tls_response.as_deref(), Some("inner"));

    let mut out3 = RadarOutput::new(target(), 9);
    out3.update_detection_with_tls_error(inner("ssl/ftp", "outer"), RadarError::Elapsed);
    assert_eq!(out3.tls, Some(true));
    assert_eq!(out3.tls_error.as_deref(), Some("deadline has elapsed"));

    let mut out4 = RadarOutput::new(target(), 9);
    out4.update_error(RadarError::Io("oops".to_owned()));
    assert_eq!(out4.tls, Some(false));
    assert_eq!(out4.error.as_deref(), Some("oops"));
}
