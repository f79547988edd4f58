//! The catalog reader: assembles a `ServiceProbes` catalog from the
//! lines of a probes file.
//!
//! Blank and `#`-comment lines are skipped.  Each `Probe` line opens a
//! section running to the next `Probe` line (or the end); the section's
//! directive lines fill a `ProbeDirectives` record, and from the first
//! `match`/`softmatch` line on, the two ordered match lists.  A probe
//! line that does not parse, a match line that does not parse or whose
//! pattern does not compile, or a malformed `ports`/`sslports`/numeric
//! directive fails the whole load.

use vstd::prelude::*;
use crate::lex::{
    is_space, starts_with, tokens, split_byte, tokenize, split_on, slice_starts_with,
    bytes_eq, is_space_byte, lemma_bytes_deep_view,
};
use crate::parse::{
    kw_probe, kw_match, kw_softmatch, spec_parse_probe_line, spec_parse_match_line,
    spec_parse_ports, spec_parse_dec, parse_probe_line_bytes, parse_match_line_bytes,
    parse_ports_bytes, parse_dec,
};
use crate::probes::{
    TransportProtocol, Probe, Match, MatchView, ProbeDirectives, ProbeDirectivesView,
    ServiceProbe, ServiceProbeView, ServiceProbes, ServiceProbesView,
};

verus! {

/// A failed catalog load, with the index of the offending line.
#[derive(Clone, Copy, Debug, PartialEq, Eq, Structural)]
pub struct CatalogError {
    pub line: usize,
}

/// A line the reader skips: a `#` comment or all whitespace.
pub open spec fn is_blank_or_comment(line: Seq<u8>) -> bool {
    (line.len() > 0 && line[0] == 0x23) || (forall|k: int|
        0 <= k < line.len() ==> is_space(#[trigger] line[k]))
}

pub open spec fn is_probe_start(line: Seq<u8>) -> bool {
    starts_with(line, kw_probe())
}

pub open spec fn is_match_start(line: Seq<u8>) -> bool {
    starts_with(line, kw_match())
}

pub open spec fn is_softmatch_start(line: Seq<u8>) -> bool {
    starts_with(line, kw_softmatch())
}

/// The first index at or after `k` that begins a new `Probe` section,
/// or the number of lines.
pub open spec fn section_end(lines: Seq<Seq<u8>>, k: int) -> int
    decreases lines.len() - k,
{
    if k >= lines.len() {
        lines.len() as int
    } else if is_probe_start(lines[k]) {
        k
    } else {
        section_end(lines, k + 1)
    }
}

pub proof fn lemma_section_end_bounds(lines: Seq<Seq<u8>>, k: int)
    requires
        0 <= k <= lines.len(),
    ensures
        k <= section_end(lines, k) <= lines.len(),
    decreases lines.len() - k,
{
    if k < lines.len() && !is_probe_start(lines[k]) {
        lemma_section_end_bounds(lines, k + 1);
    }
}

/// What one simple directive line does to the record: fills the field
/// its keyword names, or fails the load on a malformed value.
pub open spec fn spec_apply_directive(acc: ProbeDirectivesView, toks: Seq<Seq<u8>>) -> Option<
    ProbeDirectivesView,
> {
    let d = toks[0];
    let arg = toks[1];
    if d == kw_fallback() {
        Some(ProbeDirectivesView { fallback: Some(split_byte(arg, 0x2c)), ..acc })
    } else if d == kw_ports() {
        match spec_parse_ports(arg) {
            Some(v) => Some(ProbeDirectivesView { ports: Some(v), ..acc }),
            None => None,
        }
    } else if d == kw_sslports() {
        match spec_parse_ports(arg) {
            Some(v) => Some(ProbeDirectivesView { ssl_ports: Some(v), ..acc }),
            None => None,
        }
    } else if d == kw_totalwaitms() {
        match spec_parse_dec(arg, 0xffffffff) {
            Some(v) => Some(ProbeDirectivesView { total_wait_ms: Some(v as u32), ..acc }),
            None => None,
        }
    } else if d == kw_tcpwrappedms() {
        match spec_parse_dec(arg, 0xffffffff) {
            Some(v) => Some(ProbeDirectivesView { tcp_wrapped_ms: Some(v as u32), ..acc }),
            None => None,
        }
    } else if d == kw_rarity() {
        match spec_parse_dec(arg, 0xffffffff) {
            Some(v) => Some(ProbeDirectivesView { rarity: Some(v as u32), ..acc }),
            None => None,
        }
    } else {
        Some(acc)
    }
}

pub open spec fn kw_ports() -> Seq<u8> {
    seq![112u8, 111u8, 114u8, 116u8, 115u8]
}

pub open spec fn kw_sslports() -> Seq<u8> {
    seq![115u8, 115u8, 108u8, 112u8, 111u8, 114u8, 116u8, 115u8]
}

pub open spec fn kw_totalwaitms() -> Seq<u8> {
    seq![116u8, 111u8, 116u8, 97u8, 108u8, 119u8, 97u8, 105u8, 116u8, 109u8, 115u8]
}

pub open spec fn kw_tcpwrappedms() -> Seq<u8> {
    seq![116u8, 99u8, 112u8, 119u8, 114u8, 97u8, 112u8, 112u8, 101u8, 100u8, 109u8, 115u8]
}

pub open spec fn kw_rarity() -> Seq<u8> {
    seq![114u8, 97u8, 114u8, 105u8, 116u8, 121u8]
}

pub open spec fn kw_fallback() -> Seq<u8> {
    seq![102u8, 97u8, 108u8, 108u8, 98u8, 97u8, 99u8, 107u8]
}

/// The two ordered match lists read from `lines[k..j)`, or `None` when
/// a match-shaped line fails to parse.
pub open spec fn spec_matches(lines: Seq<Seq<u8>>, k: int, j: int) -> Option<
    (Seq<MatchView>, Seq<MatchView>),
>
    decreases j - k,
{
    if k >= j {
        Some((Seq::empty(), Seq::empty()))
    } else if is_blank_or_comment(lines[k]) {
        spec_matches(lines, k + 1, j)
    } else if is_match_start(lines[k]) {
        match spec_parse_match_line(lines[k]) {
            None => None,
            Some(m) => match spec_matches(lines, k + 1, j) {
                None => None,
                Some((ms, sms)) => Some((seq![m] + ms, sms)),
            },
        }
    } else if is_softmatch_start(lines[k]) {
        match spec_parse_match_line(lines[k]) {
            None => None,
            Some(m) => match spec_matches(lines, k + 1, j) {
                None => None,
                Some((ms, sms)) => Some((ms, seq![m] + sms)),
            },
        }
    } else {
        spec_matches(lines, k + 1, j)
    }
}

/// The directives record accumulated over `lines[k..j)`.  The first
/// `match`/`softmatch` line switches to match collection for the rest
/// of the section; a directive line with fewer than two tokens stops
/// the collection with the record as it stands.
pub open spec fn spec_directives_from(
    lines: Seq<Seq<u8>>,
    k: int,
    j: int,
    acc: ProbeDirectivesView,
) -> Option<ProbeDirectivesView>
    decreases j - k,
{
    if k >= j {
        Some(acc)
    } else if is_blank_or_comment(lines[k]) {
        spec_directives_from(lines, k + 1, j, acc)
    } else if is_match_start(lines[k]) || is_softmatch_start(lines[k]) {
        match spec_matches(lines, k, j) {
            None => None,
            Some((ms, sms)) => Some(
                ProbeDirectivesView { matches: Some(ms), soft_matches: Some(sms), ..acc },
            ),
        }
    } else {
        let toks = tokens(lines[k]);
        if toks.len() < 2 {
            Some(acc)
        } else {
            match spec_apply_directive(acc, toks) {
                None => None,
                Some(acc2) => spec_directives_from(lines, k + 1, j, acc2),
            }
        }
    }
}

/// The directives of the section that starts right after the probe
/// line at `i - 1`, i.e. read from `lines[i..section_end)`.
pub open spec fn spec_section_directives(lines: Seq<Seq<u8>>, i: int) -> Option<
    ProbeDirectivesView,
> {
    spec_directives_from(lines, i, section_end(lines, i), ProbeDirectivesView::empty())
}

/// The TCP and UDP probe lists read from `lines[i..]`, in source
/// order, or `None` when any section fails the load.
pub open spec fn spec_catalog_from(lines: Seq<Seq<u8>>, i: int) -> Option<
    (Seq<ServiceProbeView>, Seq<ServiceProbeView>),
>
    decreases lines.len() - i,
    via spec_catalog_from_dec
{
    if i < 0 || i >= lines.len() {
        Some((Seq::empty(), Seq::empty()))
    } else if is_blank_or_comment(lines[i]) {
        spec_catalog_from(lines, i + 1)
    } else if is_probe_start(lines[i]) {
        match spec_parse_probe_line(lines[i]) {
            None => None,
            Some(p) => {
                let j = section_end(lines, i + 1);
                match spec_section_directives(lines, i + 1) {
                    None => None,
                    Some(d) => match spec_catalog_from(lines, j) {
                        None => None,
                        Some((tcp, udp)) => {
                            let sp = ServiceProbeView { probe: p, directives: d };
                            if p.transport_protocol == TransportProtocol::TCP {
                                Some((seq![sp] + tcp, udp))
                            } else {
                                Some((tcp, seq![sp] + udp))
                            }
                        },
                    },
                }
            },
        }
    } else {
        spec_catalog_from(lines, i + 1)
    }
}

#[via_fn]
proof fn spec_catalog_from_dec(lines: Seq<Seq<u8>>, i: int) {
    if 0 <= i < lines.len() {
        lemma_section_end_bounds(lines, i + 1);
    }
}

/// What loading a catalog from `lines` yields.
pub open spec fn spec_read_catalog(lines: Seq<Seq<u8>>) -> Option<ServiceProbesView> {
    match spec_catalog_from(lines, 0) {
        Some((tcp, udp)) => Some(ServiceProbesView { tcp_probes: tcp, udp_probes: udp }),
        None => None,
    }
}

fn line_blank_or_comment(line: &Vec<u8>) -> (r: bool)
    ensures
        r == is_blank_or_comment(line@),
{
    if line.len() > 0 && line[0] == 0x23 {
        return true;
    }
    let mut k: usize = 0;
    while k < line.len()
        invariant
            k <= line@.len(),
            !(line@.len() > 0 && line@[0] == 0x23),
            forall|t: int| 0 <= t < k ==> is_space(#[trigger] line@[t]),
        decreases line@.len() - k,
    {
        if !is_space_byte(line[k]) {
            return false;
        }
        k = k + 1;
    }
    true
}

fn line_probe_start(line: &Vec<u8>) -> (r: bool)
    ensures
        r == is_probe_start(line@),
{
    let kw: [u8; 5] = [80u8, 114u8, 111u8, 98u8, 101u8];
    proof {
        assert(kw@ =~= kw_probe());
    }
    slice_starts_with(line.as_slice(), kw.as_slice())
}

fn line_match_start(line: &Vec<u8>) -> (r: bool)
    ensures
        r == is_match_start(line@),
{
    let kw: [u8; 5] = [109u8, 97u8, 116u8, 99u8, 104u8];
    proof {
        assert(kw@ =~= kw_match());
    }
    slice_starts_with(line.as_slice(), kw.as_slice())
}

fn line_softmatch_start(line: &Vec<u8>) -> (r: bool)
    ensures
        r == is_softmatch_start(line@),
{
    let kw: [u8; 9] = [115u8, 111u8, 102u8, 116u8, 109u8, 97u8, 116u8, 99u8, 104u8];
    proof {
        assert(kw@ =~= kw_softmatch());
    }
    slice_starts_with(line.as_slice(), kw.as_slice())
}

/// Applies one simple directive line to the record.  Returns `false`
/// when the directive's value is malformed.
fn apply_directive(d: &mut ProbeDirectives, toks: &Vec<Vec<u8>>) -> (r: bool)
    requires
        toks@.len() >= 2,
    ensures
        r ==> spec_apply_directive(old(d)@, toks.deep_view()) == Some(final(d)@),
        !r ==> spec_apply_directive(old(d)@, toks.deep_view()) is None && *final(d) == *old(d),
{
    proof {
        lemma_bytes_deep_view(*toks);
    }
    let kw_pts: [u8; 5] = [112u8, 111u8, 114u8, 116u8, 115u8];
    let kw_spts: [u8; 8] = [115u8, 115u8, 108u8, 112u8, 111u8, 114u8, 116u8, 115u8];
    let kw_twm: [u8; 11] = [116u8, 111u8, 116u8, 97u8, 108u8, 119u8, 97u8, 105u8, 116u8, 109u8,
        115u8];
    let kw_tcw: [u8; 12] = [116u8, 99u8, 112u8, 119u8, 114u8, 97u8, 112u8, 112u8, 101u8, 100u8,
        109u8, 115u8];
    let kw_rar: [u8; 6] = [114u8, 97u8, 114u8, 105u8, 116u8, 121u8];
    let kw_fb: [u8; 8] = [102u8, 97u8, 108u8, 108u8, 98u8, 97u8, 99u8, 107u8];
    proof {
        assert(kw_pts@ =~= kw_ports());
        assert(kw_spts@ =~= kw_sslports());
        assert(kw_twm@ =~= kw_totalwaitms());
        assert(kw_tcw@ =~= kw_tcpwrappedms());
        assert(kw_rar@ =~= kw_rarity());
        assert(kw_fb@ =~= kw_fallback());
    }
    if bytes_eq(&toks[0], kw_fb.as_slice()) {
        d.fallback = Some(split_on(toks[1].as_slice(), 0x2c));
        proof {
            assert(spec_apply_directive(old(d)@, toks.deep_view()) =~~= Some(d@));
        }
        true
    } else if bytes_eq(&toks[0], kw_pts.as_slice()) {
        match parse_ports_bytes(toks[1].as_slice()) {
            Some(v) => {
                d.ports = Some(v);
                proof {
                    assert(spec_apply_directive(old(d)@, toks.deep_view()) =~~= Some(d@));
                }
                true
            },
            None => false,
        }
    } else if bytes_eq(&toks[0], kw_spts.as_slice()) {
        match parse_ports_bytes(toks[1].as_slice()) {
            Some(v) => {
                d.ssl_ports = Some(v);
                proof {
                    assert(spec_apply_directive(old(d)@, toks.deep_view()) =~~= Some(d@));
                }
                true
            },
            None => false,
        }
    } else if bytes_eq(&toks[0], kw_twm.as_slice()) {
        match parse_dec(toks[1].as_slice(), 0xffffffff) {
            Some(v) => {
                d.total_wait_ms = Some(v);
                proof {
                    assert(spec_apply_directive(old(d)@, toks.deep_view()) =~~= Some(d@));
                }
                true
            },
            None => false,
        }
    } else if bytes_eq(&toks[0], kw_tcw.as_slice()) {
        match parse_dec(toks[1].as_slice(), 0xffffffff) {
            Some(v) => {
                d.tcp_wrapped_ms = Some(v);
                proof {
                    assert(spec_apply_directive(old(d)@, toks.deep_view()) =~~= Some(d@));
                }
                true
            },
            None => false,
        }
    } else if bytes_eq(&toks[0], kw_rar.as_slice()) {
        match parse_dec(toks[1].as_slice(), 0xffffffff) {
            Some(v) => {
                d.rarity = Some(v);
                proof {
                    assert(spec_apply_directive(old(d)@, toks.deep_view()) =~~= Some(d@));
                }
                true
            },
            None => false,
        }
    } else {
        proof {
            assert(spec_apply_directive(old(d)@, toks.deep_view()) == Some(d@));
        }
        true
    }
}

/// Collects the match lists from `start` to the end of the section.
/// On success also returns the section end and what classifies it.
fn collect_matches(lines: &Vec<Vec<u8>>, start: usize) -> (r: Result<
    (Vec<Match>, Vec<Match>, usize),
    CatalogError,
>)
    requires
        start <= lines@.len(),
    ensures
        match r {
            Ok((ms, sms, m)) => {
                let lv = lines.deep_view();
                &&& start <= m <= lv.len()
                &&& m == section_end(lv, start as int)
                &&& forall|t: int| start <= t < m ==> !is_probe_start(#[trigger] lv[t])
                &&& (m == lv.len() || is_probe_start(lv[m as int]))
                &&& spec_matches(lv, start as int, m as int) == Some(
                    (ms@.map_values(|x: Match| x@), sms@.map_values(|x: Match| x@)),
                )
            },
            Err(_) => spec_matches(
                lines.deep_view(),
                start as int,
                section_end(lines.deep_view(), start as int),
            ) is None,
        },
{
    let ghost lv = lines.deep_view();
    proof {
        lemma_bytes_deep_view(*lines);
        lemma_section_end_bounds(lv, start as int);
    }
    let ghost j = section_end(lv, start as int);
    let mut ms: Vec<Match> = Vec::new();
    let mut sms: Vec<Match> = Vec::new();
    let mut m = start;
    while m < lines.len() && !line_probe_start(&lines[m])
        invariant
            start <= m <= lv.len(),
            lv == lines.deep_view(),
            lv.len() == lines@.len(),
            forall|t: int| 0 <= t < lv.len() ==> lv[t] == #[trigger] lines@[t]@,
            j == section_end(lv, m as int),
            j == section_end(lv, start as int),
            forall|t: int| start <= t < m ==> !is_probe_start(#[trigger] lv[t]),
            match spec_matches(lv, m as int, j) {
                Some((tms, tsms)) => spec_matches(lv, start as int, j) == Some(
                    (ms@.map_values(|x: Match| x@) + tms, sms@.map_values(|x: Match| x@) + tsms),
                ),
                None => spec_matches(lv, start as int, j) is None,
            },
        decreases lv.len() - m,
    {
        proof {
            lemma_section_end_bounds(lv, m as int + 1);
            assert(section_end(lv, m as int) == section_end(lv, m as int + 1));
            assert(m < j);
        }
        let line = &lines[m];
        if line_blank_or_comment(line) {
            m = m + 1;
        } else if line_match_start(line) {
            match parse_match_line_bytes(line.as_slice()) {
                Some(x) => {
                    let ghost old_ms = ms@.map_values(|x: Match| x@);
                    ms.push(x);
                    proof {
                        assert(ms@.map_values(|x: Match| x@) =~= old_ms.push(x@));
                        if let Some((tms, tsms)) = spec_matches(lv, m as int + 1, j) {
                            assert(old_ms + (seq![x@] + tms) =~= ms@.map_values(|x: Match| x@)
                                + tms);
                        }
                    }
                    m = m + 1;
                },
                None => {
                    return Err(CatalogError { line: m });
                },
            }
        } else if line_softmatch_start(line) {
            match parse_match_line_bytes(line.as_slice()) {
                Some(x) => {
                    let ghost old_sms = sms@.map_values(|x: Match| x@);
                    sms.push(x);
                    proof {
                        assert(sms@.map_values(|x: Match| x@) =~= old_sms.push(x@));
                        if let Some((tms, tsms)) = spec_matches(lv, m as int + 1, j) {
                            assert(old_sms + (seq![x@] + tsms) =~= sms@.map_values(
                                |x: Match| x@,
                            ) + tsms);
                        }
                    }
                    m = m + 1;
                },
                None => {
                    return Err(CatalogError { line: m });
                },
            }
        } else {
            m = m + 1;
        }
    }
    proof {
        assert(j == m as int);
        assert(spec_matches(lv, m as int, j) == Some(
            (Seq::<MatchView>::empty(), Seq::<MatchView>::empty()),
        ));
        assert(ms@.map_values(|x: Match| x@) + Seq::<MatchView>::empty() =~= ms@.map_values(
            |x: Match| x@,
        ));
        assert(sms@.map_values(|x: Match| x@) + Seq::<MatchView>::empty() =~= sms@.map_values(
            |x: Match| x@,
        ));
    }
    Ok((ms, sms, m))
}

/// Reads the directive section that follows a probe line.  On success
/// also returns the section end.
fn read_probe_directives(lines: &Vec<Vec<u8>>, start: usize) -> (r: Result<
    (ProbeDirectives, usize),
    CatalogError,
>)
    requires
        start <= lines@.len(),
    ensures
        match r {
            Ok((d, j)) => {
                let lv = lines.deep_view();
                &&& start <= j <= lv.len()
                &&& j == section_end(lv, start as int)
                &&& spec_section_directives(lv, start as int) == Some(d@)
            },
            Err(_) => spec_section_directives(lines.deep_view(), start as int) is None,
        },
{
    let ghost lv = lines.deep_view();
    proof {
        lemma_bytes_deep_view(*lines);
        lemma_section_end_bounds(lv, start as int);
    }
    let ghost j = section_end(lv, start as int);
    let mut d = ProbeDirectives::new();
    let mut k = start;
    while k < lines.len() && !line_probe_start(&lines[k])
        invariant
            start <= k <= lv.len(),
            lv == lines.deep_view(),
            lv.len() == lines@.len(),
            forall|t: int| 0 <= t < lv.len() ==> lv[t] == #[trigger] lines@[t]@,
            j == section_end(lv, k as int),
            j == section_end(lv, start as int),
            spec_directives_from(lv, k as int, j, d@) == spec_section_directives(
                lv,
                start as int,
            ),
        decreases lv.len() - k,
    {
        proof {
            lemma_section_end_bounds(lv, k as int + 1);
            assert(section_end(lv, k as int) == section_end(lv, k as int + 1));
            assert(k < j);
        }
        let line = &lines[k];
        if line_blank_or_comment(line) {
            k = k + 1;
        } else if line_match_start(line) || line_softmatch_start(line) {
            match collect_matches(lines, k) {
                Ok((ms, sms, m)) => {
                    proof {
                        assert(section_end(lv, k as int) == m as int);
                    }
                    d.matches = Some(ms);
                    d.soft_matches = Some(sms);
                    proof {
                        assert(spec_directives_from(lv, k as int, j, ProbeDirectivesView {
                            matches: d@.matches,
                            soft_matches: d@.soft_matches,
                            ..d@
                        }) == spec_section_directives(lv, start as int));
                        assert(spec_section_directives(lv, start as int) == Some(d@));
                    }
                    return Ok((d, m));
                },
                Err(e) => {
                    proof {
                        assert(section_end(lv, k as int) == j);
                    }
                    return Err(e);
                },
            }
        } else {
            let toks = tokenize(line.as_slice());
            proof {
                lemma_bytes_deep_view(toks);
            }
            if toks.len() < 2 {
                proof {
                    assert(spec_directives_from(lv, k as int, j, d@) == Some(d@));
                }
                let mut jj = k;
                while jj < lines.len() && !line_probe_start(&lines[jj])
                    invariant
                        k <= jj <= lv.len(),
                        lv == lines.deep_view(),
                        lv.len() == lines@.len(),
                        forall|t: int| 0 <= t < lv.len() ==> lv[t] == #[trigger] lines@[t]@,
                        j == section_end(lv, jj as int),
                        j == section_end(lv, k as int),
                    decreases lv.len() - jj,
                {
                    proof {
                        lemma_section_end_bounds(lv, jj as int + 1);
                    }
                    jj = jj + 1;
                }
                proof {
                    assert(j == jj as int);
                }
                return Ok((d, jj));
            }
            if !apply_directive(&mut d, &toks) {
                return Err(CatalogError { line: k });
            }
            k = k + 1;
        }
    }
    proof {
        assert(j == k as int);
        assert(spec_directives_from(lv, k as int, j, d@) == Some(d@));
    }
    Ok((d, k))
}

/// All probes read from `lines[i..]` in source order, both transports
/// in one list, or `None` when any section fails the load.
pub open spec fn spec_probe_list(lines: Seq<Seq<u8>>, i: int) -> Option<Seq<ServiceProbeView>>
    decreases lines.len() - i,
    via spec_probe_list_dec
{
    if i < 0 || i >= lines.len() {
        Some(Seq::empty())
    } else if is_blank_or_comment(lines[i]) {
        spec_probe_list(lines, i + 1)
    } else if is_probe_start(lines[i]) {
        match spec_parse_probe_line(lines[i]) {
            None => None,
            Some(p) => {
                let j = section_end(lines, i + 1);
                match spec_section_directives(lines, i + 1) {
                    None => None,
                    Some(d) => match spec_probe_list(lines, j) {
                        None => None,
                        Some(l) => Some(
                            seq![ServiceProbeView { probe: p, directives: d }] + l,
                        ),
                    },
                }
            },
        }
    } else {
        spec_probe_list(lines, i + 1)
    }
}

#[via_fn]
proof fn spec_probe_list_dec(lines: Seq<Seq<u8>>, i: int) {
    if 0 <= i < lines.len() {
        lemma_section_end_bounds(lines, i + 1);
    }
}

pub open spec fn is_tcp_probe(sp: ServiceProbeView) -> bool {
    sp.probe.transport_protocol == TransportProtocol::TCP
}

pub open spec fn is_udp_probe(sp: ServiceProbeView) -> bool {
    sp.probe.transport_protocol == TransportProtocol::UDP
}

/// The probes of `l` with TCP transport, in order.
pub open spec fn tcp_of(l: Seq<ServiceProbeView>) -> Seq<ServiceProbeView> {
    l.filter(|sp: ServiceProbeView| is_tcp_probe(sp))
}

/// The probes of `l` with UDP transport, in order.
pub open spec fn udp_of(l: Seq<ServiceProbeView>) -> Seq<ServiceProbeView> {
    l.filter(|sp: ServiceProbeView| is_udp_probe(sp))
}

proof fn lemma_filter_cons(sp: ServiceProbeView, l: Seq<ServiceProbeView>)
    ensures
        is_tcp_probe(sp) ==> tcp_of(seq![sp] + l) == seq![sp] + tcp_of(l),
        !is_tcp_probe(sp) ==> tcp_of(seq![sp] + l) == tcp_of(l),
        is_udp_probe(sp) ==> udp_of(seq![sp] + l) == seq![sp] + udp_of(l),
        !is_udp_probe(sp) ==> udp_of(seq![sp] + l) == udp_of(l),
{
    broadcast use vstd::seq_lib::group_filter_ensures;

    reveal(Seq::filter);
    let tp = |sp: ServiceProbeView| is_tcp_probe(sp);
    let up = |sp: ServiceProbeView| is_udp_probe(sp);
    Seq::<ServiceProbeView>::filter_distributes_over_add(seq![sp], l, tp);
    Seq::<ServiceProbeView>::filter_distributes_over_add(seq![sp], l, up);
    assert(seq![sp].drop_last() =~= Seq::<ServiceProbeView>::empty());
    assert(Seq::<ServiceProbeView>::empty().filter(tp) =~= Seq::<ServiceProbeView>::empty());
    assert(Seq::<ServiceProbeView>::empty().filter(up) =~= Seq::<ServiceProbeView>::empty());
    if is_tcp_probe(sp) {
        assert(seq![sp].filter(tp) =~= seq![sp]);
    } else {
        assert(seq![sp].filter(tp) =~= Seq::<ServiceProbeView>::empty());
        assert(Seq::<ServiceProbeView>::empty() + l.filter(tp) =~= l.filter(tp));
    }
    if is_udp_probe(sp) {
        assert(seq![sp].filter(up) =~= seq![sp]);
    } else {
        assert(seq![sp].filter(up) =~= Seq::<ServiceProbeView>::empty());
        assert(Seq::<ServiceProbeView>::empty() + l.filter(up) =~= l.filter(up));
    }
}

proof fn lemma_catalog_splits_probe_list(lines: Seq<Seq<u8>>, i: int)
    ensures
        match (spec_catalog_from(lines, i), spec_probe_list(lines, i)) {
            (Some((tcp, udp)), Some(l)) => tcp == tcp_of(l) && udp == udp_of(l),
            (None, None) => true,
            _ => false,
        },
    decreases lines.len() - i,
{
    reveal(Seq::filter);
    if i < 0 || i >= lines.len() {
        assert(tcp_of(Seq::<ServiceProbeView>::empty()) =~= Seq::<ServiceProbeView>::empty());
        assert(udp_of(Seq::<ServiceProbeView>::empty()) =~= Seq::<ServiceProbeView>::empty());
    } else if is_blank_or_comment(lines[i]) {
        lemma_catalog_splits_probe_list(lines, i + 1);
    } else if is_probe_start(lines[i]) {
        match spec_parse_probe_line(lines[i]) {
            None => {},
            Some(p) => {
                let j = section_end(lines, i + 1);
                lemma_section_end_bounds(lines, i + 1);
                match spec_section_directives(lines, i + 1) {
                    None => {},
                    Some(d) => {
                        lemma_catalog_splits_probe_list(lines, j);
                        match (spec_catalog_from(lines, j), spec_probe_list(lines, j)) {
                            (Some((tcp, udp)), Some(l)) => {
                                let sp = ServiceProbeView { probe: p, directives: d };
                                lemma_filter_cons(sp, l);
                            },
                            _ => {},
                        }
                    },
                }
            },
        }
    } else {
        lemma_catalog_splits_probe_list(lines, i + 1);
    }
}

/// Order preservation: a loaded catalog's `tcp_probes` and
/// `udp_probes` are exactly the source-order probe list filtered by
/// transport, so each list keeps the order of appearance in the file,
/// and their interleaving is the file's probe order.
pub proof fn lemma_order_preservation(lines: Seq<Seq<u8>>)
    ensures
        spec_read_catalog(lines) is Some <==> spec_probe_list(lines, 0) is Some,
        match (spec_read_catalog(lines), spec_probe_list(lines, 0)) {
            (Some(c), Some(l)) => c.tcp_probes == tcp_of(l) && c.udp_probes == udp_of(l),
            _ => true,
        },
{
    lemma_catalog_splits_probe_list(lines, 0);
}

/// Assembles the catalog from the probes file's lines.  Fails, with
/// the offending line's index, when a probe line, match line, pattern
/// or directive value is malformed.
pub fn read_service_probes(lines: &Vec<Vec<u8>>) -> (r: Result<ServiceProbes, CatalogError>)
    ensures
        match r {
            Ok(c) => spec_read_catalog(lines.deep_view()) == Some(c@),
            Err(_) => spec_read_catalog(lines.deep_view()) is None,
        },
{
    let ghost lv = lines.deep_view();
    proof {
        lemma_bytes_deep_view(*lines);
    }
    let mut catalog = ServiceProbes::new();
    let mut i: usize = 0;
    proof {
        if let Some((t, u)) = spec_catalog_from(lv, 0) {
            assert(catalog@.tcp_probes + t =~= t);
            assert(catalog@.udp_probes + u =~= u);
        }
    }
    while i < lines.len()
        invariant
            i <= lv.len(),
            lv == lines.deep_view(),
            lv.len() == lines@.len(),
            forall|t: int| 0 <= t < lv.len() ==> lv[t] == #[trigger] lines@[t]@,
            match spec_catalog_from(lv, i as int) {
                Some((t, u)) => spec_catalog_from(lv, 0) == Some(
                    (catalog@.tcp_probes + t, catalog@.udp_probes + u),
                ),
                None => spec_catalog_from(lv, 0) is None,
            },
        decreases lv.len() - i,
    {
        let line = &lines[i];
        if line_blank_or_comment(line) {
            i = i + 1;
        } else if line_probe_start(line) {
            let probe = match parse_probe_line_bytes(line.as_slice()) {
                Some(p) => p,
                None => {
                    return Err(CatalogError { line: i });
                },
            };
            let (directives, j) = match read_probe_directives(lines, i + 1) {
                Ok(x) => x,
                Err(e) => {
                    return Err(e);
                },
            };
            let sp = ServiceProbe { probe, directives };
            let ghost spv = sp@;
            let ghost old_tcp = catalog@.tcp_probes;
            let ghost old_udp = catalog@.udp_probes;
            match sp.probe.transport_protocol {
                TransportProtocol::TCP => {
                    catalog.tcp_probes.push(sp);
                    proof {
                        assert(catalog@.tcp_probes =~= old_tcp.push(spv));
                        if let Some((t, u)) = spec_catalog_from(lv, j as int) {
                            assert(old_tcp + (seq![spv] + t) =~= catalog@.tcp_probes + t);
                        }
                    }
                },
                TransportProtocol::UDP => {
                    catalog.udp_probes.push(sp);
                    proof {
                        assert(catalog@.udp_probes =~= old_udp.push(spv));
                        if let Some((t, u)) = spec_catalog_from(lv, j as int) {
                            assert(old_udp + (seq![spv] + u) =~= catalog@.udp_probes + u);
                        }
                    }
                },
            }
            i = j;
        } else {
            i = i + 1;
        }
    }
    proof {
        assert(spec_catalog_from(lv, i as int) == Some(
            (Seq::<ServiceProbeView>::empty(), Seq::<ServiceProbeView>::empty()),
        ));
        assert(catalog@.tcp_probes + Seq::<ServiceProbeView>::empty() =~= catalog@.tcp_probes);
        assert(catalog@.udp_probes + Seq::<ServiceProbeView>::empty() =~= catalog@.udp_probes);
        assert(spec_read_catalog(lv) == Some(catalog@));
    }
    Ok(catalog)
}

} // verus!
