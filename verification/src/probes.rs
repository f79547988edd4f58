//! The probe catalog data model: probes, match directives, and the
//! catalog grouping them by transport.
//!
//! Names, payloads, services and patterns are byte strings, as the
//! catalog format and the match engine treat them.

use vstd::prelude::*;
use crate::lex::has_byte;
use crate::pcre::{regex_valid, regex_is_match, regex_compiles, regex_find};

verus! {

#[derive(Clone, Copy, Debug, PartialEq, Eq, Structural)]
pub enum TransportProtocol {
    TCP,
    UDP,
}

/// A named payload to send to a target over one transport.
#[derive(Clone, Debug)]
pub struct Probe {
    pub transport_protocol: TransportProtocol,
    pub name: Vec<u8>,
    pub data: Vec<u8>,
    pub no_payload: bool,
}

#[verifier::ext_equal]
pub ghost struct ProbeView {
    pub transport_protocol: TransportProtocol,
    pub name: Seq<u8>,
    pub data: Seq<u8>,
    pub no_payload: bool,
}

impl View for Probe {
    type V = ProbeView;

    open spec fn view(&self) -> ProbeView {
        ProbeView {
            transport_protocol: self.transport_protocol,
            name: self.name@,
            data: self.data@,
            no_payload: self.no_payload,
        }
    }
}

/// A regex fingerprint: a service label plus the pattern it was
/// declared with.  The pattern is compiled on use; a `Match` stored in
/// a loaded catalog always holds a compilable pattern.
#[derive(Clone, Debug)]
pub struct Match {
    pub service: Vec<u8>,
    pub pattern: Vec<u8>,
    pub pattern_options: Vec<u8>,
    pub version_info: Vec<u8>,
}

#[verifier::ext_equal]
pub ghost struct MatchView {
    pub service: Seq<u8>,
    pub pattern: Seq<u8>,
    pub pattern_options: Seq<u8>,
    pub version_info: Seq<u8>,
}

impl View for Match {
    type V = MatchView;

    open spec fn view(&self) -> MatchView {
        MatchView {
            service: self.service@,
            pattern: self.pattern@,
            pattern_options: self.pattern_options@,
            version_info: self.version_info@,
        }
    }
}

/// The directives grouped under one `Probe` line.  Absent directives
/// are `None`; the match engine treats absent match lists as empty.
#[derive(Clone, Debug)]
pub struct ProbeDirectives {
    pub matches: Option<Vec<Match>>,
    pub soft_matches: Option<Vec<Match>>,
    pub ports: Option<Vec<u16>>,
    pub ssl_ports: Option<Vec<u16>>,
    pub total_wait_ms: Option<u32>,
    pub tcp_wrapped_ms: Option<u32>,
    pub rarity: Option<u32>,
    pub fallback: Option<Vec<Vec<u8>>>,
}

#[verifier::ext_equal]
pub ghost struct ProbeDirectivesView {
    pub matches: Option<Seq<MatchView>>,
    pub soft_matches: Option<Seq<MatchView>>,
    pub ports: Option<Seq<u16>>,
    pub ssl_ports: Option<Seq<u16>>,
    pub total_wait_ms: Option<u32>,
    pub tcp_wrapped_ms: Option<u32>,
    pub rarity: Option<u32>,
    pub fallback: Option<Seq<Seq<u8>>>,
}

impl View for ProbeDirectives {
    type V = ProbeDirectivesView;

    open spec fn view(&self) -> ProbeDirectivesView {
        ProbeDirectivesView {
            matches: match self.matches {
                Some(v) => Some(v@.map_values(|m: Match| m@)),
                None => None,
            },
            soft_matches: match self.soft_matches {
                Some(v) => Some(v@.map_values(|m: Match| m@)),
                None => None,
            },
            ports: match self.ports {
                Some(v) => Some(v@),
                None => None,
            },
            ssl_ports: match self.ssl_ports {
                Some(v) => Some(v@),
                None => None,
            },
            total_wait_ms: self.total_wait_ms,
            tcp_wrapped_ms: self.tcp_wrapped_ms,
            rarity: self.rarity,
            fallback: match self.fallback {
                Some(v) => Some(v.deep_view()),
                None => None,
            },
        }
    }
}

impl ProbeDirectives {
    /// A directives record with every field absent.
    pub fn new() -> (r: ProbeDirectives)
        ensures
            r@ == ProbeDirectivesView::empty(),
    {
        ProbeDirectives {
            matches: None,
            soft_matches: None,
            ports: None,
            ssl_ports: None,
            total_wait_ms: None,
            tcp_wrapped_ms: None,
            rarity: None,
            fallback: None,
        }
    }
}

impl ProbeDirectivesView {
    pub open spec fn empty() -> ProbeDirectivesView {
        ProbeDirectivesView {
            matches: None,
            soft_matches: None,
            ports: None,
            ssl_ports: None,
            total_wait_ms: None,
            tcp_wrapped_ms: None,
            rarity: None,
            fallback: None,
        }
    }
}

/// Whether the match's pattern, compiled under the flags its options
/// select (`i`: caseless, `s`: dot-all), matches the response.  A
/// pattern that does not compile hits nothing.
pub open spec fn spec_match_hit(m: MatchView, response: Seq<u8>) -> bool {
    let caseless = has_byte(m.pattern_options, 0x69);
    let dotall = has_byte(m.pattern_options, 0x73);
    regex_valid(m.pattern, caseless, dotall) && regex_is_match(m.pattern, caseless, dotall,
        response)
}

/// The first match in `ms` that hits `response`, if any.
pub open spec fn first_hit(ms: Seq<MatchView>, response: Seq<u8>) -> Option<MatchView>
    decreases ms.len(),
{
    if ms.len() == 0 {
        None
    } else if spec_match_hit(ms[0], response) {
        Some(ms[0])
    } else {
        first_hit(ms.drop_first(), response)
    }
}

/// An absent match list is an empty one.
pub open spec fn opt_list(l: Option<Seq<MatchView>>) -> Seq<MatchView> {
    match l {
        Some(s) => s,
        None => Seq::empty(),
    }
}

/// The match the engine reports for a response: the first hard match
/// in order, else the first soft match in order, else nothing.
pub open spec fn spec_check_match(d: ProbeDirectivesView, response: Seq<u8>) -> Option<MatchView> {
    match first_hit(opt_list(d.matches), response) {
        Some(m) => Some(m),
        None => first_hit(opt_list(d.soft_matches), response),
    }
}

/// Copies a match record.
pub fn clone_match(m: &Match) -> (r: Match)
    ensures
        r@ == m@,
{
    Match {
        service: crate::parse::clone_bytes(&m.service),
        pattern: crate::parse::clone_bytes(&m.pattern),
        pattern_options: crate::parse::clone_bytes(&m.pattern_options),
        version_info: crate::parse::clone_bytes(&m.version_info),
    }
}

/// Evaluates one match rule against a response: the rule itself when
/// its regex hits, `None` otherwise.
pub fn get_match(service_match: &Match, response: &[u8]) -> (r: Option<Match>)
    ensures
        match r {
            Some(x) => spec_match_hit(service_match@, response@) && x@ == service_match@,
            None => !spec_match_hit(service_match@, response@),
        },
{
    let caseless = crate::lex::contains_byte(&service_match.pattern_options, 0x69);
    let dotall = crate::lex::contains_byte(&service_match.pattern_options, 0x73);
    if !regex_compiles(service_match.pattern.as_slice(), caseless, dotall) {
        return None;
    }
    if regex_find(service_match.pattern.as_slice(), caseless, dotall, response) {
        Some(clone_match(service_match))
    } else {
        None
    }
}

/// Scans a match list in order for the first rule whose regex hits.
fn first_hit_in(ms: &Vec<Match>, response: &[u8]) -> (r: Option<Match>)
    ensures
        match r {
            Some(x) => first_hit(ms@.map_values(|m: Match| m@), response@) == Some(x@),
            None => first_hit(ms@.map_values(|m: Match| m@), response@) is None,
        },
{
    let ghost msv = ms@.map_values(|m: Match| m@);
    let mut i: usize = 0;
    proof {
        assert(msv.skip(0) =~= msv);
    }
    while i < ms.len()
        invariant
            i <= ms@.len(),
            msv == ms@.map_values(|m: Match| m@),
            first_hit(msv, response@) == first_hit(msv.skip(i as int), response@),
        decreases ms@.len() - i,
    {
        let r = get_match(&ms[i], response);
        proof {
            assert(msv.skip(i as int)[0] == msv[i as int]);
            assert(msv.skip(i as int).drop_first() =~= msv.skip(i as int + 1));
        }
        if r.is_some() {
            return r;
        }
        i = i + 1;
    }
    None
}

/// One probe together with the directives declared under it.
#[derive(Clone, Debug)]
pub struct ServiceProbe {
    pub probe: Probe,
    pub directives: ProbeDirectives,
}

#[verifier::ext_equal]
pub ghost struct ServiceProbeView {
    pub probe: ProbeView,
    pub directives: ProbeDirectivesView,
}

impl View for ServiceProbe {
    type V = ServiceProbeView;

    open spec fn view(&self) -> ServiceProbeView {
        ServiceProbeView { probe: self.probe@, directives: self.directives@ }
    }
}

impl ServiceProbe {
    /// Evaluates the response against this probe's ordered match
    /// lists: the first hard match that hits wins, then the first
    /// soft match; absent lists count as empty.
    pub fn check_match(&self, response: &[u8]) -> (r: Option<Match>)
        ensures
            match r {
                Some(x) => spec_check_match(self@.directives, response@) == Some(x@),
                None => spec_check_match(self@.directives, response@) is None,
            },
    {
        let empty: Vec<Match> = Vec::new();
        proof {
            assert(empty@.map_values(|m: Match| m@) =~= Seq::<MatchView>::empty());
        }
        let matches = match &self.directives.matches {
            Some(v) => v,
            None => &empty,
        };
        let r = first_hit_in(matches, response);
        if r.is_some() {
            return r;
        }
        let soft_matches = match &self.directives.soft_matches {
            Some(v) => v,
            None => &empty,
        };
        first_hit_in(soft_matches, response)
    }
}

/// `first_hit` returns the earliest hitting rule: the one at the
/// least index that hits, with no hit before it.
pub proof fn lemma_first_hit_earliest(ms: Seq<MatchView>, response: Seq<u8>)
    ensures
        match first_hit(ms, response) {
            Some(m) => exists|k: int|
                0 <= k < ms.len() && ms[k] == m && spec_match_hit(m, response) && (forall|t: int|
                    0 <= t < k ==> !spec_match_hit(#[trigger] ms[t], response)),
            None => forall|t: int|
                0 <= t < ms.len() ==> !spec_match_hit(#[trigger] ms[t], response),
        },
    decreases ms.len(),
{
    if ms.len() == 0 {
    } else if spec_match_hit(ms[0], response) {
        let k = 0int;
        assert(0 <= k < ms.len() && ms[k] == ms[0] && spec_match_hit(ms[0], response) && (
        forall|t: int| 0 <= t < k ==> !spec_match_hit(#[trigger] ms[t], response)));
    } else {
        lemma_first_hit_earliest(ms.drop_first(), response);
        match first_hit(ms.drop_first(), response) {
            Some(m) => {
                let k0 = choose|k0: int|
                    0 <= k0 < ms.drop_first().len() && ms.drop_first()[k0] == m && spec_match_hit(
                        m,
                        response,
                    ) && (forall|t: int|
                        0 <= t < k0 ==> !spec_match_hit(#[trigger] ms.drop_first()[t], response));
                let k = k0 + 1;
                assert forall|t: int| 0 <= t < k implies !spec_match_hit(
                    #[trigger] ms[t],
                    response,
                ) by {
                    if t > 0 {
                        assert(ms.drop_first()[t - 1] == ms[t]);
                    }
                }
                assert(ms[k] == ms.drop_first()[k0]);
                assert(0 <= k < ms.len() && ms[k] == m && spec_match_hit(m, response) && (
                forall|t: int| 0 <= t < k ==> !spec_match_hit(#[trigger] ms[t], response)));
            },
            None => {
                assert forall|t: int| 0 <= t < ms.len() implies !spec_match_hit(
                    #[trigger] ms[t],
                    response,
                ) by {
                    if t > 0 {
                        assert(ms.drop_first()[t - 1] == ms[t]);
                        assert(!spec_match_hit(ms.drop_first()[t - 1], response));
                    }
                }
            },
        }
    }
}

/// Hard-match precedence: whenever any hard match hits the response
/// (in particular when a hard and a soft match hit at the same index),
/// the engine reports the first hitting hard match, and no soft match.
pub proof fn lemma_hard_match_precedence(
    d: ProbeDirectivesView,
    response: Seq<u8>,
    i: int,
)
    requires
        0 <= i < opt_list(d.matches).len(),
        spec_match_hit(opt_list(d.matches)[i], response),
    ensures
        spec_check_match(d, response) == first_hit(opt_list(d.matches), response),
        first_hit(opt_list(d.matches), response) is Some,
        exists|k: int|
            0 <= k <= i && first_hit(opt_list(d.matches), response) == Some(
                opt_list(d.matches)[k],
            ) && spec_match_hit(opt_list(d.matches)[k], response),
{
    lemma_first_hit_earliest(opt_list(d.matches), response);
    if first_hit(opt_list(d.matches), response) is None {
        assert(!spec_match_hit(opt_list(d.matches)[i], response));
    }
    let k = choose|k: int|
        0 <= k < opt_list(d.matches).len() && opt_list(d.matches)[k] == first_hit(
            opt_list(d.matches),
            response,
        )->Some_0 && spec_match_hit(opt_list(d.matches)[k], response) && (forall|t: int|
            0 <= t < k ==> !spec_match_hit(#[trigger] opt_list(d.matches)[t], response));
    assert(k <= i);
}

/// The loaded catalog.  Within each list the order of appearance in
/// the source equals the order in the vector.
#[derive(Clone, Debug)]
pub struct ServiceProbes {
    pub tcp_probes: Vec<ServiceProbe>,
    pub udp_probes: Vec<ServiceProbe>,
}

#[verifier::ext_equal]
pub ghost struct ServiceProbesView {
    pub tcp_probes: Seq<ServiceProbeView>,
    pub udp_probes: Seq<ServiceProbeView>,
}

impl View for ServiceProbes {
    type V = ServiceProbesView;

    open spec fn view(&self) -> ServiceProbesView {
        ServiceProbesView {
            tcp_probes: self.tcp_probes@.map_values(|p: ServiceProbe| p@),
            udp_probes: self.udp_probes@.map_values(|p: ServiceProbe| p@),
        }
    }
}

impl ServiceProbes {
    /// An empty catalog.
    pub fn new() -> (r: ServiceProbes)
        ensures
            r@.tcp_probes == Seq::<ServiceProbeView>::empty(),
            r@.udp_probes == Seq::<ServiceProbeView>::empty(),
    {
        let r = ServiceProbes { tcp_probes: Vec::new(), udp_probes: Vec::new() };
        proof {
            assert(r@.tcp_probes =~= Seq::<ServiceProbeView>::empty());
            assert(r@.udp_probes =~= Seq::<ServiceProbeView>::empty());
        }
        r
    }
}

} // verus!
