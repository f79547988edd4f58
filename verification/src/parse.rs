//! Line parsers for the probe catalog format: `Probe` lines, `match` /
//! `softmatch` lines, and `ports` expressions.
//!
//! A payload or pattern token begins with a one-byte leader; the second
//! byte of that token is the delimiter, and the body runs to the next
//! occurrence of the delimiter.  Whitespace-split tokens are rejoined
//! with single spaces first, since the body may contain spaces.

use vstd::prelude::*;
use vstd::string::StringSliceAdditionalSpecFns;
use crate::lex::{
    tokens, token_len, join_sp, find_byte, is_space, has_byte, tokenize, join_from,
    find_byte_from, contains_byte, bytes_eq, subvec, trim, trim_range, is_space_byte,
    split_byte, lemma_tokens_take_token, lemma_tokens_skip_space,
};
use crate::probes::{TransportProtocol, Probe, ProbeView, Match, MatchView};
use crate::unescape::{spec_unescape, unescape};
use crate::pcre::{regex_valid, regex_compiles};

verus! {

pub open spec fn kw_probe() -> Seq<u8> {
    seq![80u8, 114u8, 111u8, 98u8, 101u8]
}

pub open spec fn kw_tcp() -> Seq<u8> {
    seq![84u8, 67u8, 80u8]
}

pub open spec fn kw_udp() -> Seq<u8> {
    seq![85u8, 68u8, 80u8]
}

pub open spec fn kw_no_payload() -> Seq<u8> {
    seq![110u8, 111u8, 45u8, 112u8, 97u8, 121u8, 108u8, 111u8, 97u8, 100u8]
}

pub open spec fn kw_match() -> Seq<u8> {
    seq![109u8, 97u8, 116u8, 99u8, 104u8]
}

pub open spec fn kw_softmatch() -> Seq<u8> {
    seq![115u8, 111u8, 102u8, 116u8, 109u8, 97u8, 116u8, 99u8, 104u8]
}

/// Copies `v`.
pub fn clone_bytes(v: &Vec<u8>) -> (r: Vec<u8>)
    ensures
        r@ == v@,
{
    let r = subvec(v.as_slice(), 0, v.len());
    proof {
        assert(v@.subrange(0, v@.len() as int) =~= v@);
    }
    r
}

/// Whether every byte of `s` is an ASCII decimal digit.
pub open spec fn all_digits(s: Seq<u8>) -> bool {
    forall|k: int| 0 <= k < s.len() ==> 0x30 <= #[trigger] s[k] <= 0x39
}

/// The value of `s` read as a decimal numeral.
pub open spec fn dec_val(s: Seq<u8>) -> int
    decreases s.len(),
{
    if s.len() == 0 {
        0
    } else {
        dec_val(s.drop_last()) * 10 + (s.last() - 0x30)
    }
}

proof fn lemma_dec_val_nonneg(s: Seq<u8>)
    requires
        all_digits(s),
    ensures
        dec_val(s) >= 0,
    decreases s.len(),
{
    if s.len() > 0 {
        assert(all_digits(s.drop_last()));
        lemma_dec_val_nonneg(s.drop_last());
    }
}

/// A longer digit prefix never has a smaller value.
proof fn lemma_dec_val_prefix_le(s: Seq<u8>, i: int)
    requires
        all_digits(s),
        0 <= i <= s.len(),
    ensures
        dec_val(s.take(i)) <= dec_val(s),
    decreases s.len() - i,
{
    if i < s.len() {
        let t = s.take(i + 1);
        assert(t.drop_last() =~= s.take(i));
        assert(all_digits(s.take(i)));
        lemma_dec_val_nonneg(s.take(i));
        assert(dec_val(t) == dec_val(s.take(i)) * 10 + (s[i] - 0x30));
        assert(dec_val(s.take(i)) <= dec_val(t)) by {
            assert(dec_val(s.take(i)) * 10 >= dec_val(s.take(i))) by (nonlinear_arith)
                requires dec_val(s.take(i)) >= 0;
            assert(s[i] - 0x30 >= 0);
        }
        lemma_dec_val_prefix_le(s, i + 1);
    } else {
        assert(s.take(i) =~= s);
    }
}

/// A nonempty all-digit numeral whose value fits the bound, or `None`.
pub open spec fn spec_parse_dec(s: Seq<u8>, bound: int) -> Option<int> {
    if s.len() > 0 && all_digits(s) && dec_val(s) <= bound {
        Some(dec_val(s))
    } else {
        None
    }
}

/// Parses a bounded decimal numeral; `bound` is at most `u32::MAX`.
pub fn parse_dec(s: &[u8], bound: u32) -> (r: Option<u32>)
    ensures
        match r {
            Some(v) => spec_parse_dec(s@, bound as int) == Some(v as int),
            None => spec_parse_dec(s@, bound as int) is None,
        },
{
    if s.len() == 0 {
        return None;
    }
    let mut val: u64 = 0;
    let mut i: usize = 0;
    proof {
        assert(s@.take(0) =~= Seq::<u8>::empty());
    }
    while i < s.len()
        invariant
            i <= s@.len(),
            all_digits(s@.take(i as int)),
            val == dec_val(s@.take(i as int)),
            val <= bound,
            bound <= u32::MAX,
        decreases s@.len() - i,
    {
        let c = s[i];
        if c < 0x30 || c > 0x39 {
            proof {
                assert(s@[i as int] == c);
                assert(!all_digits(s@));
            }
            return None;
        }
        let d = (c - 0x30) as u64;
        let next = val * 10 + d;
        proof {
            assert(s@.take(i as int + 1).drop_last() =~= s@.take(i as int));
            assert(next == dec_val(s@.take(i as int + 1)));
        }
        if next > bound as u64 {
            proof {
                if all_digits(s@) && dec_val(s@) <= bound {
                    lemma_dec_val_prefix_le(s@, i as int + 1);
                }
            }
            return None;
        }
        val = next;
        i = i + 1;
    }
    proof {
        assert(s@.take(s@.len() as int) =~= s@);
    }
    Some(val as u32)
}

/// Parses a `u16` port numeral.
pub fn parse_port_number(s: &[u8]) -> (r: Option<u16>)
    ensures
        match r {
            Some(v) => spec_parse_dec(s@, 0xffff) == Some(v as int),
            None => spec_parse_dec(s@, 0xffff) is None,
        },
{
    match parse_dec(s, 0xffff) {
        Some(v) => Some(v as u16),
        None => None,
    }
}

pub open spec fn spec_parse_transport(t: Seq<u8>) -> Option<TransportProtocol> {
    if t == kw_tcp() {
        Some(TransportProtocol::TCP)
    } else if t == kw_udp() {
        Some(TransportProtocol::UDP)
    } else {
        None
    }
}

pub fn parse_transport(t: &Vec<u8>) -> (r: Option<TransportProtocol>)
    ensures
        r == spec_parse_transport(t@),
{
    let tcp: [u8; 3] = [84u8, 67u8, 80u8];
    let udp: [u8; 3] = [85u8, 68u8, 80u8];
    proof {
        assert(tcp@ =~= kw_tcp());
        assert(udp@ =~= kw_udp());
    }
    if bytes_eq(t, tcp.as_slice()) {
        Some(TransportProtocol::TCP)
    } else if bytes_eq(t, udp.as_slice()) {
        Some(TransportProtocol::UDP)
    } else {
        None
    }
}

/// Whether the text after the closing delimiter carries the
/// `no-payload` flag.  `rem` is the joined payload region starting
/// right after the opening delimiter; `end` is the closing delimiter's
/// index in it.
pub open spec fn spec_no_payload_flag(rem: Seq<u8>, end: int) -> bool {
    rem.len() > end + 1 && {
        let ts = tokens(rem.skip(end + 1));
        ts.len() > 0 && ts[0] == kw_no_payload()
    }
}

/// What parsing a `Probe` line yields: the probe, or `None` when the
/// line is not a well-formed probe declaration.
pub open spec fn spec_parse_probe_line(line: Seq<u8>) -> Option<ProbeView> {
    let toks = tokens(line);
    if toks.len() < 3 || toks[0] != kw_probe() {
        None
    } else if spec_parse_transport(toks[1]) is None {
        None
    } else if toks.len() < 4 || toks[3].len() < 2 {
        None
    } else {
        let joined = join_sp(toks.skip(3));
        let delim = toks[3][1];
        match find_byte(joined, delim) {
            None => None,
            Some(start0) => {
                let rem = joined.skip(start0 + 1);
                match find_byte(rem, delim) {
                    None => None,
                    Some(end) => match spec_unescape(rem.take(end)) {
                        None => None,
                        Some(data) => Some(
                            ProbeView {
                                transport_protocol: spec_parse_transport(toks[1]).unwrap(),
                                name: toks[2],
                                data,
                                no_payload: spec_no_payload_flag(rem, end),
                            },
                        ),
                    },
                }
            },
        }
    }
}

/// The ports `a..=b`, in ascending order; empty when `a > b`.
pub open spec fn range_seq(a: int, b: int) -> Seq<u16> {
    if a > b {
        Seq::empty()
    } else {
        Seq::new((b - a + 1) as nat, |i: int| (a + i) as u16)
    }
}

/// The ports one comma-piece contributes: a single port, or an
/// `M-N` range (anything after a second `-` is ignored).
pub open spec fn spec_piece_ports(p: Seq<u8>) -> Option<Seq<u16>> {
    match find_byte(p, 0x2d) {
        None => match spec_parse_dec(p, 0xffff) {
            Some(v) => Some(seq![v as u16]),
            None => None,
        },
        Some(d) => {
            let parts = split_byte(p, 0x2d);
            match (spec_parse_dec(parts[0], 0xffff), spec_parse_dec(parts[1], 0xffff)) {
                (Some(a), Some(b)) => Some(range_seq(a, b)),
                _ => None,
            }
        },
    }
}

pub open spec fn spec_ports_pieces(ps: Seq<Seq<u8>>) -> Option<Seq<u16>>
    decreases ps.len(),
{
    if ps.len() == 0 {
        Some(Seq::empty())
    } else {
        match spec_piece_ports(ps[0]) {
            None => None,
            Some(v) => match spec_ports_pieces(ps.drop_first()) {
                None => None,
                Some(r) => Some(v + r),
            },
        }
    }
}

/// What parsing a ports expression yields: the listed ports in order,
/// or `None` when any piece fails to parse.
pub open spec fn spec_parse_ports(s: Seq<u8>) -> Option<Seq<u16>> {
    spec_ports_pieces(split_byte(s, 0x2c))
}

/// Parses one comma-piece of a ports expression.
fn parse_piece(p: &[u8]) -> (r: Option<Vec<u16>>)
    ensures
        match r {
            Some(v) => spec_piece_ports(p@) == Some(v@),
            None => spec_piece_ports(p@) is None,
        },
{
    proof {
        assert(p@.skip(0) =~= p@);
    }
    match find_byte_from(p, 0, 0x2d) {
        None => match parse_port_number(p) {
            Some(v) => {
                let mut one: Vec<u16> = Vec::new();
                one.push(v);
                proof {
                    assert(one@ =~= seq![v]);
                }
                Some(one)
            },
            None => None,
        },
        Some(d) => {
            let plen = p.len();
            assert(d < plen);
            let ghost parts = split_byte(p@, 0x2d);
            let ghost rest = p@.skip(d as int + 1);
            proof {
                assert(parts == seq![p@.take(d as int)] + split_byte(rest, 0x2d));
            }
            let a = subvec(p, 0, d);
            let bend = match find_byte_from(p, d + 1, 0x2d) {
                Some(e) => {
                    proof {
                        assert(split_byte(rest, 0x2d)[0] == rest.take(e - (d as int + 1)));
                    }
                    e
                },
                None => {
                    proof {
                        assert(split_byte(rest, 0x2d) == seq![rest]);
                        assert(rest.take(rest.len() as int) =~= rest);
                    }
                    p.len()
                },
            };
            let b = subvec(p, d + 1, bend);
            proof {
                assert(a@ =~= p@.take(d as int));
                assert(b@ =~= rest.take(bend as int - (d as int + 1)));
                assert(parts[0] == a@);
                assert(parts[1] == b@);
            }
            match (parse_port_number(a.as_slice()), parse_port_number(b.as_slice())) {
                (Some(av), Some(bv)) => {
                    let mut v: Vec<u16> = Vec::new();
                    let mut x: u32 = av as u32;
                    while x <= bv as u32
                        invariant
                            av as u32 <= x,
                            x <= bv as u32 + 1 || x == av as u32,
                            v@ =~= range_seq(av as int, x as int - 1),
                        decreases bv as int + 1 - x,
                    {
                        v.push(x as u16);
                        proof {
                            assert(v@ =~= range_seq(av as int, x as int));
                        }
                        x = x + 1;
                    }
                    proof {
                        assert(v@ =~= range_seq(av as int, bv as int));
                    }
                    Some(v)
                },
                _ => None,
            }
        },
    }
}

/// Parses a comma-separated list of ports and `M-N` port ranges.
/// Returns `None` when any piece is not a port numeral.
pub fn parse_ports(ports: &str) -> (r: Option<Vec<u16>>)
    ensures
        match r {
            Some(v) => spec_parse_ports(ports.spec_bytes()) == Some(v@),
            None => spec_parse_ports(ports.spec_bytes()) is None,
        },
{
    parse_ports_bytes(ports.as_bytes())
}

/// Parses a ports expression given as raw bytes.
pub fn parse_ports_bytes(s: &[u8]) -> (r: Option<Vec<u16>>)
    ensures
        match r {
            Some(v) => spec_parse_ports(s@) == Some(v@),
            None => spec_parse_ports(s@) is None,
        },
{
    let mut out: Vec<u16> = Vec::new();
    let mut pos: usize = 0;
    let mut done = false;
    proof {
        assert(s@.skip(0) =~= s@);
    }
    while !done
        invariant
            pos <= s@.len(),
            done ==> spec_parse_ports(s@) == Some(out@),
            !done ==> match spec_ports_pieces(split_byte(s@.skip(pos as int), 0x2c)) {
                Some(rest) => spec_parse_ports(s@) == Some(out@ + rest),
                None => spec_parse_ports(s@) is None,
            },
        decreases s@.len() - pos + 1, if done { 0int } else { 1int },
    {
        let ghost suffix = s@.skip(pos as int);
        let slen = s.len();
        let comma = find_byte_from(s, pos, 0x2c);
        let end = match comma {
            Some(c) => {
                assert(c < slen);
                c
            },
            None => s.len(),
        };
        let piece = subvec(s, pos, end);
        proof {
            assert(piece@ =~= suffix.take(end as int - pos as int));
            match comma {
                Some(c) => {
                    assert(suffix.skip(c as int - pos as int + 1) =~= s@.skip(c as int + 1));
                    assert(split_byte(suffix, 0x2c) == seq![suffix.take(c as int - pos as int)]
                        + split_byte(s@.skip(c as int + 1), 0x2c));
                },
                None => {
                    assert(split_byte(suffix, 0x2c) == seq![suffix]);
                    assert(suffix.take(suffix.len() as int) =~= suffix);
                },
            }
        }
        let piece_ports = match parse_piece(piece.as_slice()) {
            Some(v) => v,
            None => {
                proof {
                    let ps = split_byte(suffix, 0x2c);
                    assert(ps[0] == piece@);
                    assert(spec_ports_pieces(ps) is None);
                    assert(spec_parse_ports(s@) is None);
                }
                return None;
            },
        };
        let ghost old_out = out@;
        let mut k: usize = 0;
        while k < piece_ports.len()
            invariant
                k <= piece_ports@.len(),
                out@ =~= old_out + piece_ports@.take(k as int),
            decreases piece_ports@.len() - k,
        {
            out.push(piece_ports[k]);
            k = k + 1;
        }
        proof {
            assert(piece_ports@.take(piece_ports@.len() as int) =~= piece_ports@);
            assert(out@ == old_out + piece_ports@);
        }
        match comma {
            Some(c) => {
                proof {
                    let ps = split_byte(suffix, 0x2c);
                    let tail = split_byte(s@.skip(c as int + 1), 0x2c);
                    assert(ps[0] == piece@);
                    assert(ps.drop_first() =~= tail);
                    if let Some(rest) = spec_ports_pieces(tail) {
                        assert(spec_ports_pieces(ps) == Some(piece_ports@ + rest));
                        assert(old_out + (piece_ports@ + rest) =~= out@ + rest);
                    } else {
                        assert(spec_ports_pieces(ps) is None);
                    }
                }
                pos = c + 1;
            },
            None => {
                proof {
                    let ps = split_byte(suffix, 0x2c);
                    assert(ps[0] == piece@);
                    assert(ps.drop_first() =~= Seq::<Seq<u8>>::empty());
                    assert(spec_ports_pieces(ps.drop_first()) == Some(Seq::<u16>::empty()));
                    assert(spec_ports_pieces(ps) == Some(piece_ports@ + Seq::<u16>::empty()));
                    assert(old_out + (piece_ports@ + Seq::<u16>::empty()) =~= out@);
                }
                done = true;
            },
        }
    }
    Some(out)
}

/// The contiguous non-whitespace run right after the closing
/// delimiter, or empty when whitespace (or nothing) follows it.
/// `rem` is the joined pattern region starting right after the opening
/// delimiter; `end` is the closing delimiter's index in it.
pub open spec fn spec_pattern_options(rem: Seq<u8>, end: int) -> Seq<u8> {
    if rem.len() > end + 1 && !is_space(rem[end + 1]) {
        tokens(rem.skip(end + 1))[0]
    } else {
        Seq::empty()
    }
}

/// The rest of the line after the options run, trimmed; empty when
/// nothing follows the closing delimiter.
pub open spec fn spec_version_info(rem: Seq<u8>, end: int, opts_len: int) -> Seq<u8> {
    if rem.len() > end + 1 {
        trim(rem.skip(end + opts_len + 1))
    } else {
        Seq::empty()
    }
}

/// What parsing a `match`/`softmatch` line yields: the match record,
/// or `None` when the line is not match-shaped or its pattern does not
/// compile.
pub open spec fn spec_parse_match_line(line: Seq<u8>) -> Option<MatchView> {
    let toks = tokens(line);
    if toks.len() < 3 || (toks[0] != kw_match() && toks[0] != kw_softmatch()) {
        None
    } else if toks[2].len() < 2 {
        None
    } else {
        let joined = join_sp(toks.skip(2));
        let delim = toks[2][1];
        match find_byte(joined, delim) {
            None => None,
            Some(start0) => {
                let rem = joined.skip(start0 + 1);
                match find_byte(rem, delim) {
                    None => None,
                    Some(end) => {
                        let pattern = rem.take(end);
                        let opts = spec_pattern_options(rem, end);
                        if regex_valid(pattern, has_byte(opts, 0x69), has_byte(opts, 0x73)) {
                            Some(
                                MatchView {
                                    service: toks[1],
                                    pattern,
                                    pattern_options: opts,
                                    version_info: spec_version_info(rem, end, opts.len() as int),
                                },
                            )
                        } else {
                            None
                        }
                    },
                }
            },
        }
    }
}

/// Parses a `<match|softmatch> <service> <m><DELIM><pattern><DELIM>
/// [options] [version-info]` line.  Returns `None` when the line is
/// not a well-formed match declaration or its pattern does not compile
/// under the flags the options select (`i`: caseless, `s`: dot-all).
pub fn parse_match_line(line: &str) -> (r: Option<Match>)
    ensures
        match r {
            Some(m) => spec_parse_match_line(line.spec_bytes()) == Some(m@),
            None => spec_parse_match_line(line.spec_bytes()) is None,
        },
{
    parse_match_line_bytes(line.as_bytes())
}

/// Parses a `match`/`softmatch` line given as raw bytes.
#[verifier::rlimit(80)]
pub fn parse_match_line_bytes(bytes: &[u8]) -> (r: Option<Match>)
    ensures
        match r {
            Some(m) => spec_parse_match_line(bytes@) == Some(m@),
            None => spec_parse_match_line(bytes@) is None,
        },
{
    let toks = tokenize(bytes);
    proof {
        crate::lex::lemma_bytes_deep_view(toks);
    }
    if toks.len() < 3 {
        return None;
    }
    let match_kw: [u8; 5] = [109u8, 97u8, 116u8, 99u8, 104u8];
    let softmatch_kw: [u8; 9] = [115u8, 111u8, 102u8, 116u8, 109u8, 97u8, 116u8, 99u8, 104u8];
    proof {
        assert(match_kw@ =~= kw_match());
        assert(softmatch_kw@ =~= kw_softmatch());
    }
    if !bytes_eq(&toks[0], match_kw.as_slice()) && !bytes_eq(&toks[0], softmatch_kw.as_slice()) {
        return None;
    }
    if toks[2].len() < 2 {
        return None;
    }
    let joined = join_from(&toks, 2);
    let delim = toks[2][1];
    proof {
        assert(joined@.skip(0) =~= joined@);
    }
    let start0 = match find_byte_from(joined.as_slice(), 0, delim) {
        Some(i) => i,
        None => {
            return None;
        },
    };
    let ghost rem = joined@.skip(start0 as int + 1);
    let jlen = joined.len();
    assert(start0 < jlen);
    let end_abs = match find_byte_from(joined.as_slice(), start0 + 1, delim) {
        Some(j) => j,
        None => {
            return None;
        },
    };
    let ghost end_rel = end_abs as int - (start0 as int + 1);
    proof {
        assert(find_byte(rem, delim) == Some(end_rel));
    }
    let pattern = subvec(joined.as_slice(), start0 + 1, end_abs);
    proof {
        assert(pattern@ =~= rem.take(end_rel));
    }
    let opts: Vec<u8> = if jlen > end_abs + 1 && !is_space_byte(joined.as_slice()[end_abs + 1]) {
        let mut k = end_abs + 1;
        while k < jlen && !is_space_byte(joined.as_slice()[k])
            invariant
                end_abs + 1 <= k <= jlen == joined@.len(),
                forall|t: int| end_abs + 1 <= t < k ==> !is_space(joined@[t]),
            decreases jlen - k,
        {
            k = k + 1;
        }
        let ghost after = rem.skip(end_rel + 1);
        proof {
            assert(after =~= joined@.skip(end_abs as int + 1));
            assert(forall|t: int| 0 <= t < after.len() ==> after[t] == joined@[t + end_abs + 1]);
            crate::lex::lemma_token_len_exact(after, k as int - (end_abs as int + 1));
            assert(after.len() > 0 && !is_space(after.first()));
        }
        let o = subvec(joined.as_slice(), end_abs + 1, k);
        proof {
            assert(o@ =~= after.take(token_len(after) as int));
            assert(tokens(after)[0] == after.take(token_len(after) as int));
        }
        o
    } else {
        Vec::new()
    };
    proof {
        assert(rem.len() > end_rel + 1 <==> joined@.len() > end_abs as int + 1);
        if rem.len() > end_rel + 1 {
            assert(rem[end_rel + 1] == joined@[end_abs as int + 1]);
        }
        assert(opts@ == spec_pattern_options(rem, end_rel));
    }
    let vi_start = end_abs + 1 + opts.len();
    let version_info: Vec<u8> = if jlen > end_abs + 1 {
        let v = trim_range(joined.as_slice(), vi_start, jlen);
        proof {
            assert(joined@.subrange(vi_start as int, jlen as int) =~= rem.skip(
                end_rel + opts@.len() + 1));
        }
        v
    } else {
        Vec::new()
    };
    proof {
        assert(version_info@ == spec_version_info(rem, end_rel, opts@.len() as int));
    }
    let caseless = contains_byte(&opts, 0x69);
    let dotall = contains_byte(&opts, 0x73);
    if !regex_compiles(pattern.as_slice(), caseless, dotall) {
        return None;
    }
    let service = clone_bytes(&toks[1]);
    Some(Match { service, pattern, pattern_options: opts, version_info })
}

/// The text of a TCP probe declaration built from a name and an
/// escaped payload, with `q` as leader and `|` as delimiter.
pub open spec fn probe_line_text(name: Seq<u8>, payload: Seq<u8>) -> Seq<u8> {
    kw_probe() + seq![0x20u8] + kw_tcp() + seq![0x20u8] + name + seq![0x20u8] + seq![0x71u8,
        0x7cu8,
    ] + payload + seq![0x7cu8]
}

/// Round trip from a probe's fields to its declaration line and back:
/// for a name without whitespace and a payload without whitespace,
/// delimiter or backslash, parsing `Probe TCP <name> q|<payload>|`
/// yields exactly the name, TCP transport, the payload bytes, and no
/// `no-payload` flag.
pub proof fn lemma_probe_line_round_trip(name: Seq<u8>, payload: Seq<u8>)
    requires
        name.len() > 0,
        forall|k: int| 0 <= k < name.len() ==> !is_space(#[trigger] name[k]),
        forall|k: int|
            0 <= k < payload.len() ==> !is_space(#[trigger] payload[k]) && payload[k] != 0x7c
                && payload[k] != 0x5c,
    ensures
        spec_parse_probe_line(probe_line_text(name, payload)) == Some(
            ProbeView {
                transport_protocol: TransportProtocol::TCP,
                name: name,
                data: payload,
                no_payload: false,
            },
        ),
{
    let line = probe_line_text(name, payload);
    let n = name.len() as int;
    let p = payload.len() as int;
    let tok4 = seq![0x71u8, 0x7cu8] + payload + seq![0x7cu8];
    assert(line.len() == 11 + n + p + 3);
    assert forall|k: int| 0 <= k < 5 implies line[k] == kw_probe()[k] by {}
    assert(line[5] == 0x20u8);
    assert forall|k: int| 6 <= k < 9 implies line[k] == kw_tcp()[k - 6] by {}
    assert(line[9] == 0x20u8);
    assert forall|k: int| 10 <= k < 10 + n implies line[k] == name[k - 10] by {}
    assert(line[10 + n] == 0x20u8);
    assert forall|k: int| 11 + n <= k < line.len() implies line[k] == tok4[k - 11 - n] by {}
    assert(tok4[0] == 0x71u8 && tok4[1] == 0x7cu8);
    assert forall|k: int| 2 <= k < 2 + p implies tok4[k] == payload[k - 2] by {}
    assert(tok4[2 + p] == 0x7cu8);

    assert(!is_space(0x50u8) && !is_space(0x72u8) && !is_space(0x6fu8) && !is_space(0x62u8)
        && !is_space(0x65u8));
    assert(!is_space(0x54u8) && !is_space(0x43u8) && !is_space(0x50u8));
    assert(!is_space(0x71u8) && !is_space(0x7cu8));

    // Tokenization: Probe, TCP, name, q|payload|
    assert(forall|k: int| 0 <= k < 5 ==> !is_space(#[trigger] line[k]));
    lemma_tokens_take_token(line, 0, 5);
    assert(line.skip(0) =~= line);
    lemma_tokens_skip_space(line, 5);
    assert(forall|k: int| 6 <= k < 9 ==> !is_space(#[trigger] line[k]));
    lemma_tokens_take_token(line, 6, 9);
    lemma_tokens_skip_space(line, 9);
    assert(forall|k: int| 10 <= k < 10 + n ==> !is_space(#[trigger] line[k]));
    lemma_tokens_take_token(line, 10, 10 + n);
    lemma_tokens_skip_space(line, 10 + n);
    assert(forall|k: int| 11 + n <= k < line.len() ==> !is_space(#[trigger] line[k]));
    lemma_tokens_take_token(line, 11 + n, line.len() as int);
    assert(line.skip(line.len() as int) =~= Seq::<u8>::empty());
    assert(tokens(Seq::<u8>::empty()) =~= Seq::<Seq<u8>>::empty());

    assert(line.subrange(0, 5) =~= kw_probe());
    assert(line.subrange(6, 9) =~= kw_tcp());
    assert(line.subrange(10, 10 + n) =~= name);
    assert(line.subrange(11 + n, line.len() as int) =~= tok4);

    let toks = tokens(line);
    assert(toks =~= seq![kw_probe(), kw_tcp(), name, tok4]);
    assert(toks.len() == 4);
    assert(toks[0] == kw_probe());
    assert(spec_parse_transport(toks[1]) == Some(TransportProtocol::TCP));
    assert(toks[3].len() == p + 3 >= 2);

    // The joined payload region is the single fourth token.
    assert(toks.skip(3) =~= seq![tok4]);
    let joined = join_sp(toks.skip(3));
    assert(joined == tok4);
    let delim = toks[3][1];
    assert(delim == 0x7cu8);

    // Opening delimiter at index 1, closing at payload.len() after it.
    assert(tok4[0] != 0x7cu8);
    crate::lex::lemma_find_byte_exact(tok4, 0x7cu8, 1);
    assert(find_byte(joined, delim) == Some(1int));
    let rem = joined.skip(2);
    assert(rem.len() == p + 1);
    assert(forall|k: int| 0 <= k < rem.len() ==> rem[k] == tok4[k + 2]);
    assert(forall|k: int| 0 <= k < p ==> rem[k] != 0x7cu8);
    assert(rem[p] == 0x7cu8);
    crate::lex::lemma_find_byte_exact(rem, 0x7cu8, p);
    assert(find_byte(rem, delim) == Some(p));

    // The payload carries no backslash, so it decodes to itself.
    assert(rem.take(p) =~= payload);
    crate::unescape::lemma_unescape_no_escapes(payload);

    // Nothing follows the closing delimiter.
    assert(rem.len() == p + 1);
    assert(!spec_no_payload_flag(rem, p));

    assert(spec_parse_probe_line(line) == Some(
        ProbeView {
            transport_protocol: TransportProtocol::TCP,
            name: name,
            data: payload,
            no_payload: false,
        },
    ));
}

/// Parses a `Probe <TCP|UDP> <name> <q><DELIM><payload><DELIM>
/// [no-payload]` line.  Returns `None` when the line is not a
/// well-formed probe declaration (wrong keyword, unknown transport,
/// missing delimiter, or a malformed payload escape).
pub fn parse_probe_line(line: &str) -> (r: Option<Probe>)
    ensures
        match r {
            Some(p) => spec_parse_probe_line(line.spec_bytes()) == Some(p@),
            None => spec_parse_probe_line(line.spec_bytes()) is None,
        },
{
    parse_probe_line_bytes(line.as_bytes())
}

/// Parses a `Probe` line given as raw bytes.
#[verifier::rlimit(80)]
pub fn parse_probe_line_bytes(bytes: &[u8]) -> (r: Option<Probe>)
    ensures
        match r {
            Some(p) => spec_parse_probe_line(bytes@) == Some(p@),
            None => spec_parse_probe_line(bytes@) is None,
        },
{
    let toks = tokenize(bytes);
    proof {
        crate::lex::lemma_bytes_deep_view(toks);
    }
    if toks.len() < 3 {
        return None;
    }
    let probe_kw: [u8; 5] = [80u8, 114u8, 111u8, 98u8, 101u8];
    proof {
        assert(probe_kw@ =~= kw_probe());
    }
    if !bytes_eq(&toks[0], probe_kw.as_slice()) {
        return None;
    }
    let transport = match parse_transport(&toks[1]) {
        Some(t) => t,
        None => {
            return None;
        },
    };
    if toks.len() < 4 {
        return None;
    }
    if toks[3].len() < 2 {
        return None;
    }
    let joined = join_from(&toks, 3);
    let delim = toks[3][1];
    proof {
        assert(joined@.skip(0) =~= joined@);
    }
    let start0 = match find_byte_from(joined.as_slice(), 0, delim) {
        Some(i) => i,
        None => {
            return None;
        },
    };
    let ghost rem = joined@.skip(start0 as int + 1);
    let jlen = joined.len();
    assert(start0 < jlen);
    let end_abs = match find_byte_from(joined.as_slice(), start0 + 1, delim) {
        Some(j) => j,
        None => {
            return None;
        },
    };
    let ghost end_rel = end_abs as int - (start0 as int + 1);
    proof {
        assert(find_byte(rem, delim) == Some(end_rel));
    }
    let payload_escaped = subvec(joined.as_slice(), start0 + 1, end_abs);
    proof {
        assert(payload_escaped@ =~= rem.take(end_rel));
    }
    let data = match unescape(payload_escaped.as_slice()) {
        Some(d) => d,
        None => {
            return None;
        },
    };
    let no_payload = if joined.len() > end_abs + 1 {
        let rest = subvec(joined.as_slice(), end_abs + 1, joined.len());
        proof {
            assert(rest@ =~= rem.skip(end_rel + 1));
        }
        let rest_toks = tokenize(rest.as_slice());
        proof {
            crate::lex::lemma_bytes_deep_view(rest_toks);
        }
        if rest_toks.len() > 0 {
            let np_kw: [u8; 10] = [110u8, 111u8, 45u8, 112u8, 97u8, 121u8, 108u8, 111u8, 97u8,
                100u8];
            proof {
                assert(np_kw@ =~= kw_no_payload());
            }
            bytes_eq(&rest_toks[0], np_kw.as_slice())
        } else {
            false
        }
    } else {
        false
    };
    proof {
        assert(rem.len() > end_rel + 1 <==> joined@.len() > end_abs as int + 1);
        assert(no_payload == spec_no_payload_flag(rem, end_rel));
    }
    let name = clone_bytes(&toks[2]);
    Some(Probe { transport_protocol: transport, name, data, no_payload })
}

} // verus!
