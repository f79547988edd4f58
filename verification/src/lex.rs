//! Byte-level lexical helpers for the probe catalog format: ASCII
//! whitespace tokenization, space-joining, searching and slicing.
//!
//! Catalog lines are handled as byte sequences.  Splitting and trimming
//! recognize the ASCII whitespace bytes; the catalog format itself is
//! ASCII at every position these helpers look at.

use vstd::prelude::*;

verus! {

/// ASCII whitespace: space, tab, line feed, vertical tab, form feed,
/// carriage return.
pub open spec fn is_space(b: u8) -> bool {
    b == 0x20 || (0x09 <= b && b <= 0x0d)
}

pub fn is_space_byte(b: u8) -> (r: bool)
    ensures
        r == is_space(b),
{
    b == 0x20 || (0x09 <= b && b <= 0x0d)
}

/// Length of the maximal leading run of non-space bytes.
pub open spec fn token_len(s: Seq<u8>) -> nat
    decreases s.len(),
{
    if s.len() == 0 || is_space(s.first()) {
        0
    } else {
        1 + token_len(s.drop_first())
    }
}

pub proof fn lemma_token_len_le(s: Seq<u8>)
    ensures
        token_len(s) <= s.len(),
    decreases s.len(),
{
    if s.len() == 0 || is_space(s.first()) {
    } else {
        lemma_token_len_le(s.drop_first());
    }
}

/// `token_len` is exactly the index of the first space (or the length).
pub proof fn lemma_token_len_exact(s: Seq<u8>, n: int)
    requires
        0 <= n <= s.len(),
        forall|k: int| 0 <= k < n ==> !is_space(s[k]),
        n == s.len() || is_space(s[n]),
    ensures
        token_len(s) == n,
    decreases n,
{
    if n == 0 {
    } else {
        assert(!is_space(s.first())) by { assert(!is_space(s[0])); }
        assert(forall|k: int| 0 <= k < n - 1 ==> s.drop_first()[k] == s[k + 1]);
        lemma_token_len_exact(s.drop_first(), n - 1);
    }
}

/// The whitespace-separated tokens of `s`, in order.
pub open spec fn tokens(s: Seq<u8>) -> Seq<Seq<u8>>
    decreases s.len(),
    via tokens_dec
{
    if s.len() == 0 {
        Seq::empty()
    } else if is_space(s.first()) {
        tokens(s.drop_first())
    } else {
        seq![s.take(token_len(s) as int)] + tokens(s.skip(token_len(s) as int))
    }
}

#[via_fn]
proof fn tokens_dec(s: Seq<u8>) {
    if s.len() != 0 && !is_space(s.first()) {
        lemma_token_len_le(s);
        assert(token_len(s) >= 1);
    }
}

/// Skipping a leading space does not change the token list.
pub proof fn lemma_tokens_skip_space(s: Seq<u8>, i: int)
    requires
        0 <= i < s.len(),
        is_space(s[i]),
    ensures
        tokens(s.skip(i)) == tokens(s.skip(i + 1)),
{
    assert(s.skip(i).first() == s[i]);
    assert(s.skip(i).drop_first() =~= s.skip(i + 1));
}

/// A token run of length `n` at the front of `s.skip(i)` contributes one
/// token and leaves `tokens(s.skip(i + n))`.
pub proof fn lemma_tokens_take_token(s: Seq<u8>, i: int, j: int)
    requires
        0 <= i < j <= s.len(),
        forall|k: int| i <= k < j ==> !is_space(s[k]),
        j == s.len() || is_space(s[j]),
    ensures
        tokens(s.skip(i)) == seq![s.subrange(i, j)] + tokens(s.skip(j)),
{
    let t = s.skip(i);
    assert(!is_space(t.first())) by { assert(t.first() == s[i]); }
    assert(forall|k: int| 0 <= k < j - i ==> t[k] == s[k + i]);
    lemma_token_len_exact(t, j - i);
    assert(t.take(j - i) =~= s.subrange(i, j));
    assert(t.skip(j - i) =~= s.skip(j));
}

/// The deep view of a vector of byte vectors is the pointwise view.
pub proof fn lemma_bytes_deep_view(v: Vec<Vec<u8>>)
    ensures
        v.deep_view().len() == v@.len(),
        forall|i: int| 0 <= i < v@.len() ==> v.deep_view()[i] == v@[i]@,
{
    assert forall|i: int| 0 <= i < v@.len() implies v.deep_view()[i] == v@[i]@ by {
        assert(v.deep_view()[i] =~= v@[i]@);
    }
}

/// Splits `s` into its ASCII-whitespace-separated tokens.
pub fn tokenize(s: &[u8]) -> (r: Vec<Vec<u8>>)
    ensures
        r.deep_view() == tokens(s@),
{
    let ghost orig = s@;
    let mut r: Vec<Vec<u8>> = Vec::new();
    let mut i: usize = 0;
    proof {
        assert(orig.skip(0) =~= orig);
    }
    while i < s.len()
        invariant
            i <= s@.len(),
            s@ == orig,
            tokens(orig) == r.deep_view() + tokens(orig.skip(i as int)),
        decreases s@.len() - i,
    {
        if is_space_byte(s[i]) {
            proof {
                lemma_tokens_skip_space(orig, i as int);
            }
            i = i + 1;
        } else {
            let start = i;
            let mut t: Vec<u8> = Vec::new();
            while i < s.len() && !is_space_byte(s[i])
                invariant
                    start <= i <= s@.len(),
                    s@ == orig,
                    forall|k: int| start <= k < i ==> !is_space(orig[k]),
                    t@ =~= orig.subrange(start as int, i as int),
                decreases s@.len() - i,
            {
                t.push(s[i]);
                i = i + 1;
            }
            proof {
                lemma_tokens_take_token(orig, start as int, i as int);
            }
            let ghost old_r = r.deep_view();
            r.push(t);
            proof {
                assert(r.deep_view() =~~= old_r.push(orig.subrange(start as int, i as int)));
                assert(tokens(orig) =~~= r.deep_view() + tokens(orig.skip(i as int)));
            }
        }
    }
    proof {
        assert(tokens(orig.skip(s@.len() as int)) =~= Seq::<Seq<u8>>::empty());
        assert(r.deep_view() =~= r.deep_view() + tokens(orig.skip(s@.len() as int)));
    }
    r
}

/// The tokens joined back together with single spaces.
pub open spec fn join_sp(ts: Seq<Seq<u8>>) -> Seq<u8>
    decreases ts.len(),
{
    if ts.len() == 0 {
        Seq::empty()
    } else if ts.len() == 1 {
        ts[0]
    } else {
        ts[0] + seq![0x20u8] + join_sp(ts.drop_first())
    }
}

/// Joins the tokens `ts[from..]` with single spaces between them.
pub fn join_from(ts: &Vec<Vec<u8>>, from: usize) -> (r: Vec<u8>)
    requires
        from <= ts@.len(),
    ensures
        r@ == join_sp(ts.deep_view().skip(from as int)),
    decreases ts@.len() - from,
{
    let mut r: Vec<u8> = Vec::new();
    if from >= ts.len() {
        proof {
            assert(ts.deep_view().skip(from as int) =~= Seq::<Seq<u8>>::empty());
        }
        return r;
    }
    let first = &ts[from];
    let mut i: usize = 0;
    while i < first.len()
        invariant
            i <= first@.len(),
            first@ == ts.deep_view()[from as int],
            r@ =~= first@.take(i as int),
        decreases first@.len() - i,
    {
        r.push(first[i]);
        i = i + 1;
    }
    proof {
        assert(r@ =~= ts.deep_view()[from as int]);
    }
    if from + 1 < ts.len() {
        r.push(0x20u8);
        let rest = join_from(ts, from + 1);
        let mut j: usize = 0;
        while j < rest.len()
            invariant
                j <= rest@.len(),
                rest@ == join_sp(ts.deep_view().skip(from as int + 1)),
                r@ =~= ts.deep_view()[from as int] + seq![0x20u8] + rest@.take(j as int),
            decreases rest@.len() - j,
        {
            r.push(rest[j]);
            j = j + 1;
        }
        proof {
            let tss = ts.deep_view().skip(from as int);
            assert(tss.len() >= 2);
            assert(tss[0] == ts.deep_view()[from as int]);
            assert(tss.drop_first() =~= ts.deep_view().skip(from as int + 1));
            assert(r@ =~= ts.deep_view()[from as int] + seq![0x20u8] + rest@);
        }
    } else {
        proof {
            let tss = ts.deep_view().skip(from as int);
            assert(tss.len() == 1);
            assert(tss[0] == ts.deep_view()[from as int]);
        }
    }
    r
}

/// Index of the first occurrence of `b` in `s`, if any.
pub open spec fn find_byte(s: Seq<u8>, b: u8) -> Option<int>
    decreases s.len(),
{
    if s.len() == 0 {
        None
    } else if s.first() == b {
        Some(0int)
    } else {
        match find_byte(s.drop_first(), b) {
            Some(i) => Some(i + 1),
            None => None,
        }
    }
}

/// What `find_byte` returns, characterized without recursion.
pub proof fn lemma_find_byte_exact(s: Seq<u8>, b: u8, n: int)
    requires
        0 <= n <= s.len(),
        forall|k: int| 0 <= k < n ==> s[k] != b,
        n == s.len() || s[n] == b,
    ensures
        n == s.len() ==> find_byte(s, b) is None,
        n < s.len() ==> find_byte(s, b) == Some(n),
    decreases n,
{
    if n == 0 {
        if s.len() > 0 {
            assert(s.first() == s[0]);
        }
    } else {
        assert(s.first() != b) by { assert(s[0] != b); }
        assert(forall|k: int| 0 <= k < n - 1 ==> s.drop_first()[k] == s[k + 1]);
        lemma_find_byte_exact(s.drop_first(), b, n - 1);
    }
}

/// Finds the first occurrence of `b` in `s[from..]`, as an absolute index.
pub fn find_byte_from(s: &[u8], from: usize, b: u8) -> (r: Option<usize>)
    requires
        from <= s@.len(),
    ensures
        match r {
            Some(i) => from <= i < s@.len() && Some(i - from) == find_byte(s@.skip(from as int), b),
            None => find_byte(s@.skip(from as int), b) is None,
        },
{
    let mut i = from;
    while i < s.len()
        invariant
            from <= i <= s@.len(),
            forall|k: int| from <= k < i ==> s@[k] != b,
        decreases s@.len() - i,
    {
        if s[i] == b {
            proof {
                let t = s@.skip(from as int);
                assert(forall|k: int| 0 <= k < i - from ==> t[k] == s@[k + from]);
                assert(t[i - from] == s@[i as int]);
                lemma_find_byte_exact(t, b, i - from);
            }
            return Some(i);
        }
        i = i + 1;
    }
    proof {
        let t = s@.skip(from as int);
        assert(forall|k: int| 0 <= k < t.len() ==> t[k] == s@[k + from]);
        lemma_find_byte_exact(t, b, t.len() as int);
    }
    None
}

pub proof fn lemma_find_byte_bounds(s: Seq<u8>, b: u8)
    ensures
        match find_byte(s, b) {
            Some(i) => 0 <= i < s.len() && s[i] == b,
            None => true,
        },
    decreases s.len(),
{
    if s.len() == 0 {
    } else if s.first() == b {
    } else {
        lemma_find_byte_bounds(s.drop_first(), b);
    }
}

/// `s` split at every occurrence of `sep`; empty pieces are kept.
pub open spec fn split_byte(s: Seq<u8>, sep: u8) -> Seq<Seq<u8>>
    decreases s.len(),
    via split_byte_dec
{
    match find_byte(s, sep) {
        None => seq![s],
        Some(i) => seq![s.take(i)] + split_byte(s.skip(i + 1), sep),
    }
}

#[via_fn]
proof fn split_byte_dec(s: Seq<u8>, sep: u8) {
    lemma_find_byte_bounds(s, sep);
}

/// Splits `s` at every occurrence of `sep`, keeping empty pieces.
pub fn split_on(s: &[u8], sep: u8) -> (r: Vec<Vec<u8>>)
    ensures
        r.deep_view() == split_byte(s@, sep),
{
    let mut r: Vec<Vec<u8>> = Vec::new();
    let mut pos: usize = 0;
    let mut done = false;
    proof {
        assert(s@.skip(0) =~= s@);
        assert(Seq::<Seq<u8>>::empty() + split_byte(s@, sep) =~~= split_byte(s@, sep));
    }
    while !done
        invariant
            pos <= s@.len(),
            done ==> r.deep_view() == split_byte(s@, sep),
            !done ==> r.deep_view() + split_byte(s@.skip(pos as int), sep) == split_byte(s@, sep),
        decreases s@.len() - pos + 1, if done { 0int } else { 1int },
    {
        let ghost suffix = s@.skip(pos as int);
        let slen = s.len();
        match find_byte_from(s, pos, sep) {
            Some(c) => {
                assert(c < slen);
                let piece = subvec(s, pos, c);
                proof {
                    assert(piece@ =~= suffix.take(c as int - pos as int));
                    assert(suffix.skip(c as int - pos as int + 1) =~= s@.skip(c as int + 1));
                }
                let ghost old_r = r.deep_view();
                r.push(piece);
                proof {
                    assert(r.deep_view() =~~= old_r.push(suffix.take(c as int - pos as int)));
                    assert(split_byte(suffix, sep) == seq![suffix.take(c as int - pos as int)]
                        + split_byte(s@.skip(c as int + 1), sep));
                    assert(r.deep_view() + split_byte(s@.skip(c as int + 1), sep)
                        =~~= split_byte(s@, sep));
                }
                pos = c + 1;
            },
            None => {
                let piece = subvec(s, pos, s.len());
                proof {
                    assert(piece@ =~= suffix);
                }
                let ghost old_r = r.deep_view();
                r.push(piece);
                proof {
                    assert(r.deep_view() =~~= old_r.push(suffix));
                    assert(split_byte(suffix, sep) == seq![suffix]);
                    assert(r.deep_view() =~~= split_byte(s@, sep));
                }
                done = true;
            },
        }
    }
    r
}

/// Whether `b` occurs in `s`.
pub open spec fn has_byte(s: Seq<u8>, b: u8) -> bool {
    exists|k: int| 0 <= k < s.len() && s[k] == b
}

pub fn contains_byte(s: &Vec<u8>, b: u8) -> (r: bool)
    ensures
        r == has_byte(s@, b),
{
    let mut i: usize = 0;
    while i < s.len()
        invariant
            i <= s@.len(),
            forall|k: int| 0 <= k < i ==> s@[k] != b,
        decreases s@.len() - i,
    {
        if s[i] == b {
            return true;
        }
        i = i + 1;
    }
    false
}

/// Whether `s` starts with `p`.
pub open spec fn starts_with(s: Seq<u8>, p: Seq<u8>) -> bool {
    p.len() <= s.len() && s.take(p.len() as int) == p
}

pub fn slice_starts_with(s: &[u8], p: &[u8]) -> (r: bool)
    ensures
        r == starts_with(s@, p@),
{
    if p.len() > s.len() {
        return false;
    }
    let mut i: usize = 0;
    while i < p.len()
        invariant
            i <= p@.len() <= s@.len(),
            forall|k: int| 0 <= k < i ==> s@[k] == p@[k],
        decreases p@.len() - i,
    {
        if s[i] != p[i] {
            proof {
                assert(s@.take(p@.len() as int)[i as int] == s@[i as int]);
            }
            return false;
        }
        i = i + 1;
    }
    proof {
        assert(s@.take(p@.len() as int) =~= p@);
    }
    true
}

/// `s` with leading and trailing ASCII whitespace removed.
pub open spec fn trim_start_len(s: Seq<u8>) -> nat
    decreases s.len(),
{
    if s.len() == 0 || !is_space(s.first()) {
        0
    } else {
        1 + trim_start_len(s.drop_first())
    }
}

pub open spec fn trim_end_len(s: Seq<u8>) -> nat
    decreases s.len(),
{
    if s.len() == 0 || !is_space(s.last()) {
        s.len()
    } else {
        trim_end_len(s.drop_last())
    }
}

pub open spec fn trim(s: Seq<u8>) -> Seq<u8> {
    let t = s.take(trim_end_len(s) as int);
    t.skip(trim_start_len(t) as int)
}

proof fn lemma_trim_start_len_le(s: Seq<u8>)
    ensures
        trim_start_len(s) <= s.len(),
    decreases s.len(),
{
    if s.len() == 0 || !is_space(s.first()) {
    } else {
        lemma_trim_start_len_le(s.drop_first());
    }
}

proof fn lemma_trim_start_len_exact(s: Seq<u8>, n: int)
    requires
        0 <= n <= s.len(),
        forall|k: int| 0 <= k < n ==> is_space(s[k]),
        n == s.len() || !is_space(s[n]),
    ensures
        trim_start_len(s) == n,
    decreases n,
{
    if n == 0 {
    } else {
        assert(is_space(s.first())) by { assert(is_space(s[0])); }
        assert(forall|k: int| 0 <= k < n - 1 ==> s.drop_first()[k] == s[k + 1]);
        lemma_trim_start_len_exact(s.drop_first(), n - 1);
    }
}

proof fn lemma_trim_end_len_exact(s: Seq<u8>, n: int)
    requires
        0 <= n <= s.len(),
        forall|k: int| n <= k < s.len() ==> is_space(s[k]),
        n == 0 || !is_space(s[n - 1]),
    ensures
        trim_end_len(s) == n,
    decreases s.len(),
{
    if s.len() == 0 {
    } else if n == s.len() {
        assert(!is_space(s.last()));
    } else {
        assert(is_space(s.last()));
        assert(forall|k: int| 0 <= k < s.len() - 1 ==> s.drop_last()[k] == s[k]);
        lemma_trim_end_len_exact(s.drop_last(), n);
    }
}

/// Trims ASCII whitespace from both ends of `s[from..to]`.
pub fn trim_range(s: &[u8], from: usize, to: usize) -> (r: Vec<u8>)
    requires
        from <= to <= s@.len(),
    ensures
        r@ == trim(s@.subrange(from as int, to as int)),
{
    let ghost sub = s@.subrange(from as int, to as int);
    let mut hi = to;
    while hi > from && is_space_byte(s[hi - 1])
        invariant
            from <= hi <= to <= s@.len(),
            forall|k: int| hi <= k < to ==> is_space(s@[k]),
        decreases hi,
    {
        hi = hi - 1;
    }
    proof {
        assert(forall|k: int| 0 <= k < sub.len() ==> sub[k] == s@[k + from]);
        lemma_trim_end_len_exact(sub, hi - from);
    }
    let ghost t = sub.take((hi - from) as int);
    let mut lo = from;
    while lo < hi && is_space_byte(s[lo])
        invariant
            from <= lo <= hi <= s@.len(),
            forall|k: int| from <= k < lo ==> is_space(s@[k]),
        decreases hi - lo,
    {
        lo = lo + 1;
    }
    proof {
        assert(forall|k: int| 0 <= k < t.len() ==> t[k] == s@[k + from]);
        lemma_trim_start_len_exact(t, lo - from);
    }
    let mut r: Vec<u8> = Vec::new();
    let mut i = lo;
    while i < hi
        invariant
            lo <= i <= hi <= s@.len(),
            r@ =~= s@.subrange(lo as int, i as int),
        decreases hi - i,
    {
        r.push(s[i]);
        i = i + 1;
    }
    proof {
        assert(r@ =~= t.skip((lo - from) as int));
    }
    r
}

/// Copies `s[from..to]` into a fresh vector.
pub fn subvec(s: &[u8], from: usize, to: usize) -> (r: Vec<u8>)
    requires
        from <= to <= s@.len(),
    ensures
        r@ == s@.subrange(from as int, to as int),
{
    let mut r: Vec<u8> = Vec::new();
    let mut i = from;
    while i < to
        invariant
            from <= i <= to <= s@.len(),
            r@ =~= s@.subrange(from as int, i as int),
        decreases to - i,
    {
        r.push(s[i]);
        i = i + 1;
    }
    r
}

/// Whether the bytes of `s` equal `p`.
pub fn bytes_eq(s: &Vec<u8>, p: &[u8]) -> (r: bool)
    ensures
        r == (s@ == p@),
{
    if s.len() != p.len() {
        return false;
    }
    let mut i: usize = 0;
    while i < s.len()
        invariant
            i <= s@.len() == p@.len(),
            forall|k: int| 0 <= k < i ==> s@[k] == p@[k],
        decreases s@.len() - i,
    {
        if s[i] != p[i] {
            return false;
        }
        i = i + 1;
    }
    proof {
        assert(s@ =~= p@);
    }
    true
}

} // verus!
