use vstd::prelude::*;
use vstd::string::StrSliceExecFns;
use crate::string_map::Params;

verus! {

broadcast use vstd::string::group_string_axioms;

/// The segments of `s` between the `/` characters, in order, as `str::split('/')`
/// yields them: a string with `n` separators has `n + 1` segments, and the
/// empty string has one, empty, segment.
pub open spec fn split_path(s: Seq<char>) -> Seq<Seq<char>>
    decreases s.len(),
{
    if s.len() == 0 {
        seq![Seq::<char>::empty()]
    } else {
        let init = split_path(s.drop_last());
        if s.last() == '/' {
            init.push(Seq::<char>::empty())
        } else {
            init.update(init.len() - 1, init.last().push(s.last()))
        }
    }
}

/// The segments joined back together, with one `/` between two neighbours.
pub open spec fn join_path(segs: Seq<Seq<char>>) -> Seq<char>
    decreases segs.len(),
{
    if segs.len() == 0 {
        Seq::<char>::empty()
    } else if segs.len() == 1 {
        segs[0]
    } else {
        join_path(segs.drop_last()) + seq!['/'] + segs.last()
    }
}

/// Splitting a path at `/` yields at least one segment, no segment holds a
/// `/`, and joining the segments with `/` gives the path back.
pub proof fn lemma_split_join(s: Seq<char>)
    ensures
        split_path(s).len() >= 1,
        forall|i: int| 0 <= i < split_path(s).len() ==> !(#[trigger] split_path(s)[i]).contains('/'),
        join_path(split_path(s)) == s,
    decreases s.len(),
{
    if s.len() > 0 {
        let p = s.drop_last();
        lemma_split_join(p);
        let init = split_path(p);
        let segs = split_path(s);
        if s.last() == '/' {
            assert(segs.drop_last() == init);
            assert forall|i: int| 0 <= i < segs.len() implies !(#[trigger] segs[i]).contains('/') by {
                if i < init.len() {
                    assert(segs[i] == init[i]);
                } else {
                    assert(segs[i] == Seq::<char>::empty());
                }
            }
            assert(join_path(segs) == join_path(init) + seq!['/'] + Seq::<char>::empty());
            assert(p.push('/') == s);
            assert(join_path(segs) =~= s);
        } else {
            let last = init.last().push(s.last());
            assert forall|i: int| 0 <= i < segs.len() implies !(#[trigger] segs[i]).contains('/') by {
                if i < init.len() - 1 {
                    assert(segs[i] == init[i]);
                } else {
                    assert(segs[i] == last);
                    assert(!init[init.len() - 1].contains('/'));
                    if last.contains('/') {
                        let k = choose|k: int| 0 <= k < last.len() && last[k] == '/';
                        if k < last.len() - 1 {
                            assert(init.last()[k] == '/');
                        }
                    }
                }
            }
            if init.len() == 1 {
                assert(segs =~= seq![last]);
                assert(join_path(init) == init[0]);
                assert(join_path(segs) == last);
                assert(last =~= p.push(s.last()));
                assert(p.push(s.last()) =~= s);
            } else {
                assert(segs.drop_last() =~= init.drop_last());
                assert(join_path(init) == join_path(init.drop_last()) + seq!['/'] + init.last());
                assert(join_path(segs) == join_path(init.drop_last()) + seq!['/'] + last);
                assert(join_path(segs) =~= join_path(init).push(s.last()));
                assert(p.push(s.last()) =~= s);
            }
        }
    }
}

/// Every character of a segment is a character of the path.
pub proof fn lemma_segment_chars(s: Seq<char>, i: int, k: int)
    requires
        0 <= i < split_path(s).len(),
        0 <= k < split_path(s)[i].len(),
    ensures
        s.contains(split_path(s)[i][k]),
    decreases s.len(),
{
    if s.len() > 0 {
        let p = s.drop_last();
        let init = split_path(p);
        lemma_split_join(p);
        if s.last() == '/' {
            if i < init.len() {
                assert(split_path(s)[i] == init[i]);
                lemma_segment_chars(p, i, k);
                let j = choose|j: int| 0 <= j < p.len() && p[j] == init[i][k];
                assert(s[j] == p[j]);
            }
        } else {
            if i < init.len() - 1 {
                assert(split_path(s)[i] == init[i]);
                lemma_segment_chars(p, i, k);
                let j = choose|j: int| 0 <= j < p.len() && p[j] == init[i][k];
                assert(s[j] == p[j]);
            } else if k < init.last().len() {
                assert(split_path(s)[i][k] == init[i][k]);
                lemma_segment_chars(p, i, k);
                let j = choose|j: int| 0 <= j < p.len() && p[j] == init[i][k];
                assert(s[j] == p[j]);
            } else {
                assert(split_path(s)[i][k] == s.last());
                assert(s[s.len() - 1] == s.last());
            }
        }
    }
}

/// A pattern with no `:` is a plain path: it matches exactly the path
/// equal to it, and captures nothing.
pub proof fn law_plain_pattern_matches_itself_only(pattern: Seq<char>, path: Seq<char>)
    requires
        !pattern.contains(':'),
    ensures
        pattern_matches(pattern, path) <==> pattern == path,
        pattern_matches(pattern, path) ==> path_params(pattern, path) == Map::<
            Seq<char>,
            Seq<char>,
        >::empty(),
{
    let ps = split_path(pattern);
    let qs = split_path(path);
    lemma_split_join(pattern);
    lemma_split_join(path);
    assert forall|i: int| 0 <= i < ps.len() implies !is_param_segment(#[trigger] ps[i]) by {
        if is_param_segment(ps[i]) {
            lemma_segment_chars(pattern, i, 0);
        }
    }
    if pattern_matches(pattern, path) {
        assert forall|i: int| 0 <= i < ps.len() implies #[trigger] ps[i] == qs[i] by {
            assert(segment_matches(ps[i], qs[i]));
        }
        assert(ps =~= qs);
        lemma_no_captures(ps, qs, ps.len());
    }
    if pattern == path {
        assert forall|i: int| 0 <= i < ps.len() implies segment_matches(#[trigger] ps[i], qs[i]) by {}
    }
}

/// Segments none of which names a parameter capture nothing.
proof fn lemma_no_captures(ps: Seq<Seq<char>>, qs: Seq<Seq<char>>, n: nat)
    requires
        n <= ps.len(),
        forall|i: int| 0 <= i < ps.len() ==> !is_param_segment(#[trigger] ps[i]),
    ensures
        captures(ps, qs, n) == Map::<Seq<char>, Seq<char>>::empty(),
    decreases n,
{
    if n > 0 {
        lemma_no_captures(ps, qs, (n - 1) as nat);
        assert(!is_param_segment(ps[n - 1]));
    }
}

/// The characters of `s`, in order.
pub fn chars_of(s: &str) -> (v: Vec<char>)
    ensures
        v@ == s@,
{
    let mut it = s.chars();
    let mut v: Vec<char> = Vec::new();
    loop
        invariant
            v@ + vstd::std_specs::iter::IteratorSpec::remaining(&it) == s@,
        ensures
            v@ == s@,
        decreases s@.len() - v@.len(),
    {
        match it.next() {
            Some(c) => {
                v.push(c);
            },
            None => {
                assert(v@ + Seq::<char>::empty() =~= v@);
                break ;
            },
        }
    }
    v
}

/// Whether `s` holds a `:`.
pub fn has_colon(s: &str) -> (r: bool)
    ensures
        r == s@.contains(':'),
{
    let c = chars_of(s);
    let mut i: usize = 0;
    while i < c.len()
        invariant
            c@ == s@,
            i <= c@.len(),
            forall|j: int| 0 <= j < i ==> c@[j] != ':',
        decreases c@.len() - i,
    {
        if c[i] == ':' {
            return true;
        }
        i = i + 1;
    }
    false
}

/// The bounds `(start, end)` of the segments of `chars` between `/`
/// characters: the `i`-th pair delimits the `i`-th segment of `split_path`.
pub fn segment_bounds(chars: &Vec<char>) -> (b: Vec<(usize, usize)>)
    ensures
        b@.len() == split_path(chars@).len(),
        forall|i: int|
            0 <= i < b@.len() ==> {
                &&& (#[trigger] b@[i]).0 <= b@[i].1 <= chars@.len()
                &&& chars@.subrange(b@[i].0 as int, b@[i].1 as int) == split_path(chars@)[i]
            },
{
    let mut b: Vec<(usize, usize)> = Vec::new();
    let mut start: usize = 0;
    let mut i: usize = 0;
    while i < chars.len()
        invariant
            start <= i <= chars@.len(),
            b@.len() + 1 == split_path(chars@.take(i as int)).len(),
            chars@.subrange(start as int, i as int) == split_path(chars@.take(i as int)).last(),
            forall|j: int|
                0 <= j < b@.len() ==> {
                    &&& (#[trigger] b@[j]).0 <= b@[j].1 <= chars@.len()
                    &&& chars@.subrange(b@[j].0 as int, b@[j].1 as int) == split_path(
                        chars@.take(i as int),
                    )[j]
                },
        decreases chars@.len() - i,
    {
        let ghost prefix = chars@.take(i as int);
        let ghost next = chars@.take(i + 1);
        assert(next.drop_last() =~= prefix);
        assert(next.last() == chars@[i as int]);
        if chars[i] == '/' {
            b.push((start, i));
            start = i + 1;
            assert(chars@.subrange(start as int, i + 1) =~= Seq::<char>::empty());
        } else {
            assert(chars@.subrange(start as int, i + 1) =~= chars@.subrange(
                start as int,
                i as int,
            ).push(chars@[i as int]));
        }
        i = i + 1;
    }
    assert(chars@.take(i as int) =~= chars@);
    b.push((start, i));
    b
}

/// A pattern segment that starts with `:` names a parameter.
pub open spec fn is_param_segment(seg: Seq<char>) -> bool {
    seg.len() > 0 && seg[0] == ':'
}

/// A parameter segment matches any path segment, another segment only itself.
pub open spec fn segment_matches(pattern_seg: Seq<char>, path_seg: Seq<char>) -> bool {
    is_param_segment(pattern_seg) || pattern_seg == path_seg
}

/// `pattern` matches `path` when both have as many segments and each
/// segment of the pattern matches the segment of the path at its position.
pub open spec fn pattern_matches(pattern: Seq<char>, path: Seq<char>) -> bool {
    let ps = split_path(pattern);
    let qs = split_path(path);
    &&& ps.len() == qs.len()
    &&& forall|i: int| 0 <= i < ps.len() ==> segment_matches(#[trigger] ps[i], qs[i])
}

/// The parameters captured by the first `n` segments: each parameter
/// segment binds its name (the segment without its `:`) to the path segment
/// at its position, a later binding of a name replacing an earlier one.
pub open spec fn captures(ps: Seq<Seq<char>>, qs: Seq<Seq<char>>, n: nat) -> Map<
    Seq<char>,
    Seq<char>,
>
    decreases n,
{
    if n == 0 {
        Map::empty()
    } else {
        let m = captures(ps, qs, (n - 1) as nat);
        if is_param_segment(ps[n - 1]) {
            m.insert(ps[n - 1].drop_first(), qs[n - 1])
        } else {
            m
        }
    }
}

/// The parameters that `pattern` captures from `path`.
pub open spec fn path_params(pattern: Seq<char>, path: Seq<char>) -> Map<Seq<char>, Seq<char>> {
    captures(split_path(pattern), split_path(path), split_path(pattern).len())
}

/// What the first `n` segments capture: a name is bound exactly when a
/// parameter segment among them carries it, and it is bound to the path
/// segment at the last such position.
proof fn lemma_captures(ps: Seq<Seq<char>>, qs: Seq<Seq<char>>, n: nat, k: Seq<char>)
    requires
        n <= ps.len(),
    ensures
        captures(ps, qs, n).contains_key(k) <==> exists|i: int|
            0 <= i < n && is_param_segment(ps[i]) && #[trigger] ps[i].drop_first() == k,
        forall|i: int|
            0 <= i < n && is_param_segment(ps[i]) && #[trigger] ps[i].drop_first() == k && (forall|j: int|
                i < j < n && is_param_segment(ps[j]) ==> #[trigger] ps[j].drop_first() != k)
                ==> captures(ps, qs, n)[k] == qs[i],
    decreases n,
{
    if n > 0 {
        let m = (n - 1) as int;
        lemma_captures(ps, qs, (n - 1) as nat, k);
        if is_param_segment(ps[m]) && ps[m].drop_first() == k {
        } else {
            assert forall|i: int|
                0 <= i < n && is_param_segment(ps[i]) && #[trigger] ps[i].drop_first() == k && (forall|j: int|
                    i < j < n && is_param_segment(ps[j]) ==> #[trigger] ps[j].drop_first() != k)
                    implies captures(ps, qs, n)[k] == qs[i] by {
                if i == m {
                } else {
                    assert forall|j: int| i < j < n - 1 && is_param_segment(ps[j]) implies #[trigger] ps[j].drop_first() != k by {}
                }
            }
        }
    }
}

/// What a pattern captures from a path it matches: the names of its
/// parameter segments and nothing else, each bound to the path segment at
/// the position of the last parameter segment that carries it.
pub proof fn law_captured_params(pattern: Seq<char>, path: Seq<char>, k: Seq<char>, i: int)
    requires
        pattern_matches(pattern, path),
    ensures
        path_params(pattern, path).contains_key(k) <==> exists|j: int|
            0 <= j < split_path(pattern).len() && is_param_segment(split_path(pattern)[j])
                && #[trigger] split_path(pattern)[j].drop_first() == k,
        0 <= i < split_path(pattern).len() && is_param_segment(split_path(pattern)[i])
            && split_path(pattern)[i].drop_first() == k && (forall|j: int|
            i < j < split_path(pattern).len() && is_param_segment(split_path(pattern)[j])
                ==> #[trigger] split_path(pattern)[j].drop_first() != k) ==> path_params(
            pattern,
            path,
        )[k] == split_path(path)[i],
{
    lemma_captures(split_path(pattern), split_path(path), split_path(pattern).len(), k);
}

/// Whether `a[a_from..a_to]` and `b[b_from..b_to]` hold the same characters.
fn same_chars(a: &Vec<char>, a_from: usize, a_to: usize, b: &Vec<char>, b_from: usize, b_to: usize) -> (r:
    bool)
    requires
        a_from <= a_to <= a@.len(),
        b_from <= b_to <= b@.len(),
    ensures
        r == (a@.subrange(a_from as int, a_to as int) == b@.subrange(b_from as int, b_to as int)),
{
    if a_to - a_from != b_to - b_from {
        assert(a@.subrange(a_from as int, a_to as int).len() != b@.subrange(
            b_from as int,
            b_to as int,
        ).len());
        return false;
    }
    let n = a_to - a_from;
    let ghost sa = a@.subrange(a_from as int, a_to as int);
    let ghost sb = b@.subrange(b_from as int, b_to as int);
    let mut k: usize = 0;
    while k < n
        invariant
            n == a_to - a_from,
            n == b_to - b_from,
            a_from <= a_to <= a@.len(),
            b_from <= b_to <= b@.len(),
            k <= n,
            sa == a@.subrange(a_from as int, a_to as int),
            sb == b@.subrange(b_from as int, b_to as int),
            forall|j: int| 0 <= j < k ==> #[trigger] sa[j] == sb[j],
        decreases n - k,
    {
        if a[a_from + k] != b[b_from + k] {
            assert(sa[k as int] != sb[k as int]);
            return false;
        }
        assert(sa[k as int] == sb[k as int]);
        k = k + 1;
    }
    assert(a@.subrange(a_from as int, a_to as int) =~= b@.subrange(b_from as int, b_to as int));
    true
}

/// Matches a route pattern such as `/users/:id` against a request path,
/// segment by segment. On a match, the parameters that the pattern's `:name`
/// segments captured; otherwise `None`.
pub fn match_pattern(pattern: &str, path: &str) -> (r: Option<Params>)
    ensures
        r is Some <==> pattern_matches(pattern@, path@),
        r matches Some(p) ==> p@ == path_params(pattern@, path@),
{
    let pc = chars_of(pattern);
    let qc = chars_of(path);
    let pb = segment_bounds(&pc);
    let qb = segment_bounds(&qc);
    let ghost ps = split_path(pattern@);
    let ghost qs = split_path(path@);
    if pb.len() != qb.len() {
        return None;
    }
    let mut params = Params::new();
    let mut j: usize = 0;
    while j < pb.len()
        invariant
            pc@ == pattern@,
            qc@ == path@,
            ps == split_path(pattern@),
            qs == split_path(path@),
            pb@.len() == ps.len(),
            qb@.len() == qs.len(),
            pb@.len() == qb@.len(),
            forall|i: int|
                0 <= i < pb@.len() ==> {
                    &&& (#[trigger] pb@[i]).0 <= pb@[i].1 <= pc@.len()
                    &&& pc@.subrange(pb@[i].0 as int, pb@[i].1 as int) == ps[i]
                },
            forall|i: int|
                0 <= i < qb@.len() ==> {
                    &&& (#[trigger] qb@[i]).0 <= qb@[i].1 <= qc@.len()
                    &&& qc@.subrange(qb@[i].0 as int, qb@[i].1 as int) == qs[i]
                },
            j <= pb@.len(),
            params@ == captures(ps, qs, j as nat),
            forall|i: int| 0 <= i < j ==> segment_matches(#[trigger] ps[i], qs[i]),
        decreases pb@.len() - j,
    {
        let (ps_from, ps_to) = pb[j];
        let (qs_from, qs_to) = qb[j];
        let ghost pseg = ps[j as int];
        let ghost qseg = qs[j as int];
        assert(pc@.subrange(ps_from as int, ps_to as int) == pseg);
        assert(qc@.subrange(qs_from as int, qs_to as int) == qseg);
        if ps_from < ps_to && pc[ps_from] == ':' {
            assert(pseg[0] == pc@[ps_from as int]);
            let key = pattern.substring_char(ps_from + 1, ps_to).to_owned();
            let value = path.substring_char(qs_from, qs_to).to_owned();
            assert(key@ =~= pseg.drop_first());
            params.insert(key, value);
        } else {
            assert(!is_param_segment(pseg)) by {
                if pseg.len() > 0 {
                    assert(pseg[0] == pc@[ps_from as int]);
                }
            }
            if !same_chars(&pc, ps_from, ps_to, &qc, qs_from, qs_to) {
                assert(!segment_matches(ps[j as int], qs[j as int]));
                return None;
            }
        }
        j = j + 1;
    }
    Some(params)
}

} // verus!
