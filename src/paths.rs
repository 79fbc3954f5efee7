//! Paths into the render context: splitting a raw identifier into segments,
//! and resolving it against the scope of the enclosing iterations.
use vstd::prelude::*;

use crate::text::{chars_of, decimal, push_char, push_decimal, string_from};

verus! {

/// The values of a sequence of strings.
pub open spec fn seg_views(v: Seq<String>) -> Seq<Seq<char>> {
    v.map_values(|s: String| s@)
}

/// Whether a segment ends in `./`: a relative marker (`./` or `../`).
pub open spec fn is_marker(seg: Seq<char>) -> bool {
    seg.len() >= 2 && seg[seg.len() - 1] == '/' && seg[seg.len() - 2] == '.'
}

pub open spec fn dot_slash() -> Seq<char> {
    seq!['.', '/']
}

pub open spec fn dot_dot_slash() -> Seq<char> {
    seq!['.', '.', '/']
}

// ---------------------------------------------------------------- split

/// One character of `split`: the segments so far, and the segment being read.
pub open spec fn split_step(out: Seq<Seq<char>>, prev: Seq<char>, c: char) -> (
    Seq<Seq<char>>,
    Seq<char>,
) {
    if prev == seq!['.'] && c == '.' {
        (out, prev.push(c))
    } else if (prev == seq!['.'] || prev == seq!['.', '.']) && c == '/' {
        (out.push(prev.push(c)), seq![])
    } else if c == '.' {
        (if prev.len() > 0 { out.push(prev) } else { out }, seq!['.'])
    } else if prev == seq!['.'] {
        (out, seq![c])
    } else {
        (out, prev.push(c))
    }
}

/// The state of `split` after reading all of `s`.
pub open spec fn split_scan(s: Seq<char>) -> (Seq<Seq<char>>, Seq<char>)
    decreases s.len(),
{
    if s.len() == 0 {
        (seq![], seq![])
    } else {
        let (out, prev) = split_scan(s.drop_last());
        split_step(out, prev, s.last())
    }
}

/// The segments of a raw path: `.` separates fields, and a leading `./` or
/// `../` is a segment of its own.
pub open spec fn split_spec(s: Seq<char>) -> Seq<Seq<char>> {
    let (out, prev) = split_scan(s);
    out.push(prev)
}

fn is_single_dot(p: &Vec<char>) -> (r: bool)
    ensures
        r == (p@ == seq!['.']),
{
    let r = p.len() == 1 && p[0] == '.';
    assert(r ==> p@ =~= seq!['.']);
    r
}

fn is_double_dot(p: &Vec<char>) -> (r: bool)
    ensures
        r == (p@ == seq!['.', '.']),
{
    let r = p.len() == 2 && p[0] == '.' && p[1] == '.';
    assert(r ==> p@ =~= seq!['.', '.']);
    r
}

/// Splits a raw path into its segments.
pub fn split(rel: String) -> (r: Vec<String>)
    ensures
        seg_views(r@) == split_spec(rel@),
        r.len() >= 1,
{
    let chars = chars_of(rel.as_str());
    let mut out: Vec<String> = Vec::new();
    let mut prev: Vec<char> = Vec::new();
    let mut i: usize = 0;
    while i < chars.len()
        invariant
            i <= chars.len(),
            chars@ == rel@,
            (seg_views(out@), prev@) == split_scan(chars@.subrange(0, i as int)),
        decreases chars.len() - i,
    {
        let cur = chars[i];
        proof {
            assert(chars@.subrange(0, i + 1).drop_last() =~= chars@.subrange(0, i as int));
        }
        let ghost before = (seg_views(out@), prev@);
        if is_single_dot(&prev) && cur == '.' {
            prev.push(cur);
        } else if (is_single_dot(&prev) || is_double_dot(&prev)) && cur == '/' {
            prev.push(cur);
            let seg = string_from(&prev, 0, prev.len());
            assert(prev@.subrange(0, prev.len() as int) =~= prev@);
            out.push(seg);
            prev = Vec::new();
        } else if cur == '.' {
            if prev.len() > 0 {
                let seg = string_from(&prev, 0, prev.len());
                assert(prev@.subrange(0, prev.len() as int) =~= prev@);
                out.push(seg);
            }
            prev = Vec::new();
            prev.push(cur);
        } else if is_single_dot(&prev) {
            prev = Vec::new();
            prev.push(cur);
        } else {
            prev.push(cur);
        }
        proof {
            let after = split_step(before.0, before.1, cur);
            assert(seg_views(out@) =~= after.0);
            assert(prev@ =~= after.1);
        }
        i += 1;
    }
    assert(chars@.subrange(0, chars.len() as int) =~= rel@);
    let last = string_from(&prev, 0, prev.len());
    assert(prev@.subrange(0, prev.len() as int) =~= prev@);
    out.push(last);
    assert(seg_views(out@) =~= split_spec(rel@));
    out
}

// ---------------------------------------------------------------- relative

/// `s` without its leading run of relative markers.
pub open spec fn drop_markers(s: Seq<Seq<char>>) -> Seq<Seq<char>>
    decreases s.len(),
{
    if s.len() > 0 && is_marker(s[0]) {
        drop_markers(s.drop_first())
    } else {
        s
    }
}

/// Walks from `out` along `parts`: `../` goes up one level (not above the
/// root), anything else goes down into that field.
pub open spec fn walk(out: Seq<Seq<char>>, parts: Seq<Seq<char>>) -> Seq<Seq<char>>
    decreases parts.len(),
{
    if parts.len() == 0 {
        out
    } else {
        let o = walk(out, parts.drop_last());
        if parts.last() == dot_dot_slash() {
            if o.len() > 0 {
                o.drop_last()
            } else {
                o
            }
        } else {
            o.push(parts.last())
        }
    }
}

/// `relative(base, rel)`: with an empty base, `rel` without its leading
/// markers;
/// otherwise one leading `./` or `../` is dropped and the rest walked from
/// `base`.
pub open spec fn relative_spec(base: Seq<Seq<char>>, rel: Seq<Seq<char>>) -> Seq<Seq<char>> {
    if base.len() == 0 {
        drop_markers(rel)
    } else if rel.len() > 0 && (rel[0] == dot_dot_slash() || rel[0] == dot_slash()) {
        walk(base, rel.drop_first())
    } else {
        walk(base, rel)
    }
}

fn ends_in_marker(s: &String) -> (r: bool)
    ensures
        r == is_marker(s@),
{
    let v = chars_of(s.as_str());
    v.len() >= 2 && v[v.len() - 1] == '/' && v[v.len() - 2] == '.'
}

fn is_dot_dot_slash(s: &String) -> (r: bool)
    ensures
        r == (s@ == dot_dot_slash()),
{
    let v = chars_of(s.as_str());
    let r = v.len() == 3 && v[0] == '.' && v[1] == '.' && v[2] == '/';
    assert(r ==> v@ =~= dot_dot_slash());
    r
}

fn is_dot_slash(s: &String) -> (r: bool)
    ensures
        r == (s@ == dot_slash()),
{
    let v = chars_of(s.as_str());
    let r = v.len() == 2 && v[0] == '.' && v[1] == '/';
    assert(r ==> v@ =~= dot_slash());
    r
}

/// Copies a sequence of strings, keeping their values.
pub fn copy_segments(v: &Vec<String>) -> (r: Vec<String>)
    ensures
        r@ == v@,
{
    let mut out: Vec<String> = Vec::new();
    let mut i: usize = 0;
    while i < v.len()
        invariant
            i <= v.len(),
            out@ == v@.subrange(0, i as int),
        decreases v.len() - i,
    {
        out.push(v[i].clone());
        i += 1;
        assert(out@ =~= v@.subrange(0, i as int));
    }
    assert(v@.subrange(0, v.len() as int) =~= v@);
    out
}

/// Resolves a relative path against a base path.
pub fn relative(base: &Vec<String>, rel: Vec<String>) -> (r: Vec<String>)
    ensures
        seg_views(r@) == relative_spec(seg_views(base@), seg_views(rel@)),
{
    let ghost rv = seg_views(rel@);
    if base.len() == 0 {
        let mut i: usize = 0;
        assert(rv.subrange(0, rv.len() as int) =~= rv);
        while i < rel.len() && ends_in_marker(&rel[i])
            invariant
                i <= rel.len(),
                rv == seg_views(rel@),
                rv.len() == rel.len(),
                drop_markers(rv) == drop_markers(rv.subrange(i as int, rv.len() as int)),
            decreases rel.len() - i,
        {
            assert(rv.subrange(i as int, rv.len() as int).drop_first() =~= rv.subrange(i + 1, rv.len() as int));
            i += 1;
        }
        let mut out: Vec<String> = Vec::new();
        let start = i;
        while i < rel.len()
            invariant
                start <= i <= rel.len(),
                out@ == rel@.subrange(start as int, i as int),
            decreases rel.len() - i,
        {
            out.push(rel[i].clone());
            i += 1;
            assert(out@ =~= rel@.subrange(start as int, i as int));
        }
        assert(seg_views(out@) =~= rv.subrange(start as int, rv.len() as int));
        out
    } else {
        let mut out = copy_segments(base);
        let mut i: usize = 0;
        if rel.len() > 0 && (is_dot_dot_slash(&rel[0]) || is_dot_slash(&rel[0])) {
            i = 1;
        }
        let ghost from = i as int;
        let ghost parts = rv.subrange(from, rv.len() as int);
        assert(from == 1 ==> parts =~= rv.drop_first());
        assert(from == 0 ==> parts =~= rv);
        while i < rel.len()
            invariant
                0 <= from <= 1,
                from <= i <= rel.len(),
                rv == seg_views(rel@),
                rv.len() == rel.len(),
                parts.len() == rel.len() - from,
                parts == rv.subrange(from, rv.len() as int),
                seg_views(out@) == walk(seg_views(base@), parts.subrange(0, i - from)),
            decreases rel.len() - i,
        {
            assert(parts.subrange(0, i + 1 - from).drop_last() =~= parts.subrange(0, i - from));
            assert(parts[i - from] == rv[i as int]);
            assert(parts.subrange(0, i + 1 - from).last() == rv[i as int]);
            if is_dot_dot_slash(&rel[i]) {
                if out.len() > 0 {
                    out.pop();
                }
            } else {
                out.push(rel[i].clone());
            }
            assert(seg_views(out@) =~= walk(seg_views(base@), parts.subrange(0, i + 1 - from)));
            i += 1;
        }
        assert(parts.subrange(0, rel.len() - from) =~= parts);
        out
    }
}

// ---------------------------------------------------------------- resolve

/// Where the run of ASCII digits that ends just before `e` begins.
pub open spec fn digit_run_start(s: Seq<char>, e: int) -> int
    decreases e,
{
    if 0 < e <= s.len() && '0' <= s[e - 1] && s[e - 1] <= '9' {
        digit_run_start(s, e - 1)
    } else {
        e
    }
}

/// A segment without its iteration decoration, a trailing `[` digits `]`:
/// `name[3]` is `name`; any other segment stays as it is.
pub open spec fn undecorate(seg: Seq<char>) -> Seq<char> {
    let d = digit_run_start(seg, seg.len() - 1);
    if seg.len() >= 3 && seg.last() == ']' && 1 <= d < seg.len() - 1 && seg[d - 1] == '[' {
        seg.subrange(0, d - 1)
    } else {
        seg
    }
}

/// `base[j..j + l]`, undecorated, equals the first `l` segments of `rel`.
pub open spec fn matches_at(base: Seq<Seq<char>>, rel: Seq<Seq<char>>, j: int, l: int) -> bool {
    &&& 1 <= l <= rel.len()
    &&& 0 <= j
    &&& j + l <= base.len()
    &&& forall|i: int| 0 <= i < l ==> undecorate(#[trigger] base[j + i]) == rel[i]
}

/// Some window of `base` matches a prefix of `rel`.
pub open spec fn has_match(base: Seq<Seq<char>>, rel: Seq<Seq<char>>) -> bool {
    exists|j: int, l: int| matches_at(base, rel, j, l)
}

/// The match that `resolve` takes: the longest, and of those the deepest.
pub open spec fn is_best_match(base: Seq<Seq<char>>, rel: Seq<Seq<char>>, j: int, l: int) -> bool {
    &&& matches_at(base, rel, j, l)
    &&& forall|j2: int, l2: int|
        #[trigger] matches_at(base, rel, j2, l2) ==> l2 < l || (l2 == l && j2 <= j)
}

pub open spec fn best_match(base: Seq<Seq<char>>, rel: Seq<Seq<char>>) -> (int, int) {
    choose|j: int, l: int| is_best_match(base, rel, j, l)
}

/// `resolve(base, rel)`: a path that starts with a marker is relative;
/// otherwise the best window of `base` that matches a prefix of `rel` is
/// continued by the rest of `rel`, and with none `rel` stands as it is.
pub open spec fn resolve_spec(base: Seq<Seq<char>>, rel: Seq<Seq<char>>) -> Seq<Seq<char>> {
    if rel.len() > 0 && is_marker(rel[0]) {
        relative_spec(base, rel)
    } else if has_match(base, rel) {
        let (j, l) = best_match(base, rel);
        base.subrange(0, j + l) + rel.subrange(l, rel.len() as int)
    } else {
        rel
    }
}

/// The segment without its iteration decoration.
fn undecorated(seg: &String) -> (r: Vec<char>)
    ensures
        r@ == undecorate(seg@),
{
    let v = chars_of(seg.as_str());
    if v.len() < 3 || v[v.len() - 1] != ']' {
        return v;
    }
    let mut d = v.len() - 1;
    while d > 0 && '0' <= v[d - 1] && v[d - 1] <= '9'
        invariant
            d <= v.len() - 1,
            v@ == seg@,
            v.len() >= 3,
            digit_run_start(v@, d as int) == digit_run_start(v@, v.len() - 1),
        decreases d,
    {
        d -= 1;
    }
    if 1 <= d && d < v.len() - 1 && v[d - 1] == '[' {
        let mut out: Vec<char> = Vec::new();
        let mut i: usize = 0;
        while i < d - 1
            invariant
                1 <= d <= v.len(),
                i <= d - 1,
                out@ == v@.subrange(0, i as int),
            decreases d - 1 - i,
        {
            out.push(v[i]);
            i += 1;
            assert(out@ =~= v@.subrange(0, i as int));
        }
        out
    } else {
        v
    }
}

fn same_chars(a: &Vec<char>, b: &String) -> (r: bool)
    ensures
        r == (a@ == b@),
{
    let w = chars_of(b.as_str());
    if a.len() != w.len() {
        return false;
    }
    let mut i: usize = 0;
    while i < a.len()
        invariant
            i <= a.len() == w.len(),
            w@ == b@,
            forall|k: int| 0 <= k < i ==> a@[k] == w@[k],
        decreases a.len() - i,
    {
        if a[i] != w[i] {
            return false;
        }
        i += 1;
    }
    assert(a@ =~= w@);
    true
}

/// Whether `base[j..j + l]`, undecorated, equals `rel[..l]`.
fn window_matches(base: &Vec<String>, rel: &Vec<String>, j: usize, l: usize) -> (r: bool)
    requires
        1 <= l <= rel.len(),
        j + l <= base.len(),
    ensures
        r == matches_at(seg_views(base@), seg_views(rel@), j as int, l as int),
{
    let ghost b = seg_views(base@);
    let ghost rv = seg_views(rel@);
    let mut i: usize = 0;
    while i < l
        invariant
            i <= l <= rel.len(),
            j + l <= base.len(),
            b == seg_views(base@),
            rv == seg_views(rel@),
            forall|k: int| 0 <= k < i ==> undecorate(#[trigger] b[j + k]) == rv[k],
        decreases l - i,
    {
        let fixed = undecorated(&base[j + i]);
        if !same_chars(&fixed, &rel[i]) {
            assert(undecorate(b[j + i as int]) != rv[i as int]);
            return false;
        }
        i += 1;
    }
    true
}

/// Resolves a raw split path against the base path of the enclosing scope.
pub fn resolve(base: &Vec<String>, rel: Vec<String>) -> (r: Vec<String>)
    ensures
        seg_views(r@) == resolve_spec(seg_views(base@), seg_views(rel@)),
{
    let ghost b = seg_views(base@);
    let ghost rv = seg_views(rel@);
    if rel.len() > 0 && ends_in_marker(&rel[0]) {
        return relative(base, rel);
    }
    let mut l = rel.len();
    while l >= 1
        invariant
            l <= rel.len(),
            b == seg_views(base@),
            rv == seg_views(rel@),
            b.len() == base.len(),
            rv.len() == rel.len(),
            forall|j2: int, l2: int| l < l2 && #[trigger] matches_at(b, rv, j2, l2) ==> false,
            !(rv.len() > 0 && is_marker(rv[0])),
        decreases l,
    {
        if base.len() >= l {
            let mut j = base.len() - l + 1;
            while j >= 1
                invariant
                    1 <= l <= rel.len(),
                    l <= base.len(),
                    j <= base.len() - l + 1,
                    b == seg_views(base@),
                    rv == seg_views(rel@),
                    b.len() == base.len(),
                    rv.len() == rel.len(),
                    forall|j2: int, l2: int| l < l2 && #[trigger] matches_at(b, rv, j2, l2) ==> false,
                    forall|j2: int| j <= j2 && #[trigger] matches_at(b, rv, j2, l as int) ==> false,
                    !(rv.len() > 0 && is_marker(rv[0])),
                decreases j,
            {
                if window_matches(base, &rel, j - 1, l) {
                    let found_j = j - 1;
                    proof {
                        assert(is_best_match(b, rv, found_j as int, l as int));
                        let (bj, bl) = best_match(b, rv);
                        assert(is_best_match(b, rv, bj, bl));
                        assert(bj == found_j && bl == l);
                    }
                    let ghost target = resolve_spec(b, rv);
                    assert(has_match(b, rv));
                    assert(target == b.subrange(0, found_j + l) + rv.subrange(l as int, rv.len() as int));
                    let mut out: Vec<String> = Vec::new();
                    let mut i: usize = 0;
                    while i < found_j + l
                        invariant
                            i <= found_j + l <= base.len(),
                            out@ == base@.subrange(0, i as int),
                            1 <= l <= rel.len(),
                            b == seg_views(base@),
                            rv == seg_views(rel@),
                            target == resolve_spec(b, rv),
                            target == b.subrange(0, found_j + l) + rv.subrange(l as int, rv.len() as int),
                        decreases found_j + l - i,
                    {
                        out.push(base[i].clone());
                        i += 1;
                        assert(out@ =~= base@.subrange(0, i as int));
                    }
                    let mut k = l;
                    while k < rel.len()
                        invariant
                            l <= k <= rel.len(),
                            found_j + l <= base.len(),
                            b == seg_views(base@),
                            rv == seg_views(rel@),
                            target == resolve_spec(b, rv),
                            target == b.subrange(0, found_j + l) + rv.subrange(l as int, rv.len() as int),
                            out@ == base@.subrange(0, found_j + l) + rel@.subrange(
                                l as int,
                                k as int,
                            ),
                        decreases rel.len() - k,
                    {
                        out.push(rel[k].clone());
                        k += 1;
                        assert(out@ =~= base@.subrange(0, found_j + l) + rel@.subrange(
                            l as int,
                            k as int,
                        ));
                    }
                    assert(seg_views(out@) =~= b.subrange(0, found_j + l) + rv.subrange(
                        l as int,
                        rel.len() as int,
                    ));
                    return out;
                }
                j -= 1;
            }
        } else {
            assert forall|j2: int| #[trigger] matches_at(b, rv, j2, l as int) implies false by {}
        }
        l -= 1;
    }
    assert(!has_match(b, rv));
    rel
}

// ---------------------------------------------------------------- iter_element

/// `base` with its last segment decorated by the iteration suffix:
/// `[a, b]` becomes `[a, b[suffix]]`; an empty base gives `[[suffix]]`.
pub open spec fn iter_element_spec(base: Seq<Seq<char>>, suffix: nat) -> Seq<Seq<char>> {
    let last = if base.len() > 0 { base.last() } else { seq![] };
    let rest = if base.len() > 0 { base.drop_last() } else { base };
    rest.push(last + seq!['['] + decimal(suffix) + seq![']'])
}

/// Decorates the last segment of `base` with the iteration suffix.
pub fn iter_element(base: &Vec<String>, suffix: usize) -> (r: Vec<String>)
    ensures
        seg_views(r@) == iter_element_spec(seg_views(base@), suffix as nat),
{
    let mut new_path = copy_segments(base);
    let ghost b = seg_views(base@);
    let mut last = match new_path.pop() {
        Some(last) => last,
        None => String::new(),
    };
    let ghost last0 = last@;
    proof {
        if base.len() > 0 {
            assert(seg_views(new_path@) =~= b.drop_last());
            assert(last0 == b.last());
        } else {
            assert(seg_views(new_path@) =~= b);
        }
    }
    push_char(&mut last, '[');
    push_decimal(&mut last, suffix);
    push_char(&mut last, ']');
    assert(last@ =~= last0 + seq!['['] + decimal(suffix as nat) + seq![']']);
    new_path.push(last);
    assert(seg_views(new_path@) =~= iter_element_spec(seg_views(base@), suffix as nat));
    new_path
}

} // verus!
