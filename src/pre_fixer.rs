//! The pre-fixer: rewrites of legacy constructs before lexing.
use vstd::prelude::*;

use crate::text::{chars_of, push_all, push_str, string_from};

verus! {

// ================================================================ legacy loops

/// `<!-- BEGIN `
pub open spec fn begin_mark() -> Seq<char> {
    seq!['<', '!', '-', '-', ' ', 'B', 'E', 'G', 'I', 'N', ' ']
}

/// `<!-- END `
pub open spec fn end_mark() -> Seq<char> {
    seq!['<', '!', '-', '-', ' ', 'E', 'N', 'D', ' ']
}

/// ` -->`
pub open spec fn arrow() -> Seq<char> {
    seq![' ', '-', '-', '>']
}

/// A character that may continue the subject of a legacy loop.
pub open spec fn is_subject_char(c: char) -> bool {
    ('a' <= c && c <= 'z') || ('A' <= c && c <= 'Z') || ('0' <= c && c <= '9') || c == '@' || c
        == '/' || c == '.' || c == '-' || c == '_' || c == ':'
}

/// `t` stands in `s` at `i`.
pub open spec fn stands_at(s: Seq<char>, i: int, t: Seq<char>) -> bool {
    0 <= i && i + t.len() <= s.len() && s.subrange(i, i + t.len()) == t
}

/// The end of the run of subject characters from `i`.
pub open spec fn subject_run_end(s: Seq<char>, i: int) -> int
    decreases s.len() - i,
{
    if 0 <= i < s.len() && is_subject_char(s[i]) {
        subject_run_end(s, i + 1)
    } else {
        i
    }
}

/// The closer `<!-- END subject -->` stands at `q`.
pub open spec fn close_at(s: Seq<char>, q: int, subject: Seq<char>) -> bool {
    stands_at(s, q, end_mark() + subject + arrow())
}

/// The first position from `q` on where the closer of `subject` stands.
pub open spec fn first_close(s: Seq<char>, q: int, subject: Seq<char>) -> Option<int>
    decreases s.len() + 1 - q,
{
    if q < 0 || q > s.len() {
        None
    } else if close_at(s, q, subject) {
        Some(q)
    } else {
        first_close(s, q + 1, subject)
    }
}

/// A legacy loop `<!-- BEGIN subject -->body<!-- END subject -->` that starts
/// at `p`: the end of its subject and where its closer stands.  The subject
/// is a character other than `.` and `/` followed by subject characters; the
/// first closer with the same subject ends the loop.
pub open spec fn loop_at(s: Seq<char>, p: int) -> Option<(int, int)> {
    if stands_at(s, p, begin_mark()) && p + 11 < s.len() && s[p + 11] != '.' && s[p + 11] != '/' {
        let r = subject_run_end(s, p + 12);
        let subject = s.subrange(p + 11, r);
        if p + 12 < r && stands_at(s, r, arrow()) {
            match first_close(s, r + 4, subject) {
                Some(q) => if r + 4 <= q && close_at(s, q, subject) {
                    Some((r, q))
                } else {
                    None
                },
                None => None,
            }
        } else {
            None
        }
    } else {
        None
    }
}

/// The leftmost start, from `from` on, of a legacy loop.
pub open spec fn find_loop(s: Seq<char>, from: int) -> Option<int>
    decreases s.len() - from,
{
    if from < 0 || from >= s.len() {
        None
    } else if loop_at(s, from) is Some {
        Some(from)
    } else {
        find_loop(s, from + 1)
    }
}

/// `s[from..]` with every legacy loop, leftmost first and without overlap,
/// replaced by `loop_replacement` of its subject and its body (itself
/// rewritten as a nested loop).
pub open spec fn loops_fixed_from(s: Seq<char>, from: int, outermost: bool) -> Seq<char>
    decreases s.len(), s.len() - from,
{
    if from < 0 || from > s.len() {
        seq![]
    } else {
        match find_loop(s, from) {
            Some(p) => match loop_at(s, p) {
                Some((r, q)) => {
                    let subject = s.subrange(p + 11, r);
                    let after = q + end_mark().len() + subject.len() + arrow().len();
                    if from <= p && p + 11 < r && r + 4 <= q && after <= s.len() {
                        s.subrange(from, p) + loop_replacement(
                            subject,
                            loops_fixed_from(s.subrange(r + 4, q), 0, false),
                            outermost,
                        ) + loops_fixed_from(s, after, outermost)
                    } else {
                        s.subrange(from, s.len() as int)
                    }
                },
                None => s.subrange(from, s.len() as int),
            },
            None => s.subrange(from, s.len() as int),
        }
    }
}

/// `s` with every legacy loop rewritten.
pub open spec fn loops_fixed(s: Seq<char>, outermost: bool) -> Seq<char> {
    loops_fixed_from(s, 0, outermost)
}

/// A loop found from `from` on starts there or later.
proof fn lemma_find_loop_bounds(s: Seq<char>, from: int)
    requires
        0 <= from,
    ensures
        find_loop(s, from) matches Some(p) ==> from <= p < s.len(),
    decreases s.len() - from,
{
    if 0 <= from < s.len() && !(loop_at(s, from) is Some) {
        lemma_find_loop_bounds(s, from + 1);
    }
}

/// The replacement of a legacy loop `<!-- BEGIN subject -->body<!-- END
/// subject -->` whose body is already rewritten: the outermost loop stays
/// as it is; a nested one first tries the relative path `../subject` and
/// falls back to `subject`, each around the same body.
pub open spec fn loop_replacement(subject: Seq<char>, body: Seq<char>, outermost: bool) -> Seq<char> {
    if outermost {
        "<!-- BEGIN "@ + subject + " -->"@ + body + "<!-- END "@ + subject + " -->"@
    } else {
        "<!-- IF ../"@ + subject + " --><!-- BEGIN ../"@ + subject + " -->"@ + body
            + "<!-- END ../"@ + subject + " --><!-- ELSE --><!-- BEGIN "@ + subject + " -->"@
            + body + "<!-- END "@ + subject + " --><!-- ENDIF ../"@ + subject + " -->"@
    }
}

/// Whether the characters `t` stand in `s` at `i`.
fn stands_at_exec(s: &Vec<char>, i: usize, t: &[char]) -> (r: bool)
    ensures
        r == stands_at(s@, i as int, t@),
{
    if i > s.len() || t.len() > s.len() - i {
        return false;
    }
    let mut k: usize = 0;
    while k < t.len()
        invariant
            i + t.len() <= s.len(),
            k <= t.len(),
            forall|j: int| 0 <= j < k ==> s@[i + j] == t@[j],
        decreases t.len() - k,
    {
        if s[i + k] != t[k] {
            return false;
        }
        k += 1;
    }
    assert(s@.subrange(i as int, i + t@.len()) =~= t@);
    true
}

fn is_subject_char_exec(c: char) -> (r: bool)
    ensures
        r == is_subject_char(c),
{
    ('a' <= c && c <= 'z') || ('A' <= c && c <= 'Z') || ('0' <= c && c <= '9') || c == '@' || c
        == '/' || c == '.' || c == '-' || c == '_' || c == ':'
}

/// The closer `<!-- END subject -->` of the subject `s[a..b]`.
fn closer_of(s: &Vec<char>, a: usize, b: usize) -> (r: Vec<char>)
    requires
        a <= b <= s.len(),
    ensures
        r@ == end_mark() + s@.subrange(a as int, b as int) + arrow(),
{
    let mut out: Vec<char> = Vec::new();
    let end: &[char] = &['<', '!', '-', '-', ' ', 'E', 'N', 'D', ' '];
    let arrow_chars: &[char] = &[' ', '-', '-', '>'];
    assert(end@ =~= end_mark());
    assert(arrow_chars@ =~= arrow());
    let mut i: usize = 0;
    while i < end.len()
        invariant
            i <= end.len(),
            out@ == end@.subrange(0, i as int),
        decreases end.len() - i,
    {
        out.push(end[i]);
        i += 1;
        assert(out@ =~= end@.subrange(0, i as int));
    }
    let mut j = a;
    while j < b
        invariant
            a <= j <= b <= s.len(),
            out@ == end_mark() + s@.subrange(a as int, j as int),
        decreases b - j,
    {
        out.push(s[j]);
        j += 1;
        assert(out@ =~= end_mark() + s@.subrange(a as int, j as int));
    }
    let mut k: usize = 0;
    while k < arrow_chars.len()
        invariant
            k <= arrow_chars.len(),
            arrow_chars@ == arrow(),
            out@ == end_mark() + s@.subrange(a as int, b as int) + arrow_chars@.subrange(0, k as int),
        decreases arrow_chars.len() - k,
    {
        out.push(arrow_chars[k]);
        k += 1;
        assert(out@ =~= end_mark() + s@.subrange(a as int, b as int) + arrow_chars@.subrange(0, k as int));
    }
    assert(arrow_chars@.subrange(0, 4) =~= arrow());
    out
}

/// No closer fits from `q` on.
proof fn lemma_no_close(s: Seq<char>, q: int, subject: Seq<char>)
    requires
        q + 13 + subject.len() > s.len(),
    ensures
        first_close(s, q, subject) is None,
    decreases s.len() + 1 - q,
{
    if 0 <= q <= s.len() {
        lemma_no_close(s, q + 1, subject);
    }
}

/// The legacy loop that starts at `p`, if any.
fn loop_at_exec(s: &Vec<char>, p: usize) -> (r: Option<(usize, usize)>)
    ensures
        match r {
            Some((rr, q)) => loop_at(s@, p as int) == Some((rr as int, q as int)),
            None => loop_at(s@, p as int) is None,
        },
{
    let begin: &[char] = &['<', '!', '-', '-', ' ', 'B', 'E', 'G', 'I', 'N', ' '];
    let arrow_chars: &[char] = &[' ', '-', '-', '>'];
    assert(begin@ =~= begin_mark());
    assert(arrow_chars@ =~= arrow());
    assert(begin_mark().len() == 11 && arrow().len() == 4);
    if !(p < s.len() && s.len() - p > 11 && stands_at_exec(s, p, begin) && s[p + 11] != '.' && s[p + 11] != '/') {
        return None;
    }
    let mut r = p + 12;
    while r < s.len() && is_subject_char_exec(s[r])
        invariant
            p + 12 <= r <= s.len(),
            subject_run_end(s@, r as int) == subject_run_end(s@, p + 12),
        decreases s.len() - r,
    {
        r += 1;
    }
    if !(p + 12 < r && stands_at_exec(s, r, arrow_chars)) {
        return None;
    }
    let ghost subject = s@.subrange(p + 11, r as int);
    let closer = closer_of(s, p + 11, r);
    assert(closer@.len() == 13 + subject.len());
    assert(subject_run_end(s@, r as int) == r);
    let mut q = r + 4;
    while q <= s.len() && closer.len() <= s.len() - q
        invariant
            r + 4 <= q,
            r + 4 <= s.len(),
            p + 12 < r,
            subject == s@.subrange(p + 11, r as int),
            closer@ == end_mark() + subject + arrow(),
            subject_run_end(s@, p + 12) == r,
            stands_at(s@, p as int, begin_mark()),
            p + 11 < s.len(),
            s@[p + 11] != '.' && s@[p + 11] != '/',
            stands_at(s@, r as int, arrow()),
            first_close(s@, q as int, subject) == first_close(s@, r + 4, subject),
        decreases s.len() + 1 - q,
    {
        let cs = closer.as_slice();
        assert(cs@ == closer@);
        if stands_at_exec(s, q, cs) {
            assert(close_at(s@, q as int, subject));
            assert(first_close(s@, q as int, subject) == Some(q as int));
            assert(loop_at(s@, p as int) == Some((r as int, q as int)));
            return Some((r, q));
        }
        q += 1;
    }
    proof {
        lemma_no_close(s@, q as int, subject);
    }
    None
}

/// The leftmost start, from `from` on, of a legacy loop, with the end of its
/// subject and the position of its closer.
fn find_loop_exec(s: &Vec<char>, from: usize) -> (r: Option<(usize, usize, usize)>)
    ensures
        match r {
            Some((p, rr, q)) => find_loop(s@, from as int) == Some(p as int) && loop_at(s@, p as int)
                == Some((rr as int, q as int)),
            None => find_loop(s@, from as int) is None,
        },
{
    let mut p = from;
    while p < s.len()
        invariant
            from <= p,
            find_loop(s@, p as int) == find_loop(s@, from as int),
        decreases s.len() - p,
    {
        match loop_at_exec(s, p) {
            Some((r, q)) => {
                return Some((p, r, q));
            },
            None => {},
        }
        p += 1;
    }
    None
}

/// The characters `v[a..b]`.
fn sub_chars(v: &Vec<char>, a: usize, b: usize) -> (r: Vec<char>)
    requires
        a <= b <= v.len(),
    ensures
        r@ == v@.subrange(a as int, b as int),
{
    let mut out: Vec<char> = Vec::new();
    let mut i = a;
    while i < b
        invariant
            a <= i <= b <= v.len(),
            out@ == v@.subrange(a as int, i as int),
        decreases b - i,
    {
        out.push(v[i]);
        i += 1;
        assert(out@ =~= v@.subrange(a as int, i as int));
    }
    out
}

/// Rewrites every legacy loop of `s`, its bodies as nested loops.
#[verifier::rlimit(50)]
fn fix_loops(s: &Vec<char>, first: bool) -> (r: String)
    ensures
        r@ == loops_fixed(s@, first),
    decreases s.len(),
{
    let ghost goal = loops_fixed_from(s@, 0, first);
    let mut out = String::new();
    let mut from: usize = 0;
    loop
        invariant
            from <= s.len(),
            goal == loops_fixed_from(s@, 0, first),
            goal == out@ + loops_fixed_from(s@, from as int, first),
        decreases s.len() - from,
    {
        proof {
            lemma_find_loop_bounds(s@, from as int);
        }
        match find_loop_exec(s, from) {
            Some((p, r, q)) => {
                let after = q + 13 + (r - p - 11);
                let ghost before = out@;
                let ghost subject = s@.subrange(p + 11, r as int);
                let ghost body = s@.subrange(r + 4, q as int);
                proof {
                    assert(end_mark().len() == 9 && arrow().len() == 4);
                    assert(close_at(s@, q as int, subject));
                    assert(after as int == q + end_mark().len() + subject.len() + arrow().len());
                    assert(loops_fixed_from(s@, from as int, first) == s@.subrange(from as int, p as int)
                        + loop_replacement(subject, loops_fixed_from(body, 0, false), first)
                        + loops_fixed_from(s@, after as int, first));
                }
                push_all(&mut out, &string_from(s, from, p));
                let subject_text = string_from(s, p + 11, r);
                let inner = fix_loops(&sub_chars(s, r + 4, q), false);
                push_all(&mut out, &rewrite_legacy_loop(&subject_text, &inner, first));
                assert(out@ + loops_fixed_from(s@, after as int, first) =~= before
                    + loops_fixed_from(s@, from as int, first));
                from = after;
            },
            None => {
                push_all(&mut out, &string_from(s, from, s.len()));
                return out;
            },
        }
    }
}

/// The replacement of one legacy loop, from its subject and its body as
/// already rewritten.
pub fn rewrite_legacy_loop(subject: &String, inner: &String, first: bool) -> (r: String)
    ensures
        r@ == loop_replacement(subject@, inner@, first),
{
    let mut out = String::new();
    if first {
        push_str(&mut out, "<!-- BEGIN ");
        push_all(&mut out, subject);
        push_str(&mut out, " -->");
        push_all(&mut out, inner);
        push_str(&mut out, "<!-- END ");
        push_all(&mut out, subject);
        push_str(&mut out, " -->");
    } else {
        push_str(&mut out, "<!-- IF ../");
        push_all(&mut out, subject);
        push_str(&mut out, " --><!-- BEGIN ../");
        push_all(&mut out, subject);
        push_str(&mut out, " -->");
        push_all(&mut out, inner);
        push_str(&mut out, "<!-- END ../");
        push_all(&mut out, subject);
        push_str(&mut out, " --><!-- ELSE --><!-- BEGIN ");
        push_all(&mut out, subject);
        push_str(&mut out, " -->");
        push_all(&mut out, inner);
        push_str(&mut out, "<!-- END ");
        push_all(&mut out, subject);
        push_str(&mut out, " --><!-- ENDIF ../");
        push_all(&mut out, subject);
        push_str(&mut out, " -->");
    }
    out
}

// ================================================================ legacy tokens

/// The replacement of a match of the legacy token pattern: a legacy `IF`
/// helper gets `@root` as its first argument, a bare legacy helper call in
/// braces gets `@value`, a lone `@key`, `@value` or `@index` is put in
/// braces, and any other token stays as it is.
pub open spec fn token_replacement(
    if_name: Option<Seq<char>>,
    if_args: Seq<char>,
    loop_name: Option<Seq<char>>,
    lone: Option<Seq<char>>,
    whole: Seq<char>,
) -> Seq<char> {
    match if_name {
        Some(n) => if if_args.len() == 0 {
            "<!-- IF function."@ + n + ", @root -->"@
        } else {
            "<!-- IF function."@ + n + ", @root, "@ + if_args + " -->"@
        },
        None => match loop_name {
            Some(n) => "{function."@ + n + ", @value}"@,
            None => match lone {
                Some(l) => "{"@ + l + "}"@,
                None => whole,
            },
        },
    }
}

pub open spec fn opt_view(o: Option<String>) -> Option<Seq<char>> {
    match o {
        Some(s) => Some(s@),
        None => None,
    }
}

/// The replacement of one match of the legacy token pattern, from its
/// captures.
pub fn legacy_token_replacement(
    if_name: Option<String>,
    if_args: String,
    loop_name: Option<String>,
    lone: Option<String>,
    whole: String,
) -> (r: String)
    ensures
        r@ == token_replacement(opt_view(if_name), if_args@, opt_view(loop_name), opt_view(lone), whole@),
{
    let mut out = String::new();
    match if_name {
        Some(name) => {
            push_str(&mut out, "<!-- IF function.");
            push_all(&mut out, &name);
            if if_args.as_str().unicode_len() == 0 {
                push_str(&mut out, ", @root -->");
            } else {
                push_str(&mut out, ", @root, ");
                push_all(&mut out, &if_args);
                push_str(&mut out, " -->");
            }
            out
        },
        None => match loop_name {
            Some(name) => {
                push_str(&mut out, "{function.");
                push_all(&mut out, &name);
                push_str(&mut out, ", @value}");
                out
            },
            None => match lone {
                Some(token) => {
                    push_str(&mut out, "{");
                    push_all(&mut out, &token);
                    push_str(&mut out, "}");
                    out
                },
                None => whole,
            },
        },
    }
}

/// What `regex::Regex::replace_all` gives for `pattern` over `s`, each match
/// replaced by `legacy_token_replacement` of its captures; `s` itself when
/// `pattern` does not compile.
pub uninterp spec fn tokens_replaced(pattern: Seq<char>, s: Seq<char>) -> Seq<char>;

/// The pattern of the constructs that the token pass rewrites, leftmost
/// first: a legacy `IF` helper, a bare legacy helper call in braces, or any
/// token in braces or a comment (passed over as it is), or a lone `@key`,
/// `@value` or `@index`.
pub open spec fn token_pattern_spec() -> Seq<char> {
    TOKEN_PATTERN@
}

pub const TOKEN_PATTERN: &'static str = r"(?x)
    (?P<if_helpers>
        <!--\x20IF\x20(
            ?:function\.
            (?P<if_helpers_name>[@a-zA-Z0-9/._:]+)
            (?:\s*,\s*)?
            (?P<if_helpers_args>.*?)
        )\x20-->
    )
    |
    (?P<loop_helpers>
        \{function\.(?P<loop_helpers_name>[^}\n\x20,]+)\}
    )
    |
    (?P<outside_tokens>
        (?:\{{1,2}[^}]+\}{1,2})|(?:<!--[^>]+-->)|
        (?P<outside_tokens_lone>@key|@value|@index)
    )
";

/// Relies on `regex::Regex::new` and `regex::Regex::replace_all`: every
/// non-overlapping match of `pattern`, from left to right, is replaced by
/// `legacy_token_replacement` of its named captures; a pattern that does not
/// compile leaves the input as it is.
#[verifier::external_body]
fn replace_tokens(pattern: &str, input: &str) -> (r: String)
    ensures
        r@ == tokens_replaced(pattern@, input@),
{
    match regex::Regex::new(pattern) {
        Ok(re) => re.replace_all(input, |caps: &regex::Captures| legacy_token_replacement(
            caps.name("if_helpers_name").map(|m| m.as_str().to_string()),
            caps.name("if_helpers_args").map_or(String::new(), |m| m.as_str().to_string()),
            caps.name("loop_helpers_name").map(|m| m.as_str().to_string()),
            caps.name("outside_tokens_lone").map(|m| m.as_str().to_string()),
            caps[0].to_string(),
        )).into_owned(),
        Err(_) => input.to_string(),
    }
}

/// The template after the pre-fixer.
pub open spec fn pre_fix_spec(s: Seq<char>) -> Seq<char> {
    tokens_replaced(token_pattern_spec(), loops_fixed(s, true))
}

/// Rewrites the legacy constructs of a template: nested legacy loops first,
/// then legacy helpers and lone context tokens.
pub fn pre_fix(input: &str) -> (r: String)
    ensures
        r@ == pre_fix_spec(input@),
{
    let chars = chars_of(input);
    let loops_done = fix_loops(&chars, true);
    replace_tokens(TOKEN_PATTERN, loops_done.as_str())
}

} // verus!
