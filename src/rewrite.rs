//! Rewrites the URLs embedded in an HTML document so that they route back
//! through the gateway.
use vstd::prelude::*;

use crate::text::{chars_of, extend_range, has_at, has_at_exec, string_from_chars};

verus! {

pub open spec fn https_prefix() -> Seq<char> {
    seq!['h', 't', 't', 'p', 's', ':', '/', '/']
}

pub open spec fn http_prefix() -> Seq<char> {
    seq!['h', 't', 't', 'p', ':', '/', '/']
}

/// A character that may appear in a host name.
pub open spec fn is_host_char(c: char) -> bool {
    ('a' <= c && c <= 'z') || ('A' <= c && c <= 'Z') || ('0' <= c && c <= '9') || c == '-'
        || c == '.'
}

/// A character that may continue an absolute URL once it has started: anything
/// but white space, control characters, quotes and angle brackets.
pub open spec fn is_url_char(c: char) -> bool {
    (c as u32) > 32 && c != '"' && c != '\'' && c != '<' && c != '>' && c != '`'
}

/// Length of the `http://` or `https://` scheme prefix at `i`, or 0 if none.
pub open spec fn scheme_len(s: Seq<char>, i: int) -> int {
    if has_at(s, i, https_prefix()) {
        8
    } else if has_at(s, i, http_prefix()) {
        7
    } else {
        0
    }
}

/// An absolute HTTP(S) URL starts at `i`: a scheme prefix followed by a host character.
pub open spec fn url_starts_at(s: Seq<char>, i: int) -> bool {
    scheme_len(s, i) > 0 && i + scheme_len(s, i) < s.len() && is_host_char(
        s[i + scheme_len(s, i)],
    )
}

/// Result of the absolute-URL pass on `s[i..]`, where `in_url` says whether
/// position `i` continues a URL that has already been matched. Each URL gets
/// `base` inserted right before it; every other character is copied.
pub open spec fn abs_from(s: Seq<char>, base: Seq<char>, i: int, in_url: bool) -> Seq<char>
    decreases s.len() - i,
{
    if i < 0 || i >= s.len() {
        seq![]
    } else if in_url && is_url_char(s[i]) {
        seq![s[i]] + abs_from(s, base, i + 1, true)
    } else if url_starts_at(s, i) {
        base + s.subrange(i, i + scheme_len(s, i)) + abs_from(s, base, i + scheme_len(s, i), true)
    } else {
        seq![s[i]] + abs_from(s, base, i + 1, false)
    }
}

/// Number of absolute URLs that the pass rewrites in `s[i..]`.
pub open spec fn url_count(s: Seq<char>, i: int, in_url: bool) -> nat
    decreases s.len() - i,
{
    if i < 0 || i >= s.len() {
        0
    } else if in_url && is_url_char(s[i]) {
        url_count(s, i + 1, true)
    } else if url_starts_at(s, i) {
        1 + url_count(s, i + scheme_len(s, i), true)
    } else {
        url_count(s, i + 1, false)
    }
}

proof fn lemma_abs_len(s: Seq<char>, base: Seq<char>, i: int, in_url: bool)
    requires
        0 <= i <= s.len(),
    ensures
        abs_from(s, base, i, in_url).len() == (s.len() - i) + url_count(s, i, in_url) * base.len(),
    decreases s.len() - i,
{
    if i < s.len() {
        if in_url && is_url_char(s[i]) {
            lemma_abs_len(s, base, i + 1, true);
        } else if url_starts_at(s, i) {
            let k = scheme_len(s, i);
            lemma_abs_len(s, base, i + k, true);
            let c = url_count(s, i + k, true);
            let b = base.len();
            assert((1 + c) * b == b + c * b) by (nonlinear_arith);
            assert(url_count(s, i, in_url) == 1 + c);
            assert(s.subrange(i, i + k).len() == k);
        } else {
            lemma_abs_len(s, base, i + 1, false);
        }
    } else {
        assert(url_count(s, i, in_url) == 0);
        assert(0 * base.len() == 0);
    }
}

proof fn lemma_abs_empty_base(s: Seq<char>, i: int, in_url: bool)
    requires
        0 <= i <= s.len(),
    ensures
        abs_from(s, seq![], i, in_url) == s.subrange(i, s.len() as int),
    decreases s.len() - i,
{
    if i == s.len() {
        assert(s.subrange(i, i) =~= seq![]);
    } else if in_url && is_url_char(s[i]) {
        lemma_abs_empty_base(s, i + 1, true);
        assert(seq![s[i]] + s.subrange(i + 1, s.len() as int) =~= s.subrange(i, s.len() as int));
    } else if url_starts_at(s, i) {
        let k = scheme_len(s, i);
        lemma_abs_empty_base(s, i + k, true);
        assert(Seq::<char>::empty() + s.subrange(i, i + k) + s.subrange(i + k, s.len() as int)
            =~= s.subrange(i, s.len() as int));
    } else {
        lemma_abs_empty_base(s, i + 1, false);
        assert(seq![s[i]] + s.subrange(i + 1, s.len() as int) =~= s.subrange(i, s.len() as int));
    }
}

/// The absolute-URL pass only inserts copies of the gateway base, one right
/// before each of the URLs it finds: the result is longer than the document by
/// exactly one base per URL, and with an empty base it is the document itself,
/// so every other character is kept, in order.
pub proof fn lemma_absolute_pass_inserts_base(s: Seq<char>, base: Seq<char>)
    ensures
        abs_from(s, base, 0, false).len() == s.len() + url_count(s, 0, false) * base.len(),
        abs_from(s, seq![], 0, false) == s,
{
    lemma_abs_len(s, base, 0, false);
    lemma_abs_empty_base(s, 0, false);
    assert(s.subrange(0, s.len() as int) =~= s);
}

fn is_host_char_exec(c: char) -> (r: bool)
    ensures
        r == is_host_char(c),
{
    ('a' <= c && c <= 'z') || ('A' <= c && c <= 'Z') || ('0' <= c && c <= '9') || c == '-'
        || c == '.'
}

fn is_url_char_exec(c: char) -> (r: bool)
    ensures
        r == is_url_char(c),
{
    (c as u32) > 32 && c != '"' && c != '\'' && c != '<' && c != '>' && c != '`'
}

fn scheme_len_exec(s: &Vec<char>, i: usize) -> (r: usize)
    ensures
        r as int == scheme_len(s@, i as int),
{
    let https: Vec<char> = vec!['h', 't', 't', 'p', 's', ':', '/', '/'];
    let http: Vec<char> = vec!['h', 't', 't', 'p', ':', '/', '/'];
    assert(https@ =~= https_prefix());
    assert(http@ =~= http_prefix());
    if has_at_exec(s, i, &https) {
        8
    } else if has_at_exec(s, i, &http) {
        7
    } else {
        0
    }
}

/// The absolute-URL pass: inserts `base` before every absolute HTTP(S) URL.
pub fn rewrite_absolute(s: &Vec<char>, base: &Vec<char>) -> (r: Vec<char>)
    ensures
        r@ == abs_from(s@, base@, 0, false),
{
    let mut out: Vec<char> = Vec::new();
    let mut i: usize = 0;
    let mut in_url: bool = false;
    while i < s.len()
        invariant
            i <= s.len(),
            out@ + abs_from(s@, base@, i as int, in_url) == abs_from(s@, base@, 0, false),
        decreases s.len() - i,
    {
        let c = s[i];
        let ghost before = out@;
        if in_url && is_url_char_exec(c) {
            out.push(c);
            i += 1;
            assert(out@ + abs_from(s@, base@, i as int, true) =~= before + abs_from(
                s@,
                base@,
                i - 1,
                true,
            ));
        } else {
            let k = scheme_len_exec(s, i);
            if k > 0 && k < s.len() - i && is_host_char_exec(s[i + k]) {
                extend_range(&mut out, base, 0, base.len());
                extend_range(&mut out, s, i, i + k);
                assert(base@.subrange(0, base@.len() as int) =~= base@);
                let ghost old_i = i as int;
                i += k;
                in_url = true;
                assert(before + abs_from(s@, base@, old_i, false) =~= before + (base@
                    + s@.subrange(old_i, old_i + k) + abs_from(s@, base@, i as int, true)));
                assert(out@ + abs_from(s@, base@, i as int, true) =~= before + abs_from(
                    s@,
                    base@,
                    old_i,
                    false,
                ));
            } else {
                out.push(c);
                i += 1;
                in_url = false;
                assert(out@ + abs_from(s@, base@, i as int, false) =~= before + abs_from(
                    s@,
                    base@,
                    i - 1,
                    false,
                ));
            }
        }
    }
    out
}

/// The attribute names whose root-relative values are rewritten, in the
/// order in which they are tried.
pub struct UrlPatterns {
    pub attributes: Vec<Vec<char>>,
}

impl UrlPatterns {
    pub open spec fn attrs(&self) -> Seq<Seq<char>> {
        self.attributes@.map_values(|a: Vec<char>| a@)
    }
}

/// `src`, `href` and `action`.
pub open spec fn url_attribute_names() -> Seq<Seq<char>> {
    seq![seq!['s', 'r', 'c'], seq!['h', 'r', 'e', 'f'], seq!['a', 'c', 't', 'i', 'o', 'n']]
}

/// Builds the attribute table used by the root-relative pass.
pub fn init_regexes() -> (r: UrlPatterns)
    ensures
        r.attrs() == url_attribute_names(),
{
    let attributes: Vec<Vec<char>> = vec![
        vec!['s', 'r', 'c'],
        vec!['h', 'r', 'e', 'f'],
        vec!['a', 'c', 't', 'i', 'o', 'n'],
    ];
    let r = UrlPatterns { attributes };
    assert(r.attrs() =~= url_attribute_names());
    r
}

/// One of `attrs` ends right before index `k` of `t`.
pub open spec fn attr_before(t: Seq<char>, k: int, attrs: Seq<Seq<char>>) -> bool {
    exists|j: int| 0 <= j < attrs.len() && #[trigger] has_at(t, k - attrs[j].len(), attrs[j])
}

/// Index `i` of `t` holds the leading `/` of a root-relative attribute value:
/// `src="/`, `href="/` or `action="/`, where the value does not start with `//`.
pub open spec fn is_rel_url_at(t: Seq<char>, i: int) -> bool {
    &&& 2 <= i < t.len()
    &&& t[i] == '/'
    &&& !(i + 1 < t.len() && t[i + 1] == '/')
    &&& t[i - 2] == '='
    &&& t[i - 1] == '"'
    &&& attr_before(t, i - 2, url_attribute_names())
}

/// Result of the root-relative pass on `t[i..]`: `ins` goes right before the
/// leading `/` of every root-relative attribute value.
pub open spec fn rel_from(t: Seq<char>, ins: Seq<char>, i: int) -> Seq<char>
    decreases t.len() - i,
{
    if i < 0 || i >= t.len() {
        seq![]
    } else if is_rel_url_at(t, i) {
        ins + seq![t[i]] + rel_from(t, ins, i + 1)
    } else {
        seq![t[i]] + rel_from(t, ins, i + 1)
    }
}

/// Where the authority of `t` starts: after `https://`, `http://` or `//`.
pub open spec fn authority_start(t: Seq<char>) -> int {
    if has_at(t, 0, https_prefix()) {
        8
    } else if has_at(t, 0, http_prefix()) {
        7
    } else if has_at(t, 0, seq!['/', '/']) {
        2
    } else {
        0
    }
}

/// First index at or after `j` that holds `/`, `?` or `#`, or the length of `t`.
pub open spec fn authority_end(t: Seq<char>, j: int) -> int
    decreases t.len() - j,
{
    if 0 <= j < t.len() && t[j] != '/' && t[j] != '?' && t[j] != '#' {
        authority_end(t, j + 1)
    } else {
        j
    }
}

/// The origin of a target URL: its scheme and authority, without any path,
/// query or fragment (`https://example.com/x?y` gives `https://example.com`).
/// A scheme-relative target gives its authority alone.
pub open spec fn origin_of(t: Seq<char>) -> Seq<char> {
    let e = authority_end(t, authority_start(t));
    if authority_start(t) == 2 {
        t.subrange(2, e)
    } else {
        t.subrange(0, e)
    }
}

/// `base` followed by `o`, with exactly one `/` added at the join when `base`
/// does not already end with one.
pub open spec fn join_base(base: Seq<char>, o: Seq<char>) -> Seq<char> {
    if base.len() > 0 && base.last() == '/' {
        base + o
    } else {
        base + seq!['/'] + o
    }
}

/// The whole rewrite: the absolute-URL pass, then the root-relative pass with
/// the gateway base joined to the origin of the target.
pub open spec fn rewritten(html: Seq<char>, target: Seq<char>, base: Seq<char>) -> Seq<char> {
    rel_from(abs_from(html, base, 0, false), join_base(base, origin_of(target)), 0)
}

fn attr_before_exec(t: &Vec<char>, k: usize, pats: &UrlPatterns) -> (r: bool)
    ensures
        r == attr_before(t@, k as int, pats.attrs()),
{
    let attrs = &pats.attributes;
    let mut j: usize = 0;
    while j < attrs.len()
        invariant
            j <= attrs.len(),
            attrs == pats.attributes,
            forall|m: int|
                0 <= m < j ==> !has_at(t@, k - pats.attrs()[m].len(), pats.attrs()[m]),
        decreases attrs.len() - j,
    {
        let a = &attrs[j];
        assert(pats.attrs()[j as int] == a@);
        if a.len() <= k && has_at_exec(t, k - a.len(), a) {
            return true;
        }
        j += 1;
    }
    assert forall|m: int| 0 <= m < pats.attrs().len() implies !#[trigger] has_at(
        t@,
        k - pats.attrs()[m].len(),
        pats.attrs()[m],
    ) by {}
    false
}

fn is_rel_url_at_exec(t: &Vec<char>, i: usize, pats: &UrlPatterns) -> (r: bool)
    requires
        pats.attrs() == url_attribute_names(),
    ensures
        r == is_rel_url_at(t@, i as int),
{
    if i < 2 || i >= t.len() || t[i] != '/' {
        return false;
    }
    if i + 1 < t.len() && t[i + 1] == '/' {
        return false;
    }
    t[i - 2] == '=' && t[i - 1] == '"' && attr_before_exec(t, i - 2, pats)
}

/// The root-relative pass: inserts `ins` before the leading `/` of every
/// root-relative `src`, `href` or `action` value.
pub fn rewrite_relative(t: &Vec<char>, ins: &Vec<char>, pats: &UrlPatterns) -> (r: Vec<char>)
    requires
        pats.attrs() == url_attribute_names(),
    ensures
        r@ == rel_from(t@, ins@, 0),
{
    let mut out: Vec<char> = Vec::new();
    let mut i: usize = 0;
    while i < t.len()
        invariant
            i <= t.len(),
            pats.attrs() == url_attribute_names(),
            out@ + rel_from(t@, ins@, i as int) == rel_from(t@, ins@, 0),
        decreases t.len() - i,
    {
        let ghost before = out@;
        if is_rel_url_at_exec(t, i, pats) {
            extend_range(&mut out, ins, 0, ins.len());
            assert(ins@.subrange(0, ins@.len() as int) =~= ins@);
        }
        out.push(t[i]);
        i += 1;
        assert(out@ + rel_from(t@, ins@, i as int) =~= before + rel_from(t@, ins@, i - 1));
    }
    out
}

/// The origin of `t` (see `origin_of`).
pub fn origin(t: &Vec<char>) -> (r: Vec<char>)
    ensures
        r@ == origin_of(t@),
{
    let https: Vec<char> = vec!['h', 't', 't', 'p', 's', ':', '/', '/'];
    let http: Vec<char> = vec!['h', 't', 't', 'p', ':', '/', '/'];
    let dslash: Vec<char> = vec!['/', '/'];
    assert(https@ =~= https_prefix());
    assert(http@ =~= http_prefix());
    assert(dslash@ =~= seq!['/', '/']);
    let a: usize = if has_at_exec(t, 0, &https) {
        8
    } else if has_at_exec(t, 0, &http) {
        7
    } else if has_at_exec(t, 0, &dslash) {
        2
    } else {
        0
    };
    assert(a == authority_start(t@));
    let mut e: usize = a;
    while e < t.len() && t[e] != '/' && t[e] != '?' && t[e] != '#'
        invariant
            a <= e <= t.len(),
            authority_end(t@, e as int) == authority_end(t@, authority_start(t@)),
        decreases t.len() - e,
    {
        e += 1;
    }
    let start: usize = if a == 2 { 2 } else { 0 };
    let mut r: Vec<char> = Vec::new();
    extend_range(&mut r, t, start, e);
    assert(r@ =~= origin_of(t@));
    r
}

/// `join_base(base, o)`.
pub fn join(base: &Vec<char>, o: &Vec<char>) -> (r: Vec<char>)
    ensures
        r@ == join_base(base@, o@),
{
    let mut r: Vec<char> = Vec::new();
    extend_range(&mut r, base, 0, base.len());
    if !(base.len() > 0 && base[base.len() - 1] == '/') {
        r.push('/');
    }
    extend_range(&mut r, o, 0, o.len());
    assert(r@ =~= join_base(base@, o@));
    r
}

/// Rewrites `html` so that every embedded URL routes through the gateway at
/// `proxy_url_path`: each absolute HTTP(S) URL gets the gateway base in front
/// of it, and each root-relative `src`, `href` or `action` value gets the
/// gateway base joined to the origin of `target_url`. Content that matches
/// neither pattern is copied unchanged.
pub fn rewrite_html_urls(html: String, target_url: &str, proxy_url_path: &str) -> (r: String)
    ensures
        r@ == rewritten(html@, target_url@, proxy_url_path@),
{
    let pats = init_regexes();
    let doc = chars_of(html.as_str());
    let base = chars_of(proxy_url_path);
    let target = chars_of(target_url);
    let absolute = rewrite_absolute(&doc, &base);
    let ins = join(&base, &origin(&target));
    let out = rewrite_relative(&absolute, &ins, &pats);
    string_from_chars(out)
}

proof fn lemma_abs_copies(s: Seq<char>, base: Seq<char>, i: int, e: int, st: bool)
    requires
        0 <= i <= e <= s.len(),
        forall|x: int| i <= x < e ==> !url_starts_at(s, x),
    ensures
        exists|b: bool|
            abs_from(s, base, i, st) == s.subrange(i, e) + #[trigger] abs_from(s, base, e, b),
    decreases e - i,
{
    if i == e {
        assert(abs_from(s, base, i, st) == s.subrange(i, e) + abs_from(s, base, e, st));
    } else {
        let nst = in_url_after(s, i, st);
        lemma_abs_copies(s, base, i + 1, e, nst);
        let b = choose|b: bool|
            abs_from(s, base, i + 1, nst) == s.subrange(i + 1, e) + #[trigger] abs_from(
                s,
                base,
                e,
                b,
            );
        assert(s.subrange(i, e) =~= seq![s[i]] + s.subrange(i + 1, e));
        assert(abs_from(s, base, i, st) == s.subrange(i, e) + abs_from(s, base, e, b));
    }
}

/// The scan state after copying the character at `i` that starts no URL.
spec fn in_url_after(s: Seq<char>, i: int, st: bool) -> bool {
    st && is_url_char(s[i])
}

proof fn lemma_abs_reaches(s: Seq<char>, base: Seq<char>, i: int, st: bool, j: int)
    requires
        0 <= i <= j <= s.len(),
        forall|x: int|
            i <= x < j && #[trigger] url_starts_at(s, x) && !(st && x == i && is_url_char(s[x]))
                ==> x + scheme_len(s, x) <= j,
    ensures
        exists|pre: Seq<char>, b: bool|
            abs_from(s, base, i, st) == #[trigger] (pre + abs_from(s, base, j, b)) && (b ==> (i
                == j && st) || (i < j && is_url_char(s[j - 1]))),
    decreases j - i,
{
    if i == j {
        assert(abs_from(s, base, i, st) == Seq::<char>::empty() + abs_from(s, base, j, st));
    } else if st && is_url_char(s[i]) {
        lemma_abs_reaches(s, base, i + 1, true, j);
        let (pre, b) = choose|pre: Seq<char>, b: bool|
            abs_from(s, base, i + 1, true) == #[trigger] (pre + abs_from(s, base, j, b)) && (b ==> (
                i + 1 == j && true) || (i + 1 < j && is_url_char(s[j - 1])));
        assert(abs_from(s, base, i, st) == (seq![s[i]] + pre) + abs_from(s, base, j, b));
    } else if url_starts_at(s, i) {
        let k = scheme_len(s, i);
        lemma_abs_reaches(s, base, i + k, true, j);
        let (pre, b) = choose|pre: Seq<char>, b: bool|
            abs_from(s, base, i + k, true) == #[trigger] (pre + abs_from(s, base, j, b)) && (b ==> (
                i + k == j && true) || (i + k < j && is_url_char(s[j - 1])));
        if b && i + k == j {
            assert(s.subrange(i, i + k)[k - 1] == '/');
        }
        assert(abs_from(s, base, i, st) == (base + s.subrange(i, i + k) + pre) + abs_from(
            s,
            base,
            j,
            b,
        ));
    } else {
        lemma_abs_reaches(s, base, i + 1, false, j);
        let (pre, b) = choose|pre: Seq<char>, b: bool|
            abs_from(s, base, i + 1, false) == #[trigger] (pre + abs_from(s, base, j, b)) && (b ==> (
                i + 1 == j && false) || (i + 1 < j && is_url_char(s[j - 1])));
        assert(abs_from(s, base, i, st) == (seq![s[i]] + pre) + abs_from(s, base, j, b));
    }
}

proof fn lemma_rel_copies(t: Seq<char>, ins: Seq<char>, i: int, e: int)
    requires
        0 <= i <= e <= t.len(),
        forall|x: int| i <= x < e ==> t[x] != '/',
    ensures
        rel_from(t, ins, i) == t.subrange(i, e) + rel_from(t, ins, e),
    decreases e - i,
{
    if i == e {
        assert(t.subrange(i, e) =~= seq![]);
    } else {
        lemma_rel_copies(t, ins, i + 1, e);
        assert(t.subrange(i, e) =~= seq![t[i]] + t.subrange(i + 1, e));
    }
}

proof fn lemma_rel_reaches(t: Seq<char>, ins: Seq<char>, i: int, j: int)
    requires
        0 <= i <= j <= t.len(),
    ensures
        exists|pre: Seq<char>| rel_from(t, ins, i) == #[trigger] (pre + rel_from(t, ins, j)),
    decreases j - i,
{
    if i == j {
        assert(rel_from(t, ins, i) == Seq::<char>::empty() + rel_from(t, ins, j));
    } else {
        lemma_rel_reaches(t, ins, i + 1, j);
        let pre = choose|pre: Seq<char>| rel_from(t, ins, i + 1) == #[trigger] (pre + rel_from(t, ins, j));
        if is_rel_url_at(t, i) {
            assert(rel_from(t, ins, i) == (ins + seq![t[i]] + pre) + rel_from(t, ins, j));
        } else {
            assert(rel_from(t, ins, i) == (seq![t[i]] + pre) + rel_from(t, ins, j));
        }
    }
}

proof fn lemma_url_start_chars(s: Seq<char>, x: int)
    requires
        url_starts_at(s, x),
    ensures
        0 <= x,
        x + scheme_len(s, x) < s.len(),
        s[x] == 'h' && s[x + 1] == 't' && s[x + 2] == 't' && s[x + 3] == 'p',
        scheme_len(s, x) == 8 ==> s[x + 4] == 's' && s[x + 5] == ':' && s[x + 6] == '/' && s[x
            + 7] == '/',
        scheme_len(s, x) == 7 ==> s[x + 4] == ':' && s[x + 5] == '/' && s[x + 6] == '/',
        scheme_len(s, x) == 7 || scheme_len(s, x) == 8,
{
    if has_at(s, x, https_prefix()) {
        let p = s.subrange(x, x + 8);
        assert(p[0] == 'h' && p[1] == 't' && p[2] == 't' && p[3] == 'p' && p[4] == 's' && p[5]
            == ':' && p[6] == '/' && p[7] == '/');
    } else {
        let p = s.subrange(x, x + 7);
        assert(p[0] == 'h' && p[1] == 't' && p[2] == 't' && p[3] == 'p' && p[4] == ':' && p[5]
            == '/' && p[6] == '/');
    }
}

/// `attr="/`, the opening of a root-relative value of attribute number `a`.
pub open spec fn rel_attr_open(a: int) -> Seq<char> {
    url_attribute_names()[a] + seq!['=', '"', '/']
}

/// `attr="` followed by `ins` and the value's leading `/`.
pub open spec fn rel_attr_rewritten(a: int, ins: Seq<char>) -> Seq<char> {
    url_attribute_names()[a] + seq!['=', '"'] + ins + seq!['/']
}

proof fn lemma_attr_chars(a: int)
    requires
        0 <= a < url_attribute_names().len(),
    ensures
        ({
            let attr = url_attribute_names()[a];
            &&& attr.len() >= 3
            &&& forall|x: int| 0 <= x < attr.len() ==> attr[x] != '/' && attr[x] != '=' && attr[x] != '"'
            &&& forall|x: int| 0 <= x < attr.len() && #[trigger] attr[x] == 'h' ==> x == 0 && attr[1] == 'r'
            &&& attr[0] == 's' || attr[0] == 'h' || attr[0] == 'a'
            &&& attr[1] == 'r' || attr[1] == 'c'
        }),
{
    assert(url_attribute_names()[0] == seq!['s', 'r', 'c']);
    assert(url_attribute_names()[1] == seq!['h', 'r', 'e', 'f']);
    assert(url_attribute_names()[2] == seq!['a', 'c', 't', 'i', 'o', 'n']);
}

/// The absolute-URL pass keeps `attr="/` in one piece, and what follows it
/// does not start with `/`.
proof fn lemma_abs_keeps_attr(html: Seq<char>, base: Seq<char>, a: int, j: int)
    requires
        0 <= a < url_attribute_names().len(),
        has_at(html, j, rel_attr_open(a)),
        !(j + url_attribute_names()[a].len() + 3 < html.len() && html[j
            + url_attribute_names()[a].len() + 3] == '/'),
        !(base.len() > 0 && base[0] == '/'),
    ensures
        exists|pre: Seq<char>, rest: Seq<char>|
            abs_from(html, base, 0, false) == #[trigger] (pre + rel_attr_open(a) + rest) && (rest.len() > 0 ==> rest[0] != '/'),
{
    let attr = url_attribute_names()[a];
    let w = rel_attr_open(a);
    let n = w.len() as int;
    let e = j + n;
    lemma_attr_chars(a);
    assert(html.subrange(j, e) == w);
    assert forall|x: int| j <= x < e implies html[x] == w[x - j] by {
        assert(html.subrange(j, e)[x - j] == html[x]);
    }
    assert forall|x: int| j <= x < e implies !url_starts_at(html, x) by {
        if url_starts_at(html, x) {
            lemma_url_start_chars(html, x);
            assert(w[x - j] == 'h');
            if x - j >= attr.len() {
                assert(w[x - j] == seq!['=', '"', '/'][x - j - attr.len()]);
            } else {
                assert(attr[x - j] == 'h');
                assert(html[x + 1] == attr[1]);
            }
        }
    }
    assert forall|x: int|
        0 <= x < j && #[trigger] url_starts_at(html, x) && !(false && x == 0 && is_url_char(
            html[x],
        )) implies x + scheme_len(html, x) <= j by {
        lemma_url_start_chars(html, x);
        if x + scheme_len(html, x) > j {
            assert(html[j] == attr[0]);
            assert(html[j + 1] == attr[1]);
        }
    }
    lemma_abs_reaches(html, base, 0, false, j);
    let (pre, b) = choose|pre: Seq<char>, b: bool|
        abs_from(html, base, 0, false) == #[trigger] (pre + abs_from(html, base, j, b)) && (b ==> (0
            == j && false) || (0 < j && is_url_char(html[j - 1])));
    lemma_abs_copies(html, base, j, e, b);
    let b2 = choose|b2: bool|
        abs_from(html, base, j, b) == html.subrange(j, e) + #[trigger] abs_from(html, base, e, b2);
    let rest = abs_from(html, base, e, b2);
    assert(abs_from(html, base, 0, false) == pre + w + rest);
    if rest.len() > 0 {
        if b2 && is_url_char(html[e]) {
            assert(rest[0] == html[e]);
        } else if url_starts_at(html, e) {
            lemma_url_start_chars(html, e);
            if base.len() == 0 {
                assert(rest[0] == html.subrange(e, e + scheme_len(html, e))[0]);
            } else {
                assert(rest[0] == base[0]);
            }
        } else {
            assert(rest[0] == html[e]);
        }
    }
}

/// The root-relative pass turns a kept `attr="/` into `attr="` + `ins` + `/`.
proof fn lemma_rel_rewrites_attr(t: Seq<char>, ins: Seq<char>, a: int, pre: Seq<char>, rest: Seq<char>)
    requires
        0 <= a < url_attribute_names().len(),
        t == pre + rel_attr_open(a) + rest,
        rest.len() > 0 ==> rest[0] != '/',
    ensures
        exists|k: int|
            has_at(
                rel_from(t, ins, 0),
                k,
                rel_attr_rewritten(a, ins),
            ),
{
    let attr = url_attribute_names()[a];
    lemma_attr_chars(a);
    let k0 = pre.len() as int;
    let p = k0 + attr.len() + 2;
    assert(t.subrange(k0, k0 + attr.len()) =~= attr);
    assert(has_at(t, p - 2 - url_attribute_names()[a].len(), url_attribute_names()[a]));
    assert(attr_before(t, p - 2, url_attribute_names()));
    assert(t[p] == '/' && t[p - 1] == '"' && t[p - 2] == '=');
    if p + 1 < t.len() {
        assert(t[p + 1] == rest[0]);
    }
    assert(is_rel_url_at(t, p));
    lemma_rel_reaches(t, ins, 0, k0);
    let pre2 = choose|pre2: Seq<char>|
        rel_from(t, ins, 0) == #[trigger] (pre2 + rel_from(t, ins, k0));
    assert forall|x: int| k0 <= x < p implies t[x] != '/' by {
        if x < k0 + attr.len() {
            assert(t[x] == attr[x - k0]);
        }
    }
    lemma_rel_copies(t, ins, k0, p);
    let out = rel_from(t, ins, 0);
    assert(out == pre2 + (t.subrange(k0, p) + (ins + seq![t[p]] + rel_from(t, ins, p + 1))));
    let goal = rel_attr_rewritten(a, ins);
    assert(t.subrange(k0, p) =~= attr + seq!['=', '"']);
    assert(out.subrange(pre2.len() as int, (pre2.len() + goal.len()) as int) =~= goal);
    assert(has_at(out, pre2.len() as int, goal));
}

/// A `src`, `href` or `action` attribute whose quoted value begins with a
/// single `/` comes out of the rewrite as the attribute, the gateway base
/// joined to the origin of the target, and then the value's `/`: `src="/a/b"`
/// becomes `src="<base><origin>/a/b"`. This holds for every base that does not
/// itself start with `/`.
pub proof fn lemma_root_relative_value_rewritten(
    html: Seq<char>,
    target: Seq<char>,
    base: Seq<char>,
    a: int,
    j: int,
)
    requires
        0 <= a < url_attribute_names().len(),
        has_at(html, j, rel_attr_open(a)),
        !(j + url_attribute_names()[a].len() + 3 < html.len() && html[j
            + url_attribute_names()[a].len() + 3] == '/'),
        !(base.len() > 0 && base[0] == '/'),
    ensures
        exists|k: int|
            has_at(
                rewritten(html, target, base),
                k,
                rel_attr_rewritten(a, join_base(base, origin_of(target))),
            ),
{
    lemma_abs_keeps_attr(html, base, a, j);
    let (pre, rest) = choose|pre: Seq<char>, rest: Seq<char>|
        abs_from(html, base, 0, false) == #[trigger] (pre + rel_attr_open(a) + rest) && (rest.len() > 0 ==> rest[0] != '/');
    let t = abs_from(html, base, 0, false);
    let ins = join_base(base, origin_of(target));
    lemma_rel_rewrites_attr(t, ins, a, pre, rest);
    let k = choose|k: int| has_at(rel_from(t, ins, 0), k, rel_attr_rewritten(a, ins));
    assert(rewritten(html, target, base) == rel_from(t, ins, 0));
    assert(has_at(rewritten(html, target, base), k, rel_attr_rewritten(a, ins)));
}

/// The absolute-URL pass puts the gateway base immediately before every URL
/// that does not continue the text before it: if an `http://` or `https://`
/// URL starts at `j` and `j` follows no URL character, the result holds the
/// base followed by that URL's scheme prefix.
pub proof fn lemma_base_before_url(s: Seq<char>, base: Seq<char>, j: int)
    requires
        url_starts_at(s, j),
        j == 0 || !is_url_char(s[j - 1]),
    ensures
        exists|k: int|
            #[trigger] has_at(
                abs_from(s, base, 0, false),
                k,
                base + s.subrange(j, j + scheme_len(s, j)),
            ),
{
    lemma_url_start_chars(s, j);
    assert forall|x: int|
        0 <= x < j && #[trigger] url_starts_at(s, x) && !(false && x == 0 && is_url_char(s[x]))
            implies x + scheme_len(s, x) <= j by {
        lemma_url_start_chars(s, x);
        if x + scheme_len(s, x) > j {
            assert(s[j] == 'h');
        }
    }
    lemma_abs_reaches(s, base, 0, false, j);
    let (pre, b) = choose|pre: Seq<char>, b: bool|
        abs_from(s, base, 0, false) == #[trigger] (pre + abs_from(s, base, j, b)) && (b ==> (0 == j
            && false) || (0 < j && is_url_char(s[j - 1])));
    assert(!b);
    let k = scheme_len(s, j);
    let w = base + s.subrange(j, j + k);
    let out = abs_from(s, base, 0, false);
    assert(out == pre + (w + abs_from(s, base, j + k, true)));
    assert(out.subrange(pre.len() as int, (pre.len() + w.len()) as int) =~= w);
    assert(has_at(out, pre.len() as int, w));
}

} // verus!
