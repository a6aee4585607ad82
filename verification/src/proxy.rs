//! Route matching and request rewriting.
//!
//! A `ProxyRoute` is a compiled route: it matches a method and path under
//! the pattern semantics below and yields the rewritten upstream URL. The
//! `plan` module builds the complete rewrite plan (URL, headers, injected
//! credential) from a route table; sending the request is left to the
//! transport outside the library.

use vstd::prelude::*;

use crate::config::HeaderPair;
use crate::text::{
    find_char, join_str, lemma_split_at_first, lemma_split_join, lemma_split_len,
    lemma_split_parts_free, lemma_split_whole, opt_view, spec_is_alnum, spec_join, spec_lower,
    spec_split, split_str, str_eq, str_eq_ignore_ascii_case, views_of,
};

verus! {

// --- pattern matching ------------------------------------------------------

/// Is `pattern` a wildcard pattern (ending in `/*`)?
pub open spec fn spec_is_wildcard(pattern: Seq<char>) -> bool {
    pattern.len() >= 2 && pattern[pattern.len() - 2] == '/' && pattern[pattern.len() - 1] == '*'
}

/// Is `pattern` an inclusive-prefix pattern (ending in `/`)?
pub open spec fn spec_is_slash_terminated(pattern: Seq<char>) -> bool {
    pattern.len() >= 1 && pattern[pattern.len() - 1] == '/'
}

/// Does `p` occur as a prefix of `s`?
pub open spec fn spec_starts_with(s: Seq<char>, p: Seq<char>) -> bool {
    p.len() <= s.len() && s.subrange(0, p.len() as int) == p
}

/// The pattern semantics of route matching.
///
/// - A pattern `prefix/*` matches `prefix` itself and everything under
///   `prefix/`.
/// - A pattern ending in `/` matches its base (without the slash), itself,
///   and everything it prefixes.
/// - Any other pattern matches itself and everything under `pattern/`.
pub open spec fn spec_path_matches(pattern: Seq<char>, path: Seq<char>) -> bool {
    if spec_is_wildcard(pattern) {
        let prefix = pattern.subrange(0, pattern.len() - 2);
        path == prefix || spec_starts_with(path, prefix + seq!['/'])
    } else if spec_is_slash_terminated(pattern) {
        let base = pattern.subrange(0, pattern.len() - 1);
        path == base || path == pattern || spec_starts_with(path, pattern)
    } else {
        path == pattern || spec_starts_with(path, pattern + seq!['/'])
    }
}

/// Is `method` allowed by `methods` (empty allows everything; comparison
/// is ASCII-case-insensitive)?
pub open spec fn spec_method_allowed(methods: Seq<String>, method: Seq<char>) -> bool {
    methods.len() == 0 || exists|i: int|
        0 <= i < methods.len() && spec_lower((#[trigger] methods[i])@) == spec_lower(method)
}

/// Whether a route matches a request: its method set allows the method and
/// its pattern matches the path.
pub open spec fn spec_route_matches(rt: ProxyRoute, path: Seq<char>, method: Seq<char>) -> bool {
    spec_method_allowed(rt.methods@, method) && spec_path_matches(rt.path_pattern@, path)
}

// --- helpers over string slices ---------------------------------------------

/// Does `s` start with `p` followed by `c`?
fn starts_with_then(s: &str, p_whole: &str, p_end: usize, c: char) -> (r: bool)
    requires
        p_end <= p_whole@.len(),
    ensures
        r == spec_starts_with(s@, p_whole@.subrange(0, p_end as int) + seq![c]),
    decreases 0int,
{
    let n = s.unicode_len();
    if p_end >= n {
        return false;
    }
    let mut i: usize = 0;
    while i < p_end
        invariant
            i <= p_end,
            p_end < n,
            n == s@.len(),
            p_end <= p_whole@.len(),
            forall|j: int| 0 <= j < i ==> s@[j] == p_whole@[j],
        decreases p_end - i,
    {
        if s.get_char(i) != p_whole.get_char(i) {
            assert(s@.subrange(0, p_end as int + 1)[i as int] != (p_whole@.subrange(
                0,
                p_end as int,
            ) + seq![c])[i as int]);
            return false;
        }
        i = i + 1;
    }
    if s.get_char(p_end) != c {
        assert(s@.subrange(0, p_end as int + 1)[p_end as int] != (p_whole@.subrange(
            0,
            p_end as int,
        ) + seq![c])[p_end as int]);
        return false;
    }
    proof {
        assert(s@.subrange(0, p_end as int + 1) =~= p_whole@.subrange(0, p_end as int) + seq![c]);
    }
    true
}

/// Does `s` equal the first `p_end` characters of `p_whole`?
fn eq_prefix(s: &str, p_whole: &str, p_end: usize) -> (r: bool)
    requires
        p_end <= p_whole@.len(),
    ensures
        r == (s@ == p_whole@.subrange(0, p_end as int)),
{
    let n = s.unicode_len();
    if n != p_end {
        return false;
    }
    let mut i: usize = 0;
    while i < p_end
        invariant
            i <= p_end,
            n == s@.len(),
            n == p_end,
            p_end <= p_whole@.len(),
            forall|j: int| 0 <= j < i ==> s@[j] == p_whole@[j],
        decreases p_end - i,
    {
        if s.get_char(i) != p_whole.get_char(i) {
            assert(s@[i as int] != p_whole@.subrange(0, p_end as int)[i as int]);
            return false;
        }
        i = i + 1;
    }
    proof {
        assert(s@ =~= p_whole@.subrange(0, p_end as int));
    }
    true
}

/// Does `p_whole`'s prefix of length `p_end` occur as a prefix of `s`?
fn starts_with_prefix(s: &str, p_whole: &str, p_end: usize) -> (r: bool)
    requires
        p_end <= p_whole@.len(),
    ensures
        r == spec_starts_with(s@, p_whole@.subrange(0, p_end as int)),
{
    let n = s.unicode_len();
    if p_end > n {
        return false;
    }
    let mut i: usize = 0;
    while i < p_end
        invariant
            i <= p_end,
            p_end <= n,
            n == s@.len(),
            p_end <= p_whole@.len(),
            forall|j: int| 0 <= j < i ==> s@[j] == p_whole@[j],
        decreases p_end - i,
    {
        if s.get_char(i) != p_whole.get_char(i) {
            assert(s@.subrange(0, p_end as int)[i as int] != p_whole@.subrange(
                0,
                p_end as int,
            )[i as int]);
            return false;
        }
        i = i + 1;
    }
    proof {
        assert(s@.subrange(0, p_end as int) =~= p_whole@.subrange(0, p_end as int));
    }
    true
}

// --- the compiled route ------------------------------------------------------

/// A compiled route: the matching predicate plus the rewrite policy. The
/// bound key pool is carried by name; the engine resolves it in its
/// selector table.
pub struct ProxyRoute {
    /// Route name (optional).
    pub name: Option<String>,
    /// Path pattern.
    pub path_pattern: String,
    /// Target URL.
    pub target: String,
    /// Whether the matched prefix is removed from the forwarded path.
    pub strip_prefix: bool,
    /// Methods to match (empty = all).
    pub methods: Vec<String>,
    /// Name of the key pool bound to this route.
    pub api_key_pool: Option<String>,
    /// Static headers upserted onto forwarded requests.
    pub headers: Vec<HeaderPair>,
    /// Route description.
    pub description: Option<String>,
}

impl ProxyRoute {
    /// Check whether this route matches the given path and method.
    pub fn matches(&self, path: &str, method: &str) -> (r: bool)
        ensures
            r == spec_route_matches(*self, path@, method@),
    {
        if self.methods.len() > 0 {
            let mut found = false;
            let mut i: usize = 0;
            while i < self.methods.len()
                invariant
                    i <= self.methods@.len(),
                    found == exists|j: int|
                        0 <= j < i && spec_lower((#[trigger] self.methods@[j])@) == spec_lower(
                            method@,
                        ),
                decreases self.methods@.len() - i,
            {
                if str_eq_ignore_ascii_case(self.methods[i].as_str(), method) {
                    found = true;
                }
                i = i + 1;
            }
            if !found {
                return false;
            }
        }
        self.path_matches(path)
    }

    /// Check whether the path matches the pattern (see `spec_path_matches`).
    pub fn path_matches(&self, path: &str) -> (r: bool)
        ensures
            r == spec_path_matches(self.path_pattern@, path@),
    {
        let pattern = self.path_pattern.as_str();
        let plen = pattern.unicode_len();
        if plen >= 2 && pattern.get_char(plen - 2) == '/' && pattern.get_char(plen - 1) == '*' {
            if eq_prefix(path, pattern, plen - 2) {
                return true;
            }
            starts_with_then(path, pattern, plen - 2, '/')
        } else if plen >= 1 && pattern.get_char(plen - 1) == '/' {
            if eq_prefix(path, pattern, plen - 1) {
                return true;
            }
            if eq_prefix(path, pattern, plen) {
                proof {
                    assert(pattern@.subrange(0, plen as int) =~= pattern@);
                }
                return true;
            }
            let r = starts_with_prefix(path, pattern, plen);
            proof {
                assert(pattern@.subrange(0, plen as int) =~= pattern@);
            }
            r
        } else {
            if eq_prefix(path, pattern, plen) {
                proof {
                    assert(pattern@.subrange(0, plen as int) =~= pattern@);
                }
                return true;
            }
            let r = starts_with_then(path, pattern, plen, '/');
            proof {
                assert(pattern@.subrange(0, plen as int) =~= pattern@);
            }
            r
        }
    }
}

// --- URL rewriting -----------------------------------------------------------

/// `s` without its trailing slashes.
pub open spec fn spec_trim_end_slashes(s: Seq<char>) -> Seq<char>
    decreases s.len(),
{
    if s.len() > 0 && s[s.len() - 1] == '/' {
        spec_trim_end_slashes(s.drop_last())
    } else {
        s
    }
}

/// `p` with a single leading slash ensured.
pub open spec fn spec_lead_slash(p: Seq<char>) -> Seq<char> {
    if p.len() > 0 && p[0] == '/' {
        p
    } else {
        seq!['/'] + p
    }
}

/// The query-string part appended to a rewritten URL: `?` and the query
/// when one is present and non-empty, nothing otherwise.
pub open spec fn spec_query_suffix(q: Option<Seq<char>>) -> Seq<char> {
    match q {
        Some(qq) => if qq.len() > 0 {
            seq!['?'] + qq
        } else {
            Seq::empty()
        },
        None => Seq::empty(),
    }
}

/// What `strip_prefix` removes: the matched prefix comes off the path,
/// symmetrically to the pattern form — the part before `/*` for a wildcard
/// pattern, the part before the final `/` for a slash-terminated pattern,
/// and the whole pattern (at a segment boundary) for a bare pattern. An
/// empty or `/` remainder becomes `/`; a path the prefix does not match is
/// left unchanged.
pub open spec fn spec_strip_path_prefix(pattern: Seq<char>, path: Seq<char>) -> Seq<char> {
    if spec_is_wildcard(pattern) {
        let prefix = pattern.subrange(0, pattern.len() - 2);
        if spec_starts_with(path, prefix) {
            let rem = path.subrange(prefix.len() as int, path.len() as int);
            if rem.len() == 0 || rem == seq!['/'] {
                seq!['/']
            } else {
                rem
            }
        } else {
            path
        }
    } else if spec_is_slash_terminated(pattern) {
        let prefix = pattern.subrange(0, pattern.len() - 1);
        if spec_starts_with(path, prefix) {
            let rem = path.subrange(prefix.len() as int, path.len() as int);
            if rem.len() == 0 {
                seq!['/']
            } else {
                rem
            }
        } else {
            path
        }
    } else {
        if path == pattern {
            seq!['/']
        } else if spec_starts_with(path, pattern + seq!['/']) {
            path.subrange(pattern.len() as int, path.len() as int)
        } else {
            path
        }
    }
}

/// The forwarded path of a request under a route.
pub open spec fn spec_target_path(rt: ProxyRoute, path: Seq<char>) -> Seq<char> {
    if rt.strip_prefix {
        spec_strip_path_prefix(rt.path_pattern@, path)
    } else {
        path
    }
}

/// The rewritten upstream URL: the target without trailing slashes, the
/// (possibly stripped) path with a single leading slash, and the query.
pub open spec fn spec_target_url(rt: ProxyRoute, path: Seq<char>, query: Option<Seq<char>>) -> Seq<
    char,
> {
    spec_trim_end_slashes(rt.target@) + spec_lead_slash(spec_target_path(rt, path))
        + spec_query_suffix(query)
}

impl ProxyRoute {
    /// Strip the matched prefix from the path (see
    /// `spec_strip_path_prefix`).
    pub fn strip_path_prefix(&self, path: &str) -> (r: String)
        ensures
            r@ == spec_strip_path_prefix(self.path_pattern@, path@),
    {
        proof {
            reveal_strlit("/");
            assert("/"@ =~= seq!['/']);
        }
        let pattern = self.path_pattern.as_str();
        let plen = pattern.unicode_len();
        if plen >= 2 && pattern.get_char(plen - 2) == '/' && pattern.get_char(plen - 1) == '*' {
            if starts_with_prefix(path, pattern, plen - 2) {
                let n = path.unicode_len();
                let rem = path.substring_char(plen - 2, n);
                let rlen = rem.unicode_len();
                if rlen == 0 || (rlen == 1 && rem.get_char(0) == '/') {
                    proof {
                        if rem@.len() == 1 {
                            assert(rem@ =~= seq!['/']);
                        }
                    }
                    String::from_str("/")
                } else {
                    proof {
                        assert(rem@ != seq!['/']);
                    }
                    rem.to_owned()
                }
            } else {
                path.to_owned()
            }
        } else if plen >= 1 && pattern.get_char(plen - 1) == '/' {
            if starts_with_prefix(path, pattern, plen - 1) {
                let n = path.unicode_len();
                let rem = path.substring_char(plen - 1, n);
                if rem.unicode_len() == 0 {
                    String::from_str("/")
                } else {
                    rem.to_owned()
                }
            } else {
                path.to_owned()
            }
        } else {
            if eq_prefix(path, pattern, plen) {
                proof {
                    assert(pattern@.subrange(0, plen as int) =~= pattern@);
                }
                String::from_str("/")
            } else if starts_with_then(path, pattern, plen, '/') {
                proof {
                    assert(pattern@.subrange(0, plen as int) =~= pattern@);
                }
                let n = path.unicode_len();
                let rem = path.substring_char(plen, n);
                rem.to_owned()
            } else {
                proof {
                    assert(pattern@.subrange(0, plen as int) =~= pattern@);
                }
                path.to_owned()
            }
        }
    }

    /// The rewritten upstream URL for a request path and forwarded query
    /// (see `spec_target_url`).
    pub fn get_target_url(&self, path: &str, query: Option<&str>) -> (r: String)
        ensures
            r@ == spec_target_url(
                *self,
                path@,
                match query {
                    Some(q) => Some(q@),
                    None => None,
                },
            ),
    {
        proof {
            reveal_strlit("/");
            reveal_strlit("?");
            assert("/"@ =~= seq!['/']);
            assert("?"@ =~= seq!['?']);
        }
        let target_path = if self.strip_prefix {
            self.strip_path_prefix(path)
        } else {
            path.to_owned()
        };
        let t = self.target.as_str();
        let mut e = t.unicode_len();
        proof {
            assert(t@.subrange(0, e as int) =~= t@);
        }
        while e > 0 && t.get_char(e - 1) == '/'
            invariant
                e <= t@.len(),
                spec_trim_end_slashes(t@) == spec_trim_end_slashes(t@.subrange(0, e as int)),
            decreases e,
        {
            proof {
                assert(t@.subrange(0, e as int).drop_last() =~= t@.subrange(0, e as int - 1));
            }
            e = e - 1;
        }
        proof {
            assert(t@.subrange(0, t@.len() as int) =~= t@);
            assert(spec_trim_end_slashes(t@.subrange(0, e as int)) == t@.subrange(0, e as int));
        }
        let base = t.substring_char(0, e);
        let mut url = base.to_owned();
        let tp = target_path.as_str();
        if !(tp.unicode_len() > 0 && tp.get_char(0) == '/') {
            url.append("/");
        }
        url.append(tp);
        match query {
            Some(q) => {
                if q.unicode_len() > 0 {
                    url.append("?");
                    url.append(q);
                }
            },
            None => {},
        }
        proof {
            assert(url@ =~= spec_target_url(
                *self,
                path@,
                match query {
                    Some(q) => Some(q@),
                    None => None,
                },
            ));
        }
        url
    }
}

// --- hop-by-hop headers --------------------------------------------------------

/// The hop-by-hop header names (with `host`, which the proxy replaces from
/// the target URL), compared after ASCII case folding.
pub open spec fn spec_is_hop_by_hop(name: Seq<char>) -> bool {
    ||| spec_lower(name) == "connection"@
    ||| spec_lower(name) == "keep-alive"@
    ||| spec_lower(name) == "proxy-authenticate"@
    ||| spec_lower(name) == "proxy-authorization"@
    ||| spec_lower(name) == "te"@
    ||| spec_lower(name) == "trailers"@
    ||| spec_lower(name) == "transfer-encoding"@
    ||| spec_lower(name) == "upgrade"@
    ||| spec_lower(name) == "host"@
}

/// ASCII case folding leaves the hop-by-hop names unchanged.
proof fn lemma_hop_literals_lower()
    ensures
        spec_lower("connection"@) == "connection"@,
        spec_lower("keep-alive"@) == "keep-alive"@,
        spec_lower("proxy-authenticate"@) == "proxy-authenticate"@,
        spec_lower("proxy-authorization"@) == "proxy-authorization"@,
        spec_lower("te"@) == "te"@,
        spec_lower("trailers"@) == "trailers"@,
        spec_lower("transfer-encoding"@) == "transfer-encoding"@,
        spec_lower("upgrade"@) == "upgrade"@,
        spec_lower("host"@) == "host"@,
{
    reveal_strlit("connection");
    reveal_strlit("keep-alive");
    reveal_strlit("proxy-authenticate");
    reveal_strlit("proxy-authorization");
    reveal_strlit("te");
    reveal_strlit("trailers");
    reveal_strlit("transfer-encoding");
    reveal_strlit("upgrade");
    reveal_strlit("host");
    assert(spec_lower("connection"@) =~= "connection"@);
    assert(spec_lower("keep-alive"@) =~= "keep-alive"@);
    assert(spec_lower("proxy-authenticate"@) =~= "proxy-authenticate"@);
    assert(spec_lower("proxy-authorization"@) =~= "proxy-authorization"@);
    assert(spec_lower("te"@) =~= "te"@);
    assert(spec_lower("trailers"@) =~= "trailers"@);
    assert(spec_lower("transfer-encoding"@) =~= "transfer-encoding"@);
    assert(spec_lower("upgrade"@) =~= "upgrade"@);
    assert(spec_lower("host"@) =~= "host"@);
}

/// Whether a header must not be forwarded: the hop-by-hop names, and
/// `Host`, which is set afresh from the target URL.
pub fn is_hop_by_hop_header(name: &str) -> (r: bool)
    ensures
        r == spec_is_hop_by_hop(name@),
{
    proof {
        lemma_hop_literals_lower();
    }
    str_eq_ignore_ascii_case(name, "connection") || str_eq_ignore_ascii_case(name, "keep-alive")
        || str_eq_ignore_ascii_case(name, "proxy-authenticate") || str_eq_ignore_ascii_case(
        name,
        "proxy-authorization",
    ) || str_eq_ignore_ascii_case(name, "te") || str_eq_ignore_ascii_case(name, "trailers")
        || str_eq_ignore_ascii_case(name, "transfer-encoding") || str_eq_ignore_ascii_case(
        name,
        "upgrade",
    ) || str_eq_ignore_ascii_case(name, "host")
}

/// Hop-by-hop recognition is ASCII-case-insensitive: folding the name's
/// case never changes the answer.
pub proof fn lemma_hop_by_hop_case_insensitive(name: Seq<char>)
    ensures
        spec_is_hop_by_hop(spec_lower(name)) == spec_is_hop_by_hop(name),
{
    crate::text::lemma_lower_idempotent(name);
}

// --- URL authority -------------------------------------------------------------

/// Is `://` at position `i` of `s`?
pub open spec fn spec_sep_at(s: Seq<char>, i: int) -> bool {
    0 <= i && i + 3 <= s.len() && s[i] == ':' && s[i + 1] == '/' && s[i + 2] == '/'
}

/// The position of the first `://` of `s`, if any.
pub open spec fn spec_find_sep(s: Seq<char>) -> Option<int>
    decreases s.len(),
{
    if s.len() < 3 {
        None
    } else if s[0] == ':' && s[1] == '/' && s[2] == '/' {
        Some(0)
    } else {
        match spec_find_sep(s.drop_first()) {
            Some(i) => Some(i + 1),
            None => None,
        }
    }
}

/// Does a character end the authority component?
pub open spec fn spec_is_authority_end(c: char) -> bool {
    c == '/' || c == '?' || c == '#'
}

/// The length of the authority component at the start of `s`.
pub open spec fn spec_authority_len(s: Seq<char>) -> int
    decreases s.len(),
{
    if s.len() == 0 {
        0
    } else if spec_is_authority_end(s[0]) {
        0
    } else {
        1 + spec_authority_len(s.drop_first())
    }
}

/// The authority component of a URL: what stands between the first `://`
/// and the next `/`, `?` or `#` (or the end). `None` when the URL has no
/// `://`.
pub open spec fn spec_authority_of(url: Seq<char>) -> Option<Seq<char>> {
    match spec_find_sep(url) {
        Some(i) => {
            let after = url.subrange(i + 3, url.len() as int);
            Some(after.subrange(0, spec_authority_len(after)))
        },
        None => None,
    }
}

/// `spec_find_sep` returns the first separator position.
pub proof fn lemma_find_sep_first(s: Seq<char>)
    ensures
        match spec_find_sep(s) {
            Some(i) => spec_sep_at(s, i) && forall|j: int| 0 <= j < i ==> !spec_sep_at(s, j),
            None => forall|j: int| !spec_sep_at(s, j),
        },
    decreases s.len(),
{
    if s.len() < 3 {
    } else if s[0] == ':' && s[1] == '/' && s[2] == '/' {
    } else {
        lemma_find_sep_first(s.drop_first());
        let t = s.drop_first();
        assert forall|j: int| spec_sep_at(s, j) implies j >= 1 && spec_sep_at(t, j - 1) by {
            if j == 0 {
                assert(false);
            }
        }
        match spec_find_sep(t) {
            Some(i) => {
                assert(spec_sep_at(t, i));
                assert(spec_sep_at(s, i + 1));
            },
            None => {},
        }
    }
}

/// A separator position below which there is none fixes `spec_find_sep`.
pub proof fn lemma_find_sep_witness(s: Seq<char>, i: int)
    requires
        spec_sep_at(s, i),
        forall|j: int| 0 <= j < i ==> !spec_sep_at(s, j),
    ensures
        spec_find_sep(s) == Some(i),
{
    lemma_find_sep_first(s);
    match spec_find_sep(s) {
        Some(k) => {
            if k < i {
                assert(!spec_sep_at(s, k));
            } else if i < k {
                assert(!spec_sep_at(s, i));
            }
        },
        None => {
            assert(!spec_sep_at(s, i));
        },
    }
}

/// `spec_authority_len` marks the first delimiter (or the end).
pub proof fn lemma_authority_len_first(s: Seq<char>)
    ensures
        0 <= spec_authority_len(s) <= s.len(),
        forall|j: int| 0 <= j < spec_authority_len(s) ==> !spec_is_authority_end(#[trigger] s[j]),
        spec_authority_len(s) < s.len() ==> spec_is_authority_end(s[spec_authority_len(s)]),
    decreases s.len(),
{
    if s.len() == 0 {
    } else if spec_is_authority_end(s[0]) {
    } else {
        lemma_authority_len_first(s.drop_first());
        let t = s.drop_first();
        assert forall|j: int|
            0 <= j < spec_authority_len(s) implies !spec_is_authority_end(#[trigger] s[j]) by {
            if j > 0 {
                assert(s[j] == t[j - 1]);
            }
        }
    }
}

/// A delimiter-free length followed by a delimiter (or the end) fixes
/// `spec_authority_len`.
pub proof fn lemma_authority_len_witness(s: Seq<char>, n: int)
    requires
        0 <= n <= s.len(),
        forall|j: int| 0 <= j < n ==> !spec_is_authority_end(#[trigger] s[j]),
        n < s.len() ==> spec_is_authority_end(s[n]),
    ensures
        spec_authority_len(s) == n,
    decreases s.len(),
{
    if s.len() == 0 {
    } else if spec_is_authority_end(s[0]) {
        assert(n == 0);
    } else {
        let t = s.drop_first();
        assert(n >= 1) by {
            assert(!spec_is_authority_end(s[0]));
        }
        assert forall|j: int| 0 <= j < n - 1 implies !spec_is_authority_end(#[trigger] t[j]) by {
            assert(t[j] == s[j + 1]);
        }
        assert(n - 1 < t.len() ==> spec_is_authority_end(t[n - 1]));
        lemma_authority_len_witness(t, n - 1);
    }
}

/// Extract host (with optional port) from a URL: its authority component,
/// or `None` for a URL without `://`.
pub fn extract_host_from_url(url: &str) -> (r: Option<String>)
    ensures
        match r {
            Some(h) => spec_authority_of(url@) == Some(h@),
            None => spec_authority_of(url@) is None,
        },
{
    let n = url.unicode_len();
    if n < 3 {
        proof {
            lemma_find_sep_first(url@);
            if url@.len() >= 3 {
                assert(false);
            }
            match spec_find_sep(url@) {
                Some(i) => {
                    assert(spec_sep_at(url@, i));
                    assert(false);
                },
                None => {},
            }
        }
        return None;
    }
    // Find the first `://`.
    let mut i: usize = 0;
    let mut sep: Option<usize> = None;
    loop
        invariant_except_break
            i <= n - 2,
            3 <= n,
            n == url@.len(),
            sep is None,
            forall|j: int| 0 <= j < i ==> !spec_sep_at(url@, j),
        ensures
            n == url@.len(),
            match sep {
                Some(k) => spec_sep_at(url@, k as int) && forall|j: int|
                    0 <= j < k ==> !spec_sep_at(url@, j),
                None => forall|j: int| !spec_sep_at(url@, j),
            },
        decreases n - i,
    {
        if i > n - 3 {
            proof {
                assert forall|j: int| !spec_sep_at(url@, j) by {
                    if spec_sep_at(url@, j) {
                        assert(0 <= j && j + 3 <= n);
                        assert(j < i);
                    }
                }
            }
            break;
        }
        if url.get_char(i) == ':' && url.get_char(i + 1) == '/' && url.get_char(i + 2) == '/' {
            sep = Some(i);
            break;
        }
        i = i + 1;
    }
    match sep {
        None => {
            proof {
                lemma_find_sep_first(url@);
                match spec_find_sep(url@) {
                    Some(k) => {
                        assert(spec_sep_at(url@, k));
                        assert(false);
                    },
                    None => {},
                }
            }
            None
        },
        Some(k) => {
            proof {
                lemma_find_sep_witness(url@, k as int);
            }
            // Scan the authority to its end.
            let start = k + 3;
            let mut e = start;
            loop
                invariant_except_break
                    start <= e <= n,
                    start == k + 3,
                    k as int + 3 <= n,
                    n == url@.len(),
                    forall|j: int| start <= j < e ==> !spec_is_authority_end(#[trigger] url@[j]),
                ensures
                    start <= e <= n,
                    forall|j: int| start <= j < e ==> !spec_is_authority_end(#[trigger] url@[j]),
                    e < n ==> spec_is_authority_end(url@[e as int]),
                decreases n - e,
            {
                if e >= n {
                    break;
                }
                let c = url.get_char(e);
                if c == '/' || c == '?' || c == '#' {
                    break;
                }
                e = e + 1;
            }
            let host = url.substring_char(start, e);
            proof {
                let after = url@.subrange(k as int + 3, url@.len() as int);
                assert forall|j: int|
                    0 <= j < e - start implies !spec_is_authority_end(#[trigger] after[j]) by {
                    assert(after[j] == url@[k as int + 3 + j]);
                }
                if e < n {
                    assert(spec_is_authority_end(after[e - start])) by {
                        assert(after[e - start] == url@[e as int]);
                    }
                }
                lemma_authority_len_witness(after, e - start as int);
                assert(host@ =~= after.subrange(0, spec_authority_len(after)));
            }
            Some(host.to_owned())
        },
    }
}

// --- percent encoding -----------------------------------------------------------

/// What `percent_encoding::utf8_percent_encode` with the
/// `NON_ALPHANUMERIC` set returns for `s`: a function of the characters of
/// `s` alone.
pub uninterp spec fn percent_encode_all_of(s: Seq<char>) -> Seq<char>;

/// What `percent_encoding::percent_decode_str(..).decode_utf8_lossy()`
/// returns for `s`: a function of the characters of `s` alone.
pub uninterp spec fn percent_decode_lossy_of(s: Seq<char>) -> Seq<char>;

/// Relies on `percent_encoding::utf8_percent_encode` with
/// `NON_ALPHANUMERIC`: every byte that is not an ASCII letter or digit is
/// written as `%` followed by two hex digits, so the result consists of
/// ASCII alphanumerics and `%` only, and an empty input stays empty.
#[verifier::external_body]
pub(crate) fn percent_encode_all(s: &str) -> (r: String)
    ensures
        r@ == percent_encode_all_of(s@),
        forall|i: int|
            0 <= i < r@.len() ==> (spec_is_alnum(#[trigger] r@[i]) || r@[i] == '%'),
        s@.len() == 0 ==> r@.len() == 0,
{
    percent_encoding::utf8_percent_encode(s, percent_encoding::NON_ALPHANUMERIC).to_string()
}

/// Relies on `percent_encoding::percent_decode_str` and
/// `PercentDecode::decode_utf8_lossy`: only `%`-escapes are rewritten, so
/// an input without `%` decodes to itself.
#[verifier::external_body]
fn percent_decode_lossy(s: &str) -> (r: String)
    ensures
        r@ == percent_decode_lossy_of(s@),
        (forall|i: int| 0 <= i < s@.len() ==> s@[i] != '%') ==> r@ == s@,
{
    percent_encoding::percent_decode_str(s).decode_utf8_lossy().into_owned()
}

// --- the pool-override query parameter ---------------------------------------------

/// Does the pair contain `=` (separating a key from a value)?
pub open spec fn spec_has_eq(pair: Seq<char>) -> bool {
    exists|i: int| 0 <= i < pair.len() && pair[i] == '='
}

/// The key of a `key=value` pair: everything before the first `=`, or the
/// whole pair when it has no `=`.
pub open spec fn spec_pair_key(pair: Seq<char>) -> Seq<char> {
    spec_split(pair, '=')[0]
}

/// The value of a `key=value` pair: everything after the first `=`.
pub open spec fn spec_pair_value(pair: Seq<char>) -> Seq<char>
    recommends
        spec_has_eq(pair),
{
    pair.subrange(spec_pair_key(pair).len() as int + 1, pair.len() as int)
}

/// Is this pair a pool-override parameter (with or without a value)?
pub open spec fn spec_pair_is_pool(pair: Seq<char>) -> bool {
    if spec_has_eq(pair) {
        spec_pair_key(pair) == "api_key_pool"@
    } else {
        pair == "api_key_pool"@
    }
}

/// The pairs of a query that are forwarded: everything that is not a
/// pool-override parameter.
pub open spec fn spec_keep_pairs(pairs: Seq<Seq<char>>) -> Seq<Seq<char>> {
    pairs.filter(|p: Seq<char>| !spec_pair_is_pool(p))
}

/// The pool-override parameters of a query that carry a value.
pub open spec fn spec_pool_pairs(pairs: Seq<Seq<char>>) -> Seq<Seq<char>> {
    pairs.filter(|p: Seq<char>| spec_has_eq(p) && spec_pair_key(p) == "api_key_pool"@)
}

/// The forwarded query string: the non-override pairs joined back with
/// `&`; `None` when none remain.
pub open spec fn spec_filtered_query(q: Seq<char>) -> Option<Seq<char>> {
    let kept = spec_keep_pairs(spec_split(q, '&'));
    if kept.len() == 0 {
        None
    } else {
        Some(spec_join(kept, seq!['&']))
    }
}

/// The pool override named by a query: the percent-decoded value of the
/// last `api_key_pool=<name>` parameter, if any.
pub open spec fn spec_pool_override(q: Seq<char>) -> Option<Seq<char>> {
    let pool = spec_pool_pairs(spec_split(q, '&'));
    if pool.len() == 0 {
        None
    } else {
        Some(percent_decode_lossy_of(spec_pair_value(pool.last())))
    }
}

/// Split off the `api_key_pool` query parameter: returns the override pool
/// name (last occurrence wins, percent-decoded) and the remaining query
/// string; value-less `api_key_pool` parameters are dropped as well.
pub fn extract_api_key_pool_from_query(query: Option<&str>) -> (r: (
    Option<String>,
    Option<String>,
))
    ensures
        match query {
            None => r.0 is None && r.1 is None,
            Some(q) => if q@.len() == 0 {
                r.0 is None && r.1 is None
            } else {
                &&& opt_view(r.0) == spec_pool_override(q@)
                &&& opt_view(r.1) == spec_filtered_query(q@)
                &&& (match r.0 {
                    Some(p) => {
                        // An override value without percent-escapes comes
                        // back verbatim.
                        let v = spec_pair_value(spec_pool_pairs(spec_split(q@, '&')).last());
                        (forall|j: int| 0 <= j < v.len() ==> v[j] != '%') ==> p@ == v
                    },
                    None => true,
                })
            },
        },
{
    let q = match query {
        None => {
            return (None, None);
        },
        Some(q) => q,
    };
    if q.unicode_len() == 0 {
        return (None, None);
    }
    let pairs = split_str(q, '&');
    let ghost pair_views = views_of(pairs@);
    let mut pool: Option<String> = None;
    let mut filtered: Vec<String> = Vec::new();
    let mut i: usize = 0;
    proof {
        assert(pair_views.subrange(0, 0) =~= Seq::<Seq<char>>::empty());
        assert(spec_keep_pairs(pair_views.subrange(0, 0)) =~= Seq::<Seq<char>>::empty());
        assert(spec_pool_pairs(pair_views.subrange(0, 0)) =~= Seq::<Seq<char>>::empty());
    }
    while i < pairs.len()
        invariant
            i <= pairs@.len(),
            pair_views == views_of(pairs@),
            pair_views == spec_split(q@, '&'),
            views_of(filtered@) =~= spec_keep_pairs(pair_views.subrange(0, i as int)),
            ({
                let pool_pairs = spec_pool_pairs(pair_views.subrange(0, i as int));
                match pool {
                    None => pool_pairs.len() == 0,
                    Some(p) => {
                        let v = spec_pair_value(pool_pairs.last());
                        &&& pool_pairs.len() > 0
                        &&& p@ == percent_decode_lossy_of(v)
                        &&& ((forall|j: int| 0 <= j < v.len() ==> v[j] != '%') ==> p@ == v)
                    },
                }
            }),
        decreases pairs@.len() - i,
    {
        proof {
            let pre1 = pair_views.subrange(0, i as int + 1);
            assert(pre1.drop_last() =~= pair_views.subrange(0, i as int));
            assert(pre1.last() == pair_views[i as int]);
            reveal(Seq::filter);
        }
        let pair = &pairs[i];
        let n = pair.unicode_len();
        match find_char(pair.as_str(), '=') {
            Some(eq_idx) => {
                proof {
                    lemma_split_at_first(pair@, '=', eq_idx as int);
                    assert(spec_pair_key(pair@) =~= pair@.subrange(0, eq_idx as int));
                }
                let key = pair.as_str().substring_char(0, eq_idx);
                if str_eq(key, "api_key_pool") {
                    let value = pair.as_str().substring_char(eq_idx + 1, n);
                    proof {
                        assert(value@ =~= spec_pair_value(pair@));
                        assert(spec_pool_pairs(pair_views.subrange(0, i as int + 1)).last()
                            == pair_views[i as int]);
                    }
                    pool = Some(percent_decode_lossy(value));
                } else {
                    filtered.push(pair.clone());
                    proof {
                        assert(views_of(filtered@) =~= spec_keep_pairs(
                            pair_views.subrange(0, i as int + 1),
                        ));
                    }
                }
            },
            None => {
                proof {
                    lemma_split_whole(pair@, '=');
                    assert(spec_pair_key(pair@) == pair@);
                    assert(!spec_has_eq(pair@));
                }
                if !str_eq(pair.as_str(), "api_key_pool") {
                    filtered.push(pair.clone());
                    proof {
                        assert(views_of(filtered@) =~= spec_keep_pairs(
                            pair_views.subrange(0, i as int + 1),
                        ));
                    }
                }
            },
        }
        i = i + 1;
    }
    proof {
        assert(pair_views.subrange(0, pairs@.len() as int) =~= pair_views);
    }
    let filtered_query = if filtered.len() == 0 {
        None
    } else {
        proof {
            reveal_strlit("&");
            assert("&"@ =~= seq!['&']);
        }
        Some(join_str(&filtered, "&"))
    };
    (pool, filtered_query)
}

// --- laws about the Host header ------------------------------------------------

/// A target URL is well-formed when it has an authority component and
/// that component is non-empty (an absolute URL such as `http://host:port/...`).
pub open spec fn spec_wf_target(t: Seq<char>) -> bool {
    match spec_authority_of(t) {
        Some(a) => a.len() > 0,
        None => false,
    }
}

/// Trimming trailing slashes takes a prefix; what is dropped is slashes.
proof fn lemma_trim_prefix(s: Seq<char>)
    ensures
        spec_trim_end_slashes(s).len() <= s.len(),
        spec_trim_end_slashes(s) == s.subrange(0, spec_trim_end_slashes(s).len() as int),
        forall|j: int| spec_trim_end_slashes(s).len() <= j < s.len() ==> s[j] == '/',
        spec_trim_end_slashes(s).len() > 0 ==> s[spec_trim_end_slashes(s).len() - 1] != '/',
    decreases s.len(),
{
    if s.len() > 0 && s[s.len() - 1] == '/' {
        lemma_trim_prefix(s.drop_last());
        let m = spec_trim_end_slashes(s).len() as int;
        assert(s.drop_last().subrange(0, m) =~= s.subrange(0, m));
        assert forall|j: int| m <= j < s.len() implies s[j] == '/' by {
            if j < s.len() - 1 {
                assert(s.drop_last()[j] == s[j]);
            }
        }
        if m > 0 {
            assert(s[m - 1] == s.drop_last()[m - 1]);
        }
    } else {
        assert(s.subrange(0, s.len() as int) =~= s);
    }
}

/// Appending a slash-led path (and anything after it) to a trimmed
/// well-formed target leaves the authority unchanged.
proof fn lemma_authority_after_trim_append(t: Seq<char>, p: Seq<char>)
    requires
        spec_wf_target(t),
        p.len() > 0,
        p[0] == '/',
    ensures
        spec_authority_of(spec_trim_end_slashes(t) + p) == spec_authority_of(t),
{
    lemma_find_sep_first(t);
    let i = spec_find_sep(t).unwrap();
    let after_t = t.subrange(i + 3, t.len() as int);
    let alen = spec_authority_len(after_t);
    lemma_authority_len_first(after_t);
    let a = after_t.subrange(0, alen);
    assert(alen > 0);
    lemma_trim_prefix(t);
    let trimmed = spec_trim_end_slashes(t);
    let m = trimmed.len() as int;
    // The authority's last character is no slash, so trimming cannot eat
    // into (or past) the authority.
    assert(m >= i + 3 + alen) by {
        if m < i + 3 + alen {
            assert(after_t[alen - 1] == t[i + 3 + alen - 1]);
            assert(!spec_is_authority_end(after_t[alen - 1]));
            assert(t[i + 3 + alen - 1] == '/');
        }
    }
    let u = trimmed + p;
    assert forall|j: int| 0 <= j < m implies u[j] == t[j] by {
        assert(u[j] == trimmed[j]);
    }
    assert(spec_sep_at(u, i));
    assert forall|j: int| 0 <= j < i implies !spec_sep_at(u, j) by {
        if spec_sep_at(u, j) {
            assert(spec_sep_at(t, j));
        }
    }
    lemma_find_sep_witness(u, i);
    let after_u = u.subrange(i + 3, u.len() as int);
    assert forall|j: int| 0 <= j < alen implies !spec_is_authority_end(#[trigger] after_u[j]) by {
        assert(after_u[j] == u[i + 3 + j]);
        assert(u[i + 3 + j] == t[i + 3 + j]);
        assert(after_t[j] == t[i + 3 + j]);
    }
    assert(alen < after_u.len());
    assert(spec_is_authority_end(after_u[alen])) by {
        if i + 3 + alen < m {
            assert(after_u[alen] == t[i + 3 + alen]);
            assert(alen < after_t.len());
            assert(after_t[alen] == t[i + 3 + alen]);
        } else {
            assert(after_u[alen] == u[i + 3 + alen]);
            assert(u[m] == p[0]);
        }
    }
    lemma_authority_len_witness(after_u, alen);
    assert(after_u.subrange(0, alen) =~= a);
}

/// The rewriter keeps the target's authority: for a well-formed absolute
/// target URL, the authority of the rewritten URL — with any suffix that
/// credential injection may append — equals the authority of
/// `route.target`. The Host header set from the rewritten URL therefore
/// equals the target's authority.
pub proof fn lemma_rewrite_keeps_authority(
    rt: ProxyRoute,
    path: Seq<char>,
    q: Option<Seq<char>>,
    v: Seq<char>,
)
    requires
        spec_wf_target(rt.target@),
    ensures
        spec_authority_of(spec_target_url(rt, path, q) + v) == spec_authority_of(rt.target@),
{
    let p = spec_lead_slash(spec_target_path(rt, path)) + spec_query_suffix(q) + v;
    assert(p[0] == '/');
    lemma_authority_after_trim_append(rt.target@, p);
    assert(spec_target_url(rt, path, q) + v =~= spec_trim_end_slashes(rt.target@) + p);
}

// --- laws about the forwarded query -----------------------------------------------

/// Elements of a filtered sequence are elements of the original.
proof fn lemma_filter_element<A>(s: Seq<A>, pred: spec_fn(A) -> bool, i: int)
    requires
        0 <= i < s.filter(pred).len(),
    ensures
        s.contains(s.filter(pred)[i]),
    decreases s.len(),
{
    reveal(Seq::filter);
    if s.len() > 0 {
        let rest = s.drop_last().filter(pred);
        if i < rest.len() {
            lemma_filter_element(s.drop_last(), pred, i);
            let j = choose|j: int| 0 <= j < s.drop_last().len() && s.drop_last()[j] == rest[i];
            assert(s[j] == s.filter(pred)[i]);
        } else {
            assert(s[s.len() - 1] == s.filter(pred)[i]);
        }
    }
}

/// The pool-override parameter never appears in the forwarded query:
/// every pair of the filtered query string is a non-override pair.
pub proof fn lemma_pool_param_stripped(q: Seq<char>)
    ensures
        match spec_filtered_query(q) {
            Some(f) => forall|k: int|
                0 <= k < spec_split(f, '&').len() ==> !spec_pair_is_pool(
                    #[trigger] spec_split(f, '&')[k],
                ),
            None => true,
        },
{
    let pairs = spec_split(q, '&');
    let kept = spec_keep_pairs(pairs);
    if kept.len() > 0 {
        let f = spec_join(kept, seq!['&']);
        lemma_split_parts_free(q, '&');
        assert forall|k: int, j: int|
            0 <= k < kept.len() && 0 <= j < kept[k].len() implies kept[k][j] != '&' by {
            lemma_filter_element(pairs, |p: Seq<char>| !spec_pair_is_pool(p), k);
            let m = choose|m: int| 0 <= m < pairs.len() && pairs[m] == kept[k];
            assert(pairs[m][j] != '&');
        }
        lemma_split_join(kept, '&');
        assert(spec_split(f, '&') =~~= kept);
        assert forall|k: int|
            0 <= k < spec_split(f, '&').len() implies !spec_pair_is_pool(
            #[trigger] spec_split(f, '&')[k],
        ) by {
            pairs.lemma_filter_pred(|p: Seq<char>| !spec_pair_is_pool(p), k);
        }
    }
}

/// Splitting distributes over concatenation at a separator.
proof fn lemma_split_append(a: Seq<char>, b: Seq<char>, sep: char)
    ensures
        spec_split(a + seq![sep] + b, sep) =~~= spec_split(a, sep) + spec_split(b, sep),
    decreases a.len(),
{
    let whole = a + seq![sep] + b;
    if a.len() == 0 {
        assert(whole[0] == sep);
        assert(whole.drop_first() =~= b);
        assert(spec_split(a, sep) =~~= seq![Seq::<char>::empty()]);
    } else {
        lemma_split_append(a.drop_first(), b, sep);
        assert(whole.drop_first() =~= a.drop_first() + seq![sep] + b);
        lemma_split_len(a.drop_first() + seq![sep] + b, sep);
        lemma_split_len(a.drop_first(), sep);
        if whole[0] == sep {
            assert(a[0] == sep);
            assert(spec_split(whole, sep) =~~= seq![Seq::<char>::empty()] + spec_split(
                whole.drop_first(),
                sep,
            ));
        } else {
            let rest = spec_split(whole.drop_first(), sep);
            let rest_a = spec_split(a.drop_first(), sep);
            assert(rest =~~= rest_a + spec_split(b, sep));
            assert(rest[0] == rest_a[0]);
            assert(seq![seq![whole[0]] + rest[0]] + rest.drop_first() =~~= (seq![seq![a[0]]
                + rest_a[0]] + rest_a.drop_first()) + spec_split(b, sep));
        }
    }
}

/// Appending a credential as `name=value` keeps the forwarded query free
/// of the pool-override parameter, for a parameter name without `&`, `=`
/// and different from the override keyword, and a value of ASCII
/// alphanumerics and `%` (which percent-encoding guarantees).
pub proof fn lemma_injection_keeps_query_clean(
    f: Seq<char>,
    qpn: Seq<char>,
    enc: Seq<char>,
)
    requires
        forall|k: int|
            0 <= k < spec_split(f, '&').len() ==> !spec_pair_is_pool(
                #[trigger] spec_split(f, '&')[k],
            ),
        forall|j: int| 0 <= j < qpn.len() ==> qpn[j] != '&' && qpn[j] != '=',
        qpn != "api_key_pool"@,
        forall|j: int| 0 <= j < enc.len() ==> spec_is_alnum(#[trigger] enc[j]) || enc[j] == '%',
    ensures
        forall|k: int|
            0 <= k < spec_split(f + seq!['&'] + (qpn + seq!['='] + enc), '&').len()
                ==> !spec_pair_is_pool(
                #[trigger] spec_split(f + seq!['&'] + (qpn + seq!['='] + enc), '&')[k],
            ),
{
    let pair = qpn + seq!['='] + enc;
    lemma_split_append(f, pair, '&');
    assert forall|j: int| 0 <= j < pair.len() implies pair[j] != '&' by {
        if j < qpn.len() {
            assert(pair[j] == qpn[j]);
        } else if j == qpn.len() {
            assert(pair[j] == '=');
        } else {
            assert(pair[j] == enc[j - qpn.len() - 1]);
        }
    }
    lemma_split_whole(pair, '&');
    assert(spec_split(pair, '&') =~~= seq![pair]);
    assert(pair[qpn.len() as int] == '=');
    assert forall|j: int| 0 <= j < qpn.len() implies pair[j] != '=' by {
        assert(pair[j] == qpn[j]);
    }
    lemma_split_at_first(pair, '=', qpn.len() as int);
    assert(spec_pair_key(pair) =~= qpn);
    assert(!spec_pair_is_pool(pair)) by {
        assert(spec_has_eq(pair));
        assert(spec_pair_key(pair) == qpn);
    }
    let whole = spec_split(f + seq!['&'] + pair, '&');
    assert forall|k: int| 0 <= k < whole.len() implies !spec_pair_is_pool(#[trigger] whole[k]) by {
        if k < spec_split(f, '&').len() {
            assert(whole[k] == spec_split(f, '&')[k]);
        } else {
            assert(whole[k] == pair);
        }
    }
}

} // verus!
