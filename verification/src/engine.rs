//! The proxy engine: route resolution and the rewrite plan.
//!
//! The engine owns the compiled route table and one key selector per pool.
//! For each request it resolves the first matching route, applies the pool
//! override carried in the query string, picks a credential, and produces
//! a `RewritePlan`: the upstream URL, the `Host` value, and the forwarded
//! header set. Sending the request is the transport's job.

use vstd::prelude::*;

use crate::api_key::ApiKeySelector;
use crate::config::{clone_header_vec, spec_enabled_routes, HeaderPair, PoolEntry, RouteConfig};
use crate::proxy::{
    extract_api_key_pool_from_query, extract_host_from_url, is_hop_by_hop_header,
    percent_encode_all, percent_encode_all_of, spec_authority_of, spec_filtered_query, spec_is_hop_by_hop,
    spec_pool_override, spec_route_matches, spec_target_url, ProxyRoute,
};
use crate::text::{find_char, opt_view, spec_lower, str_eq, str_eq_ignore_ascii_case};

verus! {

// --- forwarded headers ----------------------------------------------------
//
// Header sets are specified at view level: a header is a pair of its name
// and value character sequences.

/// The views of a header list.
pub open spec fn header_views(hs: Seq<HeaderPair>) -> Seq<(Seq<char>, Seq<char>)> {
    hs.map_values(|h: HeaderPair| (h.name@, h.value@))
}

/// `hs` without the entries whose name equals `name` up to ASCII case.
pub open spec fn spec_remove_header(
    hs: Seq<(Seq<char>, Seq<char>)>,
    name: Seq<char>,
) -> Seq<(Seq<char>, Seq<char>)> {
    hs.filter(|h: (Seq<char>, Seq<char>)| spec_lower(h.0) != spec_lower(name))
}

/// Upsert: every entry of the same name (up to ASCII case) is removed and
/// the new entry appended.
pub open spec fn spec_upsert_header(
    hs: Seq<(Seq<char>, Seq<char>)>,
    h: (Seq<char>, Seq<char>),
) -> Seq<(Seq<char>, Seq<char>)> {
    spec_remove_header(hs, h.0).push(h)
}

/// Upsert the entries of `add`, in order.
pub open spec fn spec_upsert_all(
    hs: Seq<(Seq<char>, Seq<char>)>,
    add: Seq<(Seq<char>, Seq<char>)>,
) -> Seq<(Seq<char>, Seq<char>)>
    decreases add.len(),
{
    if add.len() == 0 {
        hs
    } else {
        spec_upsert_header(spec_upsert_all(hs, add.drop_last()), add.last())
    }
}

/// The request headers that survive forwarding: everything that is not
/// hop-by-hop.
pub open spec fn spec_kept_request_headers(req: Seq<(Seq<char>, Seq<char>)>) -> Seq<
    (Seq<char>, Seq<char>),
> {
    req.filter(|h: (Seq<char>, Seq<char>)| !spec_is_hop_by_hop(h.0))
}

/// The complete forwarded header set: the kept request headers, then the
/// `Host` entry from the target URL (when one was derived), then the
/// route's static headers, then the injected credential header (when the
/// pool injects by header) — later entries replacing earlier ones of the
/// same name.
pub open spec fn spec_forward_headers(
    req: Seq<(Seq<char>, Seq<char>)>,
    host: Option<Seq<char>>,
    route_hs: Seq<(Seq<char>, Seq<char>)>,
    key_h: Option<(Seq<char>, Seq<char>)>,
) -> Seq<(Seq<char>, Seq<char>)> {
    let base = spec_kept_request_headers(req);
    let with_host = match host {
        Some(h) => spec_upsert_header(base, ("host"@, h)),
        None => base,
    };
    let with_route = spec_upsert_all(with_host, route_hs);
    match key_h {
        Some(h) => spec_upsert_header(with_route, h),
        None => with_route,
    }
}

/// Remove every entry named `name` (up to ASCII case).
fn remove_header(hs: Vec<HeaderPair>, name: &str) -> (r: Vec<HeaderPair>)
    ensures
        header_views(r@) == spec_remove_header(header_views(hs@), name@),
{
    let mut r: Vec<HeaderPair> = Vec::new();
    let mut i: usize = 0;
    proof {
        reveal(Seq::filter);
        assert(header_views(hs@.subrange(0, 0)) =~= Seq::<(Seq<char>, Seq<char>)>::empty());
        assert(header_views(r@) =~= spec_remove_header(
            header_views(hs@.subrange(0, 0)),
            name@,
        ));
    }
    while i < hs.len()
        invariant
            i <= hs@.len(),
            header_views(r@) =~= spec_remove_header(header_views(hs@.subrange(0, i as int)), name@),
        decreases hs@.len() - i,
    {
        proof {
            reveal(Seq::filter);
            let pre1 = header_views(hs@.subrange(0, i as int + 1));
            assert(pre1.drop_last() =~= header_views(hs@.subrange(0, i as int)));
            assert(pre1.last() == (hs@[i as int].name@, hs@[i as int].value@));
        }
        if !str_eq_ignore_ascii_case(hs[i].name.as_str(), name) {
            r.push(hs[i].clone());
        }
        proof {
            assert(header_views(r@) =~= spec_remove_header(
                header_views(hs@.subrange(0, i as int + 1)),
                name@,
            ));
        }
        i = i + 1;
    }
    proof {
        assert(hs@.subrange(0, hs@.len() as int) =~= hs@);
    }
    r
}

/// Upsert one header (see `spec_upsert_header`).
fn upsert_header(hs: Vec<HeaderPair>, h: HeaderPair) -> (r: Vec<HeaderPair>)
    ensures
        header_views(r@) == spec_upsert_header(header_views(hs@), (h.name@, h.value@)),
{
    let name = h.name.clone();
    let mut r = remove_header(hs, name.as_str());
    let ghost removed = header_views(r@);
    r.push(h);
    proof {
        assert(header_views(r@) =~= removed.push((h.name@, h.value@)));
    }
    r
}

/// Build the forwarded header set (see `spec_forward_headers`).
pub fn build_forward_headers(
    request_headers: &Vec<HeaderPair>,
    host: Option<&String>,
    route_headers: &Vec<HeaderPair>,
    key_header: Option<HeaderPair>,
) -> (r: Vec<HeaderPair>)
    ensures
        header_views(r@) == spec_forward_headers(
            header_views(request_headers@),
            match host {
                Some(h) => Some(h@),
                None => None,
            },
            header_views(route_headers@),
            match key_header {
                Some(h) => Some((h.name@, h.value@)),
                None => None,
            },
        ),
{
    let ghost host_v: Option<Seq<char>> = match host {
        Some(h) => Some(h@),
        None => None,
    };
    let mut base: Vec<HeaderPair> = Vec::new();
    let mut i: usize = 0;
    proof {
        reveal(Seq::filter);
        assert(header_views(request_headers@.subrange(0, 0)) =~= Seq::<
            (Seq<char>, Seq<char>),
        >::empty());
        assert(header_views(base@) =~= spec_kept_request_headers(
            header_views(request_headers@.subrange(0, 0)),
        ));
    }
    while i < request_headers.len()
        invariant
            i <= request_headers@.len(),
            header_views(base@) =~= spec_kept_request_headers(
                header_views(request_headers@.subrange(0, i as int)),
            ),
        decreases request_headers@.len() - i,
    {
        proof {
            reveal(Seq::filter);
            let pre1 = header_views(request_headers@.subrange(0, i as int + 1));
            assert(pre1.drop_last() =~= header_views(request_headers@.subrange(0, i as int)));
            assert(pre1.last() == (request_headers@[i as int].name@,
            request_headers@[i as int].value@));
        }
        if !is_hop_by_hop_header(request_headers[i].name.as_str()) {
            base.push(request_headers[i].clone());
        }
        proof {
            assert(header_views(base@) =~= spec_kept_request_headers(
                header_views(request_headers@.subrange(0, i as int + 1)),
            ));
        }
        i = i + 1;
    }
    proof {
        assert(request_headers@.subrange(0, request_headers@.len() as int) =~= request_headers@);
    }
    let mut out = match host {
        Some(h) => {
            let entry = HeaderPair { name: String::from_str("host"), value: h.clone() };
            upsert_header(base, entry)
        },
        None => base,
    };
    let ghost after_host = spec_forward_headers(
        header_views(request_headers@),
        host_v,
        Seq::<(Seq<char>, Seq<char>)>::empty(),
        None,
    );
    proof {
        assert(header_views(out@) == after_host);
    }
    let mut i: usize = 0;
    while i < route_headers.len()
        invariant
            i <= route_headers@.len(),
            header_views(out@) == spec_upsert_all(
                after_host,
                header_views(route_headers@.subrange(0, i as int)),
            ),
            after_host == spec_forward_headers(
                header_views(request_headers@),
                host_v,
                Seq::<(Seq<char>, Seq<char>)>::empty(),
                None,
            ),
        decreases route_headers@.len() - i,
    {
        proof {
            let pre1 = header_views(route_headers@.subrange(0, i as int + 1));
            assert(pre1.drop_last() =~= header_views(route_headers@.subrange(0, i as int)));
            assert(pre1.last() == (route_headers@[i as int].name@,
            route_headers@[i as int].value@));
        }
        out = upsert_header(out, route_headers[i].clone());
        i = i + 1;
    }
    proof {
        assert(route_headers@.subrange(0, route_headers@.len() as int) =~= route_headers@);
    }
    match key_header {
        Some(h) => upsert_header(out, h),
        None => out,
    }
}

// --- route and selector lookup -----------------------------------------------

/// The first selector of `selectors` named `name`, if any.
pub open spec fn spec_find_selector(selectors: Seq<SelectorEntry>, name: Seq<char>) -> Option<int>
    decreases selectors.len(),
{
    if selectors.len() == 0 {
        None
    } else if selectors[0].name@ == name {
        Some(0)
    } else {
        match spec_find_selector(selectors.drop_first(), name) {
            Some(i) => Some(i + 1),
            None => None,
        }
    }
}

/// A key selector with the pool name it serves.
pub struct SelectorEntry {
    pub name: String,
    pub selector: ApiKeySelector,
}

/// Find the first route that matches the request. Matching is
/// deterministic and first-match-wins: the result index matches, and no
/// earlier route does; `None` means no route matches at all.
pub fn find_route(routes: &Vec<ProxyRoute>, path: &str, method: &str) -> (r: Option<usize>)
    ensures
        match r {
            Some(i) => i < routes@.len() && spec_route_matches(routes@[i as int], path@, method@)
                && forall|j: int|
                0 <= j < i ==> !spec_route_matches(#[trigger] routes@[j], path@, method@),
            None => forall|j: int|
                0 <= j < routes@.len() ==> !spec_route_matches(
                    #[trigger] routes@[j],
                    path@,
                    method@,
                ),
        },
{
    let mut i: usize = 0;
    while i < routes.len()
        invariant
            i <= routes@.len(),
            forall|j: int| 0 <= j < i ==> !spec_route_matches(#[trigger] routes@[j], path@, method@),
        decreases routes@.len() - i,
    {
        if routes[i].matches(path, method) {
            return Some(i);
        }
        i = i + 1;
    }
    None
}

/// Find the first selector serving the pool `name`.
pub fn find_selector(selectors: &Vec<SelectorEntry>, name: &str) -> (r: Option<usize>)
    ensures
        match r {
            Some(i) => i < selectors@.len() && spec_find_selector(selectors@, name@) == Some(
                i as int,
            ),
            None => spec_find_selector(selectors@, name@) is None,
        },
{
    let mut i: usize = 0;
    while i < selectors.len()
        invariant
            i <= selectors@.len(),
            forall|j: int| 0 <= j < i ==> (#[trigger] selectors@[j]).name@ != name@,
        decreases selectors@.len() - i,
    {
        if str_eq(selectors[i].name.as_str(), name) {
            proof {
                lemma_find_selector_witness(selectors@, name@, i as int);
            }
            return Some(i);
        }
        i = i + 1;
    }
    proof {
        lemma_find_selector_none(selectors@, name@);
    }
    None
}

/// A name that no entry carries is not found.
proof fn lemma_find_selector_none(selectors: Seq<SelectorEntry>, name: Seq<char>)
    requires
        forall|j: int| 0 <= j < selectors.len() ==> (#[trigger] selectors[j]).name@ != name,
    ensures
        spec_find_selector(selectors, name) is None,
    decreases selectors.len(),
{
    if selectors.len() > 0 {
        let t = selectors.drop_first();
        assert forall|j: int| 0 <= j < t.len() implies (#[trigger] t[j]).name@ != name by {
            assert(t[j] == selectors[j + 1]);
        }
        lemma_find_selector_none(t, name);
    }
}

/// The first index whose entry carries `name` is what
/// `spec_find_selector` returns.
proof fn lemma_find_selector_witness(selectors: Seq<SelectorEntry>, name: Seq<char>, i: int)
    requires
        0 <= i < selectors.len(),
        selectors[i].name@ == name,
        forall|j: int| 0 <= j < i ==> (#[trigger] selectors[j]).name@ != name,
    ensures
        spec_find_selector(selectors, name) == Some(i),
    decreases i,
{
    if i == 0 {
    } else {
        let t = selectors.drop_first();
        assert(t[i - 1] == selectors[i]);
        assert forall|j: int| 0 <= j < i - 1 implies (#[trigger] t[j]).name@ != name by {
            assert(t[j] == selectors[j + 1]);
        }
        lemma_find_selector_witness(t, name, i - 1);
    }
}

// --- the rewrite plan -----------------------------------------------------------

/// Why no plan could be built.
#[derive(Debug, PartialEq, Eq, Structural)]
pub enum PlanError {
    /// No route matches the request; the gateway answers 404.
    NoRoute,
}

/// Everything the transport needs to forward one request: the first
/// matching route, the rewritten URL, the `Host` value derived from it,
/// the complete forwarded header set, and the picked credential (for the
/// usage metrics).
#[derive(Debug)]
pub struct RewritePlan {
    /// Index of the matched route in the engine's table.
    pub route_index: usize,
    /// The rewritten upstream URL, credential injection included.
    pub target_url: String,
    /// The authority of `target_url`; `None` when it has none.
    pub host: Option<String>,
    /// The forwarded header set.
    pub headers: Vec<HeaderPair>,
    /// The picked key value, when a pool was resolved and non-empty.
    pub api_key: Option<String>,
    /// The picked key's label (or its value, for an unlabelled key).
    pub api_key_label: Option<String>,
}

/// The pool override and the forwarded query of a request's query string.
pub open spec fn spec_query_override(query: Option<Seq<char>>) -> Option<Seq<char>> {
    match query {
        Some(q) => if q.len() == 0 {
            None
        } else {
            spec_pool_override(q)
        },
        None => None,
    }
}

/// The forwarded query string of a request.
pub open spec fn spec_query_forwarded(query: Option<Seq<char>>) -> Option<Seq<char>> {
    match query {
        Some(q) => if q.len() == 0 {
            None
        } else {
            spec_filtered_query(q)
        },
        None => None,
    }
}

/// The selector the engine uses for a request: the pool named by the
/// override when that pool exists, else the route's pool, else none.
pub open spec fn spec_chosen_selector(
    selectors: Seq<SelectorEntry>,
    rt: ProxyRoute,
    ov: Option<Seq<char>>,
) -> Option<int> {
    let by_ov = match ov {
        Some(n) => spec_find_selector(selectors, n),
        None => None,
    };
    match by_ov {
        Some(i) => Some(i),
        None => match rt.api_key_pool {
            Some(p) => spec_find_selector(selectors, p@),
            None => None,
        },
    }
}

/// The URL the plan forwards to: the rewritten target URL, with the
/// credential appended as a query parameter when the pool injects by
/// query.
pub open spec fn spec_planned_url(
    rt: ProxyRoute,
    path: Seq<char>,
    fq: Option<Seq<char>>,
    injection: Option<(Seq<char>, Seq<char>)>,
) -> Seq<char> {
    let base = spec_target_url(rt, path, fq);
    match injection {
        Some(kv) => base + (if base.contains('?') {
            seq!['&']
        } else {
            seq!['?']
        }) + kv.0 + seq!['='] + percent_encode_all_of(kv.1),
        None => base,
    }
}

/// The proxy engine: the compiled route table and one selector per pool.
pub struct ProxyEngine {
    /// The routes, in configuration order.
    pub routes: Vec<ProxyRoute>,
    /// The pool selectors, by pool name.
    pub selectors: Vec<SelectorEntry>,
}

impl ProxyEngine {
    /// All selectors hold well-formed state.
    pub open spec fn wf(self) -> bool {
        forall|k: int|
            0 <= k < self.selectors@.len() ==> (#[trigger] self.selectors@[k]).selector.wf()
    }

    /// Resolve the request and build its rewrite plan.
    ///
    /// `Err(NoRoute)` exactly when no route matches (the engine is then
    /// unchanged). On success, the plan's route is the first match; the
    /// pool override in the query supersedes the route's pool; the URL,
    /// host and header set are as the specification functions state; and
    /// only the chosen selector's round-robin counter changes.
    pub fn plan(
        &mut self,
        method: &str,
        path: &str,
        query: Option<&str>,
        request_headers: &Vec<HeaderPair>,
    ) -> (r: Result<RewritePlan, PlanError>)
        ensures
            final(self).routes == old(self).routes,
            final(self).selectors@.len() == old(self).selectors@.len(),
            forall|k: int|
                0 <= k < old(self).selectors@.len() ==> (#[trigger] final(self).selectors@[k]).name == old(self).selectors@[k].name && old(self).selectors@[k].selector.same_but_counter(final(self).selectors@[k].selector),
            old(self).wf() ==> final(self).wf(),
            r is Err <==> (forall|j: int|
                0 <= j < old(self).routes@.len() ==> !spec_route_matches(
                    #[trigger] old(self).routes@[j],
                    path@,
                    method@,
                )),
            r is Err ==> *final(self) == *old(self),
            r matches Ok(plan) ==> {
                let rt = old(self).routes@[plan.route_index as int];
                let ov = spec_query_override(opt_str_view(query));
                let fq = spec_query_forwarded(opt_str_view(query));
                let chosen = spec_chosen_selector(old(self).selectors@, rt, ov);
                &&& plan.route_index < old(self).routes@.len()
                &&& spec_route_matches(rt, path@, method@)
                &&& forall|j: int|
                    0 <= j < plan.route_index ==> !spec_route_matches(
                        #[trigger] old(self).routes@[j],
                        path@,
                        method@,
                    )
                &&& match chosen {
                    None => {
                        &&& plan.api_key is None
                        &&& plan.api_key_label is None
                        &&& forall|k: int|
                            0 <= k < old(self).selectors@.len() ==> (#[trigger] final(self).selectors@[k]).selector.round_robin_index == old(self).selectors@[k].selector.round_robin_index
                    },
                    Some(si) => {
                        let sel = old(self).selectors@[si].selector;
                        &&& (plan.api_key is Some <==> sel.keys@.len() > 0)
                        &&& (plan.api_key matches Some(k) ==> exists|ki: int|
                            0 <= ki < sel.keys@.len() && k@ == (#[trigger] sel.keys@[ki]).key@)
                        &&& (sel.strategy == crate::config::ApiKeyStrategy::RoundRobin
                            && sel.keys@.len() > 0 ==> {
                            let ki = sel.round_robin_index as int % sel.keys@.len() as int;
                            &&& (plan.api_key matches Some(k) && k@ == sel.keys@[ki].key@)
                            &&& final(self).selectors@[si].selector.round_robin_index == (
                            if sel.round_robin_index == u64::MAX {
                                0u64
                            } else {
                                (sel.round_robin_index + 1) as u64
                            })
                        })
                        &&& forall|k: int|
                            0 <= k < old(self).selectors@.len() && k != si ==> (#[trigger] final(self).selectors@[k]).selector.round_robin_index == old(self).selectors@[k].selector.round_robin_index
                    },
                }
                &&& match plan.api_key {
                    None => {
                        &&& plan.target_url@ == spec_target_url(rt, path@, fq)
                        &&& header_views(plan.headers@) == spec_forward_headers(
                            header_views(request_headers@),
                            opt_view(plan.host),
                            header_views(rt.headers@),
                            None,
                        )
                    },
                    Some(k) => {
                        let sel = old(self).selectors@[chosen.unwrap()].selector;
                        match sel.query_param_name {
                            Some(qpn) => {
                                &&& plan.target_url@ == spec_planned_url(
                                    rt,
                                    path@,
                                    fq,
                                    Some((qpn@, k@)),
                                )
                                &&& header_views(plan.headers@) == spec_forward_headers(
                                    header_views(request_headers@),
                                    opt_view(plan.host),
                                    header_views(rt.headers@),
                                    None,
                                )
                            },
                            None => {
                                &&& plan.target_url@ == spec_target_url(rt, path@, fq)
                                &&& header_views(plan.headers@) == spec_forward_headers(
                                    header_views(request_headers@),
                                    opt_view(plan.host),
                                    header_views(rt.headers@),
                                    Some((sel.header_name@, k@)),
                                )
                            },
                        }
                    },
                }
                &&& match plan.host {
                    Some(h) => spec_authority_of(plan.target_url@) == Some(h@),
                    None => spec_authority_of(plan.target_url@) is None,
                }
            },
    {
        let ri = match find_route(&self.routes, path, method) {
            None => {
                return Err(PlanError::NoRoute);
            },
            Some(i) => i,
        };
        let (ov, fq) = extract_api_key_pool_from_query(query);
        // The override pool supersedes the route's pool when it exists;
        // an unknown override falls back to the route's pool.
        let si_from_route = match &self.routes[ri].api_key_pool {
            Some(p) => find_selector(&self.selectors, p.as_str()),
            None => None,
        };
        let si_opt = match &ov {
            Some(name) => match find_selector(&self.selectors, name.as_str()) {
                Some(i) => Some(i),
                None => si_from_route,
            },
            None => si_from_route,
        };
        let mut api_key: Option<String> = None;
        let mut api_key_label: Option<String> = None;
        match si_opt {
            Some(si) => {
                let picked = self.selectors[si].selector.pick_index();
                match picked {
                    Some(ki) => {
                        let entry = &self.selectors[si].selector.keys[ki];
                        api_key = Some(entry.key.clone());
                        api_key_label = match &entry.label {
                            Some(l) => Some(l.clone()),
                            None => Some(entry.key.clone()),
                        };
                    },
                    None => {},
                }
            },
            None => {},
        }
        let fq_ref: Option<&str> = match &fq {
            Some(s) => Some(s.as_str()),
            None => None,
        };
        let base_url = self.routes[ri].get_target_url(path, fq_ref);
        let mut key_header: Option<HeaderPair> = None;
        let target_url = match (si_opt, &api_key) {
            (Some(si), Some(k)) => {
                match &self.selectors[si].selector.query_param_name {
                    Some(qpn) => {
                        let mut url = base_url;
                        proof {
                            reveal_strlit("&");
                            reveal_strlit("?");
                            reveal_strlit("=");
                            assert("&"@ =~= seq!['&']);
                            assert("?"@ =~= seq!['?']);
                            assert("="@ =~= seq!['=']);
                        }
                        if find_char(url.as_str(), '?').is_some() {
                            url.append("&");
                        } else {
                            url.append("?");
                        }
                        url.append(qpn.as_str());
                        url.append("=");
                        let encoded = percent_encode_all(k.as_str());
                        url.append(encoded.as_str());
                        url
                    },
                    None => {
                        key_header = Some(
                            HeaderPair {
                                name: self.selectors[si].selector.header_name.clone(),
                                value: k.clone(),
                            },
                        );
                        base_url
                    },
                }
            },
            _ => base_url,
        };
        let host = extract_host_from_url(target_url.as_str());
        let host_ref: Option<&String> = match &host {
            Some(h) => Some(h),
            None => None,
        };
        let headers = build_forward_headers(
            request_headers,
            host_ref,
            &self.routes[ri].headers,
            key_header,
        );
        Ok(
            RewritePlan {
                route_index: ri,
                target_url,
                host,
                headers,
                api_key,
                api_key_label,
            },
        )
    }
}

/// The view of an optional string slice.
pub open spec fn opt_str_view(o: Option<&str>) -> Option<Seq<char>> {
    match o {
        Some(s) => Some(s@),
        None => None,
    }
}

// --- laws about the forwarded headers ----------------------------------------------

/// Elements of a filtered sequence are elements of the original.
proof fn lemma_filter_member<A>(s: Seq<A>, pred: spec_fn(A) -> bool, i: int)
    requires
        0 <= i < s.filter(pred).len(),
    ensures
        s.contains(s.filter(pred)[i]),
    decreases s.len(),
{
    reveal(Seq::filter);
    if s.len() > 0 {
        let rest = s.drop_last().filter(pred);
        if i < rest.len() {
            lemma_filter_member(s.drop_last(), pred, i);
            let j = choose|j: int| 0 <= j < s.drop_last().len() && s.drop_last()[j] == rest[i];
            assert(s[j] == s.filter(pred)[i]);
        } else {
            assert(s[s.len() - 1] == s.filter(pred)[i]);
        }
    }
}

/// Filtering twice with one predicate filters once.
proof fn lemma_filter_idempotent<A>(s: Seq<A>, pred: spec_fn(A) -> bool)
    ensures
        s.filter(pred).filter(pred) == s.filter(pred),
    decreases s.len(),
{
    reveal(Seq::filter);
    if s.len() > 0 {
        lemma_filter_idempotent(s.drop_last(), pred);
        if pred(s.last()) {
            assert(s.filter(pred).drop_last() =~= s.drop_last().filter(pred));
        }
    }
}

/// Hop-by-hop removal is complete: the hop-by-hop request headers have no
/// influence on the forwarded set — building it from the request with
/// those headers already removed yields the same set. Together with
/// `lemma_hop_by_hop_case_insensitive`, removal is also
/// ASCII-case-insensitive.
pub proof fn lemma_hop_removal_complete(
    req: Seq<(Seq<char>, Seq<char>)>,
    host: Option<Seq<char>>,
    route_hs: Seq<(Seq<char>, Seq<char>)>,
    key_h: Option<(Seq<char>, Seq<char>)>,
)
    ensures
        spec_forward_headers(req, host, route_hs, key_h) == spec_forward_headers(
            spec_kept_request_headers(req),
            host,
            route_hs,
            key_h,
        ),
{
    lemma_filter_idempotent(req, |h: (Seq<char>, Seq<char>)| !spec_is_hop_by_hop(h.0));
}

/// Every entry of `spec_upsert_all(hs, add)` is an entry of `hs` or of
/// `add`.
proof fn lemma_upsert_all_member(
    hs: Seq<(Seq<char>, Seq<char>)>,
    add: Seq<(Seq<char>, Seq<char>)>,
    i: int,
)
    requires
        0 <= i < spec_upsert_all(hs, add).len(),
    ensures
        hs.contains(spec_upsert_all(hs, add)[i]) || add.contains(spec_upsert_all(hs, add)[i]),
    decreases add.len(),
{
    if add.len() == 0 {
    } else {
        let prev = spec_upsert_all(hs, add.drop_last());
        let out = spec_upsert_all(hs, add);
        if i < out.len() - 1 {
            lemma_filter_member(
                prev,
                |h: (Seq<char>, Seq<char>)| spec_lower(h.0) != spec_lower(add.last().0),
                i,
            );
            let j = choose|j: int| 0 <= j < prev.len() && prev[j] == out[i];
            lemma_upsert_all_member(hs, add.drop_last(), j);
            if add.drop_last().contains(out[i]) {
                let k = choose|k: int| 0 <= k < add.drop_last().len() && add.drop_last()[k] == out[i];
                assert(add[k] == out[i]);
            }
        } else {
            assert(out[i] == add.last());
            assert(add[add.len() - 1] == add.last());
        }
    }
}

/// None of the hop-by-hop names leaks into the forwarded header set: an
/// entry with a hop-by-hop name is the freshly set `Host` entry, a static
/// route header, or the injected credential header — never a request
/// header.
pub proof fn lemma_no_hop_by_hop_leak(
    req: Seq<(Seq<char>, Seq<char>)>,
    host: Option<Seq<char>>,
    route_hs: Seq<(Seq<char>, Seq<char>)>,
    key_h: Option<(Seq<char>, Seq<char>)>,
    i: int,
)
    requires
        0 <= i < spec_forward_headers(req, host, route_hs, key_h).len(),
        spec_is_hop_by_hop(spec_forward_headers(req, host, route_hs, key_h)[i].0),
    ensures
        (host matches Some(h) && spec_forward_headers(req, host, route_hs, key_h)[i] == (
        "host"@,
        h,
        )) || route_hs.contains(spec_forward_headers(req, host, route_hs, key_h)[i])
            || key_h == Some(spec_forward_headers(req, host, route_hs, key_h)[i]),
{
    let base = spec_kept_request_headers(req);
    let with_host = match host {
        Some(h) => spec_upsert_header(base, ("host"@, h)),
        None => base,
    };
    let with_route = spec_upsert_all(with_host, route_hs);
    let out = spec_forward_headers(req, host, route_hs, key_h);
    let e = out[i];
    // The entry traces back through the upsert stages.
    let in_with_route = match key_h {
        Some(h) => {
            if i < out.len() - 1 {
                lemma_filter_member(
                    with_route,
                    |x: (Seq<char>, Seq<char>)| spec_lower(x.0) != spec_lower(h.0),
                    i,
                );
                true
            } else {
                assert(e == h);
                false
            }
        },
        None => true,
    };
    if in_with_route {
        assert(with_route.contains(e));
        let j = choose|j: int| 0 <= j < with_route.len() && with_route[j] == e;
        lemma_upsert_all_member(with_host, route_hs, j);
        if with_host.contains(e) {
            let k = choose|k: int| 0 <= k < with_host.len() && with_host[k] == e;
            match host {
                Some(h) => {
                    if k < with_host.len() - 1 {
                        lemma_filter_member(
                            base,
                            |x: (Seq<char>, Seq<char>)| spec_lower(x.0) != spec_lower("host"@),
                            k,
                        );
                        let m = choose|m: int| 0 <= m < base.len() && base[m] == e;
                        base.lemma_filter_pred(
                            |x: (Seq<char>, Seq<char>)| !spec_is_hop_by_hop(x.0),
                            m,
                        );
                        assert(false);
                    } else {
                        assert(e == ("host"@, h));
                    }
                },
                None => {
                    base.lemma_filter_pred(
                        |x: (Seq<char>, Seq<char>)| !spec_is_hop_by_hop(x.0),
                        k,
                    );
                    assert(false);
                },
            }
        }
    }
}

// --- building the engine --------------------------------------------------------

/// The compiled route `p` carries exactly the fields of the configured
/// route `rt`.
pub open spec fn spec_compiled_from(p: ProxyRoute, rt: RouteConfig) -> bool {
    &&& p.name == rt.name
    &&& p.path_pattern == rt.path
    &&& p.target == rt.target
    &&& p.strip_prefix == rt.strip_prefix
    &&& p.methods@ == rt.methods@
    &&& p.api_key_pool == rt.api_key_pool
    &&& p.headers@ == rt.headers@
    &&& p.description == rt.description
}

impl ProxyEngine {
    /// An engine over the given routes and selectors.
    pub fn new(routes: Vec<ProxyRoute>, selectors: Vec<SelectorEntry>) -> (r: Self)
        ensures
            r.routes == routes,
            r.selectors == selectors,
    {
        ProxyEngine { routes, selectors }
    }

    /// Compile the enabled routes of a configuration, in order. Each
    /// compiled route carries its pool by name; the engine's selector
    /// table resolves it per request.
    pub fn routes_from_config(routes: &Vec<RouteConfig>) -> (r: Vec<ProxyRoute>)
        ensures
            r@.len() == spec_enabled_routes(routes@).len(),
            forall|i: int|
                0 <= i < r@.len() ==> spec_compiled_from(
                    #[trigger] r@[i],
                    spec_enabled_routes(routes@)[i],
                ),
    {
        let mut r: Vec<ProxyRoute> = Vec::new();
        let mut i: usize = 0;
        while i < routes.len()
            invariant
                i <= routes@.len(),
                r@.len() == spec_enabled_routes(routes@.subrange(0, i as int)).len(),
                forall|k: int|
                    0 <= k < r@.len() ==> spec_compiled_from(
                        #[trigger] r@[k],
                        spec_enabled_routes(routes@.subrange(0, i as int))[k],
                    ),
            decreases routes@.len() - i,
        {
            proof {
                let pre1 = routes@.subrange(0, i as int + 1);
                assert(pre1.drop_last() =~= routes@.subrange(0, i as int));
                assert(pre1.last() == routes@[i as int]);
            }
            let rt = &routes[i];
            if rt.enabled {
                let compiled = ProxyRoute {
                    name: match &rt.name {
                        Some(n) => Some(n.clone()),
                        None => None,
                    },
                    path_pattern: rt.path.clone(),
                    target: rt.target.clone(),
                    strip_prefix: rt.strip_prefix,
                    methods: clone_string_list(&rt.methods),
                    api_key_pool: match &rt.api_key_pool {
                        Some(p) => Some(p.clone()),
                        None => None,
                    },
                    headers: clone_header_vec(&rt.headers),
                    description: match &rt.description {
                        Some(d) => Some(d.clone()),
                        None => None,
                    },
                };
                r.push(compiled);
            }
            i = i + 1;
        }
        proof {
            assert(routes@.subrange(0, routes@.len() as int) =~= routes@);
        }
        r
    }

    /// Build one selector per configured pool, in table order.
    pub fn selectors_from_config(pools: &Vec<PoolEntry>) -> (r: Vec<SelectorEntry>)
        ensures
            r@.len() == pools@.len(),
            forall|i: int|
                #![trigger r@[i]]
                0 <= i < pools@.len() ==> {
                    &&& r@[i].name == pools@[i].name
                    &&& r@[i].selector.keys@ == crate::api_key::spec_enabled_keys(
                        pools@[i].pool.keys@,
                    )
                    &&& r@[i].selector.strategy == pools@[i].pool.strategy
                    &&& r@[i].selector.header_name@ == pools@[i].pool.header_name@
                    &&& r@[i].selector.query_param_name == pools@[i].pool.query_param_name
                    &&& r@[i].selector.round_robin_index == 0
                    &&& r@[i].selector.wf()
                },
    {
        let mut r: Vec<SelectorEntry> = Vec::new();
        let mut i: usize = 0;
        while i < pools.len()
            invariant
                i <= pools@.len(),
                r@.len() == i,
                forall|k: int|
                    #![trigger r@[k]]
                    0 <= k < i ==> {
                        &&& r@[k].name == pools@[k].name
                        &&& r@[k].selector.keys@ == crate::api_key::spec_enabled_keys(
                            pools@[k].pool.keys@,
                        )
                        &&& r@[k].selector.strategy == pools@[k].pool.strategy
                        &&& r@[k].selector.header_name@ == pools@[k].pool.header_name@
                        &&& r@[k].selector.query_param_name == pools@[k].pool.query_param_name
                        &&& r@[k].selector.round_robin_index == 0
                        &&& r@[k].selector.wf()
                    },
            decreases pools@.len() - i,
        {
            let entry = SelectorEntry {
                name: pools[i].name.clone(),
                selector: crate::api_key::create_selector(&pools[i].pool),
            };
            r.push(entry);
            i = i + 1;
        }
        r
    }
}

/// Clone a list of strings.
fn clone_string_list(v: &Vec<String>) -> (r: Vec<String>)
    ensures
        r@ == v@,
{
    let mut r: Vec<String> = Vec::new();
    let mut i: usize = 0;
    while i < v.len()
        invariant
            i <= v@.len(),
            r@ =~= v@.subrange(0, i as int),
        decreases v@.len() - i,
    {
        r.push(v[i].clone());
        proof {
            assert(r@ =~= v@.subrange(0, i + 1 as int));
        }
        i = i + 1;
    }
    proof {
        assert(r@ =~= v@);
    }
    r
}

} // verus!
