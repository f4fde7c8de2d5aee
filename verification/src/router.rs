//! The path router: registered patterns with literal and `{param}` segments,
//! candidate filtering by method and segment count, selection of the match
//! with the most literal segments (first registered wins ties), and parameter
//! extraction for the winning route.
use crate::context::Context;
use crate::http_method::HttpMethod;
use crate::http_status::HttpStatus;
use crate::string_map::StringMap;
use crate::context::byte_len;
use crate::context::response_bytes;
use crate::text::dec_chars;
use crate::text::split_char;
use crate::text::split_str;
use crate::text::str_eq;
use crate::text::trim_end_char;
use crate::text::trim_pair;
use crate::text::trim_start_char;
use vstd::prelude::*;

verus! {

/// What a path string denotes as a segment sequence: leading and trailing
/// slashes removed, then split at every slash. The empty path denotes the
/// single empty segment.
pub open spec fn normalize(path: Seq<char>) -> Seq<Seq<char>> {
    split_char(trim_start_char(trim_end_char(path, '/'), '/'), '/')
}

/// A pattern segment that binds rather than compares: `{...}`.
pub open spec fn seg_is_param(seg: Seq<char>) -> bool {
    seg.len() > 0 && seg[0] == '{' && seg[seg.len() - 1] == '}'
}

/// The name a parameter segment binds: the text between the braces.
pub open spec fn param_name(seg: Seq<char>) -> Seq<char> {
    trim_start_char(trim_end_char(seg, '}'), '{')
}

/// A pattern segment accepts an incoming segment when it is a parameter or
/// equal to it.
pub open spec fn seg_matches(pseg: Seq<char>, iseg: Seq<char>) -> bool {
    seg_is_param(pseg) || pseg == iseg
}

/// The views of a sequence of borrowed segments.
pub open spec fn strs_view(p: Seq<&str>) -> Seq<Seq<char>> {
    p.map_values(|s: &str| s@)
}

/// How many of the first `n` pattern positions equal the incoming segment
/// exactly.
pub open spec fn count_eq_upto(pattern: Seq<Seq<char>>, path: Seq<Seq<char>>, n: int) -> int
    decreases n,
{
    if n <= 0 {
        0
    } else {
        count_eq_upto(pattern, path, n - 1)
            + if n - 1 < path.len() && pattern[n - 1] == path[n - 1] {
                1int
            } else {
                0int
            }
    }
}

/// How many pattern positions equal the incoming segment exactly.
pub open spec fn count_eq(pattern: Seq<Seq<char>>, path: Seq<Seq<char>>) -> int {
    count_eq_upto(pattern, path, pattern.len() as int)
}

/// The parameter bindings of the first `n` positions: each parameter
/// position binds its name to the incoming segment, later bindings winning.
pub open spec fn params_upto(pattern: Seq<Seq<char>>, path: Seq<Seq<char>>, n: int) -> Map<Seq<char>, Seq<char>>
    decreases n,
{
    if n <= 0 {
        Map::empty()
    } else {
        let m = params_upto(pattern, path, n - 1);
        if seg_is_param(pattern[n - 1]) {
            m.insert(param_name(pattern[n - 1]), path[n - 1])
        } else {
            m
        }
    }
}

/// The parameter bindings a matched route extracts from a path.
pub open spec fn params_of(pattern: Seq<Seq<char>>, path: Seq<Seq<char>>) -> Map<Seq<char>, Seq<char>> {
    params_upto(pattern, path, path.len() as int)
}

/// What a route invokes once it wins: the application implements this for
/// its handlers.
pub trait Handler {
    /// Serves one request through the context and hands the context back.
    fn handle(&self, ctx: Context) -> (r: Context);
}

/// A registered route: a method, a segment pattern, and the handler to run.
pub struct Route<H> {
    pub method: HttpMethod,
    pub path: Vec<String>,
    pub handler: H,
}

/// Whether this segment binds rather than compares.
fn seg_param_exec(p: &str) -> (r: bool)
    ensures
        r == seg_is_param(p@),
{
    let plen = p.unicode_len();
    plen > 0 && p.get_char(0) == '{' && p.get_char(plen - 1) == '}'
}

impl<H> Route<H> {
    /// The pattern as a segment sequence.
    pub open spec fn pattern(&self) -> Seq<Seq<char>> {
        self.path.deep_view()
    }

    /// Registers a pattern: the path is normalized once, and the segment
    /// count is fixed from then on.
    pub fn new(method: HttpMethod, path: &str, handler: H) -> (r: Route<H>)
        ensures
            r.method == method,
            r.pattern() == normalize(path@),
            r.handler == handler,
    {
        let trimmed = trim_pair(path, '/', '/');
        let segs = split_str(trimmed, '/');
        proof {
            assert(segs.deep_view() =~~= segs@.map_values(|x: String| x@));
        }
        Route { method, path: segs, handler }
    }

    /// Whether position `index` of this route accepts the incoming segment:
    /// yes for a parameter segment, for a literal only on exact equality,
    /// and never past the pattern's end.
    pub fn compare_path_at(&self, segment: &str, index: usize) -> (r: bool)
        ensures
            r == (index < self.pattern().len() && seg_matches(self.pattern()[index as int], segment@)),
    {
        if index >= self.path.len() {
            return false;
        }
        let p = &self.path[index];
        if seg_param_exec(p.as_str()) {
            return true;
        }
        str_eq(p.as_str(), segment)
    }

    /// How many positions of `path` this route's pattern matches exactly.
    pub fn matches(&self, path: &[&str]) -> (r: usize)
        ensures
            r == count_eq(self.pattern(), strs_view(path@)),
    {
        let mut count: usize = 0;
        let mut i: usize = 0;
        let n = self.path.len();
        while i < n
            invariant
                0 <= i <= n,
                n == self.pattern().len(),
                count <= i,
                count == count_eq_upto(self.pattern(), strs_view(path@), i as int),
            decreases n - i,
        {
            if i < path.len() {
                let seg: &str = *vstd::slice::slice_index_get(path, i);
                if str_eq(self.path[i].as_str(), seg) {
                    count += 1;
                }
            }
            i += 1;
        }
        count
    }

    /// Stores this route's parameter bindings for `path` in the context:
    /// every parameter position binds its name to the incoming segment.
    pub fn set_path_params(&self, path: &[&str], ctx: &mut Context)
        requires
            path@.len() <= self.pattern().len(),
            old(ctx).wf(),
        ensures
            final(ctx).wf(),
            final(ctx).path_params@ == params_of(self.pattern(), strs_view(path@)),
            final(ctx).request == old(ctx).request,
            final(ctx).response_headers == old(ctx).response_headers,
            final(ctx).written == old(ctx).written,
    {
        let mut params = StringMap::new();
        let mut i: usize = 0;
        while i < path.len()
            invariant
                0 <= i <= path@.len() <= self.pattern().len(),
                params.wf(),
                params@ == params_upto(self.pattern(), strs_view(path@), i as int),
            decreases path@.len() - i,
        {
            let p = &self.path[i];
            if seg_param_exec(p.as_str()) {
                let name = trim_pair(p.as_str(), '{', '}');
                let seg: &str = *vstd::slice::slice_index_get(path, i);
                params.insert(name.to_owned(), seg.to_owned());
            }
            i += 1;
        }
        ctx.path_params = params;
    }
}

/// The candidate test: same method, same segment count, and every position
/// accepted.
pub open spec fn is_candidate<H>(routes: Seq<Route<H>>, method: HttpMethod, path: Seq<Seq<char>>, j: int) -> bool {
    &&& routes[j].method == method
    &&& routes[j].pattern().len() == path.len()
    &&& forall|k: int| 0 <= k < path.len() ==> seg_matches(#[trigger] routes[j].pattern()[k], path[k])
}

/// The winning route among the first `n`: the candidate with the most exact
/// segment matches, the first registered winning ties.
pub open spec fn best_upto<H>(routes: Seq<Route<H>>, method: HttpMethod, path: Seq<Seq<char>>, n: int) -> Option<int>
    decreases n,
{
    if n <= 0 {
        None
    } else {
        let prev = best_upto(routes, method, path, n - 1);
        if is_candidate(routes, method, path, n - 1) && (match prev {
            None => true,
            Some(p) => count_eq(routes[n - 1].pattern(), path) > count_eq(routes[p].pattern(), path),
        }) {
            Some(n - 1)
        } else {
            prev
        }
    }
}

/// The winning route for a method and a segmented path, if any.
pub open spec fn best_route<H>(routes: Seq<Route<H>>, method: HttpMethod, path: Seq<Seq<char>>) -> Option<int> {
    best_upto(routes, method, path, routes.len() as int)
}

/// The winner is a candidate.
pub proof fn lemma_best_is_candidate<H>(routes: Seq<Route<H>>, method: HttpMethod, path: Seq<Seq<char>>, n: int)
    requires
        n <= routes.len(),
        best_upto(routes, method, path, n) is Some,
    ensures
        0 <= best_upto(routes, method, path, n).unwrap() < n,
        is_candidate(routes, method, path, best_upto(routes, method, path, n).unwrap()),
    decreases n,
{
    if n > 0 {
        if best_upto(routes, method, path, n) != best_upto(routes, method, path, n - 1) {
        } else {
            lemma_best_is_candidate(routes, method, path, n - 1);
        }
    }
}

/// The routing table. Populated once at setup, then only consulted.
pub struct Router<H> {
    pub routes: Vec<Route<H>>,
}

impl<H> Router<H> {
    /// An empty table.
    pub fn new() -> (r: Router<H>)
        ensures
            r.routes@.len() == 0,
    {
        Router { routes: Vec::new() }
    }

    /// Appends a route for the given method.
    fn add(&mut self, method: HttpMethod, path: &str, handler: H)
        ensures
            final(self).routes@.len() == old(self).routes@.len() + 1,
            forall|i: int| 0 <= i < old(self).routes@.len() ==> final(self).routes@[i] == old(self).routes@[i],
            final(self).routes@.last().method == method,
            final(self).routes@.last().pattern() == normalize(path@),
            final(self).routes@.last().handler == handler,
    {
        self.routes.push(Route::new(method, path, handler));
    }

    /// Registers a route answering `GET` on the pattern.
    pub fn get(&mut self, path: &str, handler: H)
        ensures
            final(self).routes@.len() == old(self).routes@.len() + 1,
            forall|i: int| 0 <= i < old(self).routes@.len() ==> final(self).routes@[i] == old(self).routes@[i],
            final(self).routes@.last().method == HttpMethod::Get,
            final(self).routes@.last().pattern() == normalize(path@),
            final(self).routes@.last().handler == handler,
    {
        self.add(HttpMethod::Get, path, handler);
    }

    /// Registers a route answering `POST` on the pattern.
    pub fn post(&mut self, path: &str, handler: H)
        ensures
            final(self).routes@.len() == old(self).routes@.len() + 1,
            forall|i: int| 0 <= i < old(self).routes@.len() ==> final(self).routes@[i] == old(self).routes@[i],
            final(self).routes@.last().method == HttpMethod::Post,
            final(self).routes@.last().pattern() == normalize(path@),
            final(self).routes@.last().handler == handler,
    {
        self.add(HttpMethod::Post, path, handler);
    }

    /// Registers a route answering `PUT` on the pattern.
    pub fn put(&mut self, path: &str, handler: H)
        ensures
            final(self).routes@.len() == old(self).routes@.len() + 1,
            forall|i: int| 0 <= i < old(self).routes@.len() ==> final(self).routes@[i] == old(self).routes@[i],
            final(self).routes@.last().method == HttpMethod::Put,
            final(self).routes@.last().pattern() == normalize(path@),
            final(self).routes@.last().handler == handler,
    {
        self.add(HttpMethod::Put, path, handler);
    }

    /// Registers a route answering `DELETE` on the pattern.
    pub fn delete(&mut self, path: &str, handler: H)
        ensures
            final(self).routes@.len() == old(self).routes@.len() + 1,
            forall|i: int| 0 <= i < old(self).routes@.len() ==> final(self).routes@[i] == old(self).routes@[i],
            final(self).routes@.last().method == HttpMethod::Delete,
            final(self).routes@.last().pattern() == normalize(path@),
            final(self).routes@.last().handler == handler,
    {
        self.add(HttpMethod::Delete, path, handler);
    }

    /// Registers a route answering `PATCH` on the pattern.
    pub fn patch(&mut self, path: &str, handler: H)
        ensures
            final(self).routes@.len() == old(self).routes@.len() + 1,
            forall|i: int| 0 <= i < old(self).routes@.len() ==> final(self).routes@[i] == old(self).routes@[i],
            final(self).routes@.last().method == HttpMethod::Patch,
            final(self).routes@.last().pattern() == normalize(path@),
            final(self).routes@.last().handler == handler,
    {
        self.add(HttpMethod::Patch, path, handler);
    }

    /// The route `best_route` selects for this method and path, if any.
    pub fn get_route(&self, method: HttpMethod, path: &[&str]) -> (r: Option<&Route<H>>)
        ensures
            match best_route(self.routes@, method, strs_view(path@)) {
                Some(j) => r matches Some(rt) && *rt == self.routes@[j],
                None => r is None,
            },
    {
        let ghost pview = strs_view(path@);
        let mut best: Option<usize> = None;
        let mut best_count: usize = 0;
        let mut j: usize = 0;
        let n = self.routes.len();
        while j < n
            invariant
                0 <= j <= n,
                n == self.routes@.len(),
                pview == strs_view(path@),
                match best {
                    None => best_upto(self.routes@, method, pview, j as int) is None,
                    Some(b) => {
                        &&& 0 <= b < j
                        &&& best_upto(self.routes@, method, pview, j as int) == Some(b as int)
                        &&& best_count == count_eq(self.routes@[b as int].pattern(), pview)
                    },
                },
            decreases n - j,
        {
            let route = &self.routes[j];
            let mut cand = route.method == method && route.path.len() == path.len();
            if cand {
                let mut k: usize = 0;
                let mut all_ok = true;
                while k < path.len()
                    invariant
                        0 <= k <= path@.len(),
                        pview == strs_view(path@),
                        route == self.routes@[j as int],
                        route.pattern().len() == path@.len(),
                        all_ok <==> (forall|m: int| 0 <= m < k ==> seg_matches(#[trigger] route.pattern()[m], pview[m])),
                    decreases path@.len() - k,
                {
                    let seg: &str = *vstd::slice::slice_index_get(path, k);
                    if !route.compare_path_at(seg, k) {
                        all_ok = false;
                    }
                    k += 1;
                }
                cand = all_ok;
                proof {
                    if cand {
                        assert(is_candidate(self.routes@, method, pview, j as int));
                    } else {
                        assert(!is_candidate(self.routes@, method, pview, j as int));
                    }
                }
            } else {
                proof {
                    assert(!is_candidate(self.routes@, method, pview, j as int));
                }
            }
            if cand {
                let c = route.matches(path);
                let better = match best {
                    None => true,
                    Some(_) => c > best_count,
                };
                if better {
                    best = Some(j);
                    best_count = c;
                }
            }
            j += 1;
        }
        match best {
            Some(b) => Some(&self.routes[b]),
            None => None,
        }
    }
}

impl<H: Handler> Router<H> {
    /// Serves one parsed request: the path is normalized, the best route is
    /// selected, its parameters are bound into the context, and its handler
    /// runs. Without a match the context answers `404 Not Found` itself.
    pub fn handle_request(&self, ctx: Context) -> (r: Context)
        requires
            ctx.wf(),
        ensures
            best_route(self.routes@, ctx.request.method, normalize(ctx.request.path@)) is None ==> {
                &&& r.wf()
                &&& r.request == ctx.request
                &&& r.path_params == ctx.path_params
                &&& r.response_headers@ == ctx.response_headers@
                    .insert("Content-Type"@, "text/plain"@)
                    .insert("Content-Length"@, dec_chars(byte_len("Not Found"@)))
                &&& r.written@ == ctx.written@ + response_bytes(
                    HttpStatus::NotFound,
                    r.response_headers.kvs(),
                    "Not Found"@,
                )
            },
    {
        let path_owned = ctx.request.path.clone();
        let trimmed = trim_pair(path_owned.as_str(), '/', '/');
        let segs = split_str(trimmed, '/');
        let mut seg_refs: Vec<&str> = Vec::new();
        let mut i: usize = 0;
        while i < segs.len()
            invariant
                0 <= i <= segs@.len(),
                seg_refs@.len() == i,
                forall|k: int| 0 <= k < i ==> seg_refs@[k]@ == segs@[k]@,
            decreases segs@.len() - i,
        {
            seg_refs.push(segs[i].as_str());
            i += 1;
        }
        proof {
            assert(strs_view(seg_refs@) =~~= segs@.map_values(|x: String| x@));
            assert(strs_view(seg_refs@) == normalize(ctx.request.path@));
        }
        let route = self.get_route(ctx.request.method, seg_refs.as_slice());
        match route {
            Some(rt) => {
                proof {
                    lemma_best_is_candidate(self.routes@, ctx.request.method, strs_view(seg_refs@), self.routes@.len() as int);
                }
                let mut ctx = ctx;
                rt.set_path_params(seg_refs.as_slice(), &mut ctx);
                rt.handler.handle(ctx)
            },
            None => {
                let mut ctx = ctx;
                ctx.string(HttpStatus::NotFound, "Not Found");
                ctx
            },
        }
    }
}

/// A route wins only for paths with exactly as many segments as its own
/// pattern: there is no prefix or suffix matching.
pub proof fn lemma_match_exact_segment_count<H>(routes: Seq<Route<H>>, method: HttpMethod, path: Seq<Seq<char>>)
    requires
        best_route(routes, method, path) is Some,
    ensures
        routes[best_route(routes, method, path).unwrap()].pattern().len() == path.len(),
{
    lemma_best_is_candidate(routes, method, path, routes.len() as int);
}

/// A literal segment accepts exactly its own text.
pub proof fn lemma_literal_segment(pseg: Seq<char>, iseg: Seq<char>)
    requires
        !seg_is_param(pseg),
    ensures
        seg_matches(pseg, iseg) <==> pseg == iseg,
{
}

proof fn lemma_params_upto_preserved(pattern: Seq<Seq<char>>, path: Seq<Seq<char>>, i: int, n: int)
    requires
        0 <= i < n <= path.len() <= pattern.len(),
        seg_is_param(pattern[i]),
        forall|j: int| i < j < path.len() && seg_is_param(#[trigger] pattern[j])
            ==> param_name(pattern[j]) != param_name(pattern[i]),
    ensures
        params_upto(pattern, path, n).contains_key(param_name(pattern[i])),
        params_upto(pattern, path, n)[param_name(pattern[i])] == path[i],
    decreases n,
{
    if n == i + 1 {
    } else {
        lemma_params_upto_preserved(pattern, path, i, n - 1);
    }
}

/// A parameter segment accepts every incoming segment at its position and
/// binds that segment under the parameter's name, provided no later
/// parameter position reuses the name (parameter names are unique within
/// one pattern by precondition).
pub proof fn lemma_param_segment(pattern: Seq<Seq<char>>, path: Seq<Seq<char>>, i: int)
    requires
        0 <= i < path.len() <= pattern.len(),
        seg_is_param(pattern[i]),
        forall|j: int| i < j < path.len() && seg_is_param(#[trigger] pattern[j])
            ==> param_name(pattern[j]) != param_name(pattern[i]),
    ensures
        seg_matches(pattern[i], path[i]),
        params_of(pattern, path).contains_key(param_name(pattern[i])),
        params_of(pattern, path)[param_name(pattern[i])] == path[i],
{
    lemma_params_upto_preserved(pattern, path, i, path.len() as int);
}

proof fn lemma_best_upto_props<H>(routes: Seq<Route<H>>, method: HttpMethod, path: Seq<Seq<char>>, n: int)
    requires
        n <= routes.len(),
    ensures
        best_upto(routes, method, path, n) is None
            ==> forall|k: int| 0 <= k < n ==> !is_candidate(routes, method, path, k),
        best_upto(routes, method, path, n) matches Some(j) ==> {
            &&& 0 <= j < n
            &&& is_candidate(routes, method, path, j)
            &&& forall|k: int| 0 <= k < n && is_candidate(routes, method, path, k)
                ==> count_eq(routes[k].pattern(), path) <= count_eq(routes[j].pattern(), path)
            &&& forall|k: int| 0 <= k < j && is_candidate(routes, method, path, k)
                ==> count_eq(routes[k].pattern(), path) < count_eq(routes[j].pattern(), path)
        },
    decreases n,
{
    if n > 0 {
        lemma_best_upto_props(routes, method, path, n - 1);
    }
}

/// The selection rule in full: a missed lookup means no route was a
/// candidate at all, and a winning route is a candidate that no other
/// candidate beats on exact-literal matches; a candidate registered earlier
/// wins a tie. In particular, when two routes of the same method and
/// segment count both match, the one with strictly more literal matches is
/// selected.
pub proof fn lemma_best_is_most_specific<H>(routes: Seq<Route<H>>, method: HttpMethod, path: Seq<Seq<char>>)
    ensures
        best_route(routes, method, path) is None
            ==> forall|k: int| 0 <= k < routes.len() ==> !is_candidate(routes, method, path, k),
        best_route(routes, method, path) matches Some(j) ==> {
            &&& 0 <= j < routes.len()
            &&& is_candidate(routes, method, path, j)
            &&& forall|k: int| 0 <= k < routes.len() && is_candidate(routes, method, path, k)
                ==> count_eq(routes[k].pattern(), path) <= count_eq(routes[j].pattern(), path)
            &&& forall|k: int| 0 <= k < j && is_candidate(routes, method, path, k)
                ==> count_eq(routes[k].pattern(), path) < count_eq(routes[j].pattern(), path)
        },
{
    lemma_best_upto_props(routes, method, path, routes.len() as int);
}

} // verus!
