//! Path routing: parses an inbound event path into a service segment and a
//! remainder, and resolves the service against the immutable route table.

use vstd::prelude::*;
use crate::text::{
    chars_eq_str, chars_string, join_chars, join_seq, lemma_join_split, lemma_split_concat,
    lemma_split_no_sep, split_chars, split_seq, str_chars, subvec,
};

verus! {

/// The default per-target timeout, in seconds, used when a route does not
/// configure one.
pub fn default_timeout() -> (r: u64)
    ensures
        r == 30,
{
    30
}

/// A named delivery destination: base URL plus a per-target timeout.
#[derive(Debug, Clone)]
pub struct RouteTarget {
    pub name: String,
    pub url: String,
    pub timeout_seconds: u64,
}

/// Mathematical model of a `RouteTarget`.
pub ghost struct RouteTargetV {
    pub name: Seq<char>,
    pub url: Seq<char>,
    pub timeout_seconds: u64,
}

impl View for RouteTarget {
    type V = RouteTargetV;

    open spec fn view(&self) -> RouteTargetV {
        RouteTargetV { name: self.name@, url: self.url@, timeout_seconds: self.timeout_seconds }
    }
}

/// A routing failure, as seen by the intake loop.
#[derive(Debug, Clone, PartialEq, Eq, Structural)]
pub enum RouteError {
    /// The path does not have the `/webhook/<service>/...` shape.
    InvalidPath,
    /// The service is not configured and the default policy drops the event.
    NoRoute,
    /// The service is not configured, a default forward URL is configured,
    /// but forwarding to the default target is not supported.
    DefaultForwardUnsupported,
}

/// The routing configuration: service name to target, plus a default policy.
#[derive(Debug)]
pub struct WebhookRouter {
    pub routes: Vec<RouteTarget>,
    pub default_action: String,
    pub default_url: Option<String>,
}

/// Mathematical model of a `WebhookRouter`.
pub ghost struct WebhookRouterV {
    pub routes: Seq<RouteTargetV>,
    pub default_action: Seq<char>,
    pub default_url: Option<Seq<char>>,
}

impl View for WebhookRouter {
    type V = WebhookRouterV;

    open spec fn view(&self) -> WebhookRouterV {
        WebhookRouterV {
            routes: self.routes@.map_values(|t: RouteTarget| t@),
            default_action: self.default_action@,
            default_url: match self.default_url {
                Option::Some(u) => Option::Some(u@),
                Option::None => Option::None,
            },
        }
    }
}

/// A path with its single leading slash removed, if present.
pub open spec fn strip_lead(p: Seq<char>) -> Seq<char> {
    if p.len() > 0 && p[0] == '/' {
        p.drop_first()
    } else {
        p
    }
}

/// The slash-separated segments of a path, after the leading slash.
pub open spec fn path_parts(p: Seq<char>) -> Seq<Seq<char>> {
    split_seq(strip_lead(p), '/')
}

/// Whether a path has the required `/webhook/<service>/...` shape.
pub open spec fn path_ok(p: Seq<char>) -> bool {
    path_parts(p).len() >= 2 && path_parts(p)[0] == "webhook"@
}

/// The service segment of a well-shaped path.
pub open spec fn path_service(p: Seq<char>) -> Seq<char> {
    path_parts(p)[1]
}

/// The forwarding remainder: the segments after the service, rejoined and
/// prefixed with one slash; `/` when there are none.
pub open spec fn path_remainder(p: Seq<char>) -> Seq<char> {
    if path_parts(p).len() > 2 {
        seq!['/'] + join_seq(path_parts(p).skip(2), '/')
    } else {
        seq!['/']
    }
}

/// First-match lookup of a service name in the route table.
pub open spec fn lookup_route(rs: Seq<RouteTargetV>, name: Seq<char>) -> Option<RouteTargetV>
    decreases rs.len(),
{
    if rs.len() == 0 {
        Option::None
    } else if rs[0].name == name {
        Option::Some(rs[0])
    } else {
        lookup_route(rs.drop_first(), name)
    }
}

/// What routing decides for a path, as a total specification.
pub ghost enum RouteDecision {
    Target(RouteTargetV, Seq<char>),
    InvalidPath,
    NoRoute,
    DefaultForwardUnsupported,
}

/// The routing decision for a path against a route table.
pub open spec fn route_spec(rt: WebhookRouterV, p: Seq<char>) -> RouteDecision {
    if !path_ok(p) {
        RouteDecision::InvalidPath
    } else {
        match lookup_route(rt.routes, path_service(p)) {
            Option::Some(t) => RouteDecision::Target(t, path_remainder(p)),
            Option::None => {
                if rt.default_action == "forward"@ && rt.default_url is Some {
                    RouteDecision::DefaultForwardUnsupported
                } else {
                    RouteDecision::NoRoute
                }
            },
        }
    }
}

proof fn lemma_lookup_first(rs: Seq<RouteTargetV>, name: Seq<char>, i: int)
    requires
        0 <= i < rs.len(),
        forall|j: int| 0 <= j < i ==> rs[j].name != name,
        rs[i].name == name,
    ensures
        lookup_route(rs, name) == Option::Some(rs[i]),
    decreases i,
{
    if i > 0 {
        lemma_lookup_first(rs.drop_first(), name, i - 1);
    }
}

proof fn lemma_lookup_none(rs: Seq<RouteTargetV>, name: Seq<char>)
    requires
        forall|j: int| 0 <= j < rs.len() ==> rs[j].name != name,
    ensures
        lookup_route(rs, name) is None,
    decreases rs.len(),
{
    if rs.len() > 0 {
        lemma_lookup_none(rs.drop_first(), name);
    }
}

/// Exec count of leading spaces.
fn indent_of_exec(v: &[char]) -> (r: usize)
    ensures
        r as int == indent_of(v@),
        r <= v@.len(),
{
    let mut i: usize = 0;
    proof {
        assert(v@.skip(0) =~= v@);
    }
    while i < v.len() && v[i] == ' '
        invariant
            i <= v@.len(),
            indent_of(v@) == i + indent_of(v@.skip(i as int)),
            forall|j: int| 0 <= j < i ==> v@[j] == ' ',
        decreases v@.len() - i,
    {
        proof {
            assert(v@.skip(i as int)[0] == v@[i as int]);
            assert(v@.skip(i as int).drop_first() =~= v@.skip(i + 1 as int));
        }
        i = i + 1;
    }
    proof {
        if i < v@.len() {
            assert(v@.skip(i as int)[0] == v@[i as int]);
        }
        assert(indent_of(v@.skip(i as int)) == 0);
    }
    i
}

/// Exec blank-line test.
fn is_blank_exec(v: &[char]) -> (b: bool)
    ensures
        b == is_blank_line(v@),
{
    let mut i: usize = 0;
    while i < v.len()
        invariant
            i <= v@.len(),
            forall|j: int| 0 <= j < i ==> v@[j] == ' ',
        decreases v@.len() - i,
    {
        if v[i] != ' ' {
            return false;
        }
        i = i + 1;
    }
    true
}

/// Exec first-colon search.
fn colon_idx_exec(v: &[char]) -> (r: Option<usize>)
    ensures
        match r {
            Some(i) => i < v@.len() && colon_idx(v@) == Option::Some(i as int),
            None => colon_idx(v@) is None,
        },
{
    let mut i: usize = 0;
    proof {
        assert(v@.skip(0) =~= v@);
    }
    while i < v.len() && v[i] != ':'
        invariant
            i <= v@.len(),
            colon_idx(v@) matches Option::Some(c) ==> c == i + match colon_idx(v@.skip(i as int)) {
                Option::Some(c2) => c2,
                Option::None => 0,
            },
            (colon_idx(v@) is Some) == (colon_idx(v@.skip(i as int)) is Some),
        decreases v@.len() - i,
    {
        proof {
            assert(v@.skip(i as int)[0] == v@[i as int]);
            assert(v@.skip(i as int).drop_first() =~= v@.skip(i + 1 as int));
        }
        i = i + 1;
    }
    proof {
        if i < v@.len() {
            assert(v@.skip(i as int)[0] == v@[i as int]);
        }
    }
    if i < v.len() {
        Some(i)
    } else {
        None
    }
}

/// Exec trimming and unquoting of a scalar value.
fn clean_value_exec(v: &[char]) -> (r: Vec<char>)
    ensures
        r@ == clean_value(v@),
{
    let mut lo: usize = 0;
    proof {
        assert(v@.skip(0) =~= v@);
    }
    while lo < v.len() && v[lo] == ' '
        invariant
            lo <= v@.len(),
            trim_lead(v@) == trim_lead(v@.skip(lo as int)),
            forall|j: int| 0 <= j < lo ==> v@[j] == ' ',
        decreases v@.len() - lo,
    {
        proof {
            assert(v@.skip(lo as int)[0] == v@[lo as int]);
            assert(v@.skip(lo as int).drop_first() =~= v@.skip(lo + 1 as int));
        }
        lo = lo + 1;
    }
    proof {
        if lo < v@.len() {
            assert(v@.skip(lo as int)[0] == v@[lo as int]);
        }
        assert(trim_lead(v@) == v@.skip(lo as int));
    }
    let mut hi: usize = v.len();
    proof {
        assert(v@.skip(lo as int).take(hi - lo) =~= v@.skip(lo as int));
    }
    while hi > lo && v[hi - 1] == ' '
        invariant
            lo <= hi <= v@.len(),
            trim_trail(v@.skip(lo as int)) == trim_trail(v@.skip(lo as int).take(hi - lo)),
            forall|j: int| hi <= j < v@.len() ==> v@[j] == ' ',
        decreases hi,
    {
        proof {
            let cur = v@.skip(lo as int).take(hi - lo);
            assert(cur.last() == v@[hi - 1]);
            assert(cur.drop_last() =~= v@.skip(lo as int).take(hi - 1 - lo));
        }
        hi = hi - 1;
    }
    proof {
        let cur = v@.skip(lo as int).take(hi - lo);
        if hi > lo {
            assert(cur.last() == v@[hi - 1]);
        }
        assert(trim_trail(cur) == cur);
    }
    let trimmed = subvec(v, lo, hi);
    proof {
        assert(trimmed@ =~= v@.skip(lo as int).take(hi - lo));
        assert(trimmed@ == trim_trail(trim_lead(v@)));
    }
    if trimmed.len() >= 2 && trimmed[0] == '"' && trimmed[trimmed.len() - 1] == '"' {
        let inner = subvec(trimmed.as_slice(), 1, trimmed.len() - 1);
        proof {
            assert(inner@ =~= unquote(trimmed@));
        }
        inner
    } else {
        proof {
            assert(trimmed@ == unquote(trimmed@));
        }
        trimmed
    }
}

/// Exec closing of the route being collected.
#[verifier::loop_isolation(false)]
fn close_route_exec(st: CfgState) -> (r: Option<CfgState>)
    ensures
        match r {
            Some(st2) => close_route(st@) == Option::Some(st2@),
            None => close_route(st@) is None,
        },
{
    let ghost stv = st@;
    let CfgState {
        section,
        mut routes,
        cur_name,
        cur_url,
        cur_timeout,
        saw_routes,
        saw_default,
        default_action,
        default_url,
    } = st;
    match cur_name {
        None => Some(
            CfgState {
                section,
                routes,
                cur_name: None,
                cur_url,
                cur_timeout,
                saw_routes,
                saw_default,
                default_action,
                default_url,
            },
        ),
        Some(name) => match cur_url {
            None => None,
            Some(url) => {
                let name_chars = str_chars(name.as_str());
                let mut i: usize = 0;
                while i < routes.len()
                    invariant
                        i <= routes@.len(),
                        stv.routes.len() == routes@.len(),
                        stv.routes == routes@.map_values(|t: RouteTarget| t@),
                        name_chars@ == name@,
                        stv.cur_name == Option::Some(name@),
                        stv.cur_url is Some,
                        forall|j: int| 0 <= j < i ==> stv.routes[j].name != name@,
                    decreases routes@.len() - i,
                {
                    if chars_eq_str(name_chars.as_slice(), routes[i].name.as_str()) {
                        proof {
                            lemma_lookup_first(stv.routes, name@, i as int);
                            assert(stv.cur_name == Option::Some(name@));
                            assert(stv.cur_url is Some);
                            assert(lookup_route(stv.routes, name@) is Some);
                            assert(close_route(stv) is None);
                        }
                        return None;
                    }
                    i = i + 1;
                }
                proof {
                    lemma_lookup_none(stv.routes, name@);
                }
                let timeout_seconds: u64 = match cur_timeout {
                    Some(t) => t,
                    None => default_timeout(),
                };
                let target = RouteTarget { name, url, timeout_seconds };
                let ghost tv = target@;
                routes.push(target);
                proof {
                    assert(routes@.map_values(|t: RouteTarget| t@) =~= stv.routes.push(tv));
                }
                Some(
                    CfgState {
                        section,
                        routes,
                        cur_name: None,
                        cur_url: None,
                        cur_timeout: None,
                        saw_routes,
                        saw_default,
                        default_action,
                        default_url,
                    },
                )
            },
        },
    }
}

/// Exec application of one document line to the parser state.
fn cfg_step_exec(st: CfgState, raw: &[char]) -> (r: Option<CfgState>)
    ensures
        match r {
            Some(st2) => cfg_step(st@, raw@) == Option::Some(st2@),
            None => cfg_step(st@, raw@) is None,
        },
{
    let line: Vec<char> = if raw.len() > 0 && raw[raw.len() - 1] == '\r' {
        subvec(raw, 0, raw.len() - 1)
    } else {
        subvec(raw, 0, raw.len())
    };
    proof {
        if raw@.len() > 0 && raw@.last() == '\r' {
            assert(line@ =~= strip_cr(raw@));
        } else {
            assert(line@ =~= strip_cr(raw@));
        }
    }
    let v = line.as_slice();
    let ind = indent_of_exec(v);
    if is_blank_exec(v) || (ind < line.len() && v[ind] == '#') {
        return Some(st);
    }
    let content = subvec(v, ind, line.len());
    proof {
        assert(content@ =~= line@.skip(ind as int));
    }
    let ci = match colon_idx_exec(content.as_slice()) {
        Some(ci) => ci,
        None => {
            return None;
        },
    };
    let key = subvec(content.as_slice(), 0, ci);
    let val = clean_value_exec(subvec(content.as_slice(), ci + 1, content.len()).as_slice());
    proof {
        assert(key@ =~= content@.take(ci as int));
        assert(content@.skip(ci + 1 as int) =~= content@.subrange(
            ci + 1 as int,
            content@.len() as int,
        ));
    }
    if key.len() == 0 {
        return None;
    }
    if ind == 0 {
        let st1 = match close_route_exec(st) {
            Some(x) => x,
            None => {
                return None;
            },
        };
        if chars_eq_str(key.as_slice(), "routes") && val.len() == 0 {
            Some(CfgState { section: Section::Routes, saw_routes: true, ..st1 })
        } else if chars_eq_str(key.as_slice(), "default") && val.len() == 0 {
            Some(CfgState { section: Section::Default, saw_default: true, ..st1 })
        } else {
            Some(CfgState { section: Section::Skip, ..st1 })
        }
    } else if ind == 2 {
        match st.section {
            Section::Routes => {
                if val.len() == 0 {
                    let st1 = match close_route_exec(st) {
                        Some(x) => x,
                        None => {
                            return None;
                        },
                    };
                    let name = chars_string(key.as_slice());
                    Some(CfgState { cur_name: Some(name), ..st1 })
                } else {
                    None
                }
            },
            Section::Default => {
                if chars_eq_str(key.as_slice(), "action") {
                    let a = chars_string(val.as_slice());
                    Some(CfgState { default_action: Some(a), ..st })
                } else if chars_eq_str(key.as_slice(), "url") {
                    let u = chars_string(val.as_slice());
                    Some(CfgState { default_url: Some(u), ..st })
                } else {
                    Some(st)
                }
            },
            Section::Skip => Some(st),
            Section::Top => None,
        }
    } else if ind == 4 {
        match st.section {
            Section::Routes => {
                if st.cur_name.is_some() {
                    if chars_eq_str(key.as_slice(), "url") {
                        let u = chars_string(val.as_slice());
                        Some(CfgState { cur_url: Some(u), ..st })
                    } else if chars_eq_str(key.as_slice(), "timeout_seconds") {
                        let vs = chars_string(val.as_slice());
                        match crate::config::parse_unsigned(vs.as_str(), u64::MAX) {
                            Some(n) => Some(CfgState { cur_timeout: Some(n), ..st }),
                            None => None,
                        }
                    } else {
                        Some(st)
                    }
                } else {
                    None
                }
            },
            Section::Skip => Some(st),
            _ => None,
        }
    } else {
        if matches!(st.section, Section::Skip) {
            Some(st)
        } else {
            None
        }
    }
}

impl WebhookRouter {
    /// Build the route table from the text of the route configuration
    /// document, exactly as `parse_routes_yaml` reads it.
    pub fn from_yaml(yaml: &str) -> (r: Result<WebhookRouter, RoutesError>)
        ensures
            match r {
                Ok(router) => parse_routes_yaml(yaml@) == Option::Some(router@),
                Err(RoutesError::Malformed) => parse_routes_yaml(yaml@) is None,
            },
    {
        let chars = str_chars(yaml);
        let lines = split_chars(chars.as_slice(), '\n');
        let ghost lv = lines.deep_view();
        let mut st = CfgState {
            section: Section::Top,
            routes: Vec::new(),
            cur_name: None,
            cur_url: None,
            cur_timeout: None,
            saw_routes: false,
            saw_default: false,
            default_action: None,
            default_url: None,
        };
        proof {
            assert(st@.routes =~= cfg_init().routes);
            assert(st@ == cfg_init());
        }
        let mut i: usize = 0;
        proof {
            assert(lv.skip(0) =~= lv);
        }
        while i < lines.len()
            invariant
                i <= lines@.len(),
                lv == lines.deep_view(),
                lv.len() == lines@.len(),
                lv == split_seq(yaml@, '\n'),
                cfg_fold(lv.skip(i as int), st@) == cfg_fold(lv, cfg_init()),
            decreases lines@.len() - i,
        {
            proof {
                assert(lv.skip(i as int)[0] == lv[i as int]);
                assert(lv[i as int] == lines@[i as int]@);
                assert(lv.skip(i as int).drop_first() =~= lv.skip(i + 1 as int));
            }
            st = match cfg_step_exec(st, lines[i].as_slice()) {
                Some(st2) => st2,
                None => {
                    return Err(RoutesError::Malformed);
                },
            };
            i = i + 1;
        }
        proof {
            assert(lv.skip(lv.len() as int).len() == 0);
            assert(cfg_fold(lv, cfg_init()) == Option::Some(st@));
        }
        let st1 = match close_route_exec(st) {
            Some(x) => x,
            None => {
                return Err(RoutesError::Malformed);
            },
        };
        let ghost st1v = st1@;
        if !st1.saw_routes {
            return Err(RoutesError::Malformed);
        }
        if st1.saw_default && st1.default_action.is_none() {
            return Err(RoutesError::Malformed);
        }
        let default_action: String = match st1.default_action {
            Some(a) => a,
            None => String::from_str("drop"),
        };
        let router = WebhookRouter {
            routes: st1.routes,
            default_action,
            default_url: st1.default_url,
        };
        proof {
            assert(router@.routes == st1v.routes);
            assert(parse_routes_yaml(yaml@) == Option::Some(router@));
        }
        Ok(router)
    }

    /// The number of configured routes.
    pub fn route_count(&self) -> (n: usize)
        ensures
            n == self@.routes.len(),
    {
        self.routes.len()
    }

    /// Resolve a webhook path to a configured target and the remainder path.
    pub fn route(&self, path: &str) -> (r: Result<(&RouteTarget, String), RouteError>)
        ensures
            match r {
                Ok((t, rest)) => route_spec(self@, path@) == RouteDecision::Target(t@, rest@),
                Err(RouteError::InvalidPath) => route_spec(self@, path@)
                    == RouteDecision::InvalidPath,
                Err(RouteError::NoRoute) => route_spec(self@, path@) == RouteDecision::NoRoute,
                Err(RouteError::DefaultForwardUnsupported) => route_spec(self@, path@)
                    == RouteDecision::DefaultForwardUnsupported,
            },
    {
        let chars = str_chars(path);
        let stripped: Vec<char> = if chars.len() > 0 && chars[0] == '/' {
            subvec(chars.as_slice(), 1, chars.len())
        } else {
            subvec(chars.as_slice(), 0, chars.len())
        };
        proof {
            assert(stripped@ =~= strip_lead(path@));
        }
        let parts = split_chars(stripped.as_slice(), '/');
        proof {
            assert(parts.deep_view() == path_parts(path@));
        }
        if parts.len() < 2 || !chars_eq_str(parts[0].as_slice(), "webhook") {
            proof {
                assert(parts.deep_view()[0] == parts@[0]@);
            }
            return Err(RouteError::InvalidPath);
        }
        proof {
            assert(parts.deep_view()[0] == parts@[0]@);
            assert(path_ok(path@));
        }
        let rest: String = if parts.len() > 2 {
            let mut v: Vec<char> = Vec::new();
            v.push('/');
            let mut joined = join_chars(&parts, 2, '/');
            v.append(&mut joined);
            proof {
                assert(v@ =~= path_remainder(path@));
            }
            chars_string(v.as_slice())
        } else {
            let mut v: Vec<char> = Vec::new();
            v.push('/');
            proof {
                assert(v@ =~= path_remainder(path@));
            }
            chars_string(v.as_slice())
        };
        let service = &parts[1];
        proof {
            assert(service@ == path_service(path@));
        }
        let mut i: usize = 0;
        while i < self.routes.len()
            invariant
                i <= self.routes@.len(),
                self@.routes.len() == self.routes@.len(),
                forall|j: int| 0 <= j < i ==> self@.routes[j].name != service@,
                service@ == path_service(path@),
                path_ok(path@),
                rest@ == path_remainder(path@),
            decreases self.routes@.len() - i,
        {
            if chars_eq_str(service.as_slice(), self.routes[i].name.as_str()) {
                proof {
                    lemma_lookup_first(self@.routes, service@, i as int);
                }
                return Ok((&self.routes[i], rest));
            }
            i = i + 1;
        }
        proof {
            lemma_lookup_none(self@.routes, service@);
        }
        let forward_requested = chars_eq_str(
            str_chars(self.default_action.as_str()).as_slice(),
            "forward",
        );
        if forward_requested && self.default_url.is_some() {
            Err(RouteError::DefaultForwardUnsupported)
        } else {
            Err(RouteError::NoRoute)
        }
    }
}

/// A failure to parse the route configuration document; startup aborts.
#[derive(Debug, Clone, PartialEq, Eq, Structural)]
pub enum RoutesError {
    /// The document does not follow the route-file schema, a route lacks
    /// its required `url`, or a timeout is not a number.
    Malformed,
}

/// Where in the document a line stands.
#[derive(Debug, Clone, Copy, PartialEq, Eq, Structural)]
pub enum Section {
    /// Before any section, or under an unknown top-level key whose block
    /// is ignored.
    Top,
    /// Inside `routes:`.
    Routes,
    /// Inside `default:`.
    Default,
    /// Inside an ignored unknown top-level block.
    Skip,
}

/// The parser state after some lines of the document.
pub struct CfgState {
    pub section: Section,
    pub routes: Vec<RouteTarget>,
    pub cur_name: Option<String>,
    pub cur_url: Option<String>,
    pub cur_timeout: Option<u64>,
    pub saw_routes: bool,
    pub saw_default: bool,
    pub default_action: Option<String>,
    pub default_url: Option<String>,
}

/// Mathematical model of a `CfgState`.
pub ghost struct CfgStateV {
    pub section: Section,
    pub routes: Seq<RouteTargetV>,
    pub cur_name: Option<Seq<char>>,
    pub cur_url: Option<Seq<char>>,
    pub cur_timeout: Option<u64>,
    pub saw_routes: bool,
    pub saw_default: bool,
    pub default_action: Option<Seq<char>>,
    pub default_url: Option<Seq<char>>,
}

impl View for CfgState {
    type V = CfgStateV;

    open spec fn view(&self) -> CfgStateV {
        CfgStateV {
            section: self.section,
            routes: self.routes@.map_values(|t: RouteTarget| t@),
            cur_name: match self.cur_name {
                Option::Some(ref x) => Option::Some(x@),
                Option::None => Option::None,
            },
            cur_url: match self.cur_url {
                Option::Some(ref x) => Option::Some(x@),
                Option::None => Option::None,
            },
            cur_timeout: self.cur_timeout,
            saw_routes: self.saw_routes,
            saw_default: self.saw_default,
            default_action: match self.default_action {
                Option::Some(ref x) => Option::Some(x@),
                Option::None => Option::None,
            },
            default_url: match self.default_url {
                Option::Some(ref x) => Option::Some(x@),
                Option::None => Option::None,
            },
        }
    }
}

/// The number of leading spaces of a line.
pub open spec fn indent_of(s: Seq<char>) -> int
    decreases s.len(),
{
    if s.len() > 0 && s[0] == ' ' {
        1 + indent_of(s.drop_first())
    } else {
        0
    }
}

/// A line with one trailing carriage return removed.
pub open spec fn strip_cr(s: Seq<char>) -> Seq<char> {
    if s.len() > 0 && s.last() == '\r' {
        s.drop_last()
    } else {
        s
    }
}

/// A line of only spaces.
pub open spec fn is_blank_line(s: Seq<char>) -> bool {
    forall|i: int| 0 <= i < s.len() ==> s[i] == ' '
}

/// A comment line: its first non-space character is `#`.
pub open spec fn is_comment_line(s: Seq<char>) -> bool {
    indent_of(s) < s.len() && s[indent_of(s)] == '#'
}

/// The first colon of a sequence, if any.
pub open spec fn colon_idx(s: Seq<char>) -> Option<int>
    decreases s.len(),
{
    if s.len() == 0 {
        Option::None
    } else if s[0] == ':' {
        Option::Some(0)
    } else {
        match colon_idx(s.drop_first()) {
            Option::Some(i) => Option::Some(i + 1),
            Option::None => Option::None,
        }
    }
}

/// Leading spaces removed.
pub open spec fn trim_lead(s: Seq<char>) -> Seq<char>
    decreases s.len(),
{
    if s.len() > 0 && s[0] == ' ' {
        trim_lead(s.drop_first())
    } else {
        s
    }
}

/// Trailing spaces removed.
pub open spec fn trim_trail(s: Seq<char>) -> Seq<char>
    decreases s.len(),
{
    if s.len() > 0 && s.last() == ' ' {
        trim_trail(s.drop_last())
    } else {
        s
    }
}

/// Surrounding double quotes removed, once.
pub open spec fn unquote(s: Seq<char>) -> Seq<char> {
    if s.len() >= 2 && s[0] == '"' && s.last() == '"' {
        s.subrange(1, s.len() - 1)
    } else {
        s
    }
}

/// A scalar value as written in the document: trimmed and unquoted.
pub open spec fn clean_value(s: Seq<char>) -> Seq<char> {
    unquote(trim_trail(trim_lead(s)))
}

/// Finish the route currently being collected, if any; its `url` is
/// required, its timeout defaults to 30 seconds, and its name must be new.
pub open spec fn close_route(st: CfgStateV) -> Option<CfgStateV> {
    match st.cur_name {
        Option::None => Option::Some(st),
        Option::Some(name) => match st.cur_url {
            Option::None => Option::None,
            Option::Some(url) => {
                if lookup_route(st.routes, name) is Some {
                    Option::None
                } else {
                    Option::Some(
                        CfgStateV {
                            routes: st.routes.push(
                                RouteTargetV {
                                    name: name,
                                    url: url,
                                    timeout_seconds: match st.cur_timeout {
                                        Option::Some(t) => t,
                                        Option::None => 30,
                                    },
                                },
                            ),
                            cur_name: Option::None,
                            cur_url: Option::None,
                            cur_timeout: Option::None,
                            ..st
                        },
                    )
                }
            },
        },
    }
}

/// One line of the document applied to the parser state.
pub open spec fn cfg_step(st: CfgStateV, raw: Seq<char>) -> Option<CfgStateV> {
    let line = strip_cr(raw);
    if is_blank_line(line) || is_comment_line(line) {
        Option::Some(st)
    } else {
        let ind = indent_of(line);
        let content = line.skip(ind);
        match colon_idx(content) {
            Option::None => Option::None,
            Option::Some(ci) => {
                let key = content.take(ci);
                let val = clean_value(content.skip(ci + 1));
                if key.len() == 0 {
                    Option::None
                } else if ind == 0 {
                    match close_route(st) {
                        Option::None => Option::None,
                        Option::Some(st1) => {
                            if key == "routes"@ && val.len() == 0 {
                                Option::Some(
                                    CfgStateV { section: Section::Routes, saw_routes: true, ..st1 },
                                )
                            } else if key == "default"@ && val.len() == 0 {
                                Option::Some(
                                    CfgStateV {
                                        section: Section::Default,
                                        saw_default: true,
                                        ..st1
                                    },
                                )
                            } else {
                                Option::Some(CfgStateV { section: Section::Skip, ..st1 })
                            }
                        },
                    }
                } else if ind == 2 {
                    match st.section {
                        Section::Routes => {
                            if val.len() == 0 {
                                match close_route(st) {
                                    Option::None => Option::None,
                                    Option::Some(st1) => Option::Some(
                                        CfgStateV { cur_name: Option::Some(key), ..st1 },
                                    ),
                                }
                            } else {
                                Option::None
                            }
                        },
                        Section::Default => {
                            if key == "action"@ {
                                Option::Some(
                                    CfgStateV { default_action: Option::Some(val), ..st },
                                )
                            } else if key == "url"@ {
                                Option::Some(CfgStateV { default_url: Option::Some(val), ..st })
                            } else {
                                Option::Some(st)
                            }
                        },
                        Section::Skip => Option::Some(st),
                        Section::Top => Option::None,
                    }
                } else if ind == 4 {
                    match st.section {
                        Section::Routes => {
                            if st.cur_name is Some {
                                if key == "url"@ {
                                    Option::Some(CfgStateV { cur_url: Option::Some(val), ..st })
                                } else if key == "timeout_seconds"@ {
                                    match crate::config::parse_unsigned_spec(
                                        val,
                                        u64::MAX as int,
                                    ) {
                                        Option::Some(n) => Option::Some(
                                            CfgStateV {
                                                cur_timeout: Option::Some(n as u64),
                                                ..st
                                            },
                                        ),
                                        Option::None => Option::None,
                                    }
                                } else {
                                    Option::Some(st)
                                }
                            } else {
                                Option::None
                            }
                        },
                        Section::Skip => Option::Some(st),
                        _ => Option::None,
                    }
                } else {
                    if st.section == Section::Skip {
                        Option::Some(st)
                    } else {
                        Option::None
                    }
                }
            },
        }
    }
}

/// The whole document folded line by line.
pub open spec fn cfg_fold(lines: Seq<Seq<char>>, st: CfgStateV) -> Option<CfgStateV>
    decreases lines.len(),
{
    if lines.len() == 0 {
        Option::Some(st)
    } else {
        match cfg_step(st, lines[0]) {
            Option::Some(st2) => cfg_fold(lines.drop_first(), st2),
            Option::None => Option::None,
        }
    }
}

/// The empty starting state.
pub open spec fn cfg_init() -> CfgStateV {
    CfgStateV {
        section: Section::Top,
        routes: Seq::<RouteTargetV>::empty(),
        cur_name: Option::None,
        cur_url: Option::None,
        cur_timeout: Option::None,
        saw_routes: false,
        saw_default: false,
        default_action: Option::None,
        default_url: Option::None,
    }
}

/// The finished router: the `routes` section is required; a `default`
/// section requires its `action`; a missing default means `drop`.
pub open spec fn cfg_finish(st: CfgStateV) -> Option<WebhookRouterV> {
    match close_route(st) {
        Option::None => Option::None,
        Option::Some(st1) => {
            if !st1.saw_routes {
                Option::None
            } else if st1.saw_default && st1.default_action is None {
                Option::None
            } else {
                Option::Some(
                    WebhookRouterV {
                        routes: st1.routes,
                        default_action: match st1.default_action {
                            Option::Some(a) => a,
                            Option::None => "drop"@,
                        },
                        default_url: st1.default_url,
                    },
                )
            }
        },
    }
}

/// What parsing the whole route document yields.
pub open spec fn parse_routes_yaml(y: Seq<char>) -> Option<WebhookRouterV> {
    match cfg_fold(split_seq(y, '\n'), cfg_init()) {
        Option::Some(st) => cfg_finish(st),
        Option::None => Option::None,
    }
}

/// Any path `/webhook/<svc><rest>` where `<svc>` is a slash-free non-empty
/// segment parses to service `<svc>` and remainder `<rest>` (or `/` when
/// there is no rest), so a configured `<svc>` resolves to its own target.
pub proof fn lemma_route_resolves_configured(svc: Seq<char>, rest: Seq<char>)
    requires
        svc.len() > 0,
        forall|i: int| 0 <= i < svc.len() ==> svc[i] != '/',
        rest.len() == 0 || rest[0] == '/',
    ensures
        ({
            let p = seq!['/'] + "webhook"@ + seq!['/'] + svc + rest;
            &&& path_ok(p)
            &&& path_service(p) == svc
            &&& path_remainder(p) == if rest.len() == 0 {
                seq!['/']
            } else {
                rest
            }
        }),
{
    reveal_strlit("webhook");
    let w = "webhook"@;
    let p = seq!['/'] + w + seq!['/'] + svc + rest;
    assert(p.len() > 0 && p[0] == '/');
    assert(strip_lead(p) =~= w + seq!['/'] + (svc + rest));
    assert(forall|i: int| 0 <= i < w.len() ==> w[i] != '/');
    lemma_split_concat(w, svc + rest, '/');
    let parts = path_parts(p);
    assert(parts =~~= seq![w] + split_seq(svc + rest, '/'));
    if rest.len() == 0 {
        assert(svc + rest =~= svc);
        lemma_split_no_sep(svc, '/');
        assert(parts =~~= seq![w, svc]);
        assert(path_ok(p));
        assert(path_service(p) == svc);
        assert(path_remainder(p) == seq!['/']);
    } else {
        let r = rest.drop_first();
        assert(svc + rest =~= svc + seq!['/'] + r);
        lemma_split_concat(svc, r, '/');
        assert(split_seq(svc + rest, '/') =~~= seq![svc] + split_seq(r, '/'));
        crate::text::lemma_split_len(r, '/');
        assert(parts.len() >= 3);
        assert(parts[0] == w);
        assert(parts[1] == svc);
        assert(path_ok(p));
        assert(path_service(p) == svc);
        assert(parts.skip(2) =~~= split_seq(r, '/'));
        lemma_join_split(r, '/');
        assert(path_remainder(p) =~= seq!['/'] + r);
        assert(seq!['/'] + r =~= rest);
    }
}

/// A path whose segments, after the leading slash, do not begin with the
/// literal `webhook`, or which has fewer than two segments, is invalid, and
/// routing refuses it the same way against every route table.
pub proof fn lemma_route_invalid_path(rt: WebhookRouterV, p: Seq<char>)
    requires
        path_parts(p).len() < 2 || path_parts(p)[0] != "webhook"@,
    ensures
        route_spec(rt, p) == RouteDecision::InvalidPath,
{
}

/// A well-shaped path naming an unconfigured service is dropped with
/// `NoRoute` when the default policy is `drop`.
pub proof fn lemma_route_unconfigured_drop(rt: WebhookRouterV, p: Seq<char>)
    requires
        path_ok(p),
        lookup_route(rt.routes, path_service(p)) is None,
        rt.default_action == "drop"@,
    ensures
        route_spec(rt, p) == RouteDecision::NoRoute,
{
    reveal_strlit("drop");
    reveal_strlit("forward");
    assert("drop"@.len() == 4);
    assert("forward"@.len() == 7);
    assert(rt.default_action != "forward"@);
}

} // verus!
