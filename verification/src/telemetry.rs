//! Telemetry decisions: the export settings, the endpoint of each OTLP
//! signal, which request paths are traced, how an RPC path names its span, and
//! what an RPC's failure records on that span.

use vstd::prelude::*;

use crate::kernel::RpcCode;
use crate::text::{chars_of, owned, same_text, slice_text, starts_with};

verus! {

/// OTLP transport.
#[derive(Debug, Clone, Copy, PartialEq, Eq)]
pub enum OtlpProtocol {
    /// `grpc`
    Grpc,
    /// `http/protobuf`
    HttpProtobuf,
}

/// Telemetry export settings from the `[telemetry]` section.
#[derive(Debug, PartialEq, Eq)]
pub struct TelemetryConfig {
    /// Whether telemetry is exported at all.
    pub enabled: bool,
    /// Base OTLP endpoint for every signal.
    pub otlp_endpoint: String,
    /// OTLP transport.
    pub otlp_protocol: OtlpProtocol,
}

impl Default for TelemetryConfig {
    /// Export off, towards a local collector over gRPC.
    fn default() -> (c: TelemetryConfig)
        ensures
            !c.enabled,
            c.otlp_endpoint@ == "http://localhost:4317"@,
            c.otlp_protocol == OtlpProtocol::Grpc,
    {
        TelemetryConfig {
            enabled: false,
            otlp_endpoint: owned("http://localhost:4317"),
            otlp_protocol: OtlpProtocol::Grpc,
        }
    }
}

/// The index of the first `?` or `#` in `s`, or its length when it has
/// neither: where a URL's query or fragment begins.
pub open spec fn suffix_start(s: Seq<char>) -> int
    decreases s.len(),
{
    if s.len() == 0 {
        0
    } else if s[0] == '?' || s[0] == '#' {
        0
    } else {
        1 + suffix_start(s.drop_first())
    }
}

/// `s` without its trailing `/` characters.
pub open spec fn without_trailing_slashes(s: Seq<char>) -> Seq<char>
    decreases s.len(),
{
    if s.len() > 0 && s.last() == '/' {
        without_trailing_slashes(s.drop_last())
    } else {
        s
    }
}

/// The OTLP/HTTP URL of `signal` under base `endpoint`: `/v1/<signal>`
/// appended to the path, before any query or fragment.
pub open spec fn signal_url(endpoint: Seq<char>, signal: Seq<char>) -> Seq<char> {
    let k = suffix_start(endpoint);
    without_trailing_slashes(endpoint.take(k)) + "/v1/"@ + signal + endpoint.skip(k)
}

proof fn lemma_suffix_start_bounds(s: Seq<char>)
    ensures
        0 <= suffix_start(s) <= s.len(),
    decreases s.len(),
{
    if s.len() > 0 && !(s[0] == '?' || s[0] == '#') {
        lemma_suffix_start_bounds(s.drop_first());
    }
}

proof fn lemma_suffix_start_scan(s: Seq<char>, i: int)
    requires
        0 <= i <= s.len(),
        forall|j: int| 0 <= j < i ==> !(s[j] == '?' || s[j] == '#'),
    ensures
        i < s.len() && (s[i] == '?' || s[i] == '#') ==> suffix_start(s) == i,
        i == s.len() ==> suffix_start(s) == s.len(),
    decreases i,
{
    if i > 0 {
        assert forall|j: int| 0 <= j < i - 1 implies !(s.drop_first()[j] == '?'
            || s.drop_first()[j] == '#') by {
            assert(s.drop_first()[j] == s[j + 1]);
        }
        lemma_suffix_start_scan(s.drop_first(), i - 1);
    } else if s.len() > 0 {
    }
}

proof fn lemma_trim_prefix(s: Seq<char>, j: int)
    requires
        0 <= j <= s.len(),
        forall|m: int| j <= m < s.len() ==> s[m] == '/',
        j == 0 || s[j - 1] != '/',
    ensures
        without_trailing_slashes(s) == s.take(j),
    decreases s.len(),
{
    if s.len() > j {
        assert(s.drop_last().len() == s.len() - 1);
        assert forall|m: int| j <= m < s.drop_last().len() implies s.drop_last()[m] == '/' by {}
        lemma_trim_prefix(s.drop_last(), j);
        assert(s.drop_last().take(j) =~= s.take(j));
    } else {
        assert(s.take(j) =~= s);
        if s.len() > 0 {
            assert(s.last() != '/');
        }
    }
}

/// The OTLP/HTTP URL of `signal` under base `endpoint`.
pub fn http_signal_url(endpoint: &str, signal: &str) -> (url: String)
    ensures
        url@ == signal_url(endpoint@, signal@),
{
    let chars = chars_of(endpoint);
    let len = chars.len();
    let mut k: usize = 0;
    while k < len && !(chars[k] == '?' || chars[k] == '#')
        invariant
            chars@ == endpoint@,
            len == chars.len(),
            k <= len,
            forall|j: int| 0 <= j < k ==> !(endpoint@[j] == '?' || endpoint@[j] == '#'),
        decreases len - k,
    {
        k = k + 1;
    }
    proof {
        lemma_suffix_start_scan(endpoint@, k as int);
    }
    let mut end: usize = k;
    while end > 0 && chars[end - 1] == '/'
        invariant
            chars@ == endpoint@,
            k <= len,
            len == chars.len(),
            end <= k,
            forall|m: int| end <= m < k ==> endpoint@[m] == '/',
        decreases end,
    {
        end = end - 1;
    }
    proof {
        let base = endpoint@.take(k as int);
        assert forall|m: int| end <= m < base.len() implies base[m] == '/' by {}
        lemma_trim_prefix(base, end as int);
        assert(base.take(end as int) =~= endpoint@.subrange(0, end as int));
        assert(endpoint@.skip(k as int) =~= endpoint@.subrange(k as int, len as int));
    }
    let mut url = slice_text(endpoint, 0, end);
    url.append("/v1/");
    url.append(signal);
    let suffix = slice_text(endpoint, k, len);
    url.append(suffix.as_str());
    url
}

/// The endpoint one signal is exported to: the base endpoint itself over
/// gRPC, or the signal's own URL under it over HTTP.
pub open spec fn exporter_endpoint_spec(
    protocol: OtlpProtocol,
    endpoint: Seq<char>,
    signal: Seq<char>,
) -> Seq<char> {
    match protocol {
        OtlpProtocol::Grpc => endpoint,
        OtlpProtocol::HttpProtobuf => signal_url(endpoint, signal),
    }
}

/// The endpoint the exporter of `signal` sends to.
pub fn exporter_endpoint(protocol: OtlpProtocol, endpoint: &str, signal: &str) -> (r: String)
    ensures
        r@ == exporter_endpoint_spec(protocol, endpoint@, signal@),
{
    match protocol {
        OtlpProtocol::Grpc => owned(endpoint),
        OtlpProtocol::HttpProtobuf => http_signal_url(endpoint, signal),
    }
}

/// Whether `path` is gRPC reflection or health checking: tooling chatter
/// rather than application traffic.
pub open spec fn is_tooling_path(path: Seq<char>) -> bool {
    crate::text::has_prefix(path, "/grpc.reflection."@) || crate::text::has_prefix(
        path,
        "/grpc.health."@,
    )
}

/// Reflection and health checking are tooling in every version: each path
/// under `/grpc.reflection.` or `/grpc.health.` is tooling and never traced,
/// however its version segment reads; any other mounted path is traced.
pub proof fn law_tooling_is_never_traced(paths: Seq<Seq<char>>, path: Seq<char>)
    ensures
        (crate::text::has_prefix(path, "/grpc.reflection."@) || crate::text::has_prefix(
            path,
            "/grpc.health."@,
        )) ==> is_tooling_path(path) && !traces(paths, path),
        traces(paths, path) <==> (paths.contains(path) && !crate::text::has_prefix(
            path,
            "/grpc.reflection."@,
        ) && !crate::text::has_prefix(path, "/grpc.health."@)),
{
}

/// Whether `path` is gRPC reflection or health checking.
pub fn is_tooling(path: &str) -> (b: bool)
    ensures
        b == is_tooling_path(path@),
{
    starts_with(path, "/grpc.reflection.") || starts_with(path, "/grpc.health.")
}

/// Whether `path` is gRPC reflection.
pub fn is_reflection(path: &str) -> (b: bool)
    ensures
        b == crate::text::has_prefix(path@, "/grpc.reflection."@),
{
    starts_with(path, "/grpc.reflection.")
}

/// The paths that get spans and metrics: mounted RPCs minus tooling.
#[derive(Debug)]
pub struct TracedPaths {
    paths: Vec<String>,
}

impl View for TracedPaths {
    type V = Seq<Seq<char>>;

    closed spec fn view(&self) -> Seq<Seq<char>> {
        self.paths@.map_values(|p: String| p@)
    }
}

/// The texts of `s`, in order.
pub open spec fn texts(s: Seq<String>) -> Seq<Seq<char>> {
    s.map_values(|q: String| q@)
}

/// The traced paths `paths` describe: each one mounted and not tooling.
pub open spec fn traces(paths: Seq<Seq<char>>, path: Seq<char>) -> bool {
    paths.contains(path) && !is_tooling_path(path)
}

impl TracedPaths {
    /// No path occurs twice.
    #[verifier::type_invariant]
    spec fn paths_unique(self) -> bool {
        self@.no_duplicates()
    }

    /// The traced paths among the mounted RPC paths `paths`, each path kept
    /// once.
    pub fn new(paths: Vec<String>) -> (t: TracedPaths)
        ensures
            t@.no_duplicates(),
            forall|p: Seq<char>| t@.contains(p) <==> texts(paths@).contains(p),
    {
        let ghost pv = texts(paths@);
        let mut kept: Vec<String> = Vec::new();
        let mut i: usize = 0;
        while i < paths.len()
            invariant
                i <= paths.len(),
                pv == texts(paths@),
                texts(kept@).no_duplicates(),
                forall|p: Seq<char>|
                    texts(kept@).contains(p) <==> pv.take(i as int).contains(p),
            decreases paths.len() - i,
        {
            let ghost kv = texts(kept@);
            let mut seen = false;
            let mut j: usize = 0;
            while j < kept.len()
                invariant
                    j <= kept.len(),
                    kv == texts(kept@),
                    seen == (exists|m: int| 0 <= m < j && kv[m] == paths@[i as int]@),
                    i < paths.len(),
                decreases kept.len() - j,
            {
                assert(kv[j as int] == kept@[j as int]@);
                if same_text(kept[j].as_str(), paths[i].as_str()) {
                    seen = true;
                }
                j = j + 1;
            }
            let ghost before = pv.take(i as int);
            let ghost next = pv.take(i + 1);
            assert(forall|p: Seq<char>| #[trigger] kv.contains(p) <==> before.contains(p));
            assert(next =~= before.push(pv[i as int]));
            assert(pv[i as int] == paths@[i as int]@);
            if !seen {
                kept.push(owned(paths[i].as_str()));
                let ghost now = texts(kept@);
                assert(now =~= kv.push(pv[i as int]));
                assert(!kv.contains(pv[i as int]));
                assert forall|p: Seq<char>| now.contains(p) <==> next.contains(p) by {
                    if now.contains(p) {
                        let m = choose|m: int| 0 <= m < now.len() && now[m] == p;
                        if m < kv.len() {
                            assert(kv[m] == p);
                            assert(kv.contains(p));
                            assert(before.contains(p));
                            let w = choose|w: int| 0 <= w < i && before[w] == p;
                            assert(next[w] == p);
                        } else {
                            assert(next[i as int] == p);
                        }
                    }
                    if next.contains(p) {
                        let w = choose|w: int| 0 <= w < i + 1 && next[w] == p;
                        if w < i {
                            assert(before[w] == p);
                            assert(kv.contains(p));
                            let m = choose|m: int| 0 <= m < kv.len() && kv[m] == p;
                            assert(now[m] == p);
                        } else {
                            assert(now[kv.len() as int] == p);
                        }
                    }
                }
            } else {
                assert forall|p: Seq<char>|
                    kv.contains(p) <==> next.contains(p) by {
                    if next.contains(p) {
                        let w = choose|w: int| 0 <= w < i + 1 && next[w] == p;
                        if w < i {
                            assert(before[w] == p);
                        } else {
                            let m = choose|m: int| 0 <= m < kv.len() && kv[m] == paths@[i as int]@;
                            assert(kv[m] == p);
                        }
                    }
                    if kv.contains(p) {
                        assert(before.contains(p));
                        let w = choose|w: int| 0 <= w < i && before[w] == p;
                        assert(next[w] == p);
                    }
                }
            }
            i = i + 1;
        }
        assert(pv.take(paths.len() as int) =~= pv);
        TracedPaths { paths: kept }
    }

    /// A copy of these traced paths.
    pub fn duplicate(&self) -> (t: TracedPaths)
        ensures
            t@ == self@,
    {
        proof {
            use_type_invariant(self);
        }
        let mut paths: Vec<String> = Vec::new();
        let mut i: usize = 0;
        while i < self.paths.len()
            invariant
                i <= self.paths.len(),
                paths@.len() == i,
                forall|j: int| 0 <= j < i ==> (#[trigger] paths@[j])@ == self.paths@[j]@,
            decreases self.paths.len() - i,
        {
            paths.push(owned(self.paths[i].as_str()));
            i = i + 1;
        }
        assert(paths@.map_values(|p: String| p@) =~= self.paths@.map_values(|p: String| p@));
        TracedPaths { paths }
    }

    /// Whether `path` is mounted and not tooling.
    pub fn contains(&self, path: &str) -> (b: bool)
        ensures
            b == traces(self@, path@),
    {
        let mut i: usize = 0;
        let mut found = false;
        while i < self.paths.len()
            invariant
                i <= self.paths.len(),
                found == (exists|j: int| 0 <= j < i && (#[trigger] self.paths@[j])@ == path@),
            decreases self.paths.len() - i,
        {
            if same_text(self.paths[i].as_str(), path) {
                found = true;
            }
            i = i + 1;
        }
        proof {
            let v = self.paths@.map_values(|p: String| p@);
            if found {
                let j = choose|j: int| 0 <= j < i && (#[trigger] self.paths@[j])@ == path@;
                assert(v[j] == path@);
            } else {
                assert forall|j: int| 0 <= j < v.len() implies v[j] != path@ by {
                    assert(v[j] == self.paths@[j]@);
                }
            }
        }
        found && !is_tooling(path)
    }
}

/// The index of the first `/` in `s`, when it has one.
pub open spec fn first_slash(s: Seq<char>) -> Option<int> {
    if exists|i: int| 0 <= i < s.len() && s[i] == '/' {
        Some(choose|i: int| 0 <= i < s.len() && s[i] == '/' && forall|j: int| 0 <= j < i ==> s[j] != '/')
    } else {
        None
    }
}

/// `/package.Service/Method` split into its service and method: the path
/// without its leading `/`, cut at its next `/`.
pub open spec fn rpc_parts(path: Seq<char>) -> Option<(Seq<char>, Seq<char>)> {
    if path.len() > 0 && path[0] == '/' {
        let rest = path.drop_first();
        match first_slash(rest) {
            Some(i) => Some((rest.take(i), rest.skip(i + 1))),
            None => None,
        }
    } else {
        None
    }
}

/// Splitting undoes joining: `/service/method`, with no `/` in the service,
/// splits into that service and that method.
pub proof fn law_rpc_paths_split_at_the_first_slash(service: Seq<char>, method: Seq<char>)
    requires
        forall|i: int| 0 <= i < service.len() ==> #[trigger] service[i] != '/',
    ensures
        rpc_parts("/"@ + service + "/"@ + method) == Some((service, method)),
{
    reveal_strlit("/");
    let joined = "/"@ + service + "/"@ + method;
    let rest = joined.drop_first();
    let n = service.len() as int;
    assert(rest =~= service + "/"@ + method);
    assert(rest[n] == '/');
    assert(forall|j: int| 0 <= j < n ==> rest[j] != '/') by {
        assert forall|j: int| 0 <= j < n implies rest[j] != '/' by {
            assert(rest[j] == service[j]);
        }
    }
    let c = first_slash(rest)->0;
    assert(0 <= c < rest.len() && rest[c] == '/' && forall|j: int| 0 <= j < c ==> rest[j] != '/');
    assert(c == n) by {
        if c < n {
            assert(rest[c] == service[c]);
        }
        if c > n {
            assert(rest[n] != '/');
        }
    }
    assert(rest.take(n) =~= service);
    assert(rest.skip(n + 1) =~= method);
}

/// A text with a `/` at `k` has a first `/`.
proof fn lemma_first_slash_exists(s: Seq<char>, k: int)
    requires
        0 <= k < s.len(),
        s[k] == '/',
    ensures
        exists|i: int| 0 <= i < s.len() && s[i] == '/' && forall|j: int| 0 <= j < i ==> s[j] != '/',
    decreases k,
{
    if exists|j: int| 0 <= j < k && s[j] == '/' {
        let j = choose|j: int| 0 <= j < k && s[j] == '/';
        lemma_first_slash_exists(s, j);
    } else {
        assert(forall|j: int| 0 <= j < k ==> s[j] != '/');
    }
}

/// Whatever a path splits into joins back into the path, with no `/` in
/// the service.
pub proof fn law_rpc_parts_rebuild_the_path(path: Seq<char>)
    ensures
        rpc_parts(path) matches Some((s, m)) ==> path == "/"@ + s + "/"@ + m && forall|i: int|
            0 <= i < s.len() ==> #[trigger] s[i] != '/',
{
    reveal_strlit("/");
    if let Some((sv, m)) = rpc_parts(path) {
        let rest = path.drop_first();
        let k = choose|i: int| 0 <= i < rest.len() && rest[i] == '/';
        lemma_first_slash_exists(rest, k);
        let c = first_slash(rest)->0;
        assert(0 <= c < rest.len() && rest[c] == '/' && forall|j: int| 0 <= j < c ==> rest[j] != '/');
        assert(sv == rest.take(c));
        assert(m == rest.skip(c + 1));
        let joined = "/"@ + sv + "/"@ + m;
        assert(joined.len() == path.len());
        assert forall|k: int| 0 <= k < path.len() implies joined[k] == path[k] by {
            if k == 0 {
            } else if k <= c {
                assert(joined[k] == sv[k - 1]);
                assert(path[k] == rest[k - 1]);
            } else if k == c + 1 {
                assert(path[k] == rest[c]);
            } else {
                assert(joined[k] == m[k - c - 2]);
                assert(path[k] == rest[k - 1]);
            }
        }
        assert(path =~= joined);
        assert forall|i: int| 0 <= i < sv.len() implies #[trigger] sv[i] != '/' by {
            assert(sv[i] == rest[i]);
        }
    }
}

/// A Connect RPC's service and method.
#[derive(Debug, PartialEq, Eq)]
pub struct RpcTarget {
    pub service: String,
    pub method: String,
}

/// Splits `/quiz_arena.greet.v1.GreetService/Greet` into service and method.
pub fn rpc_path(path: &str) -> (r: Option<RpcTarget>)
    ensures
        match rpc_parts(path@) {
            Some((service, method)) => r matches Some(t) && t.service@ == service && t.method@
                == method,
            None => r is None,
        },
{
    let chars = chars_of(path);
    let len = chars.len();
    if len == 0 || chars[0] != '/' {
        return None;
    }
    let ghost rest = path@.drop_first();
    let mut i: usize = 1;
    while i < len && chars[i] != '/'
        invariant
            chars@ == path@,
            len == chars.len(),
            1 <= i <= len,
            rest == path@.drop_first(),
            forall|j: int| 0 <= j < i - 1 ==> rest[j] != '/',
        decreases len - i,
    {
        i = i + 1;
    }
    if i == len {
        assert(!(exists|m: int| 0 <= m < rest.len() && rest[m] == '/'));
        return None;
    }
    proof {
        assert(rest[i - 1] == '/');
        let c = choose|m: int|
            0 <= m < rest.len() && rest[m] == '/' && forall|j: int| 0 <= j < m ==> rest[j] != '/';
        assert(c == i - 1) by {
            if c < i - 1 {
                assert(rest[c] != '/');
            }
            if c > i - 1 {
                assert(rest[i - 1] != '/');
            }
        }
        assert(rest.take(i - 1) =~= path@.subrange(1, i as int));
        assert(rest.skip(i as int) =~= path@.subrange(i + 1, len as int));
    }
    let service = slice_text(path, 1, i);
    let method = slice_text(path, i + 1, len);
    Some(RpcTarget { service, method })
}

/// The name of the server span of an RPC: `package.Service/Method`.
pub fn span_name(target: &RpcTarget) -> (name: String)
    ensures
        name@ == target.service@ + "/"@ + target.method@,
{
    let mut name = owned(target.service.as_str());
    name.append("/");
    name.append(target.method.as_str());
    name
}

/// Opens the server span for each mounted, non-tooling Connect RPC. Holds the
/// paths to trace; everything else passes through untouched.
#[derive(Debug)]
pub struct ConnectSpanLayer {
    traced: TracedPaths,
}

/// The service a [`ConnectSpanLayer`] wraps around `inner`.
#[derive(Debug)]
pub struct ConnectSpanService<S> {
    inner: S,
    traced: TracedPaths,
}

impl ConnectSpanLayer {
    /// A layer that traces `traced`.
    pub fn new(traced: TracedPaths) -> (l: ConnectSpanLayer)
        ensures
            l.traced()@ == traced@,
    {
        ConnectSpanLayer { traced }
    }

    /// The paths this layer traces.
    pub closed spec fn traced(&self) -> TracedPaths {
        self.traced
    }

    /// Wraps `inner`, tracing the same paths.
    pub fn layer<S>(&self, inner: S) -> (s: ConnectSpanService<S>)
        ensures
            s.wrapped() == inner,
            s.traced()@ == self.traced()@,
    {
        ConnectSpanService { inner, traced: self.traced.duplicate() }
    }
}

impl<S> ConnectSpanService<S> {
    /// The service this one wraps.
    pub closed spec fn wrapped(&self) -> S {
        self.inner
    }

    /// The service this one wraps.
    pub fn inner(&self) -> (s: &S)
        ensures
            *s == self.wrapped(),
    {
        &self.inner
    }

    /// The service this one wraps, for calling it.
    pub fn inner_mut(&mut self) -> (s: &mut S)
        ensures
            *s == old(self).wrapped(),
            final(self).wrapped() == *final(s),
            final(self).traced() == old(self).traced(),
    {
        &mut self.inner
    }

    /// The paths this service traces.
    pub closed spec fn traced(&self) -> TracedPaths {
        self.traced
    }

    /// The RPC a request to `path` opens a span for: none when the path is
    /// not traced or not an RPC path.
    pub fn rpc_for(&self, path: &str) -> (r: Option<RpcTarget>)
        ensures
            traces(self.traced()@, path@) ==> match rpc_parts(path@) {
                Some((service, method)) => r matches Some(t) && t.service@ == service
                    && t.method@ == method,
                None => r is None,
            },
            !traces(self.traced()@, path@) ==> r is None,
    {
        if self.traced.contains(path) {
            rpc_path(path)
        } else {
            None
        }
    }
}

/// Codes that mean this service failed, rather than rejected the request.
pub open spec fn is_server_fault(code: RpcCode) -> bool {
    match code {
        RpcCode::Unknown | RpcCode::DeadlineExceeded | RpcCode::Unimplemented | RpcCode::Internal
        | RpcCode::Unavailable | RpcCode::DataLoss => true,
        _ => false,
    }
}

/// Whether `code` means this service failed, rather than rejected the request.
pub fn server_fault(code: RpcCode) -> (b: bool)
    ensures
        b == is_server_fault(code),
{
    match code {
        RpcCode::Unknown | RpcCode::DeadlineExceeded | RpcCode::Unimplemented | RpcCode::Internal
        | RpcCode::Unavailable | RpcCode::DataLoss => true,
        _ => false,
    }
}

/// What a failed RPC records on its server span: its status code always, and
/// for a failure of this service also `error.type` and the failed status.
#[derive(Debug, Clone, Copy, PartialEq, Eq)]
pub struct RpcErrorRecord {
    pub status_code: RpcCode,
    pub error_type: Option<RpcCode>,
    pub marks_failed: bool,
}

/// Records how an RPC ended with `code`.
pub fn record_rpc_error(code: RpcCode) -> (r: RpcErrorRecord)
    ensures
        r.status_code == code,
        r.marks_failed == is_server_fault(code),
        r.error_type == (if is_server_fault(code) { Some(code) } else { None::<RpcCode> }),
{
    if server_fault(code) {
        RpcErrorRecord { status_code: code, error_type: Some(code), marks_failed: true }
    } else {
        RpcErrorRecord { status_code: code, error_type: None, marks_failed: false }
    }
}

/// Records each RPC's outcome on its server span, whatever the wire protocol.
#[derive(Debug, Clone, Copy)]
pub struct RpcStatusInterceptor;

impl RpcStatusInterceptor {
    /// What an RPC that ended with `code` records.
    pub fn on_error(&self, code: RpcCode) -> (r: RpcErrorRecord)
        ensures
            r == record_rpc_error_spec(code),
    {
        record_rpc_error(code)
    }
}

/// What a failed RPC records, as [`record_rpc_error`] computes it.
pub open spec fn record_rpc_error_spec(code: RpcCode) -> RpcErrorRecord {
    RpcErrorRecord {
        status_code: code,
        error_type: if is_server_fault(code) { Some(code) } else { None },
        marks_failed: is_server_fault(code),
    }
}

} // verus!

verus! {

/// A failed RPC always records its status code. It marks the span failed,
/// with the code as `error.type`, exactly when this service is at fault:
/// unknown, deadline exceeded, unimplemented, internal, unavailable or data
/// loss. A request the client got wrong, such as an invalid argument, a
/// missing entity, a refused permission or a conflict, leaves the span
/// unmarked.
pub proof fn law_only_server_faults_mark_the_span_failed(code: RpcCode)
    ensures
        record_rpc_error_spec(code).status_code == code,
        record_rpc_error_spec(code).marks_failed <==> record_rpc_error_spec(code).error_type
            == Some(code),
        record_rpc_error_spec(code).marks_failed <==> (code == RpcCode::Unknown || code
            == RpcCode::DeadlineExceeded || code == RpcCode::Unimplemented || code
            == RpcCode::Internal || code == RpcCode::Unavailable || code == RpcCode::DataLoss),
        !record_rpc_error_spec(code).marks_failed ==> record_rpc_error_spec(code).error_type is None,
{
}

} // verus!

verus! {

/// The standard OpenTelemetry variables that override the `[telemetry]`
/// file layers as aliases: each field path with its variable.
pub open spec fn telemetry_aliases_spec() -> Seq<(Seq<char>, Seq<char>)> {
    seq![
        ("otlp_endpoint"@, "OTEL_EXPORTER_OTLP_ENDPOINT"@),
        ("otlp_protocol"@, "OTEL_EXPORTER_OTLP_PROTOCOL"@),
    ]
}

/// The alias variables of the `[telemetry]` section.
pub fn telemetry_aliases() -> (r: Vec<(String, String)>)
    ensures
        crate::config::section::aliases_view(r@) == telemetry_aliases_spec(),
{
    let mut r: Vec<(String, String)> = Vec::new();
    r.push((owned("otlp_endpoint"), owned("OTEL_EXPORTER_OTLP_ENDPOINT")));
    r.push((owned("otlp_protocol"), owned("OTEL_EXPORTER_OTLP_PROTOCOL")));
    assert(crate::config::section::aliases_view(r@) =~= telemetry_aliases_spec());
    r
}

} // verus!
