//! The multi-runtime shim: each configured CRI runtime is reached through its
//! endpoint and named; requests are routed to runtimes by name.

pub mod image;
pub mod runtime;
pub mod storage;

use vstd::prelude::*;
use vstd::string::*;

use crate::common::{RpcCode, RpcStatus};
use crate::text::{lowercase, same_text, to_lowercase};

verus! {

/// `s[i..i + 3]` is `"://"`.
pub open spec fn separator_at(s: Seq<char>, i: int) -> bool {
    &&& 0 <= i
    &&& i + 3 <= s.len()
    &&& s[i] == ':'
    &&& s[i + 1] == '/'
    &&& s[i + 2] == '/'
}

/// The first position at or after `from` where `"://"` starts, as `str::find` reports it.
pub open spec fn find_separator_from(s: Seq<char>, from: int) -> Option<int>
    decreases s.len() - from,
{
    if from < 0 || from + 3 > s.len() {
        None
    } else if separator_at(s, from) {
        Some(from)
    } else {
        find_separator_from(s, from + 1)
    }
}

/// The first position where `"://"` starts in `s`.
pub open spec fn find_separator(s: Seq<char>) -> Option<int> {
    find_separator_from(s, 0)
}

/// The scheme that selects a Unix-socket connection.
pub open spec fn unix_scheme() -> Seq<char> {
    seq!['u', 'n', 'i', 'x', ':', '/', '/']
}

/// How a runtime endpoint is reached.
#[derive(Debug)]
pub enum Transport {
    /// Through the Unix socket at `path`.
    Unix { path: String },
    /// By handing the whole endpoint to the gRPC connector.
    Remote { endpoint: String },
}

/// The transport an endpoint names: the scheme is everything up to and
/// including the first `"://"`; when its lowercase form is `"unix://"`,
/// the rest is a socket path, otherwise the endpoint is dialled as it is.
pub open spec fn transport_matches(endpoint: Seq<char>, t: Transport) -> bool {
    let i: int = find_separator(endpoint)->0;
    transport_for(lowercase(endpoint.subrange(0, i + 3)), i, endpoint, t)
}

/// Splitting an endpoint at its scheme loses nothing: the scheme followed by
/// the socket path of a Unix endpoint is the endpoint.
pub proof fn law_unix_path_follows_scheme(endpoint: Seq<char>, path: String)
    requires
        find_separator(endpoint) is Some,
        transport_matches(endpoint, Transport::Unix { path }),
    ensures
        endpoint.subrange(0, find_separator(endpoint)->0 + 3) + path@ == endpoint,
{
    lemma_find_from_found(endpoint, 0);
    assert(endpoint.subrange(0, find_separator(endpoint)->0 + 3) + path@ =~= endpoint);
}

proof fn lemma_find_from_stays(s: Seq<char>, from: int)
    requires
        0 <= from,
        from + 3 <= s.len(),
        !separator_at(s, from),
    ensures
        find_separator_from(s, from) == find_separator_from(s, from + 1),
{
}

proof fn lemma_find_from_found(s: Seq<char>, from: int)
    requires
        find_separator_from(s, from) is Some,
    ensures
        separator_at(s, find_separator_from(s, from)->0),
        from <= find_separator_from(s, from)->0,
    decreases s.len() - from,
{
    if 0 <= from && from + 3 <= s.len() && !separator_at(s, from) {
        lemma_find_from_found(s, from + 1);
    }
}

/// Finds the first `"://"` in `endpoint`, by character position.
pub fn find_scheme_separator(endpoint: &str) -> (r: Option<usize>)
    ensures
        r matches Some(i) ==> find_separator(endpoint@) == Some(i as int),
        r is None ==> find_separator(endpoint@) is None,
{
    let n: usize = endpoint.unicode_len();
    if n < 3 {
        return None;
    }
    let mut i: usize = 0;
    while i < n - 2
        invariant
            n == endpoint@.len(),
            n >= 3,
            i + 3 <= n + 1,
            find_separator(endpoint@) == find_separator_from(endpoint@, i as int),
        decreases n - i,
    {
        if endpoint.get_char(i) == ':' && endpoint.get_char(i + 1) == '/' && endpoint.get_char(
            i + 2,
        ) == '/' {
            return Some(i);
        }
        proof {
            lemma_find_from_stays(endpoint@, i as int);
        }
        i = i + 1;
    }
    None
}

/// Decides how the runtime at `endpoint` is connected to. An endpoint
/// without `"://"` has no scheme and is not accepted.
pub fn resolve_transport(endpoint: &str) -> (t: Transport)
    requires
        find_separator(endpoint@) is Some,
    ensures
        transport_matches(endpoint@, t),
{
    let sep = find_scheme_separator(endpoint);
    let i: usize = sep.unwrap();
    proof {
        lemma_find_from_found(endpoint@, 0);
    }
    let n: usize = endpoint.unicode_len();
    assert(i + 3 <= n);
    let scheme = endpoint.substring_char(0, i + 3);
    let lowered = to_lowercase(scheme);
    transport_from_scheme(lowered.as_str(), i, endpoint)
}

/// The transport chosen once the scheme `endpoint[..separator + 3]` is
/// lowercased to `lowered_scheme`: the Unix socket at the rest of the endpoint
/// when the lowercased scheme is `"unix://"`, the whole endpoint otherwise.
pub open spec fn transport_for(lowered_scheme: Seq<char>, separator: int, endpoint: Seq<char>, t: Transport) -> bool {
    match t {
        Transport::Unix { path } => lowered_scheme == unix_scheme() && path@ == endpoint.subrange(
            separator + 3,
            endpoint.len() as int,
        ),
        Transport::Remote { endpoint: e } => lowered_scheme != unix_scheme() && e@ == endpoint,
    }
}

/// Chooses the transport of `endpoint`, whose scheme ends with the `"://"` at
/// `separator` and lowercases to `lowered_scheme`.
pub fn transport_from_scheme(lowered_scheme: &str, separator: usize, endpoint: &str) -> (t: Transport)
    requires
        separator + 3 <= endpoint@.len(),
    ensures
        transport_for(lowered_scheme@, separator as int, endpoint@, t),
{
    let is_unix = same_text(lowered_scheme, "unix://");
    proof {
        reveal_strlit("unix://");
        assert("unix://"@ =~= unix_scheme());
    }
    if is_unix {
        let n: usize = endpoint.unicode_len();
        Transport::Unix { path: endpoint.substring_char(separator + 3, n).to_owned() }
    } else {
        Transport::Remote { endpoint: endpoint.to_owned() }
    }
}

/// The connected runtimes, by name, and the one used when a request names none.
pub struct Runtimes {
    names: Vec<String>,
    default_runtime: String,
}

/// What is known of the connected runtimes.
pub struct RuntimesView {
    pub names: Set<Seq<char>>,
    pub default_runtime: Seq<char>,
}

/// The runtime name a request's handler stands for: the default runtime when
/// the handler is empty, the handler itself otherwise.
pub open spec fn resolve_name(v: RuntimesView, name: Seq<char>) -> Seq<char> {
    if name.len() == 0 {
        v.default_runtime
    } else {
        name
    }
}

/// The message of the status a request gets when no runtime of that name is connected.
pub open spec fn no_connection_message(name: Seq<char>) -> Seq<char> {
    "no connection for "@ + name
}

/// What routing a request decides, before anything is sent: the runtime that
/// serves it, or the status it is refused with.
pub enum Decision {
    Runtime(Seq<char>),
    Refused(RpcCode, Seq<char>),
}

/// The client a request naming `name` is sent to: the resolved runtime when it
/// is connected, a `NotFound` status naming it otherwise.
pub open spec fn client_decision(v: RuntimesView, name: Seq<char>) -> Decision {
    let resolved = resolve_name(v, name);
    if v.names.contains(resolved) {
        Decision::Runtime(resolved)
    } else {
        Decision::Refused(RpcCode::NotFound, no_connection_message(resolved))
    }
}

/// `r` carries out decision `d`.
pub open spec fn answers(r: Result<String, RpcStatus>, d: Decision) -> bool {
    match d {
        Decision::Runtime(n) => r matches Ok(s) && s@ == n,
        Decision::Refused(c, m) => r matches Err(st) && st.code == c && st.message@ == m,
    }
}

/// What looking up the client for `name` answers.
pub open spec fn client_lookup(v: RuntimesView, name: Seq<char>, r: Result<String, RpcStatus>) -> bool {
    answers(r, client_decision(v, name))
}

/// A request that names no runtime is served by the default runtime.
pub proof fn law_empty_name_means_default(v: RuntimesView)
    ensures
        client_decision(v, Seq::empty()) == client_decision(v, v.default_runtime),
{
    if v.default_runtime.len() == 0 {
        assert(v.default_runtime =~= Seq::<char>::empty());
    }
}

/// A request is only ever sent to a connected runtime.
pub proof fn law_served_only_by_connected(v: RuntimesView, name: Seq<char>)
    ensures
        client_decision(v, name) matches Decision::Runtime(n) ==> v.names.contains(n),
{
}

impl View for Runtimes {
    type V = RuntimesView;

    closed spec fn view(&self) -> RuntimesView {
        RuntimesView {
            names: self.names@.map_values(|n: String| n@).to_set(),
            default_runtime: self.default_runtime@,
        }
    }
}

impl Runtimes {
    #[verifier::type_invariant]
    closed spec fn inv(&self) -> bool {
        self.names@.map_values(|n: String| n@).no_duplicates()
    }

    /// No runtime connected yet; `default_runtime` serves requests that name none.
    pub fn new(default_runtime: String) -> (r: Runtimes)
        ensures
            r@.names == Set::<Seq<char>>::empty(),
            r@.default_runtime == default_runtime@,
    {
        let r = Runtimes { names: Vec::new(), default_runtime };
        assert(r.names@.map_values(|n: String| n@) =~= Seq::<Seq<char>>::empty());
        r
    }

    /// The name of the default runtime.
    pub fn default_runtime(&self) -> (s: &String)
        ensures
            s@ == self@.default_runtime,
    {
        &self.default_runtime
    }

    /// Whether a runtime named `name` is connected.
    pub fn contains(&self, name: &str) -> (b: bool)
        ensures
            b == self@.names.contains(name@),
    {
        let ghost views = self.names@.map_values(|n: String| n@);
        let mut i: usize = 0;
        while i < self.names.len()
            invariant
                i <= self.names.len(),
                views == self.names@.map_values(|n: String| n@),
                forall|j: int| 0 <= j < i ==> self.names@[j]@ != name@,
            decreases self.names.len() - i,
        {
            if same_text(self.names[i].as_str(), name) {
                assert(views[i as int] == name@);
                return true;
            }
            i = i + 1;
        }
        proof {
            if views.to_set().contains(name@) {
                let j: int = choose|j: int| 0 <= j < views.len() && views[j] == name@;
                assert(self.names@[j]@ == name@);
            }
        }
        false
    }

    /// Connects a runtime under `name`; connecting a name twice keeps one entry.
    pub fn register(&mut self, name: String)
        ensures
            final(self)@.names == old(self)@.names.insert(name@),
            final(self)@.default_runtime == old(self)@.default_runtime,
    {
        proof {
            use_type_invariant(&*self);
        }
        if !self.contains(name.as_str()) {
            let ghost old_views = self.names@.map_values(|n: String| n@);
            let ghost name_view = name@;
            let mut names: Vec<String> = Vec::new();
            std::mem::swap(&mut names, &mut self.names);
            names.push(name);
            proof {
                let views = names@.map_values(|n: String| n@);
                assert(views =~= old_views + seq![name_view]);
                Seq::lemma_to_set_insert_commutes(old_views, name_view);
                assert(!old_views.contains(name_view));
                assert forall|a: int, b: int| 0 <= a < views.len() && 0 <= b < views.len() && a != b
                    implies views[a] != views[b] by {
                    if a == old_views.len() {
                        assert(old_views[b] == views[b]);
                    } else if b == old_views.len() {
                        assert(old_views[a] == views[a]);
                    } else {
                        assert(old_views[a] == views[a] && old_views[b] == views[b]);
                    }
                }
            }
            self.names = names;
        } else {
            proof {
                assert(old(self)@.names.insert(name@) =~= old(self)@.names);
            }
        }
    }

    /// The names of all connected runtimes, each once.
    pub fn names(&self) -> (v: Vec<String>)
        ensures
            v@.map_values(|n: String| n@).to_set() == self@.names,
            v@.map_values(|n: String| n@).no_duplicates(),
    {
        proof {
            use_type_invariant(self);
        }
        self.names.clone()
    }

    /// The client for the runtime `name`; an empty name means the default runtime.
    pub fn get_client(&self, name: &str) -> (r: Result<String, RpcStatus>)
        ensures
            client_lookup(self@, name@, r),
    {
        let resolved: &str = if name.unicode_len() == 0 {
            self.default_runtime.as_str()
        } else {
            name
        };
        if self.contains(resolved) {
            Ok(resolved.to_owned())
        } else {
            let mut message = "no connection for ".to_owned();
            message.append(resolved);
            Err(RpcStatus::not_found(message))
        }
    }

    /// The client for the default runtime.
    pub fn get_default_client(&self) -> (r: Result<String, RpcStatus>)
        ensures
            client_lookup(self@, self@.default_runtime, r),
    {
        self.get_client(self.default_runtime.as_str())
    }
}

} // verus!
