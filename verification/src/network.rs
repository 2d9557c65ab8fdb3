//! The scripted network: sessions, connections, HTTP requests that follow
//! scripted redirects, DNS answers and socket replies.
use vstd::prelude::*;

use crate::assoc::{assoc_insert, assoc_remove, assoc_view, find_key, lemma_assoc_update, unique_keys};
use crate::dynamic_model::{HttpScenario, NetworkHeader, NetworkScenario};
use crate::text::{chars_equal, chars_of, decimal, lower_seq, push_decimal, push_str, to_lower_char};

verus! {

/// A header as text.
pub open spec fn header_view(h: NetworkHeader) -> (Seq<char>, Seq<char>) {
    (h.name@, h.value@)
}

pub open spec fn header_views(v: Seq<NetworkHeader>) -> Seq<(Seq<char>, Seq<char>)> {
    v.map_values(|h: NetworkHeader| header_view(h))
}

/// A copy of a list of headers.
pub fn copy_headers(v: &Vec<NetworkHeader>) -> (r: Vec<NetworkHeader>)
    ensures
        header_views(r@) == header_views(v@),
{
    let mut r: Vec<NetworkHeader> = Vec::new();
    let mut i: usize = 0;
    while i < v.len()
        invariant
            i <= v@.len(),
            header_views(r@) == header_views(v@).subrange(0, i as int),
        decreases v@.len() - i,
    {
        let h = NetworkHeader { name: v[i].name.clone(), value: v[i].value.clone() };
        let ghost before = r@;
        assert(header_view(h) == header_views(v@)[i as int]);
        r.push(h);
        assert(header_views(r@) =~= header_views(before).push(header_view(h)));
        assert(header_views(r@) =~= header_views(v@).subrange(0, i + 1));
        i = i + 1;
    }
    assert(header_views(v@).subrange(0, i as int) =~= header_views(v@));
    r
}

/// A copy of a byte vector.
pub fn copy_bytes(v: &Vec<u8>) -> (r: Vec<u8>)
    ensures
        r@ == v@,
{
    let mut r: Vec<u8> = Vec::new();
    let mut i: usize = 0;
    while i < v.len()
        invariant
            i <= v@.len(),
            r@ == v@.subrange(0, i as int),
        decreases v@.len() - i,
    {
        r.push(v[i]);
        i = i + 1;
        assert(r@ =~= v@.subrange(0, i as int));
    }
    assert(v@.subrange(0, i as int) =~= v@);
    r
}

enum NetworkHandle {
    Session,
    Connection { host: String, port: u16 },
    Request {
        method: String,
        url: String,
        request_headers: Vec<NetworkHeader>,
        request_body: Vec<u8>,
        response: Vec<u8>,
        cursor: usize,
        status: u16,
        response_headers: Vec<NetworkHeader>,
    },
    Socket { destination: Option<String>, response: Vec<u8>, cursor: usize },
}

/// A network handle's state as plain values.
pub enum NetworkHandleView {
    Session,
    Connection { host: Seq<char>, port: u16 },
    Request {
        method: Seq<char>,
        url: Seq<char>,
        request_headers: Seq<(Seq<char>, Seq<char>)>,
        request_body: Seq<u8>,
        response: Seq<u8>,
        cursor: usize,
        status: u16,
        response_headers: Seq<(Seq<char>, Seq<char>)>,
    },
    Socket { destination: Option<Seq<char>>, response: Seq<u8>, cursor: usize },
}

impl View for NetworkHandle {
    type V = NetworkHandleView;

    closed spec fn view(&self) -> NetworkHandleView {
        match self {
            NetworkHandle::Session => NetworkHandleView::Session,
            NetworkHandle::Connection { host, port } => NetworkHandleView::Connection { host: host@, port: *port },
            NetworkHandle::Request { method, url, request_headers, request_body, response, cursor, status, response_headers } =>
                NetworkHandleView::Request {
                method: method@,
                url: url@,
                request_headers: header_views(request_headers@),
                request_body: request_body@,
                response: response@,
                cursor: *cursor,
                status: *status,
                response_headers: header_views(response_headers@),
            },
            NetworkHandle::Socket { destination, response, cursor } => NetworkHandleView::Socket {
                destination: match destination {
                    Some(d) => Some(d@),
                    None => None,
                },
                response: response@,
                cursor: *cursor,
            },
        }
    }
}

/// One step of a resolved request: the URL fetched and its scripted reply.
pub struct ResolvedHttp {
    pub url: String,
    pub status: u16,
    pub headers: Vec<NetworkHeader>,
    pub body: Vec<u8>,
    pub redirected: bool,
}

pub struct HopView {
    pub url: Seq<char>,
    pub status: u16,
    pub headers: Seq<(Seq<char>, Seq<char>)>,
    pub body: Seq<u8>,
    pub redirected: bool,
}

impl View for ResolvedHttp {
    type V = HopView;

    open spec fn view(&self) -> HopView {
        HopView { url: self.url@, status: self.status, headers: header_views(self.headers@), body: self.body@, redirected: self.redirected }
    }
}

pub open spec fn hop_views(v: Seq<ResolvedHttp>) -> Seq<HopView> {
    v.map_values(|h: ResolvedHttp| h@)
}

/// Two texts are equal up to ASCII case.
pub open spec fn same_ignoring_case(a: Seq<char>, b: Seq<char>) -> bool {
    lower_seq(a) == lower_seq(b)
}

/// Index of the first route whose URL matches `url` up to ASCII case.
pub open spec fn route_index(http: Seq<HttpScenario>, url: Seq<char>, n: nat) -> Option<int>
    decreases n,
{
    if n == 0 || n > http.len() {
        None
    } else {
        match route_index(http, url, (n - 1) as nat) {
            Some(i) => Some(i),
            None => if same_ignoring_case(http[n - 1].url@, url) {
                Some(n - 1)
            } else {
                None
            },
        }
    }
}

/// The reply to fetching `url` at redirect depth `depth` (404 with no
/// headers or body when no route matches).
pub open spec fn hop_spec(http: Seq<HttpScenario>, url: Seq<char>, depth: nat) -> HopView {
    match route_index(http, url, http.len()) {
        Some(i) => HopView {
            url,
            status: http[i].status,
            headers: header_views(http[i].headers@),
            body: http[i].body@,
            redirected: http[i].redirect_to is Some && depth < 3,
        },
        None => HopView { url, status: 404, headers: Seq::empty(), body: Seq::empty(), redirected: false },
    }
}

/// The URL a redirecting hop leads to.
pub open spec fn next_url(http: Seq<HttpScenario>, url: Seq<char>) -> Seq<char> {
    match route_index(http, url, http.len()) {
        Some(i) => match http[i].redirect_to {
            Some(r) => r@,
            None => url,
        },
        None => url,
    }
}

/// The hops of a request from `url` at `depth`: redirects are followed to at
/// most depth 3.
pub open spec fn hops_spec(http: Seq<HttpScenario>, url: Seq<char>, depth: nat) -> Seq<HopView>
    decreases 3 - depth,
{
    let h = hop_spec(http, url, depth);
    if h.redirected && depth < 3 {
        seq![h] + hops_spec(http, next_url(http, url), depth + 1)
    } else {
        seq![h]
    }
}

/// The request URL with its connection's host and, unless 80, port.
pub open spec fn url_spec(host: Seq<char>, port: u16, path: Seq<char>) -> Seq<char> {
    "http://"@ + host + (if port == 80 { Seq::empty() } else { ":"@ + decimal(port as nat) }) + path
}

/// `cursor + maximum`, held at `usize::MAX`, then at `len`.
pub open spec fn read_end(cursor: usize, maximum: usize, len: nat) -> int {
    let e = if cursor + maximum > usize::MAX { usize::MAX as int } else { cursor + maximum };
    if e < len { e } else { len as int }
}

/// Runs a network scenario over emulator handles.
pub struct NetworkRuntime {
    scenario: NetworkScenario,
    handles: Vec<(u32, NetworkHandle)>,
}

/// ASCII lower-casing of a character vector.
pub fn lower_chars(v: &Vec<char>) -> (r: Vec<char>)
    ensures
        r@ == lower_seq(v@),
{
    let mut r: Vec<char> = Vec::new();
    let mut i: usize = 0;
    while i < v.len()
        invariant
            i <= v@.len(),
            r@ == lower_seq(v@.subrange(0, i as int)),
        decreases v@.len() - i,
    {
        r.push(to_lower_char(v[i]));
        i = i + 1;
        assert(r@ =~= lower_seq(v@.subrange(0, i as int)));
    }
    assert(v@.subrange(0, i as int) =~= v@);
    r
}

/// Whether two texts are equal up to ASCII case.
pub fn eq_ignore_case(a: &str, b: &str) -> (r: bool)
    ensures
        r == same_ignoring_case(a@, b@),
{
    let x = lower_chars(&chars_of(a));
    let y = lower_chars(&chars_of(b));
    chars_equal(&x, &y)
}

impl NetworkRuntime {
    pub closed spec fn handles_view(&self) -> Map<u32, NetworkHandleView> {
        assoc_view(self.handles@)
    }

    pub closed spec fn scenario_view(&self) -> NetworkScenario {
        self.scenario
    }

    pub closed spec fn wf(&self) -> bool {
        unique_keys(self.handles@)
    }

    pub fn new(scenario: NetworkScenario) -> (r: NetworkRuntime)
        ensures
            r.wf(),
            r.scenario_view() == scenario,
            r.handles_view() == Map::<u32, NetworkHandleView>::empty(),
    {
        NetworkRuntime { scenario, handles: Vec::new() }
    }

    pub fn scenario_id(&self) -> (id: &str)
        ensures
            id@ == self.scenario_view().id@,
    {
        self.scenario.id.as_str()
    }

    pub fn register_session(&mut self, handle: u32)
        requires
            old(self).wf(),
        ensures
            final(self).wf(),
            final(self).scenario_view() == old(self).scenario_view(),
            final(self).handles_view() == old(self).handles_view().insert(handle, NetworkHandleView::Session),
    {
        assoc_insert(&mut self.handles, handle, NetworkHandle::Session);
    }

    pub fn register_connection(&mut self, handle: u32, host: String, port: u16)
        requires
            old(self).wf(),
        ensures
            final(self).wf(),
            final(self).scenario_view() == old(self).scenario_view(),
            final(self).handles_view() == old(self).handles_view().insert(handle, NetworkHandleView::Connection { host: host@, port }),
    {
        assoc_insert(&mut self.handles, handle, NetworkHandle::Connection { host, port });
    }

    pub fn register_socket(&mut self, handle: u32)
        requires
            old(self).wf(),
        ensures
            final(self).wf(),
            final(self).scenario_view() == old(self).scenario_view(),
            final(self).handles_view() == old(self).handles_view().insert(
                handle,
                NetworkHandleView::Socket { destination: None, response: Seq::empty(), cursor: 0 },
            ),
    {
        let h = NetworkHandle::Socket { destination: None, response: Vec::new(), cursor: 0 };
        assert(h@ == (NetworkHandleView::Socket { destination: None, response: Seq::empty(), cursor: 0 }));
        assoc_insert(&mut self.handles, handle, h);
    }

    /// The URL of `path` on a connection handle.
    pub fn connection_url(&self, handle: u32, path: &str) -> (r: Option<String>)
        requires
            self.wf(),
        ensures
            match (self.handles_view().contains_key(handle), self.handles_view()[handle]) {
                (true, NetworkHandleView::Connection { host, port }) => r matches Some(s) && s@ == url_spec(host, port, path@),
                _ => r is None,
            },
    {
        match find_key(&self.handles, handle) {
            Some(k) => match &self.handles[k].1 {
                NetworkHandle::Connection { host, port } => {
                    let mut s = String::new();
                    push_str(&mut s, "http://");
                    push_str(&mut s, host.as_str());
                    if *port != 80 {
                        push_str(&mut s, ":");
                        push_decimal(&mut s, *port as u64);
                    }
                    push_str(&mut s, path);
                    Some(s)
                },
                _ => None,
            },
            None => None,
        }
    }

    pub fn register_request(&mut self, handle: u32, method: String, url: String)
        requires
            old(self).wf(),
        ensures
            final(self).wf(),
            final(self).scenario_view() == old(self).scenario_view(),
            final(self).handles_view() == old(self).handles_view().insert(
                handle,
                NetworkHandleView::Request {
                    method: method@,
                    url: url@,
                    request_headers: Seq::empty(),
                    request_body: Seq::empty(),
                    response: Seq::empty(),
                    cursor: 0,
                    status: 0,
                    response_headers: Seq::empty(),
                },
            ),
    {
        let h = NetworkHandle::Request {
            method,
            url,
            request_headers: Vec::new(),
            request_body: Vec::new(),
            response: Vec::new(),
            cursor: 0,
            status: 0,
            response_headers: Vec::new(),
        };
        assert(header_views(Seq::<NetworkHeader>::empty()) =~= Seq::<(Seq<char>, Seq<char>)>::empty());
        assoc_insert(&mut self.handles, handle, h);
    }

    /// Stores the request headers and body of a request handle.
    pub fn set_request(&mut self, handle: u32, headers: Vec<NetworkHeader>, body: Vec<u8>)
        requires
            old(self).wf(),
        ensures
            final(self).wf(),
            final(self).scenario_view() == old(self).scenario_view(),
            match (old(self).handles_view().contains_key(handle), old(self).handles_view()[handle]) {
                (true, NetworkHandleView::Request { method, url, response, cursor, status, response_headers, .. }) =>
                    final(self).handles_view() == old(self).handles_view().insert(
                    handle,
                    NetworkHandleView::Request {
                        method,
                        url,
                        request_headers: header_views(headers@),
                        request_body: body@,
                        response,
                        cursor,
                        status,
                        response_headers,
                    },
                ),
                _ => final(self).handles_view() == old(self).handles_view(),
            },
    {
        if let Some(k) = find_key(&self.handles, handle) {
            let ghost before = self.handles@;
            match &mut self.handles[k].1 {
                NetworkHandle::Request { request_headers, request_body, .. } => {
                    *request_headers = headers;
                    *request_body = body;
                },
                _ => {},
            }
            proof {
                if before[k as int].1 is Request {
                    lemma_assoc_update(before, k as int, self.handles@[k as int].1);
                    assert(self.handles@ == before.update(k as int, (before[k as int].0, self.handles@[k as int].1)));
                } else {
                    assert(self.handles@ =~= before);
                }
            }
        }
    }

    /// The method, URL, headers and body of a request handle.
    pub fn request_metadata(&self, handle: u32) -> (r: Option<(String, String, Vec<NetworkHeader>, Vec<u8>)>)
        requires
            self.wf(),
        ensures
            match (self.handles_view().contains_key(handle), self.handles_view()[handle]) {
                (true, NetworkHandleView::Request { method, url, request_headers, request_body, .. }) => r matches Some(t)
                    && t.0@ == method && t.1@ == url && header_views(t.2@) == request_headers && t.3@ == request_body,
                _ => r is None,
            },
    {
        match find_key(&self.handles, handle) {
            Some(k) => match &self.handles[k].1 {
                NetworkHandle::Request { method, url, request_headers, request_body, .. } => Some(
                    (method.clone(), url.clone(), copy_headers(request_headers), copy_bytes(request_body)),
                ),
                _ => None,
            },
            None => None,
        }
    }

    /// The first scripted route for `url`, compared up to ASCII case.
    fn find_route(&self, url: &String) -> (r: Option<usize>)
        ensures
            match route_index(self.scenario.http@, url@, self.scenario.http@.len()) {
                Some(i) => 0 <= i < self.scenario.http@.len() && r == Some(i as usize),
                None => r is None,
            },
    {
        let mut i: usize = 0;
        while i < self.scenario.http.len()
            invariant
                i <= self.scenario.http@.len(),
                route_index(self.scenario.http@, url@, i as nat) is None,
            decreases self.scenario.http@.len() - i,
        {
            if eq_ignore_case(self.scenario.http[i].url.as_str(), url.as_str()) {
                assert(route_index(self.scenario.http@, url@, (i + 1) as nat) == Some(i as int));
                proof {
                    lemma_route_index_found(self.scenario.http@, url@, (i + 1) as nat, self.scenario.http@.len());
                    lemma_route_index_bound(self.scenario.http@, url@, self.scenario.http@.len());
                }
                return Some(i);
            }
            i = i + 1;
        }
        proof {
            lemma_route_index_bound(self.scenario.http@, url@, self.scenario.http@.len());
        }
        None
    }

    /// Follows a request's scripted redirects (to at most three) and stores
    /// the final reply on the handle; gives every hop. Nothing happens for a
    /// handle that is not a request.
    pub fn resolve_request(&mut self, handle: u32) -> (r: Vec<ResolvedHttp>)
        requires
            old(self).wf(),
        ensures
            final(self).wf(),
            final(self).scenario_view() == old(self).scenario_view(),
            match (old(self).handles_view().contains_key(handle), old(self).handles_view()[handle]) {
                (true, NetworkHandleView::Request { method, url, request_headers, request_body, .. }) => {
                    let hops = hops_spec(old(self).scenario_view().http@, url, 0);
                    let last = hops.last();
                    &&& hop_views(r@) == hops
                    &&& final(self).handles_view() == old(self).handles_view().insert(
                        handle,
                        NetworkHandleView::Request {
                            method,
                            url: last.url,
                            request_headers,
                            request_body,
                            response: last.body,
                            cursor: 0,
                            status: last.status,
                            response_headers: last.headers,
                        },
                    )
                },
                _ => r@.len() == 0 && final(self).handles_view() == old(self).handles_view(),
            },
    {
        let k = match find_key(&self.handles, handle) {
            Some(k) => k,
            None => {
                return Vec::new();
            },
        };
        let start_url = match &self.handles[k].1 {
            NetworkHandle::Request { url, .. } => url.clone(),
            _ => {
                return Vec::new();
            },
        };
        let ghost http = self.scenario.http@;
        let mut current = start_url;
        let mut hops: Vec<ResolvedHttp> = Vec::new();
        let mut depth: usize = 0;
        let ghost url0 = current@;
        let mut final_status: u16 = 0;
        let mut final_headers: Vec<NetworkHeader> = Vec::new();
        let mut final_body: Vec<u8> = Vec::new();
        loop
            invariant_except_break
                hop_views(hops@) + hops_spec(http, current@, depth as nat) == hops_spec(http, url0, 0),
            invariant
                depth <= 3,
                http == self.scenario.http@,
                self.handles@ == old(self).handles@,
            ensures
                hop_views(hops@) == hops_spec(http, url0, 0),
                hops@.len() > 0,
                final_status == hop_views(hops@).last().status,
                header_views(final_headers@) == hop_views(hops@).last().headers,
                final_body@ == hop_views(hops@).last().body,
                current@ == hop_views(hops@).last().url,
                self.handles@ == old(self).handles@,
            decreases 3 - depth,
        {
            let route = self.find_route(&current);
            let ghost h = hop_spec(http, current@, depth as nat);
            let mut status: u16 = 404;
            let mut headers: Vec<NetworkHeader> = Vec::new();
            let mut body: Vec<u8> = Vec::new();
            let mut redirect: Option<String> = None;
            assert(header_views(headers@) =~= Seq::<(Seq<char>, Seq<char>)>::empty());
            if let Some(i) = route {
                let hn = self.scenario.http.len();
                assert(route_index(http, current@, http.len()) == Some(i as int));
                let item = &self.scenario.http[i];
                assert(*item == http[i as int]);
                status = item.status;
                headers = copy_headers(&item.headers);
                body = copy_bytes(&item.body);
                redirect = match &item.redirect_to {
                    Some(next) => Some(next.clone()),
                    None => None,
                };
                assert(h.status == status);
                assert(h.headers == header_views(headers@));
                assert(h.body == body@);
                assert(h.redirected == (redirect is Some && depth < 3));
                assert(redirect matches Some(n) ==> n@ == next_url(http, current@));
            }
            let redirected = redirect.is_some() && depth < 3;
            let hop = ResolvedHttp {
                url: current.clone(),
                status,
                headers: copy_headers(&headers),
                body: copy_bytes(&body),
                redirected,
            };
            assert(hop@ == h);
            let ghost before = hop_views(hops@);
            hops.push(hop);
            assert(hop_views(hops@) =~= before.push(h));
            if redirected {
                let next = match redirect {
                    Some(n) => n,
                    None => current.clone(),
                };
                assert(next@ == next_url(http, current@));
                assert(before + hops_spec(http, current@, depth as nat) =~= before.push(h) + hops_spec(http, next@, (depth + 1) as nat));
                current = next;
                depth = depth + 1;
            } else {
                assert(before + hops_spec(http, current@, depth as nat) =~= before.push(h));
                final_status = status;
                final_headers = headers;
                final_body = body;
                break;
            }
        }
        let ghost pairs = self.handles@;
        match &mut self.handles[k].1 {
            NetworkHandle::Request { url, response, cursor, status, response_headers, .. } => {
                *url = current;
                *response = final_body;
                *cursor = 0;
                *status = final_status;
                *response_headers = final_headers;
            },
            _ => {},
        }
        proof {
            lemma_assoc_update(pairs, k as int, self.handles@[k as int].1);
            assert(self.handles@ == pairs.update(k as int, (pairs[k as int].0, self.handles@[k as int].1)));
        }
        hops
    }

    /// Reads up to `maximum` bytes of a request's reply from its cursor.
    pub fn read_response(&mut self, handle: u32, maximum: usize) -> (r: Option<Vec<u8>>)
        requires
            old(self).wf(),
        ensures
            final(self).wf(),
            final(self).scenario_view() == old(self).scenario_view(),
            match (old(self).handles_view().contains_key(handle), old(self).handles_view()[handle]) {
                (true, NetworkHandleView::Request { method, url, request_headers, request_body, response, cursor, status, response_headers }) => {
                    let end = read_end(cursor, maximum, response.len());
                    if cursor <= end {
                        &&& r matches Some(b) && b@ == response.subrange(cursor as int, end)
                        &&& final(self).handles_view() == old(self).handles_view().insert(
                            handle,
                            NetworkHandleView::Request { method, url, request_headers, request_body, response, cursor: end as usize, status, response_headers },
                        )
                    } else {
                        r is None && final(self).handles_view() == old(self).handles_view()
                    }
                },
                _ => r is None && final(self).handles_view() == old(self).handles_view(),
            },
    {
        let k = match find_key(&self.handles, handle) {
            Some(k) => k,
            None => {
                return None;
            },
        };
        let ghost pairs = self.handles@;
        let r = match &mut self.handles[k].1 {
            NetworkHandle::Request { response, cursor, .. } => take_reply(response, cursor, maximum),
            _ => None,
        };
        proof {
            if pairs[k as int].1 is Request && r is Some {
                lemma_assoc_update(pairs, k as int, self.handles@[k as int].1);
                assert(self.handles@ == pairs.update(k as int, (pairs[k as int].0, self.handles@[k as int].1)));
            } else {
                assert(self.handles@ =~= pairs);
            }
        }
        r
    }

    pub fn response_status(&self, handle: u32) -> (r: Option<u16>)
        requires
            self.wf(),
        ensures
            match (self.handles_view().contains_key(handle), self.handles_view()[handle]) {
                (true, NetworkHandleView::Request { status, .. }) => r == Some(status),
                _ => r is None,
            },
    {
        match find_key(&self.handles, handle) {
            Some(k) => match &self.handles[k].1 {
                NetworkHandle::Request { status, .. } => Some(*status),
                _ => None,
            },
            None => None,
        }
    }

    /// The scripted address of the first DNS answer whose host matches up to ASCII case.
    pub fn resolve_dns(&self, host: &str) -> (r: Option<[u8; 4]>)
        ensures
            match r {
                Some(a) => exists|i: int| 0 <= i < self.scenario_view().dns@.len() && same_ignoring_case(#[trigger] self.scenario_view().dns@[i].host@, host@)
                    && a == self.scenario_view().dns@[i].address
                    && forall|j: int| 0 <= j < i ==> !same_ignoring_case(#[trigger] self.scenario_view().dns@[j].host@, host@),
                None => forall|j: int| 0 <= j < self.scenario_view().dns@.len() ==> !same_ignoring_case(#[trigger] self.scenario_view().dns@[j].host@, host@),
            },
    {
        let mut i: usize = 0;
        while i < self.scenario.dns.len()
            invariant
                i <= self.scenario.dns@.len(),
                forall|j: int| 0 <= j < i ==> !same_ignoring_case(#[trigger] self.scenario.dns@[j].host@, host@),
            decreases self.scenario.dns@.len() - i,
        {
            if eq_ignore_case(self.scenario.dns[i].host.as_str(), host) {
                assert(same_ignoring_case(self.scenario_view().dns@[i as int].host@, host@));
                return Some(self.scenario.dns[i].address);
            }
            i = i + 1;
        }
        None
    }

    /// Points a socket at `destination` with its scripted reply (empty when
    /// none is scripted), rewinding its cursor.
    pub fn connect_socket(&mut self, handle: u32, destination: String)
        requires
            old(self).wf(),
        ensures
            final(self).wf(),
            final(self).scenario_view() == old(self).scenario_view(),
            match (old(self).handles_view().contains_key(handle), old(self).handles_view()[handle]) {
                (true, NetworkHandleView::Socket { .. }) => final(self).handles_view() == old(self).handles_view().insert(
                    handle,
                    NetworkHandleView::Socket {
                        destination: Some(destination@),
                        response: scripted_reply(old(self).scenario_view(), destination@),
                        cursor: 0,
                    },
                ),
                _ => final(self).handles_view() == old(self).handles_view(),
            },
    {
        let mut scripted: Vec<u8> = Vec::new();
        let mut i: usize = 0;
        let mut found = false;
        while i < self.scenario.sockets.len()
            invariant_except_break
                !found,
                scripted@ == Seq::<u8>::empty(),
            invariant
                i <= self.scenario.sockets@.len(),
                forall|j: int| 0 <= j < i ==> (#[trigger] self.scenario.sockets@[j]).destination@ != destination@,
            ensures
                found ==> scripted@ == scripted_reply(self.scenario, destination@),
                !found ==> scripted@ == Seq::<u8>::empty() && i == self.scenario.sockets@.len(),
            decreases self.scenario.sockets@.len() - i,
        {
            if self.scenario.sockets[i].destination == destination {
                scripted = copy_bytes(&self.scenario.sockets[i].response);
                proof {
                    lemma_reply_found(self.scenario, destination@, i as int);
                }
                found = true;
                break;
            }
            i = i + 1;
        }
        proof {
            if !found {
                lemma_reply_absent(self.scenario, destination@);
            }
        }
        if let Some(k) = find_key(&self.handles, handle) {
            let ghost pairs = self.handles@;
            match &mut self.handles[k].1 {
                NetworkHandle::Socket { destination: target, response, cursor } => {
                    *target = Some(destination);
                    *response = scripted;
                    *cursor = 0;
                },
                _ => {},
            }
            proof {
                if pairs[k as int].1 is Socket {
                    lemma_assoc_update(pairs, k as int, self.handles@[k as int].1);
                    assert(self.handles@ == pairs.update(k as int, (pairs[k as int].0, self.handles@[k as int].1)));
                } else {
                    assert(self.handles@ =~= pairs);
                }
            }
        }
    }

    pub fn socket_destination(&self, handle: u32) -> (r: Option<String>)
        requires
            self.wf(),
        ensures
            match (self.handles_view().contains_key(handle), self.handles_view()[handle]) {
                (true, NetworkHandleView::Socket { destination: Some(d), .. }) => r matches Some(s) && s@ == d,
                _ => r is None,
            },
    {
        match find_key(&self.handles, handle) {
            Some(k) => match &self.handles[k].1 {
                NetworkHandle::Socket { destination: Some(d), .. } => Some(d.clone()),
                _ => None,
            },
            None => None,
        }
    }

    /// Reads up to `maximum` bytes of a socket's reply from its cursor.
    pub fn recv_socket(&mut self, handle: u32, maximum: usize) -> (r: Option<Vec<u8>>)
        requires
            old(self).wf(),
        ensures
            final(self).wf(),
            final(self).scenario_view() == old(self).scenario_view(),
            match (old(self).handles_view().contains_key(handle), old(self).handles_view()[handle]) {
                (true, NetworkHandleView::Socket { destination, response, cursor }) => {
                    let end = read_end(cursor, maximum, response.len());
                    if cursor <= end {
                        &&& r matches Some(b) && b@ == response.subrange(cursor as int, end)
                        &&& final(self).handles_view() == old(self).handles_view().insert(
                            handle,
                            NetworkHandleView::Socket { destination, response, cursor: end as usize },
                        )
                    } else {
                        r is None && final(self).handles_view() == old(self).handles_view()
                    }
                },
                _ => r is None && final(self).handles_view() == old(self).handles_view(),
            },
    {
        let k = match find_key(&self.handles, handle) {
            Some(k) => k,
            None => {
                return None;
            },
        };
        let ghost pairs = self.handles@;
        let r = match &mut self.handles[k].1 {
            NetworkHandle::Socket { response, cursor, .. } => take_reply(response, cursor, maximum),
            _ => None,
        };
        proof {
            if pairs[k as int].1 is Socket && r is Some {
                lemma_assoc_update(pairs, k as int, self.handles@[k as int].1);
                assert(self.handles@ == pairs.update(k as int, (pairs[k as int].0, self.handles@[k as int].1)));
            } else {
                assert(self.handles@ =~= pairs);
            }
        }
        r
    }

    pub fn close(&mut self, handle: u32)
        requires
            old(self).wf(),
        ensures
            final(self).wf(),
            final(self).scenario_view() == old(self).scenario_view(),
            final(self).handles_view() == old(self).handles_view().remove(handle),
    {
        assoc_remove(&mut self.handles, handle);
    }
}

/// The scripted reply of the first socket entry for `destination` (empty when none).
pub open spec fn scripted_reply(s: NetworkScenario, destination: Seq<char>) -> Seq<u8> {
    if exists|i: int| 0 <= i < s.sockets@.len() && (#[trigger] s.sockets@[i]).destination@ == destination {
        let i = choose|i: int| 0 <= i < s.sockets@.len() && (#[trigger] s.sockets@[i]).destination@ == destination
            && forall|j: int| 0 <= j < i ==> (#[trigger] s.sockets@[j]).destination@ != destination;
        s.sockets@[i].response@
    } else {
        Seq::empty()
    }
}

proof fn lemma_reply_found(s: NetworkScenario, destination: Seq<char>, i: int)
    requires
        0 <= i < s.sockets@.len(),
        s.sockets@[i].destination@ == destination,
        forall|j: int| 0 <= j < i ==> (#[trigger] s.sockets@[j]).destination@ != destination,
    ensures
        scripted_reply(s, destination) == s.sockets@[i].response@,
{
    let k = choose|k: int| 0 <= k < s.sockets@.len() && (#[trigger] s.sockets@[k]).destination@ == destination
        && forall|j: int| 0 <= j < k ==> (#[trigger] s.sockets@[j]).destination@ != destination;
    if k < i {
        assert(s.sockets@[k].destination@ != destination);
    } else if k > i {
        assert(s.sockets@[i].destination@ != destination);
    }
}

proof fn lemma_reply_absent(s: NetworkScenario, destination: Seq<char>)
    requires
        forall|j: int| 0 <= j < s.sockets@.len() ==> (#[trigger] s.sockets@[j]).destination@ != destination,
    ensures
        scripted_reply(s, destination) == Seq::<u8>::empty(),
{
}

proof fn lemma_route_index_bound(http: Seq<HttpScenario>, url: Seq<char>, n: nat)
    ensures
        route_index(http, url, n) matches Some(i) ==> 0 <= i < n && n <= http.len(),
    decreases n,
{
    if n > 0 && n <= http.len() {
        lemma_route_index_bound(http, url, (n - 1) as nat);
    }
}

proof fn lemma_route_index_found(http: Seq<HttpScenario>, url: Seq<char>, n: nat, m: nat)
    requires
        n <= m <= http.len(),
        route_index(http, url, n) is Some,
    ensures
        route_index(http, url, m) == route_index(http, url, n),
    decreases m,
{
    if m > n {
        lemma_route_index_found(http, url, n, (m - 1) as nat);
    }
}

/// Copies `response[cursor..end]` with `end` the cursor advanced by
/// `maximum` (held at the reply's length) and moves the cursor to `end`;
/// `None` when the cursor is already past the end.
fn take_reply(response: &Vec<u8>, cursor: &mut usize, maximum: usize) -> (r: Option<Vec<u8>>)
    ensures
        ({
            let end = read_end(*old(cursor), maximum, response@.len());
            if *old(cursor) <= end {
                r matches Some(b) && b@ == response@.subrange(*old(cursor) as int, end) && *final(cursor) == end
            } else {
                r is None && *final(cursor) == *old(cursor)
            }
        }),
{
    let sum = if maximum > usize::MAX - *cursor { usize::MAX } else { *cursor + maximum };
    let end = if sum < response.len() { sum } else { response.len() };
    if *cursor > end {
        return None;
    }
    let mut out: Vec<u8> = Vec::new();
    let mut i: usize = *cursor;
    while i < end
        invariant
            *cursor <= i <= end,
            end <= response@.len(),
            out@ == response@.subrange(*cursor as int, i as int),
        decreases end - i,
    {
        out.push(response[i]);
        i = i + 1;
        assert(out@ =~= response@.subrange(*cursor as int, i as int));
    }
    *cursor = end;
    Some(out)
}

impl NetworkRuntime {
    /// Every reply the runtime holds fits in memory: at most `usize::MAX` bytes.
    pub proof fn lemma_reply_fits(&self, handle: u32)
        requires
            self.wf(),
            self.handles_view().contains_key(handle),
            self.handles_view()[handle] is Request,
        ensures
            self.handles_view()[handle]->Request_response.len() <= usize::MAX,
    {
        let pairs = self.handles@;
        if !(exists|j: int| 0 <= j < pairs.len() && (#[trigger] pairs[j]).0 == handle) {
            crate::assoc::lemma_assoc_absent(pairs, handle);
        }
        let j = choose|j: int| 0 <= j < pairs.len() && (#[trigger] pairs[j]).0 == handle;
        crate::assoc::lemma_assoc_lookup(pairs, j);
        match pairs[j].1 {
            NetworkHandle::Request { response, .. } => {
                assert(response@.len() == response.len());
            },
            _ => {},
        }
    }
}

/// Reading a reply in pieces: from a cursor inside the reply, a read of up
/// to `maximum` bytes ends at the cursor plus `maximum` or at the reply's
/// end, whichever comes first, so successive reads concatenate to the reply
/// and then give nothing more.
pub proof fn law_read_response_cursor(rt: NetworkRuntime, handle: u32, maximum: usize)
    requires
        rt.wf(),
        rt.handles_view().contains_key(handle),
        rt.handles_view()[handle] is Request,
        rt.handles_view()[handle]->Request_cursor <= rt.handles_view()[handle]->Request_response.len(),
    ensures
        ({
            let c = rt.handles_view()[handle]->Request_cursor;
            let len = rt.handles_view()[handle]->Request_response.len();
            &&& read_end(c, maximum, len) == if c + maximum < len { (c + maximum) as int } else { len as int }
            &&& c <= read_end(c, maximum, len)
        }),
{
    rt.lemma_reply_fits(handle);
}


/// A request's redirect chain: one to four hops from depth 0, the first at
/// the requested URL; every hop but the last redirects, to the URL its route
/// names, which the next hop fetches; the last hop does not redirect; and a
/// hop whose URL no route matches answers 404 with no headers and no body.
pub proof fn law_redirect_chain(http: Seq<HttpScenario>, url: Seq<char>, depth: nat)
    requires
        depth <= 3,
    ensures
        ({
            let hops = hops_spec(http, url, depth);
            &&& 1 <= hops.len() <= 4 - depth
            &&& hops[0].url == url
            &&& forall|i: int| 0 <= i < hops.len() - 1 ==> (#[trigger] hops[i]).redirected && hops[i + 1].url == next_url(
                http,
                hops[i].url,
            )
            &&& !hops.last().redirected
            &&& forall|i: int| 0 <= i < hops.len() && route_index(http, (#[trigger] hops[i]).url, http.len()) is None ==> hops[i].status
                == 404 && hops[i].headers.len() == 0 && hops[i].body.len() == 0
        }),
    decreases 3 - depth,
{
    let h = hop_spec(http, url, depth);
    let hops = hops_spec(http, url, depth);
    if h.redirected && depth < 3 {
        let rest = hops_spec(http, next_url(http, url), depth + 1);
        law_redirect_chain(http, next_url(http, url), depth + 1);
        assert(hops == seq![h] + rest);
        assert forall|i: int| 0 <= i < hops.len() - 1 implies (#[trigger] hops[i]).redirected && hops[i + 1].url == next_url(
            http,
            hops[i].url,
        ) by {
            if i > 0 {
                assert(hops[i] == rest[i - 1]);
                assert(hops[i + 1] == rest[i]);
            }
        }
        assert forall|i: int| 0 <= i < hops.len() && route_index(http, (#[trigger] hops[i]).url, http.len()) is None implies hops[i].status
            == 404 && hops[i].headers.len() == 0 && hops[i].body.len() == 0 by {
            if i > 0 {
                assert(hops[i] == rest[i - 1]);
            }
        }
    } else {
        assert(hops == seq![h]);
    }
}


} // verus!
