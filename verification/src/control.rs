//! The control API: what each request does to the served model and what is
//! replied. Opening a backend and asking the queue threads happen between a
//! request and its reply, outside.

use vstd::prelude::*;

use crate::config::BackendConfig;
use crate::json::Json;
use crate::port::PortConfig;
use crate::registry::{ControllerEntry, QueueInfo};
use crate::subsystem::{Namespace, NsError, Subsystem};
use crate::text::push_dec;

pub mod reports;

verus! {

/// A control request.
pub enum Request {
    AddNamespace {
        /// Defaults to the only subsystem when there is just one.
        subsysnqn: Option<String>,
        nsid: u32,
        backend: BackendConfig,
    },
    RemoveNamespace { subsysnqn: Option<String>, nsid: u32 },
    ListNamespace { subsysnqn: Option<String> },
    /// Report every counter, and zero them after that on `clear`.
    GetStats { clear: bool },
    ListController,
}

/// A control response.
pub struct Response {
    pub ok: bool,
    pub error: Option<String>,
    pub data: Option<Json>,
}

/// What a [`Response`] says.
pub enum ResponseV {
    Done,
    Data { data: crate::json::JsonV },
    Failed { error: Seq<char> },
}

impl Response {
    /// The response says `v`.
    pub open spec fn says(&self, v: ResponseV) -> bool {
        match v {
            ResponseV::Done => self.ok && self.error is None && self.data is None,
            ResponseV::Data { data } => self.ok && self.error is None && (self.data matches Some(d)
                && d@ == data),
            ResponseV::Failed { error } => !self.ok && self.data is None && (
            self.error matches Some(e) && e@ == error),
        }
    }

    /// Success.
    pub fn ok(data: Option<Json>) -> (r: Response)
        ensures
            match data {
                None => r.says(ResponseV::Done),
                Some(d) => r.says(ResponseV::Data { data: d@ }),
            },
    {
        Response { ok: true, error: None, data }
    }

    /// Failure.
    pub fn err(message: String) -> (r: Response)
        ensures
            r.says(ResponseV::Failed { error: message@ }),
    {
        Response { ok: false, error: Some(message), data: None }
    }

    /// The response as a line of JSON.
    pub open spec fn line(&self) -> Seq<char> {
        let head = if self.ok {
            "{\"ok\":true"@
        } else {
            "{\"ok\":false"@
        };
        let mid = match self.error {
            Some(e) => head + ",\"error\":"@ + crate::json::compact(crate::json::JsonV::Str(e@)),
            None => head,
        };
        let body = match self.data {
            Some(d) => mid + ",\"data\":"@ + crate::json::compact(d@),
            None => mid,
        };
        body + "}\n"@
    }

    /// Write the response as a line of JSON.
    pub fn to_line(self) -> (s: String)
        ensures
            s@ == self.line(),
    {
        let mut s = if self.ok {
            "{\"ok\":true".to_owned()
        } else {
            "{\"ok\":false".to_owned()
        };
        match self.error {
            Some(e) => {
                s.append(",\"error\":");
                let ghost text = e@;
                let quoted = Json::Str(e);
                assert(quoted@ == crate::json::JsonV::Str(text));
                crate::json::push_json(&mut s, &quoted);
            },
            None => {},
        }
        match &self.data {
            Some(d) => {
                s.append(",\"data\":");
                crate::json::push_json(&mut s, d);
            },
            None => {},
        }
        s.append("}\n");
        s
    }
}

/// The reply to a line that is no request.
pub fn bad_request(message: &str) -> (r: Response)
    ensures
        r.says(ResponseV::Failed { error: "bad request: "@ + message@ }),
{
    Response::err("bad request: ".to_owned().concat(message))
}

/// Which subsystem a request is about: the one it names, or the only one.
pub open spec fn resolved(s: Seq<Subsystem>, nqn: Option<Seq<char>>, r: Result<int, Seq<char>>) -> bool {
    match nqn {
        Some(n) => match r {
            Ok(i) => 0 <= i < s.len() && s[i].nqn@ == n,
            Err(e) => !crate::port::serves(s, n) && e == "unknown subsystem '"@ + n + "'"@,
        },
        None => if s.len() == 1 {
            r == Ok::<int, Seq<char>>(0)
        } else {
            r == Err::<int, Seq<char>>("subsysnqn required (multiple subsystems)"@)
        },
    }
}

/// A selected subsystem as it is in contracts.
pub open spec fn selector(o: Option<String>) -> Option<Seq<char>> {
    match o {
        Some(s) => Some(s@),
        None => None,
    }
}

/// A result as it is in contracts.
pub open spec fn choice(r: Result<usize, String>) -> Result<int, Seq<char>> {
    match r {
        Ok(i) => Ok(i as int),
        Err(e) => Err(e@),
    }
}

/// Find the subsystem a request is about.
pub fn resolve(port: &PortConfig, subsysnqn: &Option<String>) -> (r: Result<usize, String>)
    ensures
        resolved(port.subsystems@, selector(*subsysnqn), choice(r)),
        r matches Ok(i) ==> i < port.subsystems@.len(),
{
    match subsysnqn {
        Some(nqn) => match port.subsystem(nqn.as_str()) {
            Some(i) => Ok(i),
            None => {
                let mut e = "unknown subsystem '".to_owned();
                e.append(nqn.as_str());
                e.append("'");
                Err(e)
            },
        },
        None => if port.subsystems.len() == 1 {
            Ok(0)
        } else {
            Err("subsysnqn required (multiple subsystems)".to_owned())
        },
    }
}

fn obj1(k: &str, v: Json) -> (j: Json)
    ensures
        j@ == crate::json::JsonV::Obj(seq![(k@, v@)]),
{
    let ghost a = v@;
    let mut m: Vec<(String, Json)> = Vec::new();
    m.push((k.to_owned(), v));
    let j = Json::Obj(m);
    assert(j@->Obj_0 =~= seq![(k@, a)]);
    j
}

pub(crate) fn push_member(m: &mut Vec<(String, Json)>, k: &str, v: Json)
    ensures
        final(m)@.len() == old(m)@.len() + 1,
        members(final(m)@) == members(old(m)@).push((k@, v@)),
{
    let ghost pre = members(m@);
    let ghost a = v@;
    m.push((k.to_owned(), v));
    assert(members(m@) =~= pre.push((k@, a)));
}

/// The members of a JSON object.
pub open spec fn members(m: Seq<(String, Json)>) -> Seq<(Seq<char>, crate::json::JsonV)> {
    Seq::new(m.len(), |i: int| (m[i].0@, m[i].1@))
}

pub(crate) fn object(m: Vec<(String, Json)>) -> (j: Json)
    ensures
        j@ == crate::json::JsonV::Obj(members(m@)),
{
    let ghost s = members(m@);
    let j = Json::Obj(m);
    assert(j@->Obj_0 =~= s);
    j
}

/// The values of a list.
pub open spec fn values(v: Seq<Json>) -> Seq<crate::json::JsonV> {
    Seq::new(v.len(), |i: int| v[i]@)
}

pub(crate) fn array(v: Vec<Json>) -> (j: Json)
    ensures
        j@ == crate::json::JsonV::Arr(values(v@)),
{
    let ghost s = values(v@);
    let j = Json::Arr(v);
    assert(j@->Arr_0 =~= s);
    j
}

/// A number of any sign.
pub open spec fn int_value(n: int) -> crate::json::JsonV {
    if n < 0 {
        crate::json::JsonV::Int(n as i64)
    } else {
        crate::json::JsonV::Uint(n as u64)
    }
}

fn int_json(n: i32) -> (j: Json)
    ensures
        j@ == int_value(n as int),
{
    if n < 0 {
        Json::Int(n as i64)
    } else {
        Json::Uint(n as u64)
    }
}

/// The body of a namespace.
pub open spec fn ns_value(ns: Namespace) -> crate::json::JsonV {
    crate::json::JsonV::Obj(
        seq![
            ("block_shift"@, crate::json::JsonV::Uint(ns.block_shift as u64)),
            ("blocks"@, crate::json::JsonV::Uint(ns.blocks)),
            ("nsid"@, crate::json::JsonV::Uint(ns.nsid as u64)),
        ],
    )
}

/// The bodies of all namespaces of a subsystem.
pub open spec fn ns_values(nss: Seq<Namespace>) -> crate::json::JsonV {
    crate::json::JsonV::Arr(Seq::new(nss.len(), |i: int| ns_value(nss[i])))
}

/// The body of a namespace.
pub fn ns_json(ns: &Namespace) -> (j: Json)
    ensures
        j@ == ns_value(*ns),
{
    let mut m: Vec<(String, Json)> = Vec::new();
    push_member(&mut m, "block_shift", Json::Uint(ns.block_shift as u64));
    push_member(&mut m, "blocks", Json::Uint(ns.blocks));
    push_member(&mut m, "nsid", Json::Uint(ns.nsid as u64));
    let j = object(m);
    assert(j@->Obj_0 =~= ns_value(*ns)->Obj_0);
    j
}

fn ns_list(nss: &Vec<Namespace>) -> (j: Json)
    ensures
        j@ == ns_values(nss@),
{
    let mut out: Vec<Json> = Vec::new();
    let mut i: usize = 0;
    while i < nss.len()
        invariant
            i <= nss@.len(),
            out@.len() == i,
            forall|k: int| 0 <= k < i ==> (#[trigger] out@[k])@ == ns_value(nss@[k]),
        decreases nss@.len() - i,
    {
        out.push(ns_json(&nss[i]));
        i += 1;
    }
    assert(values(out@) =~= ns_values(nss@)->Arr_0);
    array(out)
}

/// What a request asks for before it can be answered.
pub enum Step {
    /// Nothing more: the reply, and whether the namespaces changed.
    Reply { response: Response, changed: bool },
    /// Open this backend for namespace `nsid` of subsystem `subsys`; `ring`
    /// says whether writes may come from receive-ring memory.
    Build { subsys: usize, nsid: u32, backend: BackendConfig, ring: bool },
    /// Ask every queue thread for its counters.
    Stats { clear: bool },
    /// Look up where the queue threads run.
    List,
}

/// The text of a failed namespace change.
pub open spec fn ns_error_text(e: NsError, nsid: u32) -> Seq<char> {
    match e {
        NsError::Exists => "nsid "@ + crate::text::dec(nsid as nat) + " already exists"@,
        NsError::Missing => "nsid "@ + crate::text::dec(nsid as nat) + " not found"@,
    }
}

fn ns_error(e: NsError, nsid: u32) -> (s: String)
    ensures
        s@ == ns_error_text(e, nsid),
{
    let mut s = "nsid ".to_owned();
    push_dec(&mut s, nsid as u64);
    match e {
        NsError::Exists => s.append(" already exists"),
        NsError::Missing => s.append(" not found"),
    }
    s
}

/// What `request` comes to, and what it does to the port.
pub open spec fn begun(pre: PortConfig, post: PortConfig, request: Request, step: Step) -> bool {
    match request {
        Request::AddNamespace { subsysnqn, nsid, backend } => post == pre
            && exists|r: Result<int, Seq<char>>|
            {
                &&& #[trigger] resolved(pre.subsystems@, selector(subsysnqn), r)
                &&& match r {
                    Err(e) => step matches Step::Reply { response, changed } && !changed
                        && response.says(ResponseV::Failed { error: e }),
                    Ok(i) => if !crate::config::nsid_usable(nsid) {
                        step matches Step::Reply { response, changed } && !changed
                            && response.says(ResponseV::Failed { error: "nsid reserved"@ })
                    } else {
                        step == (Step::Build {
                            subsys: i as usize,
                            nsid,
                            backend,
                            ring: pre.recv_buf_bytes > 0,
                        })
                    },
                }
            },
        Request::RemoveNamespace { subsysnqn, nsid } => exists|r: Result<int, Seq<char>>|
            {
                &&& #[trigger] resolved(pre.subsystems@, selector(subsysnqn), r)
                &&& match r {
                    Err(e) => post == pre && (step matches Step::Reply { response, changed }
                        && !changed && response.says(ResponseV::Failed { error: e })),
                    Ok(i) => if crate::subsystem::has_nsid(
                        pre.subsystems@[i].namespaces@,
                        nsid,
                    ) {
                        &&& step matches Step::Reply { response, changed } && changed
                            && response.says(ResponseV::Done)
                        &&& ns_removed(pre, post, i, nsid)
                    } else {
                        post == pre && (step matches Step::Reply { response, changed } && !changed
                            && response.says(
                            ResponseV::Failed { error: ns_error_text(NsError::Missing, nsid) },
                        ))
                    },
                }
            },
        Request::ListNamespace { subsysnqn } => post == pre && exists|r: Result<int, Seq<char>>|
            {
                &&& #[trigger] resolved(pre.subsystems@, selector(subsysnqn), r)
                &&& match r {
                    Err(e) => step matches Step::Reply { response, changed } && !changed
                        && response.says(ResponseV::Failed { error: e }),
                    Ok(i) => step matches Step::Reply { response, changed } && !changed
                        && response.says(
                        ResponseV::Data {
                            data: crate::json::JsonV::Obj(
                                seq![
                                    (
                                        "namespaces"@,
                                        ns_values(pre.subsystems@[i].namespaces@),
                                    ),
                                ],
                            ),
                        },
                    ),
                }
            },
        Request::GetStats { clear } => post == pre && step == (Step::Stats { clear }),
        Request::ListController => post == pre && step is List,
    }
}

/// Subsystem `i` changed to `s`; nothing else.
pub open spec fn sub_changed(pre: PortConfig, post: PortConfig, i: int, s: Subsystem) -> bool {
    &&& post.subsystems@ == pre.subsystems@.update(i, s)
    &&& post == (PortConfig { subsystems: post.subsystems, ..pre })
}

/// Namespace `nsid` of subsystem `i` is gone; nothing else changed.
pub open spec fn ns_removed(pre: PortConfig, post: PortConfig, i: int, nsid: u32) -> bool {
    let was = pre.subsystems@[i];
    exists|now: Subsystem, p: int|
        {
            &&& 0 <= p < was.namespaces@.len()
            &&& was.namespaces@[p].nsid == nsid
            &&& now.namespaces@ == #[trigger] was.namespaces@.remove(p)
            &&& now == (Subsystem { namespaces: now.namespaces, ..was })
            &&& #[trigger] sub_changed(pre, post, i, now)
        }
}

/// Namespace `ns` was added to subsystem `i`; nothing else changed.
pub open spec fn ns_added(pre: PortConfig, post: PortConfig, i: int, ns: Namespace) -> bool {
    let was = pre.subsystems@[i];
    exists|now: Subsystem, p: int|
        {
            &&& 0 <= p <= was.namespaces@.len()
            &&& now.namespaces@ == #[trigger] was.namespaces@.insert(p, ns)
            &&& now == (Subsystem { namespaces: now.namespaces, ..was })
            &&& #[trigger] sub_changed(pre, post, i, now)
        }
}

/// Namespace `nsid` over a backend of size `z` was added to subsystem `i`, its
/// UUID derived from the subsystem's name and `nsid`; nothing else changed.
pub open spec fn ns_joined(
    pre: PortConfig,
    post: PortConfig,
    i: int,
    nsid: u32,
    z: (u64, u8),
) -> bool {
    exists|ns: Namespace|
        crate::port::ns_is(ns, pre.subsystems@[i].nqn@, nsid, None, z) && #[trigger] ns_added(
            pre,
            post,
            i,
            ns,
        )
}

/// A namespace added at run time has the UUID that the same namespace has when
/// it is configured without one.
pub proof fn uuid_paths_agree(
    pre: PortConfig,
    post: PortConfig,
    i: int,
    z: (u64, u8),
    configured: Namespace,
    c: crate::config::NamespaceConfig,
)
    requires
        0 <= i < pre.subsystems@.len(),
        ns_joined(pre, post, i, c.nsid, z),
        c.uuid is None,
        crate::port::ns_made(configured, pre.subsystems@[i].nqn@, c, z),
    ensures
        exists|p: int|
            0 <= p < post.subsystems@[i].namespaces@.len() && (
            #[trigger] post.subsystems@[i].namespaces@[p]).nsid == c.nsid
                && post.subsystems@[i].namespaces@[p].uuid@ == configured.uuid@,
{
    let ns = choose|ns: Namespace|
        crate::port::ns_is(ns, pre.subsystems@[i].nqn@, c.nsid, None, z) && #[trigger] ns_added(
            pre,
            post,
            i,
            ns,
        );
    let was = pre.subsystems@[i];
    let (now, p) = choose|now: Subsystem, p: int|
        {
            &&& 0 <= p <= was.namespaces@.len()
            &&& now.namespaces@ == #[trigger] was.namespaces@.insert(p, ns)
            &&& now == (Subsystem { namespaces: now.namespaces, ..was })
            &&& #[trigger] sub_changed(pre, post, i, now)
        };
    assert(post.subsystems@[i] == now);
    assert(now.namespaces@[p] == ns);
}

fn reply(response: Response, changed: bool) -> (s: Step)
    ensures
        s == (Step::Reply { response, changed }),
{
    Step::Reply { response, changed }
}

/// Take in a request.
pub fn begin(port: &mut PortConfig, request: Request) -> (step: Step)
    requires
        old(port).wf(),
    ensures
        final(port).wf(),
        begun(*old(port), *final(port), request, step),
{
    let ghost pre = *port;
    match request {
        Request::AddNamespace { subsysnqn, nsid, backend } => {
            let r = resolve(port, &subsysnqn);
            assert(resolved(pre.subsystems@, selector(subsysnqn), choice(r)));
            match r {
                Err(e) => reply(Response::err(e), false),
                Ok(subsys) => {
                    if nsid == 0 || nsid == u32::MAX {
                        return reply(Response::err("nsid reserved".to_owned()), false);
                    }
                    Step::Build { subsys, nsid, backend, ring: port.recv_buf_bytes > 0 }
                },
            }
        },
        Request::RemoveNamespace { subsysnqn, nsid } => {
            let r = resolve(port, &subsysnqn);
            assert(resolved(pre.subsystems@, selector(subsysnqn), choice(r)));
            match r {
                Err(e) => reply(Response::err(e), false),
                Ok(i) => {
                    let ghost was = port.subsystems@[i as int];
                    assert(was.wf());
                    if port.subsystems[i].namespace(nsid).is_none() {
                        return reply(Response::err(ns_error(NsError::Missing, nsid)), false);
                    }
                    assert(crate::subsystem::has_nsid(was.namespaces@, nsid));
                    let removed = port.subsystems[i].remove_namespace(nsid);
                    let ghost now = port.subsystems@[i as int];
                    match removed {
                        Err(e) => reply(Response::err(ns_error(e, nsid)), false),
                        Ok(_) => {
                            proof {
                                assert(sub_changed(pre, *port, i as int, now));
                                let p = choose|p: int|
                                    0 <= p < was.namespaces@.len() && was.namespaces@[p].nsid
                                        == nsid && now.namespaces@
                                        == #[trigger] was.namespaces@.remove(p);
                                assert(now.namespaces@ == was.namespaces@.remove(p));
                                assert(crate::subsystem::has_nsid(was.namespaces@, nsid));
                                assert(ns_removed(pre, *port, i as int, nsid));
                                lemma_same_nqns(pre, *port, i as int, now);
                            }
                            reply(Response::ok(None), true)
                        },
                    }
                },
            }
        },
        Request::ListNamespace { subsysnqn } => {
            let r = resolve(port, &subsysnqn);
            assert(resolved(pre.subsystems@, selector(subsysnqn), choice(r)));
            match r {
                Err(e) => reply(Response::err(e), false),
                Ok(i) => {
                    let list = ns_list(&port.subsystems[i].namespaces);
                    reply(Response::ok(Some(obj1("namespaces", list))), false)
                },
            }
        },
        Request::GetStats { clear } => Step::Stats { clear },
        Request::ListController => Step::List,
    }
}

proof fn lemma_same_nqns(pre: PortConfig, post: PortConfig, i: int, s: Subsystem)
    requires
        pre.wf(),
        0 <= i < pre.subsystems@.len(),
        sub_changed(pre, post, i, s),
        s.nqn == pre.subsystems@[i].nqn,
        s.wf(),
    ensures
        post.wf(),
{
    assert forall|a: int, b: int| 0 <= a < b < post.subsystems@.len() implies crate::text::precedes(
        (#[trigger] post.subsystems@[a]).nqn@,
        (#[trigger] post.subsystems@[b]).nqn@,
    ) by {
        assert(crate::text::precedes(pre.subsystems@[a].nqn@, pre.subsystems@[b].nqn@));
    }
}

/// The backend asked for was opened, or could not be: add the namespace.
pub fn add_built(
    port: &mut PortConfig,
    subsys: usize,
    nsid: u32,
    built: Result<(u64, u8), String>,
) -> (r: (Response, bool))
    requires
        old(port).wf(),
        subsys < old(port).subsystems@.len(),
    ensures
        final(port).wf(),
        match built {
            Err(e) => !r.1 && *final(port) == *old(port) && r.0.says(
                ResponseV::Failed { error: e@ },
            ),
            Ok(z) => {
                let taken = crate::subsystem::has_nsid(
                    old(port).subsystems@[subsys as int].namespaces@,
                    nsid,
                );
                &&& r.1 == !taken
                &&& if taken {
                    *final(port) == *old(port) && r.0.says(
                        ResponseV::Failed { error: ns_error_text(NsError::Exists, nsid) },
                    )
                } else {
                    r.0.says(ResponseV::Done) && ns_joined(
                        *old(port),
                        *final(port),
                        subsys as int,
                        nsid,
                        z,
                    )
                }
            },
        },
{
    let ghost pre = *port;
    match built {
        Err(e) => (Response::err(e), false),
        Ok(z) => {
            let ns = crate::port::make_ns(port.subsystems[subsys].nqn.as_str(), nsid, None, z);
            let ghost was = port.subsystems@[subsys as int];
            assert(was.wf());
            if port.subsystems[subsys].namespace(nsid).is_some() {
                assert(crate::subsystem::has_nsid(was.namespaces@, nsid));
                return (Response::err(ns_error(NsError::Exists, nsid)), false);
            }
            let added = port.subsystems[subsys].add_namespace(ns);
            let ghost now = port.subsystems@[subsys as int];
            match added {
                Err(e) => (Response::err(ns_error(e, nsid)), false),
                Ok(_) => {
                    proof {
                        assert(sub_changed(pre, *port, subsys as int, now));
                        let p = choose|p: int|
                            0 <= p <= was.namespaces@.len() && now.namespaces@
                                == #[trigger] was.namespaces@.insert(p, ns);
                        assert(now.namespaces@ == was.namespaces@.insert(p, ns));
                        assert(ns_added(pre, *port, subsys as int, ns));
                        lemma_same_nqns(pre, *port, subsys as int, now);
                    }
                    (Response::ok(None), true)
                },
            }
        },
    }
}

/// The identity of a controller.
pub open spec fn info_value(e: crate::registry::EntryView) -> crate::json::JsonV {
    crate::json::JsonV::Obj(
        seq![
            ("cntlid"@, crate::json::JsonV::Uint(e.cntlid as u64)),
            ("discovery"@, crate::json::JsonV::Bool(e.discovery)),
            ("hostnqn"@, crate::json::JsonV::Str(e.hostnqn)),
            ("subsysnqn"@, crate::json::JsonV::Str(e.subsys_nqn)),
        ],
    )
}

/// A subsystem and how many namespaces it has.
pub open spec fn sub_count_value(s: Subsystem) -> crate::json::JsonV {
    crate::json::JsonV::Obj(
        seq![
            ("namespaces"@, crate::json::JsonV::Uint(s.namespaces@.len() as u64)),
            ("nqn"@, crate::json::JsonV::Str(s.nqn@)),
        ],
    )
}

/// A thread's counters, or that it did not answer.
pub open spec fn thread_value(t: Option<Json>) -> crate::json::JsonV {
    match t {
        Some(j) => j@,
        None => crate::json::JsonV::Obj(
            seq![("error"@, crate::json::JsonV::Str("thread unresponsive"@))],
        ),
    }
}

/// The data of a statistics reply.
pub open spec fn stats_value(
    subs: Seq<Subsystem>,
    ctrls: Seq<ControllerEntry>,
    threads: Seq<Option<Json>>,
) -> crate::json::JsonV {
    crate::json::JsonV::Obj(
        seq![
            (
                "controller_info"@,
                crate::json::JsonV::Arr(Seq::new(ctrls.len(), |i: int| info_value(ctrls[i]@))),
            ),
            ("controllers"@, crate::json::JsonV::Uint(ctrls.len() as u64)),
            (
                "subsystems"@,
                crate::json::JsonV::Arr(
                    Seq::new(subs.len(), |i: int| sub_count_value(subs[i])),
                ),
            ),
            (
                "threads"@,
                crate::json::JsonV::Arr(
                    Seq::new(threads.len(), |i: int| thread_value(threads[i])),
                ),
            ),
        ],
    )
}

fn info_json(e: &ControllerEntry) -> (j: Json)
    ensures
        j@ == info_value(e@),
{
    let mut m: Vec<(String, Json)> = Vec::new();
    push_member(&mut m, "cntlid", Json::Uint(e.cntlid as u64));
    push_member(&mut m, "discovery", Json::Bool(e.discovery));
    push_member(&mut m, "hostnqn", Json::Str(e.hostnqn.clone()));
    push_member(&mut m, "subsysnqn", Json::Str(e.subsys_nqn.clone()));
    let j = object(m);
    assert(j@->Obj_0 =~= info_value(e@)->Obj_0);
    j
}

/// The reply to a statistics request, once the threads have answered.
pub fn stats_reply(
    port: &PortConfig,
    ctrls: &Vec<ControllerEntry>,
    threads: Vec<Option<Json>>,
) -> (r: Response)
    ensures
        r.says(ResponseV::Data { data: stats_value(port.subsystems@, ctrls@, threads@) }),
{
    let ghost want = stats_value(port.subsystems@, ctrls@, threads@);
    let mut infos: Vec<Json> = Vec::new();
    let mut i: usize = 0;
    while i < ctrls.len()
        invariant
            i <= ctrls@.len(),
            infos@.len() == i,
            forall|k: int| 0 <= k < i ==> (#[trigger] infos@[k])@ == info_value(ctrls@[k]@),
        decreases ctrls@.len() - i,
    {
        infos.push(info_json(&ctrls[i]));
        i += 1;
    }
    assert(values(infos@) =~= want->Obj_0[0].1->Arr_0);
    let mut subs: Vec<Json> = Vec::new();
    let mut k: usize = 0;
    while k < port.subsystems.len()
        invariant
            k <= port.subsystems@.len(),
            subs@.len() == k,
            forall|n: int|
                0 <= n < k ==> (#[trigger] subs@[n])@ == sub_count_value(port.subsystems@[n]),
        decreases port.subsystems@.len() - k,
    {
        let mut m: Vec<(String, Json)> = Vec::new();
        let s = &port.subsystems[k];
        push_member(&mut m, "namespaces", Json::Uint(s.namespaces.len() as u64));
        push_member(&mut m, "nqn", Json::Str(s.nqn.clone()));
        let j = object(m);
        assert(j@->Obj_0 =~= sub_count_value(port.subsystems@[k as int])->Obj_0);
        subs.push(j);
        k += 1;
    }
    assert(values(subs@) =~= want->Obj_0[2].1->Arr_0);
    let ghost all = threads@;
    let mut rest = threads;
    let mut back: Vec<Json> = Vec::new();
    while rest.len() > 0
        invariant
            rest@.len() + back@.len() == all.len(),
            rest@ == all.subrange(0, rest@.len() as int),
            forall|n: int|
                0 <= n < back@.len() ==> (#[trigger] back@[n])@ == thread_value(
                    all[all.len() - 1 - n],
                ),
        decreases rest@.len(),
    {
        match rest.pop() {
            Some(t) => {
                assert(rest@ =~= all.subrange(0, rest@.len() as int));
                let j = match t {
                    Some(j) => j,
                    None => obj1("error", Json::Str("thread unresponsive".to_owned())),
                };
                back.push(j);
            },
            None => {},
        }
    }
    let ghost backs = back@;
    let list = crate::json::reversed(back);
    assert forall|n: int| 0 <= n < all.len() implies (#[trigger] list@[n])@ == thread_value(
        all[n],
    ) by {
        assert(list@[n] == backs[all.len() - 1 - n]);
    }
    assert(values(list@) =~= want->Obj_0[3].1->Arr_0);
    let n: usize = ctrls.len();
    let mut m: Vec<(String, Json)> = Vec::new();
    push_member(&mut m, "controller_info", array(infos));
    push_member(&mut m, "controllers", Json::Uint(n as u64));
    push_member(&mut m, "subsystems", array(subs));
    push_member(&mut m, "threads", array(list));
    let j = object(m);
    assert(j@->Obj_0 =~= want->Obj_0);
    Response::ok(Some(j))
}

/// The CPUs of the thread that serves queue `qid`: the admin thread is not
/// pinned, IO queue `n` is served by IO thread `n - 1`, around again.
pub open spec fn group_of(groups: Seq<String>, qid: u16) -> Seq<char> {
    if qid == 0 || groups.len() == 0 {
        "*"@
    } else {
        groups[(qid - 1) % groups.len() as int]@
    }
}

/// A queue of a controller; `cpus` is where its thread may run now.
pub open spec fn queue_value(
    q: crate::registry::QueueInfoView,
    cpus: Seq<char>,
    groups: Seq<String>,
) -> crate::json::JsonV {
    crate::json::JsonV::Obj(
        seq![
            ("cpus"@, crate::json::JsonV::Str(cpus)),
            ("depth"@, crate::json::JsonV::Uint(q.sqsize as u64)),
            ("group_cpus"@, crate::json::JsonV::Str(group_of(groups, q.qid))),
            ("peer"@, crate::json::JsonV::Str(q.peer)),
            ("qid"@, crate::json::JsonV::Uint(q.qid as u64)),
            ("tid"@, int_value(q.tid as int)),
        ],
    )
}

/// The namespaces of the subsystem with this NQN; none where there is none.
pub open spec fn nss_of(subs: Seq<Subsystem>, nqn: Seq<char>, v: crate::json::JsonV) -> bool {
    if crate::port::serves(subs, nqn) {
        exists|i: int|
            0 <= i < subs.len() && (#[trigger] subs[i]).nqn@ == nqn && v == ns_values(
                subs[i].namespaces@,
            )
    } else {
        v == crate::json::JsonV::Arr(seq![])
    }
}

/// A controller; `nss` are its namespaces, `cpus` where its queues' threads
/// may run now.
pub open spec fn ctrl_value(
    e: crate::registry::EntryView,
    nss: crate::json::JsonV,
    cpus: Seq<String>,
    groups: Seq<String>,
) -> crate::json::JsonV {
    crate::json::JsonV::Obj(
        seq![
            ("cntlid"@, crate::json::JsonV::Uint(e.cntlid as u64)),
            ("discovery"@, crate::json::JsonV::Bool(e.discovery)),
            ("hostnqn"@, crate::json::JsonV::Str(e.hostnqn)),
            ("kato_ms"@, crate::json::JsonV::Uint(e.kato_ms as u64)),
            ("namespaces"@, nss),
            (
                "queues"@,
                crate::json::JsonV::Arr(
                    Seq::new(
                        e.queues.len(),
                        |i: int| queue_value(e.queues[i], cpus[i]@, groups),
                    ),
                ),
            ),
            ("subsysnqn"@, crate::json::JsonV::Str(e.subsys_nqn)),
        ],
    )
}

/// A subsystem that can be discovered.
pub open spec fn sub_value(s: Subsystem) -> crate::json::JsonV {
    crate::json::JsonV::Obj(
        seq![
            ("namespaces"@, ns_values(s.namespaces@)),
            ("nqn"@, crate::json::JsonV::Str(s.nqn@)),
        ],
    )
}

/// The port and what can be discovered on it.
pub open spec fn port_value(p: PortConfig) -> crate::json::JsonV {
    crate::json::JsonV::Obj(
        seq![
            (
                "subsystems"@,
                crate::json::JsonV::Arr(
                    Seq::new(p.subsystems@.len(), |i: int| sub_value(p.subsystems@[i])),
                ),
            ),
            ("traddr"@, crate::json::JsonV::Str(p.traddr@)),
            ("trsvcid"@, crate::json::JsonV::Str(p.trsvcid@)),
        ],
    )
}

/// The data of an inventory reply.
pub open spec fn is_list_value(
    v: crate::json::JsonV,
    p: PortConfig,
    ctrls: Seq<ControllerEntry>,
    cpus: Seq<Vec<String>>,
    groups: Seq<String>,
    pid: u32,
) -> bool {
    exists|nss: Seq<crate::json::JsonV>|
        {
            &&& nss.len() == ctrls.len()
            &&& forall|i: int|
                0 <= i < ctrls.len() ==> nss_of(
                    p.subsystems@,
                    (#[trigger] ctrls[i])@.subsys_nqn,
                    nss[i],
                )
            &&& v == #[trigger] list_value(p, ctrls, nss, cpus, groups, pid)
        }
}

/// The data of an inventory reply, the namespaces of each controller given.
pub open spec fn list_value(
    p: PortConfig,
    ctrls: Seq<ControllerEntry>,
    nss: Seq<crate::json::JsonV>,
    cpus: Seq<Vec<String>>,
    groups: Seq<String>,
    pid: u32,
) -> crate::json::JsonV {
    crate::json::JsonV::Obj(
        seq![
            (
                "controllers"@,
                crate::json::JsonV::Arr(
                    Seq::new(
                        ctrls.len(),
                        |i: int| ctrl_value(ctrls[i]@, nss[i], cpus[i]@, groups),
                    ),
                ),
            ),
            ("pid"@, crate::json::JsonV::Uint(pid as u64)),
            ("ports"@, crate::json::JsonV::Arr(seq![port_value(p)])),
        ],
    )
}

fn queue_json(q: &QueueInfo, cpus: &String, groups: &Vec<String>) -> (j: Json)
    ensures
        j@ == queue_value(q@, cpus@, groups@),
{
    let n: usize = groups.len();
    let group = if q.qid == 0 || n == 0 {
        "*".to_owned()
    } else {
        groups[(q.qid as usize - 1) % n].clone()
    };
    assert(group@ == group_of(groups@, q.qid));
    let mut m: Vec<(String, Json)> = Vec::new();
    push_member(&mut m, "cpus", Json::Str(cpus.clone()));
    push_member(&mut m, "depth", Json::Uint(q.sqsize as u64));
    push_member(&mut m, "group_cpus", Json::Str(group));
    push_member(&mut m, "peer", Json::Str(q.peer.clone()));
    push_member(&mut m, "qid", Json::Uint(q.qid as u64));
    push_member(&mut m, "tid", int_json(q.tid));
    let j = object(m);
    assert(j@->Obj_0 =~= queue_value(q@, cpus@, groups@)->Obj_0);
    j
}

fn ctrl_json(e: &ControllerEntry, nss: Json, cpus: &Vec<String>, groups: &Vec<String>) -> (j: Json)
    requires
        cpus@.len() == e.queues@.len(),
    ensures
        j@ == ctrl_value(e@, nss@, cpus@, groups@),
{
    let ghost nsv = nss@;
    let ghost want = ctrl_value(e@, nss@, cpus@, groups@);
    let mut queues: Vec<Json> = Vec::new();
    let mut i: usize = 0;
    while i < e.queues.len()
        invariant
            i <= e.queues@.len(),
            cpus@.len() == e.queues@.len(),
            queues@.len() == i,
            forall|k: int|
                0 <= k < i ==> (#[trigger] queues@[k])@ == queue_value(
                    e.queues@[k]@,
                    cpus@[k]@,
                    groups@,
                ),
        decreases e.queues@.len() - i,
    {
        queues.push(queue_json(&e.queues[i], &cpus[i], groups));
        i += 1;
    }
    assert(values(queues@) =~= want->Obj_0[5].1->Arr_0);
    let mut m: Vec<(String, Json)> = Vec::new();
    push_member(&mut m, "cntlid", Json::Uint(e.cntlid as u64));
    push_member(&mut m, "discovery", Json::Bool(e.discovery));
    push_member(&mut m, "hostnqn", Json::Str(e.hostnqn.clone()));
    push_member(&mut m, "kato_ms", Json::Uint(e.kato_ms as u64));
    push_member(&mut m, "namespaces", nss);
    push_member(&mut m, "queues", array(queues));
    push_member(&mut m, "subsysnqn", Json::Str(e.subsys_nqn.clone()));
    let j = object(m);
    assert(j@->Obj_0 =~= want->Obj_0);
    j
}

fn sub_json(s: &Subsystem) -> (j: Json)
    ensures
        j@ == sub_value(*s),
{
    let mut m: Vec<(String, Json)> = Vec::new();
    push_member(&mut m, "namespaces", ns_list(&s.namespaces));
    push_member(&mut m, "nqn", Json::Str(s.nqn.clone()));
    let j = object(m);
    assert(j@->Obj_0 =~= sub_value(*s)->Obj_0);
    j
}

fn port_json(p: &PortConfig) -> (j: Json)
    ensures
        j@ == port_value(*p),
{
    let ghost want = port_value(*p);
    let mut subs: Vec<Json> = Vec::new();
    let mut i: usize = 0;
    while i < p.subsystems.len()
        invariant
            i <= p.subsystems@.len(),
            subs@.len() == i,
            forall|k: int| 0 <= k < i ==> (#[trigger] subs@[k])@ == sub_value(p.subsystems@[k]),
        decreases p.subsystems@.len() - i,
    {
        subs.push(sub_json(&p.subsystems[i]));
        i += 1;
    }
    assert(values(subs@) =~= want->Obj_0[0].1->Arr_0);
    let mut m: Vec<(String, Json)> = Vec::new();
    push_member(&mut m, "subsystems", array(subs));
    push_member(&mut m, "traddr", Json::Str(p.traddr.clone()));
    push_member(&mut m, "trsvcid", Json::Str(p.trsvcid.clone()));
    let j = object(m);
    assert(j@->Obj_0 =~= want->Obj_0);
    j
}

/// The reply to an inventory request. `cpus` are the CPUs each queue's thread
/// may run on now, controller by controller; `groups` the CPU group of each IO
/// thread.
pub fn list_reply(
    port: &PortConfig,
    ctrls: &Vec<ControllerEntry>,
    cpus: &Vec<Vec<String>>,
    groups: &Vec<String>,
    pid: u32,
) -> (r: Response)
    requires
        cpus@.len() == ctrls@.len(),
        forall|i: int|
            0 <= i < ctrls@.len() ==> (#[trigger] cpus@[i])@.len() == ctrls@[i].queues@.len(),
    ensures
        r.ok && r.error is None && r.data is Some,
        is_list_value(r.data->0@, *port, ctrls@, cpus@, groups@, pid),
{
    let ghost mut nss: Seq<crate::json::JsonV> = seq![];
    let mut list: Vec<Json> = Vec::new();
    let mut i: usize = 0;
    while i < ctrls.len()
        invariant
            i <= ctrls@.len(),
            cpus@.len() == ctrls@.len(),
            forall|k: int|
                0 <= k < ctrls@.len() ==> (#[trigger] cpus@[k])@.len() == ctrls@[k].queues@.len(),
            list@.len() == i,
            nss.len() == i,
            forall|k: int|
                0 <= k < i ==> nss_of(
                    port.subsystems@,
                    (#[trigger] ctrls@[k])@.subsys_nqn,
                    nss[k],
                ),
            forall|k: int|
                0 <= k < i ==> (#[trigger] list@[k])@ == ctrl_value(
                    ctrls@[k]@,
                    nss[k],
                    cpus@[k]@,
                    groups@,
                ),
        decreases ctrls@.len() - i,
    {
        assert(cpus@[i as int]@.len() == ctrls@[i as int].queues@.len());
        let own = match port.subsystem(ctrls[i].subsys_nqn.as_str()) {
            Some(s) => {
                assert(crate::port::serves(port.subsystems@, ctrls@[i as int]@.subsys_nqn));
                ns_list(&port.subsystems[s].namespaces)
            },
            None => {
                let none: Vec<Json> = Vec::new();
                assert(values(none@) =~= seq![]);
                array(none)
            },
        };
        proof {
            assert(nss_of(port.subsystems@, ctrls@[i as int]@.subsys_nqn, own@));
            nss = nss.push(own@);
        }
        list.push(ctrl_json(&ctrls[i], own, &cpus[i], groups));
        i += 1;
    }
    let ghost want = list_value(*port, ctrls@, nss, cpus@, groups@, pid);
    assert(values(list@) =~= want->Obj_0[0].1->Arr_0);
    let mut ports: Vec<Json> = Vec::new();
    ports.push(port_json(port));
    assert(values(ports@) =~= seq![port_value(*port)]);
    let mut m: Vec<(String, Json)> = Vec::new();
    push_member(&mut m, "controllers", array(list));
    push_member(&mut m, "pid", Json::Uint(pid as u64));
    push_member(&mut m, "ports", array(ports));
    let j = object(m);
    assert(j@->Obj_0 =~= want->Obj_0);
    Response::ok(Some(j))
}

} // verus!
