use crate::address::{sock_text, team_host, Ipv4Address, Ipv6Address, SockAddr};
use crate::config::{DnsRecord, ServiceConfig, ServiceConfigTy, Team, Vm};
use vstd::prelude::*;

verus! {

/// Identity of a probed service: team, machine and service ids.
#[derive(Debug, Clone)]
pub struct SvcMeta {
    pub team_id: String,
    pub vm_id: String,
    pub svc_id: String,
}

/// What one probe reports to the persister.
#[derive(Debug, Clone)]
pub enum ChanMsg {
    Error(SvcMeta),
    Uptime(SvcMeta),
}

/// Succeeds when a TCP connect to `remote` completes.
#[derive(Debug, Clone, Copy, PartialEq, Eq, Structural)]
pub struct TcpCheck {
    pub remote: SockAddr,
}

/// Succeeds when a UDP socket bound to `socket_addr` can be pointed at `remote`.
#[derive(Debug, Clone, Copy, PartialEq, Eq, Structural)]
pub struct UdpCheck {
    pub remote: SockAddr,
    pub socket_addr: SockAddr,
}

/// Succeeds when a request completes and, if a hash is set, the body's MD5
/// digest in lowercase hex equals it.
#[derive(Debug, Clone)]
pub struct HttpCheck {
    pub remote: SockAddr,
    pub method: reqwest::Method,
    pub ssl: bool,
    pub content_hash: Option<String>,
}

/// Succeeds when the resolver at `name` answers with the expected record.
#[derive(Debug, Clone, Copy, PartialEq, Eq, Structural)]
pub struct DnsCheck {
    pub name: Ipv4Address,
    pub record: DnsRecord,
}

/// A probe, one variant per kind of service.
#[derive(Debug, Clone)]
pub enum Service {
    Tcp(TcpCheck),
    Udp(UdpCheck),
    Http(HttpCheck),
    Dns(DnsCheck),
}

/// A probe bound to the service it checks.
#[derive(Debug, Clone)]
pub struct SharedService {
    pub inner: Service,
    pub meta: SvcMeta,
}

/// Port that an SSH service listens on unless configured.
pub const SSH_PORT: u16 = 22;

/// Port that an HTTP service listens on unless configured.
pub const HTTP_PORT: u16 = 80;

pub open spec fn port_or(p: Option<u16>, dflt: u16) -> u16 {
    match p {
        Some(v) => v,
        None => dflt,
    }
}

/// The address of `port` on machine `vm` of `team`.
pub open spec fn sock_of(team: Team, vm: Vm, port: u16) -> SockAddr {
    SockAddr { ip: team_host(team.subnet, vm.host), port }
}

/// The probe that a service specification gives for one team and machine.
pub open spec fn probe_of(ty: ServiceConfigTy, team: Team, vm: Vm) -> Service {
    match ty {
        ServiceConfigTy::Tcp { port } => Service::Tcp(TcpCheck { remote: sock_of(team, vm, port) }),
        ServiceConfigTy::Ssh { port } => Service::Tcp(
            TcpCheck { remote: sock_of(team, vm, port_or(port, SSH_PORT)) },
        ),
        ServiceConfigTy::Udp { port, bind_port } => Service::Udp(
            UdpCheck {
                remote: sock_of(team, vm, port),
                socket_addr: SockAddr { ip: Ipv4Address(0, 0, 0, 0), port: bind_port },
            },
        ),
        ServiceConfigTy::Http { port, method, content_hash } => Service::Http(
            HttpCheck {
                remote: sock_of(team, vm, port_or(port, HTTP_PORT)),
                method: method.0,
                ssl: false,
                content_hash,
            },
        ),
        ServiceConfigTy::Dns { resolver, record } => Service::Dns(
            DnsCheck { name: resolver, record },
        ),
    }
}

/// The service record for `svc` on machine `vm_id` of team `team_id`.
pub open spec fn record_of(
    svc: ServiceConfig,
    team_id: String,
    team: Team,
    vm_id: String,
    vm: Vm,
) -> SharedService {
    SharedService {
        inner: probe_of(svc.ty, team, vm),
        meta: SvcMeta { team_id, vm_id, svc_id: svc.id },
    }
}

/// The address that a team's machine serves `port` on.
pub fn get_sock_addr(team: &Team, vm: &Vm, port: u16) -> (r: SockAddr)
    ensures
        r == sock_of(*team, *vm, port),
{
    SockAddr {
        ip: Ipv4Address(
            crate::address::NETWORK_PREFIX_A,
            crate::address::NETWORK_PREFIX_B,
            team.subnet,
            vm.host,
        ),
        port,
    }
}

fn clone_hash(h: &Option<String>) -> (r: Option<String>)
    ensures
        r == *h,
{
    match h {
        Some(s) => Some(s.clone()),
        None => None,
    }
}

impl SharedService {
    /// Builds the record that probes `svc` on machine `vm` of `team`.
    pub fn from_config(svc: &ServiceConfig, team: (&String, &Team), vm: (&String, &Vm)) -> (r:
        SharedService)
        ensures
            r == record_of(*svc, *team.0, *team.1, *vm.0, *vm.1),
    {
        let inner = match &svc.ty {
            ServiceConfigTy::Tcp { port } => Service::Tcp(
                TcpCheck { remote: get_sock_addr(team.1, vm.1, *port) },
            ),
            ServiceConfigTy::Ssh { port } => {
                let p = match port {
                    Some(v) => *v,
                    None => SSH_PORT,
                };
                Service::Tcp(TcpCheck { remote: get_sock_addr(team.1, vm.1, p) })
            },
            ServiceConfigTy::Udp { port, bind_port } => Service::Udp(
                UdpCheck {
                    remote: get_sock_addr(team.1, vm.1, *port),
                    socket_addr: SockAddr { ip: Ipv4Address(0, 0, 0, 0), port: *bind_port },
                },
            ),
            ServiceConfigTy::Http { port, method, content_hash } => {
                let p = match port {
                    Some(v) => *v,
                    None => HTTP_PORT,
                };
                Service::Http(
                    HttpCheck {
                        remote: get_sock_addr(team.1, vm.1, p),
                        method: method.0.clone(),
                        ssl: false,
                        content_hash: clone_hash(content_hash),
                    },
                )
            },
            ServiceConfigTy::Dns { resolver, record } => Service::Dns(
                DnsCheck { name: *resolver, record: *record },
            ),
        };
        SharedService {
            inner,
            meta: SvcMeta {
                team_id: team.0.clone(),
                vm_id: vm.0.clone(),
                svc_id: svc.id.clone(),
            },
        }
    }
}

/// How a probe attempt ended.
#[derive(Debug, Clone, Copy, PartialEq, Eq, Structural)]
pub enum ProbeOutcome {
    /// The check succeeded within the deadline.
    Up,
    /// The check failed within the deadline.
    Failed,
    /// The deadline passed first.
    TimedOut,
}

/// The message that a probe of `meta` sends for `outcome`.
pub open spec fn message_for(outcome: ProbeOutcome, meta: SvcMeta) -> ChanMsg {
    match outcome {
        ProbeOutcome::Up => ChanMsg::Uptime(meta),
        _ => ChanMsg::Error(meta),
    }
}

/// Turns the outcome of one probe into its message: uptime on success,
/// an error on failure or timeout.
pub fn poll_message(outcome: ProbeOutcome, meta: SvcMeta) -> (r: ChanMsg)
    ensures
        r == message_for(outcome, meta),
{
    match outcome {
        ProbeOutcome::Up => ChanMsg::Uptime(meta),
        _ => ChanMsg::Error(meta),
    }
}

/// The service a message is about.
pub open spec fn message_meta(m: ChanMsg) -> SvcMeta {
    match m {
        ChanMsg::Error(meta) => meta,
        ChanMsg::Uptime(meta) => meta,
    }
}

/// Probing services `metas` with outcomes `outcomes` yields one message per
/// probe, about that probe's service and in the same order: none is
/// dropped and none is repeated.
pub proof fn lemma_one_message_per_probe(metas: Seq<SvcMeta>, outcomes: Seq<ProbeOutcome>)
    requires
        metas.len() == outcomes.len(),
    ensures
        ({
            let msgs = Seq::new(metas.len(), |i: int| message_for(outcomes[i], metas[i]));
            &&& msgs.len() == metas.len()
            &&& msgs.map_values(|m: ChanMsg| message_meta(m)) =~= metas
        }),
{
}

impl ChanMsg {
    /// The service that the message is about.
    pub fn meta(&self) -> (r: &SvcMeta)
        ensures
            *r == message_meta(*self),
    {
        match self {
            ChanMsg::Error(m) => m,
            ChanMsg::Uptime(m) => m,
        }
    }
}

/// The lowercase hex text of the MD5 digest of `b`.
pub uninterp spec fn md5_hex_of(b: Seq<u8>) -> Seq<char>;

/// Relies on `md5::compute` and the `LowerHex` form of its digest: a
/// function of the bytes alone.
#[verifier::external_body]
fn md5_hex(b: &[u8]) -> (r: String)
    ensures
        r@ == md5_hex_of(b@),
{
    format!("{:x}", md5::compute(b))
}

/// Whether an HTTP probe with `content_hash` passes on a body whose digest is `digest`.
pub open spec fn digest_passes(content_hash: Option<String>, digest: Seq<char>) -> bool {
    match content_hash {
        None => true,
        Some(h) => digest == h@,
    }
}

/// The scheme, address and root path that an HTTP probe requests.
pub open spec fn url_text(ssl: bool, remote: SockAddr) -> Seq<char> {
    (if ssl {
        seq!['h', 't', 't', 'p', 's', ':', '/', '/']
    } else {
        seq!['h', 't', 't', 'p', ':', '/', '/']
    }) + sock_text(remote) + seq!['/']
}

impl HttpCheck {
    /// The URL to request, as in `http://172.30.1.10:80/`.
    pub fn url(&self) -> (r: String)
        ensures
            r@ == url_text(self.ssl, self.remote),
    {
        let mut s = String::new();
        proof {
            reveal_strlit("https://");
            reveal_strlit("http://");
            reveal_strlit("/");
        }
        if self.ssl {
            s.append("https://");
        } else {
            s.append("http://");
        }
        let addr = self.remote.to_text();
        s.append(addr.as_str());
        s.append("/");
        s
    }

    /// Whether a response body with digest text `digest` passes the probe.
    pub fn digest_ok(&self, digest: &String) -> (r: bool)
        ensures
            r == digest_passes(self.content_hash, digest@),
    {
        match &self.content_hash {
            None => true,
            Some(h) => *digest == *h,
        }
    }

    /// Whether a completed response with body `body` passes the probe.
    pub fn body_ok(&self, body: &[u8]) -> (r: bool)
        ensures
            r == digest_passes(self.content_hash, md5_hex_of(body@)),
    {
        match &self.content_hash {
            None => true,
            Some(_) => {
                let digest = md5_hex(body);
                self.digest_ok(&digest)
            },
        }
    }
}

/// The kind of DNS query a probe sends.
#[derive(Debug, Clone, Copy, PartialEq, Eq, Structural)]
pub enum RecordKind {
    A,
    AAAA,
}

/// One answer of a DNS lookup, as far as a probe reads it.
#[derive(Debug, Clone, Copy, PartialEq, Eq, Structural)]
pub enum DnsAnswer {
    A(Ipv4Address),
    AAAA(Ipv6Address),
    Other,
}

/// Whether an answer is exactly the expected record.
pub open spec fn answer_matches(a: DnsAnswer, r: DnsRecord) -> bool {
    match (a, r) {
        (DnsAnswer::A(x), DnsRecord::A { addr }) => x == addr,
        (DnsAnswer::AAAA(x), DnsRecord::AAAA { addr }) => x == addr,
        _ => false,
    }
}

/// Whether some answer is exactly the expected record.
pub open spec fn some_answer_matches(answers: Seq<DnsAnswer>, r: DnsRecord) -> bool {
    exists|i: int| 0 <= i < answers.len() && answer_matches(#[trigger] answers[i], r)
}

impl DnsCheck {
    /// The query type that the expected record calls for.
    pub fn query_kind(&self) -> (r: RecordKind)
        ensures
            r == match self.record {
                DnsRecord::A { .. } => RecordKind::A,
                DnsRecord::AAAA { .. } => RecordKind::AAAA,
            },
    {
        match self.record {
            DnsRecord::A { .. } => RecordKind::A,
            DnsRecord::AAAA { .. } => RecordKind::AAAA,
        }
    }

    /// Whether a lookup with these answers passes: some answer must be the
    /// expected record.
    pub fn answers_ok(&self, answers: &Vec<DnsAnswer>) -> (r: bool)
        ensures
            r == some_answer_matches(answers@, self.record),
    {
        let mut i: usize = 0;
        while i < answers.len()
            invariant
                0 <= i <= answers@.len(),
                forall|k: int| 0 <= k < i ==> !answer_matches(#[trigger] answers@[k], self.record),
            decreases answers@.len() - i,
        {
            let hit = match (answers[i], self.record) {
                (DnsAnswer::A(x), DnsRecord::A { addr }) => x == addr,
                (DnsAnswer::AAAA(x), DnsRecord::AAAA { addr }) => x == addr,
                _ => false,
            };
            if hit {
                assert(answer_matches(answers@[i as int], self.record));
                return true;
            }
            i += 1;
        }
        false
    }
}

} // verus!
