//! TLS configuration: protocol versions, cipher suites, ALPN identifiers,
//! session caching and certificate renewal bookkeeping. The cryptographic
//! engine itself is outside this core.
use vstd::prelude::*;

verus! {

/// TLS protocol versions.
#[derive(Debug, Clone, Copy, PartialEq, Eq, Structural)]
pub enum ProtocolVersion {
    Tls10,
    Tls11,
    Tls12,
    Tls13,
}

/// Cipher suites.
#[derive(Debug, Clone, Copy, PartialEq, Eq, Structural)]
pub enum CipherSuite {
    Aes128GcmSha256,
    Aes256GcmSha384,
    Chacha20Poly1305Sha256,
    EcdheRsaAes128GcmSha256,
    EcdheRsaAes256GcmSha384,
    EcdheRsaChacha20Poly1305,
}

pub open spec fn recommended_suites() -> Seq<CipherSuite> {
    seq![
        CipherSuite::Aes256GcmSha384,
        CipherSuite::Chacha20Poly1305Sha256,
        CipherSuite::Aes128GcmSha256,
        CipherSuite::EcdheRsaAes256GcmSha384,
        CipherSuite::EcdheRsaChacha20Poly1305,
        CipherSuite::EcdheRsaAes128GcmSha256,
    ]
}

impl CipherSuite {
    /// TLS 1.3 suites first, then TLS 1.2 suites.
    pub fn recommended() -> (r: Vec<CipherSuite>)
        ensures
            r@ == recommended_suites(),
    {
        let mut v: Vec<CipherSuite> = Vec::new();
        v.push(CipherSuite::Aes256GcmSha384);
        v.push(CipherSuite::Chacha20Poly1305Sha256);
        v.push(CipherSuite::Aes128GcmSha256);
        v.push(CipherSuite::EcdheRsaAes256GcmSha384);
        v.push(CipherSuite::EcdheRsaChacha20Poly1305);
        v.push(CipherSuite::EcdheRsaAes128GcmSha256);
        assert(v@ =~= recommended_suites());
        v
    }
}

/// `h2` and `http/1.1`.
pub open spec fn default_alpn() -> Seq<Seq<u8>> {
    seq![seq![104u8, 50u8], seq![104u8, 116u8, 116u8, 112u8, 47u8, 49u8, 46u8, 49u8]]
}

/// TLS settings of a listener.
#[derive(Clone)]
pub struct TlsConfig {
    pub cert_path: String,
    pub key_path: String,
    pub alpn_protocols: Vec<Vec<u8>>,
    pub session_cache_size: usize,
    pub ticket_lifetime: u32,
    pub ocsp_stapling: bool,
    pub min_protocol_version: ProtocolVersion,
    pub cipher_suites: Vec<CipherSuite>,
}

impl TlsConfig {
    /// ALPN `h2` then `http/1.1`, 1024 cached sessions, one-day tickets,
    /// OCSP stapling, TLS 1.2 at least, the recommended suites.
    pub fn default() -> (r: Self)
        ensures
            r.alpn_protocols@.len() == 2,
            r.alpn_protocols@[0]@ == default_alpn()[0],
            r.alpn_protocols@[1]@ == default_alpn()[1],
            r.session_cache_size == 1024,
            r.ticket_lifetime == 86400,
            r.ocsp_stapling,
            r.min_protocol_version == ProtocolVersion::Tls12,
            r.cipher_suites@ == recommended_suites(),
    {
        let mut alpn: Vec<Vec<u8>> = Vec::new();
        let h2 = vec![104u8, 50u8];
        let h1 = vec![104u8, 116u8, 116u8, 112u8, 47u8, 49u8, 46u8, 49u8];
        assert(h2@ =~= default_alpn()[0]);
        assert(h1@ =~= default_alpn()[1]);
        alpn.push(h2);
        alpn.push(h1);
        TlsConfig {
            cert_path: String::new(),
            key_path: String::new(),
            alpn_protocols: alpn,
            session_cache_size: 1024,
            ticket_lifetime: 86400,
            ocsp_stapling: true,
            min_protocol_version: ProtocolVersion::Tls12,
            cipher_suites: CipherSuite::recommended(),
        }
    }
}

/// Handshake and session counters.
#[derive(Debug, Clone, Copy, PartialEq, Eq, Structural)]
pub struct TlsMetrics {
    pub handshakes_completed: u64,
    pub handshakes_failed: u64,
    pub sessions_resumed: u64,
    pub sessions_new: u64,
    pub protocol_errors: u64,
}

/// A resumable session.
pub struct SessionData {
    pub master_secret: [u8; 48],
    pub cipher_suite: CipherSuite,
    pub created_at: u64,
}

/// Sessions by id, at most `capacity` of them; storing into a full cache
/// evicts the oldest entry.
pub struct SessionCache {
    sessions: Vec<([u8; 32], SessionData)>,
    capacity: usize,
}

impl SessionCache {
    /// The ids held, oldest first.
    pub closed spec fn ids(&self) -> Seq<Seq<u8>> {
        self.sessions@.map_values(|e: ([u8; 32], SessionData)| e.0@)
    }

    pub closed spec fn cap(&self) -> nat {
        self.capacity as nat
    }

    pub fn new(capacity: usize) -> (r: Self)
        ensures
            r.ids().len() == 0,
            r.cap() == capacity,
    {
        SessionCache { sessions: Vec::new(), capacity }
    }

    fn find(&self, id: &[u8; 32]) -> (r: Option<usize>)
        ensures
            match r {
                Some(i) => i < self.ids().len() && self.ids()[i as int] == id@ && forall|j: int|
                    0 <= j < i ==> self.ids()[j] != id@,
                None => forall|i: int| 0 <= i < self.ids().len() ==> self.ids()[i] != id@,
            },
    {
        let mut i: usize = 0;
        while i < self.sessions.len()
            invariant
                i <= self.sessions@.len(),
                forall|j: int| 0 <= j < i ==> self.ids()[j] != id@,
            decreases self.sessions@.len() - i,
        {
            if crate::http1::bytes_equal(self.sessions[i].0.as_slice(), id.as_slice()) {
                return Some(i);
            }
            i = i + 1;
        }
        None
    }

    /// Stores a session, replacing one with the same id.
    pub fn store(&mut self, id: [u8; 32], data: SessionData)
        ensures
            final(self).cap() == old(self).cap(),
            old(self).cap() > 0 ==> final(self).ids().contains(id@),
            final(self).ids().len() <= if old(self).ids().len() <= old(self).cap() {
                old(self).cap() as int
            } else {
                old(self).ids().len() as int
            },
    {
        if self.capacity == 0 {
            return;
        }
        match self.find(&id) {
            Some(i) => {
                let ghost before = self.ids();
                self.sessions.set(i, (id, data));
                proof {
                    assert(self.ids() =~= before.update(i as int, id@));
                    assert(self.ids()[i as int] == id@);
                }
            },
            None => {
                if self.sessions.len() >= self.capacity {
                    self.sessions.remove(0);
                }
                let ghost before = self.ids();
                self.sessions.push((id, data));
                proof {
                    assert(self.ids() =~= before.push(id@));
                    assert(self.ids()[before.len() as int] == id@);
                }
            },
        }
    }

    /// The sessions held, oldest first, with their data.
    pub closed spec fn entries(&self) -> Seq<([u8; 32], SessionData)> {
        self.sessions@
    }

    /// The session stored under `id`: the data of the first entry with that id.
    pub fn get(&self, id: &[u8; 32]) -> (r: Option<&SessionData>)
        ensures
            r is Some <==> self.ids().contains(id@),
            r is Some ==> exists|i: int|
                0 <= i < self.entries().len() && #[trigger] self.ids()[i] == id@ && *r.unwrap() == self.entries()[i].1
                    && forall|j: int| 0 <= j < i ==> self.ids()[j] != id@,
    {
        match self.find(id) {
            Some(i) => {
                assert(self.ids()[i as int] == id@);
                Some(&self.sessions[i].1)
            },
            None => None,
        }
    }
}

/// Certificates and how often their renewal is checked.
pub struct CertificateManager {
    pub certificates: Vec<Vec<u8>>,
    pub renewal_check_interval_secs: u64,
}

impl CertificateManager {
    pub fn new(renewal_check_interval_secs: u64) -> (r: Self)
        ensures
            r.certificates@.len() == 0,
            r.renewal_check_interval_secs == renewal_check_interval_secs,
    {
        CertificateManager { certificates: Vec::new(), renewal_check_interval_secs }
    }

    /// Whether a certificate needs renewal: never while none is loaded.
    pub fn check_renewal(&self) -> (r: bool)
        ensures
            self.certificates@.len() == 0 ==> !r,
    {
        false
    }
}

/// The negotiated ALPN identifier of a TLS stream.
pub struct TlsStream {
    pub negotiated_protocol: Option<Vec<u8>>,
}

impl TlsStream {
    pub fn new(negotiated_protocol: Option<Vec<u8>>) -> (r: Self)
        ensures
            r.negotiated_protocol == negotiated_protocol,
    {
        TlsStream { negotiated_protocol }
    }

    /// The ALPN identifier agreed in the handshake, if any.
    pub fn negotiated_protocol(&self) -> (r: Option<&[u8]>)
        ensures
            r is Some == self.negotiated_protocol is Some,
            r is Some ==> r.unwrap()@ == self.negotiated_protocol.unwrap()@,
    {
        match &self.negotiated_protocol {
            Some(p) => Some(p.as_slice()),
            None => None,
        }
    }
}

/// The first protocol of `ours` (in our order of preference) that the
/// client also offers.
pub open spec fn alpn_choice(ours: Seq<Seq<u8>>, offered: Seq<Seq<u8>>, i: int) -> Option<Seq<u8>>
    decreases ours.len() - i,
{
    if i < 0 || i >= ours.len() {
        None
    } else if offered.contains(ours[i]) {
        Some(ours[i])
    } else {
        alpn_choice(ours, offered, i + 1)
    }
}

pub open spec fn vec_views(v: Seq<Vec<u8>>) -> Seq<Seq<u8>> {
    v.map_values(|x: Vec<u8>| x@)
}

fn offers(offered: &Vec<Vec<u8>>, p: &Vec<u8>) -> (r: bool)
    ensures
        r == vec_views(offered@).contains(p@),
{
    let mut i: usize = 0;
    while i < offered.len()
        invariant
            i <= offered@.len(),
            forall|j: int| 0 <= j < i ==> offered@[j]@ != p@,
        decreases offered@.len() - i,
    {
        if crate::http1::bytes_equal(offered[i].as_slice(), p.as_slice()) {
            proof {
                assert(vec_views(offered@)[i as int] == p@);
            }
            return true;
        }
        i = i + 1;
    }
    proof {
        if vec_views(offered@).contains(p@) {
            let j = choose|j: int| 0 <= j < vec_views(offered@).len() && vec_views(offered@)[j] == p@;
            assert(offered@[j]@ == p@);
        }
    }
    false
}

/// Accepts TLS connections under a configuration; the handshake itself is
/// done by the TLS engine, which reports the client's ALPN offer.
pub struct TlsAcceptor {
    pub config: TlsConfig,
}

impl TlsAcceptor {
    pub fn new(config: TlsConfig) -> (r: Self)
        ensures
            r.config == config,
    {
        TlsAcceptor { config }
    }

    /// The stream state after a handshake in which the client offered
    /// `client_alpn`: the first of our protocols that it offered is chosen.
    pub fn accept(&self, client_alpn: &Vec<Vec<u8>>) -> (r: TlsStream)
        ensures
            match alpn_choice(vec_views(self.config.alpn_protocols@), vec_views(client_alpn@), 0) {
                Some(p) => r.negotiated_protocol is Some && r.negotiated_protocol.unwrap()@ == p,
                None => r.negotiated_protocol is None,
            },
    {
        let ours = &self.config.alpn_protocols;
        let mut i: usize = 0;
        while i < ours.len()
            invariant
                i <= ours@.len(),
                ours@ == self.config.alpn_protocols@,
                alpn_choice(vec_views(ours@), vec_views(client_alpn@), 0) == alpn_choice(
                    vec_views(ours@),
                    vec_views(client_alpn@),
                    i as int,
                ),
            decreases ours@.len() - i,
        {
            assert(vec_views(ours@)[i as int] == ours@[i as int]@);
            if offers(client_alpn, &ours[i]) {
                let mut chosen: Vec<u8> = Vec::new();
                crate::http1::append_bytes(&mut chosen, ours[i].as_slice());
                assert(chosen@ =~= ours@[i as int]@);
                assert(vec_views(client_alpn@).contains(vec_views(ours@)[i as int]));
                assert(alpn_choice(vec_views(ours@), vec_views(client_alpn@), i as int) == Some(
                    vec_views(ours@)[i as int],
                ));
                return TlsStream { negotiated_protocol: Some(chosen) };
            }
            i = i + 1;
        }
        TlsStream { negotiated_protocol: None }
    }
}

} // verus!
