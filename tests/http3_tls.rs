use angelax::http3::{Http3Config, Http3Parser, Qpack};
use angelax::tls::{CertificateManager, CipherSuite, ProtocolVersion, SessionCache, SessionData, TlsConfig};

#[test]
fn test_http3_config_default() {
    let config = Http3Config::default();
    assert_eq!(config.max_bi_streams, 100);
    assert_eq!(config.idle_timeout, 30_000);
}

#[test]
fn test_qpack_creation() {
    let qpack = Qpack::new(4096);
    assert_eq!(qpack.encoder_stream_id, 0);
    assert_eq!(qpack.decoder_stream_id, 2);
    assert_eq!(qpack.max_table_capacity, 4096);
}

#[test]
fn test_http3_parser_error() {
    let mut parser = Http3Parser::new(Http3Config::default());
    let result = parser.parse_frame(&[]);
    assert!(result.is_err());
}

#[test]
fn test_tls_config_default() {
    let config = TlsConfig::default();
    assert_eq!(config.alpn_protocols.len(), 2);
    assert_eq!(config.alpn_protocols[0], b"h2");
    assert_eq!(config.alpn_protocols[1], b"http/1.1");
    assert_eq!(config.min_protocol_version, ProtocolVersion::Tls12);
}

#[test]
fn test_cipher_suite_recommendations() {
    let suites = CipherSuite::recommended();
    assert!(!suites.is_empty());
    assert!(suites.contains(&CipherSuite::Aes256GcmSha384));
    assert!(suites.contains(&CipherSuite::Chacha20Poly1305Sha256));
}

#[test]
fn test_session_cache() {
    let mut cache = SessionCache::new(10);
    let id = [1u8; 32];
    let data = SessionData { master_secret: [0u8; 48], cipher_suite: CipherSuite::Aes256GcmSha384, created_at: 0 };
    cache.store(id, data);
    assert!(cache.get(&id).is_some());
}

#[test]
fn session_cache_evicts_oldest() {
    let mut cache = SessionCache::new(1);
    let mk = || SessionData { master_secret: [0u8; 48], cipher_suite: CipherSuite::Aes128GcmSha256, created_at: 0 };
    cache.store([1u8; 32], mk());
    cache.store([2u8; 32], mk());
    assert!(cache.get(&[1u8; 32]).is_none());
    assert!(cache.get(&[2u8; 32]).is_some());
}

#[test]
fn test_certificate_manager() {
    let manager = CertificateManager::new(3600);
    assert!(!manager.check_renewal());
}

#[test]
fn alpn_prefers_server_order() {
    let acceptor = angelax::tls::TlsAcceptor::new(TlsConfig::default());
    let offer = vec![b"http/1.1".to_vec(), b"h2".to_vec()];
    let stream = acceptor.accept(&offer);
    assert_eq!(stream.negotiated_protocol(), Some(&b"h2"[..]));
    let stream = acceptor.accept(&vec![b"spdy/3".to_vec()]);
    assert_eq!(stream.negotiated_protocol(), None);
    let stream = acceptor.accept(&vec![b"http/1.1".to_vec()]);
    assert_eq!(stream.negotiated_protocol(), Some(&b"http/1.1"[..]));
}
