use lmc::tls::{
    added_result, chain_result, check_alpn, connection_result, create_connection, find_private_key,
    names_fit, private_key_result, resolver_result, try_create_connection, ClientCertResolver,
    CryptoBytes, CryptoError, PemItem, MAX_ALPN_SIZE,
};
use lmc::{ConnectError, Options};

/// A self-signed certificate.
const CERT: [u8; 378] = [
    0x30, 0x82, 0x01, 0x76, 0x30, 0x82, 0x01, 0x1b, 0xa0, 0x03, 0x02, 0x01, 0x02, 0x02, 0x14, 0x41,
    0xa8, 0x63, 0xff, 0x51, 0x9a, 0xee, 0x56, 0x17, 0x73, 0xc3, 0x5c, 0xdf, 0xfb, 0x4e, 0x26, 0x1a,
    0xe1, 0x5a, 0x09, 0x30, 0x0a, 0x06, 0x08, 0x2a, 0x86, 0x48, 0xce, 0x3d, 0x04, 0x03, 0x02, 0x30,
    0x0f, 0x31, 0x0d, 0x30, 0x0b, 0x06, 0x03, 0x55, 0x04, 0x03, 0x0c, 0x04, 0x74, 0x65, 0x73, 0x74,
    0x30, 0x20, 0x17, 0x0d, 0x32, 0x36, 0x31, 0x31, 0x31, 0x36, 0x31, 0x35, 0x32, 0x34, 0x32, 0x30,
    0x5a, 0x18, 0x0f, 0x32, 0x31, 0x32, 0x36, 0x31, 0x30, 0x32, 0x33, 0x31, 0x35, 0x32, 0x34, 0x32,
    0x30, 0x5a, 0x30, 0x0f, 0x31, 0x0d, 0x30, 0x0b, 0x06, 0x03, 0x55, 0x04, 0x03, 0x0c, 0x04, 0x74,
    0x65, 0x73, 0x74, 0x30, 0x59, 0x30, 0x13, 0x06, 0x07, 0x2a, 0x86, 0x48, 0xce, 0x3d, 0x02, 0x01,
    0x06, 0x08, 0x2a, 0x86, 0x48, 0xce, 0x3d, 0x03, 0x01, 0x07, 0x03, 0x42, 0x00, 0x04, 0xbf, 0x0a,
    0x0d, 0xce, 0x7d, 0x5e, 0x67, 0xd6, 0xe6, 0x65, 0x55, 0x04, 0x0d, 0x5a, 0x7c, 0x2c, 0x7c, 0xe1,
    0xe9, 0xcc, 0x54, 0x44, 0xa9, 0x86, 0xfd, 0x56, 0x0c, 0x23, 0x31, 0x26, 0xdf, 0x12, 0x09, 0xa6,
    0x83, 0x7c, 0x58, 0xba, 0x30, 0xba, 0x26, 0x04, 0xb3, 0x5e, 0xe9, 0x58, 0x05, 0x0e, 0xc3, 0x54,
    0x47, 0xaf, 0x94, 0xa4, 0x2e, 0xb6, 0x4a, 0x24, 0x43, 0xee, 0x5a, 0xd9, 0x6b, 0x63, 0xa3, 0x53,
    0x30, 0x51, 0x30, 0x1d, 0x06, 0x03, 0x55, 0x1d, 0x0e, 0x04, 0x16, 0x04, 0x14, 0x3d, 0x9b, 0x24,
    0x17, 0x25, 0xc4, 0x2c, 0x75, 0x4a, 0x61, 0xe5, 0x59, 0x71, 0xb3, 0x57, 0x1e, 0x54, 0x3c, 0xc2,
    0x37, 0x30, 0x1f, 0x06, 0x03, 0x55, 0x1d, 0x23, 0x04, 0x18, 0x30, 0x16, 0x80, 0x14, 0x3d, 0x9b,
    0x24, 0x17, 0x25, 0xc4, 0x2c, 0x75, 0x4a, 0x61, 0xe5, 0x59, 0x71, 0xb3, 0x57, 0x1e, 0x54, 0x3c,
    0xc2, 0x37, 0x30, 0x0f, 0x06, 0x03, 0x55, 0x1d, 0x13, 0x01, 0x01, 0xff, 0x04, 0x05, 0x30, 0x03,
    0x01, 0x01, 0xff, 0x30, 0x0a, 0x06, 0x08, 0x2a, 0x86, 0x48, 0xce, 0x3d, 0x04, 0x03, 0x02, 0x03,
    0x49, 0x00, 0x30, 0x46, 0x02, 0x21, 0x00, 0xff, 0x6c, 0xd6, 0x2b, 0x0d, 0xdb, 0x89, 0x82, 0x79,
    0x38, 0xdd, 0xff, 0xe1, 0x64, 0x54, 0x45, 0x97, 0xdd, 0xf8, 0x59, 0xd4, 0xb1, 0x62, 0xda, 0x46,
    0x4d, 0xb0, 0x1c, 0xfd, 0xa3, 0x23, 0xf6, 0x02, 0x21, 0x00, 0x91, 0x1b, 0xa9, 0x52, 0x91, 0x95,
    0x44, 0x87, 0x50, 0x6d, 0x87, 0x92, 0x94, 0xd6, 0x35, 0x0f, 0x22, 0x4f, 0x74, 0x3e, 0x0c, 0x03,
    0xa5, 0x24, 0x23, 0x2d, 0xfd, 0x83, 0xf2, 0x52, 0x3b, 0xc1,
];

/// The key of that certificate, in the PKCS8 format.
const PKCS8: [u8; 138] = [
    0x30, 0x81, 0x87, 0x02, 0x01, 0x00, 0x30, 0x13, 0x06, 0x07, 0x2a, 0x86, 0x48, 0xce, 0x3d, 0x02,
    0x01, 0x06, 0x08, 0x2a, 0x86, 0x48, 0xce, 0x3d, 0x03, 0x01, 0x07, 0x04, 0x6d, 0x30, 0x6b, 0x02,
    0x01, 0x01, 0x04, 0x20, 0xdd, 0xa3, 0x3b, 0xdb, 0x61, 0x0f, 0xba, 0x81, 0x79, 0xe4, 0x5b, 0xba,
    0xdc, 0x6f, 0x43, 0x20, 0xe2, 0x3c, 0x7a, 0x3c, 0xca, 0xeb, 0x05, 0x77, 0x97, 0xe2, 0xb8, 0x18,
    0x51, 0xd8, 0x89, 0x13, 0xa1, 0x44, 0x03, 0x42, 0x00, 0x04, 0xbf, 0x0a, 0x0d, 0xce, 0x7d, 0x5e,
    0x67, 0xd6, 0xe6, 0x65, 0x55, 0x04, 0x0d, 0x5a, 0x7c, 0x2c, 0x7c, 0xe1, 0xe9, 0xcc, 0x54, 0x44,
    0xa9, 0x86, 0xfd, 0x56, 0x0c, 0x23, 0x31, 0x26, 0xdf, 0x12, 0x09, 0xa6, 0x83, 0x7c, 0x58, 0xba,
    0x30, 0xba, 0x26, 0x04, 0xb3, 0x5e, 0xe9, 0x58, 0x05, 0x0e, 0xc3, 0x54, 0x47, 0xaf, 0x94, 0xa4,
    0x2e, 0xb6, 0x4a, 0x24, 0x43, 0xee, 0x5a, 0xd9, 0x6b, 0x63,
];

/// The same key, in the SEC1 format.
const SEC1: [u8; 121] = [
    0x30, 0x77, 0x02, 0x01, 0x01, 0x04, 0x20, 0xdd, 0xa3, 0x3b, 0xdb, 0x61, 0x0f, 0xba, 0x81, 0x79,
    0xe4, 0x5b, 0xba, 0xdc, 0x6f, 0x43, 0x20, 0xe2, 0x3c, 0x7a, 0x3c, 0xca, 0xeb, 0x05, 0x77, 0x97,
    0xe2, 0xb8, 0x18, 0x51, 0xd8, 0x89, 0x13, 0xa0, 0x0a, 0x06, 0x08, 0x2a, 0x86, 0x48, 0xce, 0x3d,
    0x03, 0x01, 0x07, 0xa1, 0x44, 0x03, 0x42, 0x00, 0x04, 0xbf, 0x0a, 0x0d, 0xce, 0x7d, 0x5e, 0x67,
    0xd6, 0xe6, 0x65, 0x55, 0x04, 0x0d, 0x5a, 0x7c, 0x2c, 0x7c, 0xe1, 0xe9, 0xcc, 0x54, 0x44, 0xa9,
    0x86, 0xfd, 0x56, 0x0c, 0x23, 0x31, 0x26, 0xdf, 0x12, 0x09, 0xa6, 0x83, 0x7c, 0x58, 0xba, 0x30,
    0xba, 0x26, 0x04, 0xb3, 0x5e, 0xe9, 0x58, 0x05, 0x0e, 0xc3, 0x54, 0x47, 0xaf, 0x94, 0xa4, 0x2e,
    0xb6, 0x4a, 0x24, 0x43, 0xee, 0x5a, 0xd9, 0x6b, 0x63,
];

/// Writes bytes as a section of a PEM file.
fn pem(label: &str, bytes: &[u8]) -> Vec<u8> {
    let alphabet = b"ABCDEFGHIJKLMNOPQRSTUVWXYZabcdefghijklmnopqrstuvwxyz0123456789+/";
    let mut text = format!("-----BEGIN {}-----\n", label).into_bytes();
    for (i, group) in bytes.chunks(3).enumerate() {
        let n = (group[0] as usize) << 16
            | (*group.get(1).unwrap_or(&0) as usize) << 8
            | *group.get(2).unwrap_or(&0) as usize;
        for k in 0..4 {
            text.push(if k <= group.len() { alphabet[(n >> (18 - 6 * k)) & 63] } else { b'=' });
        }
        if i % 16 == 15 {
            text.push(b'\n');
        }
    }
    text.extend_from_slice(format!("\n-----END {}-----\n", label).as_bytes());
    text
}

fn key_label(kind: &str) -> String {
    format!("{}{} KEY", kind, "PRIVATE")
}

#[test]
fn client_auth_from_der() {
    let r = ClientCertResolver::from_bytes(CryptoBytes::Der(&CERT), CryptoBytes::Der(&PKCS8)).unwrap();
    assert_eq!(r.0.cert.len(), 1);
    assert_eq!(r.0.cert[0].0, CERT.to_vec());
}

#[test]
fn client_auth_from_pem() {
    let mut certs = pem("CERTIFICATE", &CERT);
    certs.extend(pem("CERTIFICATE", &[1, 2, 3]));
    let mut keys = pem("CERTIFICATE", &CERT);
    keys.extend(pem(&key_label(""), &PKCS8));
    let r = ClientCertResolver::from_bytes(CryptoBytes::Pem(&certs), CryptoBytes::Pem(&keys)).unwrap();
    assert_eq!(r.0.cert.len(), 2);
    assert_eq!(r.0.cert[0].0, CERT.to_vec());
    assert_eq!(r.0.cert[1].0, vec![1, 2, 3]);

    let keys = pem(&key_label("EC "), &SEC1);
    let r = ClientCertResolver::from_bytes(CryptoBytes::Pem(&certs), CryptoBytes::Pem(&keys)).unwrap();
    assert_eq!(r.0.cert.len(), 2);
}

#[test]
fn client_auth_errors() {
    let cert = pem("CERTIFICATE", &CERT);
    let key = pem(&key_label(""), &PKCS8);
    let broken = b"-----BEGIN CERTIFICATE-----\nAAAA\n";

    let r = ClientCertResolver::from_bytes(CryptoBytes::Pem(broken), CryptoBytes::Pem(&key));
    assert!(matches!(r, Err(CryptoError::IoError(_))));
    let r = ClientCertResolver::from_bytes(CryptoBytes::Pem(&cert), CryptoBytes::Pem(broken));
    assert!(matches!(r, Err(CryptoError::IoError(_))));
    let r = ClientCertResolver::from_bytes(CryptoBytes::Pem(&cert), CryptoBytes::Pem(&cert));
    assert!(matches!(r, Err(CryptoError::NoValidItemsInPem)));
    let r = ClientCertResolver::from_bytes(CryptoBytes::Pem(&key), CryptoBytes::Pem(&key));
    assert!(matches!(r, Err(CryptoError::NoValidItemsInPem)));
    let r = ClientCertResolver::from_bytes(CryptoBytes::Pem(b""), CryptoBytes::Der(&PKCS8));
    assert!(matches!(r, Err(CryptoError::NoValidItemsInPem)));
    let r = ClientCertResolver::from_bytes(CryptoBytes::Pem(&cert), CryptoBytes::Der(&[1, 2, 3]));
    assert!(matches!(r, Err(CryptoError::InvalidPrivateKey)));
    let r = ClientCertResolver::from_bytes(CryptoBytes::Der(&CERT), CryptoBytes::Der(&CERT));
    assert!(matches!(r, Err(CryptoError::InvalidPrivateKey)));
}

#[test]
fn first_private_key_is_used() {
    let items = vec![
        PemItem::Certificate(vec![1]),
        PemItem::Other,
        PemItem::EcKey(vec![2]),
        PemItem::RsaKey(vec![3]),
    ];
    assert_eq!(find_private_key(&items), Some(vec![2]));
    assert_eq!(find_private_key(&vec![PemItem::Pkcs8Key(vec![4])]), Some(vec![4]));
    assert_eq!(find_private_key(&vec![PemItem::RsaKey(vec![5])]), Some(vec![5]));
    assert_eq!(find_private_key(&vec![PemItem::Certificate(vec![1])]), None);
}

#[test]
fn results_of_reading() {
    assert_eq!(private_key_result(Ok(vec![PemItem::RsaKey(vec![5])])).unwrap(), vec![5]);
    let none = private_key_result(Ok(vec![PemItem::Other]));
    assert!(matches!(none, Err(CryptoError::NoValidItemsInPem)));
    let err = std::io::Error::from(std::io::ErrorKind::InvalidData);
    match private_key_result(Err(err)) {
        Err(CryptoError::IoError(e)) => assert_eq!(e.kind(), std::io::ErrorKind::InvalidData),
        _ => panic!(),
    }
    assert_eq!(chain_result(Ok(vec![vec![1], vec![2]])).unwrap(), vec![vec![1], vec![2]]);
    assert!(matches!(chain_result(Ok(vec![])), Err(CryptoError::NoValidItemsInPem)));
    let err = std::io::Error::from(std::io::ErrorKind::InvalidData);
    assert!(matches!(chain_result(Err(err)), Err(CryptoError::IoError(_))));
    assert!(added_result(1).is_ok());
    assert!(matches!(added_result(0), Err(CryptoError::NoValidItemsInPem)));
}

#[test]
fn custom_ca_from_der() {
    let opts = Options::new("x").enable_tls_custom_ca_cert(CryptoBytes::Der(&CERT)).unwrap();
    assert_eq!(opts.default_port(), 8883);
    assert_eq!(opts.client_id, "x");
    let r = Options::new("x").enable_tls_custom_ca_cert(CryptoBytes::Der(&CERT[1..]));
    assert!(matches!(r, Err(CryptoError::BadCert(webpki::Error::BadDer))));
}

#[test]
fn custom_ca_from_pem() {
    let mut certs = pem("CERTIFICATE", &[9, 9]);
    certs.extend(pem("CERTIFICATE", &CERT));
    let mut opts = Options::new("x");
    opts.set_default_port(99);
    let opts = opts.enable_tls_custom_ca_cert(CryptoBytes::Pem(&certs)).unwrap();
    assert_eq!(opts.default_port(), 99);

    let key = pem(&key_label(""), &PKCS8);
    let r = Options::new("x").enable_tls_custom_ca_cert(CryptoBytes::Pem(&key));
    assert!(matches!(r, Err(CryptoError::NoValidItemsInPem)));
    let r = Options::new("x").enable_tls_custom_ca_cert(CryptoBytes::Pem(&pem("CERTIFICATE", &[9, 9])));
    assert!(matches!(r, Err(CryptoError::NoValidItemsInPem)));
    let r = Options::new("x").enable_tls_custom_ca_cert(CryptoBytes::Pem(b"-----BEGIN CERTIFICATE-----\n"));
    assert!(matches!(r, Err(CryptoError::IoError(_))));
}

#[test]
fn system_certificates() {
    let opts = Options::new("x").enable_tls(&vec![CERT.to_vec(), vec![0]]);
    assert_eq!(opts.default_port(), 8883);
    assert!(!opts.default_port_changed);
    let conn = create_connection(opts.connection_cfg, "example.com").unwrap();
    assert!(conn.wants_write());
}

#[test]
fn connections_need_a_host_name() {
    let opts = Options::new("x").enable_tls(&vec![]);
    let r = create_connection(opts.connection_cfg, "not a host");
    assert!(matches!(r, Err(ConnectError::InvalidHostname)));
}

#[test]
fn connection_results() {
    assert_eq!(connection_result(Some(Ok(3))).unwrap(), 3);
    assert!(matches!(connection_result::<()>(None), Err(ConnectError::InvalidHostname)));
    let r = connection_result::<()>(Some(Err(rustls::Error::NoCertificatesPresented)));
    assert!(matches!(r, Err(ConnectError::TlsError(rustls::Error::NoCertificatesPresented))));
}

#[test]
fn any_configuration_changes_the_port() {
    let opts = Options::new("x").enable_tls_ex("config");
    assert_eq!(opts.connection_cfg, "config");
    assert_eq!(opts.default_port(), 8883);
    let (rest, cfg) = opts.separate_connection_cfg();
    assert_eq!(cfg, "config");
    assert_eq!(rest.connection_cfg, ());
    assert_eq!(rest.default_port, 8883);
}

#[test]
fn signing_key_results() {
    let key = ClientCertResolver::from_bytes(CryptoBytes::Der(&CERT), CryptoBytes::Der(&PKCS8)).unwrap().0;
    let r = resolver_result(Ok(key.clone())).unwrap();
    assert!(std::sync::Arc::ptr_eq(&r.0, &key));
    let refused = rustls::sign::any_supported_type(&rustls::PrivateKey(vec![1])).map(|_| key);
    assert!(matches!(resolver_result(refused), Err(CryptoError::InvalidPrivateKey)));
}

#[test]
fn application_protocols_must_fit() {
    assert!(names_fit(&vec![]));
    assert!(names_fit(&vec![vec![0; MAX_ALPN_SIZE - 1]]));
    assert!(!names_fit(&vec![vec![0; MAX_ALPN_SIZE]]));
    assert!(names_fit(&vec![vec![]; MAX_ALPN_SIZE]));
    assert!(!names_fit(&vec![vec![]; MAX_ALPN_SIZE + 1]));

    let mut cfg = Options::new("x").enable_tls(&vec![CERT.to_vec()]).connection_cfg;
    assert!(check_alpn(&cfg));
    cfg.alpn_protocols = vec![b"mqtt".to_vec()];
    assert!(check_alpn(&cfg));
    assert!(matches!(try_create_connection(cfg.clone(), "example.com"), Some(Ok(_))));
    assert!(matches!(
        try_create_connection(cfg.clone(), "not a host"),
        Some(Err(ConnectError::InvalidHostname))
    ));
    cfg.alpn_protocols = vec![vec![b'x'; 255]; 247];
    assert!(check_alpn(&cfg) && try_create_connection(cfg.clone(), "example.com").unwrap().is_ok());
    cfg.alpn_protocols = vec![vec![b'x'; 255]; 248];
    assert!(!check_alpn(&cfg));
    assert!(try_create_connection(cfg, "example.com").is_none());
}
