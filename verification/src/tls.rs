//! Certificates, private keys and TLS configurations.

use std::io;
use std::sync::Arc;

use rustls::sign::{CertifiedKey, SignError};
use rustls::{Certificate, ClientConfig, ClientConnection, OwnedTrustAnchor, PrivateKey};
use rustls::{RootCertStore, ServerName};
use vstd::prelude::*;

use crate::errors::ConnectError;
use crate::options::OptionsT;
use crate::transceiver::packets::slice_to_vec;

verus! {

/// The error of a certificate check. Its contents stay opaque.
#[verifier::external_type_specification]
#[verifier::external_body]
pub struct ExBadCertError(webpki::Error);

/// The error of a private key that cannot be used. Its contents stay opaque.
#[verifier::external_type_specification]
#[verifier::external_body]
pub struct ExSignError(SignError);

/// A certificate chain with its private key. Its contents stay opaque.
#[verifier::external_type_specification]
#[verifier::external_body]
pub struct ExCertifiedKey(CertifiedKey);

/// A root of trust. Its contents stay opaque.
#[verifier::external_type_specification]
#[verifier::external_body]
pub struct ExOwnedTrustAnchor(OwnedTrustAnchor);

/// A list of roots of trust. What it holds is [`roots`].
#[verifier::external_type_specification]
#[verifier::external_body]
pub struct ExRootCertStore(RootCertStore);

/// A TLS configuration. The roots that it trusts are [`trusted_roots`].
#[verifier::external_type_specification]
#[verifier::external_body]
pub struct ExClientConfig(ClientConfig);

/// The name of a TLS server. Its contents stay opaque.
#[verifier::external_type_specification]
#[verifier::external_body]
pub struct ExServerName(ServerName);

/// A TLS connection. Its contents stay opaque.
#[verifier::external_type_specification]
#[verifier::external_body]
pub struct ExClientConnection(ClientConnection);

/// A section of a PEM file, with its contents in the DER format.
pub enum PemItem {
    Certificate(Vec<u8>),
    RsaKey(Vec<u8>),
    Pkcs8Key(Vec<u8>),
    EcKey(Vec<u8>),
    Other,
}

/// What a section of a PEM file says.
pub enum PemItemView {
    Certificate(Seq<u8>),
    RsaKey(Seq<u8>),
    Pkcs8Key(Seq<u8>),
    EcKey(Seq<u8>),
    Other,
}

impl View for PemItem {
    type V = PemItemView;

    open spec fn view(&self) -> PemItemView {
        match *self {
            PemItem::Certificate(x) => PemItemView::Certificate(x@),
            PemItem::RsaKey(x) => PemItemView::RsaKey(x@),
            PemItem::Pkcs8Key(x) => PemItemView::Pkcs8Key(x@),
            PemItem::EcKey(x) => PemItemView::EcKey(x@),
            PemItem::Other => PemItemView::Other,
        }
    }
}

/// The sections of a PEM file, or what is wrong with it if it is malformed.
pub uninterp spec fn pem_items(bytes: Seq<u8>) -> Result<Seq<PemItemView>, io::Error>;

/// The certificates among some sections, in their order.
pub open spec fn certificates(items: Seq<PemItemView>) -> Seq<Seq<u8>>
    decreases items.len(),
{
    if items.len() == 0 {
        Seq::empty()
    } else {
        match items.last() {
            PemItemView::Certificate(x) => certificates(items.drop_last()).push(x),
            _ => certificates(items.drop_last()),
        }
    }
}

/// What some byte arrays hold.
pub open spec fn contents(v: Seq<Vec<u8>>) -> Seq<Seq<u8>> {
    Seq::new(v.len(), |i: int| v[i]@)
}

/// `rustls_pemfile::read_all` on a byte slice: reads the sections in order, and tells what is
/// wrong with the first malformed one if there is one.
#[verifier::external_body]
fn read_pem(bytes: &[u8]) -> (r: Result<Vec<PemItem>, io::Error>)
    ensures
        match r {
            Ok(items) => pem_items(bytes@) == Ok::<Seq<PemItemView>, io::Error>(item_views(items@)),
            Err(e) => pem_items(bytes@) == Err::<Seq<PemItemView>, io::Error>(e),
        },
{
    let items = rustls_pemfile::read_all(&mut io::BufReader::new(bytes))?;
    Ok(items.into_iter().map(|item| match item {
        rustls_pemfile::Item::X509Certificate(x) => PemItem::Certificate(x),
        rustls_pemfile::Item::RSAKey(x) => PemItem::RsaKey(x),
        rustls_pemfile::Item::PKCS8Key(x) => PemItem::Pkcs8Key(x),
        rustls_pemfile::Item::ECKey(x) => PemItem::EcKey(x),
        _ => PemItem::Other,
    }).collect())
}

/// `rustls_pemfile::certs` on a byte slice: reads the certificates among the sections in
/// order, and tells what is wrong with the first malformed section if there is one.
#[verifier::external_body]
fn read_pem_certs(bytes: &[u8]) -> (r: Result<Vec<Vec<u8>>, io::Error>)
    ensures
        match r {
            Ok(certs) => pem_items(bytes@) matches Ok(items) && contents(certs@) == certificates(
                items,
            ),
            Err(e) => pem_items(bytes@) == Err::<Seq<PemItemView>, io::Error>(e),
        },
{
    rustls_pemfile::certs(&mut io::BufReader::new(bytes))
}

/// Whether a private key in the DER format is of a type that rustls can sign with.
pub uninterp spec fn key_is_supported(der: Seq<u8>) -> bool;

/// The certificates in a certified key, in the DER format.
pub uninterp spec fn chain_of(k: CertifiedKey) -> Seq<Seq<u8>>;

/// Whether a certified key signs with a private key in the DER format.
pub uninterp spec fn signs_with(k: CertifiedKey, key: Seq<u8>) -> bool;

/// `rustls::sign::any_supported_type`, with the signing key handed to
/// `rustls::sign::CertifiedKey::new`: puts a chain and a key together, and fails if the key is
/// of no supported type. The chain is not looked at. Whether a key of a supported type is taken
/// is left open, and so is what else the outcome holds: that draws random numbers.
#[verifier::external_body]
fn make_certified_key(chain: Vec<Vec<u8>>, key: Vec<u8>) -> (r: Result<Arc<CertifiedKey>, SignError>)
    ensures
        r matches Ok(k) ==> key_is_supported(key@) && chain_of(*k) == contents(chain@)
            && signs_with(*k, key@),
{
    let key = rustls::sign::any_supported_type(&PrivateKey(key))?;
    let chain = chain.into_iter().map(Certificate).collect();
    Ok(Arc::new(CertifiedKey::new(chain, key)))
}

/// The root of trust in a certificate in the DER format, or why it cannot be one.
pub uninterp spec fn trust_anchor(der: Seq<u8>) -> Result<OwnedTrustAnchor, webpki::Error>;

/// `webpki::TrustAnchor::try_from_cert_der`, with the outcome copied by
/// `rustls::OwnedTrustAnchor::from_subject_spki_name_constraints`: takes the root of trust out
/// of a certificate, or tells why there is none.
#[verifier::external_body]
fn read_trust_anchor(der: &[u8]) -> (r: Result<OwnedTrustAnchor, webpki::Error>)
    ensures
        r == trust_anchor(der@),
{
    let ca = webpki::TrustAnchor::try_from_cert_der(der)?;
    Ok(OwnedTrustAnchor::from_subject_spki_name_constraints(
        ca.subject,
        ca.spki,
        ca.name_constraints,
    ))
}

/// The roots of trust in a store.
pub uninterp spec fn roots(store: RootCertStore) -> Seq<OwnedTrustAnchor>;

/// The roots of trust in those of some certificates that have one, in their order.
pub open spec fn anchors(certs: Seq<Seq<u8>>) -> Seq<OwnedTrustAnchor>
    decreases certs.len(),
{
    if certs.len() == 0 {
        Seq::empty()
    } else {
        match trust_anchor(certs.last()) {
            Ok(anchor) => anchors(certs.drop_last()).push(anchor),
            Err(_) => anchors(certs.drop_last()),
        }
    }
}

/// `rustls::RootCertStore::empty`: the new store holds nothing.
#[verifier::external_body]
fn empty_store() -> (r: RootCertStore)
    ensures
        roots(r) == Seq::<OwnedTrustAnchor>::empty(),
{
    RootCertStore::empty()
}

/// Pushing onto the list in a `rustls::RootCertStore` adds a root of trust behind the others.
#[verifier::external_body]
fn push_root(store: &mut RootCertStore, anchor: OwnedTrustAnchor)
    ensures
        roots(*final(store)) == roots(*old(store)).push(anchor),
{
    store.roots.push(anchor)
}

/// `rustls::RootCertStore::add_parsable_certificates`: adds the roots of trust in those of the
/// certificates that have one, and returns how many there were, and how many were ignored.
#[verifier::external_body]
fn add_parsable(store: &mut RootCertStore, certs: &Vec<Vec<u8>>) -> (r: (usize, usize))
    ensures
        roots(*final(store)) == roots(*old(store)) + anchors(contents(certs@)),
        r.0 == anchors(contents(certs@)).len(),
        r.1 == certs@.len() - r.0,
{
    store.add_parsable_certificates(certs)
}

/// The roots of trust that a TLS configuration checks servers against.
pub uninterp spec fn trusted_roots(cfg: ClientConfig) -> Seq<OwnedTrustAnchor>;

/// The application protocols that a TLS configuration offers, by their names.
pub uninterp spec fn alpn_of(cfg: ClientConfig) -> Seq<Seq<u8>>;

/// The field `alpn_protocols` of a `rustls::ClientConfig`: the names of the application
/// protocols that it offers, in their order.
#[verifier::external_body]
fn read_alpn(cfg: &ClientConfig) -> (r: Vec<Vec<u8>>)
    ensures
        contents(r@) == alpn_of(*cfg),
{
    cfg.alpn_protocols.clone()
}

/// How many bytes the names of some application protocols take in a handshake, each with a
/// byte for its length.
pub open spec fn alpn_size(names: Seq<Seq<u8>>) -> nat
    decreases names.len(),
{
    if names.len() == 0 {
        0
    } else {
        alpn_size(names.drop_last()) + 1 + names.last().len()
    }
}

/// The largest number of bytes for the names of application protocols in a handshake. All
/// that a handshake offers takes at most 65535 bytes; this leaves 2048 of them for the rest.
pub const MAX_ALPN_SIZE: usize = 63_487;

/// Whether the application protocols that a TLS configuration offers fit in a handshake.
pub open spec fn alpn_fits(cfg: ClientConfig) -> bool {
    alpn_size(alpn_of(cfg)) <= MAX_ALPN_SIZE
}

proof fn lemma_alpn_size(names: Seq<Seq<u8>>, k: int)
    requires
        0 <= k <= names.len(),
    ensures
        alpn_size(names.take(k)) <= alpn_size(names),
    decreases names.len() - k,
{
    if k < names.len() {
        assert(names.take(k + 1).drop_last() =~= names.take(k));
        lemma_alpn_size(names, k + 1);
    } else {
        assert(names.take(k) =~= names);
    }
}

/// Tells whether the names of some application protocols fit in a handshake.
pub fn names_fit(names: &Vec<Vec<u8>>) -> (r: bool)
    ensures
        r == (alpn_size(contents(names@)) <= MAX_ALPN_SIZE),
{
    let ghost all = contents(names@);
    let mut left: usize = MAX_ALPN_SIZE;
    let mut i: usize = 0;
    while i < names.len()
        invariant
            i <= names@.len(),
            all == contents(names@),
            left <= MAX_ALPN_SIZE,
            alpn_size(all.take(i as int)) == MAX_ALPN_SIZE - left,
        decreases names@.len() - i,
    {
        proof {
            assert(all.take(i + 1).drop_last() =~= all.take(i as int));
            lemma_alpn_size(all, i + 1);
        }
        let len: usize = names[i].len();
        if len >= left {
            return false;
        }
        left = left - 1 - len;
        i += 1;
    }
    assert(all.take(i as int) =~= all);
    true
}

/// Tells whether the application protocols that a TLS configuration offers fit in a handshake.
pub fn check_alpn(cfg: &ClientConfig) -> (r: bool)
    ensures
        r == alpn_fits(*cfg),
{
    names_fit(&read_alpn(cfg))
}

/// `rustls::ClientConfig::builder` with safe defaults, the specified roots and no client
/// authentication: the configuration checks servers against these roots and offers no
/// application protocols.
#[verifier::external_body]
fn make_client_config(store: RootCertStore) -> (r: ClientConfig)
    ensures
        trusted_roots(r) == roots(store),
        alpn_of(r) == Seq::<Seq<u8>>::empty(),
{
    ClientConfig::builder()
        .with_safe_defaults()
        .with_root_certificates(store)
        .with_no_client_auth()
}

/// The name of a TLS server, a DNS name or an IP address, if the host can be one.
pub uninterp spec fn server_name(host: Seq<char>) -> Option<ServerName>;

/// `rustls::ServerName::try_from` on a string: reads the name of a TLS server, if the host
/// can be one.
#[verifier::external_body]
fn read_server_name(host: &str) -> (r: Option<ServerName>)
    ensures
        r == server_name(host@),
{
    ServerName::try_from(host).ok()
}

/// The server that a TLS connection is for: the one whose certificate it checks.
pub uninterp spec fn server_of(conn: ClientConnection) -> ServerName;

/// The configuration that a TLS connection follows.
pub uninterp spec fn config_of(conn: ClientConnection) -> ClientConfig;

/// `rustls::ClientConnection::new`: a connection that is created is for the specified server
/// and follows the specified configuration. Whether it can be created is left open: that draws
/// random numbers. Application protocols that do not fit in a handshake are not admitted. What
/// a verifier, a session store or lists of algorithms of the user's own add to a handshake is
/// out of sight here.
#[verifier::external_body]
fn new_connection(cfg: ClientConfig, name: ServerName) -> (r: Result<
    ClientConnection,
    rustls::Error,
>)
    requires
        alpn_fits(cfg),
    ensures
        r matches Ok(conn) ==> server_of(conn) == name && config_of(conn) == cfg,
{
    ClientConnection::new(Arc::new(cfg), name)
}

/// An enum used to specify the format of raw bytes of a TLS certificate
/// or private key.
pub enum CryptoBytes<'a> {
    /// Use this if the underlying bytes use the DER format
    Der(&'a [u8]),
    /// Use this if the underlying bytes use the PEM format
    Pem(&'a [u8]),
}

/// An enum wrapping all the errors that could happen during TLS
/// certificate or private key loading.
#[derive(Debug)]
pub enum CryptoError {
    /// The certificate is invalid
    BadCert(webpki::Error),
    /// An IO error occurred while trying to process the input
    IoError(io::Error),
    /// The PEM bytes did not contain any relevant data. This can happen if,
    /// for instance, you pass a private key while the system expects a
    /// certificate.
    NoValidItemsInPem,
    /// The specified key cannot be used for signing. I'm as clueless as you
    /// are. This indicate that rustls returned a [`rustls::sign::SignError`],
    /// but this error itself lacks information.
    InvalidPrivateKey,
}

/// A flavour of [`OptionsT`] with TLS enabled.
pub type OptionsWithTls<'a> = OptionsT<'a, ClientConfig>;

/// The certificate chain in some bytes, or what is wrong with them.
pub open spec fn chain_in(bytes: CryptoBytes) -> Result<Seq<Seq<u8>>, CryptoError> {
    match bytes {
        CryptoBytes::Der(der) => Ok(seq![der@]),
        CryptoBytes::Pem(pem) => match pem_items(pem@) {
            Ok(items) => if certificates(items).len() == 0 {
                Err(CryptoError::NoValidItemsInPem)
            } else {
                Ok(certificates(items))
            },
            Err(e) => Err(CryptoError::IoError(e)),
        },
    }
}

/// The private key in a section of a PEM file, if it holds one.
pub open spec fn private_key_in(item: PemItemView) -> Option<Seq<u8>> {
    match item {
        PemItemView::RsaKey(x) => Some(x),
        PemItemView::Pkcs8Key(x) => Some(x),
        PemItemView::EcKey(x) => Some(x),
        _ => None,
    }
}

/// The first private key in some sections of a PEM file, if there is one.
pub open spec fn first_private_key(items: Seq<PemItemView>) -> Option<Seq<u8>>
    decreases items.len(),
{
    if items.len() == 0 {
        None
    } else {
        match private_key_in(items[0]) {
            Some(key) => Some(key),
            None => first_private_key(items.skip(1)),
        }
    }
}

/// The private key in some bytes, or what is wrong with them.
pub open spec fn key_in(bytes: CryptoBytes) -> Result<Seq<u8>, CryptoError> {
    match bytes {
        CryptoBytes::Der(der) => Ok(der@),
        CryptoBytes::Pem(pem) => match pem_items(pem@) {
            Ok(items) => match first_private_key(items) {
                Some(key) => Ok(key),
                None => Err(CryptoError::NoValidItemsInPem),
            },
            Err(e) => Err(CryptoError::IoError(e)),
        },
    }
}

/// What some sections of a PEM file say.
pub open spec fn item_views(items: Seq<PemItem>) -> Seq<PemItemView> {
    Seq::new(items.len(), |i: int| items[i]@)
}

/// Finds the first private key in some sections of a PEM file. RSA, EC, and PKCS8 keys are
/// recognized.
pub fn find_private_key(items: &Vec<PemItem>) -> (r: Option<Vec<u8>>)
    ensures
        match r {
            Some(key) => first_private_key(item_views(items@)) == Some(key@),
            None => first_private_key(item_views(items@)) is None,
        },
{
    let ghost all = item_views(items@);
    let mut i: usize = 0;
    assert(all.skip(0) =~= all);
    while i < items.len()
        invariant
            i <= items@.len(),
            all == item_views(items@),
            first_private_key(all) == first_private_key(all.skip(i as int)),
        decreases items@.len() - i,
    {
        assert(all.skip(i as int)[0] == items@[i as int]@);
        assert(all.skip(i as int).skip(1) =~= all.skip(i + 1));
        match &items[i] {
            PemItem::RsaKey(x) => {
                return Some(slice_to_vec(x.as_slice()));
            },
            PemItem::Pkcs8Key(x) => {
                return Some(slice_to_vec(x.as_slice()));
            },
            PemItem::EcKey(x) => {
                return Some(slice_to_vec(x.as_slice()));
            },
            _ => {},
        }
        i += 1;
    }
    None
}

/// Tells which private key a PEM file holds, given its sections or what is wrong with it.
pub fn private_key_result(items: Result<Vec<PemItem>, io::Error>) -> (r: Result<
    Vec<u8>,
    CryptoError,
>)
    ensures
        match items {
            Ok(items) => match first_private_key(item_views(items@)) {
                Some(key) => r matches Ok(k) && k@ == key,
                None => r == Err::<Vec<u8>, CryptoError>(CryptoError::NoValidItemsInPem),
            },
            Err(e) => r == Err::<Vec<u8>, CryptoError>(CryptoError::IoError(e)),
        },
{
    match items {
        Ok(items) => match find_private_key(&items) {
            Some(der) => Ok(der),
            None => Err(CryptoError::NoValidItemsInPem),
        },
        Err(err) => Err(CryptoError::IoError(err)),
    }
}

/// Tells which certificate chain a PEM file holds, given its certificates or what is wrong
/// with it.
pub fn chain_result(certs: Result<Vec<Vec<u8>>, io::Error>) -> (r: Result<
    Vec<Vec<u8>>,
    CryptoError,
>)
    ensures
        r == (match certs {
            Ok(certs) => if certs@.len() == 0 {
                Err::<Vec<Vec<u8>>, CryptoError>(CryptoError::NoValidItemsInPem)
            } else {
                Ok(certs)
            },
            Err(e) => Err(CryptoError::IoError(e)),
        }),
{
    match certs {
        Ok(certs) => if certs.len() < 1 {
            Err(CryptoError::NoValidItemsInPem)
        } else {
            Ok(certs)
        },
        Err(err) => Err(CryptoError::IoError(err)),
    }
}

/// Tells whether a PEM file holds a root of trust, given how many were added.
pub fn added_result(added: usize) -> (r: Result<(), CryptoError>)
    ensures
        r == (if added == 0 {
            Err::<(), CryptoError>(CryptoError::NoValidItemsInPem)
        } else {
            Ok(())
        }),
{
    if added < 1 {
        Err(CryptoError::NoValidItemsInPem)
    } else {
        Ok(())
    }
}

/// A certificate and private key pair for TLS client authentication.
pub struct ClientCertResolver(pub Arc<CertifiedKey>);

impl ClientCertResolver {
    /// Instantiates a new [`ClientCertResolver`] with the specified certificate and
    /// private key.
    ///
    /// - `cert_bytes` should contain a reference to the raw bytes of
    ///    your certificate either in DER or PEM format. See [`CryptoBytes`]
    ///    for more information.
    /// - `pk_bytes` should contain a reference to the raw bytes of
    ///    your private key either in DER or PEM format. See [`CryptoBytes`]
    ///    for more information. RSA, EC, and PKCS8 *should* be supported.
    ///
    /// Whether a private key of a supported type is taken is up to the TLS implementation.
    pub fn from_bytes(cert_bytes: CryptoBytes, pk_bytes: CryptoBytes) -> (r: Result<
        ClientCertResolver,
        CryptoError,
    >)
        ensures
            match chain_in(cert_bytes) {
                Err(e) => r == Err::<ClientCertResolver, CryptoError>(e),
                Ok(chain) => match key_in(pk_bytes) {
                    Err(e) => r == Err::<ClientCertResolver, CryptoError>(e),
                    Ok(key) => match r {
                        Ok(resolver) => key_is_supported(key) && chain_of(*resolver.0) == chain
                            && signs_with(*resolver.0, key),
                        Err(e) => e == CryptoError::InvalidPrivateKey,
                    },
                },
            },
    {
        let cert = match &cert_bytes {
            CryptoBytes::Der(bytes) => {
                let mut v: Vec<Vec<u8>> = Vec::new();
                v.push(slice_to_vec(bytes));
                assert(contents(v@) =~= seq![bytes@]);
                v
            },
            CryptoBytes::Pem(bytes) => chain_result(read_pem_certs(bytes))?,
        };
        let pk_der = match &pk_bytes {
            CryptoBytes::Der(bytes) => slice_to_vec(bytes),
            CryptoBytes::Pem(bytes) => private_key_result(read_pem(bytes))?,
        };
        resolver_result(make_certified_key(cert, pk_der))
    }
}

/// Tells what comes of putting a certificate chain and a private key together.
pub fn resolver_result(attempt: Result<Arc<CertifiedKey>, SignError>) -> (r: Result<
    ClientCertResolver,
    CryptoError,
>)
    ensures
        r == (match attempt {
            Ok(key) => Ok::<ClientCertResolver, CryptoError>(ClientCertResolver(key)),
            Err(_) => Err(CryptoError::InvalidPrivateKey),
        }),
{
    match attempt {
        Ok(key) => Ok(ClientCertResolver(key)),
        Err(_) => Err(CryptoError::InvalidPrivateKey),
    }
}

impl<'a> OptionsT<'a, ()> {
    /// These options with the specified TLS configuration. The default port becomes that of
    /// MQTT over TLS, unless it was changed.
    pub open spec fn with_tls<C>(self, tls_config: C) -> OptionsT<'a, C> {
        OptionsT {
            default_port: if self.default_port_changed {
                self.default_port
            } else {
                8883
            },
            ..self.with_connection_cfg(tls_config)
        }
    }

    /// Converts this set of options to options with TLS support using the
    /// specified TLS configuration. This specific function is for advanced uses.
    ///
    /// For simple uses, see [`Self::enable_tls()`] and [`Self::enable_tls_custom_ca_cert()`].
    pub fn enable_tls_ex<C>(self, tls_config: C) -> (r: OptionsT<'a, C>)
        ensures
            r == self.with_tls(tls_config),
    {
        let replace = |_none: ()| -> (c: C)
            ensures c == tls_config
        { tls_config };
        let mut ret = self.map_connection_cfg(replace);
        if !ret.default_port_changed {
            ret.default_port = 8883;
        }
        ret
    }

    /// Converts this set of options to options with TLS support. This
    /// specific flavour uses the system's certificates, in the DER format, to verify the
    /// server's identity. Those that are no valid roots of trust are ignored.
    ///
    /// If you would like to provide your own CA certificate, you can
    /// use the [`Self::enable_tls_custom_ca_cert()`] function.
    pub fn enable_tls(self, certs: &Vec<Vec<u8>>) -> (r: OptionsWithTls<'a>)
        ensures
            r == self.with_tls(r.connection_cfg),
            trusted_roots(r.connection_cfg) == anchors(contents(certs@)),
            alpn_of(r.connection_cfg) == Seq::<Seq<u8>>::empty(),
    {
        let mut store = empty_store();
        add_parsable(&mut store, certs);
        assert(roots(store) =~= anchors(contents(certs@)));
        self.enable_tls_ex(make_client_config(store))
    }

    /// Converts this set of options to options with TLS support. This
    /// specific flavour enables the developer to provide their own
    /// CA certificate to verify the server's identity.
    ///
    /// If you would like to use your OS's certificate store instead,
    /// use [`Self::enable_tls()`] instead.
    ///
    /// # Parameters
    ///
    /// `ca_cert_bytes` should contain a reference to the raw bytes of
    /// your certificate either in DER or PEM format. See [`CryptoBytes`]
    /// for more information.
    ///
    /// # Return value
    ///
    /// Because the bytes specified in `ca_cert_bytes` can be invalid,
    /// this function can fail. See [`CryptoError`] for more information.
    pub fn enable_tls_custom_ca_cert(self, ca_cert_bytes: CryptoBytes) -> (r: Result<
        OptionsWithTls<'a>,
        CryptoError,
    >)
        ensures
            r matches Ok(options) ==> options == self.with_tls(options.connection_cfg) && alpn_of(
                options.connection_cfg,
            ) == Seq::<Seq<u8>>::empty(),
            match ca_cert_bytes {
                CryptoBytes::Der(der) => match trust_anchor(der@) {
                    Ok(anchor) => r matches Ok(options) && trusted_roots(options.connection_cfg)
                        == seq![anchor],
                    Err(e) => r == Err::<OptionsWithTls, CryptoError>(CryptoError::BadCert(e)),
                },
                CryptoBytes::Pem(pem) => match pem_items(pem@) {
                    Err(e) => r == Err::<OptionsWithTls, CryptoError>(CryptoError::IoError(e)),
                    Ok(items) => if anchors(certificates(items)).len() == 0 {
                        r == Err::<OptionsWithTls, CryptoError>(CryptoError::NoValidItemsInPem)
                    } else {
                        r matches Ok(options) && trusted_roots(options.connection_cfg) == anchors(
                            certificates(items),
                        )
                    },
                },
            },
    {
        let mut store = empty_store();
        match &ca_cert_bytes {
            CryptoBytes::Der(bytes) => {
                match read_trust_anchor(bytes) {
                    Ok(ca) => {
                        push_root(&mut store, ca);
                        assert(roots(store) =~= seq![ca]);
                    },
                    Err(err) => {
                        return Err(CryptoError::BadCert(err));
                    },
                }
            },
            CryptoBytes::Pem(bytes) => {
                let certs = match read_pem_certs(bytes) {
                    Ok(certs) => certs,
                    Err(err) => {
                        return Err(CryptoError::IoError(err));
                    },
                };
                added_result(add_parsable(&mut store, &certs).0)?;
                assert(roots(store) =~= anchors(contents(certs@)));
            },
        }
        Ok(self.enable_tls_ex(make_client_config(store)))
    }
}

/// Creates a TLS connection to the specified host, which must be the name of a TLS server. The
/// connection is for that server and follows the specified configuration. Whether
/// it can be created is up to the TLS implementation.
pub fn create_connection(cfg: ClientConfig, host: &str) -> (r: Result<
    ClientConnection,
    ConnectError,
>)
    requires
        alpn_fits(cfg),
    ensures
        server_name(host@) is None <==> r matches Err(ConnectError::InvalidHostname),
        r matches Err(e) ==> e is InvalidHostname || e is TlsError,
        r matches Ok(conn) ==> server_name(host@) == Some(server_of(conn)) && config_of(conn)
            == cfg,
{
    match read_server_name(host) {
        Some(name) => connection_result(Some(new_connection(cfg, name))),
        None => connection_result(None),
    }
}

/// Creates a TLS connection to the specified host, unless the application protocols that the
/// configuration offers do not fit in a handshake: then there is no attempt. See
/// [`create_connection`].
pub fn try_create_connection(cfg: ClientConfig, host: &str) -> (r: Option<
    Result<ClientConnection, ConnectError>,
>)
    ensures
        r is None <==> !alpn_fits(cfg),
        r matches Some(r) ==> (server_name(host@) is None <==> r matches Err(
            ConnectError::InvalidHostname,
        )),
        r matches Some(Err(e)) ==> e is InvalidHostname || e is TlsError,
        r matches Some(Ok(conn)) ==> server_name(host@) == Some(server_of(conn)) && config_of(conn)
            == cfg,
{
    if check_alpn(&cfg) {
        Some(create_connection(cfg, host))
    } else {
        None
    }
}

/// Tells what comes of an attempt to create a TLS connection: there is none if the host
/// cannot be the name of a TLS server.
pub fn connection_result<C>(attempt: Option<Result<C, rustls::Error>>) -> (r: Result<
    C,
    ConnectError,
>)
    ensures
        match attempt {
            None => r == Err::<C, ConnectError>(ConnectError::InvalidHostname),
            Some(Ok(conn)) => r == Ok::<C, ConnectError>(conn),
            Some(Err(e)) => r == Err::<C, ConnectError>(ConnectError::TlsError(e)),
        },
{
    match attempt {
        None => Err(ConnectError::InvalidHostname),
        Some(Ok(conn)) => Ok(conn),
        Some(Err(e)) => Err(ConnectError::TlsError(e)),
    }
}

/// With TLS, the default port is 8883, unless it was changed before or is changed after.
pub proof fn law_default_port<C>(options: OptionsT<'_, ()>, tls_config: C, port: u16)
    ensures
        !options.default_port_changed ==> options.with_tls(tls_config).default_port == 8883,
        (OptionsT { default_port: port, default_port_changed: true, ..options }).with_tls(
            tls_config,
        ).default_port == port,
        options.with_tls(tls_config).default_port_changed == options.default_port_changed,
{
}

/// Enabling TLS sets the configuration, and the default port unless it was changed. Every other
/// setting stays.
pub proof fn law_tls_keeps_settings<C>(options: OptionsT<'_, ()>, cfg: C)
    ensures
        ({
            let o = options.with_tls(cfg);
            &&& o.connection_cfg == cfg
            &&& o.default_port == (if options.default_port_changed {
                options.default_port
            } else {
                8883
            })
            &&& o.clean_session == options.clean_session
            &&& o.keep_alive == options.keep_alive
            &&& o.client_id == options.client_id
            &&& o.last_will == options.last_will
            &&& o.username == options.username
            &&& o.password == options.password
            &&& o.no_delay == options.no_delay
            &&& o.enabled_ip_versions == options.enabled_ip_versions
            &&& o.dns_timeout == options.dns_timeout
            &&& o.tcp_connect_timeout == options.tcp_connect_timeout
            &&& o.mqtt_connect_timeout == options.mqtt_connect_timeout
            &&& o.packets_resend_delay == options.packets_resend_delay
            &&& o.default_port_changed == options.default_port_changed
        }),
{
}

/// The certificates in some sections are those of the certificate sections, in their order.
pub proof fn law_certificates(items: Seq<PemItemView>, item: PemItemView)
    ensures
        certificates(Seq::empty()) == Seq::<Seq<u8>>::empty(),
        item matches PemItemView::Certificate(x) ==> certificates(items.push(item)) == certificates(
            items,
        ).push(x),
        !(item is Certificate) ==> certificates(items.push(item)) == certificates(items),
{
    assert(items.push(item).drop_last() =~= items);
}

/// The private key that is used is the first one in the file, of whatever type: it is in a
/// section with a private key, and no section before that has one. If there is none, no section
/// has a private key.
pub proof fn law_first_private_key(items: Seq<PemItemView>)
    ensures
        match first_private_key(items) {
            Some(key) => exists|i: int|
                0 <= i < items.len() && (#[trigger] items[i] == PemItemView::RsaKey(key) || items[i]
                    == PemItemView::Pkcs8Key(key) || items[i] == PemItemView::EcKey(key)) && forall|
                    j: int,
                |
                    0 <= j < i ==> !(#[trigger] items[j] is RsaKey) && !(items[j] is Pkcs8Key)
                        && !(items[j] is EcKey),
            None => forall|j: int|
                0 <= j < items.len() ==> !(#[trigger] items[j] is RsaKey) && !(items[j] is Pkcs8Key)
                    && !(items[j] is EcKey),
        },
    decreases items.len(),
{
    if items.len() > 0 {
        let rest = items.skip(1);
        law_first_private_key(rest);
        if private_key_in(items[0]) is Some {
            assert(items[0] is RsaKey || items[0] is Pkcs8Key || items[0] is EcKey);
        } else {
            assert forall|j: int| 1 <= j < items.len() implies #[trigger] items[j] == rest[j - 1] by {}
            if let Some(key) = first_private_key(rest) {
                let i = choose|i: int|
                    0 <= i < rest.len() && (#[trigger] rest[i] == PemItemView::RsaKey(key)
                        || rest[i] == PemItemView::Pkcs8Key(key) || rest[i] == PemItemView::EcKey(
                        key,
                    )) && forall|j: int|
                        0 <= j < i ==> !(#[trigger] rest[j] is RsaKey) && !(rest[j] is Pkcs8Key)
                            && !(rest[j] is EcKey);
                assert(items[i + 1] == rest[i]);
                assert forall|j: int| 0 <= j < i + 1 implies !(#[trigger] items[j] is RsaKey) && !(
                items[j] is Pkcs8Key) && !(items[j] is EcKey) by {
                    if j > 0 {
                        assert(items[j] == rest[j - 1]);
                        assert(!(rest[j - 1] is RsaKey));
                    }
                }
            }
        }
    }
}

/// What certificate and key bytes hold: bytes in the DER format are taken as they are, and a
/// PEM file is read. One that is malformed, or does not hold what is asked for, is an error.
pub proof fn law_crypto_bytes(bytes: CryptoBytes)
    ensures
        match bytes {
            CryptoBytes::Der(der) => chain_in(bytes) == Ok::<Seq<Seq<u8>>, CryptoError>(seq![der@])
                && key_in(bytes) == Ok::<Seq<u8>, CryptoError>(der@),
            CryptoBytes::Pem(pem) => match pem_items(pem@) {
                Err(e) => chain_in(bytes) == Err::<Seq<Seq<u8>>, CryptoError>(
                    CryptoError::IoError(e),
                ) && key_in(bytes) == Err::<Seq<u8>, CryptoError>(CryptoError::IoError(e)),
                Ok(items) => {
                    &&& certificates(items).len() > 0 ==> chain_in(bytes) == Ok::<
                        Seq<Seq<u8>>,
                        CryptoError,
                    >(certificates(items))
                    &&& certificates(items).len() == 0 ==> chain_in(bytes) == Err::<
                        Seq<Seq<u8>>,
                        CryptoError,
                    >(CryptoError::NoValidItemsInPem)
                    &&& first_private_key(items) matches Some(key) ==> key_in(bytes) == Ok::<
                        Seq<u8>,
                        CryptoError,
                    >(key)
                    &&& first_private_key(items) is None ==> key_in(bytes) == Err::<
                        Seq<u8>,
                        CryptoError,
                    >(CryptoError::NoValidItemsInPem)
                },
            },
        },
{
}

/// The roots of trust of some certificates are those of each certificate that has one, in their
/// order.
pub proof fn law_anchors(certs: Seq<Seq<u8>>, cert: Seq<u8>)
    ensures
        anchors(Seq::empty()) == Seq::<OwnedTrustAnchor>::empty(),
        trust_anchor(cert) matches Ok(a) ==> anchors(certs.push(cert)) == anchors(certs).push(a),
        trust_anchor(cert) is Err ==> anchors(certs.push(cert)) == anchors(certs),
{
    assert(certs.push(cert).drop_last() =~= certs);
}

/// Application protocols fit in a handshake if they take at most 63487 bytes.
pub proof fn law_alpn_fits(cfg: ClientConfig)
    ensures
        alpn_fits(cfg) <==> alpn_size(alpn_of(cfg)) <= 63_487,
{
}

/// Sections and byte arrays say what they hold, and names take a byte more than they have.
pub proof fn law_contents(item: PemItem, v: Seq<Vec<u8>>, items: Seq<PemItem>, name: Seq<u8>, i: int)
    requires
        0 <= i < v.len(),
        0 <= i < items.len(),
    ensures
        match item {
            PemItem::Certificate(x) => item@ == PemItemView::Certificate(x@),
            PemItem::RsaKey(x) => item@ == PemItemView::RsaKey(x@),
            PemItem::Pkcs8Key(x) => item@ == PemItemView::Pkcs8Key(x@),
            PemItem::EcKey(x) => item@ == PemItemView::EcKey(x@),
            PemItem::Other => item@ == PemItemView::Other,
        },
        contents(v).len() == v.len() && contents(v)[i] == v[i]@,
        item_views(items).len() == items.len() && item_views(items)[i] == items[i]@,
        alpn_size(Seq::empty()) == 0,
        alpn_size(contents(v).push(name)) == alpn_size(contents(v)) + name.len() + 1,
{
    assert(contents(v).push(name).drop_last() =~= contents(v));
}

} // verus!
