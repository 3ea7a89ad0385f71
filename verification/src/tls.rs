//! Certificates: the authorities that a client trusts, and the identity that it shows.
use vstd::prelude::*;

use crate::config::TlsConfig;
use crate::error::{Error, Result};
use crate::path;
use crate::text;

verus! {

/// The file that holds the private key, where it is not the one that holds the certificate.
pub open spec fn separate_key(cfg: TlsConfig) -> Option<Seq<char>> {
    match (cfg.client_cert_file, cfg.client_key_file) {
        (Some(cert), Some(key)) => if path::same_path(key@, cert@) {
            None
        } else {
            Some(key@)
        },
        _ => None,
    }
}

/// Which file has to be read for the private key besides the one of the certificate.
pub fn separate_key_file(cfg: &TlsConfig) -> (r: Option<String>)
    ensures
        match r {
            Some(p) => separate_key(*cfg) == Some(p@),
            None => separate_key(*cfg) is None,
        },
{
    match (&cfg.client_cert_file, &cfg.client_key_file) {
        (Some(cert), Some(key)) => if path::same(key.as_str(), cert.as_str()) {
            None
        } else {
            Some(key.clone())
        },
        _ => None,
    }
}

/// A certificate and its key in one text: the key starts on a line of its own.
pub open spec fn combined(cert: Seq<u8>, key: Seq<u8>) -> Seq<u8> {
    if cert.len() > 0 && cert.last() == 10 {
        cert + key
    } else {
        cert.push(10) + key
    }
}

/// A certificate and its key in one text: the certificate alone where the key is in the same
/// file.
pub open spec fn identity_text(cert: Vec<u8>, key: Option<Vec<u8>>) -> Seq<u8> {
    match key {
        Some(k) => combined(cert@, k@),
        None => cert@,
    }
}

/// A certificate and its key in one text. Where the key is in the same file there is nothing
/// to add.
pub fn identity_pem(cert: Vec<u8>, key: Option<Vec<u8>>) -> (r: Vec<u8>)
    ensures
        r@ == identity_text(cert, key),
{
    match key {
        Some(k) => {
            let mut out = cert;
            let mut tail = k;
            let n: usize = out.len();
            if n == 0 || out[n - 1] != 10 {
                out.push(10);
            }
            out.append(&mut tail);
            out
        },
        None => cert,
    }
}

// Parsing

#[verifier::external_type_specification]
#[verifier::external_body]
pub struct ExCertificate(reqwest::Certificate);

#[verifier::external_type_specification]
#[verifier::external_body]
pub struct ExIdentity(reqwest::Identity);

/// The DER bytes of a certificate.
pub uninterp spec fn der(c: reqwest::Certificate) -> Seq<u8>;

/// The DER bytes of some certificates.
pub open spec fn ders(c: Seq<reqwest::Certificate>) -> Seq<Seq<u8>> {
    c.map_values(|x: reqwest::Certificate| der(x))
}

/// The DER bytes of the certificates in a PEM text, in their order, or nothing where the text
/// is malformed.
pub uninterp spec fn bundled(pem: Seq<u8>) -> Option<Seq<Seq<u8>>>;

/// The DER bytes of the certificates of an identity, and those of its private key.
pub uninterp spec fn parts(i: reqwest::Identity) -> (Seq<Seq<u8>>, Seq<u8>);

/// The DER bytes of the certificates in a PEM text, and those of the private key, or nothing
/// where the text holds no identity.
pub uninterp spec fn identified(pem: Seq<u8>) -> Option<(Seq<Seq<u8>>, Seq<u8>)>;

/// What `reqwest` calls an error in a text that it was given.
pub open spec fn refusal() -> Seq<char> {
    "builder error"@
}

/// Reads the certificates in a PEM text (`reqwest::Certificate::from_pem_bundle`). Whether that
/// succeeds, and which certificates there are, depend on the text alone; what they are is left
/// to the crate. A failure is always worded the same: its cause is not part of the wording.
#[verifier::external_body]
fn from_pem_bundle(pem: &Vec<u8>) -> (r: std::result::Result<Vec<reqwest::Certificate>, String>)
    ensures
        match r {
            Ok(c) => bundled(pem@) matches Some(d) && d.len() == c@.len() && forall|i: int|
                0 <= i < c@.len() ==> der(#[trigger] c@[i]) == d[i],
            Err(e) => bundled(pem@) is None && e@ == refusal(),
        },
{
    reqwest::Certificate::from_pem_bundle(pem).map_err(|e| e.to_string())
}

/// Reads the certificates and the private key in a PEM text (`reqwest::Identity::from_pem`).
/// Whether that succeeds, which certificates there are and which bytes the key has depend on
/// the text alone; what they are is left to the crate, and so is the format of the key. An
/// identity has at least one certificate. A failure is always worded the same: its cause is not
/// part of the wording.
#[verifier::external_body]
fn from_pem(pem: &Vec<u8>) -> (r: std::result::Result<reqwest::Identity, String>)
    ensures
        match r {
            Ok(i) => identified(pem@) == Some(parts(i)) && parts(i).0.len() > 0,
            Err(e) => identified(pem@) is None && e@ == refusal(),
        },
{
    reqwest::Identity::from_pem(pem).map_err(|e| e.to_string())
}

/// The wording where the certificates of an authority cannot be read.
pub open spec fn ca_fault(path: Seq<char>, e: Seq<char>) -> Seq<char> {
    "ca-cert-file "@ + path + ": parse failed: "@ + e
}

/// The wording where a certificate and its key are no identity.
pub open spec fn identity_fault(path: Seq<char>, e: Seq<char>) -> Seq<char> {
    "client-cert-file "@ + path + ": identity build failed (key missing or invalid?): "@ + e
}

/// The certificates of an authority, given what parsing its file came to.
pub fn parsed_roots(
    path: &str,
    parsed: std::result::Result<Vec<reqwest::Certificate>, String>,
) -> (r: Result<Vec<reqwest::Certificate>>)
    ensures
        match parsed {
            Ok(c) => r matches Ok(d) && d@ == c@,
            Err(e) => r matches Err(x) && x.is_config(ca_fault(path@, e@)),
        },
{
    match parsed {
        Ok(c) => Ok(c),
        Err(e) => Err(
            Error::Config(text::cat4("ca-cert-file ", path, ": parse failed: ", e.as_str())),
        ),
    }
}

/// The identity of the agent, given what parsing its certificate and key came to.
pub fn parsed_identity(path: &str, parsed: std::result::Result<reqwest::Identity, String>) -> (r:
    Result<reqwest::Identity>)
    ensures
        match parsed {
            Ok(i) => r matches Ok(j) && j == i,
            Err(e) => r matches Err(x) && x.is_config(identity_fault(path@, e@)),
        },
{
    match parsed {
        Ok(i) => Ok(i),
        Err(e) => Err(
            Error::Config(
                text::cat4(
                    "client-cert-file ",
                    path,
                    ": identity build failed (key missing or invalid?): ",
                    e.as_str(),
                ),
            ),
        ),
    }
}

/// The certificates of an authority in a file, given its contents.
pub fn ca_certificates(path: &str, pem: &Vec<u8>) -> (r: Result<Vec<reqwest::Certificate>>)
    ensures
        match bundled(pem@) {
            Some(d) => r matches Ok(c) && ders(c@) == d,
            None => r matches Err(e) && e.is_config(ca_fault(path@, refusal())),
        },
{
    let parsed = from_pem_bundle(pem);
    assert(parsed matches Ok(c) ==> ders(c@) =~= bundled(pem@)->0);
    parsed_roots(path, parsed)
}

/// The identity of the agent, given the contents of the file of its certificate, and of that of
/// its key where this is another one.
pub fn identity(path: &str, cert: Vec<u8>, key: Option<Vec<u8>>) -> (r: Result<reqwest::Identity>)
    ensures
        match identified(identity_text(cert, key)) {
            Some(p) => r matches Ok(i) && parts(i) == p,
            None => r matches Err(e) && e.is_config(identity_fault(path@, refusal())),
        },
{
    let pem = identity_pem(cert, key);
    parsed_identity(path, from_pem(&pem))
}

// Settings

/// What came of reading a file: its contents, or why it could not be read.
pub type Content = std::result::Result<Vec<u8>, String>;

/// What the settings of a client come to.
pub struct ClientTls {
    /// The authorities that are trusted besides those of the host.
    pub roots: Vec<reqwest::Certificate>,
    /// The certificate that the agent shows, with its key.
    pub identity: Option<reqwest::Identity>,
}

/// Why the settings of a client come to nothing.
pub enum Fault {
    /// A file could not be read, for a reason.
    Unread { path: Seq<char>, source: Seq<char> },
    /// The contents of a file are invalid.
    Invalid(Seq<char>),
}

impl Fault {
    /// An error says what is wrong.
    pub open spec fn is_reported(self, e: Error) -> bool {
        match self {
            Fault::Unread { path, source } => e matches Error::FileRead { path: p, source: s }
                && p@ == path && s@ == source,
            Fault::Invalid(m) => e.is_config(m),
        }
    }
}

/// The authorities that the settings name: the DER bytes of their certificates.
pub open spec fn wanted_roots(cfg: TlsConfig, ca: Content) -> std::result::Result<
    Seq<Seq<u8>>,
    Fault,
> {
    match (cfg.ca_cert_file, ca) {
        (None, _) => Ok(Seq::empty()),
        (Some(path), Err(e)) => Err(Fault::Unread { path: path@, source: e@ }),
        (Some(path), Ok(pem)) => match bundled(pem@) {
            Some(d) => Ok(d),
            None => Err(Fault::Invalid(ca_fault(path@, refusal()))),
        },
    }
}

/// The identity that the settings name: the DER bytes of the certificates and of the key.
pub open spec fn wanted_identity(cfg: TlsConfig, cert: Content, key: Content) -> std::result::Result<
    Option<(Seq<Seq<u8>>, Seq<u8>)>,
    Fault,
> {
    match (cfg.client_cert_file, cert, separate_key(cfg), key) {
        (None, _, _, _) => Ok(None),
        (Some(path), Err(e), _, _) => Err(Fault::Unread { path: path@, source: e@ }),
        (Some(_), Ok(_), Some(path), Err(e)) => Err(Fault::Unread { path, source: e@ }),
        (Some(path), Ok(c), separate, _) => {
            let pem = match (separate, key) {
                (Some(_), Ok(k)) => combined(c@, k@),
                _ => c@,
            };
            match identified(pem) {
                Some(p) => Ok(Some(p)),
                None => Err(Fault::Invalid(identity_fault(path@, refusal()))),
            }
        },
    }
}

/// What the settings of a client come to, given what reading the files that they name came to.
/// What stands for a file that they do not name is not looked at: a key that is in the file of
/// the certificate is read from there.
pub fn configure(cfg: &TlsConfig, ca: Content, cert: Content, key: Content) -> (r: Result<ClientTls>)
    ensures
        match (wanted_roots(*cfg, ca), wanted_identity(*cfg, cert, key)) {
            (Err(f), _) => r matches Err(e) && f.is_reported(e),
            (Ok(_), Err(f)) => r matches Err(e) && f.is_reported(e),
            (Ok(d), Ok(wanted)) => r matches Ok(c) && ders(c.roots@) == d && match c.identity {
                Some(i) => wanted == Some(parts(i)),
                None => wanted is None,
            },
        },
{
    let roots: Vec<reqwest::Certificate> = match &cfg.ca_cert_file {
        Some(path) => match ca {
            Ok(pem) => match ca_certificates(path.as_str(), &pem) {
                Ok(c) => c,
                Err(e) => {
                    return Err(e);
                },
            },
            Err(e) => {
                return Err(Error::FileRead { path: path.clone(), source: e });
            },
        },
        None => Vec::new(),
    };
    assert(cfg.ca_cert_file is None ==> ders(roots@) =~= Seq::empty());
    let path = match &cfg.client_cert_file {
        Some(path) => path,
        None => {
            return Ok(ClientTls { roots, identity: None });
        },
    };
    let cert = match cert {
        Ok(c) => c,
        Err(e) => {
            return Err(Error::FileRead { path: path.clone(), source: e });
        },
    };
    let key: Option<Vec<u8>> = match separate_key_file(cfg) {
        Some(own) => match key {
            Ok(k) => Some(k),
            Err(e) => {
                return Err(Error::FileRead { path: own, source: e });
            },
        },
        None => None,
    };
    match identity(path.as_str(), cert, key) {
        Ok(i) => Ok(ClientTls { roots, identity: Some(i) }),
        Err(e) => Err(e),
    }
}

// Laws

/// Settings that name no file come to nothing: no authority is added, and no certificate shown.
pub proof fn unset_settings_add_nothing(cfg: TlsConfig, ca: Content, cert: Content, key: Content)
    requires
        cfg.ca_cert_file is None,
        cfg.client_cert_file is None,
    ensures
        wanted_roots(cfg, ca) == Ok::<Seq<Seq<u8>>, Fault>(Seq::empty()),
        wanted_identity(cfg, cert, key) == Ok::<Option<(Seq<Seq<u8>>, Seq<u8>)>, Fault>(None),
{
}

/// A key that is in the file of its certificate is read from there: naming that file for it, or
/// none, comes to the same.
pub proof fn bundled_key_needs_no_file(cfg: TlsConfig, cert: Content, key: Content, other: Content)
    requires
        cfg.client_cert_file matches Some(c) && (cfg.client_key_file matches Some(k) ==> path::same_path(
            k@,
            c@,
        )),
    ensures
        wanted_identity(cfg, cert, key) == wanted_identity(
            TlsConfig { client_key_file: None, ..cfg },
            cert,
            other,
        ),
{
}

/// A key in a file of its own comes behind the certificate, on a line of its own: whatever the
/// bytes, the certificate comes first and the key last, with a line break between them, which is
/// added only where the certificate does not end with one.
pub proof fn a_key_comes_behind_its_certificate(cert: Seq<u8>, key: Seq<u8>)
    ensures
        combined(cert, key).take(cert.len() as int) == cert,
        combined(cert, key).skip(combined(cert, key).len() - key.len()) == key,
        combined(cert, key)[combined(cert, key).len() - key.len() - 1] == 10,
        combined(cert, key).len() == cert.len() + key.len() || combined(cert, key).len()
            == cert.len() + key.len() + 1,
        combined(cert.push(10), key) == cert.push(10) + key,
        forall|b: u8| b != 10 ==> #[trigger] combined(cert.push(b), key) == cert.push(b).push(10) + key,
{
    let c = combined(cert, key);
    assert(c.take(cert.len() as int) =~= cert);
    assert(c.skip(c.len() - key.len()) =~= key);
}

/// The files that the settings name are the ones that are read: a file that cannot be read is
/// named as the one that it is, that of the certificate before that of its key.
pub proof fn unread_files_are_named(cfg: TlsConfig, ca: Content, cert: Content, key: Content)
    ensures
        cfg.ca_cert_file matches Some(p) ==> ca matches Err(e) ==> wanted_roots(cfg, ca) == Err::<
            Seq<Seq<u8>>,
            Fault,
        >(Fault::Unread { path: p@, source: e@ }),
        cfg.client_cert_file matches Some(p) ==> cert matches Err(e) ==> wanted_identity(
            cfg,
            cert,
            key,
        ) == Err::<Option<(Seq<Seq<u8>>, Seq<u8>)>, Fault>(
            Fault::Unread { path: p@, source: e@ },
        ),
        match (cfg.client_cert_file, cfg.client_key_file, cert, key) {
            (Some(p), Some(q), Ok(_), Err(e)) => !path::same_path(q@, p@) ==> wanted_identity(
                cfg,
                cert,
                key,
            ) == Err::<Option<(Seq<Seq<u8>>, Seq<u8>)>, Fault>(
                Fault::Unread { path: q@, source: e@ },
            ),
            _ => true,
        },
{
}

/// What is shown is what the certificate and the key together hold, the key where it has a file of
/// its own; what is trusted is what the file of the authorities holds. Files without it are named.
pub proof fn settings_come_to_what_the_files_hold(
    cfg: TlsConfig,
    ca: Vec<u8>,
    cert: Vec<u8>,
    key: Vec<u8>,
)
    ensures
        cfg.ca_cert_file matches Some(p) ==> match bundled(ca@) {
            Some(d) => wanted_roots(cfg, Ok(ca)) == Ok::<Seq<Seq<u8>>, Fault>(d),
            None => wanted_roots(cfg, Ok(ca)) == Err::<Seq<Seq<u8>>, Fault>(
                Fault::Invalid("ca-cert-file "@ + p@ + ": parse failed: builder error"@),
            ),
        },
        cfg.client_cert_file matches Some(p) ==> {
            let separate = cfg.client_key_file matches Some(q) && !path::same_path(q@, p@);
            let pem = if separate {
                combined(cert@, key@)
            } else {
                cert@
            };
            match identified(pem) {
                Some(i) => wanted_identity(cfg, Ok(cert), Ok(key)) == Ok::<
                    Option<(Seq<Seq<u8>>, Seq<u8>)>,
                    Fault,
                >(Some(i)),
                None => wanted_identity(cfg, Ok(cert), Ok(key)) == Err::<
                    Option<(Seq<Seq<u8>>, Seq<u8>)>,
                    Fault,
                >(
                    Fault::Invalid(
                        "client-cert-file "@ + p@
                            + ": identity build failed (key missing or invalid?): builder error"@,
                    ),
                ),
            }
        },
{
    reveal_strlit(": parse failed: ");
    reveal_strlit(": parse failed: builder error");
    reveal_strlit("builder error");
    reveal_strlit(": identity build failed (key missing or invalid?): ");
    reveal_strlit(": identity build failed (key missing or invalid?): builder error");
    assert(": parse failed: builder error"@ =~= ": parse failed: "@ + "builder error"@);
    assert(": identity build failed (key missing or invalid?): builder error"@
        =~= ": identity build failed (key missing or invalid?): "@ + "builder error"@);
    match cfg.ca_cert_file {
        Some(p) => {
            assert("ca-cert-file "@ + p@ + ": parse failed: builder error"@ =~= "ca-cert-file "@
                + p@ + ": parse failed: "@ + "builder error"@);
        },
        None => {},
    }
    match cfg.client_cert_file {
        Some(p) => {
            assert("client-cert-file "@ + p@
                + ": identity build failed (key missing or invalid?): builder error"@
                =~= "client-cert-file "@ + p@
                + ": identity build failed (key missing or invalid?): "@ + "builder error"@);
        },
        None => {},
    }
}

} // verus!
