//! What a TLS link is asked to verify.

use crate::error::Error;
use crate::options::TlsConfig;
use crate::text;
use rustls::pki_types::{CertificateDer, InvalidDnsNameError, ServerName};
use rustls::RootCertStore;
use vstd::prelude::*;
use vstd::string::*;

verus! {

/// `rustls::pki_types::InvalidDnsNameError`, which carries nothing.
#[verifier::external_type_specification]
#[verifier::external_body]
pub struct ExInvalidDnsNameError(InvalidDnsNameError);

/// The text of the server name that `ServerName::try_from` makes of `name`, or
/// `None` where it refuses it.
pub uninterp spec fn server_name_text(name: Seq<char>) -> Option<Seq<char>>;

/// `rustls::pki_types::ServerName::try_from`, with the server name it makes
/// turned back to text by its `to_str`: a DNS name or an IP address parses,
/// anything else is refused. The grammar of both is left to the function and
/// carried by the name.
#[verifier::external_body]
fn parse_server_name(name: String) -> (parsed: Result<String, InvalidDnsNameError>)
    ensures
        match parsed {
            Ok(text) => server_name_text(name@) == Some(text@),
            Err(_) => server_name_text(name@) is None,
        },
{
    let parsed = ServerName::try_from(name)?;
    Ok(parsed.to_str().into_owned())
}

/// The name that the server's certificate has to show: the configured one, else
/// the host.
pub open spec fn requested_name(tls: Option<TlsConfig>, host: Seq<char>) -> Seq<char> {
    match tls {
        Some(TlsConfig { server_name: Some(name), .. }) => name@,
        _ => host,
    }
}

/// The name that the server's certificate has to show: the configured one, else
/// the host.
pub fn choose_server_name(tls: &Option<TlsConfig>, host: &str) -> (name: String)
    ensures
        name@ == requested_name(*tls, host@),
{
    match tls {
        Some(config) => match &config.server_name {
            Some(name) => name.clone(),
            None => host.to_owned(),
        },
        None => host.to_owned(),
    }
}

/// The server name to hand to the TLS connection to `host`, once the wanted name
/// has been parsed or refused.
pub fn checked_server_name(parsed: Option<String>, host: &str) -> (name: Result<String, Error>)
    ensures
        match parsed {
            Some(text) => name matches Ok(name) && name@ == text@,
            None => name matches Err(Error::Tls(reason)) && reason@ == "invalid server name '"@
                + host@ + "'"@,
        },
{
    match parsed {
        Some(text) => Ok(text),
        None => Err(Error::Tls(text::join("invalid server name '", host, "'"))),
    }
}

/// The server name for a TLS connection to `host`: the configured one, else the
/// host, as long as it is a DNS name or an IP address.
pub fn tls_server_name(tls: &Option<TlsConfig>, host: &str) -> (name: Result<String, Error>)
    ensures
        match server_name_text(requested_name(*tls, host@)) {
            Some(text) => name matches Ok(name) && name@ == text,
            None => name matches Err(Error::Tls(reason)) && reason@ == "invalid server name '"@
                + host@ + "'"@,
        },
{
    match parse_server_name(choose_server_name(tls, host)) {
        Ok(text) => checked_server_name(Some(text), host),
        Err(_) => checked_server_name(None, host),
    }
}

/// Whether the server's certificate goes unverified: only where the options say
/// so.
pub fn skips_verification(tls: &Option<TlsConfig>) -> (skips: bool)
    ensures
        skips <==> (tls matches Some(config) && config.insecure),
{
    match tls {
        Some(config) => config.insecure,
        None => false,
    }
}

/// A trust anchor as a store keeps it: what the DER encodings of the subject and
/// of the subject's public key info hold, without tag and length, and the name
/// constraints where there are any.
pub type Anchor = (Seq<u8>, Seq<u8>, Option<Seq<u8>>);

/// `rustls::RootCertStore`, the roots that a server's certificate may chain to.
#[verifier::external_type_specification]
#[verifier::external_body]
pub struct ExRootCertStore(RootCertStore);

/// The trust anchors that a store holds, in the order in which they were added.
pub uninterp spec fn anchors(store: RootCertStore) -> Seq<Anchor>;

/// The trust anchor that `RootCertStore::add` reads out of a DER-encoded
/// certificate, or `None` where it cannot parse it.
pub uninterp spec fn anchor_of(der: Seq<u8>) -> Option<Anchor>;

/// `rustls::RootCertStore::empty`: a store that holds no anchor.
#[verifier::external_body]
fn empty_store() -> (store: RootCertStore)
    ensures
        anchors(store) == Seq::<Anchor>::empty(),
{
    RootCertStore::empty()
}

/// `rustls::RootCertStore::add`: where the certificate can be parsed, its anchor
/// goes behind those already there; where it cannot, the store stays as it was.
/// Says which of the two it was. What counts as parsable is left to the function
/// and carried by `anchor_of`.
#[verifier::external_body]
fn add_root(store: &mut RootCertStore, der: Vec<u8>) -> (added: bool)
    ensures
        added == (anchor_of(der@) is Some),
        anchors(*final(store)) == match anchor_of(der@) {
            Some(anchor) => anchors(*old(store)).push(anchor),
            None => anchors(*old(store)),
        },
{
    store.add(CertificateDer::from(der)).is_ok()
}

/// The anchors of those certificates that have one, in order.
pub open spec fn anchors_of(certs: Seq<Vec<u8>>) -> Seq<Anchor>
    decreases certs.len(),
{
    if certs.len() == 0 {
        Seq::empty()
    } else {
        let before = anchors_of(certs.drop_last());
        match anchor_of(certs.last()@) {
            Some(anchor) => before.push(anchor),
            None => before,
        }
    }
}

/// A store that trusts the given certificates. One that cannot be parsed is
/// passed over.
pub fn trust_roots(certs: Vec<Vec<u8>>) -> (store: RootCertStore)
    ensures
        anchors(store) == anchors_of(certs@),
{
    let mut store = empty_store();
    let mut i: usize = 0;
    while i < certs.len()
        invariant
            i <= certs.len(),
            anchors(store) == anchors_of(certs@.take(i as int)),
        decreases certs.len() - i,
    {
        let _ = add_root(&mut store, certs[i].clone());
        assert(certs@.take(i + 1).drop_last() == certs@.take(i as int));
        i = i + 1;
    }
    assert(certs@.take(i as int) == certs@);
    store
}

/// The configured server name is asked for, whatever it is; the host where none
/// is configured.
pub proof fn law_configured_name_comes_first(tls: TlsConfig, host: Seq<char>)
    ensures
        requested_name(None, host) == host,
        tls.server_name matches Some(name) ==> requested_name(Some(tls), host) == name@,
        tls.server_name is None ==> requested_name(Some(tls), host) == host,
{
}

/// Each certificate is trusted for itself: a list of them has the anchors of its
/// first part and then those of its second, one that parses has its anchor, and
/// one that does not has none.
pub proof fn law_certificates_are_trusted_one_by_one(
    first: Seq<Vec<u8>>,
    second: Seq<Vec<u8>>,
    cert: Vec<u8>,
)
    ensures
        anchors_of(first + second) == anchors_of(first) + anchors_of(second),
        anchor_of(cert@) matches Some(anchor) ==> anchors_of(seq![cert]) == seq![anchor],
        anchor_of(cert@) is None ==> anchors_of(seq![cert]) == Seq::<Anchor>::empty(),
        anchors_of(seq![]) == Seq::<Anchor>::empty(),
    decreases second.len(),
{
    assert(seq![cert].drop_last() =~= seq![]);
    assert(seq![cert].last() == cert);
    assert(anchors_of(seq![]) =~= Seq::<Anchor>::empty());
    if let Some(anchor) = anchor_of(cert@) {
        assert(anchors_of(seq![cert]) =~= seq![anchor]);
    }
    if second.len() == 0 {
        assert(first + second =~= first);
        assert(anchors_of(first) + anchors_of(second) =~= anchors_of(first));
    } else {
        law_certificates_are_trusted_one_by_one(first, second.drop_last(), cert);
        assert((first + second).drop_last() =~= first + second.drop_last());
        assert((first + second).last() == second.last());
        assert(anchors_of(first + second) =~= anchors_of(first) + anchors_of(second));
    }
}

} // verus!
