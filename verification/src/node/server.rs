//! Connections: who they are, and what they may do.
use vstd::prelude::*;
use crate::protocol::message;
use crate::protocol::message::RksMessage;
use crate::protocol::node::Node;
use crate::text::str_eq;
use crate::vault::{CertRole, IssueCertificateRequest};

verus! {

/// A state of a connection. Only this module has such states.
pub trait Sealed {
    /// Whether a connection in the state may register a node or make requests.
    fn trusted() -> (r: bool)
        ensures
            r == Self::is_trusted(),
    ;

    /// Whether a connection in the state may register a node or make requests.
    spec fn is_trusted() -> bool;
}

/// A connection that has shown no certificate: it may only ask for one.
pub struct Unauthenticated;

/// A connection that has shown a certificate, or needs none.
pub struct Verified;

impl Sealed for Unauthenticated {
    open spec fn is_trusted() -> bool {
        false
    }

    fn trusted() -> (r: bool) {
        false
    }
}

impl Sealed for Verified {
    open spec fn is_trusted() -> bool {
        true
    }

    fn trusted() -> (r: bool) {
        true
    }
}

/// Whether a connection is verified: it shows a certificate, or none is needed.
pub fn is_verified(tls_enabled: bool, has_identity: bool) -> (r: bool)
    ensures
        r == (tls_enabled ==> has_identity),
{
    !tls_enabled || has_identity
}

/// What a verified connection is for.
#[derive(Debug)]
pub enum Client {
    /// A worker, which registers.
    Worker(Node),
    User,
    /// Neither: the message is refused.
    Unknown,
}

/// What a verified connection is for, by its first message.
pub fn classify_connection(msg: RksMessage) -> (r: Client)
    ensures
        r == match msg {
            RksMessage::RegisterNode(node) => Client::Worker(node),
            RksMessage::UserRequest(_) => Client::User,
            _ => Client::Unknown,
        },
{
    match msg {
        RksMessage::RegisterNode(node) => Client::Worker(node),
        RksMessage::UserRequest(_) => Client::User,
        _ => Client::Unknown,
    }
}

/// What is done about the first message of a connection without a certificate.
#[derive(Debug)]
pub enum Admission {
    /// Issue a certificate of the role as it is asked for, and send it.
    Issue(CertRole, IssueCertificateRequest),
    Refuse(RksMessage),
    /// The message is not a request for a certificate.
    Unexpected,
}

/// What is done about the first message of a connection without a certificate: one is issued
/// only for the join token.
pub fn sign_request(msg: RksMessage, join_token: &str) -> (r: Admission)
    ensures
        match msg {
            RksMessage::CertificateSign { req, token } => if token@ == join_token@ {
                r == Admission::Issue(CertRole::Rkl, req)
            } else {
                r matches Admission::Refuse(m) && message::reports(m, "Invalid join token"@)
            },
            _ => r is Unexpected,
        },
{
    match msg {
        RksMessage::CertificateSign { req, token } => {
            if str_eq(token.as_str(), join_token) {
                Admission::Issue(CertRole::Rkl, req)
            } else {
                Admission::Refuse(RksMessage::Error("Invalid join token".to_owned()))
            }
        },
        _ => Admission::Unexpected,
    }
}

} // verus!
