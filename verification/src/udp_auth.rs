//! The course of one UDP authentication.
//!
//! Each step up to the last route may fail, and what has been taken by then is given back: the peer
//! is forgotten, the address lease is released, a published session is withdrawn and the routes
//! that were installed are removed again. The peer learns that it is authenticated only after it
//! was admitted and everything it needs is in place; from then on the session stays, also where
//! that answer is lost, because the peer asks again.

use crate::text::{halves, split_once};
use vstd::prelude::*;

verus! {

pub const KEY_PROOF_LEN: usize = 32;

/// The key proof of an authentication request, and what follows it; nothing where the request is
/// too short.
pub fn split_key_proof(plaintext: &[u8]) -> (parts: Option<(&[u8], &[u8])>)
    ensures
        match parts {
            Some((key_proof, rest)) => plaintext@.len() >= KEY_PROOF_LEN && key_proof@
                == plaintext@.take(KEY_PROOF_LEN as int) && rest@ == plaintext@.skip(
                KEY_PROOF_LEN as int,
            ),
            None => plaintext@.len() < KEY_PROOF_LEN,
        },
{
    if plaintext.len() < KEY_PROOF_LEN {
        return None;
    }
    let key_proof = vstd::slice::slice_subrange(plaintext, 0, KEY_PROOF_LEN);
    let rest = vstd::slice::slice_subrange(plaintext, KEY_PROOF_LEN, plaintext.len());
    assert(key_proof@ =~= plaintext@.take(KEY_PROOF_LEN as int));
    assert(rest@ =~= plaintext@.skip(KEY_PROOF_LEN as int));
    Some((key_proof, rest))
}

/// Username and password of an authentication text; the password may hold colons.
pub fn split_credentials(text: &str) -> (credentials: Option<(&str, &str)>)
    ensures
        match credentials {
            Some((username, password)) => halves(text@, ':') == Some((username@, password@)),
            None => halves(text@, ':') is None,
        },
{
    split_once(text, ':')
}

/// Where an authentication stands.
#[derive(Debug, Clone, Copy, PartialEq, Eq, Structural)]
pub enum AuthStage {
    /// The request is to be read.
    Request,
    Verifying,
    Negotiating,
    /// The peer is to be told why it is refused.
    Refusing,
    /// Older sessions of the device and the user's limit were dealt with; the fixed addresses of
    /// the user are to be looked up.
    Resolving,
    Claiming,
    Allocating,
    Registering,
    Sealing,
    Framing,
    Provisioning,
    Publishing,
    /// The session is published. So many routes are installed, of so many.
    Routing(usize, usize),
    Sending,
    Over,
}

/// What the caller reports.
#[derive(Debug, Clone, Copy, PartialEq, Eq, Structural)]
pub enum AuthReport {
    Succeeded,
    Failed,
    /// The half-open session was replaced or removed meanwhile.
    PeerGone,
    /// The session is published and brings so many routes.
    Published(usize),
}

/// What is given back when an authentication ends without success.
#[derive(Debug, Clone, Copy, PartialEq, Eq, Structural)]
pub struct Cleanup {
    /// Take the half-open session out.
    pub forget_peer: bool,
    /// Hand back the lease of the device.
    pub release_lease: bool,
    /// Hand back the leases of the devices that gave way, and remove their routes.
    pub release_evicted: bool,
    /// Take the published session out, where it is still this one.
    pub withdraw: bool,
    /// Remove so many routes again, last one first.
    pub remove_routes: usize,
}

/// What the caller does next.
#[derive(Debug, Clone, Copy, PartialEq, Eq, Structural)]
pub enum AuthStep {
    Verify,
    Negotiate,
    BuildRefusal,
    /// Send the refusal; the half-open session stays, to repeat it.
    SendRefusal,
    /// Let older sessions of the device and of the user go, then look up fixed addresses.
    Yield,
    Claim,
    /// Remove the routes of the devices that gave way, hand back their leases, and allocate.
    Allocate,
    Register,
    Seal,
    Frame,
    Provision,
    Publish,
    InstallRoute(usize),
    SendAuthOk,
    /// The AuthOK is on the wire: other traffic may follow.
    AllowTraffic,
    End(Cleanup),
}

/// Nothing but the half-open session was taken.
pub open spec fn forget_only() -> Cleanup {
    Cleanup {
        forget_peer: true,
        release_lease: false,
        release_evicted: false,
        withdraw: false,
        remove_routes: 0,
    }
}

/// The lease of the device was taken too.
pub open spec fn forget_and_release() -> Cleanup {
    Cleanup { release_lease: true, ..forget_only() }
}

/// Nothing is left to give back.
pub open spec fn nothing_taken() -> Cleanup {
    Cleanup { forget_peer: false, ..forget_only() }
}

/// Whether the lease of the device is held at a stage.
pub open spec fn holds_lease(stage: AuthStage) -> bool {
    stage is Registering || stage is Sealing || stage is Framing || stage is Provisioning || stage
        is Publishing || stage is Routing || stage is Sending
}

/// The stage after success at a stage, and the step that it asks for. Publishing ends with the
/// number of routes, so bare success there is no answer.
pub open spec fn next_stage(stage: AuthStage) -> (AuthStage, AuthStep) {
    match stage {
        AuthStage::Request => (AuthStage::Verifying, AuthStep::Verify),
        AuthStage::Verifying => (AuthStage::Negotiating, AuthStep::Negotiate),
        AuthStage::Negotiating => (AuthStage::Resolving, AuthStep::Yield),
        AuthStage::Refusing => (AuthStage::Over, AuthStep::SendRefusal),
        AuthStage::Resolving => (AuthStage::Claiming, AuthStep::Claim),
        AuthStage::Claiming => (AuthStage::Allocating, AuthStep::Allocate),
        AuthStage::Allocating => (AuthStage::Registering, AuthStep::Register),
        AuthStage::Registering => (AuthStage::Sealing, AuthStep::Seal),
        AuthStage::Sealing => (AuthStage::Framing, AuthStep::Frame),
        AuthStage::Framing => (AuthStage::Provisioning, AuthStep::Provision),
        AuthStage::Provisioning => (AuthStage::Publishing, AuthStep::Publish),
        AuthStage::Publishing => (AuthStage::Over, AuthStep::End(forget_and_release())),
        AuthStage::Routing(installed, total) => if installed < total && installed + 1 < total {
            (
                AuthStage::Routing((installed + 1) as usize, total),
                AuthStep::InstallRoute((installed + 1) as usize),
            )
        } else {
            (AuthStage::Sending, AuthStep::SendAuthOk)
        },
        AuthStage::Sending => (AuthStage::Over, AuthStep::AllowTraffic),
        AuthStage::Over => (AuthStage::Over, AuthStep::End(nothing_taken())),
    }
}

/// What is given back on failure at a stage.
pub open spec fn failure(stage: AuthStage) -> Cleanup {
    match stage {
        AuthStage::Request | AuthStage::Verifying | AuthStage::Refusing | AuthStage::Resolving =>
        forget_only(),
        AuthStage::Negotiating | AuthStage::Sending | AuthStage::Over => nothing_taken(),
        AuthStage::Claiming => Cleanup { release_evicted: true, ..forget_and_release() },
        AuthStage::Routing(installed, _) => Cleanup {
            withdraw: true,
            remove_routes: installed,
            ..forget_and_release()
        },
        _ => forget_and_release(),
    }
}

/// What is given back when the half-open session is found gone: it need not be forgotten. Until
/// an address is allocated nothing else is undone.
pub open spec fn abandonment(stage: AuthStage) -> Cleanup {
    if holds_lease(stage) {
        Cleanup { forget_peer: false, ..failure(stage) }
    } else {
        nothing_taken()
    }
}

/// The stage after a report, and what to do. Once the AuthOK was handed to the socket the session
/// is up, whatever became of the datagrams: a peer that misses it repeats its request.
pub open spec fn auth_step(stage: AuthStage, report: AuthReport) -> (AuthStage, AuthStep) {
    if stage is Sending {
        (AuthStage::Over, AuthStep::AllowTraffic)
    } else {
        match report {
            AuthReport::Succeeded => next_stage(stage),
            AuthReport::Failed => if stage is Negotiating {
                (AuthStage::Refusing, AuthStep::BuildRefusal)
            } else {
                (AuthStage::Over, AuthStep::End(failure(stage)))
            },
            AuthReport::PeerGone => (AuthStage::Over, AuthStep::End(abandonment(stage))),
            AuthReport::Published(routes) => if stage is Publishing {
                if routes > 0 {
                    (AuthStage::Routing(0, routes), AuthStep::InstallRoute(0))
                } else {
                    (AuthStage::Sending, AuthStep::SendAuthOk)
                }
            } else {
                (AuthStage::Over, AuthStep::End(failure(stage)))
            },
        }
    }
}

fn cleanup(forget_peer: bool, release_lease: bool) -> (cleanup: Cleanup)
    ensures
        cleanup == (Cleanup {
            forget_peer,
            release_lease,
            release_evicted: false,
            withdraw: false,
            remove_routes: 0,
        }),
{
    Cleanup { forget_peer, release_lease, release_evicted: false, withdraw: false, remove_routes: 0 }
}

/// One authentication on its way.
#[derive(Debug)]
pub struct UdpAuthentication {
    stage: AuthStage,
}

impl View for UdpAuthentication {
    type V = AuthStage;

    closed spec fn view(&self) -> AuthStage {
        self.stage
    }
}

impl UdpAuthentication {
    pub fn start() -> (auth: UdpAuthentication)
        ensures
            auth@ == AuthStage::Request,
    {
        UdpAuthentication { stage: AuthStage::Request }
    }

    /// Takes a report and says what to do next.
    pub fn advance(&mut self, report: AuthReport) -> (step: AuthStep)
        ensures
            (final(self)@, step) == auth_step(old(self)@, report),
    {
        if self.stage == AuthStage::Sending {
            self.stage = AuthStage::Over;
            return AuthStep::AllowTraffic;
        }
        let (stage, step) = match report {
            AuthReport::Succeeded => Self::after_success(self.stage),
            AuthReport::Failed => {
                if self.stage == AuthStage::Negotiating {
                    (AuthStage::Refusing, AuthStep::BuildRefusal)
                } else {
                    (AuthStage::Over, AuthStep::End(Self::after_failure(self.stage)))
                }
            },
            AuthReport::PeerGone => (
                AuthStage::Over,
                AuthStep::End(Self::after_abandonment(self.stage)),
            ),
            AuthReport::Published(routes) => {
                if self.stage != AuthStage::Publishing {
                    (AuthStage::Over, AuthStep::End(Self::after_failure(self.stage)))
                } else if routes > 0 {
                    (AuthStage::Routing(0, routes), AuthStep::InstallRoute(0))
                } else {
                    (AuthStage::Sending, AuthStep::SendAuthOk)
                }
            },
        };
        self.stage = stage;
        step
    }

    fn after_success(stage: AuthStage) -> (next: (AuthStage, AuthStep))
        ensures
            next == next_stage(stage),
    {
        match stage {
            AuthStage::Request => (AuthStage::Verifying, AuthStep::Verify),
            AuthStage::Verifying => (AuthStage::Negotiating, AuthStep::Negotiate),
            AuthStage::Negotiating => (AuthStage::Resolving, AuthStep::Yield),
            AuthStage::Refusing => (AuthStage::Over, AuthStep::SendRefusal),
            AuthStage::Resolving => (AuthStage::Claiming, AuthStep::Claim),
            AuthStage::Claiming => (AuthStage::Allocating, AuthStep::Allocate),
            AuthStage::Allocating => (AuthStage::Registering, AuthStep::Register),
            AuthStage::Registering => (AuthStage::Sealing, AuthStep::Seal),
            AuthStage::Sealing => (AuthStage::Framing, AuthStep::Frame),
            AuthStage::Framing => (AuthStage::Provisioning, AuthStep::Provision),
            AuthStage::Provisioning => (AuthStage::Publishing, AuthStep::Publish),
            AuthStage::Publishing => (AuthStage::Over, AuthStep::End(cleanup(true, true))),
            AuthStage::Routing(installed, total) => {
                if installed < total && total - installed > 1 {
                    (
                        AuthStage::Routing(installed + 1, total),
                        AuthStep::InstallRoute(installed + 1),
                    )
                } else {
                    (AuthStage::Sending, AuthStep::SendAuthOk)
                }
            },
            AuthStage::Sending => (AuthStage::Over, AuthStep::AllowTraffic),
            AuthStage::Over => (AuthStage::Over, AuthStep::End(cleanup(false, false))),
        }
    }

    fn after_abandonment(stage: AuthStage) -> (given_back: Cleanup)
        ensures
            given_back == abandonment(stage),
    {
        match stage {
            AuthStage::Registering | AuthStage::Sealing | AuthStage::Framing
            | AuthStage::Provisioning | AuthStage::Publishing | AuthStage::Routing(_, _)
            | AuthStage::Sending => {
                let mut given_back = Self::after_failure(stage);
                given_back.forget_peer = false;
                given_back
            },
            _ => cleanup(false, false),
        }
    }

    fn after_failure(stage: AuthStage) -> (given_back: Cleanup)
        ensures
            given_back == failure(stage),
    {
        match stage {
            AuthStage::Request => cleanup(true, false),
            AuthStage::Verifying => cleanup(true, false),
            AuthStage::Refusing => cleanup(true, false),
            AuthStage::Resolving => cleanup(true, false),
            AuthStage::Negotiating => cleanup(false, false),
            AuthStage::Sending => cleanup(false, false),
            AuthStage::Over => cleanup(false, false),
            AuthStage::Claiming => {
                let mut given_back = cleanup(true, true);
                given_back.release_evicted = true;
                given_back
            },
            AuthStage::Routing(installed, _) => {
                let mut given_back = cleanup(true, true);
                given_back.withdraw = true;
                given_back.remove_routes = installed;
                given_back
            },
            _ => cleanup(true, true),
        }
    }
}

/// A peer is told that it is authenticated only at the end: after it was verified, negotiated,
/// admitted, given an address, published, and all its routes were installed. Other traffic is
/// allowed only after that, and whatever is reported of the answer, the session stays.
pub proof fn law_auth_ok_comes_last(stage: AuthStage, report: AuthReport)
    ensures
        auth_step(stage, report).1 is SendAuthOk ==> auth_step(stage, report).0 is Sending && (
        stage == AuthStage::Publishing && report == AuthReport::Published(0) || stage is Routing
            && report is Succeeded && (stage matches AuthStage::Routing(installed, total)
            && installed + 1 >= total)),
        auth_step(stage, report).1 is AllowTraffic <==> stage is Sending,
        auth_step(stage, report).0 is Sending ==> holds_lease(stage),
{
}

/// Whenever an authentication that holds the lease of its device ends, it gives the lease back;
/// where the session is published by then it is withdrawn, and every route that was installed is
/// removed again. The half-open session is forgotten unless it is gone already.
pub proof fn law_failure_gives_everything_back(stage: AuthStage, report: AuthReport)
    requires
        holds_lease(stage),
        auth_step(stage, report).1 is End,
    ensures
        ({
            let (after, step) = auth_step(stage, report);
            &&& after is Over
            &&& step matches AuthStep::End(given_back) && {
                &&& given_back.release_lease
                &&& given_back.forget_peer == !(report is PeerGone)
                &&& given_back.withdraw == stage is Routing
                &&& given_back.remove_routes == match stage {
                    AuthStage::Routing(installed, _) => installed,
                    _ => 0,
                }
            }
        }),
{
}

/// An authentication that succeeds step by step is carried through: from reading the request over
/// verifying, negotiating, yielding, claiming, allocating, registering, sealing, framing and
/// provisioning to publishing the session.
pub proof fn law_success_is_carried_through()
    ensures
        ({
            let ok = AuthReport::Succeeded;
            let (verifying, verify) = auth_step(AuthStage::Request, ok);
            let (negotiating, negotiate) = auth_step(verifying, ok);
            let (resolving, give_way) = auth_step(negotiating, ok);
            let (claiming, claim) = auth_step(resolving, ok);
            let (allocating, allocate) = auth_step(claiming, ok);
            let (registering, register) = auth_step(allocating, ok);
            let (sealing, seal) = auth_step(registering, ok);
            let (framing, frame) = auth_step(sealing, ok);
            let (provisioning, provision) = auth_step(framing, ok);
            let (publishing, publish) = auth_step(provisioning, ok);
            &&& verify is Verify && negotiate is Negotiate && give_way is Yield
            &&& claim is Claim && allocate is Allocate && register is Register
            &&& seal is Seal && frame is Frame && provision is Provision
            &&& publish is Publish && publishing is Publishing
            &&& !holds_lease(claiming) && !holds_lease(allocating) && holds_lease(registering)
        }),
{
}

/// A published session gets its routes one after the other, then its AuthOK, and is open to traffic
/// once that was handed to the socket, whatever became of it.
pub proof fn law_published_sessions_are_opened(
    routes: usize,
    installed: usize,
    report: AuthReport,
)
    requires
        installed < routes,
    ensures
        auth_step(AuthStage::Publishing, AuthReport::Published(0)) == (
            AuthStage::Sending,
            AuthStep::SendAuthOk,
        ),
        auth_step(AuthStage::Publishing, AuthReport::Published(routes)) == (
            AuthStage::Routing(0, routes),
            AuthStep::InstallRoute(0),
        ),
        ({
            let next = auth_step(AuthStage::Routing(installed, routes), AuthReport::Succeeded);
            if installed + 1 < routes {
                next.0 == AuthStage::Routing((installed + 1) as usize, routes) && next.1
                    == AuthStep::InstallRoute((installed + 1) as usize)
            } else {
                next.0 is Sending && next.1 is SendAuthOk
            }
        }),
        auth_step(AuthStage::Sending, report) == (AuthStage::Over, AuthStep::AllowTraffic),
{
}

/// A client whose wishes cannot be met is told so and keeps its half-open session, so that it can
/// ask again; every other failure before an address was taken forgets the peer, and where others had
/// given way for it already, hands back their leases.
pub proof fn law_early_failures(stage: AuthStage, given_back: Cleanup)
    ensures
        auth_step(AuthStage::Negotiating, AuthReport::Failed) == (
            AuthStage::Refusing,
            AuthStep::BuildRefusal,
        ),
        auth_step(AuthStage::Refusing, AuthReport::Succeeded) == (
            AuthStage::Over,
            AuthStep::SendRefusal,
        ),
        (stage is Request || stage is Verifying || stage is Refusing || stage is Resolving)
            && auth_step(stage, AuthReport::Failed).1 == AuthStep::End(given_back)
            ==> given_back.forget_peer && !given_back.release_lease && !given_back.release_evicted
            && !given_back.withdraw && given_back.remove_routes == 0,
        (stage is Request || stage is Verifying || stage is Refusing || stage is Resolving || stage
            is Claiming || stage is Allocating) ==> auth_step(stage, AuthReport::Failed).1 is End,
        stage is Claiming && auth_step(stage, AuthReport::Failed).1 == AuthStep::End(given_back)
            ==> given_back.forget_peer && given_back.release_lease && given_back.release_evicted
            && !given_back.withdraw && given_back.remove_routes == 0,
        stage is Allocating && auth_step(stage, AuthReport::Failed).1 == AuthStep::End(given_back)
            ==> given_back.forget_peer && given_back.release_lease && !given_back.release_evicted
            && !given_back.withdraw && given_back.remove_routes == 0,
        !holds_lease(stage) && auth_step(stage, AuthReport::PeerGone).1 == AuthStep::End(given_back)
            ==> !given_back.forget_peer && !given_back.release_lease && !given_back.release_evicted
            && !given_back.withdraw && given_back.remove_routes == 0,
{
}

/// A request opens with 32 bytes of proof, and what follows is the rest: put together again they
/// are the request. A shorter one is none.
pub proof fn law_requests_open_with_their_proof(
    plaintext: &[u8],
    parts: Option<(&[u8], &[u8])>,
)
    requires
        call_ensures(split_key_proof, (plaintext,), parts),
    ensures
        parts is Some <==> plaintext@.len() >= 32,
        parts is Some ==> parts->Some_0.0@.len() == 32 && parts->Some_0.0@ + parts->Some_0.1@
            == plaintext@,
{
    if parts is Some {
        assert(parts->Some_0.0@ + parts->Some_0.1@ =~= plaintext@);
    }
}

/// Credentials are split at their first colon, so that a password may have more of them.
pub proof fn law_credentials_are_split_at_the_first_colon(
    text: &str,
    username: Seq<char>,
    password: Seq<char>,
    credentials: Option<(&str, &str)>,
)
    requires
        call_ensures(split_credentials, (text,), credentials),
        forall|i: int| 0 <= i < username.len() ==> #[trigger] username[i] != ':',
    ensures
        text@ == username.push(':') + password ==> credentials is Some && credentials->Some_0.0@
            == username && credentials->Some_0.1@ == password,
        text@ == username ==> credentials is None,
{
    crate::text::law_texts_are_cut_at_the_first_character(username, ':', password);
}

} // verus!
