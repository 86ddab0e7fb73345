//! The verifier-side service: the four RPC operations over the store and
//! the active configuration.  Each operation validates its inputs in order,
//! maps each failure to a status, and otherwise acts on the tables; the
//! contracts state the outcome and the new table contents for every input.

use vstd::prelude::*;
use crate::digits::{Scalar, Element, is_dec_string, dec_val, canon_of, is_canonical};
use crate::discrete_logarithm::{DiscreteLogarithmVerifier, dl_verification_value};
use crate::elliptic_curve::{
    EllipticCurveVerifier,
    ec_order,
    ec_random_scalar,
    ristretto_decodes,
    ristretto_scale,
    ristretto_sub,
};
use crate::arith::random_u32;
use crate::config::Configuration;
use crate::store::{MemoryStore, User, Challenge, Session, UserV, ChallengeV, SessionV};
use crate::wire::{
    Code,
    Status,
    GetConfigurationRequest,
    RegisterRequest,
    RegisterResponse,
    AuthenticationChallengeRequest,
    AuthenticationChallengeResponse,
    AuthenticationAnswerRequest,
    AuthenticationAnswerResponse,
};

verus! {

/// What `Uuid::parse_str` followed by the hyphenated rendering gives: the
/// canonical form of an identifier the uuid crate accepts, or nothing.
pub uninterp spec fn uuid_canonical(s: Seq<char>) -> Option<Seq<char>>;

/// Relies on `Uuid::new_v4` and its `Display` rendering: a fresh identifier
/// in hyphenated form, which parses back to itself and renders the same.
#[verifier::external_body]
fn new_uuid() -> (r: String)
    ensures
        uuid_canonical(r@) == Some(r@),
{
    uuid::Uuid::new_v4().to_string()
}

/// Relies on `Uuid::parse_str` and the hyphenated rendering: succeeds on
/// exactly the strings the uuid crate parses, giving the canonical form.
#[verifier::external_body]
fn parse_uuid(s: &str) -> (r: Option<String>)
    ensures
        (r is Some) == (uuid_canonical(s@) is Some),
        r matches Some(v) ==> uuid_canonical(s@) == Some(v@),
{
    match uuid::Uuid::parse_str(s) {
        Ok(u) => Some(u.to_string()),
        Err(_) => None,
    }
}

/// A failed operation with the given code and message.
pub open spec fn failed_with<T>(r: Result<T, Status>, code: Code, message: Seq<char>) -> bool {
    r matches Err(e) && e.code == code && e.message@ == message
}

/// Whether the verification identity holds for the stored user and
/// challenge against the response digits `s`: the flavor's recomputation of
/// the commitment pair equals the stored pair.  Nothing (instead of a
/// truth value) when the elliptic-curve flavor cannot read the stored
/// values as group values; the discrete-logarithm flavor reads any number.
pub open spec fn verification_outcome(
    config: Configuration,
    user: UserV,
    ch: ChallengeV,
    s: Seq<char>,
) -> Option<bool> {
    match config {
        Configuration::DiscreteLogarithm(cfg) => Some(
            dl_verification_value(
                cfg.g.value(),
                dec_val(user.y1),
                dec_val(ch.c),
                dec_val(s),
                cfg.p.value(),
            ) == dec_val(ch.r1) && dl_verification_value(
                cfg.h.value(),
                dec_val(user.y2),
                dec_val(ch.c),
                dec_val(s),
                cfg.p.value(),
            ) == dec_val(ch.r2),
        ),
        Configuration::EllipticCurve(cfg) => if ristretto_decodes(dec_val(user.y1))
            && ristretto_decodes(dec_val(user.y2)) && 0 <= dec_val(ch.c) < ec_order() && 0
            <= dec_val(s) < ec_order() {
            Some(
                ristretto_sub(
                    ristretto_scale(cfg.g.value(), dec_val(s)),
                    ristretto_scale(dec_val(user.y1), dec_val(ch.c)),
                ) == dec_val(ch.r1) && ristretto_sub(
                    ristretto_scale(cfg.h.value(), dec_val(s)),
                    ristretto_scale(dec_val(user.y2), dec_val(ch.c)),
                ) == dec_val(ch.r2),
            )
        } else {
            None
        },
    }
}

/// Completeness of a login at the service level, for the
/// discrete-logarithm flavor: when the stored user holds the registration
/// of a secret `x`, the stored challenge holds an honest commitment to a
/// nonce `k`, and the response is `s = (k - c*x) mod q`, the verification
/// outcome is a match, whatever `x`, `k` and the challenge `c` were.
pub proof fn lemma_dl_login_succeeds(
    cfg: crate::discrete_logarithm::DiscreteLogarithmConfiguration,
    user: UserV,
    ch: ChallengeV,
    s: Seq<char>,
    x: int,
    k: int,
)
    requires
        cfg.wf(),
        x >= 0,
        k >= 0,
        dec_val(ch.c) >= 0,
        dec_val(user.y1) == crate::arith::pow_mod(cfg.g.value(), x, cfg.p.value()),
        dec_val(user.y2) == crate::arith::pow_mod(cfg.h.value(), x, cfg.p.value()),
        dec_val(ch.r1) == crate::arith::pow_mod(cfg.g.value(), k, cfg.p.value()),
        dec_val(ch.r2) == crate::arith::pow_mod(cfg.h.value(), k, cfg.p.value()),
        dec_val(s) == (k - dec_val(ch.c) * x) % cfg.q.value(),
    ensures
        verification_outcome(Configuration::DiscreteLogarithm(cfg), user, ch, s) == Some(true),
{
    crate::discrete_logarithm::lemma_dl_protocol_complete(cfg, x, k, dec_val(ch.c));
}

/// Service for the authentication protocol.
pub struct Service {
    /// The active flavor configuration.
    pub configuration: Configuration,
    /// The user, challenge and session tables.
    pub store: MemoryStore,
}

impl Service {
    /// A usable service carries a valid configuration.
    pub open spec fn wf(&self) -> bool {
        self.configuration.wf()
    }

    /// Creates a new service with the given configuration and an empty
    /// store with the default time-to-live bounds.
    pub fn new(configuration: Configuration) -> (r: Self)
        requires
            configuration.wf(),
        ensures
            r.configuration == configuration,
            r.wf(),
            r.store.users@.len() == 0,
            r.store.challenges@.len() == 0,
            r.store.sessions@.len() == 0,
            r.store.challenges_ttl == 300,
            r.store.sessions_ttl == 3600,
    {
        Service { configuration, store: MemoryStore::default() }
    }

    /// Returns the active flavor configuration unchanged.
    pub fn get_configuration(&self, _request: GetConfigurationRequest) -> (r: &Configuration)
        ensures
            r == &self.configuration,
    {
        &self.configuration
    }

    /// Registers a new user under its public pair `(y1, y2)`.
    /// The inputs are checked in order: an empty user, then a non-numeric
    /// `y1`, then a non-numeric `y2`, are invalid arguments; a name already
    /// registered is a conflict.  Otherwise the pair is stored under the
    /// name and nothing else changes.
    pub fn register(&mut self, request: RegisterRequest) -> (r: Result<RegisterResponse, Status>)
        ensures
            old(self).configuration == final (self).configuration,
            r is Err ==> final (self).store == old(self).store,
            ({
                let bad_user = request.user@.len() == 0;
                let bad_y1 = !is_dec_string(request.y1@);
                let bad_y2 = !is_dec_string(request.y2@);
                let taken = old(self).store.spec_user(request.user@) is Some;
                &&& bad_user ==> failed_with(r, Code::InvalidArgument, "Invalid user argument"@)
                &&& !bad_user && bad_y1 ==> failed_with(
                    r,
                    Code::InvalidArgument,
                    "Invalid y1 argument"@,
                )
                &&& !bad_user && !bad_y1 && bad_y2 ==> failed_with(
                    r,
                    Code::InvalidArgument,
                    "Invalid y2 argument"@,
                )
                &&& !bad_user && request.y1@.len() == 0 ==> failed_with(
                    r,
                    Code::InvalidArgument,
                    "Invalid y1 argument"@,
                )
                &&& !bad_user && !bad_y1 && request.y2@.len() == 0 ==> failed_with(
                    r,
                    Code::InvalidArgument,
                    "Invalid y2 argument"@,
                )
                &&& !bad_user && !bad_y1 && !bad_y2 && taken ==> failed_with(
                    r,
                    Code::AlreadyExists,
                    "User already registered"@,
                )
                &&& !bad_user && !bad_y1 && !bad_y2 && !taken ==> {
                    &&& r is Ok
                    &&& final (self).store.spec_user(request.user@) == Some(
                        UserV { y1: canon_of(request.y1@), y2: canon_of(request.y2@) },
                    )
                    &&& forall|n: Seq<char>|
                        n != request.user@ ==> final (self).store.spec_user(n) == old(
                            self,
                        ).store.spec_user(n)
                    &&& final (self).store.challenges@ == old(self).store.challenges@
                    &&& final (self).store.sessions@ == old(self).store.sessions@
                    &&& final (self).store.challenges_ttl == old(self).store.challenges_ttl
                    &&& final (self).store.sessions_ttl == old(self).store.sessions_ttl
                }
            }),
    {
        if request.user.as_str().is_empty() {
            return Err(Status::with_code(Code::InvalidArgument, "Invalid user argument"));
        }
        let y1 = match Element::parse(request.y1.as_str()) {
            Ok(v) => v,
            Err(_) => {
                return Err(Status::with_code(Code::InvalidArgument, "Invalid y1 argument"));
            },
        };
        let y2 = match Element::parse(request.y2.as_str()) {
            Ok(v) => v,
            Err(_) => {
                return Err(Status::with_code(Code::InvalidArgument, "Invalid y2 argument"));
            },
        };
        if self.store.get_user(request.user.as_str()).is_some() {
            return Err(Status::with_code(Code::AlreadyExists, "User already registered"));
        }
        self.store.insert_user(request.user.as_str(), User { y1, y2 });
        Ok(RegisterResponse {  })
    }

    /// Opens a login attempt: stores the prover's commitment `(r1, r2)`
    /// under a fresh challenge id together with a fresh random challenge
    /// `c`, and returns both.
    /// The inputs are checked in order: an empty user, then a non-numeric
    /// `r1`, then a non-numeric `r2`, are invalid arguments; an unknown
    /// user is not found.
    pub fn create_authentication_challenge(
        &mut self,
        request: AuthenticationChallengeRequest,
        now: u64,
    ) -> (r: Result<AuthenticationChallengeResponse, Status>)
        ensures
            old(self).configuration == final (self).configuration,
            r is Err ==> final (self).store == old(self).store,
            ({
                let bad_user = request.user@.len() == 0;
                let bad_r1 = !is_dec_string(request.r1@);
                let bad_r2 = !is_dec_string(request.r2@);
                let unknown = old(self).store.spec_user(request.user@) is None;
                &&& bad_user ==> failed_with(r, Code::InvalidArgument, "Invalid user argument"@)
                &&& !bad_user && bad_r1 ==> failed_with(
                    r,
                    Code::InvalidArgument,
                    "Invalid r1 argument"@,
                )
                &&& !bad_user && !bad_r1 && bad_r2 ==> failed_with(
                    r,
                    Code::InvalidArgument,
                    "Invalid r2 argument"@,
                )
                &&& !bad_user && request.r1@.len() == 0 ==> failed_with(
                    r,
                    Code::InvalidArgument,
                    "Invalid r1 argument"@,
                )
                &&& !bad_user && !bad_r1 && request.r2@.len() == 0 ==> failed_with(
                    r,
                    Code::InvalidArgument,
                    "Invalid r2 argument"@,
                )
                &&& !bad_user && !bad_r1 && !bad_r2 && unknown ==> failed_with(
                    r,
                    Code::NotFound,
                    "User not found"@,
                )
                &&& !bad_user && !bad_r1 && !bad_r2 && !unknown ==> r is Ok
                &&& r matches Ok(resp) ==> {
                    &&& uuid_canonical(resp.auth_id@) == Some(resp.auth_id@)
                    &&& is_canonical(resp.c@)
                    &&& old(self).configuration is DiscreteLogarithm ==> dec_val(resp.c@)
                        < 0x1_0000_0000
                    &&& old(self).configuration is EllipticCurve ==> dec_val(resp.c@)
                        < crate::elliptic_curve::ec_order()
                    &&& final (self).store.spec_challenge_at(resp.auth_id@) == Some(
                        (
                            ChallengeV {
                                user: request.user@,
                                c: resp.c@,
                                r1: canon_of(request.r1@),
                                r2: canon_of(request.r2@),
                            },
                            now,
                        ),
                    )
                    &&& forall|n: Seq<char>|
                        n != resp.auth_id@ ==> final (self).store.spec_challenge_at(n) == old(
                            self,
                        ).store.spec_challenge_at(n)
                    &&& final (self).store.users@ == old(self).store.users@
                    &&& final (self).store.sessions@ == old(self).store.sessions@
                    &&& final (self).store.challenges_ttl == old(self).store.challenges_ttl
                    &&& final (self).store.sessions_ttl == old(self).store.sessions_ttl
                }
            }),
    {
        if request.user.as_str().is_empty() {
            return Err(Status::with_code(Code::InvalidArgument, "Invalid user argument"));
        }
        let r1 = match Element::parse(request.r1.as_str()) {
            Ok(v) => v,
            Err(_) => {
                return Err(Status::with_code(Code::InvalidArgument, "Invalid r1 argument"));
            },
        };
        let r2 = match Element::parse(request.r2.as_str()) {
            Ok(v) => v,
            Err(_) => {
                return Err(Status::with_code(Code::InvalidArgument, "Invalid r2 argument"));
            },
        };
        if self.store.get_user(request.user.as_str()).is_none() {
            return Err(Status::with_code(Code::NotFound, "User not found"));
        }
        let c = match &self.configuration {
            Configuration::DiscreteLogarithm(_) => Scalar::from_u32(random_u32()),
            Configuration::EllipticCurve(_) => ec_random_scalar(),
        };
        let auth_id = new_uuid();
        let c_text = c.to_string();
        self.store.insert_challenge(
            auth_id.as_str(),
            Challenge { user: request.user.clone(), c, r1, r2 },
            now,
        );
        Ok(AuthenticationChallengeResponse { auth_id, c: c_text })
    }

    /// Closes a login attempt: recomputes the committed pair from the
    /// stored public values, the stored challenge and the response `s`, and
    /// on a match returns the session for `s`, creating it if none is open.
    /// The inputs are checked in order: a non-numeric `s`, then an empty or
    /// unparsable `auth_id`, are invalid arguments; an absent or expired
    /// challenge, then an unknown user, are not found; values the flavor
    /// cannot read are internal errors; a failed identity is a failed
    /// precondition.  Replaying a successful `s` within the session's
    /// time-to-live returns the same session id and changes nothing.
    pub fn verify_authentication(&mut self, request: AuthenticationAnswerRequest, now: u64) -> (r:
        Result<AuthenticationAnswerResponse, Status>)
        requires
            old(self).wf(),
        ensures
            old(self).configuration == final (self).configuration,
            r is Err ==> final (self).store == old(self).store,
            ({
                let bad_s = !is_dec_string(request.s@);
                let empty_id = request.auth_id@.len() == 0;
                let bad_id = uuid_canonical(request.auth_id@) is None;
                &&& bad_s ==> failed_with(r, Code::InvalidArgument, "Invalid s argument"@)
                &&& request.s@.len() == 0 ==> failed_with(
                    r,
                    Code::InvalidArgument,
                    "Invalid s argument"@,
                )
                &&& !bad_s && empty_id ==> failed_with(
                    r,
                    Code::InvalidArgument,
                    "Invalid auth_id argument"@,
                )
                &&& !bad_s && !empty_id && bad_id ==> failed_with(
                    r,
                    Code::InvalidArgument,
                    "Invalid auth_id argument"@,
                )
                &&& !bad_s && !empty_id ==> (uuid_canonical(request.auth_id@) matches Some(key)
                    ==> {
                    let chal = old(self).store.spec_challenge(key, now);
                    &&& chal is None ==> failed_with(r, Code::NotFound, "Challenge not found"@)
                    &&& chal matches Some(ch) ==> {
                        let found = old(self).store.spec_user(ch.user);
                        &&& found is None ==> failed_with(r, Code::NotFound, "User not found"@)
                        &&& found matches Some(user) ==> {
                            let skey = canon_of(request.s@);
                            let outcome = verification_outcome(
                                old(self).configuration,
                                user,
                                ch,
                                skey,
                            );
                            &&& outcome is None ==> failed_with(
                                r,
                                Code::Internal,
                                "Failed to compute verification r1r2"@,
                            )
                            &&& outcome == Some(false) ==> failed_with(
                                r,
                                Code::FailedPrecondition,
                                "Verification failed"@,
                            )
                            &&& outcome == Some(true) ==> {
                                &&& r is Ok
                                &&& old(self).store.spec_session(skey, now) matches Some(sess)
                                    ==> (r matches Ok(resp) && resp.session_id@ == sess.id
                                    && final (self).store == old(self).store)
                                &&& old(self).store.spec_session(skey, now) is None ==> (
                                r matches Ok(resp) && {
                                    &&& uuid_canonical(resp.session_id@) == Some(
                                        resp.session_id@,
                                    )
                                    &&& final (self).store.spec_session_at(skey) == Some(
                                        (SessionV { id: resp.session_id@ }, now),
                                    )
                                    &&& forall|n: Seq<char>|
                                        n != skey ==> final (self).store.spec_session_at(n)
                                            == old(self).store.spec_session_at(n)
                                    &&& final (self).store.users@ == old(self).store.users@
                                    &&& final (self).store.challenges@ == old(
                                        self,
                                    ).store.challenges@
                                    &&& final (self).store.challenges_ttl == old(
                                        self,
                                    ).store.challenges_ttl
                                    &&& final (self).store.sessions_ttl == old(
                                        self,
                                    ).store.sessions_ttl
                                })
                            }
                        }
                    }
                })
            }),
    {
        let s = match Scalar::parse(request.s.as_str()) {
            Ok(v) => v,
            Err(_) => {
                return Err(Status::with_code(Code::InvalidArgument, "Invalid s argument"));
            },
        };
        if request.auth_id.as_str().is_empty() {
            return Err(Status::with_code(Code::InvalidArgument, "Invalid auth_id argument"));
        }
        let key = match parse_uuid(request.auth_id.as_str()) {
            Some(k) => k,
            None => {
                return Err(Status::with_code(Code::InvalidArgument, "Invalid auth_id argument"));
            },
        };
        let challenge = match self.store.get_challenge(key.as_str(), now) {
            Some(c) => c,
            None => {
                return Err(Status::with_code(Code::NotFound, "Challenge not found"));
            },
        };
        let user = match self.store.get_user(challenge.user.as_str()) {
            Some(u) => u,
            None => {
                return Err(Status::with_code(Code::NotFound, "User not found"));
            },
        };
        let computed = match &self.configuration {
            Configuration::DiscreteLogarithm(cfg) => {
                let verifier = DiscreteLogarithmVerifier::new(cfg.clone());
                match verifier.compute_verification_r1r2(
                    user.y1,
                    user.y2,
                    challenge.c.clone(),
                    s.clone(),
                ) {
                    Ok(pair) => pair,
                    Err(_) => {
                        return Err(
                            Status::with_code(Code::Internal, "Failed to compute verification r1r2"),
                        );
                    },
                }
            },
            Configuration::EllipticCurve(cfg) => {
                let verifier = EllipticCurveVerifier::new(cfg.clone());
                match verifier.compute_verification_r1r2(
                    user.y1,
                    user.y2,
                    challenge.c.clone(),
                    s.clone(),
                ) {
                    Ok(pair) => pair,
                    Err(_) => {
                        return Err(
                            Status::with_code(Code::Internal, "Failed to compute verification r1r2"),
                        );
                    },
                }
            },
        };
        let (r1p, r2p) = computed;
        if !r1p.same(&challenge.r1) || !r2p.same(&challenge.r2) {
            return Err(Status::with_code(Code::FailedPrecondition, "Verification failed"));
        }
        let session_key = s.to_string();
        match self.store.get_session(session_key.as_str(), now) {
            Some(session) => Ok(AuthenticationAnswerResponse { session_id: session.id }),
            None => {
                let session_id = new_uuid();
                self.store.insert_session(
                    session_key.as_str(),
                    Session { id: session_id.clone() },
                    now,
                );
                Ok(AuthenticationAnswerResponse { session_id })
            },
        }
    }
}

} // verus!
