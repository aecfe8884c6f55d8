//! Keyboard-interactive authentication over a challenge session: the
//! challenge/response state machine, with a simple in-memory session.

use vstd::prelude::*;
use vstd::string::*;
use crate::strutil::str_eq;

verus! {

/// A challenge store that a keyboard-interactive backend works against.
pub trait AuthSession {
    fn get_challenge(&self) -> Option<String>;

    fn set_challenge(&mut self, challenge: String);
}

/// The in-memory challenge session.
#[derive(Debug)]
pub struct SimpleAuthSession {
    pub challenge: Option<String>,
}

impl AuthSession for SimpleAuthSession {
    fn get_challenge(&self) -> Option<String> {
        self.challenge.clone()
    }

    fn set_challenge(&mut self, challenge: String) {
        self.challenge = Some(challenge);
    }
}

/// The authentication context of one keyboard-interactive exchange.
#[derive(Debug)]
pub struct Authctxt {
    pub user: String,
    pub style: Option<String>,
    pub valid: bool,
    pub as_session: Option<SimpleAuthSession>,
}

impl Authctxt {
    /// A fresh, valid context for a user, with no session yet.
    pub fn new(user: String) -> (r: Authctxt)
        ensures
            r.user == user,
            r.style is None,
            r.valid,
            r.as_session is None,
    {
        Authctxt { user, style: None, valid: true, as_session: None }
    }
}

/// Prepares a context for a query round; the context is used as it stands.
pub fn bsdauth_init_ctx(authctxt: &mut Authctxt)
    ensures
        *final(authctxt) == *old(authctxt),
{
}

/// The challenge a query round presents: the session's stored challenge if
/// one exists, else a fresh placeholder.
pub open spec fn query_challenge(ctx: Authctxt) -> Seq<char> {
    match ctx.as_session {
        Some(s) => match s.challenge {
            Some(c) => c@,
            None => "new-challenge"@,
        },
        None => "new-challenge"@,
    }
}

/// Fills one keyboard-interactive query: an empty name and instruction, a
/// single non-echoed prompt carrying the challenge.
pub fn bsdauth_query(
    ctx: &mut Authctxt,
    name: &mut String,
    infotxt: &mut String,
    numprompts: &mut u32,
    prompts: &mut Vec<String>,
    echo_on: &mut Vec<u32>,
) -> (r: i32)
    ensures
        r == 0,
        *final(ctx) == *old(ctx),
        final(name)@ == Seq::<char>::empty(),
        final(infotxt)@ == Seq::<char>::empty(),
        *final(numprompts) == 1,
        final(prompts)@.len() == 1,
        final(prompts)@[0]@ == query_challenge(*old(ctx)),
        final(echo_on)@ == seq![0u32],
{
    let challenge: String = match &ctx.as_session {
        Some(session) => match &session.challenge {
            Some(c) => c.clone(),
            None => "new-challenge".to_owned(),
        },
        None => "new-challenge".to_owned(),
    };
    *name = String::new();
    *infotxt = String::new();
    *numprompts = 1;
    let mut p: Vec<String> = Vec::new();
    p.push(challenge);
    *prompts = p;
    let mut e: Vec<u32> = Vec::new();
    e.push(0);
    *echo_on = e;
    proof {
        assert(final(echo_on)@ =~= seq![0u32]);
    }
    0
}

/// Checks a response round against the stored challenge. An invalid
/// context, a missing session, or a response count other than one fails
/// without consuming the session; otherwise the session is consumed —
/// challenges are single-use — and the outcome says whether the first
/// response equals the stored challenge (an empty response vector fails).
pub fn bsdauth_respond(ctx: &mut Authctxt, numresponses: u32, responses: Vec<String>) -> (r: i32)
    ensures
        !old(ctx).valid ==> (r == -1 && *final(ctx) == *old(ctx)),
        old(ctx).valid && old(ctx).as_session is None ==> (r == -1 && *final(ctx) == *old(ctx)),
        old(ctx).valid && old(ctx).as_session is Some && numresponses != 1 ==> (r == -1
            && *final(ctx) == *old(ctx)),
        old(ctx).valid && old(ctx).as_session is Some && numresponses == 1 ==> ({
            &&& final(ctx).as_session is None
            &&& final(ctx).user == old(ctx).user
            &&& final(ctx).style == old(ctx).style
            &&& final(ctx).valid == old(ctx).valid
            &&& r == (match old(ctx).as_session.unwrap().challenge {
                Some(c) => if responses@.len() >= 1 && responses@[0]@ == c@ {
                    0int
                } else {
                    -1int
                },
                None => -1int,
            })
        }),
{
    if !ctx.valid {
        return -1;
    }
    if ctx.as_session.is_none() {
        return -1;
    }
    if numresponses != 1 {
        return -1;
    }
    let authok: bool = match &ctx.as_session {
        Some(session) => match &session.challenge {
            Some(challenge) => {
                if responses.len() >= 1 {
                    str_eq(responses[0].as_str(), challenge.as_str())
                } else {
                    false
                }
            },
            None => false,
        },
        None => false,
    };
    ctx.as_session = None;
    if authok {
        0
    } else {
        -1
    }
}

/// Clears the stored challenge, if a session exists.
pub fn bsdauth_free_ctx(ctx: &mut Authctxt)
    ensures
        old(ctx).as_session is None ==> *final(ctx) == *old(ctx),
        old(ctx).as_session is Some ==> ({
            &&& final(ctx).as_session matches Some(s) && s.challenge matches Some(c) && c@
                == Seq::<char>::empty()
            &&& final(ctx).user == old(ctx).user
            &&& final(ctx).style == old(ctx).style
            &&& final(ctx).valid == old(ctx).valid
        }),
{
    match &mut ctx.as_session {
        Some(session) => {
            let empty = "".to_owned();
            proof {
                reveal_strlit("");
                assert(empty@ =~= Seq::<char>::empty());
            }
            session.set_challenge_checked(empty);
        },
        None => {},
    }
}

impl SimpleAuthSession {
    /// Stores a challenge; the verified counterpart of the trait method.
    pub fn set_challenge_checked(&mut self, challenge: String)
        ensures
            final(self).challenge == Some(challenge),
    {
        self.challenge = Some(challenge);
    }
}

} // verus!
