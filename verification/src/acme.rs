//! The challenges of certificate issuance that wait to be answered.
//!
//! While a certificate is being issued, the authority asks for a proof under
//! a well-known path. The handler keeps the proofs that are asked for right
//! now and answers such requests.

use vstd::prelude::*;
use crate::error_response::{is_plain, not_found};
use crate::http::{Body, Request, Response};
use crate::text::{chars_of, has_prefix_at, same_text, spec_split, split, starts_with_at, texts};

verus! {

/// A challenge that waits to be answered.
#[derive(Debug, PartialEq, Eq)]
pub struct OpenChallenge {
    pub token: String,
    pub proof: String,
}

#[derive(Debug)]
pub struct AcmeHandler {
    challenges: Vec<OpenChallenge>,
}

/// The proof of the first of `pending` that has the token `token`.
pub open spec fn proof_for(pending: Seq<(Seq<char>, Seq<char>)>, token: Seq<char>) -> Option<
    Seq<char>,
>
    decreases pending.len(),
{
    if pending.len() == 0 {
        None
    } else if pending[0].0 == token {
        Some(pending[0].1)
    } else {
        proof_for(pending.drop_first(), token)
    }
}

/// `pending` without the first challenge that has the token `token`.
pub open spec fn without_token(pending: Seq<(Seq<char>, Seq<char>)>, token: Seq<char>) -> Seq<
    (Seq<char>, Seq<char>),
>
    decreases pending.len(),
{
    if pending.len() == 0 {
        pending
    } else if pending[0].0 == token {
        pending.drop_first()
    } else {
        seq![pending[0]] + without_token(pending.drop_first(), token)
    }
}

/// Whether `path` lies under the well-known path of challenges.
pub open spec fn is_challenge_path(path: Seq<char>) -> bool {
    has_prefix_at(path, 0, "/.well-known/acme-challenge/"@)
}

/// The token that a path asks about: what follows its last `/`.
pub open spec fn token_of(path: Seq<char>) -> Seq<char> {
    spec_split(path, '/').last()
}

impl AcmeHandler {
    /// The challenges that wait, as pairs of token and proof, in the order
    /// in which they were added.
    pub closed spec fn pending(&self) -> Seq<(Seq<char>, Seq<char>)> {
        self.challenges@.map_values(|c: OpenChallenge| (c.token@, c.proof@))
    }

    pub fn new() -> (h: AcmeHandler)
        ensures
            h.pending() == Seq::<(Seq<char>, Seq<char>)>::empty(),
    {
        let h = AcmeHandler { challenges: Vec::new() };
        assert(h.pending() =~= Seq::<(Seq<char>, Seq<char>)>::empty());
        h
    }

    /// The challenges that wait.
    pub fn challenges(&self) -> (c: &Vec<OpenChallenge>)
        ensures
            c@.map_values(|c: OpenChallenge| (c.token@, c.proof@)) == self.pending(),
    {
        &self.challenges
    }

    /// Adds a challenge after those that wait.
    pub fn add_challenge(&mut self, token: &str, proof: String)
        ensures
            final(self).pending() == old(self).pending().push((token@, proof@)),
    {
        let challenge = OpenChallenge { token: token.to_owned(), proof };
        self.challenges.push(challenge);
        assert(self.pending() =~= old(self).pending().push((token@, proof@)));
    }

    fn position(&self, token: &str) -> (r: Option<usize>)
        ensures
            match r {
                Some(i) => {
                    &&& i < self.pending().len()
                    &&& self.pending()[i as int].0 == token@
                    &&& proof_for(self.pending(), token@) == Some(self.pending()[i as int].1)
                    &&& without_token(self.pending(), token@) == self.pending().remove(i as int)
                },
                None => {
                    &&& proof_for(self.pending(), token@) is None
                    &&& without_token(self.pending(), token@) == self.pending()
                },
            },
    {
        let ghost pending = self.pending();
        let mut i: usize = 0;
        assert(pending.subrange(0, pending.len() as int) == pending);
        assert(pending.subrange(0, 0) + without_token(pending, token@) =~= without_token(
            pending,
            token@,
        ));
        while i < self.challenges.len()
            invariant
                pending == self.pending(),
                0 <= i <= self.challenges.len(),
                proof_for(pending, token@) == proof_for(
                    pending.subrange(i as int, pending.len() as int),
                    token@,
                ),
                without_token(pending, token@) == pending.subrange(0, i as int) + without_token(
                    pending.subrange(i as int, pending.len() as int),
                    token@,
                ),
            decreases self.challenges.len() - i,
        {
            let ghost rest = pending.subrange(i as int, pending.len() as int);
            assert(rest[0] == pending[i as int]);
            assert(rest.drop_first() == pending.subrange(i + 1, pending.len() as int));
            if same_text(self.challenges[i].token.as_str(), token) {
                assert(pending.subrange(0, i as int) + rest.drop_first() =~= pending.remove(
                    i as int,
                ));
                return Some(i);
            }
            assert(pending.subrange(0, i as int) + (seq![rest[0]] + without_token(
                rest.drop_first(),
                token@,
            )) =~= pending.subrange(0, i + 1) + without_token(rest.drop_first(), token@));
            i += 1;
        }
        assert(pending.subrange(0, pending.len() as int) + without_token(
            Seq::<(Seq<char>, Seq<char>)>::empty(),
            token@,
        ) =~= pending);
        None
    }

    /// The proof of the first challenge that waits under `token`.
    pub fn get_proof_for_challenge(&self, token: &str) -> (r: Option<String>)
        ensures
            match r {
                Some(proof) => proof_for(self.pending(), token@) == Some(proof@),
                None => proof_for(self.pending(), token@) is None,
            },
    {
        match self.position(token) {
            Some(i) => Some(self.challenges[i].proof.clone()),
            None => None,
        }
    }

    /// Takes the first challenge that waits under `token` off the list. The
    /// others stay as they stand.
    pub fn remove_challenge(&mut self, token: &str)
        ensures
            final(self).pending() == without_token(old(self).pending(), token@),
    {
        match self.position(token) {
            Some(i) => {
                self.challenges.remove(i);
                assert(self.pending() =~= old(self).pending().remove(i as int));
            },
            None => {},
        }
    }

    /// Whether `request` asks about a challenge.
    pub fn is_challenge(&self, request: &Request) -> (r: bool)
        ensures
            r == is_challenge_path(request.spec_path()),
    {
        let path = chars_of(request.path());
        let prefix = chars_of("/.well-known/acme-challenge/");
        starts_with_at(&path, 0, &prefix)
    }

    /// Whether `response` is the answer to a request for the path `path`.
    pub open spec fn answers(&self, path: Seq<char>, response: Option<Response>) -> bool {
        if is_challenge_path(path) {
            &&& response is Some
            &&& match proof_for(self.pending(), token_of(path)) {
                Some(proof) => is_plain(response->Some_0, 200, Some(proof)),
                None => is_plain(response->Some_0, 404, Some("404 - page not found"@)),
            }
        } else {
            response is None
        }
    }

    /// Answers a request that asks about a challenge: with the proof where
    /// the token waits, with `404` where it does not. Any other request is
    /// not answered.
    pub fn respond_to_challenge(&self, request: &Request) -> (r: Option<Response>)
        ensures
            self.answers(request.spec_path(), r),
    {
        if !self.is_challenge(request) {
            None
        } else {
            let pieces = split(request.path(), '/');
            proof {
                lemma_split_is_not_empty(request.spec_path(), '/');
            }
            let token = &pieces[pieces.len() - 1];
            assert(token@ == texts(pieces@).last());
            match self.get_proof_for_challenge(token.as_str()) {
                Some(proof) => Some(
                    Response {
                        status: 200,
                        headers: Vec::new(),
                        body: Body::Text(proof),
                        encodings: Vec::new(),
                    },
                ),
                None => Some(not_found()),
            }
        }
    }
}

/// A text is cut into one piece at least.
pub proof fn lemma_split_is_not_empty(s: Seq<char>, c: char)
    ensures
        spec_split(s, c).len() > 0,
    decreases s.len(),
{
    let i = crate::text::first_index_of(s, c);
    if 0 <= i < s.len() {
        lemma_split_is_not_empty(s.subrange(i + 1, s.len() as int), c);
    }
}

/// A text without the separator is one piece, and behind a separator it is the
/// last piece, whatever stands before.
pub proof fn lemma_split_last(before: Seq<char>, c: char, last: Seq<char>)
    requires
        !last.contains(c),
    ensures
        spec_split(last, c) == seq![last],
        spec_split(before + seq![c] + last, c).last() == last,
    decreases before.len(),
{
    crate::text::lemma_first_index_of(last, c);
    assert(crate::text::first_index_of(last, c) == last.len()) by {
        if crate::text::first_index_of(last, c) < last.len() {
            assert(last.contains(last[crate::text::first_index_of(last, c)]));
        }
    }
    let all = before + seq![c] + last;
    let i = crate::text::first_index_of(all, c);
    crate::text::lemma_first_index_of(all, c);
    assert(all[before.len() as int] == c);
    assert(i <= before.len());
    let rest = all.subrange(i + 1, all.len() as int);
    if i == before.len() {
        assert(rest == last);
    } else {
        let shorter = before.subrange(i + 1, before.len() as int);
        assert(rest == shorter + seq![c] + last);
        lemma_split_last(shorter, c, last);
        lemma_split_is_not_empty(rest, c);
    }
    assert(spec_split(all, c) == seq![all.subrange(0, i)] + spec_split(rest, c));
}

/// The path under which the authority asks for the proof of `token`: the
/// well-known prefix followed by the token.
pub open spec fn challenge_path(token: Seq<char>) -> Seq<char> {
    "/.well-known/acme-challenge/"@ + token
}

/// The path of a token asks about that token: for a token without `/`, the
/// well-known prefix followed by the token is a challenge path, and what it
/// asks about is the token.
pub proof fn lemma_challenge_path_asks_for_token(token: Seq<char>)
    requires
        !token.contains('/'),
    ensures
        is_challenge_path(challenge_path(token)),
        token_of(challenge_path(token)) == token,
{
    reveal_strlit("/.well-known/acme-challenge/");
    let prefix = "/.well-known/acme-challenge/"@;
    let path = challenge_path(token);
    assert(path.subrange(0, prefix.len() as int) == prefix);
    let before = prefix.subrange(0, prefix.len() - 1);
    assert(prefix == before + seq!['/']);
    assert(path == before + seq!['/'] + token);
    lemma_split_last(before, '/', token);
}

/// A challenge that is added under a token without `/` that does not wait
/// yet is served from then on under its path: the request is answered with
/// `200` and the proof as its body.
pub proof fn lemma_added_challenge_is_served(
    before: AcmeHandler,
    after: AcmeHandler,
    token: Seq<char>,
    proof: Seq<char>,
    response: Option<Response>,
)
    requires
        !token.contains('/'),
        proof_for(before.pending(), token) is None,
        after.pending() == before.pending().push((token, proof)),
        after.answers(challenge_path(token), response),
    ensures
        response is Some,
        is_plain(response->Some_0, 200, Some(proof)),
{
    lemma_challenge_path_asks_for_token(token);
    lemma_pending_token_is_served(before, after, token, proof, challenge_path(token), response);
}

/// A challenge that is added under a token that does not wait yet is served
/// from then on: a request for the well-known path of the token is answered
/// with `200` and the proof as its body.
pub proof fn lemma_pending_token_is_served(
    before: AcmeHandler,
    after: AcmeHandler,
    token: Seq<char>,
    proof: Seq<char>,
    path: Seq<char>,
    response: Option<Response>,
)
    requires
        proof_for(before.pending(), token) is None,
        after.pending() == before.pending().push((token, proof)),
        is_challenge_path(path),
        token_of(path) == token,
        after.answers(path, response),
    ensures
        response is Some,
        is_plain(response->Some_0, 200, Some(proof)),
{
    lemma_proof_for_added(before.pending(), token, proof);
}

/// The proof of a token that is added last is found unless the token waits
/// already.
proof fn lemma_proof_for_added(pending: Seq<(Seq<char>, Seq<char>)>, token: Seq<char>, proof: Seq<char>)
    requires
        proof_for(pending, token) is None,
    ensures
        proof_for(pending.push((token, proof)), token) == Some(proof),
    decreases pending.len(),
{
    let all = pending.push((token, proof));
    if pending.len() > 0 {
        assert(all[0] == pending[0]);
        assert(all.drop_first() == pending.drop_first().push((token, proof)));
        lemma_proof_for_added(pending.drop_first(), token, proof);
    } else {
        assert(all[0] == (token, proof));
    }
}

/// What the worker that talks to the authority tells the handler.
#[derive(Debug, PartialEq, Eq)]
pub enum ChallengeMessage {
    /// The authority is about to ask for `proof` under `token`.
    Chall { token: String, proof: String },
    /// The issuance has ended, well or badly.
    Result,
}

/// What the handler does after a message of the worker.
#[derive(Debug, PartialEq, Eq)]
pub enum IssuanceStep {
    /// The challenge under this token waits: wait for the next message.
    Waiting(String),
    /// The issuance has ended.
    Finished,
}

impl AcmeHandler {
    /// Takes a message of the worker. The challenge that was published for
    /// the worker before, if any, is taken off the list first, whatever the
    /// message says; a new challenge is then added to it.
    pub fn on_message(&mut self, published: Option<String>, message: ChallengeMessage) -> (step:
        IssuanceStep)
        ensures
            match message {
                ChallengeMessage::Chall { token, proof } => {
                    &&& final(self).pending() == (match published {
                        Some(t) => without_token(old(self).pending(), t@),
                        None => old(self).pending(),
                    }).push((token@, proof@))
                    &&& step is Waiting
                    &&& step->Waiting_0@ == token@
                },
                ChallengeMessage::Result => {
                    &&& final(self).pending() == (match published {
                        Some(t) => without_token(old(self).pending(), t@),
                        None => old(self).pending(),
                    })
                    &&& step is Finished
                },
            },
    {
        if let Some(token) = &published {
            self.remove_challenge(token.as_str());
        }
        match message {
            ChallengeMessage::Chall { token, proof } => {
                self.add_challenge(token.as_str(), proof);
                IssuanceStep::Waiting(token)
            },
            ChallengeMessage::Result => IssuanceStep::Finished,
        }
    }
}

/// Where an issuance stands.
#[derive(Debug, Clone, Copy, PartialEq, Eq, Structural)]
pub enum IssuanceState {
    Start,
    RequestOrder,
    NeedChallenge,
    PublishToken,
    Validating,
    FinalizeCsr,
    Download,
    Done,
    Error,
}

/// What has happened to an issuance.
#[derive(Debug, Clone, Copy, PartialEq, Eq)]
pub enum IssuanceEvent {
    /// The issuance was asked for; the certificate on file, if any, is valid
    /// for this many days more.
    Requested(Option<i64>),
    /// The authority has all the validations it asked for.
    Confirmed,
    /// The authority still waits for a validation.
    Unconfirmed,
    /// What was last asked of the worker is done.
    Succeeded,
    /// What was last asked of the worker went wrong.
    Failed,
}

/// What the worker is to do next.
#[derive(Debug, Clone, Copy, PartialEq, Eq, Structural)]
pub enum IssuanceAction {
    /// Use the certificate on file.
    Reuse,
    /// Place an order with the authority.
    NewOrder,
    /// Ask the authority whether it has all validations.
    ConfirmValidations,
    /// Hand the token and the proof of the challenge to the handler.
    PublishChallenge,
    /// Ask the authority to validate, then refresh the order.
    Validate,
    /// Send the signing request.
    Finalize,
    /// Fetch and keep the certificate.
    DownloadCertificate,
    /// Hand the certificate to the handler.
    Finish,
    /// Hand the error to the handler.
    Report,
}

/// Whether a certificate that is valid for `days_left` days more is used as
/// it is.
pub open spec fn is_reusable(days_left: Option<i64>) -> bool {
    days_left is Some && days_left->Some_0 > 0
}

/// The course of an issuance: where it goes from `state` on `event` and what
/// the worker does then. An event that the state does not wait for, and any
/// failure, ends the issuance with an error.
pub open spec fn spec_issuance_step(state: IssuanceState, event: IssuanceEvent) -> (
    IssuanceState,
    IssuanceAction,
) {
    match (state, event) {
        (IssuanceState::Start, IssuanceEvent::Requested(days_left)) => if is_reusable(days_left) {
            (IssuanceState::Done, IssuanceAction::Reuse)
        } else {
            (IssuanceState::RequestOrder, IssuanceAction::NewOrder)
        },
        (IssuanceState::RequestOrder, IssuanceEvent::Succeeded) => (
            IssuanceState::NeedChallenge,
            IssuanceAction::ConfirmValidations,
        ),
        (IssuanceState::NeedChallenge, IssuanceEvent::Confirmed) => (
            IssuanceState::FinalizeCsr,
            IssuanceAction::Finalize,
        ),
        (IssuanceState::NeedChallenge, IssuanceEvent::Unconfirmed) => (
            IssuanceState::PublishToken,
            IssuanceAction::PublishChallenge,
        ),
        (IssuanceState::PublishToken, IssuanceEvent::Succeeded) => (
            IssuanceState::Validating,
            IssuanceAction::Validate,
        ),
        (IssuanceState::Validating, IssuanceEvent::Succeeded) => (
            IssuanceState::NeedChallenge,
            IssuanceAction::ConfirmValidations,
        ),
        (IssuanceState::FinalizeCsr, IssuanceEvent::Succeeded) => (
            IssuanceState::Download,
            IssuanceAction::DownloadCertificate,
        ),
        (IssuanceState::Download, IssuanceEvent::Succeeded) => (
            IssuanceState::Done,
            IssuanceAction::Finish,
        ),
        _ => (IssuanceState::Error, IssuanceAction::Report),
    }
}

/// Takes an issuance one step on.
pub fn issuance_step(state: IssuanceState, event: IssuanceEvent) -> (next: (
    IssuanceState,
    IssuanceAction,
))
    ensures
        next == spec_issuance_step(state, event),
{
    match state {
        IssuanceState::Start => match event {
            IssuanceEvent::Requested(Some(days)) => if days > 0 {
                (IssuanceState::Done, IssuanceAction::Reuse)
            } else {
                (IssuanceState::RequestOrder, IssuanceAction::NewOrder)
            },
            IssuanceEvent::Requested(None) => (
                IssuanceState::RequestOrder,
                IssuanceAction::NewOrder,
            ),
            _ => (IssuanceState::Error, IssuanceAction::Report),
        },
        IssuanceState::RequestOrder => match event {
            IssuanceEvent::Succeeded => (
                IssuanceState::NeedChallenge,
                IssuanceAction::ConfirmValidations,
            ),
            _ => (IssuanceState::Error, IssuanceAction::Report),
        },
        IssuanceState::NeedChallenge => match event {
            IssuanceEvent::Confirmed => (IssuanceState::FinalizeCsr, IssuanceAction::Finalize),
            IssuanceEvent::Unconfirmed => (
                IssuanceState::PublishToken,
                IssuanceAction::PublishChallenge,
            ),
            _ => (IssuanceState::Error, IssuanceAction::Report),
        },
        IssuanceState::PublishToken => match event {
            IssuanceEvent::Succeeded => (IssuanceState::Validating, IssuanceAction::Validate),
            _ => (IssuanceState::Error, IssuanceAction::Report),
        },
        IssuanceState::Validating => match event {
            IssuanceEvent::Succeeded => (
                IssuanceState::NeedChallenge,
                IssuanceAction::ConfirmValidations,
            ),
            _ => (IssuanceState::Error, IssuanceAction::Report),
        },
        IssuanceState::FinalizeCsr => match event {
            IssuanceEvent::Succeeded => (
                IssuanceState::Download,
                IssuanceAction::DownloadCertificate,
            ),
            _ => (IssuanceState::Error, IssuanceAction::Report),
        },
        IssuanceState::Download => match event {
            IssuanceEvent::Succeeded => (IssuanceState::Done, IssuanceAction::Finish),
            _ => (IssuanceState::Error, IssuanceAction::Report),
        },
        _ => (IssuanceState::Error, IssuanceAction::Report),
    }
}

} // verus!
