//! The tokens by which runs are cancelled.

use tokio_util::sync::CancellationToken;
use vstd::prelude::*;

verus! {

/// `tokio_util::sync::CancellationToken`, of whose state nothing is known.
#[verifier::external_type_specification]
#[verifier::external_body]
pub struct ExCancellationToken(CancellationToken);

/// A token that has been cancelled. There is no way to get one but to cancel the
/// token, which is never taken back.
pub struct CancelledToken {
    inner: CancellationToken,
}

impl CancelledToken {
    /// The token that has been cancelled.
    pub closed spec fn token(&self) -> CancellationToken {
        self.inner
    }
}

/// What a token answered when it was asked whether it has been cancelled. There
/// is no way to get one but to ask the token.
pub struct TokenAnswer {
    inner: CancellationToken,
    cancelled: bool,
}

impl TokenAnswer {
    /// The token that was asked.
    pub closed spec fn token(&self) -> CancellationToken {
        self.inner
    }

    /// What it answered.
    pub closed spec fn said_cancelled(&self) -> bool {
        self.cancelled
    }

    /// Whether the token answered that it has been cancelled.
    pub fn is_cancelled(&self) -> (cancelled: bool)
        ensures
            cancelled == self.said_cancelled(),
    {
        self.cancelled
    }
}

/// A token that was made anew. There is no way to get one but to make a token.
pub struct FreshToken {
    inner: CancellationToken,
}

impl FreshToken {
    /// The token that was made.
    pub closed spec fn token(&self) -> CancellationToken {
        self.inner
    }

    /// The token, for one more holder.
    pub fn share(&self) -> (token: CancellationToken)
        ensures
            token == self.token(),
    {
        token_clone(&self.inner)
    }
}

/// `tokio_util::sync::CancellationToken::new`: makes a token of its own on every
/// call, which is another than the one that is `there`. That it has not been
/// cancelled is not part of its value, and is not claimed.
#[verifier::external_body]
pub(crate) fn token_new(there: &Option<CancellationToken>) -> (fresh: FreshToken)
    ensures
        *there != Some(fresh.token()),
{
    FreshToken { inner: CancellationToken::new() }
}

/// `tokio_util::sync::CancellationToken::clone`: the clone is the same token,
/// which is cancelled whenever the other is.
#[verifier::external_body]
pub(crate) fn token_clone(token: &CancellationToken) -> (r: CancellationToken)
    ensures
        r == *token,
{
    token.clone()
}

/// `tokio_util::sync::CancellationToken::is_cancelled`: hands back the token with
/// what it answered. Anyone who holds the token may cancel it at any time, so
/// that nothing is claimed of the answer but which token gave it.
#[verifier::external_body]
pub(crate) fn token_ask(token: CancellationToken) -> (answer: TokenAnswer)
    ensures
        answer.token() == token,
{
    let cancelled = token.is_cancelled();
    TokenAnswer { inner: token, cancelled }
}

/// `tokio_util::sync::CancellationToken::cancel`: cancels the token for everyone
/// who holds it, and hands it back as one that has been cancelled. That it is
/// cancelled is not part of its value, so that the claim is only which token it
/// was.
#[verifier::external_body]
pub(crate) fn token_cancel(token: CancellationToken) -> (cancelled: CancelledToken)
    ensures
        cancelled.token() == token,
{
    token.cancel();
    CancelledToken { inner: token }
}

/// An answer is what the token said, of the token that was asked; the tokens that
/// were made and cancelled are themselves.
proof fn law_tokens_are_seen_as_they_are(
    answer: TokenAnswer,
    fresh: FreshToken,
    cancelled: CancelledToken,
)
    ensures
        answer.said_cancelled() == answer.cancelled,
        answer.token() == answer.inner,
        fresh.token() == fresh.inner,
        cancelled.token() == cancelled.inner,
{
}

} // verus!
