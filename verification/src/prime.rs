//! The primality service: a request names a method and a number, and the answer
//! says whether the number is prime.
//!
//! A request arrives as one line of JSON. Turning the line into a
//! [`PrimeRequest`] and a [`PrimeResponse`] into a line is the caller's part;
//! what is decided here is which requests are accepted and what is answered.

use vstd::prelude::*;

verus! {

/// The one method that the service knows.
pub const METHOD: &'static str = "isPrime";

/// The text sent, before the connection is closed, in reply to a line that is
/// not an accepted request.
pub const INVALID_REQUEST: &'static str = "Invalid request";

/// Whether `n` is a prime number: at least 2, and divisible by nothing between
/// 1 and itself.
pub open spec fn is_prime(n: nat) -> bool {
    n >= 2 && forall|d: nat| 2 <= d < n ==> #[trigger] (n % d) != 0
}

/// A request as it was read from the wire.
#[derive(Clone, Debug)]
pub struct PrimeRequest {
    /// The method asked for.
    pub method: String,
    /// The number asked about, where it is a whole number from 0 to `u64::MAX`.
    /// A negative number, a fraction or a greater number is `None`: none of
    /// them is prime.
    pub number: Option<u64>,
}

/// The answer to an accepted request.
#[derive(Clone, Debug)]
pub struct PrimeResponse {
    /// Always [`METHOD`].
    pub method: String,
    /// Whether the number asked about is prime.
    pub prime: bool,
}

/// Why a request was not accepted.
#[derive(Clone, Copy, Debug, PartialEq, Eq, Structural)]
pub enum RequestError {
    /// The request names a method other than [`METHOD`].
    InvalidMethod,
}

/// What is done with one line of input.
#[derive(Clone, Debug)]
pub enum Reply {
    /// Send this response and go on reading.
    Answer(PrimeResponse),
    /// Send [`INVALID_REQUEST`] and close the connection.
    Malformed,
}

/// `primal::is_prime`, the deterministic Miller-Rabin test of the `primal`
/// crate.
///
/// Believed of that crate without proof: for every 64-bit number the test says
/// exactly whether the number is prime.
#[verifier::external_body]
fn primal_is_prime(n: u64) -> (prime: bool)
    ensures
        prime == is_prime(n as nat),
{
    primal::is_prime(n)
}

/// Whether a request is accepted: it names the known method.
pub open spec fn is_accepted(request: PrimeRequest) -> bool {
    request.method@ == METHOD@
}

/// Whether the number of a request is prime. A number that is no `u64` is not.
pub open spec fn number_is_prime(number: Option<u64>) -> bool {
    match number {
        Some(n) => is_prime(n as nat),
        None => false,
    }
}

impl PrimeRequest {
    /// Accepts the request if it names the known method, and rejects it
    /// otherwise. An accepted request is handed back unchanged.
    pub fn accept(self) -> (accepted: Result<PrimeRequest, RequestError>)
        ensures
            is_accepted(self) ==> accepted == Ok::<PrimeRequest, RequestError>(self),
            !is_accepted(self) ==> accepted == Err::<PrimeRequest, RequestError>(
                RequestError::InvalidMethod,
            ),
    {
        let known = METHOD.to_string();
        if self.method == known {
            Ok(self)
        } else {
            Err(RequestError::InvalidMethod)
        }
    }
}

/// Answers a request: the number is prime if it is a whole number in the range
/// of `u64` and a prime. Whatever the request's method, the answer names
/// [`METHOD`].
pub fn handle_prime_request(request: &PrimeRequest) -> (response: PrimeResponse)
    ensures
        response.method@ == METHOD@,
        response.prime == number_is_prime(request.number),
{
    if let Some(n) = request.number {
        PrimeResponse { method: METHOD.to_string(), prime: primal_is_prime(n) }
    } else {
        PrimeResponse { method: METHOD.to_string(), prime: false }
    }
}

/// Decides what to do with one line of input, given what parsing it produced:
/// `None` where the line is not a JSON object with a method and a number.
///
/// A parsed request with the known method is answered; anything else is
/// malformed.
pub fn reply_to(parsed: Option<PrimeRequest>) -> (reply: Reply)
    ensures
        reply is Answer <==> parsed is Some && is_accepted(parsed->Some_0),
        reply is Answer ==> reply->Answer_0.method@ == METHOD@ && reply->Answer_0.prime
            == number_is_prime(parsed->Some_0.number),
{
    match parsed {
        Some(request) => match request.accept() {
            Ok(accepted) => Reply::Answer(handle_prime_request(&accepted)),
            Err(_) => Reply::Malformed,
        },
        None => Reply::Malformed,
    }
}

} // verus!
