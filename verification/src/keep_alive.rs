use vstd::prelude::*;

verus! {

/// Client-side failures, as the keep-alive supervisor classifies them.
#[derive(Clone, Copy, Debug, PartialEq, Eq, Structural)]
pub enum ClientError {
    /// The connection to the broker was lost.
    ConnectionLost,
    /// A write on an open channel failed.
    WriteFailed,
    /// A read on an open channel failed.
    ReadFailed,
    /// The connection idled out.
    IdleTimeout,
    /// The keep-alive supervisor ran out of reconnect attempts.
    TooManyRetries,
    /// The broker refused the client's credentials.
    AuthFailed,
    /// The broker refused the topic name.
    InvalidTopic,
    /// The peers disagree on the protocol version.
    ProtocolMismatch,
    /// A request saw no reply within its timeout.
    RequestTimeout,
    /// A replier's handler failed on a request.
    HandlerFailed,
    /// A received payload failed to decode; the message is lost, the
    /// stream stays up.
    DecodeFailed,
}

/// Transport failures heal on reconnect; everything else is surfaced.
pub open spec fn spec_is_recoverable(e: ClientError) -> bool {
    e == ClientError::ConnectionLost || e == ClientError::WriteFailed || e
        == ClientError::ReadFailed || e == ClientError::IdleTimeout
}

/// Whether the keep-alive supervisor may heal this error by reconnecting.
pub fn is_recoverable_error(e: &ClientError) -> (r: bool)
    ensures
        r == spec_is_recoverable(*e),
{
    match e {
        ClientError::ConnectionLost => true,
        ClientError::WriteFailed => true,
        ClientError::ReadFailed => true,
        ClientError::IdleTimeout => true,
        _ => false,
    }
}

/// The shape of the delay schedule between reconnect attempts.
#[derive(Clone, Copy, Debug, PartialEq, Eq, Structural)]
pub enum BackoffKind {
    Constant,
    Exponential,
    Fibonacci,
}

/// The delay schedule between reconnect attempts, with a bounded attempt
/// count; `max_attempts` of zero means "never retry".
#[derive(Clone, Copy, Debug, PartialEq, Eq, Structural)]
pub struct BackoffStrategy {
    pub kind: BackoffKind,
    pub initial_ms: u64,
    pub max_attempts: u32,
}

/// The starting interval a strategy uses unless tuned otherwise.
pub const DEFAULT_INITIAL_MS: u64 = 1000;

/// The attempt bound a strategy uses unless tuned otherwise.
pub const DEFAULT_MAX_ATTEMPTS: u32 = 5;

/// Twice `x`, saturating at `u64::MAX`.
pub open spec fn sat_double(x: int) -> int {
    if 2 * x > u64::MAX {
        u64::MAX as int
    } else {
        2 * x
    }
}

/// `x + y`, saturating at `u64::MAX`.
pub open spec fn sat_add(x: int, y: int) -> int {
    if x + y > u64::MAX {
        u64::MAX as int
    } else {
        x + y
    }
}

/// The delay before the `n`-th reconnect attempt, 1-based: constant keeps
/// the initial interval, exponential doubles it each attempt, fibonacci
/// adds the two preceding delays; all saturate at `u64::MAX`.
pub open spec fn spec_delay(s: BackoffStrategy, n: int) -> int
    decreases n,
{
    if n <= 1 {
        s.initial_ms as int
    } else {
        match s.kind {
            BackoffKind::Constant => s.initial_ms as int,
            BackoffKind::Exponential => sat_double(spec_delay(s, n - 1)),
            BackoffKind::Fibonacci => if n == 2 {
                s.initial_ms as int
            } else {
                sat_add(spec_delay(s, n - 1), spec_delay(s, n - 2))
            },
        }
    }
}

impl BackoffStrategy {
    /// The same delay before every attempt.
    pub fn constant() -> (r: BackoffStrategy)
        ensures
            r == (BackoffStrategy {
                kind: BackoffKind::Constant,
                initial_ms: DEFAULT_INITIAL_MS,
                max_attempts: DEFAULT_MAX_ATTEMPTS,
            }),
    {
        BackoffStrategy {
            kind: BackoffKind::Constant,
            initial_ms: DEFAULT_INITIAL_MS,
            max_attempts: DEFAULT_MAX_ATTEMPTS,
        }
    }

    /// A delay that doubles with every attempt.
    pub fn exponential() -> (r: BackoffStrategy)
        ensures
            r == (BackoffStrategy {
                kind: BackoffKind::Exponential,
                initial_ms: DEFAULT_INITIAL_MS,
                max_attempts: DEFAULT_MAX_ATTEMPTS,
            }),
    {
        BackoffStrategy {
            kind: BackoffKind::Exponential,
            initial_ms: DEFAULT_INITIAL_MS,
            max_attempts: DEFAULT_MAX_ATTEMPTS,
        }
    }

    /// A delay that follows the fibonacci sequence of the initial interval.
    pub fn fibonacci() -> (r: BackoffStrategy)
        ensures
            r == (BackoffStrategy {
                kind: BackoffKind::Fibonacci,
                initial_ms: DEFAULT_INITIAL_MS,
                max_attempts: DEFAULT_MAX_ATTEMPTS,
            }),
    {
        BackoffStrategy {
            kind: BackoffKind::Fibonacci,
            initial_ms: DEFAULT_INITIAL_MS,
            max_attempts: DEFAULT_MAX_ATTEMPTS,
        }
    }

    /// The same strategy with another attempt bound.
    pub fn with_max_attempts(self, max_attempts: u32) -> (r: BackoffStrategy)
        ensures
            r == (BackoffStrategy { max_attempts, ..self }),
    {
        BackoffStrategy { max_attempts, ..self }
    }

    /// The same strategy with another starting interval.
    pub fn with_initial_interval(self, initial_ms: u64) -> (r: BackoffStrategy)
        ensures
            r == (BackoffStrategy { initial_ms, ..self }),
    {
        BackoffStrategy { initial_ms, ..self }
    }

    /// The attempt schedule this strategy prescribes.
    pub fn into_iter(self) -> (r: BackoffIter)
        ensures
            r.strategy == self,
            r.attempt == 0,
    {
        BackoffIter { strategy: self, attempt: 0 }
    }
}

/// One granted reconnect attempt: how long to sleep first, which attempt
/// this is, and the strategy's bound.
#[derive(Clone, Copy, Debug, PartialEq, Eq, Structural)]
pub struct NextAttempt {
    pub duration_ms: u64,
    pub attempt_num: u32,
    pub max_attempts: u32,
}

/// The delay before attempt `n` under strategy `s`.
fn delay_of(s: &BackoffStrategy, n: u32) -> (r: u64)
    requires
        n >= 1,
    ensures
        r as int == spec_delay(*s, n as int),
{
    match s.kind {
        BackoffKind::Constant => s.initial_ms,
        BackoffKind::Exponential => {
            let mut k: u32 = 1;
            let mut cur: u64 = s.initial_ms;
            while k < n
                invariant
                    1 <= k <= n,
                    cur as int == spec_delay(*s, k as int),
                    s.kind == BackoffKind::Exponential,
                decreases n - k,
            {
                cur = if cur > u64::MAX / 2 {
                    u64::MAX
                } else {
                    2 * cur
                };
                k = k + 1;
            }
            cur
        },
        BackoffKind::Fibonacci => {
            if n <= 2 {
                return s.initial_ms;
            }
            let mut k: u32 = 2;
            let mut prev: u64 = s.initial_ms;
            let mut cur: u64 = s.initial_ms;
            while k < n
                invariant
                    2 <= k <= n,
                    cur as int == spec_delay(*s, k as int),
                    prev as int == spec_delay(*s, k - 1),
                    s.kind == BackoffKind::Fibonacci,
                decreases n - k,
            {
                let next: u64 = if cur > u64::MAX - prev {
                    u64::MAX
                } else {
                    cur + prev
                };
                prev = cur;
                cur = next;
                k = k + 1;
            }
            cur
        },
    }
}

/// The walking state of a strategy's attempt schedule.
pub struct BackoffIter {
    /// The strategy being walked.
    pub strategy: BackoffStrategy,
    /// How many attempts have been handed out.
    pub attempt: u32,
}

impl BackoffIter {
    /// Grants the next reconnect attempt with its delay, or refuses once
    /// the strategy's bound is spent.
    pub fn next(&mut self) -> (r: Option<NextAttempt>)
        ensures
            final(self).strategy == old(self).strategy,
            old(self).attempt >= old(self).strategy.max_attempts ==> r is None
                && final(self).attempt == old(self).attempt,
            old(self).attempt < old(self).strategy.max_attempts ==> final(self).attempt
                == old(self).attempt + 1 && r == Some(
                NextAttempt {
                    duration_ms: spec_delay(
                        old(self).strategy,
                        old(self).attempt + 1,
                    ) as u64,
                    attempt_num: (old(self).attempt + 1) as u32,
                    max_attempts: old(self).strategy.max_attempts,
                },
            ),
    {
        if self.attempt >= self.strategy.max_attempts {
            return None;
        }
        self.attempt = self.attempt + 1;
        let duration_ms = delay_of(&self.strategy, self.attempt);
        proof {
            vstd::arithmetic::div_mod::lemma_fundamental_div_mod(u64::MAX as int, 2);
        }
        Some(
            NextAttempt {
                duration_ms,
                attempt_num: self.attempt,
                max_attempts: self.strategy.max_attempts,
            },
        )
    }
}

/// What the keep-alive supervisor does after a recoverable failure.
pub enum ReconnectStep {
    /// Sleep for the delay, then try to re-establish the stream.
    SleepThenRetry(NextAttempt),
    /// The attempt budget is spent: surface `TooManyRetries`.
    GiveUp(ClientError),
}

/// One round of the reconnect loop: grants the next attempt, or gives up
/// with `TooManyRetries` exactly when the strategy's bound is spent — so a
/// bound of zero never retries at all.
pub fn reconnect_step(iter: &mut BackoffIter) -> (r: ReconnectStep)
    ensures
        final(iter).strategy == old(iter).strategy,
        old(iter).attempt >= old(iter).strategy.max_attempts ==> (r matches ReconnectStep::GiveUp(
            ClientError::TooManyRetries,
        )) && final(iter).attempt == old(iter).attempt,
        old(iter).attempt < old(iter).strategy.max_attempts ==> final(iter).attempt
            == old(iter).attempt + 1 && (r matches ReconnectStep::SleepThenRetry(a) && a == (NextAttempt {
            duration_ms: spec_delay(old(iter).strategy, old(iter).attempt + 1) as u64,
            attempt_num: (old(iter).attempt + 1) as u32,
            max_attempts: old(iter).strategy.max_attempts,
        })),
{
    match iter.next() {
        None => ReconnectStep::GiveUp(ClientError::TooManyRetries),
        Some(a) => ReconnectStep::SleepThenRetry(a),
    }
}

/// What one poll of a pending request decides: the reply once it has
/// arrived, a local `RequestTimeout` once the deadline passed with none, or
/// keep waiting. No cancel is sent on timeout; a late reply is discarded by
/// the caller.
pub fn request_poll(reply: Option<Vec<u8>>, elapsed_ms: u64, timeout_ms: u64) -> (r: Result<
    Option<Vec<u8>>,
    ClientError,
>)
    ensures
        match r {
            Ok(Some(b)) => reply == Some(b),
            Ok(None) => reply is None && elapsed_ms < timeout_ms,
            Err(e) => e == ClientError::RequestTimeout && reply is None && elapsed_ms
                >= timeout_ms,
        },
{
    match reply {
        Some(b) => Ok(Some(b)),
        None => if elapsed_ms >= timeout_ms {
            Err(ClientError::RequestTimeout)
        } else {
            Ok(None)
        },
    }
}

/// A client stream wrapped with its reconnect policy.
pub struct KeepAlive<T> {
    stream: T,
    backoff_strategy: BackoffStrategy,
}

impl<T> KeepAlive<T> {
    /// The wrapped stream.
    pub closed spec fn spec_stream(self) -> T {
        self.stream
    }

    /// The reconnect policy.
    pub closed spec fn spec_backoff_strategy(self) -> BackoffStrategy {
        self.backoff_strategy
    }

    /// Wraps a stream with its reconnect policy.
    pub fn new(stream: T, backoff_strategy: BackoffStrategy) -> (r: KeepAlive<T>)
        ensures
            r.spec_stream() == stream,
            r.spec_backoff_strategy() == backoff_strategy,
    {
        KeepAlive { stream, backoff_strategy }
    }

    /// A borrow of the wrapped stream.
    pub fn stream(&self) -> (r: &T)
        ensures
            r == self.spec_stream(),
    {
        &self.stream
    }

    /// The reconnect policy, for starting an attempt schedule.
    pub fn backoff_strategy(&self) -> (r: BackoffStrategy)
        ensures
            r == self.spec_backoff_strategy(),
    {
        self.backoff_strategy
    }

    /// Swaps in the freshly re-established stream.
    pub fn on_reconnect(&mut self, stream: T)
        ensures
            final(self).spec_stream() == stream,
            final(self).spec_backoff_strategy() == old(self).spec_backoff_strategy(),
    {
        self.stream = stream;
    }
}

/// The attempt budget is hard: an attempt is granted exactly while fewer
/// than `max_attempts` have been spent, so a strategy with `max_attempts`
/// of zero never grants one.
pub proof fn lemma_retry_budget(s: BackoffStrategy, spent: u32)
    ensures
        (spent < s.max_attempts) == !(spent >= s.max_attempts),
        s.max_attempts == 0 ==> spent >= s.max_attempts,
{
}

} // verus!
