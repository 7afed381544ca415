//! The initiating side of one connection.
//!
//! A [`Connection`] holds what the protocol needs to know about an outbound
//! connection: whether a stream is open, whether the peer has accepted the
//! password, and how to retry. It does no I/O. Its methods take what
//! happened on the stream and say what is to be done next: dial, wait, send
//! a frame, read on, or give up with a typed error.

use crate::packet::{Packet, PacketError, PacketType, PacketView};
use rand::Rng;
use std::time::Duration;
use vstd::arithmetic::power::{lemma_pow_increases, pow};
use vstd::prelude::*;
use vstd::std_specs::convert::FromSpecImpl;

verus! {

/// How many reads a login waits for the peer's verdict.
pub const LOGIN_READS: u8 = 2;

/// The length of a duration in whole milliseconds.
pub uninterp spec fn millis_of(d: Duration) -> nat;

/// `Duration::as_millis`: the whole milliseconds the duration holds.
#[verifier::external_body]
fn whole_millis(d: &Duration) -> (ms: u128)
    ensures
        ms == millis_of(*d),
{
    d.as_millis()
}

/// `Duration::from_millis`: the duration of that many milliseconds.
#[verifier::external_body]
fn duration_of_millis(ms: u64) -> (d: Duration)
    ensures
        millis_of(d) == ms,
{
    Duration::from_millis(ms)
}

/// `Rng::gen` on `rand::thread_rng()`: a random correlation id. Nothing is
/// promised of the value.
#[verifier::external_body]
fn random_id() -> i32 {
    rand::thread_rng().gen::<i32>()
}

/// Why a client operation failed.
#[derive(Debug)]
pub enum Error {
    /// The transport failed.
    Io(std::io::Error),
    /// The peer sent a frame of invalid length or undefined type.
    PacketError,
    /// The peer did not answer a login with a verdict.
    InvalidResponse,
    /// The peer refused the password.
    AuthenticationFailed,
    /// The peer closed the stream while a reply was awaited.
    ConnectionAborted,
    /// No connection could be established within the allowed attempts.
    RetriesExhausted,
    /// No stream is open.
    NotConnected,
}

impl From<std::io::Error> for Error {
    fn from(err: std::io::Error) -> (e: Error) {
        Error::Io(err)
    }
}

impl FromSpecImpl<std::io::Error> for Error {
    open spec fn obeys_from_spec() -> bool {
        true
    }

    open spec fn from_spec(err: std::io::Error) -> Error {
        Error::Io(err)
    }
}

/// The client error a decoding error becomes: a malformed frame is a
/// packet error, an I/O error stays what it is.
pub open spec fn error_of(err: PacketError) -> Error {
    match err {
        PacketError::InvalidLength => Error::PacketError,
        PacketError::UndefinedType => Error::PacketError,
        PacketError::Io(e) => Error::Io(e),
    }
}

impl From<PacketError> for Error {
    fn from(err: PacketError) -> (e: Error) {
        match err {
            PacketError::InvalidLength => Error::PacketError,
            PacketError::UndefinedType => Error::PacketError,
            PacketError::Io(e) => Error::Io(e),
        }
    }
}

impl FromSpecImpl<PacketError> for Error {
    open spec fn obeys_from_spec() -> bool {
        true
    }

    open spec fn from_spec(err: PacketError) -> Error {
        error_of(err)
    }
}

impl Error {
    /// A short description of the error.
    pub fn message(&self) -> (s: &'static str)
        ensures
            s@ == match self {
                Error::Io(_) => "Io Error"@,
                Error::PacketError => "Packet Error"@,
                Error::InvalidResponse => "Invalid Response"@,
                Error::AuthenticationFailed => "Incorrect password"@,
                Error::ConnectionAborted => "Server ended the connection"@,
                Error::RetriesExhausted => "Unable to connect"@,
                Error::NotConnected => "Not connected"@,
            },
    {
        match self {
            Error::Io(_) => "Io Error",
            Error::PacketError => "Packet Error",
            Error::InvalidResponse => "Invalid Response",
            Error::AuthenticationFailed => "Incorrect password",
            Error::ConnectionAborted => "Server ended the connection",
            Error::RetriesExhausted => "Unable to connect",
            Error::NotConnected => "Not connected",
        }
    }
}

/// `x`, or the largest 64-bit value where `x` is beyond it.
pub open spec fn saturated(x: int) -> int {
    if x > u64::MAX {
        u64::MAX as int
    } else {
        x
    }
}

/// `base` to the power `exp`, held at the largest 64-bit value where the
/// power is beyond it.
pub fn saturating_power(base: u64, exp: u32) -> (r: u64)
    ensures
        r == saturated(pow(base as int, exp as nat)),
{
    let mut acc: u64 = 1;
    let mut i: u32 = 0;
    proof {
        reveal(pow);
    }
    while i < exp
        invariant
            i <= exp,
            acc == pow(base as int, i as nat),
        decreases exp - i,
    {
        proof {
            reveal(pow);
            assert(pow(base as int, (i + 1) as nat) == base * pow(base as int, i as nat));
        }
        match acc.checked_mul(base) {
            Some(next) => {
                assert(next == acc * base);
                assert(acc * base == base * acc) by (nonlinear_arith);
                acc = next;
            },
            None => {
                proof {
                    assert(acc * base == base * acc) by (nonlinear_arith);
                    assert(base > 0) by (nonlinear_arith)
                        requires
                            acc * base > u64::MAX,
                            acc >= 0,
                    ;
                    lemma_pow_increases(base as nat, (i + 1) as nat, exp as nat);
                }
                return u64::MAX;
            },
        }
        i = i + 1;
    }
    acc
}

/// How long to wait after failed attempt number `attempt`, in milliseconds:
/// the configured delay, or with backoff the configured delay in
/// milliseconds raised to the attempt's number. Attempts count from 1.
/// Values beyond 64 bits are held at the largest 64-bit value.
pub open spec fn wait_millis(delay_ms: nat, exponential: bool, attempt: u32) -> int {
    if exponential {
        saturated(pow(saturated(delay_ms as int), attempt as nat))
    } else {
        delay_ms as int
    }
}

/// The retry settings of a connection.
pub struct Settings {
    pub max_retries: u32,
    pub retry_delay: Duration,
    pub exponential_backoff: bool,
}

/// Collects the retry settings of a connection before it is made.
pub struct Builder {
    max_retries: u32,
    retry_delay: Duration,
    exponential_backoff: bool,
}

impl View for Builder {
    type V = Settings;

    closed spec fn view(&self) -> Settings {
        Settings {
            max_retries: self.max_retries,
            retry_delay: self.retry_delay,
            exponential_backoff: self.exponential_backoff,
        }
    }
}

impl Builder {
    /// Sets how many times connecting is attempted before giving up.
    pub fn max_retries(self, retries: u32) -> (b: Builder)
        ensures
            b@ == (Settings { max_retries: retries, ..self@ }),
    {
        let mut b = self;
        b.max_retries = retries;
        b
    }

    /// Sets the delay after a failed attempt.
    pub fn retry_delay(self, retry_delay: Duration) -> (b: Builder)
        ensures
            b@ == (Settings { retry_delay, ..self@ }),
    {
        let mut b = self;
        b.retry_delay = retry_delay;
        b
    }

    /// Sets whether the delay grows with each failed attempt.
    pub fn exponential_backoff(self, exponential_backoff: bool) -> (b: Builder)
        ensures
            b@ == (Settings { exponential_backoff, ..self@ }),
    {
        let mut b = self;
        b.exponential_backoff = exponential_backoff;
        b
    }

    /// Completes the builder: a connection with these settings and this
    /// password, with no stream open yet. Connecting and logging in follow,
    /// driven through [`Connection::on_connect_event`] and
    /// [`Connection::start_login`].
    pub fn connect(self, password: String) -> (c: Connection)
        ensures
            c@ == (ConnectionView {
                connected: false,
                authenticated: false,
                password: password@,
                settings: self@,
                pending_auth: None,
                reads_left: 0,
            }),
    {
        Connection {
            connected: false,
            password,
            authenticated: false,
            max_retries: self.max_retries,
            retry_delay: self.retry_delay,
            exponential_backoff: self.exponential_backoff,
            pending_auth: None,
            reads_left: 0,
        }
    }
}

/// What happened while a connection was being established.
pub enum ConnectEvent {
    /// Connecting was asked for.
    Start,
    /// Attempt number `attempt` failed.
    Refused { attempt: u32 },
    /// The wait after failed attempt number `attempt` is over.
    Slept { attempt: u32 },
    /// An attempt succeeded: a stream is open.
    Established,
}

/// What is to be done next to establish a connection.
pub enum ConnectAction {
    /// Try to open a stream; this is attempt number `attempt`.
    Dial { attempt: u32 },
    /// Wait for `delay` after failed attempt number `attempt`.
    Sleep { attempt: u32, delay: Duration },
    /// The stream is open; install a fresh client codec on it.
    Ready,
    /// Give up with this error.
    Fail(Error),
}

/// What is to be done to run a command.
pub enum CmdStep {
    /// No stream is open: connect and log in first, then ask again.
    Reconnect { command: String },
    /// Send this frame and read one reply.
    Send(Packet),
}

/// A connection as contracts speak of it.
pub struct ConnectionView {
    pub connected: bool,
    pub authenticated: bool,
    pub password: Seq<char>,
    pub settings: Settings,
    /// The id of the login that awaits its verdict, if one does.
    pub pending_auth: Option<i32>,
    /// How many more reads that login may take.
    pub reads_left: u8,
}

/// The outcome of one read during a login.
pub struct LoginStep {
    pub after: ConnectionView,
    /// `None` while the verdict is still awaited.
    pub verdict: Option<Result<(), Error>>,
}

/// What one read means for a login that awaits its verdict.
///
/// Only an `AuthResponse` settles a login. One that echoes the login's id
/// accepts the password, one with any other id refuses it, and either way
/// the stream stays open. Any other frame, and a frame that failed to
/// decode, uses up one of the reads the login may take; when none is left
/// the login fails for want of a valid response. The end of the stream
/// aborts it.
pub open spec fn login_step(c: ConnectionView, msg: Option<Result<Packet, PacketError>>) -> LoginStep {
    match c.pending_auth {
        None => LoginStep { after: c, verdict: Some(Err(Error::InvalidResponse)) },
        Some(aid) => match msg {
            None => LoginStep {
                after: ConnectionView { pending_auth: None, reads_left: 0, ..c },
                verdict: Some(Err(Error::ConnectionAborted)),
            },
            Some(Ok(p)) if p.ptype == PacketType::AuthResponse => if p.id == aid {
                LoginStep {
                    after: ConnectionView {
                        authenticated: true,
                        pending_auth: None,
                        reads_left: 0,
                        ..c
                    },
                    verdict: Some(Ok(())),
                }
            } else {
                LoginStep {
                    after: ConnectionView { pending_auth: None, reads_left: 0, ..c },
                    verdict: Some(Err(Error::AuthenticationFailed)),
                }
            },
            _ => if c.reads_left <= 1 {
                LoginStep {
                    after: ConnectionView { pending_auth: None, reads_left: 0, ..c },
                    verdict: Some(Err(Error::InvalidResponse)),
                }
            } else {
                LoginStep {
                    after: ConnectionView { reads_left: (c.reads_left - 1) as u8, ..c },
                    verdict: None,
                }
            },
        },
    }
}

/// The protocol state of one outbound connection.
pub struct Connection {
    connected: bool,
    password: String,
    authenticated: bool,
    max_retries: u32,
    retry_delay: Duration,
    exponential_backoff: bool,
    pending_auth: Option<i32>,
    reads_left: u8,
}

impl View for Connection {
    type V = ConnectionView;

    closed spec fn view(&self) -> ConnectionView {
        ConnectionView {
            connected: self.connected,
            authenticated: self.authenticated,
            password: self.password@,
            settings: Settings {
                max_retries: self.max_retries,
                retry_delay: self.retry_delay,
                exponential_backoff: self.exponential_backoff,
            },
            pending_auth: self.pending_auth,
            reads_left: self.reads_left,
        }
    }
}

impl Connection {
    /// A builder with the default settings: three attempts, one second
    /// between them, no backoff.
    pub fn builder() -> (b: Builder)
        ensures
            b@.max_retries == 3,
            millis_of(b@.retry_delay) == 1000,
            !b@.exponential_backoff,
    {
        Builder {
            max_retries: 3,
            retry_delay: duration_of_millis(1000),
            exponential_backoff: false,
        }
    }

    /// Whether a stream is open.
    pub fn is_connected(&self) -> (b: bool)
        ensures
            b == self@.connected,
    {
        self.connected
    }

    /// Whether the peer has accepted the password on the open stream.
    pub fn is_authenticated(&self) -> (b: bool)
        ensures
            b == self@.authenticated,
    {
        self.authenticated
    }

    /// How long to wait after failed attempt number `attempt`.
    pub fn retry_wait(&self, attempt: u32) -> (delay: Duration)
        ensures
            self@.settings.exponential_backoff ==> millis_of(delay) == wait_millis(
                millis_of(self@.settings.retry_delay),
                true,
                attempt,
            ),
            !self@.settings.exponential_backoff ==> delay == self@.settings.retry_delay,
    {
        if self.exponential_backoff {
            let ms: u128 = whole_millis(&self.retry_delay);
            let base: u64 = if ms > u64::MAX as u128 {
                u64::MAX
            } else {
                ms as u64
            };
            duration_of_millis(saturating_power(base, attempt))
        } else {
            self.retry_delay
        }
    }

    /// Says what to do next while a connection is being established.
    ///
    /// Connecting starts with attempt 1 when at least one attempt is
    /// allowed. Every failed attempt is followed by a wait; after the wait
    /// the next attempt is made if one is left, and connecting fails once
    /// the allowed attempts are used up. A stream that opens is unauthenticated.
    pub fn on_connect_event(&mut self, event: ConnectEvent) -> (action: ConnectAction)
        ensures
            final(self)@ == match event {
                ConnectEvent::Start => ConnectionView {
                    connected: false,
                    authenticated: false,
                    pending_auth: None,
                    reads_left: 0,
                    ..old(self)@
                },
                ConnectEvent::Established => ConnectionView {
                    connected: true,
                    authenticated: false,
                    pending_auth: None,
                    reads_left: 0,
                    ..old(self)@
                },
                _ => old(self)@,
            },
            match event {
                ConnectEvent::Start => if old(self)@.settings.max_retries >= 1 {
                    action == (ConnectAction::Dial { attempt: 1 })
                } else {
                    action == ConnectAction::Fail(Error::RetriesExhausted)
                },
                ConnectEvent::Refused { attempt } => match action {
                    ConnectAction::Sleep { attempt: a, delay } => a == attempt && if old(
                        self,
                    )@.settings.exponential_backoff {
                        millis_of(delay) == wait_millis(
                            millis_of(old(self)@.settings.retry_delay),
                            true,
                            attempt,
                        )
                    } else {
                        delay == old(self)@.settings.retry_delay
                    },
                    _ => false,
                },
                ConnectEvent::Slept { attempt } => if attempt < old(self)@.settings.max_retries {
                    action == (ConnectAction::Dial { attempt: (attempt + 1) as u32 })
                } else {
                    action == ConnectAction::Fail(Error::RetriesExhausted)
                },
                ConnectEvent::Established => action == ConnectAction::Ready,
            },
    {
        match event {
            ConnectEvent::Start => {
                self.connected = false;
                self.authenticated = false;
                self.pending_auth = None;
                self.reads_left = 0;
                if self.max_retries >= 1 {
                    ConnectAction::Dial { attempt: 1 }
                } else {
                    ConnectAction::Fail(Error::RetriesExhausted)
                }
            },
            ConnectEvent::Refused { attempt } => {
                let delay = self.retry_wait(attempt);
                ConnectAction::Sleep { attempt, delay }
            },
            ConnectEvent::Slept { attempt } => {
                if attempt < self.max_retries {
                    ConnectAction::Dial { attempt: attempt + 1 }
                } else {
                    ConnectAction::Fail(Error::RetriesExhausted)
                }
            },
            ConnectEvent::Established => {
                self.connected = true;
                self.authenticated = false;
                self.pending_auth = None;
                self.reads_left = 0;
                ConnectAction::Ready
            },
        }
    }

    /// Starts a login under the given correlation id: the connection is no
    /// longer authenticated, and the frame to send carries the password
    /// under that id. Without an open stream nothing changes and the login
    /// fails.
    pub fn start_login_with(&mut self, aid: i32) -> (r: Result<Packet, Error>)
        ensures
            match r {
                Ok(request) => old(self)@.connected && request@ == (PacketView {
                    ptype: PacketType::Auth,
                    id: aid,
                    body: old(self)@.password,
                }) && final(self)@ == (ConnectionView {
                    authenticated: false,
                    pending_auth: Some(aid),
                    reads_left: LOGIN_READS,
                    ..old(self)@
                }),
                Err(e) => !old(self)@.connected && e == Error::NotConnected && final(self)@ == (
                ConnectionView { authenticated: false, ..old(self)@ }),
            },
    {
        self.authenticated = false;
        if !self.connected {
            return Err(Error::NotConnected);
        }
        self.pending_auth = Some(aid);
        self.reads_left = LOGIN_READS;
        Ok(Packet { ptype: PacketType::Auth, id: aid, body: self.password.clone() })
    }

    /// Starts a login under a random correlation id.
    pub fn start_login(&mut self) -> (r: Result<Packet, Error>)
        ensures
            match r {
                Ok(request) => old(self)@.connected && request@.ptype == PacketType::Auth
                    && request@.body == old(self)@.password && final(self)@ == (ConnectionView {
                    authenticated: false,
                    pending_auth: Some(request@.id),
                    reads_left: LOGIN_READS,
                    ..old(self)@
                }),
                Err(e) => !old(self)@.connected && e == Error::NotConnected && final(self)@ == (
                ConnectionView { authenticated: false, ..old(self)@ }),
            },
    {
        let aid: i32 = random_id();
        self.start_login_with(aid)
    }

    /// Takes the outcome of one read while a login awaits its verdict.
    /// `None` means: read again.
    pub fn on_login_reply(&mut self, msg: Option<Result<Packet, PacketError>>) -> (verdict: Option<
        Result<(), Error>,
    >)
        ensures
            final(self)@ == login_step(old(self)@, msg).after,
            verdict == login_step(old(self)@, msg).verdict,
    {
        let aid: i32 = match self.pending_auth {
            None => {
                return Some(Err(Error::InvalidResponse));
            },
            Some(aid) => aid,
        };
        match msg {
            None => {
                self.pending_auth = None;
                self.reads_left = 0;
                Some(Err(Error::ConnectionAborted))
            },
            Some(Ok(p)) => {
                if p.ptype == PacketType::AuthResponse {
                    self.pending_auth = None;
                    self.reads_left = 0;
                    if p.id == aid {
                        self.authenticated = true;
                        Some(Ok(()))
                    } else {
                        Some(Err(Error::AuthenticationFailed))
                    }
                } else {
                    self.unanswered_read()
                }
            },
            Some(Err(_)) => self.unanswered_read(),
        }
    }

    /// Counts a read that brought no verdict.
    fn unanswered_read(&mut self) -> (verdict: Option<Result<(), Error>>)
        ensures
            old(self)@.reads_left <= 1 ==> verdict == Some(
                Err::<(), Error>(Error::InvalidResponse),
            ) && final(self)@ == (ConnectionView {
                pending_auth: None,
                reads_left: 0,
                ..old(self)@
            }),
            old(self)@.reads_left > 1 ==> verdict is None && final(self)@ == (ConnectionView {
                reads_left: (old(self)@.reads_left - 1) as u8,
                ..old(self)@
            }),
    {
        if self.reads_left <= 1 {
            self.pending_auth = None;
            self.reads_left = 0;
            Some(Err(Error::InvalidResponse))
        } else {
            self.reads_left = self.reads_left - 1;
            None
        }
    }

    /// Prepares a command under the given correlation id. With a stream
    /// open the frame to send is an `ExecCommand` with that id and the
    /// command as its body; without one the caller is to connect and log in
    /// first. The connection is not changed.
    pub fn cmd_with(&self, id: i32, cmd: String) -> (step: CmdStep)
        ensures
            match step {
                CmdStep::Send(request) => self@.connected && request@ == (PacketView {
                    ptype: PacketType::ExecCommand,
                    id,
                    body: cmd@,
                }),
                CmdStep::Reconnect { command } => !self@.connected && command@ == cmd@,
            },
    {
        if self.connected {
            CmdStep::Send(Packet { ptype: PacketType::ExecCommand, id, body: cmd })
        } else {
            CmdStep::Reconnect { command: cmd }
        }
    }

    /// Prepares a command under a random correlation id.
    pub fn cmd(&self, cmd: String) -> (step: CmdStep)
        ensures
            match step {
                CmdStep::Send(request) => self@.connected && request@.ptype
                    == PacketType::ExecCommand && request@.body == cmd@,
                CmdStep::Reconnect { command } => !self@.connected && command@ == cmd@,
            },
    {
        let id: i32 = random_id();
        self.cmd_with(id, cmd)
    }

    /// Takes the outcome of the one read that follows a command: the body
    /// of whatever frame came is the answer, a frame that failed to decode
    /// is that error, and the end of the stream aborts the command.
    pub fn on_cmd_reply(&self, msg: Option<Result<Packet, PacketError>>) -> (r: Result<String, Error>)
        ensures
            match msg {
                Some(Ok(p)) => r is Ok && r->Ok_0@ == p.body@,
                Some(Err(e)) => r == Err::<String, Error>(error_of(e)),
                None => r == Err::<String, Error>(Error::ConnectionAborted),
            },
    {
        match msg {
            Some(Ok(p)) => Ok(p.body),
            Some(Err(e)) => Err(Error::from(e)),
            None => Err(Error::ConnectionAborted),
        }
    }
}

/// A verdict that echoes another id than the login's is a refusal: the
/// login fails with `AuthenticationFailed`, the connection stays
/// unauthenticated and its stream stays as it was.
pub proof fn lemma_mismatched_id_refused(c: ConnectionView, reply: Packet)
    requires
        !c.authenticated,
        c.pending_auth is Some,
        reply.ptype == PacketType::AuthResponse,
        reply.id != c.pending_auth->Some_0,
    ensures
        login_step(c, Some(Ok(reply))).verdict == Some(
            Err::<(), Error>(Error::AuthenticationFailed),
        ),
        !login_step(c, Some(Ok(reply))).after.authenticated,
        login_step(c, Some(Ok(reply))).after.connected == c.connected,
{
}

/// A connection is authenticated after a login step only if it was before
/// or the step is the matching verdict.
pub proof fn lemma_authenticated_only_by_matching_id(
    c: ConnectionView,
    msg: Option<Result<Packet, PacketError>>,
)
    requires
        !c.authenticated,
    ensures
        login_step(c, msg).after.authenticated <==> match (c.pending_auth, msg) {
            (Some(aid), Some(Ok(p))) => p.ptype == PacketType::AuthResponse && p.id == aid,
            _ => false,
        },
        login_step(c, msg).after.authenticated <==> login_step(c, msg).verdict == Some(
            Ok::<(), Error>(()),
        ),
{
}

} // verus!
