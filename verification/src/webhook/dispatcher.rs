//! Webhook events and the dispatcher's retry schedule.

use vstd::prelude::*;

use std::time::Duration;

use crate::config::WebhookConfig;
use crate::text::{find_string, push_str, string_views};
use crate::security::timeout::{duration_from_secs, spec_duration_from_secs};

verus! {

/// Webhook events
#[derive(Debug, Clone)]
pub enum WebhookEvent {
    SessionStart { username: String, peer_addr: String },
    SessionEnd { username: String, peer_addr: String },
    Command { username: String, command: String, peer_addr: String },
}

/// The mathematical value of a [`WebhookEvent`].
pub enum WebhookEventView {
    SessionStart { username: Seq<char>, peer_addr: Seq<char> },
    SessionEnd { username: Seq<char>, peer_addr: Seq<char> },
    Command { username: Seq<char>, command: Seq<char>, peer_addr: Seq<char> },
}

impl View for WebhookEvent {
    type V = WebhookEventView;

    open spec fn view(&self) -> WebhookEventView {
        match self {
            WebhookEvent::SessionStart { username, peer_addr } => WebhookEventView::SessionStart {
                username: username@,
                peer_addr: peer_addr@,
            },
            WebhookEvent::SessionEnd { username, peer_addr } => WebhookEventView::SessionEnd {
                username: username@,
                peer_addr: peer_addr@,
            },
            WebhookEvent::Command { username, command, peer_addr } => WebhookEventView::Command {
                username: username@,
                command: command@,
                peer_addr: peer_addr@,
            },
        }
    }
}

/// The name of an event, as a user's `webhook_events` lists it and as the
/// `event` field of its JSON form gives it: `session_start`, `session_end`,
/// or `command_` and the command (`command_retr`, `command_dele`, ...).
pub open spec fn spec_event_name(e: WebhookEventView) -> Seq<char> {
    match e {
        WebhookEventView::SessionStart { .. } => "session_start"@,
        WebhookEventView::SessionEnd { .. } => "session_end"@,
        WebhookEventView::Command { command, .. } => "command_"@ + command,
    }
}

/// The user an event is about.
pub open spec fn spec_event_username(e: WebhookEventView) -> Seq<char> {
    match e {
        WebhookEventView::SessionStart { username, .. } => username,
        WebhookEventView::SessionEnd { username, .. } => username,
        WebhookEventView::Command { username, .. } => username,
    }
}

/// Whether a user whose webhook address is `url` and who asked for the
/// events named in `events` is sent the event `e`: the address is set, and
/// either no events are listed (then every event is sent) or the event's
/// name is listed.
pub open spec fn spec_is_wanted(url: Seq<char>, events: Seq<Seq<char>>, e: WebhookEventView) -> bool {
    url.len() > 0 && (events.len() == 0 || events.contains(spec_event_name(e)))
}

impl WebhookEvent {
    /// The name of the event (`session_start`, `session_end`,
    /// `command_retr`, ...).
    pub fn event_name(&self) -> (r: String)
        ensures
            r@ == spec_event_name(self@),
    {
        match self {
            WebhookEvent::SessionStart { .. } => "session_start".to_owned(),
            WebhookEvent::SessionEnd { .. } => "session_end".to_owned(),
            WebhookEvent::Command { command, .. } => {
                let mut name = "command_".to_owned();
                push_str(&mut name, command.as_str());
                name
            },
        }
    }

    /// Whether the event goes to a user whose webhook address is `url` and
    /// whose `webhook_events` are `events` (an empty list asks for all).
    pub fn is_wanted(&self, url: &str, events: &Vec<String>) -> (r: bool)
        ensures
            r == spec_is_wanted(url@, string_views(events@), self@),
    {
        if url.is_empty() {
            return false;
        }
        if events.len() == 0 {
            return true;
        }
        let name = self.event_name();
        find_string(events, name.as_str()).is_some()
    }

    /// The user the event is about.
    pub fn username(&self) -> (r: &String)
        ensures
            r@ == spec_event_username(self@),
    {
        match self {
            WebhookEvent::SessionStart { username, .. } => username,
            WebhookEvent::SessionEnd { username, .. } => username,
            WebhookEvent::Command { username, .. } => username,
        }
    }
}

/// `reqwest::Client`, the HTTP client webhooks are posted with.
#[verifier::external_type_specification]
#[verifier::external_body]
pub struct ExReqwestClient(reqwest::Client);

/// `Client::builder().timeout(..).build()` (reqwest 0.12), or
/// `Client::default()` when building fails: a client whose requests time out
/// after `timeout_secs` seconds. Nothing about the client is stated.
#[verifier::external_body]
fn build_client(timeout_secs: u64) -> (r: reqwest::Client) {
    reqwest::Client::builder().timeout(Duration::from_secs(timeout_secs)).build().unwrap_or_default()
}

/// Where the delivery of a webhook stands.
#[derive(Debug, PartialEq, Eq, Structural)]
pub enum DeliveryStep {
    /// Delivery is over: whether it succeeded.
    Done(bool),
    /// Send the event, this being the attempt with this number (the first
    /// is 0), after waiting [`WebhookDispatcher::retry_delay_ms`].
    Send(u32),
}

/// `2` to the power `n`.
pub open spec fn pow2(n: nat) -> nat
    decreases n,
{
    if n == 0 {
        1
    } else {
        2 * pow2((n - 1) as nat)
    }
}

/// The wait before attempt `attempt`, in milliseconds: none before the
/// first, then 100 ms doubled with each attempt.
pub open spec fn spec_retry_delay_ms(attempt: nat) -> nat {
    if attempt == 0 {
        0
    } else {
        100 * pow2(attempt)
    }
}

/// What follows attempt `attempt` of `retry_count + 1`: done on success,
/// the next attempt while there are retries left, else given up.
pub open spec fn spec_after_send(retry_count: u32, attempt: u32, success: bool) -> DeliveryStep {
    if success {
        DeliveryStep::Done(true)
    } else if attempt < retry_count {
        DeliveryStep::Send((attempt + 1) as u32)
    } else {
        DeliveryStep::Done(false)
    }
}

pub proof fn lemma_pow2_monotonic(a: nat, b: nat)
    requires
        a <= b,
    ensures
        pow2(a) <= pow2(b),
    decreases b,
{
    if a < b {
        lemma_pow2_monotonic(a, (b - 1) as nat);
    }
}

/// Webhook dispatcher for sending notifications
pub struct WebhookDispatcher {
    client: reqwest::Client,
    timeout: Duration,
    retry_count: u32,
}

impl WebhookDispatcher {
    /// The HTTP client the dispatcher holds (built once, by `new`).
    pub closed spec fn http_client(&self) -> reqwest::Client {
        self.client
    }

    /// How many times a failed delivery is retried.
    pub closed spec fn retries(&self) -> u32 {
        self.retry_count
    }

    /// How long one request may take.
    pub closed spec fn request_timeout(&self) -> Duration {
        self.timeout
    }

    /// Create a new webhook dispatcher
    pub fn new(config: &WebhookConfig) -> (r: Self)
        ensures
            r.retries() == config.retry_count,
            r.request_timeout() == spec_duration_from_secs(config.timeout_secs),
    {
        Self {
            client: build_client(config.timeout_secs),
            timeout: duration_from_secs(config.timeout_secs),
            retry_count: config.retry_count,
        }
    }

    /// The HTTP client webhooks are posted with: the one the dispatcher
    /// holds, the same on every call.
    pub fn client(&self) -> (r: &reqwest::Client)
        ensures
            *r == self.http_client(),
    {
        &self.client
    }

    /// How long one request may take.
    pub fn timeout(&self) -> (r: Duration)
        ensures
            r == self.request_timeout(),
    {
        self.timeout
    }

    /// How many times a failed delivery is retried.
    pub fn retry_count(&self) -> (r: u32)
        ensures
            r == self.retries(),
    {
        self.retry_count
    }

    /// Where delivering to `url` starts: an empty URL means there is nothing
    /// to deliver (and counts as delivered); otherwise the first attempt.
    pub fn start(&self, url: &str) -> (r: DeliveryStep)
        ensures
            url@.len() == 0 ==> r == DeliveryStep::Done(true),
            url@.len() != 0 ==> r == DeliveryStep::Send(0),
    {
        if url.is_empty() {
            DeliveryStep::Done(true)
        } else {
            DeliveryStep::Send(0)
        }
    }

    /// What follows attempt `attempt`, which succeeded or not.
    pub fn after_send(&self, attempt: u32, success: bool) -> (r: DeliveryStep)
        requires
            attempt <= self.retries(),
        ensures
            r == spec_after_send(self.retries(), attempt, success),
    {
        if success {
            DeliveryStep::Done(true)
        } else if attempt < self.retry_count {
            DeliveryStep::Send(attempt + 1)
        } else {
            DeliveryStep::Done(false)
        }
    }

    /// The wait before attempt `attempt`, in milliseconds; `None` when it
    /// does not fit in a `u64` (from attempt 58 on).
    pub fn retry_delay_ms(attempt: u32) -> (r: Option<u64>)
        ensures
            spec_retry_delay_ms(attempt as nat) <= u64::MAX ==> r == Some(
                spec_retry_delay_ms(attempt as nat) as u64,
            ),
            spec_retry_delay_ms(attempt as nat) > u64::MAX ==> r is None,
    {
        if attempt == 0 {
            return Some(0);
        }
        let mut d: u64 = 100;
        let mut i: u32 = 0;
        while i < attempt
            invariant
                0 < attempt,
                i <= attempt,
                d == 100 * pow2(i as nat),
            decreases attempt - i,
        {
            if d > u64::MAX / 2 {
                proof {
                    lemma_pow2_monotonic((i + 1) as nat, attempt as nat);
                }
                return None;
            }
            d = d * 2;
            i = i + 1;
        }
        Some(d)
    }
}

impl Default for WebhookDispatcher {
    /// A 10 second timeout and 3 retries.
    fn default() -> (r: Self)
        ensures
            r.retries() == 3,
            r.request_timeout() == spec_duration_from_secs(10),
    {
        Self::new(&WebhookConfig { timeout_secs: 10, retry_count: 3 })
    }
}

/// A delivery makes at most `retry_count + 1` attempts: each failure before
/// the last leads to the next attempt, and the last failure ends it.
pub proof fn lemma_attempts_bounded(retry_count: u32, attempt: u32)
    requires
        attempt <= retry_count,
    ensures
        spec_after_send(retry_count, attempt, true) == DeliveryStep::Done(true),
        attempt < retry_count ==> spec_after_send(retry_count, attempt, false) == DeliveryStep::Send(
            (attempt + 1) as u32,
        ),
        attempt == retry_count ==> spec_after_send(retry_count, attempt, false)
            == DeliveryStep::Done(false),
{
}

/// Each retry waits twice as long as the one before.
pub proof fn lemma_backoff_doubles(attempt: nat)
    requires
        attempt >= 1,
    ensures
        spec_retry_delay_ms(attempt + 1) == 2 * spec_retry_delay_ms(attempt),
{
}

} // verus!
