//! Lifecycle coordination (handshake token, parent watchdog, one-shot
//! shutdown) and the RPC surface's shaping of samples.

use vstd::prelude::*;
use vstd::string::*;
use crate::metric::MetricValue;
use crate::text::{
    decimal, digit_char, owned, push_decimal, push_signed_decimal, signed_decimal, starts_with,
};

verus! {

/// Seconds between two checks of the parent process.
pub const WATCHDOG_INTERVAL_SECS: u64 = 5;

/// Relies on `nix::unistd::getppid`, which always succeeds: the id of this
/// process's parent at the moment of the call.
#[verifier::external_body]
fn parent_pid_now() -> (r: i32) {
    nix::unistd::getppid().as_raw()
}

/// Whether an observed parent id is the parent being watched.
pub fn parent_matches(observed: i32, parent_pid: i32) -> (r: bool)
    ensures
        r == (observed == parent_pid),
{
    observed == parent_pid
}

/// Whether `parent_pid` is still this process's parent; the answer depends on
/// the moment of the call.
pub fn is_parent_alive(parent_pid: i32) -> (r: bool) {
    parent_matches(parent_pid_now(), parent_pid)
}

/// A watchdog runs only when a parent id was given.
pub fn watchdog_enabled(parent_pid: i32) -> (r: bool)
    ensures
        r == (parent_pid > 0),
{
    parent_pid > 0
}

/// Phase of the parent watchdog.
#[derive(PartialEq, Eq, Structural, Clone, Copy, Debug)]
pub enum WatchdogPhase {
    Running,
    Firing,
    Stopped,
}

/// What the watchdog's driver learned since the last step.
#[derive(PartialEq, Eq, Structural, Clone, Copy, Debug)]
pub enum WatchdogEvent {
    /// A liveness check after the interval's sleep.
    Checked { parent_alive: bool },
    /// The shutdown signal was fired.
    Fired,
}

/// What the driver does next.
#[derive(PartialEq, Eq, Structural, Clone, Copy, Debug)]
pub enum WatchdogAction {
    /// Sleep for the interval, then check again.
    KeepWatching,
    /// Fire the shutdown signal, then report `Fired`.
    FireShutdown,
    /// End the watchdog task.
    Exit,
}

pub open spec fn watchdog_next(phase: WatchdogPhase, event: WatchdogEvent) -> (WatchdogPhase, WatchdogAction) {
    match (phase, event) {
        (WatchdogPhase::Running, WatchdogEvent::Checked { parent_alive: true }) => (
            WatchdogPhase::Running,
            WatchdogAction::KeepWatching,
        ),
        (WatchdogPhase::Running, WatchdogEvent::Checked { parent_alive: false }) => (
            WatchdogPhase::Firing,
            WatchdogAction::FireShutdown,
        ),
        (WatchdogPhase::Firing, WatchdogEvent::Fired) => (WatchdogPhase::Stopped, WatchdogAction::Exit),
        (WatchdogPhase::Firing, _) => (WatchdogPhase::Firing, WatchdogAction::FireShutdown),
        (_, _) => (WatchdogPhase::Stopped, WatchdogAction::Exit),
    }
}

/// One decision of the parent watchdog: keep watching while the parent
/// lives, fire the shutdown signal once when it is gone, then stop.
pub fn watchdog_step(phase: WatchdogPhase, event: WatchdogEvent) -> (r: (WatchdogPhase, WatchdogAction))
    ensures
        r == watchdog_next(phase, event),
{
    match (phase, event) {
        (WatchdogPhase::Running, WatchdogEvent::Checked { parent_alive }) => {
            if parent_alive {
                (WatchdogPhase::Running, WatchdogAction::KeepWatching)
            } else {
                (WatchdogPhase::Firing, WatchdogAction::FireShutdown)
            }
        },
        (WatchdogPhase::Firing, WatchdogEvent::Fired) => (WatchdogPhase::Stopped, WatchdogAction::Exit),
        (WatchdogPhase::Firing, _) => (WatchdogPhase::Firing, WatchdogAction::FireShutdown),
        (_, _) => (WatchdogPhase::Stopped, WatchdogAction::Exit),
    }
}

/// Once stopped, the watchdog never asks to fire again.
pub proof fn lemma_stopped_watchdog_stays_quiet(event: WatchdogEvent)
    ensures
        watchdog_next(WatchdogPhase::Stopped, event) == (WatchdogPhase::Stopped, WatchdogAction::Exit),
{
}

/// One-shot shutdown notification: it holds the sender until the first fire.
pub struct ShutdownSignal<S> {
    sender: Option<S>,
}

impl<S> ShutdownSignal<S> {
    /// The sender still held, if the signal has not fired.
    pub closed spec fn held(&self) -> Option<S> {
        self.sender
    }

    pub fn new(sender: S) -> (r: Self)
        ensures
            r.held() == Some(sender),
    {
        ShutdownSignal { sender: Some(sender) }
    }

    /// Takes the single fire slot: the first call gets the sender, every
    /// later call gets nothing and changes nothing.
    pub fn fire(&mut self) -> (r: Option<S>)
        ensures
            (r, final(self).held()) == fire_outcome(old(self).held()),
    {
        self.sender.take()
    }

    /// Whether the signal has fired.
    pub fn has_fired(&self) -> (r: bool)
        ensures
            r == (self.held() is None),
    {
        self.sender.is_none()
    }
}

/// State of the RPC service: the one-shot shutdown slot, shared by tear-down
/// requests and the parent watchdog, and the parent process id to watch.
pub struct SystemMonitorServiceImpl<S> {
    pub shutdown: ShutdownSignal<S>,
    pub parent_pid: i32,
}

impl<S> SystemMonitorServiceImpl<S> {
    pub fn new(parent_pid: i32, shutdown_sender: S) -> (r: Self)
        ensures
            r.shutdown.held() == Some(shutdown_sender),
            r.parent_pid == parent_pid,
    {
        SystemMonitorServiceImpl { shutdown: ShutdownSignal::new(shutdown_sender), parent_pid }
    }

    /// Whether a parent watchdog runs for this service.
    pub fn watches_parent(&self) -> (r: bool)
        ensures
            r == (self.parent_pid > 0),
    {
        watchdog_enabled(self.parent_pid)
    }

    /// Handles a tear-down request: takes the shutdown sender if no one has
    /// yet. Repeated tear-downs are no-ops, never errors.
    pub fn tear_down(&mut self) -> (r: Option<S>)
        ensures
            (r, final(self).shutdown.held()) == fire_outcome(old(self).shutdown.held()),
            final(self).parent_pid == old(self).parent_pid,
    {
        self.shutdown.fire()
    }
}

/// What a fire returns and what the slot holds after it, from what it held before.
pub open spec fn fire_outcome<S>(held: Option<S>) -> (Option<S>, Option<S>) {
    (held, None)
}

/// Firing twice in a row: the second fire returns nothing and leaves the
/// slot as the first fire left it, whatever the slot held at first.
pub proof fn lemma_second_fire_is_noop<S>(held: Option<S>)
    ensures
        fire_outcome(held).0 == held,
        fire_outcome(fire_outcome(held).1).0 is None,
        fire_outcome(fire_outcome(held).1).1 == fire_outcome(held).1,
{
}

/// Where the RPC server listens.
#[derive(Debug, PartialEq)]
pub enum Endpoint {
    /// A loopback TCP port.
    Tcp(u16),
    /// A local domain socket at this absolute path.
    Unix(String),
}

/// The handshake line for `e`.
pub open spec fn token_text(e: Endpoint) -> Seq<char> {
    match e {
        Endpoint::Tcp(port) => "sock="@ + decimal(port as nat),
        Endpoint::Unix(path) => "unix="@ + path@,
    }
}

/// Whether to listen on loopback TCP: always on Windows, elsewhere when asked.
pub fn use_tcp(is_windows: bool, listen_on_localhost: bool) -> (r: bool)
    ensures
        r == (is_windows || listen_on_localhost),
{
    is_windows || listen_on_localhost
}

/// The single line written to the handshake file so that the parent process
/// can connect.
pub fn handshake_token(e: &Endpoint) -> (r: String)
    ensures
        r@ == token_text(*e),
{
    match e {
        Endpoint::Tcp(port) => {
            let mut s = owned("sock=");
            push_decimal(&mut s, *port as u64);
            s
        },
        Endpoint::Unix(path) => {
            let mut s = owned("unix=");
            s.append(path.as_str());
            s
        },
    }
}

/// A handshake line is `sock=` and one or more digits, or `unix=` and a
/// non-empty path.
pub proof fn lemma_handshake_token_form(e: Endpoint)
    ensures
        match e {
            Endpoint::Tcp(port) => {
                &&& token_text(e).subrange(0, 5) == "sock="@
                &&& token_text(e).len() > 5
                &&& crate::text::all_digits(token_text(e).subrange(5, token_text(e).len() as int))
            },
            Endpoint::Unix(path) => {
                &&& token_text(e).subrange(0, 5) == "unix="@
                &&& (path@.len() > 0 ==> token_text(e).len() > 5)
            },
        },
{
    reveal_strlit("sock=");
    reveal_strlit("unix=");
    assert("sock="@.len() == 5);
    assert("unix="@.len() == 5);
    match e {
        Endpoint::Tcp(port) => {
            crate::text::lemma_decimal_nonempty_digits(port as nat);
            assert(token_text(e).subrange(0, 5) =~= "sock="@);
            assert(token_text(e).subrange(5, token_text(e).len() as int) =~= decimal(port as nat));
        },
        Endpoint::Unix(path) => {
            assert(token_text(e).subrange(0, 5) =~= "unix="@);
        },
    }
}

/// File name of the domain socket, unique per parent, process and moment.
pub fn socket_file_name(parent_pid: i32, pid: u32, millis: u64) -> (r: String)
    ensures
        r@ == "wandb_gpu_stats-"@ + signed_decimal(parent_pid as int) + "-"@ + decimal(pid as nat)
            + "-"@ + decimal(millis as nat) + ".sock"@,
{
    let mut s = owned("wandb_gpu_stats-");
    push_signed_decimal(&mut s, parent_pid as i64);
    s.append("-");
    push_decimal(&mut s, pid as u64);
    s.append("-");
    push_decimal(&mut s, millis);
    s.append(".sock");
    s
}

/// One metric on the RPC surface: its key and its value as JSON text.
#[derive(Debug, PartialEq)]
pub struct StatsItem {
    pub key: String,
    pub value_json: String,
}

/// The JSON string literal that writes `s`.
pub uninterp spec fn json_string_text(s: Seq<char>) -> Seq<char>;

/// Characters that a JSON string literal must escape.
pub open spec fn needs_escape(c: char) -> bool {
    c == '"' || c == '\\' || (c as u32) < 0x20
}

/// Relies on `serde_json::to_string` for a string: the quoted, escaped JSON
/// literal; only control characters, quotes and backslashes are escaped, and
/// writing into memory cannot fail.
#[verifier::external_body]
fn json_quote(s: &String) -> (r: String)
    ensures
        r@ == json_string_text(s@),
        (forall|i: int| 0 <= i < s@.len() ==> !needs_escape(#[trigger] s@[i])) ==> r@ == seq!['"'] + s@
            + seq!['"'],
{
    serde_json::to_string(s).unwrap_or_default()
}

/// The digits of `n` modulo `10^width`, with leading zeros, `width` of them.
pub open spec fn padded_digits(n: nat, width: nat) -> Seq<char>
    decreases width,
{
    if width == 0 {
        Seq::empty()
    } else {
        padded_digits(n / 10, (width - 1) as nat).push(digit_char(n % 10))
    }
}

/// `s` without trailing zeros, keeping at least one character.
pub open spec fn trim_zeros(s: Seq<char>) -> Seq<char>
    decreases s.len(),
{
    if s.len() > 1 && s.last() == '0' {
        trim_zeros(s.drop_last())
    } else {
        s
    }
}

/// Decimal text of a fractional value held in millionths: the whole part, a
/// point, and the fraction without trailing zeros (at least one digit).
pub open spec fn fraction_text(v: int) -> Seq<char> {
    let m: nat = if v < 0 { (-v) as nat } else { v as nat };
    (if v < 0 { seq!['-'] } else { Seq::<char>::empty() }) + decimal(m / 1000000) + seq!['.']
        + trim_zeros(padded_digits(m % 1000000, 6))
}

/// The JSON text of a metric value.
pub open spec fn json_text(v: MetricValue) -> Seq<char> {
    match v {
        MetricValue::Int(i) => signed_decimal(i as int),
        MetricValue::Float(f) => fraction_text(f as int),
        MetricValue::Text(s) => json_string_text(s@),
        MetricValue::Bool(b) => if b {
            "true"@
        } else {
            "false"@
        },
    }
}

fn push_padded(out: &mut String, n: u64, width: u64)
    ensures
        final(out)@ == old(out)@ + padded_digits(n as nat, width as nat),
    decreases width,
{
    if width > 0 {
        push_padded(out, n / 10, width - 1);
        out.append(crate::text::digit_text(n % 10));
    }
}

/// Writes a fractional value held in millionths as decimal text.
pub fn fraction_to_text(v: i64) -> (r: String)
    ensures
        r@ == fraction_text(v as int),
{
    proof {
        reveal_strlit("-");
        reveal_strlit(".");
    }
    let m: u64 = if v < 0 {
        (-(v as i128)) as u64
    } else {
        v as u64
    };
    let mut out = if v < 0 {
        owned("-")
    } else {
        String::new()
    };
    push_decimal(&mut out, m / 1000000);
    out.append(".");
    let mut digits = String::new();
    push_padded(&mut digits, m % 1000000, 6);
    let ghost d = digits@;
    let mut k: usize = digits.as_str().unicode_len();
    assert(d.len() == 6) by {
        lemma_padded_len(m as nat % 1000000, 6);
    }
    assert(d.subrange(0, k as int) =~= d);
    while k > 1 && digits.as_str().get_char(k - 1) == '0'
        invariant
            digits@ == d,
            1 <= k <= d.len(),
            trim_zeros(d) == trim_zeros(d.subrange(0, k as int)),
        decreases k,
    {
        assert(d.subrange(0, k as int).drop_last() =~= d.subrange(0, k as int - 1));
        k = k - 1;
    }
    let kept = digits.as_str().substring_char(0, k);
    out.append(kept);
    out
}

proof fn lemma_padded_len(n: nat, width: nat)
    ensures
        padded_digits(n, width).len() == width,
    decreases width,
{
    if width > 0 {
        lemma_padded_len(n / 10, (width - 1) as nat);
    }
}

/// The JSON text of a metric value.
pub fn value_json(v: &MetricValue) -> (r: String)
    ensures
        r@ == json_text(*v),
{
    match v {
        MetricValue::Int(i) => {
            let mut s = String::new();
            push_signed_decimal(&mut s, *i);
            s
        },
        MetricValue::Float(f) => fraction_to_text(*f),
        MetricValue::Text(t) => json_quote(t),
        MetricValue::Bool(b) => if *b {
            owned("true")
        } else {
            owned("false")
        },
    }
}

/// Keys starting with an underscore are kept for internal bookkeeping.
pub open spec fn is_internal_key(k: Seq<char>) -> bool {
    k.len() > 0 && k[0] == '_'
}

/// The entries of `s` whose keys are not internal, in order.
pub open spec fn visible_entries(s: Seq<(String, MetricValue)>) -> Seq<(String, MetricValue)>
    decreases s.len(),
{
    if s.len() == 0 {
        s
    } else if is_internal_key(s.last().0@) {
        visible_entries(s.drop_last())
    } else {
        visible_entries(s.drop_last()).push(s.last())
    }
}

/// The items of a stats record: every sampled metric but the internal ones,
/// each value written as JSON.
pub fn stats_items(all_metrics: &Vec<(String, MetricValue)>) -> (r: Vec<StatsItem>)
    ensures
        r@.len() == visible_entries(all_metrics@).len(),
        forall|i: int|
            0 <= i < r@.len() ==> {
                &&& (#[trigger] r@[i]).key@ == visible_entries(all_metrics@)[i].0@
                &&& r@[i].value_json@ == json_text(visible_entries(all_metrics@)[i].1)
            },
{
    proof {
        reveal_strlit("_");
    }
    let mut items: Vec<StatsItem> = Vec::new();
    let mut i: usize = 0;
    while i < all_metrics.len()
        invariant
            i <= all_metrics.len(),
            items@.len() == visible_entries(all_metrics@.subrange(0, i as int)).len(),
            forall|j: int|
                0 <= j < items@.len() ==> {
                    &&& (#[trigger] items@[j]).key@ == visible_entries(all_metrics@.subrange(0, i as int))[j].0@
                    &&& items@[j].value_json@ == json_text(visible_entries(all_metrics@.subrange(0, i as int))[j].1)
                },
        decreases all_metrics.len() - i,
    {
        let ghost before = visible_entries(all_metrics@.subrange(0, i as int));
        proof {
            let next = all_metrics@.subrange(0, i as int + 1);
            assert(next.drop_last() =~= all_metrics@.subrange(0, i as int));
            assert(next.last() == all_metrics@[i as int]);
        }
        let (key, value) = &all_metrics[i];
        proof {
            reveal_strlit("_");
            let u: Seq<char> = "_"@;
            assert(u.len() == 1);
            assert(u[0] == '_');
        }
        if !starts_with(key.as_str(), "_") {
            proof {
                if key@.len() > 0 && key@[0] == '_' {
                    assert(key@.subrange(0, 1) =~= "_"@);
                }
            }
            assert(!is_internal_key(key@));
            items.push(StatsItem { key: key.clone(), value_json: value_json(value) });
        } else {
            assert(key@.subrange(0, 1)[0] == key@[0]);
        }
        i = i + 1;
    }
    assert(all_metrics@.subrange(0, all_metrics@.len() as int) =~= all_metrics@);
    items
}

/// Accelerator device filter of a stats request: an empty list means all devices.
pub fn device_filter(device_ids: Vec<i32>) -> (r: Option<Vec<i32>>)
    ensures
        device_ids@.len() == 0 ==> r is None,
        device_ids@.len() > 0 ==> r == Some(device_ids),
{
    if device_ids.len() == 0 {
        None
    } else {
        Some(device_ids)
    }
}

/// A stats sample: the internal timestamp entry (seconds since the Unix
/// epoch, in millionths) followed by the accelerator metrics.
pub fn stats_sample(timestamp: i64, accelerator_metrics: Vec<(String, MetricValue)>) -> (r: Vec<(String, MetricValue)>)
    ensures
        r@.len() == accelerator_metrics@.len() + 1,
        r@[0].0@ == "_timestamp"@,
        r@[0].1 == MetricValue::Float(timestamp),
        r@.subrange(1, r@.len() as int) == accelerator_metrics@,
{
    let mut all: Vec<(String, MetricValue)> = Vec::new();
    all.push((owned("_timestamp"), MetricValue::Float(timestamp)));
    let mut rest = accelerator_metrics;
    let ghost acc = rest@;
    all.append(&mut rest);
    assert(all@.subrange(1, all@.len() as int) =~= acc);
    all
}

} // verus!
