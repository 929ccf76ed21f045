use vstd::prelude::*;
use vstd::string::StrSliceExecFns;

use crossbeam_channel::Receiver;

verus! {

#[verifier::external_type_specification]
#[verifier::external_body]
#[verifier::reject_recursive_types(T)]
pub struct ExReceiver<T>(Receiver<T>);

/// State the application is asked to move to.
#[derive(Clone, Copy, Debug, PartialEq, Eq, Structural)]
pub enum AppState {
    Starting,
    Running,
}

/// Receiving end of the channel that carries restart commands into the
/// simulation.
pub struct ChannelTD {
    pub receiver: Receiver<String>,
}

/// The command word that asks for a restart.
pub open spec fn restart_word() -> Seq<char> {
    "restart"@
}

/// What `str::trim` leaves of a line: the line without leading and trailing
/// whitespace.
pub uninterp spec fn trimmed(s: Seq<char>) -> Seq<char>;

/// Relies on `str::trim`, which depends on the characters of the line alone.
#[verifier::external_body]
fn trim_line(line: &str) -> (r: &str)
    ensures
        r@ == trimmed(line@),
{
    line.trim()
}

/// Relies on crossbeam_channel's `Receiver::len`: the number of messages
/// waiting. Other threads may send meanwhile, so nothing is promised of it.
#[verifier::external_body]
fn waiting(receiver: &Receiver<String>) -> (n: usize) {
    receiver.len()
}

/// Relies on crossbeam_channel's `Receiver::try_recv`: takes a waiting
/// message, if any, without blocking.
#[verifier::external_body]
fn take_message(receiver: &Receiver<String>) -> (m: Option<String>) {
    receiver.try_recv().ok()
}

/// Whether `token` is exactly the restart command word.
pub fn is_restart_token(token: &str) -> (r: bool)
    ensures
        r == (token@ == restart_word()),
{
    let word = "restart";
    proof {
        reveal_strlit("restart");
    }
    let n = token.unicode_len();
    if n != word.unicode_len() {
        return false;
    }
    let mut i: usize = 0;
    while i < n
        invariant
            n == token@.len(),
            n == word@.len(),
            word@ == restart_word(),
            0 <= i <= n,
            forall|j: int| 0 <= j < i ==> token@[j] == word@[j],
        decreases n - i,
    {
        if token.get_char(i) != word.get_char(i) {
            return false;
        }
        i = i + 1;
    }
    proof {
        assert(token@ =~= word@);
    }
    true
}

/// Whether a line read from the console, once trimmed, is the restart command.
pub fn is_restart_command(line: &str) -> (r: bool)
    ensures
        r == (trimmed(line@) == restart_word()),
{
    is_restart_token(trim_line(line))
}

/// Moves the application to `Starting` when at least one restart token was
/// received; otherwise leaves the requested state as it was.
pub fn apply_restart_tokens(received: usize, next: &mut Option<AppState>)
    ensures
        *final(next) == if received > 0 {
            Some(AppState::Starting)
        } else {
            *old(next)
        },
{
    if received > 0 {
        *next = Some(AppState::Starting);
    }
}

/// Takes every restart token waiting in the channel and returns how many there
/// were; the application is then asked to start again when there was any.
pub fn listen_channel(channel: &ChannelTD, next: &mut Option<AppState>) -> (received: usize)
    ensures
        *final(next) == if received > 0 {
            Some(AppState::Starting)
        } else {
            *old(next)
        },
{
    let n = waiting(&channel.receiver);
    let mut received: usize = 0;
    while received < n
        invariant
            received <= n,
        decreases n - received,
    {
        match take_message(&channel.receiver) {
            Some(_) => {
                received = received + 1;
            },
            None => {
                break;
            },
        }
    }
    apply_restart_tokens(received, next);
    received
}

} // verus!
