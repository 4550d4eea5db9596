//! What the plugin reads from the commands and buffers it hooks: the
//! arguments of `/nick` and `/query`, the channel a buffer stands for, and
//! the step of the timer that drains the main-thread queue.
use vstd::prelude::*;
use vstd::string::StringSliceAdditionalSpecFns;
use vstd::utf8::is_char_boundary;
use crate::number::{parse_u64, parse_u64_spec};
use crate::text::{after_bytes, has_prefix, skip_chars, split_off_bytes, starts_with, trim, trimmed, Pattern};

verus! {

/// `s.split(' ').next() == Some(w)` for a word `w` without spaces: `s`
/// begins with `w`, and `w` is followed by a space or by nothing.
pub open spec fn first_piece_is(s: Seq<char>, w: Seq<char>) -> bool {
    &&& has_prefix(s, w)
    &&& (s.len() == w.len() || s[w.len() as int] == ' ')
}

/// The arguments of a `/nick` command: what follows `/nick`, trimmed.
pub open spec fn nick_args(command: Seq<char>) -> Seq<char> {
    trimmed(after_bytes(command, 5), Pattern::Whitespace)
}

/// Whether a `/nick` command asks for every guild (`/nick -all ...`).
pub open spec fn nick_all_guilds(command: Seq<char>) -> bool {
    first_piece_is(nick_args(command), "-all"@)
}

/// The nickname a `/nick` command sets; empty asks to reset it.
pub open spec fn nick_name(command: Seq<char>) -> Seq<char> {
    let args = nick_args(command);
    if nick_all_guilds(command) {
        trimmed(args.subrange(4, args.len() as int), Pattern::Whitespace)
    } else {
        args
    }
}

/// A nickname change asked for with `/nick`.
#[derive(Debug, PartialEq, Eq)]
pub struct NickChange {
    /// Change it in every guild, not only in the current buffer's guild.
    pub all_guilds: bool,
    /// The new nickname; `None` resets it.
    pub nick: Option<String>,
}

/// The change a `/nick` command asks for. `command` is the whole command
/// line, `/nick` included; its fifth byte must end a character, as
/// slicing it there requires.
pub fn parse_nick(command: &str) -> (r: NickChange)
    requires
        is_char_boundary(command.spec_bytes(), 5),
    ensures
        r.all_guilds == nick_all_guilds(command@),
        nick_name(command@).len() == 0 ==> r.nick.is_none(),
        nick_name(command@).len() > 0 ==> (r.nick matches Some(n) && n@ == nick_name(command@)),
{
    let args = trim(split_off_bytes(command, 5));
    proof {
        reveal_strlit("-all");
    }
    let all = starts_with(args, "-all") && (args.unicode_len() == 4 || args.get_char(4) == ' ');
    let name = if all {
        trim(skip_chars(args, 4))
    } else {
        args
    };
    let nick = if name.unicode_len() == 0 {
        None
    } else {
        Some(String::from_str(name))
    };
    NickChange { all_guilds: all, nick }
}

/// The search text of a `/query` command: what follows `/query `,
/// trimmed. The seventh byte of `command` must end a character, as
/// slicing it there requires.
pub fn query_term(command: &str) -> (r: &str)
    requires
        is_char_boundary(command.spec_bytes(), 7),
    ensures
        r@ == trimmed(after_bytes(command@, 7), Pattern::Whitespace),
{
    trim(split_off_bytes(command, 7))
}

/// Whether position `i` of `keys` starts a run of equal keys.
pub open spec fn starts_run(keys: Seq<u64>, i: int) -> bool {
    i == 0 || keys[i] != keys[i - 1]
}

/// `r` lists, in increasing order, exactly the positions of `keys` that
/// start a run of equal keys.
pub open spec fn dedup_result(keys: Seq<u64>, r: Seq<usize>) -> bool {
    &&& forall|k: int| 0 <= k < r.len() ==> r[k] < keys.len() && starts_run(keys, #[trigger] r[k] as int)
    &&& forall|j: int, k: int| 0 <= j < k < r.len() ==> r[j] < r[k]
    &&& forall|i: int| 0 <= i < keys.len() && starts_run(keys, i) ==> r.contains(i as usize)
}

/// `Vec::dedup_by_key` on a list of items given by their keys: the
/// positions of the items it keeps, in order. It keeps the first item of
/// each run of consecutive items with equal keys.
pub fn dedup_by_key(keys: &Vec<u64>) -> (r: Vec<usize>)
    ensures
        dedup_result(keys@, r@),
{
    let mut r: Vec<usize> = Vec::new();
    let n = keys.len();
    let mut i: usize = 0;
    while i < n
        invariant
            i <= n,
            n == keys.len(),
            forall|k: int| 0 <= k < r.len() ==> r[k] < i && starts_run(keys@, #[trigger] r[k] as int),
            forall|j: int, k: int| 0 <= j < k < r.len() ==> r[j] < r[k],
            forall|t: int| 0 <= t < i && starts_run(keys@, t) ==> r@.contains(t as usize),
        decreases n - i,
    {
        let ghost prev = r@;
        if i == 0 || keys[i] != keys[i - 1] {
            r.push(i);
            assert(r@[r.len() - 1] == i);
        }
        assert forall|t: int| 0 <= t < i + 1 && starts_run(keys@, t) implies r@.contains(t as usize) by {
            if t == i {
                assert(r@[r.len() - 1] == i);
            } else {
                let idx = choose|idx: int| 0 <= idx < prev.len() && prev[idx] == t as usize;
                assert(r@[idx] == t as usize);
            }
        }
        i = i + 1;
    }
    r
}

/// The channel a buffer stands for, from its `localvar_channelid` local
/// variable: none when the variable is missing or is not a number.
pub fn buffer_input(localvar_channelid: Option<&str>) -> (r: Option<u64>)
    ensures
        r == match localvar_channelid {
            None => None,
            Some(s) => parse_u64_spec(s@),
        },
{
    match localvar_channelid {
        None => None,
        Some(s) => parse_u64(s),
    }
}

/// One step of the timer that drains the main-thread queue.
#[derive(Debug, PartialEq, Eq, Structural)]
pub enum TimerStep {
    /// A request was waiting: answer it and look for the next one.
    Acknowledge,
    /// The queue is empty: the timer is done until it fires again.
    Finish,
}

/// The timer's decision after one look at the queue: it answers each
/// request it receives and stops at the first empty look.
pub fn handle_timer(received: bool) -> (r: TimerStep)
    ensures
        r == (if received { TimerStep::Acknowledge } else { TimerStep::Finish }),
{
    if received {
        TimerStep::Acknowledge
    } else {
        TimerStep::Finish
    }
}

} // verus!
