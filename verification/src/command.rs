//! The `/discord` command: what each of its forms asks the plugin to do.
//!
//! The library decides; the plugin performs. `run_command` turns the text
//! after `/discord` into a list of actions. Two of them need an answer from
//! outside before the decision is complete: `Connect` reads the `token`
//! option and hands it to `connect_step`, and `Upload` expands the path
//! with `resolve_upload_path`, resolves it on disk and sends the file to the
//! channel that `buffer_input` finds.
use vstd::prelude::*;
use crate::text::{has_prefix, skip_chars, starts_with, str_equal, trim_matches, trimmed, Pattern};

verus! {

/// One thing the plugin does on behalf of a command.
#[derive(Debug, PartialEq, Eq)]
pub enum Action {
    /// Print a line in the core buffer.
    Print(String),
    /// Set a plugin option.
    SetOption { name: String, value: String },
    /// Set a plugin option and print the answer WeeChat gives.
    ReportSetOption { name: String, value: String },
    /// Read the `token` option and go on with `connect_step`.
    Connect,
    /// Shut down the Discord session, if one is open.
    Disconnect,
    /// Open a Discord session with this token.
    StartSession(String),
    /// Upload the named file to the current channel.
    Upload(String),
}

/// An `Action` with its strings taken as character sequences.
pub enum ActionView {
    Print(Seq<char>),
    SetOption(Seq<char>, Seq<char>),
    ReportSetOption(Seq<char>, Seq<char>),
    Connect,
    Disconnect,
    StartSession(Seq<char>),
    Upload(Seq<char>),
}

impl View for Action {
    type V = ActionView;

    open spec fn view(&self) -> ActionView {
        match self {
            Action::Print(m) => ActionView::Print(m@),
            Action::SetOption { name, value } => ActionView::SetOption(name@, value@),
            Action::ReportSetOption { name, value } => ActionView::ReportSetOption(name@, value@),
            Action::Connect => ActionView::Connect,
            Action::Disconnect => ActionView::Disconnect,
            Action::StartSession(t) => ActionView::StartSession(t@),
            Action::Upload(f) => ActionView::Upload(f@),
        }
    }
}

/// The views of a list of actions.
pub open spec fn actions_view(v: Seq<Action>) -> Seq<ActionView> {
    v.map_values(|a: Action| a@)
}

/// What `/discord <command>` does, for each command.
pub open spec fn command_plan(c: Seq<char>) -> Seq<ActionView> {
    if c == ""@ {
        seq![ActionView::Print("see /help discord for more information"@)]
    } else if c == "connect"@ {
        seq![ActionView::Connect]
    } else if c == "disconnect"@ {
        seq![ActionView::Disconnect, ActionView::Print("Disconnected"@)]
    } else if has_prefix(c, "token "@) {
        seq![
            ActionView::ReportSetOption(
                "token"@,
                trimmed(c.subrange("token "@.len() as int, c.len() as int), Pattern::Char('"')),
            ),
            ActionView::Print("Set Discord token"@),
        ]
    } else if c == "autostart"@ {
        seq![
            ActionView::SetOption("autostart"@, "true"@),
            ActionView::Print("Discord will now load on startup"@),
        ]
    } else if c == "noautostart"@ {
        seq![
            ActionView::SetOption("autostart"@, "false"@),
            ActionView::Print("Discord will not load on startup"@),
        ]
    } else if has_prefix(c, "upload "@) {
        seq![ActionView::Upload(c.subrange("upload "@.len() as int, c.len() as int))]
    } else {
        seq![ActionView::Print("Unknown command"@)]
    }
}

/// What `connect` does once the `token` option has been read: without a
/// token it tells the user how to set one; with one it opens a session,
/// unless one is already open.
pub open spec fn connect_plan(token: Option<Seq<char>>, connected: bool) -> Seq<ActionView> {
    match token {
        None => seq![
            ActionView::Print("Error: plugins.var.weecord.token unset. Run:"@),
            ActionView::Print("/discord token 123456789ABCDEF"@),
        ],
        Some(t) => if connected {
            seq![]
        } else {
            seq![ActionView::StartSession(t)]
        },
    }
}

/// The path `upload` sends: a leading `~/` stands for the home directory,
/// or for `.` where there is none.
pub open spec fn expand_home(file: Seq<char>, home: Option<Seq<char>>) -> Seq<char> {
    if has_prefix(file, "~/"@) {
        let dir = match home {
            Some(h) => h,
            None => "."@,
        };
        dir + "/"@ + file.subrange(2, file.len() as int)
    } else {
        file
    }
}

fn print(message: &str) -> (a: Action)
    ensures
        a@ == ActionView::Print(message@),
{
    Action::Print(String::from_str(message))
}

/// Set a plugin option and report WeeChat's answer to the user.
pub fn user_set_option(name: &str, value: &str) -> (a: Action)
    ensures
        a@ == ActionView::ReportSetOption(name@, value@),
{
    Action::ReportSetOption { name: String::from_str(name), value: String::from_str(value) }
}

fn set_option(name: &str, value: &str) -> (a: Action)
    ensures
        a@ == ActionView::SetOption(name@, value@),
{
    Action::SetOption { name: String::from_str(name), value: String::from_str(value) }
}

/// The actions that `/discord <command>` asks for.
pub fn run_command(command: &str) -> (r: Vec<Action>)
    ensures
        actions_view(r@) == command_plan(command@),
{
    let mut r: Vec<Action> = Vec::new();
    let token_prefix = "token ";
    let upload_prefix = "upload ";
    if str_equal(command, "") {
        r.push(print("see /help discord for more information"));
    } else if str_equal(command, "connect") {
        r.push(Action::Connect);
    } else if str_equal(command, "disconnect") {
        r.push(Action::Disconnect);
        r.push(print("Disconnected"));
    } else if starts_with(command, token_prefix) {
        let token = skip_chars(command, token_prefix.unicode_len());
        let token = trim_matches(token, Pattern::Char('"'));
        r.push(user_set_option("token", token));
        r.push(print("Set Discord token"));
    } else if str_equal(command, "autostart") {
        r.push(set_option("autostart", "true"));
        r.push(print("Discord will now load on startup"));
    } else if str_equal(command, "noautostart") {
        r.push(set_option("autostart", "false"));
        r.push(print("Discord will not load on startup"));
    } else if starts_with(command, upload_prefix) {
        let file = skip_chars(command, upload_prefix.unicode_len());
        r.push(Action::Upload(String::from_str(file)));
    } else {
        r.push(print("Unknown command"));
    }
    assert(actions_view(r@) =~= command_plan(command@));
    r
}

/// The actions of `connect` once the `token` option has been read, given
/// whether a Discord session is open.
pub fn connect_step(token: Option<String>, connected: bool) -> (r: Vec<Action>)
    ensures
        actions_view(r@) == connect_plan(
            match token {
                Some(t) => Some(t@),
                None => None,
            },
            connected,
        ),
{
    let mut r: Vec<Action> = Vec::new();
    match token {
        None => {
            r.push(print("Error: plugins.var.weecord.token unset. Run:"));
            r.push(print("/discord token 123456789ABCDEF"));
        },
        Some(t) => {
            if !connected {
                r.push(Action::StartSession(t));
            }
        },
    }
    assert(actions_view(r@) =~= connect_plan(
        match token {
            Some(t) => Some(t@),
            None => None,
        },
        connected,
    ));
    r
}

/// The path `upload` sends for `file`, given the home directory, if any.
pub fn expand_home_dir(file: &str, home: Option<String>) -> (r: String)
    ensures
        r@ == expand_home(
            file@,
            match home {
                Some(h) => Some(h@),
                None => None,
            },
        ),
{
    if starts_with(file, "~/") {
        proof {
            reveal_strlit("~/");
        }
        let rest = skip_chars(file, 2);
        let dir = match home {
            Some(h) => h,
            None => String::from_str("."),
        };
        dir.concat("/").concat(rest)
    } else {
        String::from_str(file)
    }
}

/// The user's home directory, as `dirs::home_dir` finds it, converted to a
/// `String` (lossily, as the plugin has always done).
#[verifier::external_body]
fn home_dir() -> (r: Option<String>) {
    match dirs::home_dir() {
        Some(p) => Some(p.to_string_lossy().into_owned()),
        None => None,
    }
}

/// Whether `h` is an answer that `home_dir` can give: what a call of it
/// returned. Nothing else is said of it, as the answer depends on the
/// environment of the process.
pub closed spec fn home_dir_answer(h: Option<String>) -> bool {
    call_ensures(home_dir, (), h)
}

/// The view of an optional string.
pub open spec fn opt_view(h: Option<String>) -> Option<Seq<char>> {
    match h {
        Some(s) => Some(s@),
        None => None,
    }
}

/// The path `upload` sends for `file`: for a path that starts with `~/`,
/// the home directory that `home_dir` answers (or `.` when it answers
/// none), then `/`, then the rest of the path; any other path unchanged.
pub fn resolve_upload_path(file: &str) -> (r: String)
    ensures
        has_prefix(file@, "~/"@) ==> exists|home: Option<String>|
            #[trigger] home_dir_answer(home) && r@ == expand_home(file@, opt_view(home)),
        !has_prefix(file@, "~/"@) ==> r@ == file@,
{
    if starts_with(file, "~/") {
        let lookup = home_dir;
        let home = lookup();
        assert(home_dir_answer(home));
        let r = expand_home_dir(file, home);
        assert(r@ == expand_home(file@, opt_view(home)));
        r
    } else {
        let r = expand_home_dir(file, None);
        assert(r@ == expand_home(file@, None));
        r
    }
}

/// The line printed when the upload path cannot be resolved.
pub fn path_error_message(detail: &str) -> (r: String)
    ensures
        r@ == "Unable to resolve file path: "@ + detail@,
{
    String::from_str("Unable to resolve file path: ").concat(detail)
}

} // verus!
