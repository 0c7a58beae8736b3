//! Desktop notifications: which notifier to use, and the command each one
//! runs to show a message.
use vstd::prelude::*;
use crate::text::{append_str, chars_of, string_from_chars};

verus! {

/// A command to run: the program, its arguments and extra environment
/// variables.
pub struct Command {
    pub program: String,
    pub args: Vec<String>,
    pub env: Vec<(String, String)>,
}

/// The view of a command.
pub open spec fn command_view(c: Command) -> (Seq<char>, Seq<Seq<char>>, Seq<(Seq<char>, Seq<char>)>) {
    (
        c.program@,
        c.args@.map_values(|a: String| a@),
        c.env@.map_values(|p: (String, String)| (p.0@, p.1@)),
    )
}

/// `text` with each `"` escaped as `\"`.
pub open spec fn escape_quotes(text: Seq<char>) -> Seq<char>
    decreases text.len(),
{
    if text.len() == 0 {
        seq![]
    } else {
        escape_quotes(text.drop_last()) + if text.last() == '"' {
            seq!['\\', '"']
        } else {
            seq![text.last()]
        }
    }
}

/// Something that shows notifications by running a command.
pub trait Notifier {
    /// The command that shows `message`, if any.
    fn command(&self, message: &str) -> Option<Command>;
}

/// Shows notifications in tmux's status line; holds the path of `tmux`.
pub struct TmuxNotifier(pub String);

/// Shows desktop notifications with `notify-send`; holds its path.
pub struct LibNotifyNotifier(pub String);

/// Shows macOS notifications with `osascript`; holds its path.
pub struct AppleScriptNotifier(pub String);

/// Runs a user-given shell command, with the message in `$TEXT`.
pub struct CustomNotifier(pub String);

/// Shows nothing.
pub struct NullNotifier;

fn copy(s: &str) -> (r: String)
    ensures
        r@ == s@,
{
    s.to_owned()
}

impl TmuxNotifier {
    /// `tmux display-message "asciinema: <message>"`.
    pub fn notify_command(&self, message: &str) -> (c: Command)
        ensures
            command_view(c) == (self.0@, seq!["display-message"@, "asciinema: "@ + message@], Seq::<(Seq<char>, Seq<char>)>::empty()),
    {
        let mut text = chars_of("asciinema: ");
        append_str(&mut text, message);
        let args = vec!["display-message".to_owned(), string_from_chars(text.as_slice())];
        let c = Command { program: copy(self.0.as_str()), args, env: Vec::new() };
        assert(command_view(c).1 =~= seq!["display-message"@, "asciinema: "@ + message@]);
        assert(command_view(c).2 =~= Seq::<(Seq<char>, Seq<char>)>::empty());
        c
    }
}

impl LibNotifyNotifier {
    /// `notify-send asciinema <message>`.
    pub fn notify_command(&self, message: &str) -> (c: Command)
        ensures
            command_view(c) == (self.0@, seq!["asciinema"@, message@], Seq::<(Seq<char>, Seq<char>)>::empty()),
    {
        let args = vec!["asciinema".to_owned(), copy(message)];
        let c = Command { program: copy(self.0.as_str()), args, env: Vec::new() };
        assert(command_view(c).1 =~= seq!["asciinema"@, message@]);
        assert(command_view(c).2 =~= Seq::<(Seq<char>, Seq<char>)>::empty());
        c
    }
}

/// The AppleScript that shows `message`, its quotes escaped.
pub open spec fn apple_script(message: Seq<char>) -> Seq<char> {
    "display notification \""@ + escape_quotes(message) + "\" with title \"asciinema\""@
}

impl AppleScriptNotifier {
    /// `osascript -e 'display notification "<message>" with title "asciinema"'`.
    pub fn notify_command(&self, message: &str) -> (c: Command)
        ensures
            command_view(c) == (self.0@, seq!["-e"@, apple_script(message@)], Seq::<(Seq<char>, Seq<char>)>::empty()),
    {
        let m = chars_of(message);
        let mut script = chars_of("display notification \"");
        let ghost base = script@;
        let mut i: usize = 0;
        while i < m.len()
            invariant
                i <= m@.len(),
                m@ == message@,
                script@ == base + escape_quotes(m@.take(i as int)),
            decreases m@.len() - i,
        {
            assert(m@.take(i + 1).drop_last() =~= m@.take(i as int));
            if m[i] == '"' {
                script.push('\\');
                script.push('"');
            } else {
                script.push(m[i]);
            }
            i = i + 1;
            assert(script@ =~= base + escape_quotes(m@.take(i as int)));
        }
        assert(m@.take(i as int) =~= m@);
        append_str(&mut script, "\" with title \"asciinema\"");
        let args = vec!["-e".to_owned(), string_from_chars(script.as_slice())];
        let c = Command { program: copy(self.0.as_str()), args, env: Vec::new() };
        assert(command_view(c).1 =~= seq!["-e"@, apple_script(message@)]);
        assert(command_view(c).2 =~= Seq::<(Seq<char>, Seq<char>)>::empty());
        c
    }
}

impl CustomNotifier {
    /// `/bin/sh -c <command>` with the message in `$TEXT`.
    pub fn notify_command(&self, message: &str) -> (c: Command)
        ensures
            command_view(c) == ("/bin/sh"@, seq!["-c"@, self.0@], seq![("TEXT"@, message@)]),
    {
        let args = vec!["-c".to_owned(), copy(self.0.as_str())];
        let env = vec![("TEXT".to_owned(), copy(message))];
        let c = Command { program: "/bin/sh".to_owned(), args, env };
        assert(command_view(c).1 =~= seq!["-c"@, self.0@]);
        assert(command_view(c).2 =~= seq![("TEXT"@, message@)]);
        c
    }
}

/// The command tmux is run with to show `message`.
pub open spec fn tmux_command(path: Seq<char>, message: Seq<char>) -> (
    Seq<char>,
    Seq<Seq<char>>,
    Seq<(Seq<char>, Seq<char>)>,
) {
    (path, seq!["display-message"@, "asciinema: "@ + message], Seq::empty())
}

/// The command `notify-send` is run with to show `message`.
pub open spec fn libnotify_command(path: Seq<char>, message: Seq<char>) -> (
    Seq<char>,
    Seq<Seq<char>>,
    Seq<(Seq<char>, Seq<char>)>,
) {
    (path, seq!["asciinema"@, message], Seq::empty())
}

/// The command `osascript` is run with to show `message`.
pub open spec fn applescript_command(path: Seq<char>, message: Seq<char>) -> (
    Seq<char>,
    Seq<Seq<char>>,
    Seq<(Seq<char>, Seq<char>)>,
) {
    (path, seq!["-e"@, apple_script(message)], Seq::empty())
}

/// The shell command a custom notifier runs to show `message`.
pub open spec fn custom_command(command: Seq<char>, message: Seq<char>) -> (
    Seq<char>,
    Seq<Seq<char>>,
    Seq<(Seq<char>, Seq<char>)>,
) {
    ("/bin/sh"@, seq!["-c"@, command], seq![("TEXT"@, message)])
}

impl Notifier for TmuxNotifier {
    fn command(&self, message: &str) -> (r: Option<Command>)
        ensures
            r matches Some(c) && command_view(c) == tmux_command(self.0@, message@),
    {
        Some(self.notify_command(message))
    }
}

impl Notifier for LibNotifyNotifier {
    fn command(&self, message: &str) -> (r: Option<Command>)
        ensures
            r matches Some(c) && command_view(c) == libnotify_command(self.0@, message@),
    {
        Some(self.notify_command(message))
    }
}

impl Notifier for AppleScriptNotifier {
    fn command(&self, message: &str) -> (r: Option<Command>)
        ensures
            r matches Some(c) && command_view(c) == applescript_command(self.0@, message@),
    {
        Some(self.notify_command(message))
    }
}

impl Notifier for CustomNotifier {
    fn command(&self, message: &str) -> (r: Option<Command>)
        ensures
            r matches Some(c) && command_view(c) == custom_command(self.0@, message@),
    {
        Some(self.notify_command(message))
    }
}

impl Notifier for NullNotifier {
    fn command(&self, message: &str) -> (r: Option<Command>)
        ensures
            r is None,
    {
        None
    }
}

/// The notifier in use.
pub enum AnyNotifier {
    Tmux(TmuxNotifier),
    LibNotify(LibNotifyNotifier),
    AppleScript(AppleScriptNotifier),
    Custom(CustomNotifier),
    Null(NullNotifier),
}

impl Notifier for AnyNotifier {
    /// The command of the chosen notifier; none for the null notifier.
    fn command(&self, message: &str) -> (r: Option<Command>)
        ensures
            match *self {
                AnyNotifier::Tmux(n) => r matches Some(c) && command_view(c) == tmux_command(
                    n.0@,
                    message@,
                ),
                AnyNotifier::LibNotify(n) => r matches Some(c) && command_view(c)
                    == libnotify_command(n.0@, message@),
                AnyNotifier::AppleScript(n) => r matches Some(c) && command_view(c)
                    == applescript_command(n.0@, message@),
                AnyNotifier::Custom(n) => r matches Some(c) && command_view(c) == custom_command(
                    n.0@,
                    message@,
                ),
                AnyNotifier::Null(_) => r is None,
            },
    {
        match self {
            AnyNotifier::Tmux(n) => Some(n.notify_command(message)),
            AnyNotifier::LibNotify(n) => Some(n.notify_command(message)),
            AnyNotifier::AppleScript(n) => Some(n.notify_command(message)),
            AnyNotifier::Custom(n) => Some(n.notify_command(message)),
            AnyNotifier::Null(_) => None,
        }
    }
}

/// The view of a chosen notifier: its kind and the string it holds.
pub open spec fn notifier_view(n: AnyNotifier) -> (u8, Seq<char>) {
    match n {
        AnyNotifier::Tmux(t) => (0, t.0@),
        AnyNotifier::LibNotify(t) => (1, t.0@),
        AnyNotifier::AppleScript(t) => (2, t.0@),
        AnyNotifier::Custom(t) => (3, t.0@),
        AnyNotifier::Null(_) => (4, seq![]),
    }
}

/// Picks the notifier: a custom command when one is configured, else tmux
/// when running inside tmux (`tmux`: the path of `tmux` when `$TMUX` is set
/// and the program was found), else `notify-send`, else `osascript`, each
/// when found, else none.
pub fn get_notifier(
    custom_command: Option<String>,
    tmux: Option<String>,
    notify_send: Option<String>,
    osascript: Option<String>,
) -> (n: AnyNotifier)
    ensures
        notifier_view(n) == match custom_command {
            Some(c) => (3u8, c@),
            None => match tmux {
                Some(p) => (0u8, p@),
                None => match notify_send {
                    Some(p) => (1u8, p@),
                    None => match osascript {
                        Some(p) => (2u8, p@),
                        None => (4u8, Seq::<char>::empty()),
                    },
                },
            },
        },
{
    if let Some(command) = custom_command {
        AnyNotifier::Custom(CustomNotifier(command))
    } else if let Some(path) = tmux {
        AnyNotifier::Tmux(TmuxNotifier(path))
    } else if let Some(path) = notify_send {
        AnyNotifier::LibNotify(LibNotifyNotifier(path))
    } else if let Some(path) = osascript {
        AnyNotifier::AppleScript(AppleScriptNotifier(path))
    } else {
        AnyNotifier::Null(NullNotifier)
    }
}

} // verus!
