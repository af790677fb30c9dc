//! Glue between the niri compositor and status-bar environments.
//!
//! The heart of the crate is the keyboard-layout monitor: a resolver that
//! rewrites raw layout names through a user-supplied alias table, and a small
//! state machine that tracks the layout list and the selected index while
//! turning compositor events into status-bar lines. Everything here is plain
//! computation; the socket transport and argument parsing live in the
//! surrounding binary, which hands this library plain values.

use vstd::prelude::*;

pub mod layout;

pub use layout::Layout;
pub use layout::SwitchLayout;

verus! {

/// The list of available formats of output messages.
#[derive(Debug, Clone, PartialEq, Eq, Structural)]
pub enum Format {
    /// The waybar custom module format.
    Waybar,
}

/// Check niri availability.
///
/// The surrounding binary connects to the socket before dispatching; reaching
/// this command at all means the connection succeeded, so it carries no data
/// and does no further work.
#[derive(Debug, Clone)]
pub struct TestSocket {}

/// The list of supported commands.
#[derive(Debug, Clone)]
pub enum Command {
    /// Check niri availability.
    Test(TestSocket),
    /// Keyboard layout monitor.
    Layout(Layout),
    /// Keyboard layout switcher.
    SwitchLayout(SwitchLayout),
}

/// Top-level arguments structure.
pub struct Args {
    /// The procedure to run.
    pub command: Command,
    /// Optional path to the niri socket.
    pub path: Option<String>,
    /// The format of output messages.
    pub format: Format,
}

/// The error returned when an alias definition lacks the `=` separator.
#[derive(Debug)]
pub struct KeyValError {
    /// The offending input, kept verbatim.
    pub input: String,
}

/// The message text for a [`KeyValError`] over the offending input.
pub open spec fn key_val_error_message(input: Seq<char>) -> Seq<char> {
    "invalid KEY=value: no `=` found in `"@ + input + "`"@
}

impl KeyValError {
    /// A descriptive message naming the offending input.
    pub fn message(&self) -> (r: String)
        ensures
            r@ == key_val_error_message(self.input@),
    {
        let mut r = String::from_str("invalid KEY=value: no `=` found in `");
        r.append(self.input.as_str());
        r.append("`");
        r
    }
}

/// Splits a `KEY=value` argument at the first `=`.
///
/// Returns the text before the first `=` and the text after it; an input
/// without `=` is rejected with an error that keeps the input verbatim.
pub fn parse_key_val(s: &str) -> (r: Result<(String, String), KeyValError>)
    ensures
        (r is Err) <==> (forall|i: int| 0 <= i < s@.len() ==> s@[i] != '='),
        r matches Err(e) ==> e.input@ == s@,
        r matches Ok(kv) ==> exists|i: int|
            0 <= i < s@.len() && s@[i] == '=' && (forall|k: int| 0 <= k < i ==> s@[k] != '=')
                && kv.0@ == s@.subrange(0, i) && kv.1@ == s@.subrange(i + 1, s@.len() as int),
{
    let n = s.unicode_len();
    let mut i: usize = 0;
    while i < n
        invariant
            i <= n,
            n == s@.len(),
            forall|k: int| 0 <= k < i ==> s@[k] != '=',
        decreases n - i,
    {
        if s.get_char(i) == '=' {
            let key = String::from_str(s.substring_char(0, i));
            let value = String::from_str(s.substring_char(i + 1, n));
            return Ok((key, value));
        }
        i = i + 1;
    }
    Err(KeyValError { input: String::from_str(s) })
}

} // verus!
