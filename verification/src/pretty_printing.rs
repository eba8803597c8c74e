use vstd::prelude::*;

verus! {

/// Different log-types that can be used to print out messages in different colors
#[derive(Debug, Clone, Copy, PartialEq, Eq, Structural)]
pub enum LogType {
    Neutral,
    Success,
    Failure,
}

/// The terminal escape sequence that ends a colored span
pub open spec fn reset_code() -> Seq<char> {
    "\x1B[0m"@
}

/// `format!` of std on two strings: the text of `a` followed by that of `b`.
#[verifier::external_body]
fn joined(a: &str, b: &str) -> (r: String)
    ensures
        r@ == a@ + b@,
{
    format!("{}{}", a, b)
}

/// `text` between the escape sequence `code` and the one that ends the color
fn paint(code: &str, text: &str) -> (r: String)
    ensures
        r@ == code@ + text@ + reset_code(),
{
    let start = joined(code, text);
    let r = joined(start.as_str(), "\x1B[0m");
    proof {
        reveal_strlit("\x1B[0m");
    }
    r
}

/// Color a string green
pub struct Green(pub &'static str);

/// Color a string blue
pub struct Blue(pub &'static str);

/// Color a string red
pub struct Red(pub &'static str);

impl Green {
    /// The string, colored for the terminal
    pub fn to_string(&self) -> (r: String)
        ensures
            r@ == "\x1B[32m"@ + self.0@ + reset_code(),
    {
        paint("\x1B[32m", self.0)
    }
}

impl Blue {
    /// The string, colored for the terminal
    pub fn to_string(&self) -> (r: String)
        ensures
            r@ == "\x1B[34m"@ + self.0@ + reset_code(),
    {
        paint("\x1B[34m", self.0)
    }
}

impl Red {
    /// The string, colored for the terminal
    pub fn to_string(&self) -> (r: String)
        ensures
            r@ == "\x1B[31m"@ + self.0@ + reset_code(),
    {
        paint("\x1B[31m", self.0)
    }
}

/// The line that a log message of the given type prints: a colored marker (`[-]`, `[+]` or
/// `[!]`), a space, and the message
pub fn log_line(color: LogType, msg: &str) -> (r: String)
    ensures
        r@ == match color {
            LogType::Neutral => "\x1B[34m"@ + "[-]"@ + reset_code(),
            LogType::Success => "\x1B[32m"@ + "[+]"@ + reset_code(),
            LogType::Failure => "\x1B[31m"@ + "[!]"@ + reset_code(),
        } + " "@ + msg@,
{
    let marker = match color {
        LogType::Neutral => Blue("[-]").to_string(),
        LogType::Success => Green("[+]").to_string(),
        LogType::Failure => Red("[!]").to_string(),
    };
    let spaced = joined(marker.as_str(), " ");
    joined(spaced.as_str(), msg)
}

} // verus!
