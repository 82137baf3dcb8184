//! The session socket's messages and the environment that the compositor
//! announces over it.
use vstd::prelude::*;
use vstd::string::*;
use vstd::utf8::{decode_utf8, valid_utf8};

verus! {

/// A message on the session socket.
///
/// On the wire it is a JSON object tagged by its `"message"` field, in snake
/// case; the variables are an object from names to values.
pub enum Message {
    SetEnv { variables: Vec<(String, String)> },
}

impl Message {
    /// No variable name occurs twice in the message, as in the map that the
    /// message travels as.
    pub open spec fn well_formed(&self) -> bool {
        match self {
            Message::SetEnv { variables } => distinct_names(env_view(variables@)),
        }
    }
}

/// What the session announcement reads of the compositor's state.
pub struct Common {
    /// The name of the Wayland socket, as the operating system's bytes.
    pub socket: Vec<u8>,
    /// The X display number of the running Xwayland, if there is one.
    pub xwayland_display: Option<u32>,
}

/// Why the session environment cannot be built.
#[derive(Clone, Copy, Debug, PartialEq, Eq, Structural)]
pub enum SessionError {
    /// The Wayland socket's name is not valid UTF-8.
    SocketNotUtf8,
}

/// The character of the decimal digit `d` (`d < 10`).
pub open spec fn digit_char(d: nat) -> char {
    ((d + 48) as u8) as char
}

/// The decimal digits of `n`, most significant first, without leading zeros.
pub open spec fn decimal(n: nat) -> Seq<char>
    decreases n,
{
    if n < 10 {
        seq![digit_char(n)]
    } else {
        decimal(n / 10).push(digit_char(n % 10))
    }
}

/// The value of an X display variable for display number `n`: a colon, then `n` in decimal.
pub open spec fn display_value(n: nat) -> Seq<char> {
    seq![':'] + decimal(n)
}

/// The variables, as names and values, that announce `common`, or `None`
/// where the socket's name is not valid UTF-8.
pub open spec fn session_env(common: Common) -> Option<Seq<(Seq<char>, Seq<char>)>> {
    if !valid_utf8(common.socket@) {
        None
    } else {
        let wayland = seq![("WAYLAND_DISPLAY"@, decode_utf8(common.socket@))];
        match common.xwayland_display {
            Some(d) => Some(wayland.push(("DISPLAY"@, display_value(d as nat)))),
            None => Some(wayland),
        }
    }
}

/// The names and values of a list of variables.
pub open spec fn env_view(env: Seq<(String, String)>) -> Seq<(Seq<char>, Seq<char>)> {
    env.map_values(|v: (String, String)| (v.0@, v.1@))
}

/// No name occurs twice among the variables.
pub open spec fn distinct_names(env: Seq<(Seq<char>, Seq<char>)>) -> bool {
    forall|i: int, j: int| 0 <= i < j < env.len() ==> #[trigger] env[i].0 != #[trigger] env[j].0
}

/// `std::str::from_utf8`: the text that `bytes` encode when they are valid
/// UTF-8, and `None` otherwise.
#[verifier::external_body]
fn str_from_utf8(bytes: &[u8]) -> (text: Option<&str>)
    ensures
        text is Some <==> valid_utf8(bytes@),
        text matches Some(t) ==> t@ == decode_utf8(bytes@),
{
    std::str::from_utf8(bytes).ok()
}

/// `String::push`: appends `c` to `s`.
#[verifier::external_body]
fn string_push(s: &mut String, c: char)
    ensures
        final(s)@ == old(s)@.push(c),
{
    s.push(c)
}

/// Appends the decimal digits of `n` to `s`.
fn push_decimal(s: &mut String, n: u32)
    ensures
        final(s)@ == old(s)@ + decimal(n as nat),
    decreases n,
{
    if n >= 10 {
        push_decimal(s, n / 10);
    }
    let digit = (n % 10) as u8;
    string_push(s, (digit + 48) as char);
    assert(final(s)@ =~= old(s)@ + decimal(n as nat)) by {
        if n >= 10 {
            assert(old(s)@ + decimal((n / 10) as nat) + seq![digit_char((n % 10) as nat)] =~= old(
                s,
            )@ + decimal(n as nat));
        }
    }
}

/// The environment variables that the compositor announces to the session:
/// `WAYLAND_DISPLAY`, the Wayland socket's name, and, while Xwayland runs,
/// `DISPLAY`, a colon and its display number.
pub fn get_env(common: &Common) -> (env: Result<Vec<(String, String)>, SessionError>)
    ensures
        match env {
            Ok(vars) => session_env(*common) == Some(env_view(vars@)) && distinct_names(
                env_view(vars@),
            ),
            Err(e) => session_env(*common) is None && e == SessionError::SocketNotUtf8,
        },
{
    let socket = match str_from_utf8(common.socket.as_slice()) {
        Some(text) => text.to_owned(),
        None => return Err(SessionError::SocketNotUtf8),
    };
    let mut env: Vec<(String, String)> = Vec::new();
    env.push((String::from_str("WAYLAND_DISPLAY"), socket));
    if let Some(display) = common.xwayland_display {
        let mut value = String::from_str(":");
        proof {
            reveal_strlit(":");
        }
        push_decimal(&mut value, display);
        env.push((String::from_str("DISPLAY"), value));
    }
    proof {
        let expected = session_env(*common).unwrap();
        assert(env_view(env@).len() == expected.len());
        assert(env_view(env@)[0] == expected[0]);
        if common.xwayland_display is Some {
            assert(env_view(env@)[1] == expected[1]);
        }
    }
    assert(env_view(env@) =~= session_env(*common).unwrap());
    proof {
        reveal_strlit("WAYLAND_DISPLAY");
        reveal_strlit("DISPLAY");
        assert("WAYLAND_DISPLAY"@.len() != "DISPLAY"@.len());
    }
    Ok(env)
}

/// Whether `b` is the byte of an ASCII decimal digit.
pub open spec fn is_digit(b: u8) -> bool {
    48 <= b <= 57
}

/// The value of a string of ASCII decimal digits.
pub open spec fn digits_value(digits: Seq<u8>) -> nat
    decreases digits.len(),
{
    if digits.len() == 0 {
        0
    } else {
        10 * digits_value(digits.drop_last()) + (digits.last() - 48) as nat
    }
}

/// Whether `digits` is a non-empty string of ASCII decimal digits.
pub open spec fn all_digits(digits: Seq<u8>) -> bool {
    digits.len() > 0 && forall|i: int| 0 <= i < digits.len() ==> #[trigger] is_digit(digits[i])
}

/// The `i32` that the text with UTF-8 bytes `text` spells in decimal: an
/// optional `+` or `-`, then one digit or more, and a value that an `i32`
/// holds; `None` for any other text.
pub open spec fn parse_i32(text: Seq<u8>) -> Option<i32> {
    if text.len() > 0 && text[0] == 45 {
        let digits = text.drop_first();
        if all_digits(digits) && digits_value(digits) <= 0x8000_0000 {
            Some((0 - digits_value(digits)) as i32)
        } else {
            None
        }
    } else {
        let digits = if text.len() > 0 && text[0] == 43 {
            text.drop_first()
        } else {
            text
        };
        if all_digits(digits) && digits_value(digits) <= 0x7fff_ffff {
            Some(digits_value(digits) as i32)
        } else {
            None
        }
    }
}

proof fn lemma_digits_value_grows(digits: Seq<u8>, i: int)
    requires
        0 <= i <= digits.len(),
        forall|k: int| 0 <= k < digits.len() ==> #[trigger] is_digit(digits[k]),
    ensures
        digits_value(digits.subrange(0, i)) <= digits_value(digits),
    decreases digits.len() - i,
{
    if i < digits.len() {
        lemma_digits_value_grows(digits, i + 1);
        let longer = digits.subrange(0, i + 1);
        assert(longer.drop_last() =~= digits.subrange(0, i));
    } else {
        assert(digits.subrange(0, i) =~= digits);
    }
}

/// Reads the file descriptor number that the session passes in its
/// environment: the text's value as an `i32`, in decimal, or `None` where the
/// text is not one.
pub fn parse_raw_fd(text: &str) -> (fd: Option<i32>)
    ensures
        fd == parse_i32(text.spec_bytes()),
{
    let bytes = text.as_bytes();
    let ghost t = bytes@;
    let negative = bytes.len() > 0 && bytes[0] == 45;
    let start: usize = if bytes.len() > 0 && (bytes[0] == 45 || bytes[0] == 43) {
        1
    } else {
        0
    };
    let ghost digits = t.subrange(start as int, t.len() as int);
    assert(start == 1 ==> digits =~= t.drop_first());
    assert(start == 0 ==> digits =~= t);
    let limit: u64 = if negative {
        0x8000_0000
    } else {
        0x7fff_ffff
    };
    if start == bytes.len() {
        return None;
    }
    let mut value: u64 = 0;
    let mut i: usize = start;
    while i < bytes.len()
        invariant
            start <= i <= t.len(),
            bytes@ == t,
            digits == t.subrange(start as int, t.len() as int),
            forall|k: int| start <= k < i ==> #[trigger] is_digit(t[k]),
            value == digits_value(t.subrange(start as int, i as int)),
            value <= limit,
            limit == (if negative { 0x8000_0000u64 } else { 0x7fff_ffffu64 }),
            negative == (t.len() > 0 && t[0] == 45),
            start == 1 ==> digits =~= t.drop_first(),
            start == 0 ==> digits =~= t,
            start == (if t.len() > 0 && (t[0] == 45 || t[0] == 43) { 1usize } else { 0usize }),
            t == text.spec_bytes(),
        decreases t.len() - i,
    {
        let b = bytes[i];
        if b < 48 || b > 57 {
            assert(digits[i - start] == b);
            assert(!is_digit(digits[i - start]));
            assert(!all_digits(digits));
            return None;
        }
        let next = value * 10 + (b - 48) as u64;
        assert(t.subrange(start as int, i + 1).drop_last() =~= t.subrange(start as int, i as int));
        assert(t.subrange(start as int, i + 1).last() == b);
        assert(digits_value(t.subrange(start as int, i + 1)) == next);
        if next > limit {
            proof {
                if all_digits(digits) {
                    lemma_digits_value_grows(digits, i + 1 - start);
                    assert(digits.subrange(0, i + 1 - start) =~= t.subrange(start as int, i + 1));
                }
            }
            return None;
        }
        value = next;
        i = i + 1;
    }
    assert(t.subrange(start as int, t.len() as int) =~= digits);
    if negative {
        Some((0 - (value as i64)) as i32)
    } else {
        Some(value as i32)
    }
}

/// The message that announces the compositor's environment to the session:
/// `SetEnv` with the variables of `get_env`.
pub fn session_message(common: &Common) -> (message: Result<Message, SessionError>)
    ensures
        match message {
            Ok(m) => {
                &&& m.well_formed()
                &&& m matches Message::SetEnv { variables } && session_env(*common) == Some(
                    env_view(variables@),
                )
            },
            Err(e) => session_env(*common) is None && e == SessionError::SocketNotUtf8,
        },
{
    match get_env(common) {
        Ok(variables) => Ok(Message::SetEnv { variables }),
        Err(e) => Err(e),
    }
}
} // verus!
