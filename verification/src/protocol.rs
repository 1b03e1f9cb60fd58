//! The wire commands: one line in, one command out, and the reply a `get`
//! earns, with the engine's sentinel error texts mapped to short stable
//! replies. A malformed line is answered and changes nothing.
use vstd::prelude::*;

use crate::coordinator::Coordinator;
use crate::eval::resolves_to;
use crate::names::first_at;
use crate::value::{Value, ValueModel};

verus! {

/// One parsed client command; `Invalid` carries the error reply its line
/// earns.
#[derive(Debug, PartialEq, Eq)]
pub enum Command {
    GetCell(String),
    SetCell(String, String),
    Invalid(String),
}

pub enum CommandModel {
    GetCell(Seq<char>),
    SetCell(Seq<char>, Seq<char>),
    Invalid(Seq<char>),
}

impl View for Command {
    type V = CommandModel;

    open spec fn view(&self) -> CommandModel {
        match self {
            Command::GetCell(n) => CommandModel::GetCell(n@),
            Command::SetCell(n, e) => CommandModel::SetCell(n@, e@),
            Command::Invalid(m) => CommandModel::Invalid(m@),
        }
    }
}

/// One reply to a client: a value, or a short error line.
#[derive(Debug, PartialEq, Eq)]
pub enum Reply {
    Value(String, Value),
    Error(String),
}

pub enum ReplyModel {
    Value(Seq<char>, ValueModel),
    Error(Seq<char>),
}

impl View for Reply {
    type V = ReplyModel;

    open spec fn view(&self) -> ReplyModel {
        match self {
            Reply::Value(n, v) => ReplyModel::Value(n@, v@),
            Reply::Error(m) => ReplyModel::Error(m@),
        }
    }
}

/// The Unicode white-space characters, as std's `trim` strips them.
pub open spec fn is_space(c: char) -> bool {
    let u = c as u32;
    (9 <= u && u <= 13) || u == 32 || u == 0x85 || u == 0xA0 || u == 0x1680 || (0x2000 <= u && u
        <= 0x200A) || u == 0x2028 || u == 0x2029 || u == 0x202F || u == 0x205F || u == 0x3000
}

fn is_blank(c: char) -> (r: bool)
    ensures
        r == is_space(c),
{
    let u = c as u32;
    (9 <= u && u <= 13) || u == 32 || u == 0x85 || u == 0xA0 || u == 0x1680 || (0x2000 <= u && u
        <= 0x200A) || u == 0x2028 || u == 0x2029 || u == 0x202F || u == 0x205F || u == 0x3000
}

/// How many blank characters the line starts with.
pub open spec fn lead_ws(s: Seq<char>) -> nat
    decreases s.len(),
{
    if s.len() > 0 && is_space(s[0]) {
        1 + lead_ws(s.subrange(1, s.len() as int))
    } else {
        0
    }
}

/// How many blank characters the line ends with.
pub open spec fn trail_ws(s: Seq<char>) -> nat
    decreases s.len(),
{
    if s.len() > 0 && is_space(s.last()) {
        1 + trail_ws(s.drop_last())
    } else {
        0
    }
}

/// The line with leading and trailing blanks removed.
pub open spec fn trimmed(s: Seq<char>) -> Seq<char> {
    if lead_ws(s) == s.len() {
        Seq::empty()
    } else {
        s.subrange(lead_ws(s) as int, s.len() - trail_ws(s))
    }
}

/// What one line of input means. The first word picks the command; `get`
/// takes the whole rest as the cell name; `set` takes the next word as the
/// cell name and everything after it as the formula text, which must not be
/// empty. Anything else is an invalid command.
pub open spec fn spec_parse_command(msg: Seq<char>) -> CommandModel {
    let t = trimmed(msg);
    let i = first_at(t, ' ', 0);
    if i == t.len() {
        if t == "get"@ {
            CommandModel::Invalid("Invalid get command"@)
        } else if t == "set"@ {
            CommandModel::Invalid("Invalid set command"@)
        } else {
            CommandModel::Invalid("Invalid command"@)
        }
    } else {
        let head = t.subrange(0, i);
        let rest = t.subrange(i + 1, t.len() as int);
        if head == "get"@ {
            CommandModel::GetCell(rest)
        } else if head == "set"@ {
            let j = first_at(rest, ' ', 0);
            if j == rest.len() {
                CommandModel::Invalid("Invalid command"@)
            } else {
                let name = rest.subrange(0, j);
                let expr = rest.subrange(j + 1, rest.len() as int);
                if expr.len() == 0 {
                    CommandModel::Invalid("Invalid command"@)
                } else {
                    CommandModel::SetCell(name, expr)
                }
            }
        } else {
            CommandModel::Invalid("Invalid command"@)
        }
    }
}

proof fn lemma_lead_ws_is(s: Seq<char>, k: int)
    requires
        0 <= k <= s.len(),
        forall|i: int| 0 <= i < k ==> is_space(s[i]),
        k < s.len() ==> !is_space(s[k]),
    ensures
        lead_ws(s) == k,
    decreases s.len(),
{
    if s.len() > 0 && is_space(s[0]) {
        let t = s.subrange(1, s.len() as int);
        assert(forall|i: int| 0 <= i < k - 1 ==> is_space(t[i]));
        lemma_lead_ws_is(t, k - 1);
    }
}

proof fn lemma_trail_ws_is(s: Seq<char>, m: int)
    requires
        0 <= m <= s.len(),
        forall|i: int| s.len() - m <= i < s.len() ==> is_space(s[i]),
        m < s.len() ==> !is_space(s[s.len() - 1 - m]),
    ensures
        trail_ws(s) == m,
    decreases s.len(),
{
    if s.len() > 0 && is_space(s.last()) {
        let t = s.drop_last();
        assert(forall|i: int| t.len() - (m - 1) <= i < t.len() ==> is_space(t[i]));
        lemma_trail_ws_is(t, m - 1);
    }
}

/// Strip leading and trailing white space from the line.
fn trim_line(s: &str) -> (r: &str)
    ensures
        r@ == trimmed(s@),
{
    let n = s.unicode_len();
    let mut a: usize = 0;
    loop
        invariant
            0 <= a <= n,
            n == s@.len(),
            forall|i: int| 0 <= i < a ==> is_space(s@[i]),
        ensures
            0 <= a <= n,
            forall|i: int| 0 <= i < a ==> is_space(s@[i]),
            a < n ==> !is_space(s@[a as int]),
        decreases n - a,
    {
        if a >= n {
            break;
        }
        if !is_blank(s.get_char(a)) {
            break;
        }
        a = a + 1;
    }
    if a == n {
        proof {
            lemma_lead_ws_is(s@, n as int);
        }
        return s.substring_char(n, n);
    }
    proof {
        lemma_lead_ws_is(s@, a as int);
    }
    let mut b: usize = n;
    loop
        invariant
            a < b <= n || b == n,
            a < n,
            n == s@.len(),
            !is_space(s@[a as int]),
            forall|i: int| b <= i < n ==> is_space(s@[i]),
        ensures
            a < b <= n,
            forall|i: int| b <= i < n ==> is_space(s@[i]),
            !is_space(s@[b - 1]),
        decreases b,
    {
        if !is_blank(s.get_char(b - 1)) {
            break;
        }
        proof {
            assert(b - 1 > a) by {
                assert(is_space(s@[b - 1]));
            }
        }
        b = b - 1;
    }
    proof {
        lemma_trail_ws_is(s@, n - b);
    }
    s.substring_char(a, b)
}

/// Parse one line into the command it means, mirroring
/// `spec_parse_command` exactly.
pub fn parse_command(msg: &str) -> (c: Command)
    ensures
        c@ == spec_parse_command(msg@),
{
    let t = trim_line(msg);
    let n = t.unicode_len();
    let i = crate::names::find_char_from(t, n, ' ', 0);
    if i == n {
        let tw = t.to_owned();
        if tw == "get".to_owned() {
            Command::Invalid("Invalid get command".to_owned())
        } else if tw == "set".to_owned() {
            Command::Invalid("Invalid set command".to_owned())
        } else {
            Command::Invalid("Invalid command".to_owned())
        }
    } else {
        let head = t.substring_char(0, i).to_owned();
        let rest = t.substring_char(i + 1, n);
        if head == "get".to_owned() {
            Command::GetCell(rest.to_owned())
        } else if head == "set".to_owned() {
            let m = rest.unicode_len();
            let j = crate::names::find_char_from(rest, m, ' ', 0);
            if j == m {
                Command::Invalid("Invalid command".to_owned())
            } else {
                let name = rest.substring_char(0, j).to_owned();
                let expr = rest.substring_char(j + 1, m);
                if expr.unicode_len() == 0 {
                    Command::Invalid("Invalid command".to_owned())
                } else {
                    Command::SetCell(name, expr.to_owned())
                }
            }
        } else {
            Command::Invalid("Invalid command".to_owned())
        }
    }
}

/// The engine's full text for a circular reference it hit while running a
/// formula.
pub open spec fn runtime_circular_text() -> Seq<char> {
    "Runtime error: Unknown value: \"Circular dependency detected\" (line 1, position 1)"@
}

/// The engine's text for a misuse of `this` inside a formula.
pub open spec fn this_misuse_text() -> Seq<char> {
    "'this' can only be used in functions (line 1, position 7)"@
}

/// The reply a `get` earns for a stored value: recognised sentinel error
/// texts become short stable error replies, everything else passes through
/// as a value reply under the cell's name.
pub open spec fn spec_reply_for(name: Seq<char>, v: ValueModel) -> ReplyModel {
    match v {
        ValueModel::Text(e) => if e == runtime_circular_text() {
            ReplyModel::Error("Circular dependency"@)
        } else if e == this_misuse_text() {
            ReplyModel::Error("this err"@)
        } else if e == crate::value::circular_message() {
            ReplyModel::Error("Circular dependency"@)
        } else {
            ReplyModel::Value(name, v)
        },
        ValueModel::Error(e) => if e == runtime_circular_text() {
            ReplyModel::Error("Circular dependency"@)
        } else {
            ReplyModel::Value(name, v)
        },
        _ => ReplyModel::Value(name, v),
    }
}

/// Map one read value to the reply sent for it.
pub fn reply_for_get(cell_name: String, v: Value) -> (r: Reply)
    ensures
        r@ == spec_reply_for(cell_name@, v@),
{
    let rt =
        "Runtime error: Unknown value: \"Circular dependency detected\" (line 1, position 1)".to_owned();
    match &v {
        Value::Text(e) => {
            if *e == rt {
                return Reply::Error("Circular dependency".to_owned());
            }
            if *e == "'this' can only be used in functions (line 1, position 7)".to_owned() {
                return Reply::Error("this err".to_owned());
            }
            if *e == "Circular dependency detected".to_owned() {
                return Reply::Error("Circular dependency".to_owned());
            }
            Reply::Value(cell_name, v)
        },
        Value::Error(e) => {
            if *e == rt {
                return Reply::Error("Circular dependency".to_owned());
            }
            Reply::Value(cell_name, v)
        },
        _ => Reply::Value(cell_name, v),
    }
}

/// Run one line against the store: the reply to send (if any) and the cell
/// name to announce as changed (if any). A `get` reads and never writes; a
/// `set` writes, evaluates the one cell, and announces it; a malformed line
/// is answered and leaves both maps unchanged.
pub fn process_message(coord: &mut Coordinator, msg: &str) -> (r: (Option<Reply>, Option<String>))
    ensures
        ({
            let c = spec_parse_command(msg@);
            match c {
                CommandModel::Invalid(m) => final(coord).formulas() == old(coord).formulas()
                    && final(coord).values() == old(coord).values()
                    && (r.0 matches Some(rep) && rep@ == ReplyModel::Error(m))
                    && r.1 is None,
                CommandModel::GetCell(name) => final(coord).formulas() == old(coord).formulas()
                    && final(coord).values() == old(coord).values()
                    && (r.0 matches Some(rep) && rep@ == spec_reply_for(
                        name,
                        if old(coord).values().dom().contains(name) {
                            old(coord).values()[name]
                        } else {
                            ValueModel::Empty
                        },
                    ))
                    && r.1 is None,
                CommandModel::SetCell(name, expr) => final(coord).formulas()
                    == old(coord).formulas().insert(name, expr)
                    && final(coord).values() == old(coord).values().insert(
                        name,
                        final(coord).values()[name],
                    )
                    && resolves_to(
                        final(coord).formulas(),
                        name,
                        Set::empty(),
                        final(coord).values()[name],
                    )
                    && r.0 is None
                    && (r.1 matches Some(ch) && ch@ == name),
            }
        }),
{
    match parse_command(msg) {
        Command::Invalid(m) => (Some(Reply::Error(m)), None),
        Command::GetCell(name) => {
            let v = coord.get_cell(name.as_str());
            (Some(reply_for_get(name, v)), None)
        },
        Command::SetCell(name, expr) => {
            coord.set_cell(name.as_str(), expr.as_str());
            (None, Some(name))
        },
    }
}

} // verus!
