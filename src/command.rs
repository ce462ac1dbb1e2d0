//! The text protocol carried over a connection: `LU` lists users,
//! `<recipient>/<text>` sends `text` to `recipient`; anything else is ignored.

use vstd::prelude::*;
use vstd::string::*;

verus! {

/// One command read from a text frame.
pub enum Command {
    ListUsers,
    DirectMessage { recipient: String, text: String },
}

/// The mathematical form of a [`Command`].
pub enum CommandView {
    ListUsers,
    DirectMessage { recipient: Seq<char>, text: Seq<char> },
}

impl View for Command {
    type V = CommandView;

    open spec fn view(&self) -> CommandView {
        match self {
            Command::ListUsers => CommandView::ListUsers,
            Command::DirectMessage { recipient, text } => CommandView::DirectMessage {
                recipient: recipient@,
                text: text@,
            },
        }
    }
}

/// The token that asks for the list of users.
pub open spec fn list_token() -> Seq<char> {
    seq!['L', 'U']
}

pub open spec fn has_char(s: Seq<char>, c: char) -> bool {
    exists|i: int| 0 <= i < s.len() && s[i] == c
}

/// `i` is the position of the first `c` in `s`.
pub open spec fn is_first_index(s: Seq<char>, c: char, i: int) -> bool {
    &&& 0 <= i < s.len()
    &&& s[i] == c
    &&& forall|j: int| 0 <= j < i ==> s[j] != c
}

pub open spec fn first_index(s: Seq<char>, c: char) -> int {
    choose|i: int| is_first_index(s, c, i)
}

pub open spec fn has_slash(s: Seq<char>) -> bool {
    has_char(s, '/')
}

pub open spec fn first_slash(s: Seq<char>) -> int {
    first_index(s, '/')
}

/// The part of `s` before the first `/`, or all of `s` when it has none.
pub open spec fn head(s: Seq<char>) -> Seq<char> {
    if has_slash(s) {
        s.subrange(0, first_slash(s))
    } else {
        s
    }
}

/// The command that the (already trimmed) frame `s` carries, if any.
pub open spec fn command_of(s: Seq<char>) -> Option<CommandView> {
    if head(s) == list_token() {
        Some(CommandView::ListUsers)
    } else if has_slash(s) {
        Some(
            CommandView::DirectMessage {
                recipient: s.subrange(0, first_slash(s)),
                text: s.subrange(first_slash(s) + 1, s.len() as int),
            },
        )
    } else {
        None
    }
}

pub open spec fn opt_view(c: Option<Command>) -> Option<CommandView> {
    match c {
        Some(c) => Some(c@),
        None => None,
    }
}

/// What `str::trim` leaves of a frame.
pub uninterp spec fn trim_of(s: Seq<char>) -> Seq<char>;

/// Relies on `str::trim`: the frame without its leading and trailing
/// whitespace, which depends on the characters alone.
#[verifier::external_body]
fn trim(s: &str) -> (r: &str)
    ensures
        r@ == trim_of(s@),
{
    s.trim()
}

proof fn lemma_first_index_unique(s: Seq<char>, c: char, i: int)
    requires
        is_first_index(s, c, i),
    ensures
        has_char(s, c),
        first_index(s, c) == i,
{
    let k = first_index(s, c);
    assert(is_first_index(s, c, k));
    if k < i {
        assert(s[k] != c);
    } else if i < k {
        assert(s[i] != c);
    }
}

/// Splits `s` at the first `c`: the part before it and the part after it,
/// or `None` when `s` holds no `c`.
pub fn split_once(s: &str, c: char) -> (r: Option<(&str, &str)>)
    ensures
        match r {
            Some((a, b)) => {
                &&& has_char(s@, c)
                &&& a@ == s@.subrange(0, first_index(s@, c))
                &&& b@ == s@.subrange(first_index(s@, c) + 1, s@.len() as int)
            },
            None => !has_char(s@, c),
        },
{
    let n = s.unicode_len();
    let mut i: usize = 0;
    while i < n && s.get_char(i) != c
        invariant
            n == s@.len(),
            i <= n,
            forall|j: int| 0 <= j < i ==> s@[j] != c,
        decreases n - i,
    {
        i = i + 1;
    }
    if i < n {
        proof {
            lemma_first_index_unique(s@, c, i as int);
        }
        Some((s.substring_char(0, i), s.substring_char(i + 1, n)))
    } else {
        None
    }
}

/// True when `s` is exactly the list token `LU`.
fn is_list_token(s: &str) -> (r: bool)
    ensures
        r == (s@ == list_token()),
{
    let n = s.unicode_len();
    if n == 2 && s.get_char(0) == 'L' && s.get_char(1) == 'U' {
        assert(s@ =~= list_token());
        true
    } else {
        false
    }
}

/// Parses a frame that has already been trimmed. Only the first `/` splits:
/// the text may hold more of them.
pub fn parse_command(s: &str) -> (r: Option<Command>)
    ensures
        opt_view(r) == command_of(s@),
{
    match split_once(s, '/') {
        Some((recipient, text)) => {
            if is_list_token(recipient) {
                Some(Command::ListUsers)
            } else {
                Some(Command::DirectMessage { recipient: recipient.to_owned(), text: text.to_owned() })
            }
        },
        None => {
            if is_list_token(s) {
                Some(Command::ListUsers)
            } else {
                None
            }
        },
    }
}

/// Parses one inbound text frame: surrounding whitespace is dropped first.
pub fn parse_frame(frame: &str) -> (r: Option<Command>)
    ensures
        opt_view(r) == command_of(trim_of(frame@)),
{
    parse_command(trim(frame))
}

} // verus!
