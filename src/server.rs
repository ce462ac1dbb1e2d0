//! The directory of online users and the routing of messages over it.
//!
//! The directory maps a username to the handle of its live connection. It is
//! generic in the handle: the relay stores whatever lets it push a frame to a
//! peer, and hands that handle back to the caller when a message is routed.

use vstd::prelude::*;
use vstd::string::*;
use crate::connection::{Connection, SendError};

verus! {

/// A text frame pushed to one connection: exactly the sender's text.
pub struct Message(pub String);

/// A connection that asks to be listed under `username`.
pub struct Connect<H> {
    pub username: String,
    pub addr: H,
}

/// A connection under `username` has gone away.
pub struct Disconnect {
    pub username: String,
}

/// A request for the list of online users.
pub struct ListUsers;

/// A direct message from `sender` to `resiver`.
pub struct ClientMessage {
    pub text: String,
    pub resiver: String,
    pub sender: String,
}

/// A request from `requester` to be added as a contact.
pub struct ContactAdd {
    pub requester: String,
}

/// What routing one message comes to.
pub enum Delivery<'a, H> {
    /// Push `frame` through the recipient's handle `to`.
    Deliver { to: &'a H, frame: Message },
    /// Nobody is listed under `recipient`: the message is dropped.
    Miss { recipient: String },
}

/// The directory: each username listed at most once, with one handle.
pub struct ChatServer<H> {
    names: Vec<String>,
    handles: Vec<H>,
    directory: Ghost<Map<Seq<char>, H>>,
}

/// True when `a` and `b` hold the same characters.
fn same_chars(a: &str, b: &str) -> (r: bool)
    ensures
        r == (a@ == b@),
{
    let n = a.unicode_len();
    if n != b.unicode_len() {
        return false;
    }
    let mut i: usize = 0;
    while i < n
        invariant
            n == a@.len(),
            n == b@.len(),
            i <= n,
            forall|j: int| 0 <= j < i ==> a@[j] == b@[j],
        decreases n - i,
    {
        if a.get_char(i) != b.get_char(i) {
            return false;
        }
        i = i + 1;
    }
    assert(a@ =~= b@);
    true
}

impl<H> View for ChatServer<H> {
    type V = Map<Seq<char>, H>;

    closed spec fn view(&self) -> Map<Seq<char>, H> {
        self.directory@
    }
}

impl<H> ChatServer<H> {
    /// The stored names and handles agree with the directory, and no name
    /// is stored twice.
    pub closed spec fn wf(&self) -> bool {
        &&& self.names@.len() == self.handles@.len()
        &&& forall|i: int, j: int|
            0 <= i < j < self.names@.len() ==> self.names@[i]@ != self.names@[j]@
        &&& forall|i: int|
            0 <= i < self.names@.len() ==> #[trigger] self.directory@.contains_key(
                self.names@[i]@,
            ) && self.directory@[self.names@[i]@] == self.handles@[i]
        &&& forall|k: Seq<char>|
            #[trigger] self.directory@.contains_key(k) ==> exists|i: int|
                0 <= i < self.names@.len() && self.names@[i]@ == k
    }

    /// An empty directory.
    pub fn new() -> (r: ChatServer<H>)
        ensures
            r.wf(),
            r@ == Map::<Seq<char>, H>::empty(),
    {
        ChatServer { names: Vec::new(), handles: Vec::new(), directory: Ghost(Map::empty()) }
    }

    /// Where `username` is stored, if it is listed.
    fn find(&self, username: &str) -> (r: Option<usize>)
        requires
            self.wf(),
        ensures
            match r {
                Some(i) => i < self.names@.len() && self.names@[i as int]@ == username@,
                None => !self@.contains_key(username@),
            },
    {
        let mut i: usize = 0;
        while i < self.names.len()
            invariant
                self.wf(),
                i <= self.names@.len(),
                forall|j: int| 0 <= j < i ==> self.names@[j]@ != username@,
            decreases self.names@.len() - i,
        {
            if same_chars(self.names[i].as_str(), username) {
                return Some(i);
            }
            i = i + 1;
        }
        None
    }

    /// True when `username` is listed.
    pub fn contains(&self, username: &str) -> (r: bool)
        requires
            self.wf(),
        ensures
            r == self@.contains_key(username@),
    {
        match self.find(username) {
            Some(_) => true,
            None => false,
        }
    }

    /// Lists `msg.username` under the handle `msg.addr`. A name that is
    /// already listed gets the new handle; the old one is neither told nor
    /// closed. Returns the name under which the connection is now listed.
    pub fn register(&mut self, msg: Connect<H>) -> (r: String)
        requires
            old(self).wf(),
        ensures
            final(self).wf(),
            final(self)@ == old(self)@.insert(msg.username@, msg.addr),
            r@ == msg.username@,
    {
        let Connect { username, addr: handle } = msg;
        let ghost before = self.directory@;
        let found = self.find(username.as_str());
        self.directory = Ghost(before.insert(username@, handle));
        match found {
            Some(i) => {
                self.handles.set(i, handle);
                assert forall|a: int|
                    0 <= a < self.names@.len() implies #[trigger] self.directory@.contains_key(
                    self.names@[a]@,
                ) && self.directory@[self.names@[a]@] == self.handles@[a] by {
                    assert(self.names@[a] == old(self).names@[a]);
                    if a != i {
                        assert(old(self).names@[a]@ != old(self).names@[i as int]@);
                        assert(before.contains_key(old(self).names@[a]@));
                        assert(self.handles@[a] == old(self).handles@[a]);
                    } else {
                        assert(self.handles@[a] == handle);
                    }
                }
                assert forall|k: Seq<char>| #[trigger]
                    self.directory@.contains_key(k) implies exists|j: int|
                    0 <= j < self.names@.len() && self.names@[j]@ == k by {
                    if k != username@ {
                        assert(before.contains_key(k));
                    }
                }
                username
            },
            None => {
                let r = username.clone();
                self.names.push(username);
                self.handles.push(handle);
                assert forall|k: Seq<char>| #[trigger]
                    self.directory@.contains_key(k) implies exists|j: int|
                    0 <= j < self.names@.len() && self.names@[j]@ == k by {
                    if k != r@ {
                        assert(before.contains_key(k));
                        let j = choose|j: int| 0 <= j < old(self).names@.len() && old(self).names@[j]@ == k;
                        assert(self.names@[j] == old(self).names@[j]);
                    } else {
                        assert(self.names@[self.names@.len() - 1]@ == k);
                    }
                }
                r
            },
        }
    }

    /// Takes `msg.username` out of the directory; nothing happens when it is
    /// not listed.
    pub fn deregister(&mut self, msg: &Disconnect)
        requires
            old(self).wf(),
        ensures
            final(self).wf(),
            final(self)@ == old(self)@.remove(msg.username@),
    {
        let username = msg.username.as_str();
        let ghost before = self.directory@;
        match self.find(username) {
            Some(i) => {
                self.names.remove(i);
                self.handles.remove(i);
                self.directory = Ghost(before.remove(username@));
                assert forall|a: int|
                    0 <= a < self.names@.len() implies #[trigger] self.directory@.contains_key(
                    self.names@[a]@,
                ) && self.directory@[self.names@[a]@] == self.handles@[a] by {
                    if a < i {
                        assert(self.names@[a] == old(self).names@[a]);
                        assert(self.handles@[a] == old(self).handles@[a]);
                        assert(old(self).names@[a]@ != old(self).names@[i as int]@);
                        assert(before.contains_key(old(self).names@[a]@));
                    } else {
                        assert(self.names@[a] == old(self).names@[a + 1]);
                        assert(self.handles@[a] == old(self).handles@[a + 1]);
                        assert(old(self).names@[a + 1]@ != old(self).names@[i as int]@);
                        assert(before.contains_key(old(self).names@[a + 1]@));
                    }
                }
                assert forall|k: Seq<char>| #[trigger]
                    self.directory@.contains_key(k) implies exists|j: int|
                    0 <= j < self.names@.len() && self.names@[j]@ == k by {
                    assert(before.contains_key(k));
                    let j = choose|j: int| 0 <= j < old(self).names@.len() && old(self).names@[j]@ == k;
                    if j < i {
                        assert(self.names@[j] == old(self).names@[j]);
                    } else {
                        assert(j != i);
                        assert(self.names@[j - 1] == old(self).names@[j]);
                    }
                }
            },
            None => {
                assert(self.directory@ =~= before.remove(username@));
            },
        }
    }

    /// Looks up the recipient of `msg`. When it is listed, its handle comes
    /// back with a frame that holds exactly the text; otherwise the message
    /// is dropped and the recipient's name comes back for the log.
    pub fn route(&self, msg: ClientMessage) -> (r: Delivery<'_, H>)
        requires
            self.wf(),
        ensures
            match r {
                Delivery::Deliver { to, frame } => {
                    &&& self@.contains_key(msg.resiver@)
                    &&& *to == self@[msg.resiver@]
                    &&& frame.0@ == msg.text@
                },
                Delivery::Miss { recipient } => {
                    &&& !self@.contains_key(msg.resiver@)
                    &&& recipient@ == msg.resiver@
                },
            },
    {
        match self.find(msg.resiver.as_str()) {
            Some(i) => {
                assert(self.directory@.contains_key(self.names@[i as int]@));
                Delivery::Deliver { to: &self.handles[i], frame: Message(msg.text) }
            },
            None => Delivery::Miss { recipient: msg.resiver },
        }
    }

    /// The names listed, each once, in no particular order.
    pub fn list(&self) -> (r: Vec<String>)
        requires
            self.wf(),
        ensures
            forall|k: Seq<char>|
                self@.contains_key(k) <==> exists|i: int| 0 <= i < r@.len() && #[trigger] r@[i]@ == k,
            forall|i: int, j: int| 0 <= i < j < r@.len() ==> r@[i]@ != r@[j]@,
    {
        let mut r: Vec<String> = Vec::new();
        let mut i: usize = 0;
        while i < self.names.len()
            invariant
                self.wf(),
                i <= self.names@.len(),
                r@.len() == i,
                forall|j: int| 0 <= j < i ==> r@[j]@ == self.names@[j]@,
            decreases self.names@.len() - i,
        {
            r.push(self.names[i].clone());
            i = i + 1;
        }
        proof {
            assert forall|k: Seq<char>|
                self@.contains_key(k) implies exists|a: int| 0 <= a < r@.len() && #[trigger] r@[a]@ == k by {
                let a = choose|a: int| 0 <= a < self.names@.len() && self.names@[a]@ == k;
                assert(r@[a]@ == k);
            }
            assert forall|k: Seq<char>|
                (exists|a: int| 0 <= a < r@.len() && #[trigger] r@[a]@ == k) implies self@.contains_key(k) by {
                let a = choose|a: int| 0 <= a < r@.len() && r@[a]@ == k;
                assert(self.directory@.contains_key(self.names@[a]@));
            }
        }
        r
    }
}

impl ChatServer<Connection> {
    /// Routes `msg` and pushes its text through the recipient's connection.
    /// Returns whether the recipient was listed and its connection took the
    /// frame; every other connection is left as it was.
    pub fn deliver(&mut self, msg: ClientMessage) -> (r: bool)
        requires
            old(self).wf(),
        ensures
            final(self).wf(),
            old(self)@.contains_key(msg.resiver@) ==> {
                &&& final(self)@.dom() == old(self)@.dom()
                &&& final(self)@[msg.resiver@]@ == old(self)@[msg.resiver@]@.sent(msg.text@)
                &&& forall|k: Seq<char>| #[trigger]
                    old(self)@.contains_key(k) && k != msg.resiver@ ==> final(self)@[k] == old(self)@[k]
                &&& r == old(self)@[msg.resiver@]@.open
            },
            !old(self)@.contains_key(msg.resiver@) ==> final(self)@ == old(self)@ && !r,
    {
        match self.find(msg.resiver.as_str()) {
            Some(i) => {
                let ghost before = self.directory@;
                assert(before.contains_key(self.names@[i as int]@));
                let sent: Result<(), SendError> = self.handles[i].send(msg.text);
                self.directory = Ghost(before.insert(msg.resiver@, self.handles@[i as int]));
                assert forall|a: int|
                    0 <= a < self.names@.len() implies #[trigger] self.directory@.contains_key(
                    self.names@[a]@,
                ) && self.directory@[self.names@[a]@] == self.handles@[a] by {
                    if a != i {
                        assert(self.names@[a]@ != self.names@[i as int]@);
                        assert(before.contains_key(self.names@[a]@));
                    }
                }
                assert(self.directory@.dom() =~= before.dom());
                match sent {
                    Ok(()) => true,
                    Err(_) => false,
                }
            },
            None => false,
        }
    }
}

/// One change to the directory.
pub enum DirectoryOp<H> {
    Register(Seq<char>, H),
    Deregister(Seq<char>),
}

/// The name that `op` is about.
pub open spec fn op_name<H>(op: DirectoryOp<H>) -> Seq<char> {
    match op {
        DirectoryOp::Register(n, _) => n,
        DirectoryOp::Deregister(n) => n,
    }
}

/// The directory `m` after one change, as `register` and `deregister` make it.
pub open spec fn apply_op<H>(m: Map<Seq<char>, H>, op: DirectoryOp<H>) -> Map<Seq<char>, H> {
    match op {
        DirectoryOp::Register(n, h) => m.insert(n, h),
        DirectoryOp::Deregister(n) => m.remove(n),
    }
}

/// The directory after `ops`, applied in order to an empty one.
pub open spec fn replay<H>(ops: Seq<DirectoryOp<H>>) -> Map<Seq<char>, H>
    decreases ops.len(),
{
    if ops.len() == 0 {
        Map::empty()
    } else {
        apply_op(replay(ops.drop_last()), ops.last())
    }
}

/// `ops[i]` registers `u`, and no later change is about `u`.
pub open spec fn last_registers<H>(ops: Seq<DirectoryOp<H>>, u: Seq<char>, i: int) -> bool {
    &&& 0 <= i < ops.len()
    &&& ops[i] matches DirectoryOp::Register(n, _) && n == u
    &&& forall|j: int| i < j < ops.len() ==> op_name(#[trigger] ops[j]) != u
}

/// After any sequence of registrations and deregistrations, a name is listed
/// exactly when its most recent change registered it, and then under the
/// handle of that registration.
pub proof fn lemma_directory_after<H>(ops: Seq<DirectoryOp<H>>, u: Seq<char>)
    ensures
        replay(ops).contains_key(u) <==> exists|i: int| last_registers(ops, u, i),
        forall|i: int| #[trigger] last_registers(ops, u, i) ==> replay(ops)[u] == ops[i]->Register_1,
    decreases ops.len(),
{
    if ops.len() > 0 {
        let init = ops.drop_last();
        let n = ops.len() - 1;
        lemma_directory_after(init, u);
        if op_name(ops.last()) == u {
            match ops.last() {
                DirectoryOp::Register(_, _) => {
                    assert(replay(ops) == replay(init).insert(u, ops.last()->Register_1));
                    assert(last_registers(ops, u, n));
                    assert forall|i: int| #[trigger] last_registers(ops, u, i) implies i == n by {
                        if i < n {
                            assert(op_name(ops[n]) != u);
                        }
                    }
                },
                DirectoryOp::Deregister(_) => {
                    assert(replay(ops) == replay(init).remove(u));
                    assert forall|i: int| !#[trigger] last_registers(ops, u, i) by {
                        if last_registers(ops, u, i) && i < n {
                            assert(op_name(ops[n]) != u);
                        }
                    }
                },
            }
        } else {
            match ops.last() {
                DirectoryOp::Register(k, h) => {
                    assert(replay(ops) == replay(init).insert(k, h));
                },
                DirectoryOp::Deregister(k) => {
                    assert(replay(ops) == replay(init).remove(k));
                },
            }
            assert(replay(ops).contains_key(u) == replay(init).contains_key(u));
            assert(replay(init).contains_key(u) ==> replay(ops)[u] == replay(init)[u]);
            assert forall|i: int|
                #![trigger last_registers(ops, u, i)]
                #![trigger last_registers(init, u, i)]
                last_registers(ops, u, i) <==> last_registers(init, u, i) by {
                if 0 <= i < n {
                    if last_registers(init, u, i) {
                        assert forall|j: int| i < j < ops.len() implies op_name(#[trigger] ops[j]) != u by {
                            if j < n {
                                assert(ops[j] == init[j]);
                            }
                        }
                    }
                    if last_registers(ops, u, i) {
                        assert forall|j: int| i < j < init.len() implies op_name(#[trigger] init[j]) != u by {
                            assert(op_name(ops[j]) != u);
                        }
                    }
                }
            }
            if replay(init).contains_key(u) {
                let i = choose|i: int| last_registers(init, u, i);
                assert(last_registers(ops, u, i));
            }
        }
    }
}

/// Deregistering a name a second time changes nothing more.
pub proof fn lemma_deregister_twice<H>(m: Map<Seq<char>, H>, u: Seq<char>)
    ensures
        m.remove(u).remove(u) == m.remove(u),
{
    assert(m.remove(u).remove(u) =~= m.remove(u));
}

} // verus!
