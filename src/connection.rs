//! A connection handle that queues outbound frames in memory: the frames a
//! peer is to receive, in the order they were sent, until it is closed.

use vstd::prelude::*;

verus! {

/// Why a frame could not be pushed.
#[derive(Clone, Copy, Debug, PartialEq, Eq, Structural)]
pub enum SendError {
    /// The connection was closed.
    Closed,
}

/// The frames queued for one peer, and whether it still accepts more.
pub struct Connection {
    frames: Vec<String>,
    open: bool,
}

pub struct ConnectionView {
    pub frames: Seq<Seq<char>>,
    pub open: bool,
}

impl ConnectionView {
    /// The connection after `text` is pushed through it: queued when open,
    /// unchanged when closed.
    pub open spec fn sent(self, text: Seq<char>) -> ConnectionView {
        if self.open {
            ConnectionView { frames: self.frames.push(text), open: true }
        } else {
            self
        }
    }
}

impl View for Connection {
    type V = ConnectionView;

    closed spec fn view(&self) -> ConnectionView {
        ConnectionView { frames: self.frames@.map_values(|s: String| s@), open: self.open }
    }
}

impl Connection {
    /// An open connection with nothing queued.
    pub fn new() -> (r: Connection)
        ensures
            r@.open,
            r@.frames == Seq::<Seq<char>>::empty(),
    {
        let r = Connection { frames: Vec::new(), open: true };
        assert(r@.frames =~= Seq::<Seq<char>>::empty());
        r
    }

    /// Pushes one frame to the peer; fails once the connection is closed.
    pub fn send(&mut self, text: String) -> (r: Result<(), SendError>)
        ensures
            final(self)@ == old(self)@.sent(text@),
            r is Ok <==> old(self)@.open,
    {
        if self.open {
            self.frames.push(text);
            assert(self@.frames =~= old(self)@.frames.push(text@));
            Ok(())
        } else {
            Err(SendError::Closed)
        }
    }

    /// Closes the connection; closing it again changes nothing.
    pub fn close(&mut self)
        ensures
            final(self)@.frames == old(self)@.frames,
            !final(self)@.open,
    {
        self.open = false;
    }

    pub fn is_open(&self) -> (r: bool)
        ensures
            r == self@.open,
    {
        self.open
    }

    /// The frames pushed so far, oldest first.
    pub fn frames(&self) -> (r: Vec<String>)
        ensures
            r@.map_values(|s: String| s@) == self@.frames,
    {
        let mut r: Vec<String> = Vec::new();
        let mut i: usize = 0;
        while i < self.frames.len()
            invariant
                i <= self.frames@.len(),
                r@.len() == i,
                forall|j: int| 0 <= j < i ==> r@[j]@ == self.frames@[j]@,
            decreases self.frames@.len() - i,
        {
            r.push(self.frames[i].clone());
            i = i + 1;
        }
        assert(r@.map_values(|s: String| s@) =~= self@.frames);
        r
    }
}

/// Frames pushed one after the other through an open connection are queued
/// in the order they were sent.
pub proof fn lemma_sent_in_order(c: ConnectionView, a: Seq<char>, b: Seq<char>)
    requires
        c.open,
    ensures
        c.sent(a).sent(b).frames == c.frames + seq![a, b],
        c.sent(a).sent(b).open,
{
    assert(c.sent(a).sent(b).frames =~= c.frames + seq![a, b]);
}

} // verus!
