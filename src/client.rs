//! The client's decisions: which keys it forwards, and the bounded queue
//! that hands them from key capture to the network writer.

use crate::session::KeyCode;
use vstd::prelude::*;

verus! {

/// How many captured keys may wait for the network writer.
pub const KEY_QUEUE_CAPACITY: usize = 2;

/// A key as the terminal reports it.
#[derive(Clone, Copy, Debug, PartialEq, Eq, Structural)]
pub enum TermKey {
    Up,
    Down,
    Left,
    Right,
    Char(char),
    Ctrl(char),
    Other,
}

/// What capture does with a key.
#[derive(Clone, Copy, Debug, PartialEq, Eq, Structural)]
pub enum CaptureAction {
    /// Restore the terminal and leave.
    Exit,
    /// Queue the input message for the server.
    Forward(KeyCode),
}

pub open spec fn key_code_of(key: TermKey) -> KeyCode {
    match key {
        TermKey::Up => KeyCode::Up,
        TermKey::Down => KeyCode::Down,
        TermKey::Left => KeyCode::Left,
        TermKey::Right => KeyCode::Right,
        TermKey::Char(c) => if c == 'q' { KeyCode::Quit } else { KeyCode::Other },
        _ => KeyCode::Other,
    }
}

impl KeyCode {
    /// Arrow keys give directions, `q` gives `Quit`, every other key `Other`.
    pub fn from_key(key: TermKey) -> (r: KeyCode)
        ensures
            r == key_code_of(key),
    {
        match key {
            TermKey::Up => KeyCode::Up,
            TermKey::Down => KeyCode::Down,
            TermKey::Left => KeyCode::Left,
            TermKey::Right => KeyCode::Right,
            TermKey::Char(c) => if c == 'q' {
                KeyCode::Quit
            } else {
                KeyCode::Other
            },
            _ => KeyCode::Other,
        }
    }
}

/// Ctrl-C leaves the client; every other key, unrecognised ones included,
/// is forwarded.
pub fn capture_action(key: TermKey) -> (r: CaptureAction)
    ensures
        r == (if key == TermKey::Ctrl('c') { CaptureAction::Exit } else { CaptureAction::Forward(key_code_of(key)) }),
{
    match key {
        TermKey::Ctrl(c) if c == 'c' => CaptureAction::Exit,
        _ => CaptureAction::Forward(KeyCode::from_key(key)),
    }
}

/// A first-in first-out queue of at most `KEY_QUEUE_CAPACITY` keys. A push
/// onto a full queue is refused and changes nothing, so the producer waits
/// and pushes again: no key is ever dropped.
pub struct KeyQueue {
    pub keys: Vec<KeyCode>,
}

impl View for KeyQueue {
    type V = Seq<KeyCode>;

    open spec fn view(&self) -> Seq<KeyCode> {
        self.keys@
    }
}

impl KeyQueue {
    pub open spec fn wf(self) -> bool {
        self@.len() <= KEY_QUEUE_CAPACITY
    }

    pub fn new() -> (r: KeyQueue)
        ensures
            r.wf(),
            r@ == Seq::<KeyCode>::empty(),
    {
        KeyQueue { keys: Vec::new() }
    }

    pub fn len(&self) -> (r: usize)
        ensures
            r == self@.len(),
    {
        self.keys.len()
    }

    pub fn is_full(&self) -> (r: bool)
        ensures
            r == (self@.len() >= KEY_QUEUE_CAPACITY),
    {
        self.keys.len() >= KEY_QUEUE_CAPACITY
    }

    /// Appends `key` when there is room and says whether it did; a full
    /// queue is left as it was.
    pub fn try_push(&mut self, key: KeyCode) -> (r: bool)
        requires
            old(self).wf(),
        ensures
            final(self).wf(),
            r == (old(self)@.len() < KEY_QUEUE_CAPACITY),
            final(self)@ == (if r { old(self)@.push(key) } else { old(self)@ }),
    {
        if self.keys.len() < KEY_QUEUE_CAPACITY {
            self.keys.push(key);
            true
        } else {
            false
        }
    }

    /// Takes the oldest key, if any.
    pub fn pop(&mut self) -> (r: Option<KeyCode>)
        requires
            old(self).wf(),
        ensures
            final(self).wf(),
            old(self)@.len() == 0 ==> r is None && final(self)@ == old(self)@,
            old(self)@.len() > 0 ==> r == Some(old(self)@[0]) && final(self)@ == old(self)@.drop_first(),
    {
        if self.keys.len() == 0 {
            None
        } else {
            let k = self.keys.remove(0);
            assert(self.keys@ =~= old(self)@.drop_first());
            Some(k)
        }
    }
}

/// A push keeps every key: if the keys already sent followed by the queued
/// ones are the keys captured so far, that still holds after `try_push`,
/// with `key` counted as captured exactly when the push was accepted.
pub proof fn lemma_push_keeps_keys(
    captured: Seq<KeyCode>,
    sent: Seq<KeyCode>,
    before: KeyQueue,
    after: KeyQueue,
    key: KeyCode,
    accepted: bool,
)
    requires
        sent + before@ == captured,
        after@ == (if accepted { before@.push(key) } else { before@ }),
    ensures
        sent + after@ == (if accepted { captured.push(key) } else { captured }),
{
    if accepted {
        assert(sent + after@ =~= captured.push(key));
    }
}

/// A pop keeps the order: the key taken is the next one captured after those
/// already sent, and sending it keeps the keys sent followed by the queued
/// ones equal to the keys captured.
pub proof fn lemma_pop_keeps_order(captured: Seq<KeyCode>, sent: Seq<KeyCode>, before: KeyQueue, after: KeyQueue, key: KeyCode)
    requires
        sent + before@ == captured,
        before@.len() > 0,
        key == before@[0],
        after@ == before@.drop_first(),
    ensures
        key == captured[sent.len() as int],
        sent.push(key) + after@ == captured,
{
    assert(captured[sent.len() as int] == (sent + before@)[sent.len() as int]);
    assert(sent.push(key) + after@ =~= captured);
}

} // verus!
