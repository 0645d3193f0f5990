//! The events that drive the interface, and the queue that holds them
//! until they are handled.

use vstd::prelude::*;

verus! {

/// How the source of events is set up.
#[derive(Clone, Copy, Debug, PartialEq, Eq, Structural)]
pub struct Config {
    /// The time between two ticks, in milliseconds.
    pub tick_rate: u64,
}

impl Default for Config {
    fn default() -> (r: Config)
        ensures
            r.tick_rate == 250,
    {
        Config { tick_rate: 250 }
    }
}

/// One event: an input, or the tick of the clock.
#[derive(Clone, Copy, Debug, PartialEq, Eq)]
pub enum Event<I> {
    Input(I),
    Tick,
}

/// The keys that the interface tells apart.
#[derive(Clone, Copy, Debug, PartialEq, Eq, Structural)]
pub enum KeyCode {
    Char(char),
    Ctrl(char),
    Tab,
    Up,
    Down,
    Right,
    Left,
    Enter,
    Backspace,
    Esc,
    Unknown,
}

/// The events that wait to be handled, the oldest first.
#[derive(Debug)]
pub struct Events {
    pub queue: Vec<Event<KeyCode>>,
}

impl View for Events {
    type V = Seq<Event<KeyCode>>;

    open spec fn view(&self) -> Seq<Event<KeyCode>> {
        self.queue@
    }
}

impl Events {
    /// The queue with no event in it.
    pub fn new() -> (r: Events)
        ensures
            r@ == Seq::<Event<KeyCode>>::empty(),
    {
        Events { queue: Vec::new() }
    }

    /// Puts `event` at the end of the queue.
    pub fn send(&mut self, event: Event<KeyCode>)
        ensures
            final(self)@ == old(self)@.push(event),
    {
        self.queue.push(event);
    }

    /// Takes the oldest event off the queue. `None` where the queue is
    /// empty.
    pub fn next(&mut self) -> (r: Option<Event<KeyCode>>)
        ensures
            old(self)@.len() == 0 ==> r is None && final(self)@ == old(self)@,
            old(self)@.len() > 0 ==> r == Some(old(self)@[0]) && final(self)@ == old(self)@.skip(1),
    {
        if self.queue.len() == 0 {
            None
        } else {
            let first = self.queue.remove(0);
            assert(self.queue@ =~= old(self)@.skip(1));
            Some(first)
        }
    }
}

/// Events leave the queue in the order in which they came.
pub proof fn lemma_first_in_first_out(queue: Seq<Event<KeyCode>>, event: Event<KeyCode>)
    requires
        queue.len() > 0,
    ensures
        queue.push(event)[0] == queue[0],
        queue.push(event).skip(1) == queue.skip(1).push(event),
{
    assert(queue.push(event).skip(1) =~= queue.skip(1).push(event));
}

} // verus!
