//! Messages that need the main window: they wait, in the order they came, until the
//! window is there, and are then handed out in that order.
use vstd::prelude::*;

verus! {

/// The messages waiting for the main window, and whether the window is there.
pub struct WindowQueue<M> {
    window_open: bool,
    waiting: Vec<M>,
}

/// What the queue holds: whether the window is there, and the waiting messages in the
/// order they came.
pub struct WindowQueueView<M> {
    pub window_open: bool,
    pub waiting: Seq<M>,
}

impl<M> View for WindowQueue<M> {
    type V = WindowQueueView<M>;

    closed spec fn view(&self) -> WindowQueueView<M> {
        WindowQueueView { window_open: self.window_open, waiting: self.waiting@ }
    }
}

impl<M> WindowQueue<M> {
    /// No window yet, and nothing waiting.
    pub fn new() -> (r: Self)
        ensures
            !r@.window_open,
            r@.waiting == Seq::<M>::empty(),
    {
        WindowQueue { window_open: false, waiting: Vec::new() }
    }

    /// A message that needs the window: handed back to be handled now where the window
    /// is there, else kept at the end of the queue.
    pub fn route(&mut self, message: M) -> (r: Option<M>)
        ensures
            final(self)@ == after_route(old(self)@, message),
            r == (if old(self)@.window_open {
                Some(message)
            } else {
                None
            }),
    {
        if self.window_open {
            Some(message)
        } else {
            self.waiting.push(message);
            None
        }
    }

    /// The window is there: the waiting messages are handed out, first come first, and
    /// the queue is left empty.
    pub fn open_window(&mut self) -> (r: Vec<M>)
        ensures
            final(self)@.window_open,
            final(self)@.waiting == Seq::<M>::empty(),
            r@ == old(self)@.waiting,
    {
        self.window_open = true;
        let mut waiting = Vec::new();
        std::mem::swap(&mut waiting, &mut self.waiting);
        waiting
    }

    /// Whether the window is there.
    pub fn window_open(&self) -> (r: bool)
        ensures
            r == self@.window_open,
    {
        self.window_open
    }

    /// How many messages wait.
    pub fn waiting_len(&self) -> (r: usize)
        ensures
            r == self@.waiting.len(),
    {
        self.waiting.len()
    }
}

/// The queue after a message is routed: kept at the end while the window is not there.
pub open spec fn after_route<M>(q: WindowQueueView<M>, message: M) -> WindowQueueView<M> {
    if q.window_open {
        q
    } else {
        WindowQueueView { window_open: false, waiting: q.waiting.push(message) }
    }
}

/// The queue after a sequence of messages is routed.
pub open spec fn after_routes<M>(q: WindowQueueView<M>, messages: Seq<M>) -> WindowQueueView<M>
    decreases messages.len(),
{
    if messages.len() == 0 {
        q
    } else {
        after_route(after_routes(q, messages.drop_last()), messages.last())
    }
}

/// Messages routed while the window is not there wait behind those already waiting,
/// in the order they were routed; `open_window` then hands them all out in that order.
pub proof fn law_waiting_messages_keep_order<M>(q: WindowQueueView<M>, messages: Seq<M>)
    requires
        !q.window_open,
    ensures
        !after_routes(q, messages).window_open,
        after_routes(q, messages).waiting == q.waiting + messages,
    decreases messages.len(),
{
    if messages.len() > 0 {
        law_waiting_messages_keep_order(q, messages.drop_last());
        assert((q.waiting + messages.drop_last()).push(messages.last()) =~= q.waiting + messages);
    }
}

/// Once the window is there, routing hands every message straight back and the queue
/// stays as it is.
pub proof fn law_open_window_passes_messages<M>(q: WindowQueueView<M>, messages: Seq<M>)
    requires
        q.window_open,
    ensures
        after_routes(q, messages) == q,
    decreases messages.len(),
{
    if messages.len() > 0 {
        law_open_window_passes_messages(q, messages.drop_last());
    }
}

} // verus!
