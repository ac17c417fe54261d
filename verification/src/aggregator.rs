//! The discovery aggregator: one ordered queue with three producers (the
//! bridge and the two workers) and one consumer.

use vstd::prelude::*;
use crate::msg::{HtmlDiscoveryMessage, HtmlDiscoveryMessageView};

verus! {

/// Who puts a message into the aggregator.
#[derive(Clone, Copy, Debug, PartialEq, Eq, Structural)]
pub enum Producer {
    Bridge,
    StylesheetWorker,
    ScriptWorker,
}

/// What the consumer finds when it asks for the next message.
#[derive(Clone, Debug, PartialEq, Eq)]
pub enum Received<S> {
    /// The oldest message that was not taken yet.
    Message(HtmlDiscoveryMessage<S>),
    /// No message is waiting, but a producer may still send one.
    Empty,
    /// No message is waiting and none will come.
    Closed,
}

/// What an `Aggregator` holds, as mathematical values.
pub struct AggregatorView<S> {
    /// The messages that wait for the consumer, oldest first.
    pub queue: Seq<HtmlDiscoveryMessageView<S>>,
    pub bridge_open: bool,
    pub stylesheet_worker_open: bool,
    pub script_worker_open: bool,
}

impl<S> AggregatorView<S> {
    /// The producer may still send.
    pub open spec fn is_open(self, from: Producer) -> bool {
        match from {
            Producer::Bridge => self.bridge_open,
            Producer::StylesheetWorker => self.stylesheet_worker_open,
            Producer::ScriptWorker => self.script_worker_open,
        }
    }

    /// No producer may send any more.
    pub open spec fn closed(self) -> bool {
        !self.bridge_open && !self.stylesheet_worker_open && !self.script_worker_open
    }

    /// The aggregator after `from` sent `message`: it joins the end of the
    /// queue if the producer is open, and is refused if it is not.
    pub open spec fn sent(self, from: Producer, message: HtmlDiscoveryMessageView<S>) -> Self {
        if self.is_open(from) {
            AggregatorView { queue: self.queue.push(message), ..self }
        } else {
            self
        }
    }

    /// The aggregator after `from` finished.
    pub open spec fn finished(self, from: Producer) -> Self {
        match from {
            Producer::Bridge => AggregatorView { bridge_open: false, ..self },
            Producer::StylesheetWorker => AggregatorView { stylesheet_worker_open: false, ..self },
            Producer::ScriptWorker => AggregatorView { script_worker_open: false, ..self },
        }
    }
}

/// An aggregator with no message and all producers open.
pub open spec fn fresh_aggregator<S>() -> AggregatorView<S> {
    AggregatorView {
        queue: Seq::empty(),
        bridge_open: true,
        stylesheet_worker_open: true,
        script_worker_open: true,
    }
}

/// What a list of messages holds, as mathematical values.
pub open spec fn message_views<S>(messages: Seq<HtmlDiscoveryMessage<S>>) -> Seq<
    HtmlDiscoveryMessageView<S>,
> {
    messages.map_values(|m: HtmlDiscoveryMessage<S>| m@)
}

/// The discovery aggregator.
pub struct Aggregator<S> {
    queue: Vec<HtmlDiscoveryMessage<S>>,
    bridge_open: bool,
    stylesheet_worker_open: bool,
    script_worker_open: bool,
}

impl<S> View for Aggregator<S> {
    type V = AggregatorView<S>;

    closed spec fn view(&self) -> AggregatorView<S> {
        AggregatorView {
            queue: message_views(self.queue@),
            bridge_open: self.bridge_open,
            stylesheet_worker_open: self.stylesheet_worker_open,
            script_worker_open: self.script_worker_open,
        }
    }
}

impl<S> Aggregator<S> {
    /// An aggregator with no message and all producers open.
    pub fn new() -> (a: Aggregator<S>)
        ensures
            a@ == fresh_aggregator::<S>(),
    {
        let a = Aggregator {
            queue: Vec::new(),
            bridge_open: true,
            stylesheet_worker_open: true,
            script_worker_open: true,
        };
        assert(a@.queue =~= Seq::empty());
        a
    }

    /// Whether the producer may still send.
    pub fn is_open(&self, from: Producer) -> (r: bool)
        ensures
            r == self@.is_open(from),
    {
        match from {
            Producer::Bridge => self.bridge_open,
            Producer::StylesheetWorker => self.stylesheet_worker_open,
            Producer::ScriptWorker => self.script_worker_open,
        }
    }

    /// Whether every producer has finished.
    pub fn is_closed(&self) -> (r: bool)
        ensures
            r == self@.closed(),
    {
        !self.bridge_open && !self.stylesheet_worker_open && !self.script_worker_open
    }

    /// The number of messages that wait for the consumer.
    pub fn len(&self) -> (n: usize)
        ensures
            n == self@.queue.len(),
    {
        self.queue.len()
    }

    /// Takes a message from a producer. It joins the end of the queue if
    /// the producer is open; a message from a producer that has finished is
    /// refused. Hands back whether the message was taken.
    pub fn send(&mut self, from: Producer, message: HtmlDiscoveryMessage<S>) -> (accepted: bool)
        ensures
            accepted == old(self)@.is_open(from),
            final(self)@ == old(self)@.sent(from, message@),
    {
        if self.is_open(from) {
            self.queue.push(message);
            assert(self@.queue =~= old(self)@.queue.push(message@));
            true
        } else {
            false
        }
    }

    /// Takes the notice that a producer has finished.
    pub fn finish(&mut self, from: Producer)
        ensures
            final(self)@ == old(self)@.finished(from),
    {
        match from {
            Producer::Bridge => {
                self.bridge_open = false;
            },
            Producer::StylesheetWorker => {
                self.stylesheet_worker_open = false;
            },
            Producer::ScriptWorker => {
                self.script_worker_open = false;
            },
        }
    }

    /// Hands the oldest waiting message to the consumer. Where none waits,
    /// says whether one may still come.
    pub fn recv(&mut self) -> (r: Received<S>)
        ensures
            match r {
                Received::Message(m) => old(self)@.queue.len() > 0 && m@ == old(self)@.queue[0]
                    && final(self)@ == (AggregatorView {
                    queue: old(self)@.queue.drop_first(),
                    ..old(self)@
                }),
                Received::Empty => old(self)@.queue.len() == 0 && !old(self)@.closed()
                    && final(self)@ == old(self)@,
                Received::Closed => old(self)@.queue.len() == 0 && old(self)@.closed()
                    && final(self)@ == old(self)@,
            },
    {
        if self.queue.len() > 0 {
            let m = self.queue.remove(0);
            assert(self@.queue =~= old(self)@.queue.drop_first());
            Received::Message(m)
        } else if self.is_closed() {
            Received::Closed
        } else {
            Received::Empty
        }
    }
}

} // verus!
