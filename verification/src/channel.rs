//! The health of the channel that carries the updates, as the observer
//! sees it.
//!
//! The transport tells the observer what it notices: that an update came,
//! that nothing came for a while, that whole messages were lost, that the
//! channel was closed. Messages lost on the way are counted here, apart
//! from the events that the subject itself dropped.
use vstd::prelude::*;

verus! {

/// How the channel is doing.
#[derive(Clone, Copy, Debug, PartialEq, Eq, Structural)]
pub enum Link {
    /// Updates come in.
    Healthy,
    /// Nothing came for a while; the subject may be idle or the channel stuck.
    Stalled,
    /// The channel was closed. The session is over and does not come back.
    Ended,
}

/// What the transport noticed.
#[derive(Clone, Copy, Debug, PartialEq, Eq)]
pub enum Signal {
    /// An update arrived.
    Delivered,
    /// No update arrived within the time that the transport waits.
    Silent,
    /// That many whole messages were lost on the way.
    Lost(u64),
    /// The channel was closed.
    Closed,
}

/// What a [`Channel`] holds.
pub struct ChannelView {
    /// How the channel is doing.
    pub link: Link,
    /// The whole messages lost on the way so far.
    pub lost: u64,
}

/// The channel of a session that has just begun.
pub open spec fn fresh() -> ChannelView {
    ChannelView { link: Link::Healthy, lost: 0 }
}

/// The channel after the transport noticed `signal`. Once the channel has
/// ended nothing changes any more. The count of lost messages stops at the
/// largest number it can hold.
pub open spec fn after(view: ChannelView, signal: Signal) -> ChannelView {
    if view.link == Link::Ended {
        view
    } else {
        match signal {
            Signal::Delivered => ChannelView { link: Link::Healthy, lost: view.lost },
            Signal::Silent => ChannelView { link: Link::Stalled, lost: view.lost },
            Signal::Lost(n) => ChannelView {
                link: view.link,
                lost: if view.lost + n <= u64::MAX {
                    (view.lost + n) as u64
                } else {
                    u64::MAX
                },
            },
            Signal::Closed => ChannelView { link: Link::Ended, lost: view.lost },
        }
    }
}

/// The channel after the transport noticed the signals `signals`, in order.
pub open spec fn after_all(view: ChannelView, signals: Seq<Signal>) -> ChannelView
    decreases signals.len(),
{
    if signals.len() == 0 {
        view
    } else {
        after(after_all(view, signals.drop_last()), signals.last())
    }
}

/// The observer's record of how the channel is doing.
#[derive(Clone, Debug, PartialEq, Eq)]
pub struct Channel {
    link: Link,
    lost: u64,
}

impl View for Channel {
    type V = ChannelView;

    closed spec fn view(&self) -> ChannelView {
        ChannelView { link: self.link, lost: self.lost }
    }
}

impl Channel {
    /// The channel of a session that has just begun: healthy, nothing lost.
    pub fn new() -> (c: Channel)
        ensures
            c@ == fresh(),
    {
        Channel { link: Link::Healthy, lost: 0 }
    }

    /// Takes note of what the transport noticed.
    pub fn observe(&mut self, signal: Signal)
        ensures
            final(self)@ == after(old(self)@, signal),
    {
        if self.link == Link::Ended {
            return ;
        }
        match signal {
            Signal::Delivered => {
                self.link = Link::Healthy;
            },
            Signal::Silent => {
                self.link = Link::Stalled;
            },
            Signal::Lost(n) => {
                if n <= u64::MAX - self.lost {
                    self.lost = self.lost + n;
                } else {
                    self.lost = u64::MAX;
                }
            },
            Signal::Closed => {
                self.link = Link::Ended;
            },
        }
    }

    /// How the channel is doing.
    pub fn link(&self) -> (link: Link)
        ensures
            link == self@.link,
    {
        self.link
    }

    /// The whole messages lost on the way so far.
    pub fn lost_messages(&self) -> (n: u64)
        ensures
            n == self@.lost,
    {
        self.lost
    }

    /// Whether the session is over.
    pub fn is_ended(&self) -> (ended: bool)
        ensures
            ended == (self@.link == Link::Ended),
    {
        self.link == Link::Ended
    }
}

/// A channel that has ended stays as it is, whatever the transport notices.
pub proof fn lemma_ended_is_final(view: ChannelView, signals: Seq<Signal>)
    requires
        view.link == Link::Ended,
    ensures
        after_all(view, signals) == view,
    decreases signals.len(),
{
    if signals.len() > 0 {
        lemma_ended_is_final(view, signals.drop_last());
    }
}

/// The count of lost messages never goes down.
pub proof fn lemma_lost_never_falls(view: ChannelView, signals: Seq<Signal>)
    ensures
        after_all(view, signals).lost >= view.lost,
    decreases signals.len(),
{
    if signals.len() > 0 {
        lemma_lost_never_falls(view, signals.drop_last());
    }
}

} // verus!
