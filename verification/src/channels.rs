//! Sending messages to the application's message loop.
use crate::system_state::Message;
use std::sync::mpsc::Sender;
use vstd::prelude::*;

verus! {

#[verifier::external_type_specification]
#[verifier::external_body]
#[verifier::reject_recursive_types(T)]
pub struct ExSender<T>(Sender<T>);

/// The sending end of the application's message channel, with a record of every message
/// handed to the channel, in order, and whether the channel took it.
pub struct MessageSender {
    sender: Sender<Message>,
    sent: Ghost<Seq<(Message, bool)>>,
}

/// The number of messages of `sends` that the channel refused.
pub open spec fn refused_count(sends: Seq<(Message, bool)>) -> nat
    decreases sends.len(),
{
    if sends.len() == 0 {
        0
    } else {
        refused_count(sends.drop_last()) + if sends.last().1 { 0nat } else { 1nat }
    }
}

impl MessageSender {
    /// Every message handed to the channel so far, in order, and whether the channel took
    /// it: `false` when the receiving end was gone.
    pub closed spec fn sends(self) -> Seq<(Message, bool)> {
        self.sent@
    }

    /// Every message handed to the channel so far, in order.
    pub open spec fn handed(self) -> Seq<Message> {
        self.sends().map_values(|s: (Message, bool)| s.0)
    }

    /// A sender that has handed nothing yet.
    pub fn new(sender: Sender<Message>) -> (res: Self)
        ensures
            res.sends() == Seq::<(Message, bool)>::empty(),
    {
        MessageSender { sender, sent: Ghost(Seq::empty()) }
    }
}

/// `Sender::send`: hands `msg` to the channel, which takes it unless its receiving end is
/// gone; the result tells which. Which of the two happens depends on the receiver and is not
/// stated; the record of `sender` grows by the message and that result.
#[verifier::external_body]
fn send_message(sender: &mut MessageSender, msg: Message) -> (delivered: bool)
    ensures
        final(sender).sends() == old(sender).sends().push((msg, delivered)),
{
    sender.sender.send(msg).is_ok()
}

/// Hands `msg` to the channel, and tells whether the channel took it: `false` when the
/// receiving end is gone, which the caller reports.
pub fn checked_send(sender: &mut MessageSender, msg: Message) -> (delivered: bool)
    ensures
        final(sender).sends() == old(sender).sends().push((msg, delivered)),
{
    send_message(sender, msg)
}

/// Hands each of `msgs` to the channel, in order and without stopping at a refusal, and
/// returns how many of them the channel refused.
pub fn checked_send_many(sender: &mut MessageSender, msgs: Vec<Message>) -> (refused: usize)
    ensures
        final(sender).handed() == old(sender).handed() + msgs@,
        final(sender).sends().len() == old(sender).sends().len() + msgs@.len(),
        final(sender).sends().take(old(sender).sends().len() as int) == old(sender).sends(),
        refused == refused_count(final(sender).sends().skip(old(sender).sends().len() as int)),
        refused <= msgs@.len(),
{
    let ghost all = msgs@;
    let ghost start = sender.sends();
    let mut rest = msgs;
    let mut refused: usize = 0;
    let mut k: usize = 0;
    let n = rest.len();
    assert(all.skip(0) =~= all);
    assert(sender.sends().skip(start.len() as int) =~= Seq::<(Message, bool)>::empty());
    assert(sender.sends().take(start.len() as int) =~= start);
    while k < n
        invariant
            n == all.len(),
            k <= n,
            rest@ == all.skip(k as int),
            sender.sends().len() == start.len() + k,
            sender.sends().take(start.len() as int) == start,
            sender.sends().skip(start.len() as int).map_values(|s: (Message, bool)| s.0) == all.take(
                k as int,
            ),
            refused == refused_count(sender.sends().skip(start.len() as int)),
            refused <= k,
        decreases n - k,
    {
        let ghost before = sender.sends();
        assert(rest@.len() > 0);
        let msg = rest.remove(0);
        assert(msg == all[k as int]);
        assert(rest@ =~= all.skip(k + 1));
        let delivered = checked_send(sender, msg);
        let ghost added = sender.sends().skip(start.len() as int);
        assert(added.drop_last() =~= before.skip(start.len() as int));
        assert(added.last() == (all[k as int], delivered));
        assert(added.map_values(|s: (Message, bool)| s.0) =~= all.take(k + 1));
        assert(sender.sends().take(start.len() as int) =~= start);
        if !delivered {
            refused = refused + 1;
        }
        k = k + 1;
    }
    assert(all.take(n as int) =~= all);
    assert(sender.sends() =~= start + sender.sends().skip(start.len() as int));
    assert(sender.handed() =~= start.map_values(|s: (Message, bool)| s.0) + all);
    refused
}

} // verus!
