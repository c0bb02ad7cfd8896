use vstd::prelude::*;

use crate::model::Command;

verus! {

/// Ordered conduit carrying commands from any number of producers to the one
/// worker. Submissions append at the back; the worker takes from the front, so
/// delivery order is exactly the order in which submissions landed.
pub struct CommandChannel {
    items: Vec<Command>,
}

impl View for CommandChannel {
    type V = Seq<Command>;

    closed spec fn view(&self) -> Seq<Command> {
        self.items@
    }
}

impl CommandChannel {
    /// A channel with nothing buffered.
    pub fn new() -> (c: CommandChannel)
        ensures
            c@ == Seq::<Command>::empty(),
    {
        CommandChannel { items: Vec::new() }
    }

    /// How many commands are buffered.
    pub fn len(&self) -> (n: usize)
        ensures
            n == self@.len(),
    {
        self.items.len()
    }

    /// Append one command at the back; nothing already buffered moves.
    pub fn submit(&mut self, cmd: Command)
        ensures
            final(self)@ == old(self)@.push(cmd),
    {
        self.items.push(cmd);
    }

    /// Take the oldest buffered command, or nothing when the channel is empty.
    pub fn take(&mut self) -> (r: Option<Command>)
        ensures
            old(self)@.len() == 0 ==> r is None && final(self)@ == old(self)@,
            old(self)@.len() > 0 ==> (r matches Some(c) && c == old(self)@[0] && final(self)@
                == old(self)@.drop_first()),
    {
        if self.items.len() == 0 {
            None
        } else {
            let c = self.items.remove(0);
            proof {
                assert(self.items@ =~= old(self).items@.drop_first());
            }
            Some(c)
        }
    }

    /// Take every buffered command at once, oldest first.
    pub fn drain(&mut self) -> (cmds: Vec<Command>)
        ensures
            cmds@ == old(self)@,
            final(self)@.len() == 0,
    {
        let mut cmds: Vec<Command> = Vec::new();
        while self.len() > 0
            invariant
                cmds@ + self@ == old(self)@,
            decreases self@.len(),
        {
            let next = self.take();
            match next {
                Some(c) => {
                    cmds.push(c);
                    proof {
                        assert(cmds@ + self@ =~= old(self)@);
                    }
                },
                None => {},
            }
        }
        proof {
            assert(cmds@ =~= cmds@ + self@);
        }
        cmds
    }
}

/// First-in-first-out delivery preserves each producer's own order: if one
/// producer submits `a` and later `b`, with any other producers' submissions
/// landing in between, the channel holds `a` at an earlier position than `b`,
/// and positions are delivery order, since `take` always removes the front.
pub proof fn lemma_fifo_per_producer(
    before: Seq<Command>,
    between: Seq<Command>,
    a: Command,
    b: Command,
)
    ensures
        ({
            let delivered = (before.push(a) + between).push(b);
            &&& delivered.len() == before.len() + between.len() + 2
            &&& delivered[before.len() as int] == a
            &&& delivered[delivered.len() - 1] == b
            &&& (before.len() as int) < delivered.len() - 1
        }),
{
    let delivered = (before.push(a) + between).push(b);
    assert(delivered[before.len() as int] == a);
}

} // verus!
