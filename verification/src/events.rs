//! A queue of component events: plain string identifiers that UI components
//! emit and controllers drain in order.

use vstd::prelude::*;

verus! {

/// A first-in, first-out queue of event identifiers.
pub struct ComponentEvents {
    events: Vec<String>,
}

impl ComponentEvents {
    /// The queued event identifiers, oldest first.
    pub closed spec fn view(self) -> Seq<Seq<char>> {
        Seq::new(self.events@.len(), |i: int| self.events@[i]@)
    }

    /// An empty queue.
    pub fn new() -> (r: ComponentEvents)
        ensures
            r@ == Seq::<Seq<char>>::empty(),
    {
        let r = ComponentEvents { events: Vec::new() };
        proof {
            assert(r@ =~= Seq::<Seq<char>>::empty());
        }
        r
    }

    /// Appends an event at the back of the queue.
    pub fn push(&mut self, event: String)
        ensures
            final(self)@ == old(self)@.push(event@),
    {
        let ghost ev = event@;
        self.events.push(event);
        proof {
            assert(self@ =~= old(self)@.push(ev));
        }
    }

    /// Takes the oldest event, if any.
    pub fn next(&mut self) -> (r: Option<String>)
        ensures
            old(self)@.len() == 0 ==> r is None && final(self)@ == old(self)@,
            old(self)@.len() > 0 ==> (r matches Option::Some(e) && e@ == old(self)@[0]
                && final(self)@ == old(self)@.drop_first()),
    {
        if self.events.len() == 0 {
            proof {
                assert(self@ =~= old(self)@);
            }
            None
        } else {
            let e = self.events.remove(0);
            proof {
                assert(self@ =~= old(self)@.drop_first());
            }
            Some(e)
        }
    }

    pub fn len(&self) -> (r: usize)
        ensures
            r == self@.len(),
    {
        self.events.len()
    }
}

} // verus!
