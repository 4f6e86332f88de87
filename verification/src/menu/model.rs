//! The menu's declarative model: controls, their kinds, and the events
//! bound to the actions a control can produce.

use vstd::prelude::*;

verus! {

/// An abstract interaction a control reacts to.
#[derive(Debug, Clone, Copy, PartialEq, Eq, Structural)]
pub enum Action {
    Click,
}

/// A button's own state.
pub struct Button {
    pub text: String,
    pub enabled: bool,
}

/// The kind of a control, a closed set.
pub enum ControlType {
    Button(Button),
}

/// The events bound to a control's actions: a small association list,
/// looked up front to back.
pub struct Handlers<E> {
    pairs: Vec<(Action, E)>,
}

/// The first event bound to `action`, if any.
pub open spec fn find_handler<E>(pairs: Seq<(Action, E)>, action: Action) -> Option<E>
    decreases pairs.len(),
{
    if pairs.len() == 0 {
        None
    } else if pairs[0].0 == action {
        Some(pairs[0].1)
    } else {
        find_handler(pairs.drop_first(), action)
    }
}

impl<E> Handlers<E> {
    /// The bindings, in lookup order.
    pub closed spec fn pairs_spec(self) -> Seq<(Action, E)> {
        self.pairs@
    }

    /// No bindings.
    pub fn new() -> (r: Handlers<E>)
        ensures
            r.pairs_spec() =~= Seq::<(Action, E)>::empty(),
    {
        Handlers { pairs: Vec::new() }
    }

    /// Bind `event` to `action`, behind any existing binding.
    pub fn insert(&mut self, action: Action, event: E)
        ensures
            final(self).pairs_spec() == old(self).pairs_spec().push((action, event)),
    {
        self.pairs.push((action, event));
    }

    /// Look up the first event bound to `action`.
    #[verifier::loop_isolation(false)]
    pub fn get(&self, action: Action) -> (r: Option<&E>)
        ensures
            match r {
                Some(e) => find_handler(self.pairs_spec(), action) == Some(*e),
                None => find_handler(self.pairs_spec(), action) is None,
            },
    {
        let n = self.pairs.len();
        let mut i: usize = 0;
        while i < n
            invariant
                i <= n,
                find_handler(self.pairs_spec(), action) == find_handler(
                    self.pairs_spec().skip(i as int),
                    action,
                ),
            decreases n - i,
        {
            if self.pairs[i].0 == action {
                proof {
                    assert(self.pairs_spec().skip(i as int)[0] == self.pairs_spec()[i as int]);
                }
                return Some(&self.pairs[i].1);
            }
            proof {
                assert(self.pairs_spec().skip(i as int).drop_first() =~= self.pairs_spec().skip(
                    i as int + 1,
                ));
                assert(self.pairs_spec().skip(i as int)[0] == self.pairs_spec()[i as int]);
            }
            i += 1;
        }
        proof {
            assert(self.pairs_spec().skip(n as int) =~= Seq::<(Action, E)>::empty());
        }
        None
    }
}

/// One control of a page: its kind, whether it takes input, and the
/// events its actions send.
pub struct Control<E> {
    pub typ: ControlType,
    pub enabled: bool,
    pub handlers: Handlers<E>,
}

impl<E: crate::menu::MenuEvent> Control<E> {
    /// Send the event bound to `action`, if one is; otherwise do nothing.
    pub fn action(&self, action: Action) {
        if let Some(event) = self.handlers.get(action) {
            event.send()
        }
    }
}

} // verus!
