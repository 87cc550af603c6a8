//! The processing runtime of a render.
//!
//! A runtime aggregates the variable [`Stack`], the block interrupt state,
//! a plugin register area keyed by a stable plugin identifier, and the
//! store of partial templates.  The interrupt state is how `break` and
//! `continue` unwind to the innermost enclosing loop.

use vstd::prelude::*;

use crate::ast::Template;
use crate::error::Error;
use crate::object::oget;
use crate::object::oset;
use crate::object::Object;
use crate::stack::Stack;
use crate::value::model;
use crate::value::Value;
use crate::value::VModel;

verus! {

/// Block processing interrupt.
#[derive(Debug, Clone, Copy, PartialEq, Eq, Structural)]
pub enum Interrupt {
    /// Restart processing the current block.
    Continue,
    /// Stop processing the current block.
    Break,
}

/// The current interrupt state.  `break` and `continue` set it to halt
/// rendering at a given point and unwind until the innermost enclosing
/// loop pops it and carries on as directed.
#[derive(Debug)]
pub struct InterruptState {
    /// The pending interrupt, if any.
    pub interrupt: Option<Interrupt>,
}

impl InterruptState {
    /// Creates a clear interrupt state.
    pub fn new() -> (r: InterruptState)
        ensures
            r.interrupt is None,
    {
        InterruptState { interrupt: None }
    }

    /// An interrupt state is active.
    pub fn interrupted(&self) -> (r: bool)
        ensures
            r == (self.interrupt is Some),
    {
        self.interrupt.is_some()
    }

    /// Sets the interrupt state.  Any previous state is obliterated.
    pub fn set_interrupt(&mut self, interrupt: Interrupt)
        ensures
            final(self).interrupt == Some(interrupt),
    {
        self.interrupt = Some(interrupt);
    }

    /// Fetches and clears the interrupt state.
    pub fn pop_interrupt(&mut self) -> (r: Option<Interrupt>)
        ensures
            r == old(self).interrupt,
            final(self).interrupt is None,
    {
        let rval = match &self.interrupt {
            Some(i) => Some(*i),
            None => None,
        };
        self.interrupt = None;
        rval
    }
}

impl Default for InterruptState {
    /// A clear interrupt state.
    fn default() -> (r: InterruptState)
        ensures
            r.interrupt is None,
    {
        InterruptState::new()
    }
}

/// A store of partial templates, fetched by name for inclusion.
/// An empty store answers every lookup with a miss, as a runtime built
/// without partials does.
#[derive(Debug)]
pub struct Partials {
    /// The named templates, in registration order.
    pub entries: Vec<(Vec<u8>, Template)>,
}

/// The position of the first entry at or after `i` named `k`.
pub open spec fn ppos_from(es: Seq<(Vec<u8>, Template)>, k: Seq<u8>, i: int) -> Option<int>
    decreases es.len() - i,
{
    if i < 0 || i >= es.len() {
        None
    } else if es[i].0@ == k {
        Some(i)
    } else {
        ppos_from(es, k, i + 1)
    }
}

impl Partials {
    /// Creates an empty store.
    pub fn new() -> (r: Partials)
        ensures
            r.entries@.len() == 0,
    {
        Partials { entries: Vec::new() }
    }

    /// Registers a template under a name.
    pub fn register(&mut self, name: Vec<u8>, t: Template)
        ensures
            final(self).entries@ == old(self).entries@.push((name, t)),
    {
        self.entries.push((name, t));
    }

    /// Finds the first entry named `name` at or after `i`.
    fn position_from(&self, name: &Vec<u8>, i: usize) -> (r: Option<usize>)
        requires
            i <= self.entries@.len(),
        ensures
            match r {
                Some(p) => Some(p as int) == ppos_from(self.entries@, name@, i as int) && p
                    < self.entries@.len(),
                None => ppos_from(self.entries@, name@, i as int) is None,
            },
        decreases self.entries@.len() - i,
    {
        if i == self.entries.len() {
            None
        } else if crate::value::bytes_eq(&self.entries[i].0, name) {
            Some(i)
        } else {
            self.position_from(name, i + 1)
        }
    }

    /// Whether a partial of that name is registered.
    pub fn contains(&self, name: &Vec<u8>) -> (r: bool)
        ensures
            r == (ppos_from(self.entries@, name@, 0) is Some),
    {
        self.position_from(name, 0).is_some()
    }

    /// The names of the registered partials, in registration order.
    pub fn names(&self) -> (r: Vec<Vec<u8>>)
        ensures
            r@.len() == self.entries@.len(),
            forall|i: int| 0 <= i < r@.len() ==> #[trigger] r@[i]@ == self.entries@[i].0@,
    {
        let mut r: Vec<Vec<u8>> = Vec::new();
        let mut i: usize = 0;
        while i < self.entries.len()
            invariant
                0 <= i <= self.entries@.len(),
                r@.len() == i,
                forall|j: int| 0 <= j < i ==> #[trigger] r@[j]@ == self.entries@[j].0@,
            decreases self.entries@.len() - i,
        {
            r.push(crate::value::copy_bytes(&self.entries[i].0));
            i = i + 1;
        }
        r
    }

    /// The partial of that name, when registered.
    pub fn try_get(&self, name: &Vec<u8>) -> (r: Option<&Template>)
        ensures
            match r {
                Some(t) => exists|p: int|
                    Some(p) == ppos_from(self.entries@, name@, 0) && *t == self.entries@[p].1,
                None => ppos_from(self.entries@, name@, 0) is None,
            },
    {
        match self.position_from(name, 0) {
            Some(p) => {
                let t = &self.entries[p].1;
                assert(Some(p as int) == ppos_from(self.entries@, name@, 0) && *t
                    == self.entries@[p as int].1);
                Some(t)
            },
            None => None,
        }
    }

    /// The partial of that name, or the partial-does-not-exist error
    /// carrying the requested name.
    pub fn get(&self, name: &Vec<u8>) -> (r: Result<&Template, Error>)
        ensures
            match r {
                Ok(t) => exists|p: int|
                    Some(p) == ppos_from(self.entries@, name@, 0) && *t == self.entries@[p].1,
                Err(e) => ppos_from(self.entries@, name@, 0) is None && e.m().msg
                    == partial_missing_bytes() && e.m().ctx.len() == 1 && e.m().ctx[0] == (
                name_bytes(),
                name@,
                ),
            },
    {
        match self.try_get(name) {
            Some(t) => Ok(t),
            None => {
                let msg = vec![
                    80u8, 97u8, 114u8, 116u8, 105u8, 97u8, 108u8, 32u8, 100u8, 111u8, 101u8,
                    115u8, 32u8, 110u8, 111u8, 116u8, 32u8, 101u8, 120u8, 105u8, 115u8, 116u8,
                ];
                assert(msg@ =~= partial_missing_bytes());
                let ck = vec![110u8, 97u8, 109u8, 101u8];
                assert(ck@ =~= name_bytes());
                Err(Error::with_msg(msg).context(ck, crate::value::copy_bytes(name)))
            },
        }
    }
}

/// The bytes of the message `Partial does not exist`.
pub open spec fn partial_missing_bytes() -> Seq<u8> {
    seq![80u8, 97u8, 114u8, 116u8, 105u8, 97u8, 108u8, 32u8, 100u8, 111u8, 101u8, 115u8, 32u8, 110u8, 111u8, 116u8, 32u8, 101u8, 120u8, 105u8, 115u8, 116u8]
}

/// The bytes of the context key `name`.
pub open spec fn name_bytes() -> Seq<u8> {
    seq![110u8, 97u8, 109u8, 101u8]
}

/// Processing runtime for a template.
#[derive(Debug)]
pub struct Runtime {
    /// The variable stack.
    pub stack: Stack,
    /// The store of partial templates.
    pub partials: Partials,
    /// Data store for stateful tags and blocks, keyed by a stable plugin
    /// identifier.
    pub registers: Object,
    /// The block interrupt state.
    pub interrupt: InterruptState,
}

impl Runtime {
    /// Creates a default runtime: empty stack, no partials, no registers.
    ///
    /// See `RuntimeBuilder` for more control.
    pub fn new() -> (r: Runtime)
        ensures
            r.stack.wf(),
            r.stack.depth() == 1,
            r.stack.m().globals is None,
            r.stack.m().frames[0].data == Seq::<(Seq<u8>, VModel)>::empty(),
            r.stack.m().indexes == Seq::<(Seq<u8>, VModel)>::empty(),
            r.interrupt.interrupt is None,
            r.registers.m() == Seq::<(Seq<u8>, VModel)>::empty(),
            r.partials.entries@.len() == 0,
    {
        Runtime {
            stack: Stack::empty(),
            partials: Partials::new(),
            registers: Object::new(),
            interrupt: InterruptState::new(),
        }
    }

    /// Access the block's interrupt state.
    pub fn interrupt(&self) -> (r: &InterruptState)
        ensures
            r == &self.interrupt,
    {
        &self.interrupt
    }

    /// Partial templates for inclusion.
    pub fn partials(&self) -> (r: &Partials)
        ensures
            r == &self.partials,
    {
        &self.partials
    }

    /// Access the current stack.
    pub fn stack(&self) -> (r: &Stack)
        ensures
            r == &self.stack,
    {
        &self.stack
    }

    /// A plugin's state, when it was stored.
    pub fn get_register(&self, id: &Vec<u8>) -> (r: Option<&Value>)
        ensures
            match r {
                Some(v) => oget(self.registers.m(), id@) == Some(model(*v)),
                None => oget(self.registers.m(), id@) is None,
            },
    {
        self.registers.get(id)
    }

    /// Stores a plugin's state under its identifier.
    pub fn set_register(&mut self, id: Vec<u8>, v: Value)
        ensures
            final(self).registers.m() == oset(old(self).registers.m(), id@, model(v)),
            final(self).stack == old(self).stack,
            final(self).interrupt.interrupt == old(self).interrupt.interrupt,
    {
        let _prev = self.registers.insert(id, v);
    }

    /// Opens a scope: every `push_scope` is balanced by a `pop_scope`, even
    /// on the error path of a render.
    pub fn push_scope(&mut self)
        ensures
            final(self).stack.m() == (crate::stack::StackModel {
                frames: old(self).stack.m().frames.push(
                    crate::stack::FrameModel {
                        name: None::<Seq<u8>>,
                        data: Seq::<(Seq<u8>, VModel)>::empty(),
                    },
                ),
                ..old(self).stack.m()
            }),
            final(self).interrupt.interrupt == old(self).interrupt.interrupt,
            final(self).registers == old(self).registers,
            final(self).partials == old(self).partials,
    {
        self.stack.push_frame();
    }

    /// Opens a named scope: the name shows up through `Stack::frame_name`
    /// until the scope closes, for recursion attribution of partials.
    pub fn push_named_scope(&mut self, name: Vec<u8>)
        ensures
            final(self).stack.m() == (crate::stack::StackModel {
                frames: old(self).stack.m().frames.push(
                    crate::stack::FrameModel {
                        name: Some(name@),
                        data: Seq::<(Seq<u8>, VModel)>::empty(),
                    },
                ),
                ..old(self).stack.m()
            }),
            final(self).interrupt.interrupt == old(self).interrupt.interrupt,
            final(self).registers == old(self).registers,
            final(self).partials == old(self).partials,
    {
        self.stack.push_named_frame(name);
    }

    /// Closes the topmost scope.
    pub fn pop_scope(&mut self)
        requires
            old(self).stack.depth() >= 2,
        ensures
            final(self).stack.m() == (crate::stack::StackModel {
                frames: old(self).stack.m().frames.subrange(
                    0,
                    old(self).stack.m().frames.len() - 1,
                ),
                ..old(self).stack.m()
            }),
            final(self).interrupt.interrupt == old(self).interrupt.interrupt,
            final(self).registers == old(self).registers,
            final(self).partials == old(self).partials,
    {
        self.stack.pop_frame();
    }
}

impl Default for Runtime {
    /// A default runtime, as `new` builds it.
    fn default() -> (r: Runtime)
        ensures
            r.stack.wf(),
            r.stack.depth() == 1,
            r.stack.m().globals is None,
            r.interrupt.interrupt is None,
    {
        Runtime::new()
    }
}

/// Creates the processing runtime for a template.
#[derive(Debug)]
pub struct RuntimeBuilder {
    /// The globals the stack will read through.
    pub globals: Option<Object>,
    /// The partial templates available for inclusion.
    pub partials: Option<Partials>,
}

impl RuntimeBuilder {
    /// Creates a new, empty builder.
    pub fn new() -> (r: RuntimeBuilder)
        ensures
            r.globals is None,
            r.partials is None,
    {
        RuntimeBuilder { globals: None, partials: None }
    }

    /// Initializes the stack with the given globals.
    pub fn set_globals(self, values: Object) -> (r: RuntimeBuilder)
        ensures
            r.globals == Some(values),
            r.partials == self.partials,
    {
        RuntimeBuilder { globals: Some(values), ..self }
    }

    /// Initializes the partial templates available for inclusion.
    pub fn set_partials(self, values: Partials) -> (r: RuntimeBuilder)
        ensures
            r.partials == Some(values),
            r.globals == self.globals,
    {
        RuntimeBuilder { partials: Some(values), ..self }
    }

    /// Creates the runtime.
    pub fn build(self) -> (r: Runtime)
        ensures
            r.stack.wf(),
            r.stack.depth() == 1,
            r.stack.m().frames[0].data == Seq::<(Seq<u8>, VModel)>::empty(),
            r.stack.m().indexes == Seq::<(Seq<u8>, VModel)>::empty(),
            r.stack.m().globals == (match self.globals {
                Some(g) => Some(g.m()),
                None => None::<Seq<(Seq<u8>, VModel)>>,
            }),
            r.interrupt.interrupt is None,
            r.registers.m() == Seq::<(Seq<u8>, VModel)>::empty(),
            match self.partials {
                Some(p) => r.partials == p,
                None => r.partials.entries@.len() == 0,
            },
    {
        let stack = match self.globals {
            Some(globals) => Stack::with_globals(globals),
            None => Stack::empty(),
        };
        let partials = match self.partials {
            Some(p) => p,
            None => Partials::new(),
        };
        Runtime { stack, partials, registers: Object::new(), interrupt: InterruptState::new() }
    }
}

impl Default for RuntimeBuilder {
    /// An empty builder, as `new` builds it.
    fn default() -> (r: RuntimeBuilder)
        ensures
            r.globals is None,
            r.partials is None,
    {
        RuntimeBuilder::new()
    }
}

} // verus!
