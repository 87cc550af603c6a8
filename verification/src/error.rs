//! The structured error value.
//!
//! An error carries a primary message and an ordered list of key/value
//! context entries; enclosing constructs attach context as the error
//! bubbles up.  No error is ever swallowed by the core.

use vstd::prelude::*;

verus! {

/// The ghost mirror of an error.
#[verifier::ext_equal]
pub ghost struct ErrModel {
    /// The primary message.
    pub msg: Seq<u8>,
    /// The context entries, oldest first.
    pub ctx: Seq<(Seq<u8>, Seq<u8>)>,
}

/// The models of context entries, elementwise.
pub open spec fn ctx_model(s: Seq<(Vec<u8>, Vec<u8>)>) -> Seq<(Seq<u8>, Seq<u8>)> {
    Seq::new(s.len(), |i: int| (s[i].0@, s[i].1@))
}

/// A parse-time or render-time error: a message with context.
#[derive(Debug)]
pub struct Error {
    /// The primary message.
    pub msg: Vec<u8>,
    /// The context entries, oldest first.
    pub context: Vec<(Vec<u8>, Vec<u8>)>,
}

impl Error {
    /// The ghost mirror the contracts speak of.
    pub open spec fn m(&self) -> ErrModel {
        ErrModel { msg: self.msg@, ctx: ctx_model(self.context@) }
    }

    /// Creates an error from a message.
    pub fn with_msg(msg: Vec<u8>) -> (r: Error)
        ensures
            r.m().msg == msg@,
            r.m().ctx == Seq::<(Seq<u8>, Seq<u8>)>::empty(),
    {
        let r = Error { msg, context: Vec::new() };
        proof {
            assert(r.m().ctx =~= Seq::<(Seq<u8>, Seq<u8>)>::empty());
        }
        r
    }

    /// Attaches one context entry.
    pub fn context(self, k: Vec<u8>, v: Vec<u8>) -> (r: Error)
        ensures
            r.m().msg == self.m().msg,
            r.m().ctx == self.m().ctx.push((k@, v@)),
    {
        let ghost c0 = self.m().ctx;
        let mut context = self.context;
        context.push((k, v));
        let r = Error { msg: self.msg, context };
        proof {
            assert(r.m().ctx =~= c0.push((k@, v@)));
        }
        r
    }
}

} // verus!
