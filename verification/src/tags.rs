//! The language registry and the bundled tags.
//!
//! The registry holds two tables consulted only at parse time: tag names
//! and block names.  Registration is additive and case-sensitive.  The
//! bundled `increment` and `decrement` tags live here with their argument
//! parsers; the heavier block constructs are dispatched by kind from the
//! template parser.

use vstd::prelude::*;

use crate::ast::Node;
use crate::error::Error;
use crate::literal::ident;
use crate::literal::ident_end;
use crate::literal::skip_ws;
use crate::literal::ws_end;
use crate::literal::lemma_ws_end;

verus! {

/// The tag implementations the engine bundles.
#[derive(Clone, Copy, Debug, PartialEq, Eq, Structural)]
pub enum TagKind {
    /// `{% assign name = expr %}`
    Assign,
    /// `{% increment name %}`
    Increment,
    /// `{% decrement name %}`
    Decrement,
    /// `{% break %}`
    Break,
    /// `{% continue %}`
    Continue,
}

/// The block implementations the engine bundles.
#[derive(Clone, Copy, Debug, PartialEq, Eq, Structural)]
pub enum BlockKind {
    /// `{% if cond %} … {% endif %}`
    If,
    /// `{% for var in expr %} … {% endfor %}`
    For,
}

/// The first tag registered under `k` at or after `i`.
pub open spec fn tag_at(es: Seq<(Vec<u8>, TagKind)>, k: Seq<u8>, i: int) -> Option<TagKind>
    decreases es.len() - i,
{
    if i < 0 || i >= es.len() {
        None
    } else if es[i].0@ == k {
        Some(es[i].1)
    } else {
        tag_at(es, k, i + 1)
    }
}

/// The first block registered under `k` at or after `i`.
pub open spec fn block_at(es: Seq<(Vec<u8>, BlockKind)>, k: Seq<u8>, i: int) -> Option<BlockKind>
    decreases es.len() - i,
{
    if i < 0 || i >= es.len() {
        None
    } else if es[i].0@ == k {
        Some(es[i].1)
    } else {
        block_at(es, k, i + 1)
    }
}

/// The pluggable tag and block tables the parser consults.  Filters are
/// plugins outside the core, so a filter pipe parses to an unknown-filter
/// error.
#[derive(Debug)]
pub struct Language {
    /// Tag names, in registration order.
    pub tags: Vec<(Vec<u8>, TagKind)>,
    /// Block names, in registration order.
    pub blocks: Vec<(Vec<u8>, BlockKind)>,
}

impl Language {
    /// Creates an empty registry.
    pub fn new() -> (r: Language)
        ensures
            r.tags@.len() == 0,
            r.blocks@.len() == 0,
    {
        Language { tags: Vec::new(), blocks: Vec::new() }
    }

    /// A registry with every bundled tag and block registered under its
    /// usual name.
    pub fn with_default_tags() -> (r: Language)
        ensures
            tag_at(r.tags@, assign_word(), 0) == Some(TagKind::Assign),
            tag_at(r.tags@, increment_word(), 0) == Some(TagKind::Increment),
            tag_at(r.tags@, decrement_word(), 0) == Some(TagKind::Decrement),
            tag_at(r.tags@, break_word(), 0) == Some(TagKind::Break),
            tag_at(r.tags@, continue_word(), 0) == Some(TagKind::Continue),
            block_at(r.blocks@, if_word(), 0) == Some(BlockKind::If),
            block_at(r.blocks@, for_word(), 0) == Some(BlockKind::For),
    {
        let mut r = Language::new();
        let aw = vec![97u8, 115u8, 115u8, 105u8, 103u8, 110u8];
        assert(aw@ =~= assign_word());
        r.register_tag(aw, TagKind::Assign);
        let iw = vec![105u8, 110u8, 99u8, 114u8, 101u8, 109u8, 101u8, 110u8, 116u8];
        assert(iw@ =~= increment_word());
        r.register_tag(iw, TagKind::Increment);
        let dw = vec![100u8, 101u8, 99u8, 114u8, 101u8, 109u8, 101u8, 110u8, 116u8];
        assert(dw@ =~= decrement_word());
        r.register_tag(dw, TagKind::Decrement);
        let bw = vec![98u8, 114u8, 101u8, 97u8, 107u8];
        assert(bw@ =~= break_word());
        r.register_tag(bw, TagKind::Break);
        let cw = vec![99u8, 111u8, 110u8, 116u8, 105u8, 110u8, 117u8, 101u8];
        assert(cw@ =~= continue_word());
        r.register_tag(cw, TagKind::Continue);
        let fw = vec![105u8, 102u8];
        assert(fw@ =~= if_word());
        r.register_block(fw, BlockKind::If);
        let ow = vec![102u8, 111u8, 114u8];
        assert(ow@ =~= for_word());
        r.register_block(ow, BlockKind::For);
        proof {
            reveal_with_fuel(tag_at, 6);
            reveal_with_fuel(block_at, 3);
            assert(r.tags@.len() == 5);
            assert(r.tags@[0].0@ == assign_word() && r.tags@[0].1 == TagKind::Assign);
            assert(r.tags@[1].0@ == increment_word() && r.tags@[1].1 == TagKind::Increment);
            assert(r.tags@[2].0@ == decrement_word() && r.tags@[2].1 == TagKind::Decrement);
            assert(r.tags@[3].0@ == break_word() && r.tags@[3].1 == TagKind::Break);
            assert(r.tags@[4].0@ == continue_word() && r.tags@[4].1 == TagKind::Continue);
            assert(r.blocks@.len() == 2);
            assert(r.blocks@[0].0@ == if_word() && r.blocks@[0].1 == BlockKind::If);
            assert(r.blocks@[1].0@ == for_word() && r.blocks@[1].1 == BlockKind::For);
            assert(assign_word().len() == 6 && increment_word().len() == 9
                && decrement_word().len() == 9 && break_word().len() == 5
                && continue_word().len() == 8 && if_word().len() == 2 && for_word().len() == 3);
            assert(increment_word()[0] != decrement_word()[0]);
        }
        r
    }

    /// Registers a tag under a name.
    pub fn register_tag(&mut self, name: Vec<u8>, kind: TagKind)
        ensures
            final(self).tags@ == old(self).tags@.push((name, kind)),
            final(self).blocks@ == old(self).blocks@,
    {
        self.tags.push((name, kind));
    }

    /// Registers a block under a name.
    pub fn register_block(&mut self, name: Vec<u8>, kind: BlockKind)
        ensures
            final(self).blocks@ == old(self).blocks@.push((name, kind)),
            final(self).tags@ == old(self).tags@,
    {
        self.blocks.push((name, kind));
    }

    /// Looks a tag name up, first registration first.
    pub fn lookup_tag(&self, name: &Vec<u8>) -> (r: Option<TagKind>)
        ensures
            r == tag_at(self.tags@, name@, 0),
    {
        self.lookup_tag_from(name, 0)
    }

    /// Looks a tag name up at or after `i`.
    fn lookup_tag_from(&self, name: &Vec<u8>, i: usize) -> (r: Option<TagKind>)
        requires
            i <= self.tags@.len(),
        ensures
            r == tag_at(self.tags@, name@, i as int),
        decreases self.tags@.len() - i,
    {
        if i == self.tags.len() {
            None
        } else if crate::value::bytes_eq(&self.tags[i].0, name) {
            Some(self.tags[i].1)
        } else {
            self.lookup_tag_from(name, i + 1)
        }
    }

    /// Looks a block name up, first registration first.
    pub fn lookup_block(&self, name: &Vec<u8>) -> (r: Option<BlockKind>)
        ensures
            r == block_at(self.blocks@, name@, 0),
    {
        self.lookup_block_from(name, 0)
    }

    /// Looks a block name up at or after `i`.
    fn lookup_block_from(&self, name: &Vec<u8>, i: usize) -> (r: Option<BlockKind>)
        requires
            i <= self.blocks@.len(),
        ensures
            r == block_at(self.blocks@, name@, i as int),
        decreases self.blocks@.len() - i,
    {
        if i == self.blocks.len() {
            None
        } else if crate::value::bytes_eq(&self.blocks[i].0, name) {
            Some(self.blocks[i].1)
        } else {
            self.lookup_block_from(name, i + 1)
        }
    }

    /// The registered tag names, in registration order.
    pub fn tag_names(&self) -> (r: Vec<Vec<u8>>)
        ensures
            r@.len() == self.tags@.len(),
            forall|i: int| 0 <= i < r@.len() ==> #[trigger] r@[i]@ == self.tags@[i].0@,
    {
        let mut r: Vec<Vec<u8>> = Vec::new();
        let mut i: usize = 0;
        while i < self.tags.len()
            invariant
                0 <= i <= self.tags@.len(),
                r@.len() == i,
                forall|j: int| 0 <= j < i ==> #[trigger] r@[j]@ == self.tags@[j].0@,
            decreases self.tags@.len() - i,
        {
            r.push(crate::value::copy_bytes(&self.tags[i].0));
            i = i + 1;
        }
        r
    }
}

/// The bytes of the word `assign`.
pub open spec fn assign_word() -> Seq<u8> {
    seq![97u8, 115u8, 115u8, 105u8, 103u8, 110u8]
}

/// The bytes of the word `increment`.
pub open spec fn increment_word() -> Seq<u8> {
    seq![105u8, 110u8, 99u8, 114u8, 101u8, 109u8, 101u8, 110u8, 116u8]
}

/// The bytes of the word `decrement`.
pub open spec fn decrement_word() -> Seq<u8> {
    seq![100u8, 101u8, 99u8, 114u8, 101u8, 109u8, 101u8, 110u8, 116u8]
}

/// The bytes of the word `break`.
pub open spec fn break_word() -> Seq<u8> {
    seq![98u8, 114u8, 101u8, 97u8, 107u8]
}

/// The bytes of the word `continue`.
pub open spec fn continue_word() -> Seq<u8> {
    seq![99u8, 111u8, 110u8, 116u8, 105u8, 110u8, 117u8, 101u8]
}

/// The bytes of the word `if`.
pub open spec fn if_word() -> Seq<u8> {
    seq![105u8, 102u8]
}

/// The bytes of the word `for`.
pub open spec fn for_word() -> Seq<u8> {
    seq![102u8, 111u8, 114u8]
}

/// The bytes of the word `in`.
pub open spec fn in_word() -> Seq<u8> {
    seq![105u8, 110u8]
}

/// What a lone-identifier argument list denotes: the identifier, when the
/// arguments are exactly one identifier and whitespace.
pub open spec fn ident_arg_m(s: Seq<u8>, at: int) -> Option<Seq<u8>> {
    let ws = ws_end(s, at);
    let we = ident_end(s, ws);
    if we == ws {
        None
    } else if ws_end(s, we) == s.len() {
        Some(s.subrange(ws, we))
    } else {
        None
    }
}

/// Reads the lone-identifier argument list of `increment` / `decrement`:
/// one identifier, nothing more.
pub fn parse_ident_arg(s: &Vec<u8>, at: usize) -> (r: Result<Vec<u8>, Error>)
    requires
        at <= s@.len(),
    ensures
        match r {
            Ok(name) => ident_arg_m(s@, at as int) == Some(name@),
            Err(e) => ident_arg_m(s@, at as int) is None && e.m().msg
                == identifier_expected_bytes(),
        },
{
    proof {
        lemma_ws_end(s@, at as int);
    }
    let ws = skip_ws(s, at);
    let we = ident(s, ws);
    if we == ws {
        return Err(identifier_expected());
    }
    proof {
        lemma_ws_end(s@, we as int);
    }
    let rest = skip_ws(s, we);
    if rest != s.len() {
        return Err(identifier_expected());
    }
    Ok(crate::literal::copy_range(s, ws, we))
}

/// The bytes of the message `Identifier expected.`.
pub open spec fn identifier_expected_bytes() -> Seq<u8> {
    seq![73u8, 100u8, 101u8, 110u8, 116u8, 105u8, 102u8, 105u8, 101u8, 114u8, 32u8, 101u8, 120u8, 112u8, 101u8, 99u8, 116u8, 101u8, 100u8, 46u8]
}

/// The identifier-expected error.
fn identifier_expected() -> (r: Error)
    ensures
        r.m().msg == identifier_expected_bytes(),
{
    let msg = vec![
        73u8, 100u8, 101u8, 110u8, 116u8, 105u8, 102u8, 105u8, 101u8, 114u8, 32u8, 101u8, 120u8,
        112u8, 101u8, 99u8, 116u8, 101u8, 100u8, 46u8,
    ];
    assert(msg@ =~= identifier_expected_bytes());
    Error::with_msg(msg)
}

/// The `increment` tag: emits a counter and bumps it.
#[derive(Clone, Copy, Debug, Default)]
pub struct IncrementTag;

impl IncrementTag {
    /// Creates the tag.
    pub fn new() -> (r: IncrementTag)
        ensures
            r == (IncrementTag {  }),
    {
        IncrementTag {  }
    }

    /// The name the tag registers under.
    pub fn tag(&self) -> (r: &'static str)
        ensures
            r@ == "increment"@,
    {
        "increment"
    }

    /// A one-line description.
    pub fn description(&self) -> (r: &'static str)
        ensures
            r@ == ""@,
    {
        ""
    }

    /// Parses the tag's arguments: one identifier, nothing more.
    pub fn parse(&self, args: &Vec<u8>) -> (r: Result<Node, Error>)
        ensures
            match r {
                Ok(n) => ident_arg_m(args@, 0) matches Some(name) && n matches Node::Increment(v)
                    && v@ == name,
                Err(e) => ident_arg_m(args@, 0) is None && e.m().msg
                    == identifier_expected_bytes(),
            },
    {
        match parse_ident_arg(args, 0) {
            Ok(name) => Ok(Node::Increment(name)),
            Err(e) => Err(e),
        }
    }
}

/// The `decrement` tag: bumps a counter down and emits it.
#[derive(Clone, Copy, Debug, Default)]
pub struct DecrementTag;

impl DecrementTag {
    /// Creates the tag.
    pub fn new() -> (r: DecrementTag)
        ensures
            r == (DecrementTag {  }),
    {
        DecrementTag {  }
    }

    /// The name the tag registers under.
    pub fn tag(&self) -> (r: &'static str)
        ensures
            r@ == "decrement"@,
    {
        "decrement"
    }

    /// A one-line description.
    pub fn description(&self) -> (r: &'static str)
        ensures
            r@ == ""@,
    {
        ""
    }

    /// Parses the tag's arguments: one identifier, nothing more.
    pub fn parse(&self, args: &Vec<u8>) -> (r: Result<Node, Error>)
        ensures
            match r {
                Ok(n) => ident_arg_m(args@, 0) matches Some(name) && n matches Node::Decrement(v)
                    && v@ == name,
                Err(e) => ident_arg_m(args@, 0) is None && e.m().msg
                    == identifier_expected_bytes(),
            },
    {
        match parse_ident_arg(args, 0) {
            Ok(name) => Ok(Node::Decrement(name)),
            Err(e) => Err(e),
        }
    }
}

} // verus!
