//! The template parser.
//!
//! Parsing runs in two passes.  The scanner splits the source into raw
//! text and markup segments — `{{ … }}` expression output and `{% … %}`
//! tags, either with `-` trim markers on both sides.  The builder then
//! turns the segments into renderable nodes, consulting the language
//! registry for tag and block names and trimming whitespace where a
//! neighboring markup asked for it.
//!
//! Every stage is specified by a ghost mirror over byte sequences; the
//! executable parser is pinned to it segment by segment.  Recursive
//! stages carry an explicit step budget large enough for any real
//! template, so the specification stays a total function.

use vstd::prelude::*;

use crate::ast::Expr;
use crate::ast::Node;
use crate::ast::Template;
use crate::error::ErrModel;
use crate::error::Error;
use crate::literal::ident_end;
use crate::literal::ws_end;
use crate::literal::lemma_ws_end;
use crate::tags::block_at;
use crate::tags::tag_at;
use crate::tags::BlockKind;
use crate::tags::Language;
use crate::tags::TagKind;
use crate::value::is_ws;

verus! {

/// A raw piece of the source: plain text, or one markup form.
#[derive(Debug)]
pub enum Segment {
    /// Bytes outside any markup.
    Text(Vec<u8>),
    /// One `{{ … }}` or `{% … %}` occurrence.
    Markup {
        /// Whether the markup is a tag (`{% … %}`).
        is_tag: bool,
        /// Whether the opening delimiter carried `-`: trim the end of the
        /// preceding text.
        trim_left: bool,
        /// Whether the closing delimiter carried `-`: trim the start of
        /// the following text.
        trim_right: bool,
        /// The bytes between the delimiters.
        inner: Vec<u8>,
    },
}

/// The ghost mirror of a segment.
#[verifier::ext_equal]
pub ghost enum SegM {
    /// Bytes outside any markup.
    TextSeg(Seq<u8>),
    /// One markup occurrence.
    MarkupSeg {
        /// Whether the markup is a tag.
        is_tag: bool,
        /// Whether the opening delimiter carried `-`.
        trim_left: bool,
        /// Whether the closing delimiter carried `-`.
        trim_right: bool,
        /// The bytes between the delimiters.
        inner: Seq<u8>,
    },
}

/// The model of a segment.
pub open spec fn seg_model(s: Segment) -> SegM {
    match s {
        Segment::Text(t) => SegM::TextSeg(t@),
        Segment::Markup { is_tag, trim_left, trim_right, inner } => SegM::MarkupSeg {
            is_tag,
            trim_left,
            trim_right,
            inner: inner@,
        },
    }
}

/// The models of a segment list, elementwise.
pub open spec fn seg_models(s: Seq<Segment>) -> Seq<SegM> {
    Seq::new(s.len(), |i: int| seg_model(s[i]))
}

/// What can go wrong while parsing.
pub ghost enum PErrM {
    /// A `{{` or `{%` with no closing delimiter.
    Unterminated,
    /// A quote with no closing quote.
    UnterminatedString,
    /// A block opened and never closed.
    UnterminatedBlock,
    /// A tag name no table knows; carries the name.
    UnknownTag(Seq<u8>),
    /// A filter pipe: the bundled filters live outside the core; carries
    /// the name.
    UnknownFilter(Seq<u8>),
    /// A tag that needed a lone identifier argument.
    IdentExpected,
    /// A float literal: the engine's values carry no floats.
    FloatLit,
    /// Any other unexpected byte.
    Syntax,
    /// The step budget ran out; unreachable for any real template.
    Depth,
}

/// The bytes of the message `Unterminated markup`.
pub open spec fn unterminated_bytes() -> Seq<u8> {
    seq![85u8, 110u8, 116u8, 101u8, 114u8, 109u8, 105u8, 110u8, 97u8, 116u8, 101u8, 100u8, 32u8, 109u8, 97u8, 114u8, 107u8, 117u8, 112u8]
}

/// The bytes of the message `Unterminated string`.
pub open spec fn unterminated_string_bytes() -> Seq<u8> {
    seq![85u8, 110u8, 116u8, 101u8, 114u8, 109u8, 105u8, 110u8, 97u8, 116u8, 101u8, 100u8, 32u8, 115u8, 116u8, 114u8, 105u8, 110u8, 103u8]
}

/// The bytes of the message `Unterminated block`.
pub open spec fn unterminated_block_bytes() -> Seq<u8> {
    seq![85u8, 110u8, 116u8, 101u8, 114u8, 109u8, 105u8, 110u8, 97u8, 116u8, 101u8, 100u8, 32u8, 98u8, 108u8, 111u8, 99u8, 107u8]
}

/// The bytes of the message `Unknown tag`.
pub open spec fn unknown_tag_bytes() -> Seq<u8> {
    seq![85u8, 110u8, 107u8, 110u8, 111u8, 119u8, 110u8, 32u8, 116u8, 97u8, 103u8]
}

/// The bytes of the context key `requested tag`.
pub open spec fn requested_tag_bytes() -> Seq<u8> {
    seq![114u8, 101u8, 113u8, 117u8, 101u8, 115u8, 116u8, 101u8, 100u8, 32u8, 116u8, 97u8, 103u8]
}

/// The bytes of the message `Unknown filter`.
pub open spec fn unknown_filter_bytes() -> Seq<u8> {
    seq![85u8, 110u8, 107u8, 110u8, 111u8, 119u8, 110u8, 32u8, 102u8, 105u8, 108u8, 116u8, 101u8, 114u8]
}

/// The bytes of the context key `requested filter`.
pub open spec fn requested_filter_bytes() -> Seq<u8> {
    seq![114u8, 101u8, 113u8, 117u8, 101u8, 115u8, 116u8, 101u8, 100u8, 32u8, 102u8, 105u8, 108u8, 116u8, 101u8, 114u8]
}

/// The bytes of the message `Unexpected token`.
pub open spec fn unexpected_token_bytes() -> Seq<u8> {
    seq![85u8, 110u8, 101u8, 120u8, 112u8, 101u8, 99u8, 116u8, 101u8, 100u8, 32u8, 116u8, 111u8, 107u8, 101u8, 110u8]
}

/// The bytes of the message `Float literals are not supported`.
pub open spec fn float_unsupported_bytes() -> Seq<u8> {
    seq![70u8, 108u8, 111u8, 97u8, 116u8, 32u8, 108u8, 105u8, 116u8, 101u8, 114u8, 97u8, 108u8, 115u8, 32u8, 97u8, 114u8, 101u8, 32u8, 110u8, 111u8, 116u8, 32u8, 115u8, 117u8, 112u8, 112u8, 111u8, 114u8, 116u8, 101u8, 100u8]
}

/// The bytes of the message `Template is too involved`.
pub open spec fn depth_bytes() -> Seq<u8> {
    seq![84u8, 101u8, 109u8, 112u8, 108u8, 97u8, 116u8, 101u8, 32u8, 105u8, 115u8, 32u8, 116u8, 111u8, 111u8, 32u8, 105u8, 110u8, 118u8, 111u8, 108u8, 118u8, 101u8, 100u8]
}

/// Whether the executable error value reports the ghost parse error.
pub open spec fn perr_matches(em: ErrModel, k: PErrM) -> bool {
    match k {
        PErrM::Unterminated => em.msg == unterminated_bytes(),
        PErrM::UnterminatedString => em.msg == unterminated_string_bytes(),
        PErrM::UnterminatedBlock => em.msg == unterminated_block_bytes(),
        PErrM::UnknownTag(name) => em.msg == unknown_tag_bytes() && em.ctx.len() >= 1
            && em.ctx[0].0 == requested_tag_bytes() && em.ctx[0].1 == name,
        PErrM::UnknownFilter(name) => em.msg == unknown_filter_bytes() && em.ctx.len() >= 1
            && em.ctx[0].0 == requested_filter_bytes() && em.ctx[0].1 == name,
        PErrM::IdentExpected => em.msg == crate::tags::identifier_expected_bytes(),
        PErrM::FloatLit => em.msg == float_unsupported_bytes(),
        PErrM::Syntax => em.msg == unexpected_token_bytes(),
        PErrM::Depth => em.msg == depth_bytes(),
    }
}

/// The position of the first `{{` or `{%` opening at or after `i`.
pub open spec fn find_open(s: Seq<u8>, i: int) -> int
    decreases s.len() - i,
{
    if i < 0 || i >= s.len() {
        s.len() as int
    } else if s[i] == 123 && i + 1 < s.len() && (s[i + 1] == 123 || s[i + 1] == 37) {
        i
    } else {
        find_open(s, i + 1)
    }
}

/// Finds the first `{{` or `{%` opening at or after `i`.
fn scan_open(s: &Vec<u8>, i: usize) -> (r: usize)
    requires
        i <= s@.len(),
    ensures
        r as int == find_open(s@, i as int),
        i <= r <= s@.len(),
        r < s@.len() ==> s@[r as int] == 123 && r + 1 < s@.len() && (s@[r + 1] == 123
            || s@[r + 1] == 37),
    decreases s@.len() - i,
{
    if i == s.len() {
        i
    } else if s[i] == 123 && i + 1 < s.len() && (s[i + 1] == 123 || s[i + 1] == 37) {
        i
    } else {
        scan_open(s, i + 1)
    }
}

/// The position of the first `c}` pair at or after `i`; the input's length
/// when there is none.
pub open spec fn find_close(s: Seq<u8>, i: int, c: u8) -> int
    decreases s.len() - i,
{
    if i < 0 || i >= s.len() {
        s.len() as int
    } else if s[i] == c && i + 1 < s.len() && s[i + 1] == 125 {
        i
    } else {
        find_close(s, i + 1, c)
    }
}

/// Finds the first `c}` pair at or after `i`.
fn scan_close(s: &Vec<u8>, i: usize, c: u8) -> (r: usize)
    requires
        i <= s@.len(),
    ensures
        r as int == find_close(s@, i as int, c),
        i <= r <= s@.len(),
        r < s@.len() ==> s@[r as int] == c && r + 1 < s@.len() && s@[r + 1] == 125,
    decreases s@.len() - i,
{
    if i == s.len() {
        i
    } else if s[i] == c && i + 1 < s.len() && s[i + 1] == 125 {
        i
    } else {
        scan_close(s, i + 1, c)
    }
}

/// The segments of the source from position `i` on.
pub open spec fn scan_m(s: Seq<u8>, i: int, fuel: nat) -> Result<Seq<SegM>, PErrM>
    decreases fuel,
{
    if fuel == 0 {
        Err(PErrM::Depth)
    } else if i < 0 || i >= s.len() {
        Ok(Seq::empty())
    } else {
        let j = find_open(s, i);
        let text = s.subrange(i, j);
        let head: Seq<SegM> = if text.len() > 0 {
            seq![SegM::TextSeg(text)]
        } else {
            Seq::empty()
        };
        if j >= s.len() {
            Ok(head)
        } else {
            let is_tag = s[j + 1] == 37;
            let closec: u8 = if is_tag {
                37
            } else {
                125
            };
            let trim_left = j + 2 < s.len() && s[j + 2] == 45;
            let cs = j + 2 + (if trim_left {
                1int
            } else {
                0int
            });
            let k = find_close(s, cs, closec);
            if k >= s.len() {
                Err(PErrM::Unterminated)
            } else {
                let trim_right = k - 1 >= cs && s[k - 1] == 45;
                let ie = if trim_right {
                    k - 1
                } else {
                    k
                };
                let inner = s.subrange(cs, ie);
                match scan_m(s, k + 2, (fuel - 1) as nat) {
                    Ok(rest) => Ok(
                        head + seq![
                            SegM::MarkupSeg { is_tag, trim_left, trim_right, inner },
                        ] + rest,
                    ),
                    Err(e) => Err(e),
                }
            }
        }
    }
}

/// Splits the source into segments from position `i` on.
pub fn scan(s: &Vec<u8>, i: usize, fuel: usize) -> (r: Result<Vec<Segment>, Error>)
    requires
        i <= s@.len(),
    ensures
        match scan_m(s@, i as int, fuel as nat) {
            Ok(sm) => r matches Ok(v) && seg_models(v@) == sm,
            Err(k) => r matches Err(e) && perr_matches(e.m(), k),
        },
    decreases fuel,
{
    if fuel == 0 {
        return Err(depth_error());
    }
    if i == s.len() {
        let r: Vec<Segment> = Vec::new();
        assert(seg_models(r@) =~= scan_m(s@, i as int, fuel as nat)->Ok_0);
        return Ok(r);
    }
    let j = scan_open(s, i);
    let mut out: Vec<Segment> = Vec::new();
    if j > i {
        out.push(Segment::Text(crate::literal::copy_range(s, i, j)));
    }
    if j == s.len() {
        proof {
            assert(seg_models(out@) =~= scan_m(s@, i as int, fuel as nat)->Ok_0);
        }
        return Ok(out);
    }
    let is_tag = s[j + 1] == 37;
    let closec: u8 = if is_tag {
        37
    } else {
        125
    };
    let trim_left = j + 2 < s.len() && s[j + 2] == 45;
    let cs: usize = if trim_left {
        j + 3
    } else {
        j + 2
    };
    assert(cs <= s@.len());
    let k = scan_close(s, cs, closec);
    if k == s.len() {
        return Err(unterminated_error());
    }
    let trim_right = k >= cs + 1 && s[k - 1] == 45;
    let ie: usize = if trim_right {
        k - 1
    } else {
        k
    };
    let inner = crate::literal::copy_range(s, cs, ie);
    out.push(Segment::Markup { is_tag, trim_left, trim_right, inner });
    match scan(s, k + 2, fuel - 1) {
        Ok(mut rest) => {
            let ghost own = seg_models(out@);
            let ghost rm = seg_models(rest@);
            out.append(&mut rest);
            proof {
                assert(seg_models(out@) =~= own + rm);
                assert(seg_models(out@) =~= scan_m(s@, i as int, fuel as nat)->Ok_0);
            }
            Ok(out)
        },
        Err(e) => Err(e),
    }
}

/// The ghost mirror of a renderable node.
#[verifier::ext_equal]
pub ghost enum NodeM {
    /// Raw text.
    TextM(Seq<u8>),
    /// An expression output.
    OutputM(crate::expr::ExprM),
    /// An assignment into the global frame.
    AssignM(Seq<u8>, crate::expr::ExprM),
    /// A counter bump that emits.
    IncrementM(Seq<u8>),
    /// A counter bump down that emits.
    DecrementM(Seq<u8>),
    /// A loop interrupt.
    BreakM,
    /// An iteration interrupt.
    ContinueM,
    /// A conditional block.
    IfM(crate::expr::CondM, Seq<NodeM>, Seq<NodeM>),
    /// A loop block.
    ForM(Seq<u8>, crate::expr::ExprM, Seq<NodeM>),
}

/// The model of a node.
pub open spec fn node_model(n: Node) -> NodeM
    decreases n, 0int,
{
    match n {
        Node::Text(t) => NodeM::TextM(t@),
        Node::Output(e) => NodeM::OutputM(crate::expr::expr_model(e)),
        Node::Assign(name, e) => NodeM::AssignM(name@, crate::expr::expr_model(e)),
        Node::Increment(name) => NodeM::IncrementM(name@),
        Node::Decrement(name) => NodeM::DecrementM(name@),
        Node::Break => NodeM::BreakM,
        Node::Continue => NodeM::ContinueM,
        Node::If { cond, then_branch, else_branch } => NodeM::IfM(
            crate::expr::cond_model(cond),
            node_models(then_branch@),
            node_models(else_branch@),
        ),
        Node::For { var, source, body } => NodeM::ForM(
            var@,
            crate::expr::expr_model(source),
            node_models(body@),
        ),
    }
}

/// The models of a node list, elementwise.
pub open spec fn node_models(s: Seq<Node>) -> Seq<NodeM>
    decreases s, 1int,
{
    if s.len() == 0 {
        Seq::empty()
    } else {
        node_models(s.subrange(0, s.len() - 1)).push(node_model(s[s.len() - 1]))
    }
}

/// `node_models` maps elementwise.
pub proof fn lemma_node_models(s: Seq<Node>)
    ensures
        node_models(s).len() == s.len(),
        forall|i: int| 0 <= i < s.len() ==> #[trigger] node_models(s)[i] == node_model(s[i]),
    decreases s.len(),
{
    if s.len() > 0 {
        lemma_node_models(s.subrange(0, s.len() - 1));
    }
}

/// Where a closer word stopped the builder.
#[derive(Debug)]
pub enum Stop {
    /// The segments ran out.
    EndOfInput,
    /// `{% endif %}`
    EndIf,
    /// `{% else %}`; the enclosing `if` switches branches.
    Else,
    /// `{% elsif … %}`; carries the rest of the markup as the nested
    /// condition source.
    Elsif(Vec<u8>),
    /// `{% endfor %}`
    EndFor,
}

/// The ghost mirror of a stop.
#[verifier::ext_equal]
pub ghost enum StopM {
    /// The segments ran out.
    EndOfInputM,
    /// `{% endif %}`
    EndIfM,
    /// `{% else %}`
    ElseM,
    /// `{% elsif … %}` with the nested condition source.
    ElsifM(Seq<u8>),
    /// `{% endfor %}`
    EndForM,
}

/// The model of a stop.
pub open spec fn stop_model(s: Stop) -> StopM {
    match s {
        Stop::EndOfInput => StopM::EndOfInputM,
        Stop::EndIf => StopM::EndIfM,
        Stop::Else => StopM::ElseM,
        Stop::Elsif(rest) => StopM::ElsifM(rest@),
        Stop::EndFor => StopM::EndForM,
    }
}

/// The bytes of the word `endif`.
pub open spec fn endif_word() -> Seq<u8> {
    seq![101u8, 110u8, 100u8, 105u8, 102u8]
}

/// The bytes of the word `else`.
pub open spec fn else_word() -> Seq<u8> {
    seq![101u8, 108u8, 115u8, 101u8]
}

/// The bytes of the word `elsif`.
pub open spec fn elsif_word() -> Seq<u8> {
    seq![101u8, 108u8, 115u8, 105u8, 102u8]
}

/// The bytes of the word `endfor`.
pub open spec fn endfor_word() -> Seq<u8> {
    seq![101u8, 110u8, 100u8, 102u8, 111u8, 114u8]
}

/// A text run with its leading whitespace removed.
pub open spec fn strip_start_m(t: Seq<u8>) -> Seq<u8> {
    t.subrange(ws_end(t, 0), t.len() as int)
}

/// The position before the trailing whitespace run that ends at `i`.
pub open spec fn trim_end_pos(t: Seq<u8>, i: int) -> int
    decreases i,
{
    if 0 < i <= t.len() && is_ws(t[i - 1]) {
        trim_end_pos(t, i - 1)
    } else {
        i
    }
}

/// A text run with its trailing whitespace removed.
pub open spec fn strip_end_m(t: Seq<u8>) -> Seq<u8> {
    t.subrange(0, trim_end_pos(t, t.len() as int))
}

/// Removes leading whitespace from a text run.
fn strip_start(t: &Vec<u8>) -> (r: Vec<u8>)
    ensures
        r@ == strip_start_m(t@),
{
    proof {
        lemma_ws_end(t@, 0);
    }
    let j = crate::literal::skip_ws(t, 0);
    crate::literal::copy_range(t, j, t.len())
}

/// Finds the position before the trailing whitespace run ending at `i`.
fn scan_trim_end(t: &Vec<u8>, i: usize) -> (r: usize)
    requires
        i <= t@.len(),
    ensures
        r as int == trim_end_pos(t@, i as int),
        r <= i,
    decreases i,
{
    if i > 0 {
        let b = t[i - 1];
        if b == 9 || b == 10 || b == 12 || b == 13 || b == 32 {
            return scan_trim_end(t, i - 1);
        }
    }
    i
}

/// Removes trailing whitespace from a text run.
fn strip_end(t: &Vec<u8>) -> (r: Vec<u8>)
    ensures
        r@ == strip_end_m(t@),
{
    let e = scan_trim_end(t, t.len());
    crate::literal::copy_range(t, 0, e)
}

/// Whether a segment's closing delimiter asked to trim the following text.
pub open spec fn trims_after(sm: SegM) -> bool {
    match sm {
        SegM::MarkupSeg { trim_right, .. } => trim_right,
        _ => false,
    }
}

/// Whether a segment's opening delimiter asked to trim the preceding text.
pub open spec fn trims_before(sm: SegM) -> bool {
    match sm {
        SegM::MarkupSeg { trim_left, .. } => trim_left,
        _ => false,
    }
}

/// What an output markup's inner bytes parse to.
pub open spec fn parse_output_m(inner: Seq<u8>) -> Result<crate::expr::ExprM, PErrM> {
    match crate::expr::parse_expr_m(inner, 0, crate::expr::budget(inner.len() as int)) {
        Ok(p) => {
            let k = ws_end(inner, p.1);
            if k >= inner.len() {
                Ok(p.0)
            } else if inner[k] == 124 {
                let fs = ws_end(inner, k + 1);
                Err(PErrM::UnknownFilter(inner.subrange(fs, ident_end(inner, fs))))
            } else {
                Err(PErrM::Syntax)
            }
        },
        Err(k) => Err(k),
    }
}

/// Parses an output markup's inner bytes.
pub fn parse_output(inner: &Vec<u8>) -> (r: Result<Expr, Error>)
    ensures
        match parse_output_m(inner@) {
            Ok(em) => r matches Ok(e) && crate::expr::expr_model(e) == em,
            Err(k) => r matches Err(e) && perr_matches(e.m(), k),
        },
{
    let fuel = crate::expr::budget_of(inner.len());
    match crate::expr::parse_expr(inner, 0, fuel) {
        Ok((e, j)) => {
            let k = crate::literal::skip_ws(inner, j);
            if k == inner.len() {
                Ok(e)
            } else if inner[k] == 124 {
                let fs = crate::literal::skip_ws(inner, k + 1);
                let fe = crate::literal::ident(inner, fs);
                let name = crate::literal::copy_range(inner, fs, fe);
                Err(unknown_filter_error(name))
            } else {
                Err(crate::expr::syntax_error())
            }
        },
        Err(e) => Err(e),
    }
}

/// The unknown-filter error, carrying the requested name.
fn unknown_filter_error(name: Vec<u8>) -> (r: Error)
    ensures
        r.m().msg == unknown_filter_bytes(),
        r.m().ctx.len() == 1,
        r.m().ctx[0] == (requested_filter_bytes(), name@),
{
    let msg = vec![
        85u8, 110u8, 107u8, 110u8, 111u8, 119u8, 110u8, 32u8, 102u8, 105u8, 108u8, 116u8, 101u8,
        114u8,
    ];
    assert(msg@ =~= unknown_filter_bytes());
    let ck = vec![
        114u8, 101u8, 113u8, 117u8, 101u8, 115u8, 116u8, 101u8, 100u8, 32u8, 102u8, 105u8, 108u8,
        116u8, 101u8, 114u8,
    ];
    assert(ck@ =~= requested_filter_bytes());
    Error::with_msg(msg).context(ck, name)
}

/// The unknown-tag error, carrying the requested name and the registered
/// names.
fn unknown_tag_error(name: Vec<u8>, lang: &Language) -> (r: Error)
    ensures
        r.m().msg == unknown_tag_bytes(),
        r.m().ctx.len() >= 1,
        r.m().ctx[0] == (requested_tag_bytes(), name@),
{
    let msg = vec![85u8, 110u8, 107u8, 110u8, 111u8, 119u8, 110u8, 32u8, 116u8, 97u8, 103u8];
    assert(msg@ =~= unknown_tag_bytes());
    let ck = vec![
        114u8, 101u8, 113u8, 117u8, 101u8, 115u8, 116u8, 101u8, 100u8, 32u8, 116u8, 97u8, 103u8,
    ];
    assert(ck@ =~= requested_tag_bytes());
    let names = lang.tag_names();
    let listing = crate::stack::join_bytes(&names);
    let ak = vec![
        97u8, 118u8, 97u8, 105u8, 108u8, 97u8, 98u8, 108u8, 101u8, 32u8, 116u8, 97u8, 103u8,
        115u8,
    ];
    Error::with_msg(msg).context(ck, name).context(ak, listing)
}

/// The unterminated-block error.
fn unterminated_block_error() -> (r: Error)
    ensures
        r.m().msg == unterminated_block_bytes(),
{
    let msg = vec![
        85u8, 110u8, 116u8, 101u8, 114u8, 109u8, 105u8, 110u8, 97u8, 116u8, 101u8, 100u8, 32u8,
        98u8, 108u8, 111u8, 99u8, 107u8,
    ];
    assert(msg@ =~= unterminated_block_bytes());
    Error::with_msg(msg)
}

/// The identifier-expected error.
fn ident_expected_error() -> (r: Error)
    ensures
        r.m().msg == crate::tags::identifier_expected_bytes(),
{
    let msg = vec![
        73u8, 100u8, 101u8, 110u8, 116u8, 105u8, 102u8, 105u8, 101u8, 114u8, 32u8, 101u8, 120u8,
        112u8, 101u8, 99u8, 116u8, 101u8, 100u8, 46u8,
    ];
    assert(msg@ =~= crate::tags::identifier_expected_bytes());
    Error::with_msg(msg)
}

/// What an `assign` argument list parses to: a name, `=`, an expression.
pub open spec fn parse_assign_m(inner: Seq<u8>, at: int) -> Result<
    (Seq<u8>, crate::expr::ExprM),
    PErrM,
> {
    let ws = ws_end(inner, at);
    let ne = ident_end(inner, ws);
    if ne == ws {
        Err(PErrM::IdentExpected)
    } else {
        let k = ws_end(inner, ne);
        if k < inner.len() && inner[k] == 61 && !(k + 1 < inner.len() && inner[k + 1] == 61) {
            match crate::expr::parse_expr_m(inner, k + 1, crate::expr::budget(
                inner.len() as int,
            )) {
                Ok(p) => if ws_end(inner, p.1) == inner.len() {
                    Ok((inner.subrange(ws, ne), p.0))
                } else {
                    Err(PErrM::Syntax)
                },
                Err(e) => Err(e),
            }
        } else {
            Err(PErrM::Syntax)
        }
    }
}

/// Parses an `assign` argument list.
pub fn parse_assign(inner: &Vec<u8>, at: usize) -> (r: Result<(Vec<u8>, Expr), Error>)
    requires
        at <= inner@.len(),
    ensures
        match parse_assign_m(inner@, at as int) {
            Ok(p) => r matches Ok(q) && q.0@ == p.0 && crate::expr::expr_model(q.1) == p.1,
            Err(k) => r matches Err(e) && perr_matches(e.m(), k),
        },
{
    let ws = crate::literal::skip_ws(inner, at);
    let ne = crate::literal::ident(inner, ws);
    if ne == ws {
        return Err(ident_expected_error());
    }
    let k = crate::literal::skip_ws(inner, ne);
    let n = inner.len();
    if k < n && inner[k] == 61 && !(k + 1 < n && inner[k + 1] == 61) {
        let fuel = crate::expr::budget_of(inner.len());
        match crate::expr::parse_expr(inner, k + 1, fuel) {
            Ok((e, j)) => {
                let rest = crate::literal::skip_ws(inner, j);
                if rest == inner.len() {
                    Ok((crate::literal::copy_range(inner, ws, ne), e))
                } else {
                    Err(crate::expr::syntax_error())
                }
            },
            Err(e) => Err(e),
        }
    } else {
        Err(crate::expr::syntax_error())
    }
}

/// What a `for` head parses to after the word `for`: a variable, the word
/// `in`, the source expression.
pub open spec fn parse_for_head_m(inner: Seq<u8>, at: int) -> Result<
    (Seq<u8>, crate::expr::ExprM),
    PErrM,
> {
    let ws = ws_end(inner, at);
    let ne = ident_end(inner, ws);
    if ne == ws {
        Err(PErrM::IdentExpected)
    } else {
        let k = ws_end(inner, ne);
        let ke = ident_end(inner, k);
        if ke > k && inner.subrange(k, ke) == crate::tags::in_word() {
            match crate::expr::parse_expr_m(inner, ke, crate::expr::budget(inner.len() as int)) {
                Ok(p) => if ws_end(inner, p.1) == inner.len() {
                    Ok((inner.subrange(ws, ne), p.0))
                } else {
                    Err(PErrM::Syntax)
                },
                Err(e) => Err(e),
            }
        } else {
            Err(PErrM::Syntax)
        }
    }
}

/// Parses a `for` head after the word `for`.
pub fn parse_for_head(inner: &Vec<u8>, at: usize) -> (r: Result<(Vec<u8>, Expr), Error>)
    requires
        at <= inner@.len(),
    ensures
        match parse_for_head_m(inner@, at as int) {
            Ok(p) => r matches Ok(q) && q.0@ == p.0 && crate::expr::expr_model(q.1) == p.1,
            Err(k) => r matches Err(e) && perr_matches(e.m(), k),
        },
{
    let ws = crate::literal::skip_ws(inner, at);
    let ne = crate::literal::ident(inner, ws);
    if ne == ws {
        return Err(ident_expected_error());
    }
    let k = crate::literal::skip_ws(inner, ne);
    let ke = crate::literal::ident(inner, k);
    let iw = vec![105u8, 110u8];
    assert(iw@ =~= crate::tags::in_word());
    if ke > k {
        let w = crate::literal::copy_range(inner, k, ke);
        if crate::value::bytes_eq(&w, &iw) {
            let fuel = crate::expr::budget_of(inner.len());
            match crate::expr::parse_expr(inner, ke, fuel) {
                Ok((e, j)) => {
                    let rest = crate::literal::skip_ws(inner, j);
                    if rest == inner.len() {
                        return Ok((crate::literal::copy_range(inner, ws, ne), e));
                    } else {
                        return Err(crate::expr::syntax_error());
                    }
                },
                Err(e) => {
                    return Err(e);
                },
            }
        }
    }
    Err(crate::expr::syntax_error())
}

/// What the builder yields from segment `i` on: the nodes up to a closer
/// word or the end, which closer stopped it, and the next segment.
pub open spec fn build_m(lang: Language, segs: Seq<SegM>, i: int, fuel: nat) -> Result<
    (Seq<NodeM>, StopM, int),
    PErrM,
>
    decreases fuel,
{
    if fuel == 0 {
        Err(PErrM::Depth)
    } else if i < 0 || i >= segs.len() {
        Ok((Seq::empty(), StopM::EndOfInputM, segs.len() as int))
    } else {
        match segs[i] {
            SegM::TextSeg(t) => {
                let t1 = if i > 0 && trims_after(segs[i - 1]) {
                    strip_start_m(t)
                } else {
                    t
                };
                let t2 = if i + 1 < segs.len() && trims_before(segs[i + 1]) {
                    strip_end_m(t1)
                } else {
                    t1
                };
                match build_m(lang, segs, i + 1, (fuel - 1) as nat) {
                    Ok(p) => Ok((seq![NodeM::TextM(t2)] + p.0, p.1, p.2)),
                    Err(e) => Err(e),
                }
            },
            SegM::MarkupSeg { is_tag: false, inner, .. } => match parse_output_m(inner) {
                Ok(em) => match build_m(lang, segs, i + 1, (fuel - 1) as nat) {
                    Ok(p) => Ok((seq![NodeM::OutputM(em)] + p.0, p.1, p.2)),
                    Err(e) => Err(e),
                },
                Err(e) => Err(e),
            },
            SegM::MarkupSeg { is_tag: true, inner, .. } => {
                let ws0 = ws_end(inner, 0);
                let we = ident_end(inner, ws0);
                if we == ws0 {
                    Err(PErrM::Syntax)
                } else {
                    let w = inner.subrange(ws0, we);
                    if w == endif_word() && ws_end(inner, we) == inner.len() {
                        Ok((Seq::empty(), StopM::EndIfM, i + 1))
                    } else if w == else_word() && ws_end(inner, we) == inner.len() {
                        Ok((Seq::empty(), StopM::ElseM, i + 1))
                    } else if w == elsif_word() {
                        Ok((
                            Seq::empty(),
                            StopM::ElsifM(inner.subrange(we, inner.len() as int)),
                            i + 1,
                        ))
                    } else if w == endfor_word() && ws_end(inner, we) == inner.len() {
                        Ok((Seq::empty(), StopM::EndForM, i + 1))
                    } else {
                        match crate::tags::block_at(lang.blocks@, w, 0) {
                            Some(BlockKind::If) => {
                                match if_chain_m(
                                    lang,
                                    inner.subrange(we, inner.len() as int),
                                    segs,
                                    i + 1,
                                    (fuel - 1) as nat,
                                ) {
                                    Ok(q) => match build_m(lang, segs, q.1, (fuel - 1) as nat) {
                                        Ok(p) => Ok((seq![q.0] + p.0, p.1, p.2)),
                                        Err(e) => Err(e),
                                    },
                                    Err(e) => Err(e),
                                }
                            },
                            Some(BlockKind::For) => {
                                match parse_for_head_m(inner, we as int) {
                                    Ok(h) => match build_m(lang, segs, i + 1, (fuel - 1) as nat) {
                                        Ok(b) => if b.1 is EndForM {
                                            match build_m(lang, segs, b.2, (fuel - 1) as nat) {
                                                Ok(p) => Ok(
                                                    (
                                                        seq![NodeM::ForM(h.0, h.1, b.0)] + p.0,
                                                        p.1,
                                                        p.2,
                                                    ),
                                                ),
                                                Err(e) => Err(e),
                                            }
                                        } else {
                                            Err(PErrM::UnterminatedBlock)
                                        },
                                        Err(e) => Err(e),
                                    },
                                    Err(e) => Err(e),
                                }
                            },
                            None => match crate::tags::tag_at(lang.tags@, w, 0) {
                                Some(kind) => match parse_tag_m(kind, inner, we as int) {
                                    Ok(node) => match build_m(lang, segs, i + 1, (fuel
                                        - 1) as nat) {
                                        Ok(p) => Ok((seq![node] + p.0, p.1, p.2)),
                                        Err(e) => Err(e),
                                    },
                                    Err(e) => Err(e),
                                },
                                None => Err(PErrM::UnknownTag(w)),
                            },
                        }
                    }
                }
            },
        }
    }
}

/// What one registered tag's arguments parse to.
pub open spec fn parse_tag_m(kind: TagKind, inner: Seq<u8>, at: int) -> Result<NodeM, PErrM> {
    match kind {
        TagKind::Assign => match parse_assign_m(inner, at) {
            Ok(p) => Ok(NodeM::AssignM(p.0, p.1)),
            Err(e) => Err(e),
        },
        TagKind::Increment => match crate::tags::ident_arg_m(inner, at) {
            Some(name) => Ok(NodeM::IncrementM(name)),
            None => Err(PErrM::IdentExpected),
        },
        TagKind::Decrement => match crate::tags::ident_arg_m(inner, at) {
            Some(name) => Ok(NodeM::DecrementM(name)),
            None => Err(PErrM::IdentExpected),
        },
        TagKind::Break => if ws_end(inner, at) == inner.len() {
            Ok(NodeM::BreakM)
        } else {
            Err(PErrM::Syntax)
        },
        TagKind::Continue => if ws_end(inner, at) == inner.len() {
            Ok(NodeM::ContinueM)
        } else {
            Err(PErrM::Syntax)
        },
    }
}

/// What an `if` chain yields: the condition from `cond_src`, the branch up
/// to the matching closer, and — through `else` and `elsif` — the rest.
pub open spec fn if_chain_m(
    lang: Language,
    cond_src: Seq<u8>,
    segs: Seq<SegM>,
    i: int,
    fuel: nat,
) -> Result<(NodeM, int), PErrM>
    decreases fuel,
{
    if fuel == 0 {
        Err(PErrM::Depth)
    } else {
        match crate::expr::parse_cond_full_m(cond_src, 0) {
            Ok(cond) => match build_m(lang, segs, i, (fuel - 1) as nat) {
                Ok(b) => match b.1 {
                    StopM::EndIfM => Ok((NodeM::IfM(cond, b.0, Seq::empty()), b.2)),
                    StopM::ElseM => match build_m(lang, segs, b.2, (fuel - 1) as nat) {
                        Ok(c) => if c.1 is EndIfM {
                            Ok((NodeM::IfM(cond, b.0, c.0), c.2))
                        } else {
                            Err(PErrM::UnterminatedBlock)
                        },
                        Err(e) => Err(e),
                    },
                    StopM::ElsifM(rest) => match if_chain_m(lang, rest, segs, b.2, (fuel
                        - 1) as nat) {
                        Ok(q) => Ok((NodeM::IfM(cond, b.0, seq![q.0]), q.1)),
                        Err(e) => Err(e),
                    },
                    _ => Err(PErrM::UnterminatedBlock),
                },
                Err(e) => Err(e),
            },
            Err(e) => Err(e),
        }
    }
}

/// The depth-budget error.
fn depth_error() -> (r: Error)
    ensures
        r.m().msg == depth_bytes(),
{
    let msg = vec![
        84u8, 101u8, 109u8, 112u8, 108u8, 97u8, 116u8, 101u8, 32u8, 105u8, 115u8, 32u8, 116u8,
        111u8, 111u8, 32u8, 105u8, 110u8, 118u8, 111u8, 108u8, 118u8, 101u8, 100u8,
    ];
    assert(msg@ =~= depth_bytes());
    Error::with_msg(msg)
}

/// The unterminated-markup error.
fn unterminated_error() -> (r: Error)
    ensures
        r.m().msg == unterminated_bytes(),
{
    let msg = vec![
        85u8, 110u8, 116u8, 101u8, 114u8, 109u8, 105u8, 110u8, 97u8, 116u8, 101u8, 100u8, 32u8,
        109u8, 97u8, 114u8, 107u8, 117u8, 112u8,
    ];
    assert(msg@ =~= unterminated_bytes());
    Error::with_msg(msg)
}

/// Whether this segment asked to trim the following text.
fn seg_trims_after(s: &Segment) -> (r: bool)
    ensures
        r == trims_after(seg_model(*s)),
{
    match s {
        Segment::Markup { trim_right, .. } => *trim_right,
        _ => false,
    }
}

/// Whether this segment asked to trim the preceding text.
fn seg_trims_before(s: &Segment) -> (r: bool)
    ensures
        r == trims_before(seg_model(*s)),
{
    match s {
        Segment::Markup { trim_left, .. } => *trim_left,
        _ => false,
    }
}

/// Parses one registered tag's arguments into its node.
fn parse_tag(kind: TagKind, inner: &Vec<u8>, at: usize) -> (r: Result<Node, Error>)
    requires
        at <= inner@.len(),
    ensures
        match parse_tag_m(kind, inner@, at as int) {
            Ok(nm) => r matches Ok(n) && node_model(n) == nm,
            Err(k) => r matches Err(e) && perr_matches(e.m(), k),
        },
{
    match kind {
        TagKind::Assign => match parse_assign(inner, at) {
            Ok((name, e)) => Ok(Node::Assign(name, e)),
            Err(e) => Err(e),
        },
        TagKind::Increment => match crate::tags::parse_ident_arg(inner, at) {
            Ok(name) => Ok(Node::Increment(name)),
            Err(e) => Err(e),
        },
        TagKind::Decrement => match crate::tags::parse_ident_arg(inner, at) {
            Ok(name) => Ok(Node::Decrement(name)),
            Err(e) => Err(e),
        },
        TagKind::Break => {
            let k = crate::literal::skip_ws(inner, at);
            if k == inner.len() {
                Ok(Node::Break)
            } else {
                Err(crate::expr::syntax_error())
            }
        },
        TagKind::Continue => {
            let k = crate::literal::skip_ws(inner, at);
            if k == inner.len() {
                Ok(Node::Continue)
            } else {
                Err(crate::expr::syntax_error())
            }
        },
    }
}

/// Builds nodes from segment `i` on, stopping at a closer word.
#[verifier::rlimit(100)]
fn build(lang: &Language, segs: &Vec<Segment>, i: usize, fuel: usize) -> (r: Result<
    (Vec<Node>, Stop, usize),
    Error,
>)
    requires
        i <= segs@.len(),
    ensures
        match build_m(*lang, seg_models(segs@), i as int, fuel as nat) {
            Ok(t) => r matches Ok(v) && node_models(v.0@) == t.0 && stop_model(v.1) == t.1
                && v.2 as int == t.2 && v.2 <= segs@.len(),
            Err(k) => r matches Err(e) && perr_matches(e.m(), k),
        },
    decreases fuel,
{
    let ghost sm = seg_models(segs@);
    if fuel == 0 {
        return Err(depth_error());
    }
    if i == segs.len() {
        let out: Vec<Node> = Vec::new();
        assert(node_models(out@) =~= Seq::<NodeM>::empty());
        return Ok((out, Stop::EndOfInput, i));
    }
    assert(sm[i as int] == seg_model(segs@[i as int]));
    match &segs[i] {
        Segment::Text(t) => {
            let t1 = if i > 0 && seg_trims_after(&segs[i - 1]) {
                strip_start(t)
            } else {
                crate::value::copy_bytes(t)
            };
            let t2 = if i + 1 < segs.len() && seg_trims_before(&segs[i + 1]) {
                strip_end(&t1)
            } else {
                t1
            };
            match build(lang, segs, i + 1, fuel - 1) {
                Ok((mut nodes, stop, next)) => {
                    let ghost restm = node_models(nodes@);
                    proof {
                        lemma_node_models(nodes@);
                    }
                    let mut out: Vec<Node> = Vec::new();
                    out.push(Node::Text(t2));
                    out.append(&mut nodes);
                    proof {
                        lemma_node_models(out@);
                        assert(node_models(out@) =~= seq![node_model(out@[0])] + restm);
                    }
                    Ok((out, stop, next))
                },
                Err(e) => Err(e),
            }
        },
        Segment::Markup { is_tag: false, inner, .. } => {
            match parse_output(inner) {
                Ok(e) => {
                    match build(lang, segs, i + 1, fuel - 1) {
                        Ok((mut nodes, stop, next)) => {
                            let ghost restm = node_models(nodes@);
                            proof {
                                lemma_node_models(nodes@);
                            }
                            let mut out: Vec<Node> = Vec::new();
                            out.push(Node::Output(e));
                            out.append(&mut nodes);
                            proof {
                                lemma_node_models(out@);
                                assert(node_models(out@) =~= seq![node_model(out@[0])] + restm);
                            }
                            Ok((out, stop, next))
                        },
                        Err(e2) => Err(e2),
                    }
                },
                Err(e) => Err(e),
            }
        },
        Segment::Markup { is_tag: true, inner, .. } => {
            let ws0 = crate::literal::skip_ws(inner, 0);
            let we = crate::literal::ident(inner, ws0);
            if we == ws0 {
                return Err(crate::expr::syntax_error());
            }
            let w = crate::literal::copy_range(inner, ws0, we);
            let rest_ws = crate::literal::skip_ws(inner, we);
            let endif_w = vec![101u8, 110u8, 100u8, 105u8, 102u8];
            assert(endif_w@ =~= endif_word());
            let else_w = vec![101u8, 108u8, 115u8, 101u8];
            assert(else_w@ =~= else_word());
            let elsif_w = vec![101u8, 108u8, 115u8, 105u8, 102u8];
            assert(elsif_w@ =~= elsif_word());
            let endfor_w = vec![101u8, 110u8, 100u8, 102u8, 111u8, 114u8];
            assert(endfor_w@ =~= endfor_word());
            if crate::value::bytes_eq(&w, &endif_w) && rest_ws == inner.len() {
                let out: Vec<Node> = Vec::new();
                assert(node_models(out@) =~= Seq::<NodeM>::empty());
                return Ok((out, Stop::EndIf, i + 1));
            }
            if crate::value::bytes_eq(&w, &else_w) && rest_ws == inner.len() {
                let out: Vec<Node> = Vec::new();
                assert(node_models(out@) =~= Seq::<NodeM>::empty());
                return Ok((out, Stop::Else, i + 1));
            }
            if crate::value::bytes_eq(&w, &elsif_w) {
                let out: Vec<Node> = Vec::new();
                assert(node_models(out@) =~= Seq::<NodeM>::empty());
                return Ok((out, Stop::Elsif(crate::literal::copy_range(inner, we, inner.len())), i
                    + 1));
            }
            if crate::value::bytes_eq(&w, &endfor_w) && rest_ws == inner.len() {
                let out: Vec<Node> = Vec::new();
                assert(node_models(out@) =~= Seq::<NodeM>::empty());
                return Ok((out, Stop::EndFor, i + 1));
            }
            match lang.lookup_block(&w) {
                Some(BlockKind::If) => {
                    let cond_src = crate::literal::copy_range(inner, we, inner.len());
                    match if_chain(lang, &cond_src, segs, i + 1, fuel - 1) {
                        Ok((node, j)) => {
                            match build(lang, segs, j, fuel - 1) {
                                Ok((mut nodes, stop, next)) => {
                                    let ghost restm = node_models(nodes@);
                                    proof {
                                        lemma_node_models(nodes@);
                                    }
                                    let mut out: Vec<Node> = Vec::new();
                                    out.push(node);
                                    out.append(&mut nodes);
                                    proof {
                                        lemma_node_models(out@);
                                        assert(node_models(out@) =~= seq![node_model(out@[0])]
                                            + restm);
                                    }
                                    Ok((out, stop, next))
                                },
                                Err(e) => Err(e),
                            }
                        },
                        Err(e) => Err(e),
                    }
                },
                Some(BlockKind::For) => {
                    match parse_for_head(inner, we) {
                        Ok((var, source)) => {
                            match build(lang, segs, i + 1, fuel - 1) {
                                Ok((body, stop, j)) => {
                                    match stop {
                                        Stop::EndFor => {
                                            match build(lang, segs, j, fuel - 1) {
                                                Ok((mut nodes, stop2, next)) => {
                                                    let ghost restm = node_models(nodes@);
                                                    proof {
                                                        lemma_node_models(nodes@);
                                                    }
                                                    let mut out: Vec<Node> = Vec::new();
                                                    out.push(Node::For { var, source, body });
                                                    out.append(&mut nodes);
                                                    proof {
                                                        lemma_node_models(out@);
                                                        assert(node_models(out@) =~= seq![
                                                            node_model(out@[0]),
                                                        ] + restm);
                                                    }
                                                    Ok((out, stop2, next))
                                                },
                                                Err(e) => Err(e),
                                            }
                                        },
                                        _ => Err(unterminated_block_error()),
                                    }
                                },
                                Err(e) => Err(e),
                            }
                        },
                        Err(e) => Err(e),
                    }
                },
                None => {
                    match lang.lookup_tag(&w) {
                        Some(kind) => {
                            match parse_tag(kind, inner, we) {
                                Ok(node) => {
                                    match build(lang, segs, i + 1, fuel - 1) {
                                        Ok((mut nodes, stop, next)) => {
                                            let ghost restm = node_models(nodes@);
                                            proof {
                                                lemma_node_models(nodes@);
                                            }
                                            let mut out: Vec<Node> = Vec::new();
                                            out.push(node);
                                            out.append(&mut nodes);
                                            proof {
                                                lemma_node_models(out@);
                                                assert(node_models(out@) =~= seq![
                                                    node_model(out@[0]),
                                                ] + restm);
                                            }
                                            Ok((out, stop, next))
                                        },
                                        Err(e) => Err(e),
                                    }
                                },
                                Err(e) => Err(e),
                            }
                        },
                        None => Err(unknown_tag_error(w, lang)),
                    }
                },
            }
        },
    }
}

/// Builds one `if` chain: the condition, the branch, and — through `else`
/// and `elsif` — the rest up to `endif`.
fn if_chain(lang: &Language, cond_src: &Vec<u8>, segs: &Vec<Segment>, i: usize, fuel: usize) -> (r:
    Result<(Node, usize), Error>)
    requires
        i <= segs@.len(),
    ensures
        match if_chain_m(*lang, cond_src@, seg_models(segs@), i as int, fuel as nat) {
            Ok(t) => r matches Ok(v) && node_model(v.0) == t.0 && v.1 as int == t.1 && v.1
                <= segs@.len(),
            Err(k) => r matches Err(e) && perr_matches(e.m(), k),
        },
    decreases fuel,
{
    if fuel == 0 {
        return Err(depth_error());
    }
    match crate::expr::parse_cond_full(cond_src, 0) {
        Ok(cond) => {
            match build(lang, segs, i, fuel - 1) {
                Ok((then_nodes, stop, j)) => {
                    match stop {
                        Stop::EndIf => Ok(
                            (
                                Node::If {
                                    cond,
                                    then_branch: then_nodes,
                                    else_branch: Vec::new(),
                                },
                                j,
                            ),
                        ),
                        Stop::Else => {
                            match build(lang, segs, j, fuel - 1) {
                                Ok((else_nodes, stop2, k)) => {
                                    match stop2 {
                                        Stop::EndIf => Ok(
                                            (
                                                Node::If {
                                                    cond,
                                                    then_branch: then_nodes,
                                                    else_branch: else_nodes,
                                                },
                                                k,
                                            ),
                                        ),
                                        _ => Err(unterminated_block_error()),
                                    }
                                },
                                Err(e) => Err(e),
                            }
                        },
                        Stop::Elsif(rest) => {
                            match if_chain(lang, &rest, segs, j, fuel - 1) {
                                Ok((nested, k)) => {
                                    let mut else_nodes: Vec<Node> = Vec::new();
                                    else_nodes.push(nested);
                                    proof {
                                        lemma_node_models(else_nodes@);
                                        assert(node_models(else_nodes@) =~= seq![
                                            node_model(else_nodes@[0]),
                                        ]);
                                    }
                                    Ok(
                                        (
                                            Node::If {
                                                cond,
                                                then_branch: then_nodes,
                                                else_branch: else_nodes,
                                            },
                                            k,
                                        ),
                                    )
                                },
                                Err(e) => Err(e),
                            }
                        },
                        _ => Err(unterminated_block_error()),
                    }
                },
                Err(e) => Err(e),
            }
        },
        Err(e) => Err(e),
    }
}

/// The builder's step budget for `n` segments.
pub open spec fn build_budget(n: int) -> nat {
    if n >= 1000000000 {
        usize::MAX as nat
    } else {
        (3 * n + 3) as nat
    }
}

/// Computes the builder's step budget.
fn build_budget_of(n: usize) -> (r: usize)
    ensures
        r as nat == build_budget(n as int),
{
    if n >= 1000000000 {
        usize::MAX
    } else {
        3 * n + 3
    }
}

/// What a whole source parses to: its segments built into nodes, with a
/// stray closer word reported as an unknown tag.
pub open spec fn parse_m(lang: Language, src: Seq<u8>) -> Result<Seq<NodeM>, PErrM> {
    match scan_m(src, 0, crate::expr::budget(src.len() as int)) {
        Ok(segs) => match build_m(lang, segs, 0, build_budget(segs.len() as int)) {
            Ok(t) => match t.1 {
                StopM::EndOfInputM => Ok(t.0),
                StopM::EndIfM => Err(PErrM::UnknownTag(endif_word())),
                StopM::ElseM => Err(PErrM::UnknownTag(else_word())),
                StopM::ElsifM(_) => Err(PErrM::UnknownTag(elsif_word())),
                StopM::EndForM => Err(PErrM::UnknownTag(endfor_word())),
            },
            Err(e) => Err(e),
        },
        Err(e) => Err(e),
    }
}

/// An immutable parser around a language registry.
#[derive(Debug)]
pub struct Parser {
    /// The tag and block tables consulted at parse time.
    pub language: Language,
}

impl Parser {
    /// Creates a parser over a registry.
    pub fn new(language: Language) -> (r: Parser)
        ensures
            r.language == language,
    {
        Parser { language }
    }

    /// Parses a source into an immutable template.
    pub fn parse(&self, src: &Vec<u8>) -> (r: Result<Template, Error>)
        ensures
            match parse_m(self.language, src@) {
                Ok(nm) => r matches Ok(t) && node_models(t.nodes@) == nm,
                Err(k) => r matches Err(e) && perr_matches(e.m(), k),
            },
    {
        let fuel = crate::expr::budget_of(src.len());
        match scan(src, 0, fuel) {
            Ok(segs) => {
                let bf = build_budget_of(segs.len());
                match build(&self.language, &segs, 0, bf) {
                    Ok((nodes, stop, _next)) => {
                        match stop {
                            Stop::EndOfInput => Ok(Template { nodes }),
                            Stop::EndIf => {
                                let w = vec![101u8, 110u8, 100u8, 105u8, 102u8];
                                assert(w@ =~= endif_word());
                                Err(unknown_tag_error(w, &self.language))
                            },
                            Stop::Else => {
                                let w = vec![101u8, 108u8, 115u8, 101u8];
                                assert(w@ =~= else_word());
                                Err(unknown_tag_error(w, &self.language))
                            },
                            Stop::Elsif(_) => {
                                let w = vec![101u8, 108u8, 115u8, 105u8, 102u8];
                                assert(w@ =~= elsif_word());
                                Err(unknown_tag_error(w, &self.language))
                            },
                            Stop::EndFor => {
                                let w = vec![101u8, 110u8, 100u8, 102u8, 111u8, 114u8];
                                assert(w@ =~= endfor_word());
                                Err(unknown_tag_error(w, &self.language))
                            },
                        }
                    },
                    Err(e) => Err(e),
                }
            },
            Err(e) => Err(e),
        }
    }
}

} // verus!
