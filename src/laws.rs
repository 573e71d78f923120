use vstd::prelude::*;
use crate::context::Value;
use crate::nodes::Root;
use crate::parser::{
    has_open, next_open, opens_at, parse_outcome, scan, segment_denotes, ScanError, Segment,
    SyntaxError,
};
use crate::render::{child_failure, failure_before, first_failure, output, output_before};

verus! {

proof fn lemma_no_open(t: Seq<char>, i: int)
    requires
        !has_open(t),
        0 <= i,
    ensures
        next_open(t, i) == t.len(),
    decreases t.len() - i,
{
    if i < t.len() {
        assert(!opens_at(t, i));
        lemma_no_open(t, i + 1);
    }
}

/// A template without `{{` is pure text: it parses to a single text span,
/// and rendering that against any context, with any block values, gives
/// the template back unchanged.
pub proof fn law_literal_passthrough(
    t: Seq<char>,
    r: Result<Root, SyntaxError>,
    ctx: Value,
    values: Seq<String>,
)
    requires
        !has_open(t),
        parse_outcome(t, r),
        r is Ok ==> values.len() == r->Ok_0.children.len(),
    ensures
        scan(t, 0) == Ok::<Seq<Segment>, ScanError>(seq![Segment::Lit(0, t.len() as int)]),
        r is Ok,
        first_failure(r->Ok_0.children@, ctx) is None,
        output(r->Ok_0.children@, ctx, values) == t,
{
    lemma_no_open(t, 0);
    let children = r->Ok_0.children@;
    let segs = seq![Segment::Lit(0, t.len() as int)];
    assert(children.len() == 1);
    assert(segment_denotes(t, segs[0], children[0]));
    assert(children[0] is Text);
    assert(failure_before(children, ctx, 0) is None);
    assert(child_failure(children[0], ctx) is None);
    assert(failure_before(children, ctx, 1) is None);
    assert(output_before(children, ctx, values, 0) == Seq::<char>::empty());
    assert(t.subrange(0, t.len() as int) =~= t);
    assert(output(children, ctx, values) =~= t);
}

/// Parsing then rendering is the identity on templates whose parse holds
/// no block: the text spans alone give back the whole template.
pub proof fn law_text_round_trip(t: Seq<char>, root: Root, ctx: Value, values: Seq<String>)
    requires
        parse_outcome(t, Ok(root)),
        forall|i: int| 0 <= i < root.children.len() ==> (#[trigger] root.children@[i]) is Text,
        values.len() == root.children.len(),
    ensures
        first_failure(root.children@, ctx) is None,
        output(root.children@, ctx, values) == t,
{
    let children = root.children@;
    if next_open(t, 0) < t.len() {
        let segs = scan(t, 0)->Ok_0;
        assert(segment_denotes(t, segs[1], children[1]));
        assert(children[1] is Text);
        assert(false);
    }
    let segs = seq![Segment::Lit(0, t.len() as int)];
    assert(children.len() == 1);
    assert(segment_denotes(t, segs[0], children[0]));
    assert(failure_before(children, ctx, 0) is None);
    assert(child_failure(children[0], ctx) is None);
    assert(t.subrange(0, t.len() as int) =~= t);
    assert(output_before(children, ctx, values, 0) == Seq::<char>::empty());
    assert(output(children, ctx, values) =~= t);
}

} // verus!
