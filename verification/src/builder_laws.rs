use vstd::prelude::*;

use crate::builder::{initial_builder, lemma_run_split, run, step, stops_at, BuilderView, StateMachine};
use crate::token::SpecToken;

verus! {

/// The tokens of `ts` that are not whitespace, in order.
pub open spec fn without_whitespace(ts: Seq<SpecToken>) -> Seq<SpecToken>
    decreases ts.len(),
{
    if ts.len() == 0 {
        seq![]
    } else if ts[0] is Whitespace {
        without_whitespace(ts.drop_first())
    } else {
        seq![ts[0]] + without_whitespace(ts.drop_first())
    }
}

/// Whitespace tokens make no difference to the parser: reading a stream
/// gives the same builder as reading it with its whitespace tokens removed.
pub proof fn law_whitespace_ignored(b: BuilderView, ts: Seq<SpecToken>)
    ensures
        run(b, ts) == run(b, without_whitespace(ts)),
    decreases ts.len(),
{
    if ts.len() > 0 {
        let rest = ts.drop_first();
        if ts[0] is Whitespace {
            law_whitespace_ignored(b, rest);
        } else {
            let w = without_whitespace(ts);
            assert(w[0] == ts[0]);
            assert(w.drop_first() =~= without_whitespace(rest));
            if let Some(next) = step(b, ts[0]) {
                law_whitespace_ignored(next, rest);
            }
        }
    }
}

/// Reading more tokens never forgets a class: the names of the classes read
/// before are still there afterwards.
pub proof fn law_classes_kept(b: BuilderView, ts: Seq<SpecToken>)
    ensures
        b.classes.dom().subset_of(run(b, ts).classes.dom()),
    decreases ts.len(),
{
    if ts.len() > 0 {
        if let Some(next) = step(b, ts[0]) {
            assert(b.classes.dom().subset_of(next.classes.dom()));
            law_classes_kept(next, ts.drop_first());
        }
    }
}

/// Outside a `message` block the brace depth is zero.
pub open spec fn depth_balanced(b: BuilderView) -> bool {
    b.state != StateMachine::ProtoBuf ==> b.protobuf_depth == 0
}

/// Every builder reached from the initial one has a zero brace depth
/// whenever it is not inside a `message` block.
pub proof fn law_depth_zero_outside_messages(ts: Seq<SpecToken>)
    ensures
        depth_balanced(run(initial_builder(), ts)),
{
    lemma_run_depth_balanced(initial_builder(), ts);
}

proof fn lemma_run_depth_balanced(b: BuilderView, ts: Seq<SpecToken>)
    requires
        depth_balanced(b),
    ensures
        depth_balanced(run(b, ts)),
    decreases ts.len(),
{
    if ts.len() > 0 {
        if let Some(next) = step(b, ts[0]) {
            lemma_run_depth_balanced(next, ts.drop_first());
        }
    }
}

/// An unexpected token ends the reading: when the parser stops at `ts[k]`,
/// reading all of `ts` ends exactly as reading `ts[0..k]`; `ts[k]` and what
/// follows it have no effect, and the state stays the one reached before
/// `ts[k]`.
pub proof fn law_stops_at_unexpected_token(b: BuilderView, ts: Seq<SpecToken>, k: int)
    requires
        stops_at(b, ts, k),
    ensures
        run(b, ts) == run(b, ts.take(k)),
{
    lemma_run_split(b, ts, k);
    assert(ts.skip(k)[0] == ts[k]);
}

} // verus!
