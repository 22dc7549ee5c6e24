//! Laws of the stage-chain engine, stated and proved over the models
//! that the executable functions' contracts use.

use vstd::prelude::*;
use crate::dom;
use crate::pattern::css_matches;
use crate::recorder::{OptsView, RecView, conclude_bytes, fresh_rec, lemma_record_all_keeps,
    lemma_record_all_stops, prefix_bytes, record_all, record_step};
use crate::stage::StageView;
use crate::engine::{leaf_from_matches, leaf_from_patterns, leaf_seq, source_output};
use crate::text::{contains_sub, dec_bytes};

verus! {

/// An element occurs in a concatenation exactly when it occurs in one
/// of the parts.
proof fn lemma_concat_contains<T>(a: Seq<T>, b: Seq<T>, x: T)
    ensures
        (a + b).contains(x) <==> a.contains(x) || b.contains(x),
{
    if a.contains(x) {
        let i = choose|i: int| 0 <= i < a.len() && a[i] == x;
        assert((a + b)[i] == x);
    }
    if b.contains(x) {
        let i = choose|i: int| 0 <= i < b.len() && b[i] == x;
        assert((a + b)[a.len() + i] == x);
    }
    if (a + b).contains(x) {
        let i = choose|i: int| 0 <= i < (a + b).len() && (a + b)[i] == x;
        if i < a.len() {
            assert(a[i] == x);
        } else {
            assert(b[i - a.len()] == x);
        }
    }
}

proof fn lemma_tail_single_pattern(
    dom: Seq<u8>,
    el: int,
    stages: Seq<StageView>,
    i: int,
    ms: Seq<int>,
    mi: int,
)
    requires
        0 <= i,
        stages.len() == i + 1,
        stages[i].patterns.len() == 1,
        stages[i].direction is Current,
        0 <= mi <= ms.len(),
    ensures
        leaf_from_matches(dom, el, stages, i, ms, mi) == ms.skip(mi),
    decreases ms.len() - mi,
{
    if mi == ms.len() {
        assert(leaf_from_matches(dom, el, stages, i, ms, mi) =~= ms.skip(mi));
    } else {
        lemma_tail_single_pattern(dom, el, stages, i, ms, mi + 1);
        assert(leaf_seq(dom, ms[mi], stages, i + 1) == seq![ms[mi]]);
        assert(seq![ms[mi]] + ms.skip(mi + 1) =~= ms.skip(mi));
    }
}

/// A stage that is the last of the pipeline, has exactly one
/// structural pattern and the `Current` direction yields exactly that
/// pattern's structural matches, in document order.
pub proof fn lemma_single_pattern_stage(dom: Seq<u8>, el: int, stages: Seq<StageView>, i: int)
    requires
        0 <= i,
        stages.len() == i + 1,
        stages[i].patterns.len() == 1,
        stages[i].direction is Current,
    ensures
        leaf_seq(dom, el, stages, i) == css_matches(dom, el, stages[i].patterns[0]),
{
    let ms = css_matches(dom, el, stages[i].patterns[0]);
    lemma_tail_single_pattern(dom, el, stages, i, ms, 0);
    reveal_with_fuel(leaf_from_patterns, 2);
    assert(leaf_seq(dom, el, stages, i) == leaf_from_patterns(dom, el, stages, i, 0));
    assert(leaf_from_patterns(dom, el, stages, i, 0) == leaf_from_matches(dom, el, stages, i, ms, 0)
        + leaf_from_patterns(dom, el, stages, i, 1));
    assert(leaf_from_patterns(dom, el, stages, i, 1) =~= Seq::<int>::empty());
    assert(ms.skip(0) =~= ms);
    assert(leaf_from_matches(dom, el, stages, i, ms, 0) + leaf_from_patterns(
        dom,
        el,
        stages,
        i,
        1,
    ) =~= ms);
}

/// The records of the default (serialize) output mode: each leaf
/// match's outer markup, one per terminator-delimited record.
pub open spec fn serialize_records(dom: Seq<u8>, leaves: Seq<int>, nl: u8) -> Seq<u8>
    decreases leaves.len(),
{
    if leaves.len() == 0 {
        Seq::empty()
    } else {
        dom::outer_markup(dom, leaves[0]) + seq![nl] + serialize_records(
            dom,
            leaves.drop_first(),
            nl,
        )
    }
}

/// Whether the options select the default (serialize) output mode with
/// no prefix and no trimming.
pub open spec fn plain_serialize_mode(opts: OptsView) -> bool {
    &&& !opts.count
    &&& !opts.quiet
    &&& !opts.list
    &&& opts.attributes.len() == 0
    &&& !opts.text
    &&& !opts.trim
    &&& !opts.prefix
}

proof fn lemma_serialize_fold(st: RecView, dom: Seq<u8>, leaves: Seq<int>)
    requires
        plain_serialize_mode(st.opts),
    ensures
        record_all(st, dom, leaves).out == st.out + serialize_records(dom, leaves, st.opts.nl),
        record_all(st, dom, leaves).opts == st.opts,
    decreases leaves.len(),
{
    if leaves.len() == 0 {
        assert(st.out + serialize_records(dom, leaves, st.opts.nl) =~= st.out);
    } else {
        let st1 = record_step(st, dom, leaves[0]);
        assert(prefix_bytes(st.opts, st.path) =~= Seq::<u8>::empty());
        assert(st1.out =~= st.out + (dom::outer_markup(dom, leaves[0]) + seq![st.opts.nl]));
        lemma_serialize_fold(st1, dom, leaves.drop_first());
        assert((st.out + (dom::outer_markup(dom, leaves[0]) + seq![st.opts.nl]))
            + serialize_records(dom, leaves.drop_first(), st.opts.nl) =~= st.out
            + serialize_records(dom, leaves, st.opts.nl));
    }
}

/// For a single-stage pipeline with one structural pattern, the
/// `Current` direction and default (serialize) output, the whole
/// output of a source equals the document-order list of the matched
/// elements' outer markup, one element per terminator-delimited
/// record.
pub proof fn lemma_single_stage_serialize_output(
    dom: Seq<u8>,
    stages: Seq<StageView>,
    opts: OptsView,
    path: Seq<u8>,
)
    requires
        stages.len() == 1,
        stages[0].patterns.len() == 1,
        stages[0].direction is Current,
        plain_serialize_mode(opts),
    ensures
        source_output(dom, stages, opts, path) == serialize_records(
            dom,
            css_matches(dom, dom::root_of(dom), stages[0].patterns[0]),
            opts.nl,
        ),
{
    let root = dom::root_of(dom);
    let ms = css_matches(dom, root, stages[0].patterns[0]);
    lemma_single_pattern_stage(dom, root, stages, 0);
    let st = fresh_rec(opts, path);
    lemma_serialize_fold(st, dom, ms);
    assert(Seq::<u8>::empty() + serialize_records(dom, ms, opts.nl) =~= serialize_records(
        dom,
        ms,
        opts.nl,
    ));
}

/// In count mode the recorder emits nothing per match and its final
/// number equals the number of leaf matches consumed — the number of
/// records that the default (serialize) mode would have emitted for
/// the same matches, one record per leaf.
pub proof fn lemma_count_equals_matches(st: RecView, dom: Seq<u8>, leaves: Seq<int>)
    requires
        st.opts.count,
        st.count + leaves.len() <= u64::MAX,
        st.count >= 0,
    ensures
        record_all(st, dom, leaves).count == st.count + leaves.len(),
        record_all(st, dom, leaves).out == st.out,
    decreases leaves.len(),
{
    if leaves.len() > 0 {
        lemma_count_equals_matches(record_step(st, dom, leaves[0]), dom, leaves.drop_first());
    }
}

/// In count mode a source's whole output is the count line alone —
/// the number of leaf matches of the pipeline, prefixed and
/// terminated like any record — when there was a match, and nothing
/// at all otherwise (stated for counts the counter can hold).
pub proof fn lemma_count_mode_output(
    dom: Seq<u8>,
    stages: Seq<StageView>,
    opts: OptsView,
    path: Seq<u8>,
)
    requires
        opts.count,
    ensures
        leaf_seq(dom, dom::root_of(dom), stages, 0).len() <= u64::MAX ==> source_output(
            dom,
            stages,
            opts,
            path,
        ) == if leaf_seq(dom, dom::root_of(dom), stages, 0).len() > 0 {
            prefix_bytes(opts, path) + dec_bytes(
                leaf_seq(dom, dom::root_of(dom), stages, 0).len() as int,
            ) + seq![opts.nl]
        } else {
            Seq::<u8>::empty()
        },
{
    let st = fresh_rec(opts, path);
    let leaves = leaf_seq(dom, dom::root_of(dom), stages, 0);
    if leaves.len() <= u64::MAX {
        lemma_count_equals_matches(st, dom, leaves);
        lemma_record_all_keeps(st, dom, leaves);
        let done = record_all(st, dom, leaves);
        if leaves.len() > 0 {
            assert(conclude_bytes(done) =~= prefix_bytes(opts, path) + dec_bytes(
                leaves.len() as int,
            ) + seq![opts.nl]);
        }
    }
}

/// In quiet (non-count) mode a source produces no output at all,
/// whatever the pipeline and the document; the first match instead
/// signals the caller to stop the whole run.
pub proof fn lemma_quiet_mode_silent(
    dom: Seq<u8>,
    stages: Seq<StageView>,
    opts: OptsView,
    path: Seq<u8>,
)
    requires
        opts.quiet,
        !opts.count,
    ensures
        source_output(dom, stages, opts, path) == Seq::<u8>::empty(),
{
    let st = fresh_rec(opts, path);
    let leaves = leaf_seq(dom, dom::root_of(dom), stages, 0);
    lemma_record_all_stops(st, dom, leaves);
    assert(conclude_bytes(st) == st.out);
}

proof fn lemma_existence_tail(
    dom: Seq<u8>,
    a: int,
    stages: Seq<StageView>,
    ms: Seq<int>,
    mi: int,
)
    requires
        stages.len() == 2,
        stages[1].patterns.len() == 1,
        stages[1].direction is Document,
        0 <= mi <= ms.len(),
    ensures
        leaf_from_matches(dom, a, stages, 1, ms, mi).len() == ms.len() - mi,
        forall|x: int| leaf_from_matches(dom, a, stages, 1, ms, mi).contains(x) ==> x == a,
        mi < ms.len() ==> leaf_from_matches(dom, a, stages, 1, ms, mi).contains(a),
    decreases ms.len() - mi,
{
    let cur = leaf_from_matches(dom, a, stages, 1, ms, mi);
    if mi < ms.len() {
        lemma_existence_tail(dom, a, stages, ms, mi + 1);
        assert(leaf_seq(dom, a, stages, 2) == seq![a]);
        assert(cur == seq![a] + leaf_from_matches(dom, a, stages, 1, ms, mi + 1));
        assert(cur[0] == a);
        assert forall|x: int| cur.contains(x) implies x == a by {
            lemma_concat_contains(
                seq![a],
                leaf_from_matches(dom, a, stages, 1, ms, mi + 1),
                x,
            );
            if seq![a].contains(x) {
                assert(x == a);
            }
        }
    }
}

/// The leaf matches that one `A`-match `a` contributes through a
/// second, `Document`-direction stage `B`: the element `a` itself,
/// once per `B`-match within it (and so at least once exactly when the
/// subtree of `a` matches `B` at all).
pub proof fn lemma_existence_stage(dom: Seq<u8>, a: int, stages: Seq<StageView>)
    requires
        stages.len() == 2,
        stages[1].patterns.len() == 1,
        stages[1].direction is Document,
    ensures
        leaf_seq(dom, a, stages, 1).len() == css_matches(dom, a, stages[1].patterns[0]).len(),
        forall|x: int| leaf_seq(dom, a, stages, 1).contains(x) ==> x == a,
        css_matches(dom, a, stages[1].patterns[0]).len() > 0 ==> leaf_seq(
            dom,
            a,
            stages,
            1,
        ).contains(a),
{
    let ms = css_matches(dom, a, stages[1].patterns[0]);
    lemma_existence_tail(dom, a, stages, ms, 0);
    reveal_with_fuel(leaf_from_patterns, 2);
    assert(leaf_seq(dom, a, stages, 1) == leaf_from_patterns(dom, a, stages, 1, 0));
    assert(leaf_from_patterns(dom, a, stages, 1, 0) == leaf_from_matches(dom, a, stages, 1, ms, 0)
        + leaf_from_patterns(dom, a, stages, 1, 1));
    assert(leaf_from_patterns(dom, a, stages, 1, 1) =~= Seq::<int>::empty());
    assert(leaf_from_matches(dom, a, stages, 1, ms, 0) + leaf_from_patterns(dom, a, stages, 1, 1)
        =~= leaf_from_matches(dom, a, stages, 1, ms, 0));
}

proof fn lemma_p4_tail(dom: Seq<u8>, el: int, stages: Seq<StageView>, ams: Seq<int>, mi: int)
    requires
        stages.len() == 2,
        stages[0].patterns.len() == 1,
        stages[0].direction is Current,
        stages[1].patterns.len() == 1,
        stages[1].direction is Document,
        0 <= mi <= ams.len(),
    ensures
        forall|x: int|
            #[trigger] leaf_from_matches(dom, el, stages, 0, ams, mi).contains(x) <==> exists|j: int|
                mi <= j < ams.len() && ams[j] == x && css_matches(
                    dom,
                    x,
                    stages[1].patterns[0],
                ).len() > 0,
    decreases ams.len() - mi,
{
    let cur = leaf_from_matches(dom, el, stages, 0, ams, mi);
    if mi == ams.len() {
        assert(forall|x: int| !cur.contains(x));
    } else {
        let a = ams[mi];
        let sub = leaf_seq(dom, a, stages, 1);
        let rest = leaf_from_matches(dom, el, stages, 0, ams, mi + 1);
        lemma_existence_stage(dom, a, stages);
        lemma_p4_tail(dom, el, stages, ams, mi + 1);
        assert(cur == sub + rest);
        assert forall|x: int| #[trigger] cur.contains(x) implies exists|j: int|
            mi <= j < ams.len() && ams[j] == x && css_matches(dom, x, stages[1].patterns[0]).len()
                > 0 by {
            lemma_concat_contains(sub, rest, x);
            if sub.contains(x) {
                assert(x == a);
                assert(sub.len() > 0);
                assert(css_matches(dom, a, stages[1].patterns[0]).len() > 0);
                assert(mi <= mi < ams.len() && ams[mi] == x);
            }
        }
        assert forall|x: int|
            (exists|j: int|
                mi <= j < ams.len() && ams[j] == x && css_matches(
                    dom,
                    x,
                    stages[1].patterns[0],
                ).len() > 0) implies #[trigger] cur.contains(x) by {
            let j = choose|j: int|
                mi <= j < ams.len() && ams[j] == x && css_matches(
                    dom,
                    x,
                    stages[1].patterns[0],
                ).len() > 0;
            lemma_concat_contains(sub, rest, x);
            if j == mi {
                assert(sub.contains(a));
            } else {
                assert(rest.contains(x));
            }
        }
    }
}

/// A two-stage pipeline whose second stage has the `Document`
/// direction emits exactly the matches of the first stage's pattern,
/// filtered to those whose own subtree also matches the second
/// stage's pattern at least once: the second stage is an existence
/// test and never substitutes its own matched element.  (An element
/// whose subtree matches several times is emitted once per match.)
pub proof fn lemma_document_stage_is_existence_filter(
    dom: Seq<u8>,
    el: int,
    stages: Seq<StageView>,
)
    requires
        stages.len() == 2,
        stages[0].patterns.len() == 1,
        stages[0].direction is Current,
        stages[1].patterns.len() == 1,
        stages[1].direction is Document,
    ensures
        forall|x: int|
            #[trigger] leaf_seq(dom, el, stages, 0).contains(x) <==> (css_matches(
                dom,
                el,
                stages[0].patterns[0],
            ).contains(x) && css_matches(dom, x, stages[1].patterns[0]).len() > 0),
{
    let ams = css_matches(dom, el, stages[0].patterns[0]);
    lemma_p4_tail(dom, el, stages, ams, 0);
    reveal_with_fuel(leaf_from_patterns, 2);
    assert(leaf_seq(dom, el, stages, 0) == leaf_from_patterns(dom, el, stages, 0, 0));
    assert(leaf_from_patterns(dom, el, stages, 0, 0) == leaf_from_matches(dom, el, stages, 0, ams, 0)
        + leaf_from_patterns(dom, el, stages, 0, 1));
    assert(leaf_from_patterns(dom, el, stages, 0, 1) =~= Seq::<int>::empty());
    assert(leaf_from_matches(dom, el, stages, 0, ams, 0) + leaf_from_patterns(
        dom,
        el,
        stages,
        0,
        1,
    ) =~= leaf_from_matches(dom, el, stages, 0, ams, 0));
    assert(leaf_seq(dom, el, stages, 0) == leaf_from_matches(dom, el, stages, 0, ams, 0));
    assert forall|x: int| #[trigger] leaf_seq(dom, el, stages, 0).contains(x) implies (
    ams.contains(x) && css_matches(dom, x, stages[1].patterns[0]).len() > 0) by {
        let j = choose|j: int|
            0 <= j < ams.len() && ams[j] == x && css_matches(dom, x, stages[1].patterns[0]).len()
                > 0;
        assert(ams[j] == x);
    }
    assert forall|x: int|
        ams.contains(x) && css_matches(dom, x, stages[1].patterns[0]).len()
            > 0 implies #[trigger] leaf_seq(dom, el, stages, 0).contains(x) by {
        let j = choose|j: int| 0 <= j < ams.len() && ams[j] == x;
        assert(0 <= j < ams.len() && ams[j] == x && css_matches(dom, x, stages[1].patterns[0]).len()
            > 0);
    }
}

/// The leaf matches of a chain of two single-pattern `Current` stages,
/// evaluated from the structural matches `ams` of the first pattern
/// from index `mi` on: the concatenation, per first-stage match, of
/// the second pattern's matches within it.
pub open spec fn chained_matches(dom: Seq<u8>, ams: Seq<int>, b: Seq<u8>, mi: int) -> Seq<int>
    decreases ams.len() - mi,
{
    if mi < 0 || mi >= ams.len() {
        Seq::empty()
    } else {
        css_matches(dom, ams[mi], b) + chained_matches(dom, ams, b, mi + 1)
    }
}

proof fn lemma_chain_tail(dom: Seq<u8>, el: int, stages: Seq<StageView>, ams: Seq<int>, mi: int)
    requires
        stages.len() == 2,
        stages[0].patterns.len() == 1,
        stages[0].direction is Current,
        stages[1].patterns.len() == 1,
        stages[1].direction is Current,
        0 <= mi <= ams.len(),
    ensures
        leaf_from_matches(dom, el, stages, 0, ams, mi) == chained_matches(
            dom,
            ams,
            stages[1].patterns[0],
            mi,
        ),
    decreases ams.len() - mi,
{
    if mi < ams.len() {
        lemma_chain_tail(dom, el, stages, ams, mi + 1);
        lemma_single_pattern_stage(dom, ams[mi], stages, 1);
    }
}

/// A two-stage pipeline of single-pattern `Current` stages `A | B`
/// yields, per `A`-match in document order, the `B`-matches within it.
pub proof fn lemma_two_stage_chain(dom: Seq<u8>, el: int, stages: Seq<StageView>)
    requires
        stages.len() == 2,
        stages[0].patterns.len() == 1,
        stages[0].direction is Current,
        stages[1].patterns.len() == 1,
        stages[1].direction is Current,
    ensures
        leaf_seq(dom, el, stages, 0) == chained_matches(
            dom,
            css_matches(dom, el, stages[0].patterns[0]),
            stages[1].patterns[0],
            0,
        ),
{
    let ams = css_matches(dom, el, stages[0].patterns[0]);
    lemma_chain_tail(dom, el, stages, ams, 0);
    reveal_with_fuel(leaf_from_patterns, 2);
    assert(leaf_seq(dom, el, stages, 0) == leaf_from_patterns(dom, el, stages, 0, 0));
    assert(leaf_from_patterns(dom, el, stages, 0, 0) == leaf_from_matches(dom, el, stages, 0, ams, 0)
        + leaf_from_patterns(dom, el, stages, 0, 1));
    assert(leaf_from_patterns(dom, el, stages, 0, 1) =~= Seq::<int>::empty());
    assert(leaf_from_matches(dom, el, stages, 0, ams, 0) + leaf_from_patterns(
        dom,
        el,
        stages,
        0,
        1,
    ) =~= leaf_from_matches(dom, el, stages, 0, ams, 0));
}

/// Whether one structural pattern (a descendant combinator such as
/// `A B`) selects, at `el`, exactly the chained matches of the two
/// patterns it combines.  This is how the structural-matching
/// capability documents the combinator when no filters or direction
/// quirks are involved; whether it holds of given patterns and a given
/// document is the matcher's affair, not the engine's.
pub open spec fn combinator_selects_chain(
    dom: Seq<u8>,
    el: int,
    a: Seq<u8>,
    b: Seq<u8>,
    comb: Seq<u8>,
) -> bool {
    css_matches(dom, el, comb) == chained_matches(dom, css_matches(dom, el, a), b, 0)
}

/// A two-stage pipeline `A | B` of single-pattern `Current` stages is
/// equivalent, for matching purposes, to a single-stage pipeline whose
/// pattern is the corresponding descendant combinator, whenever the
/// structural matcher's combinator selects the chained matches.
pub proof fn lemma_current_chain_is_descendant(
    dom: Seq<u8>,
    el: int,
    two: Seq<StageView>,
    one: Seq<StageView>,
)
    requires
        two.len() == 2,
        two[0].patterns.len() == 1,
        two[0].direction is Current,
        two[1].patterns.len() == 1,
        two[1].direction is Current,
        one.len() == 1,
        one[0].patterns.len() == 1,
        one[0].direction is Current,
        combinator_selects_chain(
            dom,
            el,
            two[0].patterns[0],
            two[1].patterns[0],
            one[0].patterns[0],
        ),
    ensures
        leaf_seq(dom, el, two, 0) == leaf_seq(dom, el, one, 0),
{
    lemma_two_stage_chain(dom, el, two);
    lemma_single_pattern_stage(dom, el, one, 0);
}

/// A stage with no structural pattern and a single substring filter
/// passes through exactly the elements whose concatenated text
/// contains the substring: the element itself is the single leaf match
/// when its text contains the filter, and there is no match otherwise.
pub proof fn lemma_substring_stage_passes_through(
    dom: Seq<u8>,
    el: int,
    stages: Seq<StageView>,
)
    requires
        stages.len() == 1,
        stages[0].patterns.len() == 0,
        stages[0].regexes.len() == 0,
        stages[0].substrings.len() == 1,
    ensures
        leaf_seq(dom, el, stages, 0) == if contains_sub(
            dom::text_content(dom, el),
            stages[0].substrings[0],
        ) {
            seq![el]
        } else {
            Seq::<int>::empty()
        },
{
    let text = dom::text_content(dom, el);
    reveal_with_fuel(leaf_seq, 2);
    assert(leaf_seq(dom, el, stages, 1) == seq![el]);
    if contains_sub(text, stages[0].substrings[0]) {
        assert(crate::stage::filter_passes(dom, el, stages[0]));
    } else {
        assert forall|k: int| !(0 <= k < stages[0].substrings.len() && contains_sub(
            text,
            stages[0].substrings[k],
        )) by {}
        assert(!crate::stage::filter_passes(dom, el, stages[0]));
    }
}

} // verus!
