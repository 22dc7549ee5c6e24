//! The stage evaluator: a depth-first, document-order, non-memoized
//! walk that applies the pipeline's stages in turn and hands every
//! element satisfying all of them to the recorder.

use vstd::prelude::*;
use crate::dom;
use crate::pattern::css_matches;
use crate::recorder::{
    MatchRecorder, Opts, OptsView, conclude_bytes, fresh_rec, lemma_record_all_append,
    lemma_record_all_keeps, lemma_record_all_stops, record_all, record_step, record_stops,
};
use crate::stage::{Direction, Stage, StageView, filter_passes, fragment_matches_search,
    pipeline_view};

verus! {

/// The leaf matches produced by evaluating stages `i..` of the
/// pipeline at element `el`, in the order they are recorded: at the end
/// of the pipeline the element itself is a leaf match; a stage without
/// structural patterns passes the element through when its filter
/// accepts the element's text; a stage with patterns descends into the
/// matched child (`Current`) or keeps the element as an existence test
/// (`Document`), once per structural match, patterns unioned in
/// declaration order without deduplication.
pub open spec fn leaf_seq(dom: Seq<u8>, el: int, stages: Seq<StageView>, i: int) -> Seq<int>
    decreases stages.len() - i, 2int, 0int,
{
    if i >= stages.len() {
        seq![el]
    } else if stages[i].patterns.len() == 0 {
        if filter_passes(dom, el, stages[i]) {
            leaf_seq(dom, el, stages, i + 1)
        } else {
            Seq::empty()
        }
    } else {
        leaf_from_patterns(dom, el, stages, i, 0)
    }
}

/// The leaf matches contributed by the structural patterns of stage
/// `i` from pattern index `pi` on.
pub open spec fn leaf_from_patterns(
    dom: Seq<u8>,
    el: int,
    stages: Seq<StageView>,
    i: int,
    pi: int,
) -> Seq<int>
    decreases stages.len() - i, 1int, stages[i].patterns.len() - pi,
{
    if i >= stages.len() || pi >= stages[i].patterns.len() {
        Seq::empty()
    } else {
        leaf_from_matches(dom, el, stages, i, css_matches(dom, el, stages[i].patterns[pi]), 0)
            + leaf_from_patterns(dom, el, stages, i, pi + 1)
    }
}

/// The leaf matches contributed by the structural matches `ms` of one
/// pattern of stage `i`, from match index `mi` on.
pub open spec fn leaf_from_matches(
    dom: Seq<u8>,
    el: int,
    stages: Seq<StageView>,
    i: int,
    ms: Seq<int>,
    mi: int,
) -> Seq<int>
    decreases stages.len() - i, 0int, ms.len() - mi,
{
    if i >= stages.len() || mi >= ms.len() {
        Seq::empty()
    } else {
        let next = if stages[i].direction is Current {
            ms[mi]
        } else {
            el
        };
        leaf_seq(dom, next, stages, i + 1) + leaf_from_matches(dom, el, stages, i, ms, mi + 1)
    }
}

/// Applies stages `set_i..` of the pipeline at element `el`, handing
/// every leaf match to the recorder; returns whether the whole run
/// must stop now (quiet mode, first match).
pub fn process_fragment(
    doc: &scraper::Html,
    el: usize,
    stages: &Vec<Stage>,
    set_i: usize,
    recorder: &mut MatchRecorder,
) -> (stop: bool)
    requires
        set_i <= stages@.len(),
    ensures
        final(recorder)@ == record_all(
            old(recorder)@,
            dom::dom_of(*doc),
            leaf_seq(dom::dom_of(*doc), el as int, pipeline_view(stages@), set_i as int),
        ),
        stop == (record_stops(old(recorder)@.opts) && leaf_seq(
            dom::dom_of(*doc),
            el as int,
            pipeline_view(stages@),
            set_i as int,
        ).len() > 0),
    decreases stages@.len() - set_i,
{
    let ghost dom = dom::dom_of(*doc);
    let ghost sv = pipeline_view(stages@);
    let ghost total = leaf_seq(dom, el as int, sv, set_i as int);
    let ghost rec0 = recorder@;
    if set_i == stages.len() {
        let stop = recorder.record(doc, el);
        proof {
            reveal_with_fuel(record_all, 2);
            assert(total == seq![el as int]);
            assert(total.drop_first() =~= Seq::<int>::empty());
            assert(record_all(rec0, dom, total) == record_step(rec0, dom, el as int));
        }
        return stop;
    }
    let stage = &stages[set_i];
    let ghost stv = sv[set_i as int];
    proof {
        assert(stv == stage@);
    }
    if stage.patterns.len() == 0 {
        if fragment_matches_search(doc, el, stage) {
            let stop = process_fragment(doc, el, stages, set_i + 1, recorder);
            proof {
                assert(total == leaf_seq(dom, el as int, sv, set_i + 1));
            }
            return stop;
        }
        proof {
            assert(total =~= Seq::<int>::empty());
        }
        return false;
    }
    let ghost mut done: Seq<int> = Seq::empty();
    proof {
        assert(total == leaf_from_patterns(dom, el as int, sv, set_i as int, 0));
        assert(done + leaf_from_patterns(dom, el as int, sv, set_i as int, 0) =~= total);
    }
    let mut pi: usize = 0;
    while pi < stage.patterns.len()
        invariant
            set_i < stages@.len(),
            stages@.len() <= usize::MAX,
            pi <= stage.patterns@.len(),
            *stage == stages@[set_i as int],
            stv == sv[set_i as int],
            sv == pipeline_view(stages@),
            dom == dom::dom_of(*doc),
            total == leaf_seq(dom, el as int, sv, set_i as int),
            total == done + leaf_from_patterns(dom, el as int, sv, set_i as int, pi as int),
            recorder@ == record_all(rec0, dom, done),
            rec0 == old(recorder)@,
            record_stops(rec0.opts) ==> done.len() == 0,
        decreases stage.patterns@.len() - pi,
    {
        let pat = &stage.patterns[pi];
        let ms = pat.select_within(doc, el);
        let ghost msv = css_matches(dom, el as int, stv.patterns[pi as int]);
        proof {
            assert(pat@ == stv.patterns[pi as int]);
            assert(leaf_from_patterns(dom, el as int, sv, set_i as int, pi as int)
                == leaf_from_matches(dom, el as int, sv, set_i as int, msv, 0)
                + leaf_from_patterns(dom, el as int, sv, set_i as int, pi + 1));
        }
        let ghost mut done_in: Seq<int> = Seq::empty();
        proof {
            assert(done_in + leaf_from_matches(dom, el as int, sv, set_i as int, msv, 0)
                =~= leaf_from_matches(dom, el as int, sv, set_i as int, msv, 0));
        }
        let mut mi: usize = 0;
        while mi < ms.len()
            invariant
                set_i < stages@.len(),
                stages@.len() <= usize::MAX,
                *stage == stages@[set_i as int],
                mi <= ms@.len(),
                ms@.len() == msv.len(),
                forall|k: int| 0 <= k < ms@.len() ==> ms@[k] as int == msv[k],
                stv == sv[set_i as int],
                sv == pipeline_view(stages@),
                dom == dom::dom_of(*doc),
                total == leaf_seq(dom, el as int, sv, set_i as int),
                total == done + (leaf_from_matches(dom, el as int, sv, set_i as int, msv, 0)
                    + leaf_from_patterns(dom, el as int, sv, set_i as int, pi + 1)),
                leaf_from_matches(dom, el as int, sv, set_i as int, msv, 0) == done_in
                    + leaf_from_matches(dom, el as int, sv, set_i as int, msv, mi as int),
                recorder@ == record_all(rec0, dom, done + done_in),
                rec0 == old(recorder)@,
                record_stops(rec0.opts) ==> done.len() + done_in.len() == 0,
            decreases ms@.len() - mi,
        {
            let m = ms[mi];
            let next_el = match stage.direction {
                Direction::Current => m,
                Direction::Document => el,
            };
            let ghost sub = leaf_seq(dom, next_el as int, sv, set_i + 1);
            proof {
                assert(next_el as int == if stv.direction is Current {
                    msv[mi as int]
                } else {
                    el as int
                });
                assert(leaf_from_matches(dom, el as int, sv, set_i as int, msv, mi as int) == sub
                    + leaf_from_matches(dom, el as int, sv, set_i as int, msv, mi + 1));
            }
            let ghost rec_pre = recorder@;
            let stop = process_fragment(doc, next_el, stages, set_i + 1, recorder);
            if stop {
                proof {
                    lemma_record_all_keeps(rec0, dom, done + done_in);
                    assert(record_stops(rec0.opts));
                    assert(done.len() + done_in.len() == 0);
                    lemma_record_all_stops(rec_pre, dom, sub);
                    lemma_record_all_stops(rec0, dom, done + done_in);
                    lemma_record_all_stops(rec0, dom, total);
                    assert(sub.len() > 0);
                    assert(total.len() > 0);
                }
                return true;
            }
            proof {
                lemma_record_all_append(rec0, dom, done + done_in, sub);
                assert((done + done_in) + sub =~= done + (done_in + sub));
                assert(done_in + leaf_from_matches(dom, el as int, sv, set_i as int, msv, mi as int)
                    =~= (done_in + sub) + leaf_from_matches(
                    dom,
                    el as int,
                    sv,
                    set_i as int,
                    msv,
                    mi + 1,
                ));
                done_in = done_in + sub;
            }
            mi += 1;
        }
        proof {
            assert(leaf_from_matches(dom, el as int, sv, set_i as int, msv, mi as int)
                =~= Seq::<int>::empty());
            assert(leaf_from_matches(dom, el as int, sv, set_i as int, msv, 0) =~= done_in);
            assert(done + (done_in + leaf_from_patterns(dom, el as int, sv, set_i as int, pi + 1))
                =~= (done + done_in) + leaf_from_patterns(dom, el as int, sv, set_i as int, pi + 1));
            done = done + done_in;
        }
        pi += 1;
    }
    proof {
        assert(leaf_from_patterns(dom, el as int, sv, set_i as int, pi as int)
            =~= Seq::<int>::empty());
        assert(done + leaf_from_patterns(dom, el as int, sv, set_i as int, pi as int) =~= done);
        assert(total == done);
    }
    false
}

/// The whole output of one input source: the records accumulated by
/// the recorder over every leaf match of the pipeline, concluded with
/// the count line in count mode.
pub open spec fn source_output(
    dom: Seq<u8>,
    stages: Seq<StageView>,
    opts: OptsView,
    path: Seq<u8>,
) -> Seq<u8> {
    conclude_bytes(
        record_all(fresh_rec(opts, path), dom, leaf_seq(dom, dom::root_of(dom), stages, 0)),
    )
}

/// Evaluates the pipeline against one source document and returns the
/// formatted output for that source, together with whether the whole
/// run must stop now (quiet mode, first match).
pub fn process_source(contents: &Vec<u8>, stages: &Vec<Stage>, opts: &Opts, path: &Vec<u8>) -> (r:
    (Vec<u8>, bool))
    ensures
        r.0@ == source_output(contents@, pipeline_view(stages@), opts@, path@),
        r.1 == (record_stops(opts@) && leaf_seq(
            contents@,
            dom::root_of(contents@),
            pipeline_view(stages@),
            0,
        ).len() > 0),
{
    let doc = dom::parse_document(contents.as_slice());
    let root = dom::root_element(&doc);
    let mut recorder = MatchRecorder::new(opts, path);
    let stop = process_fragment(&doc, root, stages, 0, &mut recorder);
    let out = recorder.conclude();
    (out, stop)
}

} // verus!
