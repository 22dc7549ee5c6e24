//! Building the pipeline: compiling each segment's selector and regex
//! sources eagerly into stages, rejecting the run on the first pattern
//! that does not compile, or when no stage at all was configured.

use vstd::prelude::*;
use crate::pattern::{CssPattern, RegexPattern, regex_ok, selector_ok};
use crate::split::copy_bytes;
use crate::stage::{Direction, Stage, StageView, bytes_views, patterns_view,
    pipeline_view, regexes_view};

verus! {

/// The plain inputs of one stage, as they come from one segment of the
/// command line.
pub struct StageSpec {
    /// The segment was introduced by the `!` separator.
    pub bang: bool,
    /// The segment carries the flag that selects the current element
    /// rather than the matched child.
    pub parent: bool,
    /// Structural selector sources, in declaration order.
    pub selectors: Vec<Vec<u8>>,
    /// Substring filters, in declaration order.
    pub substrings: Vec<Vec<u8>>,
    /// Regex filter sources, in declaration order.
    pub regexes: Vec<Vec<u8>>,
}

/// The mathematical model of a [`StageSpec`].
#[verifier::ext_equal]
pub ghost struct StageSpecView {
    pub bang: bool,
    pub parent: bool,
    pub selectors: Seq<Seq<u8>>,
    pub substrings: Seq<Seq<u8>>,
    pub regexes: Seq<Seq<u8>>,
}

impl View for StageSpec {
    type V = StageSpecView;

    open spec fn view(&self) -> StageSpecView {
        StageSpecView {
            bang: self.bang,
            parent: self.parent,
            selectors: bytes_views(self.selectors@),
            substrings: bytes_views(self.substrings@),
            regexes: bytes_views(self.regexes@),
        }
    }
}

/// The models of a list of stage inputs.
pub open spec fn specs_view(specs: Seq<StageSpec>) -> Seq<StageSpecView> {
    specs.map_values(|s: StageSpec| s@)
}

/// Why a pipeline could not be built.
pub enum BuildError {
    /// No stage at all was configured.
    NoStages,
    /// This structural selector source does not compile.
    InvalidSelector(Vec<u8>),
    /// This regex source does not compile.
    InvalidRegex(Vec<u8>),
}

/// The outcome of building a pipeline, as a mathematical value.
#[verifier::ext_equal]
pub ghost enum BuildModel {
    Pipeline(Seq<StageView>),
    NoStages,
    BadSelector(Seq<u8>),
    BadRegex(Seq<u8>),
}

/// The first selector source from index `j` on that does not compile.
pub open spec fn first_bad_selector(sels: Seq<Seq<u8>>, j: int) -> Option<Seq<u8>>
    decreases sels.len() - j,
{
    if j < 0 || j >= sels.len() {
        None
    } else if !selector_ok(sels[j]) {
        Some(sels[j])
    } else {
        first_bad_selector(sels, j + 1)
    }
}

/// The first regex source from index `j` on that does not compile.
pub open spec fn first_bad_regex(res: Seq<Seq<u8>>, j: int) -> Option<Seq<u8>>
    decreases res.len() - j,
{
    if j < 0 || j >= res.len() {
        None
    } else if !regex_ok(res[j]) {
        Some(res[j])
    } else {
        first_bad_regex(res, j + 1)
    }
}

/// The stage a segment describes, once every pattern compiles: the
/// `Document` direction is set by the `!` separator or the parent
/// flag.
pub open spec fn stage_model(s: StageSpecView) -> StageView {
    StageView {
        direction: if s.bang || s.parent {
            Direction::Document
        } else {
            Direction::Current
        },
        patterns: s.selectors,
        substrings: s.substrings,
        regexes: s.regexes,
    }
}

/// The outcome of building one stage: its selectors are compiled
/// first, then its regexes, and the first source that fails to compile
/// is reported.
pub open spec fn stage_outcome(s: StageSpecView) -> BuildModel {
    if first_bad_selector(s.selectors, 0) is Some {
        BuildModel::BadSelector(first_bad_selector(s.selectors, 0).unwrap())
    } else if first_bad_regex(s.regexes, 0) is Some {
        BuildModel::BadRegex(first_bad_regex(s.regexes, 0).unwrap())
    } else {
        BuildModel::Pipeline(seq![stage_model(s)])
    }
}

/// The outcome of building the stages from index `k` on, stopping at
/// the first stage whose patterns do not compile.
pub open spec fn build_model_from(specs: Seq<StageSpecView>, k: int) -> BuildModel
    decreases specs.len() - k,
{
    if k < 0 || k >= specs.len() {
        BuildModel::Pipeline(Seq::empty())
    } else {
        match stage_outcome(specs[k]) {
            BuildModel::Pipeline(one) => match build_model_from(specs, k + 1) {
                BuildModel::Pipeline(rest) => BuildModel::Pipeline(one + rest),
                e => e,
            },
            e => e,
        }
    }
}

/// The outcome of building the whole pipeline: an empty list of
/// segments is rejected outright.
pub open spec fn build_model(specs: Seq<StageSpecView>) -> BuildModel {
    if specs.len() == 0 {
        BuildModel::NoStages
    } else {
        build_model_from(specs, 0)
    }
}

/// The model of an exec build result.
pub open spec fn build_result_model(r: Result<Vec<Stage>, BuildError>) -> BuildModel {
    match r {
        Ok(stages) => BuildModel::Pipeline(pipeline_view(stages@)),
        Err(BuildError::NoStages) => BuildModel::NoStages,
        Err(BuildError::InvalidSelector(s)) => BuildModel::BadSelector(s@),
        Err(BuildError::InvalidRegex(s)) => BuildModel::BadRegex(s@),
    }
}

fn build_stage(spec: StageSpec) -> (r: Result<Stage, BuildError>)
    ensures
        match r {
            Ok(stage) => stage_outcome(spec@) == BuildModel::Pipeline(seq![stage@]) && stage@
                == stage_model(spec@),
            Err(e) => stage_outcome(spec@) == build_result_model(Err(e)) && !(e is NoStages),
        },
{
    let ghost sv = spec@;
    let mut patterns: Vec<CssPattern> = Vec::new();
    let mut j: usize = 0;
    while j < spec.selectors.len()
        invariant
            j <= spec.selectors@.len(),
            spec@ == sv,
            sv.selectors.len() == spec.selectors@.len(),
            first_bad_selector(sv.selectors, 0) == first_bad_selector(sv.selectors, j as int),
            patterns_view(patterns@) == sv.selectors.subrange(0, j as int),
        decreases spec.selectors@.len() - j,
    {
        match CssPattern::parse(spec.selectors[j].as_slice()) {
            Some(p) => {
                proof {
                    assert(p@ == sv.selectors[j as int]);
                }
                let ghost prev = patterns@;
                patterns.push(p);
                proof {
                    let ghost mapped = patterns_view(patterns@);
                    let ghost mprev = patterns_view(prev);
                    assert(patterns@ == prev.push(p));
                    assert(mprev == sv.selectors.subrange(0, j as int));
                    assert(mprev.len() == j);
                    assert(prev.len() == j);
                    assert(mapped.len() == j + 1);
                    assert(mapped[j as int] == p@);
                    assert(sv.selectors.subrange(0, j + 1)[j as int] == sv.selectors[j as int]);
                    assert forall|x: int| 0 <= x < j implies mapped[x] == mprev[x] by {
                        assert(patterns@[x] == prev[x]);
                    }
                    assert(mapped =~= sv.selectors.subrange(0, j + 1));
                }
            },
            None => {
                proof {
                    assert(first_bad_selector(sv.selectors, j as int) == Some(
                        sv.selectors[j as int],
                    ));
                }
                let bad = copy_bytes(&spec.selectors[j]);
                proof {
                    assert(bad@ == sv.selectors[j as int]);
                    assert(stage_outcome(sv) == BuildModel::BadSelector(bad@));
                    assert(build_result_model(Result::<Vec<Stage>, BuildError>::Err(
                        BuildError::InvalidSelector(bad),
                    )) == BuildModel::BadSelector(bad@));
                }
                return Err(BuildError::InvalidSelector(bad));
            },
        }
        j += 1;
    }
    proof {
        assert(first_bad_selector(sv.selectors, 0) is None);
        assert(sv.selectors.subrange(0, sv.selectors.len() as int) =~= sv.selectors);
    }
    let mut regexes: Vec<RegexPattern> = Vec::new();
    let mut j: usize = 0;
    while j < spec.regexes.len()
        invariant
            j <= spec.regexes@.len(),
            spec@ == sv,
            sv.regexes.len() == spec.regexes@.len(),
            first_bad_selector(sv.selectors, 0) is None,
            first_bad_regex(sv.regexes, 0) == first_bad_regex(sv.regexes, j as int),
            regexes_view(regexes@) == sv.regexes.subrange(0, j as int),
        decreases spec.regexes@.len() - j,
    {
        match RegexPattern::parse(spec.regexes[j].as_slice()) {
            Some(p) => {
                proof {
                    assert(p@ == sv.regexes[j as int]);
                }
                let ghost prev = regexes@;
                regexes.push(p);
                proof {
                    let ghost mapped = regexes_view(regexes@);
                    let ghost mprev = regexes_view(prev);
                    assert(regexes@ == prev.push(p));
                    assert(mprev == sv.regexes.subrange(0, j as int));
                    assert(mprev.len() == j);
                    assert(prev.len() == j);
                    assert(mapped.len() == j + 1);
                    assert(mapped[j as int] == p@);
                    assert(sv.regexes.subrange(0, j + 1)[j as int] == sv.regexes[j as int]);
                    assert forall|x: int| 0 <= x < j implies mapped[x] == mprev[x] by {
                        assert(regexes@[x] == prev[x]);
                    }
                    assert(mapped =~= sv.regexes.subrange(0, j + 1));
                }
            },
            None => {
                proof {
                    assert(first_bad_regex(sv.regexes, j as int) == Some(sv.regexes[j as int]));
                }
                let bad = copy_bytes(&spec.regexes[j]);
                proof {
                    assert(bad@ == sv.regexes[j as int]);
                    assert(stage_outcome(sv) == BuildModel::BadRegex(bad@));
                    assert(build_result_model(Result::<Vec<Stage>, BuildError>::Err(
                        BuildError::InvalidRegex(bad),
                    )) == BuildModel::BadRegex(bad@));
                }
                return Err(BuildError::InvalidRegex(bad));
            },
        }
        j += 1;
    }
    proof {
        assert(first_bad_regex(sv.regexes, 0) is None);
        assert(sv.regexes.subrange(0, sv.regexes.len() as int) =~= sv.regexes);
    }
    let direction = if spec.bang || spec.parent {
        Direction::Document
    } else {
        Direction::Current
    };
    let stage = Stage {
        direction: direction,
        patterns: patterns,
        substrings: spec.substrings,
        regexes: regexes,
    };
    proof {
        assert(stage@ =~~= stage_model(sv));
    }
    Ok(stage)
}

/// Builds the pipeline from the per-segment inputs, compiling every
/// selector and regex source eagerly: the first source that does not
/// compile is reported as the error, selectors before regexes within a
/// segment; an empty segment list is rejected as having no stage.
pub fn build_pipeline(specs: Vec<StageSpec>) -> (r: Result<Vec<Stage>, BuildError>)
    ensures
        build_result_model(r) == build_model(specs_view(specs@)),
{
    let ghost allv = specs_view(specs@);
    if specs.len() == 0 {
        return Err(BuildError::NoStages);
    }
    let mut rest = specs;
    let mut stages: Vec<Stage> = Vec::new();
    let ghost mut k: int = 0;
    while rest.len() > 0
        invariant
            allv == specs_view(specs@),
            allv.len() > 0,
            0 <= k <= allv.len(),
            specs_view(rest@) =~= allv.skip(k),
            build_model_from(allv, 0) == match build_model_from(allv, k) {
                BuildModel::Pipeline(restm) => BuildModel::Pipeline(
                    pipeline_view(stages@) + restm,
                ),
                e => e,
            },
        decreases rest@.len(),
    {
        let ghost pre = rest@;
        let spec = rest.remove(0);
        proof {
            assert(specs_view(pre).len() == pre.len());
            assert(allv.skip(k).len() == allv.len() - k);
            assert(k < allv.len());
            assert(specs_view(pre)[0] == pre[0]@);
            assert(allv.skip(k)[0] == allv[k]);
            assert(spec@ == allv[k]);
            assert forall|x: int| 0 <= x < rest@.len() implies #[trigger] specs_view(rest@)[x]
                == allv.skip(k + 1)[x] by {
                assert(rest@[x] == pre[x + 1]);
                assert(specs_view(pre)[x + 1] == pre[x + 1]@);
                assert(specs_view(rest@)[x] == rest@[x]@);
                assert(allv.skip(k)[x + 1] == allv[k + x + 1]);
                assert(allv.skip(k + 1)[x] == allv[k + 1 + x]);
            }
            assert(specs_view(rest@) =~= allv.skip(k + 1));
        }
        match build_stage(spec) {
            Ok(stage) => {
                let ghost pvold = pipeline_view(stages@);
                stages.push(stage);
                proof {
                    assert(pipeline_view(stages@) =~= pvold + seq![stage@]);
                    assert(stage_outcome(allv[k]) == BuildModel::Pipeline(seq![stage@]));
                    match build_model_from(allv, k + 1) {
                        BuildModel::Pipeline(r2) => {
                            assert(build_model_from(allv, k) == BuildModel::Pipeline(
                                seq![stage@] + r2,
                            ));
                            assert(pvold + (seq![stage@] + r2) =~= (pvold + seq![stage@]) + r2);
                        },
                        _ => {
                            assert(build_model_from(allv, k) == build_model_from(allv, k + 1));
                        },
                    }
                    k = k + 1;
                }
            },
            Err(e) => {
                proof {
                    assert(build_model_from(allv, k) == build_result_model(Err(e)));
                    assert(build_model_from(allv, 0) == build_result_model(Err(e)));
                    assert(allv == specs_view(specs@));
                    assert(allv.len() > 0);
                    assert(build_model(allv) == build_model_from(allv, 0));
                    assert(build_model(specs_view(specs@)) == build_result_model(Err(e)));
                }
                return Err(e);
            },
        }
    }
    proof {
        assert(specs_view(rest@).len() == 0);
        assert(k == allv.len());
        assert(build_model_from(allv, k) == BuildModel::Pipeline(Seq::<StageView>::empty()));
        assert(pipeline_view(stages@) + Seq::<StageView>::empty() =~= pipeline_view(stages@));
        assert(build_model_from(allv, 0) == BuildModel::Pipeline(pipeline_view(stages@)));
    }
    Ok(stages)
}

} // verus!
