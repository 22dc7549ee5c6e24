//! Splitting the raw argument list into pipeline segments.
//!
//! The tokens `|` and `!` are reserved separators: each run of tokens
//! between separators is one segment, and a segment introduced by `!`
//! is marked so that its stage gets the `Document` direction.

use vstd::prelude::*;

verus! {

/// One segment of the raw argument list.
pub struct Segment {
    /// The segment was introduced by the `!` separator.
    pub bang: bool,
    /// The tokens of the segment, in order.
    pub tokens: Vec<Vec<u8>>,
}

/// The mathematical model of a [`Segment`].
#[verifier::ext_equal]
pub ghost struct SegmentView {
    pub bang: bool,
    pub tokens: Seq<Seq<u8>>,
}

impl View for Segment {
    type V = SegmentView;

    open spec fn view(&self) -> SegmentView {
        SegmentView { bang: self.bang, tokens: self.tokens@.map_values(|t: Vec<u8>| t@) }
    }
}

/// The models of a list of segments.
pub open spec fn segments_view(segs: Seq<Segment>) -> Seq<SegmentView> {
    segs.map_values(|s: Segment| s@)
}

/// The models of a list of tokens.
pub open spec fn tokens_view(toks: Seq<Vec<u8>>) -> Seq<Seq<u8>> {
    toks.map_values(|t: Vec<u8>| t@)
}

/// Whether a token is one of the two reserved stage separators.
pub open spec fn is_sep(tok: Seq<u8>) -> bool {
    tok == seq![0x7cu8] || tok == seq![0x21u8]
}

/// Whether a token is the separator that marks the following segment's
/// stage with the `Document` direction.
pub open spec fn is_bang(tok: Seq<u8>) -> bool {
    tok == seq![0x21u8]
}

/// The segments of `args[i..]`, where the segment currently being
/// collected was introduced by a `!` separator iff `bang`.  There is
/// always at least one (possibly empty) segment, as with splitting a
/// list on separator elements.
pub open spec fn split_from(args: Seq<Seq<u8>>, i: int, bang: bool) -> Seq<SegmentView>
    decreases args.len() - i,
{
    if i < 0 || i >= args.len() {
        seq![SegmentView { bang: bang, tokens: Seq::empty() }]
    } else if is_sep(args[i]) {
        seq![SegmentView { bang: bang, tokens: Seq::empty() }] + split_from(
            args,
            i + 1,
            is_bang(args[i]),
        )
    } else {
        let rest = split_from(args, i + 1, bang);
        seq![SegmentView { bang: bang, tokens: seq![args[i]] + rest[0].tokens }]
            + rest.drop_first()
    }
}

/// The segments of the whole argument list; the first segment is never
/// marked.
pub open spec fn split_model(args: Seq<Seq<u8>>) -> Seq<SegmentView> {
    split_from(args, 0, false)
}

/// An owned copy of a byte vector.
pub fn copy_bytes(src: &Vec<u8>) -> (r: Vec<u8>)
    ensures
        r@ == src@,
{
    let mut r: Vec<u8> = Vec::new();
    let mut i: usize = 0;
    while i < src.len()
        invariant
            i <= src@.len(),
            r@ == src@.subrange(0, i as int),
        decreases src@.len() - i,
    {
        r.push(src[i]);
        proof {
            assert(src@.subrange(0, i as int).push(src@[i as int]) =~= src@.subrange(0, i + 1));
        }
        i += 1;
    }
    proof {
        assert(src@.subrange(0, src@.len() as int) =~= src@);
    }
    r
}

fn is_sep_token(tok: &Vec<u8>) -> (r: bool)
    ensures
        r == is_sep(tok@),
{
    let r = tok.len() == 1 && (tok[0] == 0x7c || tok[0] == 0x21);
    proof {
        if r {
            if tok@[0] == 0x7c {
                assert(tok@ =~= seq![0x7cu8]);
            } else {
                assert(tok@ =~= seq![0x21u8]);
            }
        } else {
            assert(tok@ != seq![0x7cu8] && tok@ != seq![0x21u8]) by {
                if tok@.len() == 1 {
                    assert(tok@[0] != 0x7c && tok@[0] != 0x21);
                }
            }
        }
    }
    r
}

fn is_bang_token(tok: &Vec<u8>) -> (r: bool)
    ensures
        r == is_bang(tok@),
{
    let r = tok.len() == 1 && tok[0] == 0x21;
    proof {
        if r {
            assert(tok@ =~= seq![0x21u8]);
        } else {
            assert(tok@ != seq![0x21u8]) by {
                if tok@.len() == 1 {
                    assert(tok@[0] != 0x21);
                }
            }
        }
    }
    r
}

fn split_from_index(args: &Vec<Vec<u8>>, i: usize, bang: bool) -> (r: Vec<Segment>)
    requires
        i <= args@.len(),
    ensures
        segments_view(r@) == split_from(tokens_view(args@), i as int, bang),
    decreases args@.len() - i,
{
    let ghost av = tokens_view(args@);
    if i == args.len() {
        let mut r: Vec<Segment> = Vec::new();
        r.push(Segment { bang: bang, tokens: Vec::new() });
        proof {
            assert(segments_view(r@) =~~= split_from(av, i as int, bang));
        }
        return r;
    }
    let tok = &args[i];
    proof {
        assert(tok@ == av[i as int]);
    }
    if is_sep_token(tok) {
        let next_bang = is_bang_token(tok);
        let mut rest = split_from_index(args, i + 1, next_bang);
        rest.insert(0, Segment { bang: bang, tokens: Vec::new() });
        proof {
            assert(segments_view(rest@) =~~= split_from(av, i as int, bang));
        }
        return rest;
    }
    let mut rest = split_from_index(args, i + 1, bang);
    let ghost restv = split_from(av, i + 1, bang);
    proof {
        assert(restv[0].bang == bang);
        assert(rest@.len() == restv.len());
        assert(rest@[0]@ == restv[0]);
    }
    let first = rest.remove(0);
    let mut toks: Vec<Vec<u8>> = Vec::new();
    toks.push(copy_bytes(tok));
    let mut ft = first.tokens;
    toks.append(&mut ft);
    rest.insert(0, Segment { bang: first.bang, tokens: toks });
    proof {
        assert(rest@[0]@.tokens =~= seq![av[i as int]] + restv[0].tokens);
        assert(segments_view(rest@) =~~= split_from(av, i as int, bang));
    }
    rest
}

/// Splits the raw argument list into pipeline segments on the reserved
/// tokens `|` and `!`; a segment introduced by `!` is marked for the
/// `Document` direction.
pub fn split_stages(args: &Vec<Vec<u8>>) -> (r: Vec<Segment>)
    ensures
        segments_view(r@) == split_model(tokens_view(args@)),
{
    split_from_index(args, 0, false)
}

} // verus!
