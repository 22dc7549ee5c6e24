//! The match recorder: turns the stream of leaf matches of one input
//! source into formatted output, a running count, or a short-circuit
//! signal, depending on the output mode.

use vstd::prelude::*;
use crate::dom;
use crate::text::{dec_bytes, maybe_trimmed, push_decimal, trim_bytes};

verus! {

/// Process-wide output options, immutable after construction.
pub struct Opts {
    /// Attribute names to extract, in request order.
    pub attributes: Vec<Vec<u8>>,
    /// Emit the source path once per matching source.
    pub list: bool,
    /// Emit nothing; signal the first match instead.
    pub quiet: bool,
    /// Emit text content instead of serialized markup.
    pub text: bool,
    /// Label each record with the source path.
    pub prefix: bool,
    /// Strip leading and trailing whitespace from records.
    pub trim: bool,
    /// Emit only the number of matches.
    pub count: bool,
    /// Colorize the source-path label.
    pub color: bool,
    /// The record terminator.
    pub nl: u8,
}

/// The mathematical model of [`Opts`].
pub ghost struct OptsView {
    pub attributes: Seq<Seq<u8>>,
    pub list: bool,
    pub quiet: bool,
    pub text: bool,
    pub prefix: bool,
    pub trim: bool,
    pub count: bool,
    pub color: bool,
    pub nl: u8,
}

impl View for Opts {
    type V = OptsView;

    open spec fn view(&self) -> OptsView {
        OptsView {
            attributes: self.attributes@.map_values(|a: Vec<u8>| a@),
            list: self.list,
            quiet: self.quiet,
            text: self.text,
            prefix: self.prefix,
            trim: self.trim,
            count: self.count,
            color: self.color,
            nl: self.nl,
        }
    }
}

impl Opts {
    /// Assembles the options from the command-line flags: the prefix is
    /// shown when requested or when more than one source is given, and
    /// not explicitly suppressed; records are NUL-terminated when
    /// `print0` is set and newline-terminated otherwise.
    pub fn build(
        attributes: Vec<Vec<u8>>,
        list: bool,
        quiet: bool,
        text: bool,
        prefix_flag: bool,
        no_prefix: bool,
        trim: bool,
        count: bool,
        print0: bool,
        color: bool,
        n_sources: usize,
    ) -> (r: Opts)
        ensures
            r@ == (OptsView {
                attributes: attributes@.map_values(|a: Vec<u8>| a@),
                list: list,
                quiet: quiet,
                text: text,
                prefix: (prefix_flag || n_sources > 1) && !no_prefix,
                trim: trim,
                count: count,
                color: color,
                nl: if print0 {
                    0u8
                } else {
                    10u8
                },
            }),
    {
        Opts {
            attributes,
            list,
            quiet,
            text,
            prefix: (prefix_flag || n_sources > 1) && !no_prefix,
            trim,
            count,
            color,
            nl: if print0 {
                0
            } else {
                10
            },
        }
    }
}

/// The escape sequence that switches the terminal to magenta.
pub open spec fn color_magenta() -> Seq<u8> {
    seq![0x1bu8, 0x5bu8, 0x33u8, 0x35u8, 0x6du8]
}

/// The escape sequence that resets terminal colors.
pub open spec fn color_reset() -> Seq<u8> {
    seq![0x1bu8, 0x5bu8, 0x30u8, 0x6du8]
}

/// The source-path label preceding a record: the path and a colon,
/// colorized for a terminal, or nothing when the prefix is off.
pub open spec fn prefix_bytes(opts: OptsView, path: Seq<u8>) -> Seq<u8> {
    if opts.prefix {
        if opts.color {
            color_magenta() + path + seq![0x3au8] + color_reset()
        } else {
            path + seq![0x3au8]
        }
    } else {
        Seq::empty()
    }
}

/// Appends the source-path label to `out` when the prefix is on.
pub fn highlight_prefix(out: &mut Vec<u8>, opts: &Opts, path: &Vec<u8>)
    ensures
        final(out)@ == old(out)@ + prefix_bytes(opts@, path@),
{
    if !opts.prefix {
        proof {
            assert(old(out)@ + prefix_bytes(opts@, path@) =~= old(out)@);
        }
        return ;
    }
    if opts.color {
        out.push(0x1b);
        out.push(0x5b);
        out.push(0x33);
        out.push(0x35);
        out.push(0x6d);
        out.extend_from_slice(path.as_slice());
        out.push(0x3a);
        out.push(0x1b);
        out.push(0x5b);
        out.push(0x30);
        out.push(0x6d);
        proof {
            assert(out@ =~= old(out)@ + prefix_bytes(opts@, path@));
        }
    } else {
        out.extend_from_slice(path.as_slice());
        out.push(0x3a);
        proof {
            assert(out@ =~= old(out)@ + prefix_bytes(opts@, path@));
        }
    }
}

/// The state of the recorder for one input source.
pub ghost struct RecView {
    pub opts: OptsView,
    pub path: Seq<u8>,
    pub count: int,
    pub listed: bool,
    pub out: Seq<u8>,
}

/// A fresh recorder state.
pub open spec fn fresh_rec(opts: OptsView, path: Seq<u8>) -> RecView {
    RecView { opts: opts, path: path, count: 0, listed: false, out: Seq::empty() }
}

/// The attribute value emitted for one requested name: the value
/// (optionally trimmed), or nothing when the attribute is missing.
pub open spec fn attr_or_empty(dom: Seq<u8>, el: int, name: Seq<u8>, trim: bool) -> Seq<u8> {
    match dom::attr_value(dom, el, name) {
        Some(v) => maybe_trimmed(v, trim),
        None => Seq::empty(),
    }
}

/// The records emitted for the requested attributes from index `i` on.
pub open spec fn attr_records(opts: OptsView, path: Seq<u8>, dom: Seq<u8>, el: int, i: int) -> Seq<
    u8,
>
    decreases opts.attributes.len() - i,
{
    if i < 0 || i >= opts.attributes.len() {
        Seq::empty()
    } else {
        prefix_bytes(opts, path) + attr_or_empty(dom, el, opts.attributes[i], opts.trim) + seq![
            opts.nl,
        ] + attr_records(opts, path, dom, el, i + 1)
    }
}

/// One transition of the recorder state machine: the effect of one
/// leaf match on the recorder, in mode priority order (count, quiet,
/// list, attribute extraction, text extraction, serialization).
pub open spec fn record_step(st: RecView, dom: Seq<u8>, el: int) -> RecView {
    if st.opts.count {
        RecView {
            count: if st.count < u64::MAX as int {
                st.count + 1
            } else {
                st.count
            },
            ..st
        }
    } else if st.opts.quiet {
        st
    } else if st.opts.list {
        if st.listed {
            st
        } else {
            RecView {
                out: st.out + prefix_bytes(st.opts, st.path) + st.path + seq![st.opts.nl],
                listed: true,
                ..st
            }
        }
    } else if st.opts.attributes.len() > 0 {
        RecView { out: st.out + attr_records(st.opts, st.path, dom, el, 0), ..st }
    } else if st.opts.text {
        RecView {
            out: st.out + prefix_bytes(st.opts, st.path) + maybe_trimmed(
                dom::text_content(dom, el),
                st.opts.trim,
            ) + seq![st.opts.nl],
            ..st
        }
    } else {
        RecView {
            out: st.out + prefix_bytes(st.opts, st.path) + maybe_trimmed(
                dom::outer_markup(dom, el),
                st.opts.trim,
            ) + seq![st.opts.nl],
            ..st
        }
    }
}

/// Whether a leaf match makes the recorder signal the caller to stop
/// the whole run: quiet mode does, unless counting suppresses it.
pub open spec fn record_stops(opts: OptsView) -> bool {
    opts.quiet && !opts.count
}

/// The recorder state after consuming a sequence of leaf matches.
pub open spec fn record_all(st: RecView, dom: Seq<u8>, leaves: Seq<int>) -> RecView
    decreases leaves.len(),
{
    if leaves.len() == 0 {
        st
    } else {
        record_all(record_step(st, dom, leaves[0]), dom, leaves.drop_first())
    }
}

/// Consuming a concatenation of leaf matches is consuming the parts in
/// turn.
pub proof fn lemma_record_all_append(st: RecView, dom: Seq<u8>, a: Seq<int>, b: Seq<int>)
    ensures
        record_all(st, dom, a + b) == record_all(record_all(st, dom, a), dom, b),
    decreases a.len(),
{
    if a.len() == 0 {
        assert(a + b =~= b);
    } else {
        assert((a + b)[0] == a[0]);
        assert((a + b).drop_first() =~= a.drop_first() + b);
        lemma_record_all_append(record_step(st, dom, a[0]), dom, a.drop_first(), b);
    }
}

/// In quiet (non-count) mode the recorder never changes state.
pub proof fn lemma_record_all_stops(st: RecView, dom: Seq<u8>, leaves: Seq<int>)
    requires
        record_stops(st.opts),
    ensures
        record_all(st, dom, leaves) == st,
    decreases leaves.len(),
{
    if leaves.len() > 0 {
        assert(record_step(st, dom, leaves[0]) == st);
        lemma_record_all_stops(st, dom, leaves.drop_first());
    }
}

/// The recorder's options and path never change.
pub proof fn lemma_record_all_keeps(st: RecView, dom: Seq<u8>, leaves: Seq<int>)
    ensures
        record_all(st, dom, leaves).opts == st.opts,
        record_all(st, dom, leaves).path == st.path,
    decreases leaves.len(),
{
    if leaves.len() > 0 {
        lemma_record_all_keeps(record_step(st, dom, leaves[0]), dom, leaves.drop_first());
    }
}

/// The final output of a source: the accumulated records, plus the
/// count line when counting and at least one match was seen.
pub open spec fn conclude_bytes(st: RecView) -> Seq<u8> {
    if st.opts.count && st.count > 0 {
        st.out + prefix_bytes(st.opts, st.path) + dec_bytes(st.count) + seq![st.opts.nl]
    } else {
        st.out
    }
}

/// Consumes the leaf matches of one input source, one at a time.
pub struct MatchRecorder<'a> {
    opts: &'a Opts,
    path: &'a Vec<u8>,
    count: u64,
    listed: bool,
    out: Vec<u8>,
}

impl<'a> View for MatchRecorder<'a> {
    type V = RecView;

    closed spec fn view(&self) -> RecView {
        RecView {
            opts: (*self.opts)@,
            path: (*self.path)@,
            count: self.count as int,
            listed: self.listed,
            out: self.out@,
        }
    }
}

fn append_maybe_trimmed(out: &mut Vec<u8>, bytes: &Vec<u8>, trim: bool)
    ensures
        final(out)@ == old(out)@ + maybe_trimmed(bytes@, trim),
{
    if trim {
        let t = trim_bytes(bytes.as_slice());
        out.extend_from_slice(t.as_slice());
    } else {
        out.extend_from_slice(bytes.as_slice());
    }
}

impl<'a> MatchRecorder<'a> {
    /// A fresh recorder for one input source.
    pub fn new(opts: &'a Opts, path: &'a Vec<u8>) -> (r: MatchRecorder<'a>)
        ensures
            r@ == fresh_rec(opts@, path@),
    {
        let r = MatchRecorder { opts: opts, path: path, count: 0, listed: false, out: Vec::new() };
        proof {
            assert(r@.out =~= fresh_rec(opts@, path@).out);
        }
        r
    }

    /// Consumes one leaf match; returns whether the whole run must
    /// stop now (quiet mode, first match).
    pub fn record(&mut self, doc: &scraper::Html, el: usize) -> (stop: bool)
        ensures
            final(self)@ == record_step(old(self)@, dom::dom_of(*doc), el as int),
            stop == record_stops(old(self)@.opts),
    {
        let ghost dom = dom::dom_of(*doc);
        if self.opts.count {
            if self.count < u64::MAX {
                self.count = self.count + 1;
            }
            return false;
        }
        if self.opts.quiet {
            return true;
        }
        if self.opts.list {
            if !self.listed {
                highlight_prefix(&mut self.out, self.opts, self.path);
                self.out.extend_from_slice(self.path.as_slice());
                self.out.push(self.opts.nl);
                self.listed = true;
                proof {
                    assert(self@.out =~= record_step(old(self)@, dom, el as int).out);
                }
            }
            return false;
        }
        if self.opts.attributes.len() > 0 {
            let ghost total = old(self)@.out + attr_records(
                old(self)@.opts,
                old(self)@.path,
                dom,
                el as int,
                0,
            );
            let mut k: usize = 0;
            while k < self.opts.attributes.len()
                invariant
                    k <= self.opts.attributes@.len(),
                    self.opts == old(self).opts,
                    self.path == old(self).path,
                    self.count == old(self).count,
                    self.listed == old(self).listed,
                    dom == dom::dom_of(*doc),
                    self@.out + attr_records(self@.opts, self@.path, dom, el as int, k as int)
                        == total,
                decreases self.opts.attributes@.len() - k,
            {
                let ghost pre = self@.out;
                highlight_prefix(&mut self.out, self.opts, self.path);
                let v = dom::attr_of(doc, el, self.opts.attributes[k].as_slice());
                match v {
                    Some(val) => {
                        append_maybe_trimmed(&mut self.out, &val, self.opts.trim);
                    },
                    None => {},
                }
                self.out.push(self.opts.nl);
                proof {
                    let o = self@.opts;
                    let rec = prefix_bytes(o, self@.path) + attr_or_empty(
                        dom,
                        el as int,
                        o.attributes[k as int],
                        o.trim,
                    ) + seq![o.nl];
                    assert(self@.out =~= pre + rec);
                    assert(attr_records(o, self@.path, dom, el as int, k as int) == rec
                        + attr_records(o, self@.path, dom, el as int, k + 1));
                    assert(self@.out + attr_records(o, self@.path, dom, el as int, k + 1) =~= pre
                        + attr_records(o, self@.path, dom, el as int, k as int));
                }
                k += 1;
            }
            proof {
                assert(self@.out + attr_records(self@.opts, self@.path, dom, el as int, k as int)
                    =~= self@.out);
                assert(self@ == record_step(old(self)@, dom, el as int));
            }
            return false;
        }
        if self.opts.text {
            highlight_prefix(&mut self.out, self.opts, self.path);
            let t = dom::text_of(doc, el);
            append_maybe_trimmed(&mut self.out, &t, self.opts.trim);
            self.out.push(self.opts.nl);
            proof {
                assert(self@.out =~= record_step(old(self)@, dom, el as int).out);
            }
            return false;
        }
        highlight_prefix(&mut self.out, self.opts, self.path);
        let h = dom::outer_html(doc, el);
        append_maybe_trimmed(&mut self.out, &h, self.opts.trim);
        self.out.push(self.opts.nl);
        proof {
            assert(self@.out =~= record_step(old(self)@, dom, el as int).out);
        }
        false
    }

    /// Concludes the source: hands back the accumulated output, with
    /// the count line appended in count mode when matches were seen.
    pub fn conclude(self) -> (out: Vec<u8>)
        ensures
            out@ == conclude_bytes(self@),
    {
        let MatchRecorder { opts, path, count, listed: _, out } = self;
        let mut out = out;
        if opts.count && count > 0 {
            highlight_prefix(&mut out, opts, path);
            push_decimal(&mut out, count);
            out.push(opts.nl);
            proof {
                assert(out@ =~= conclude_bytes(self@));
            }
        }
        out
    }
}

} // verus!
