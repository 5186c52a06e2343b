use vstd::prelude::*;

use crate::frames::{
    data_step, fresh_parser, ChunkV, Fault, FaultV, ParserV, SseParser, StreamChunk,
};
use crate::patch::build_spec;

verus! {

/// What the decoder has seen of the lines so far: the parser state and
/// whether the stream has ended.
pub struct CoreV {
    pub parser: ParserV,
    pub done: bool,
}

/// The model of a [`FrameDecoder`]: the line state and the unfinished line.
pub struct DecoderV {
    pub core: CoreV,
    pub buffer: Seq<u8>,
}

/// One output of the decoder: a chunk, or the fault that ended the stream.
pub type ItemV = Result<ChunkV, FaultV>;

/// The bytes of `event: finish`.
pub open spec fn finish_marker() -> Seq<u8> {
    seq![101u8, 118u8, 101u8, 110u8, 116u8, 58u8, 32u8, 102u8, 105u8, 110u8, 105u8, 115u8, 104u8]
}

/// The bytes of `data: `.
pub open spec fn data_prefix() -> Seq<u8> {
    seq![100u8, 97u8, 116u8, 97u8, 58u8, 32u8]
}

pub open spec fn is_data_line(line: Seq<u8>) -> bool {
    line.len() >= 6 && line.take(6) == data_prefix()
}

/// The state before any byte has arrived.
pub open spec fn fresh_decoder() -> DecoderV {
    DecoderV { core: CoreV { parser: fresh_parser(), done: false }, buffer: Seq::empty() }
}

/// The final item that `event: finish` yields for a tree.
pub open spec fn final_item(p: ParserV) -> ItemV {
    match build_spec(p.tree) {
        Some(m) => Ok(ChunkV::Message(m)),
        None => Err(FaultV::IncompleteResult),
    }
}

/// One complete line: blank and unknown lines (`event: toast` among them)
/// change nothing; once the stream has ended, nothing does.
pub open spec fn line_step(c: CoreV, line: Seq<u8>) -> (CoreV, Seq<ItemV>) {
    if c.done || line.len() == 0 {
        (c, Seq::empty())
    } else if line == finish_marker() {
        (CoreV { parser: fresh_parser(), done: true }, seq![final_item(c.parser)])
    } else if is_data_line(line) {
        match data_step(c.parser, line.skip(6)) {
            Ok((p, ch)) => (
                CoreV { parser: p, done: false },
                match ch {
                    Some(x) => seq![Ok(x)],
                    None => Seq::empty(),
                },
            ),
            Err(f) => (CoreV { parser: c.parser, done: true }, seq![Err(f)]),
        }
    } else {
        (c, Seq::empty())
    }
}

/// Complete lines handled in order.
pub open spec fn run_lines(c: CoreV, lines: Seq<Seq<u8>>) -> (CoreV, Seq<ItemV>)
    decreases lines.len(),
{
    if lines.len() == 0 {
        (c, Seq::empty())
    } else {
        let first = line_step(c, lines[0]);
        let rest = run_lines(first.0, lines.drop_first());
        (rest.0, first.1 + rest.1)
    }
}

/// The complete lines of `cur + s` (each without its newline), and what
/// follows the last newline.
pub open spec fn split_lines(cur: Seq<u8>, s: Seq<u8>) -> (Seq<Seq<u8>>, Seq<u8>)
    decreases s.len(),
{
    if s.len() == 0 {
        (Seq::empty(), cur)
    } else if s[0] == 10u8 {
        let r = split_lines(Seq::empty(), s.drop_first());
        (seq![cur] + r.0, r.1)
    } else {
        split_lines(cur.push(s[0]), s.drop_first())
    }
}

/// One block of bytes received.
pub open spec fn feed_spec(d: DecoderV, block: Seq<u8>) -> (DecoderV, Seq<ItemV>) {
    if d.core.done {
        (d, Seq::empty())
    } else {
        let sp = split_lines(d.buffer, block);
        let run = run_lines(d.core, sp.0);
        (
            DecoderV {
                core: run.0,
                buffer: if run.0.done {
                    Seq::empty()
                } else {
                    sp.1
                },
            },
            run.1,
        )
    }
}

pub proof fn lemma_run_done(c: CoreV, lines: Seq<Seq<u8>>)
    requires
        c.done,
    ensures
        run_lines(c, lines) == (c, Seq::<ItemV>::empty()),
    decreases lines.len(),
{
    if lines.len() > 0 {
        lemma_run_done(c, lines.drop_first());
        assert(Seq::<ItemV>::empty() + Seq::<ItemV>::empty() =~= Seq::<ItemV>::empty());
    }
}

pub proof fn lemma_run_concat(c: CoreV, l1: Seq<Seq<u8>>, l2: Seq<Seq<u8>>)
    ensures
        run_lines(c, l1 + l2) == (
            run_lines(run_lines(c, l1).0, l2).0,
            run_lines(c, l1).1 + run_lines(run_lines(c, l1).0, l2).1,
        ),
    decreases l1.len(),
{
    if l1.len() == 0 {
        assert(l1 + l2 =~= l2);
        assert(Seq::<ItemV>::empty() + run_lines(c, l2).1 =~= run_lines(c, l2).1);
    } else {
        let first = line_step(c, l1[0]);
        assert((l1 + l2).drop_first() =~= l1.drop_first() + l2);
        assert((l1 + l2)[0] == l1[0]);
        lemma_run_concat(first.0, l1.drop_first(), l2);
        let a = run_lines(first.0, l1.drop_first());
        let b = run_lines(a.0, l2);
        assert(first.1 + (a.1 + b.1) =~= (first.1 + a.1) + b.1);
    }
}

pub proof fn lemma_split_concat(cur: Seq<u8>, a: Seq<u8>, b: Seq<u8>)
    ensures
        split_lines(cur, a + b) == (
            split_lines(cur, a).0 + split_lines(split_lines(cur, a).1, b).0,
            split_lines(split_lines(cur, a).1, b).1,
        ),
    decreases a.len(),
{
    if a.len() == 0 {
        assert(a + b =~= b);
        assert(Seq::<Seq<u8>>::empty() + split_lines(cur, b).0 =~= split_lines(cur, b).0);
    } else {
        assert((a + b)[0] == a[0]);
        assert((a + b).drop_first() =~= a.drop_first() + b);
        if a[0] == 10u8 {
            lemma_split_concat(Seq::empty(), a.drop_first(), b);
            let r = split_lines(Seq::empty(), a.drop_first());
            let q = split_lines(r.1, b);
            assert(seq![cur] + (r.0 + q.0) =~= (seq![cur] + r.0) + q.0);
        } else {
            lemma_split_concat(cur.push(a[0]), a.drop_first(), b);
        }
    }
}

/// Feeding `a` and then `b` gives the state and the outputs of feeding `a + b` at once.
pub proof fn lemma_feed_concat(d: DecoderV, a: Seq<u8>, b: Seq<u8>)
    ensures
        ({
            let first = feed_spec(d, a);
            let second = feed_spec(first.0, b);
            let whole = feed_spec(d, a + b);
            second.0 == whole.0 && first.1 + second.1 == whole.1
        }),
{
    let first = feed_spec(d, a);
    let second = feed_spec(first.0, b);
    if d.core.done {
        assert(Seq::<ItemV>::empty() + Seq::<ItemV>::empty() =~= Seq::<ItemV>::empty());
    } else {
        let sa = split_lines(d.buffer, a);
        let sb = split_lines(sa.1, b);
        lemma_split_concat(d.buffer, a, b);
        lemma_run_concat(d.core, sa.0, sb.0);
        let ra = run_lines(d.core, sa.0);
        if ra.0.done {
            lemma_run_done(ra.0, sb.0);
            assert(ra.1 + Seq::<ItemV>::empty() =~= ra.1);
        }
    }
}

/// All parts put end to end.
pub open spec fn concat_parts(parts: Seq<Seq<u8>>) -> Seq<u8>
    decreases parts.len(),
{
    if parts.len() == 0 {
        Seq::empty()
    } else {
        concat_parts(parts.drop_last()) + parts.last()
    }
}

/// The parts fed one after another: the final state and all outputs in order.
pub open spec fn feed_parts(d: DecoderV, parts: Seq<Seq<u8>>) -> (DecoderV, Seq<ItemV>)
    decreases parts.len(),
{
    if parts.len() == 0 {
        (d, Seq::empty())
    } else {
        let before = feed_parts(d, parts.drop_last());
        let step = feed_spec(before.0, parts.last());
        (step.0, before.1 + step.1)
    }
}

/// Feeding parts one by one is feeding their concatenation at once.
pub proof fn lemma_feed_parts(d: DecoderV, parts: Seq<Seq<u8>>)
    ensures
        feed_parts(d, parts) == feed_spec(d, concat_parts(parts)),
    decreases parts.len(),
{
    if parts.len() == 0 {
        let sp = split_lines(d.buffer, Seq::empty());
        if !d.core.done {
            assert(run_lines(d.core, sp.0) == (d.core, Seq::<ItemV>::empty()));
        }
    } else {
        lemma_feed_parts(d, parts.drop_last());
        lemma_feed_concat(d, concat_parts(parts.drop_last()), parts.last());
    }
}

/// The outputs do not depend on where the byte stream was cut into blocks:
/// two ways of cutting the same bytes give the same chunks and the same state.
pub proof fn lemma_chunk_boundaries(d: DecoderV, p1: Seq<Seq<u8>>, p2: Seq<Seq<u8>>)
    requires
        concat_parts(p1) == concat_parts(p2),
    ensures
        feed_parts(d, p1) == feed_parts(d, p2),
{
    lemma_feed_parts(d, p1);
    lemma_feed_parts(d, p2);
}

/// Once the stream has ended, further bytes yield nothing and change nothing.
pub proof fn lemma_silent_after_end(d: DecoderV, block: Seq<u8>)
    requires
        d.core.done,
    ensures
        feed_spec(d, block) == (d, Seq::<ItemV>::empty()),
{
}

/// After `event: finish`, the remaining lines of the same block add no output:
/// the final item is the last.
pub proof fn lemma_finish_is_last(c: CoreV, rest: Seq<Seq<u8>>)
    requires
        !c.done,
    ensures
        run_lines(c, seq![finish_marker()] + rest).1 == seq![final_item(c.parser)],
        run_lines(c, seq![finish_marker()] + rest).0.done,
{
    let after = CoreV { parser: fresh_parser(), done: true };
    assert(finish_marker().len() == 13);
    lemma_run_concat(c, seq![finish_marker()], rest);
    lemma_run_done(after, rest);
    let one = seq![finish_marker()];
    assert(one.drop_first() =~= Seq::<Seq<u8>>::empty());
    assert(one[0] == finish_marker());
    assert(line_step(c, one[0]) == (after, seq![final_item(c.parser)]));
    assert(run_lines(after, one.drop_first()) == (after, Seq::<ItemV>::empty()));
    assert(seq![final_item(c.parser)] + Seq::<ItemV>::empty() =~= seq![final_item(c.parser)]);
    assert(run_lines(c, one) == (after, seq![final_item(c.parser)]));
}

proof fn lemma_split_no_newline(cur: Seq<u8>, s: Seq<u8>)
    requires
        forall|i: int| 0 <= i < s.len() ==> s[i] != 10u8,
    ensures
        split_lines(cur, s.push(10u8)) == (seq![cur + s], Seq::<u8>::empty()),
    decreases s.len(),
{
    if s.len() == 0 {
        let t = s.push(10u8);
        assert(t[0] == 10u8);
        assert(t.drop_first() =~= Seq::<u8>::empty());
        let e = Seq::<u8>::empty();
        assert(split_lines(e, e) == (Seq::<Seq<u8>>::empty(), e));
        assert(split_lines(e, t.drop_first()) == split_lines(e, e));
        assert(cur + s =~= cur);
        assert(seq![cur] + Seq::<Seq<u8>>::empty() =~= seq![cur]);
        assert(split_lines(cur, t) == (seq![cur] + split_lines(e, t.drop_first()).0, split_lines(e, t.drop_first()).1));
    } else {
        let t = s.push(10u8);
        assert(t[0] == s[0]);
        assert(t.drop_first() =~= s.drop_first().push(10u8));
        lemma_split_no_newline(cur.push(s[0]), s.drop_first());
        assert(cur.push(s[0]) + s.drop_first() =~= cur + s);
    }
}

proof fn lemma_split_ends_at_newline(cur: Seq<u8>, s: Seq<u8>)
    requires
        s.len() > 0,
        s.last() == 10u8,
    ensures
        split_lines(cur, s).1 == Seq::<u8>::empty(),
    decreases s.len(),
{
    if s.len() > 1 {
        assert(s.drop_first().last() == s.last());
        if s[0] == 10u8 {
            lemma_split_ends_at_newline(Seq::empty(), s.drop_first());
            assert(split_lines(cur, s).1 == split_lines(Seq::empty(), s.drop_first()).1);
        } else {
            lemma_split_ends_at_newline(cur.push(s[0]), s.drop_first());
            assert(split_lines(cur, s) == split_lines(cur.push(s[0]), s.drop_first()));
        }
    } else {
        assert(s[0] == 10u8);
        let e = Seq::<u8>::empty();
        assert(s.drop_first() =~= e);
        assert(split_lines(e, e) == (Seq::<Seq<u8>>::empty(), e));
        assert(split_lines(cur, s).1 == split_lines(e, s.drop_first()).1);
    }
}

/// The bytes of the line `event: finish` with its newline.
pub open spec fn finish_line() -> Seq<u8> {
    finish_marker().push(10u8)
}

/// Once the line `event: finish` has been read, the rest of the body is not:
/// a body `x ++ "event: finish\n" ++ y` (with `x` made of whole lines that do
/// not end the stream) yields exactly what `x ++ "event: finish\n"` yields,
/// whose last item is the final message (or its fault), and the stream ends.
pub proof fn lemma_finish_stops_body(d: DecoderV, x: Seq<u8>, y: Seq<u8>)
    requires
        !d.core.done,
        d.buffer.len() == 0,
        x.len() == 0 || x.last() == 10u8,
        !feed_spec(d, x).0.core.done,
    ensures
        feed_spec(d, x + finish_line() + y).1 == feed_spec(d, x + finish_line()).1,
        feed_spec(d, x + finish_line()).1 == feed_spec(d, x).1.push(
            final_item(feed_spec(d, x).0.core.parser),
        ),
        feed_spec(d, x + finish_line() + y).0.core.done,
{
    let d1 = feed_spec(d, x).0;
    if x.len() == 0 {
        assert(split_lines(d.buffer, x) == (Seq::<Seq<u8>>::empty(), d.buffer));
    } else {
        lemma_split_ends_at_newline(d.buffer, x);
    }
    assert(d1.buffer =~= Seq::<u8>::empty());
    assert(forall|i: int| 0 <= i < 13 ==> finish_marker()[i] != 10u8) by {
        assert forall|i: int| 0 <= i < 13 implies finish_marker()[i] != 10u8 by {
            let m = finish_marker();
            assert(m[0] == 101u8 && m[1] == 118u8 && m[2] == 101u8 && m[3] == 110u8);
            assert(m[4] == 116u8 && m[5] == 58u8 && m[6] == 32u8 && m[7] == 102u8);
            assert(m[8] == 105u8 && m[9] == 110u8 && m[10] == 105u8 && m[11] == 115u8);
            assert(m[12] == 104u8);
        }
    }
    lemma_split_no_newline(d1.buffer, finish_marker());
    assert(d1.buffer + finish_marker() =~= finish_marker());
    lemma_finish_is_last(d1.core, Seq::empty());
    assert(seq![finish_marker()] + Seq::<Seq<u8>>::empty() =~= seq![finish_marker()]);
    lemma_feed_concat(d, x, finish_line());
    let d2 = feed_spec(d, x + finish_line()).0;
    assert(d2.core.done);
    lemma_feed_concat(d, x + finish_line(), y);
    assert(feed_spec(d, x + finish_line()).1 + Seq::<ItemV>::empty() =~= feed_spec(d, x + finish_line()).1);
    assert(feed_spec(d, x).1 + seq![final_item(d1.core.parser)] =~= feed_spec(d, x).1.push(final_item(d1.core.parser)));
}

pub open spec fn item_view(x: Result<StreamChunk, Fault>) -> ItemV {
    match x {
        Ok(c) => Ok(c@),
        Err(f) => Err(f@),
    }
}

pub open spec fn items_view(s: Seq<Result<StreamChunk, Fault>>) -> Seq<ItemV> {
    s.map_values(|x: Result<StreamChunk, Fault>| item_view(x))
}

/// Whether `line` is exactly `event: finish`.
fn is_finish_line(line: &[u8]) -> (r: bool)
    ensures
        r == (line@ == finish_marker()),
{
    if line.len() != 13 {
        return false;
    }
    let r = line[0] == 101 && line[1] == 118 && line[2] == 101 && line[3] == 110 && line[4] == 116
        && line[5] == 58 && line[6] == 32 && line[7] == 102 && line[8] == 105 && line[9] == 110
        && line[10] == 105 && line[11] == 115 && line[12] == 104;
    proof {
        if r {
            assert(line@ =~= finish_marker());
        }
    }
    r
}

/// Whether `line` starts with `data: `.
fn is_data(line: &[u8]) -> (r: bool)
    ensures
        r == is_data_line(line@),
{
    if line.len() < 6 {
        return false;
    }
    let r = line[0] == 100 && line[1] == 97 && line[2] == 116 && line[3] == 97 && line[4] == 58
        && line[5] == 32;
    proof {
        if r {
            assert(line@.take(6) =~= data_prefix());
        } else {
            assert(line@.take(6) != data_prefix()) by {
                if line@.take(6) == data_prefix() {
                    assert(line@.take(6)[0] == line@[0]);
                    assert(line@.take(6)[1] == line@[1]);
                    assert(line@.take(6)[2] == line@[2]);
                    assert(line@.take(6)[3] == line@[3]);
                    assert(line@.take(6)[4] == line@[4]);
                    assert(line@.take(6)[5] == line@[5]);
                }
            }
        }
    }
    r
}

/// Splits a response body into lines and turns them into chunks.
///
/// Blocks may cut the body anywhere; a partial line waits for the rest.
/// After `event: finish` or a fault, nothing more is read.
pub struct FrameDecoder {
    parser: SseParser,
    done: bool,
    buffer: Vec<u8>,
}

impl View for FrameDecoder {
    type V = DecoderV;

    closed spec fn view(&self) -> DecoderV {
        DecoderV { core: CoreV { parser: self.parser@, done: self.done }, buffer: self.buffer@ }
    }
}

impl FrameDecoder {
    /// A decoder at the start of a stream.
    pub fn new() -> (r: Self)
        ensures
            r@ == fresh_decoder(),
    {
        FrameDecoder { parser: SseParser::new(), done: false, buffer: Vec::new() }
    }

    /// Whether the stream has ended, by `event: finish` or by a fault.
    pub fn is_done(&self) -> (r: bool)
        ensures
            r == self@.core.done,
    {
        self.done
    }

    /// Handles one complete line.
    fn handle_line(&mut self, line: &[u8], out: &mut Vec<Result<StreamChunk, Fault>>)
        ensures
            ({
                let step = line_step(old(self)@.core, line@);
                final(self)@.core == step.0 && items_view(final(out)@) == items_view(old(out)@)
                    + step.1
            }),
            final(self)@.buffer == old(self)@.buffer,
    {
        let ghost before = out@;
        if self.done || line.len() == 0 {
            proof {
                assert(items_view(out@) =~= items_view(before) + Seq::<ItemV>::empty());
            }
            return;
        }
        if is_finish_line(line) {
            let mut p = SseParser::new();
            core::mem::swap(&mut self.parser, &mut p);
            let item = match p.finish() {
                Ok(m) => Ok(StreamChunk::Message(m)),
                Err(f) => Err(f),
            };
            out.push(item);
            self.done = true;
            proof {
                assert(items_view(out@) =~= items_view(before) + seq![item_view(item)]);
            }
            return;
        }
        if is_data(line) {
            let data = vstd::slice::slice_subrange(line, 6, line.len());
            proof {
                assert(data@ =~= line@.skip(6));
            }
            match self.parser.process_data_line(data) {
                Ok(Some(c)) => {
                    out.push(Ok(c));
                    proof {
                        assert(items_view(out@) =~= items_view(before) + seq![item_view(out@.last())]);
                    }
                },
                Ok(None) => {
                    proof {
                        assert(items_view(out@) =~= items_view(before) + Seq::<ItemV>::empty());
                    }
                },
                Err(f) => {
                    out.push(Err(f));
                    self.done = true;
                    proof {
                        assert(items_view(out@) =~= items_view(before) + seq![item_view(out@.last())]);
                    }
                },
            }
        } else {
            proof {
                assert(items_view(out@) =~= items_view(before) + Seq::<ItemV>::empty());
            }
        }
    }

    /// Takes in the next block of the body and returns what its complete lines yield.
    pub fn feed(&mut self, block: &[u8]) -> (r: Vec<Result<StreamChunk, Fault>>)
        ensures
            ({
                let step = feed_spec(old(self)@, block@);
                final(self)@ == step.0 && items_view(r@) == step.1
            }),
    {
        let mut out: Vec<Result<StreamChunk, Fault>> = Vec::new();
        if self.done {
            proof {
                assert(items_view(out@) =~= Seq::<ItemV>::empty());
            }
            return out;
        }
        let ghost d0 = self@;
        let ghost whole = split_lines(d0.buffer, block@);
        let ghost mut lines: Seq<Seq<u8>> = Seq::empty();
        let mut j: usize = 0;
        proof {
            assert(block@.skip(0) =~= block@);
            assert(lines + whole.0 =~= whole.0);
            assert(items_view(out@) =~= Seq::<ItemV>::empty());
        }
        while j < block.len()
            invariant
                j <= block@.len(),
                !self.done,
                !d0.core.done,
                d0 == old(self)@,
                whole == split_lines(d0.buffer, block@),
                whole.0 == lines + split_lines(self.buffer@, block@.skip(j as int)).0,
                whole.1 == split_lines(self.buffer@, block@.skip(j as int)).1,
                run_lines(d0.core, lines) == (self@.core, items_view(out@)),
            decreases block@.len() - j,
        {
            let b = block[j];
            let ghost rest = block@.skip(j as int);
            proof {
                assert(rest[0] == b);
                assert(rest.drop_first() =~= block@.skip(j + 1));
            }
            if b == 10 {
                let mut line: Vec<u8> = Vec::new();
                core::mem::swap(&mut self.buffer, &mut line);
                let ghost c_before = self@.core;
                let ghost out_before = items_view(out@);
                self.handle_line(line.as_slice(), &mut out);
                proof {
                    let step = line_step(c_before, line@);
                    lemma_run_concat(d0.core, lines, seq![line@]);
                    let one = seq![line@];
                    assert(one.drop_first() =~= Seq::<Seq<u8>>::empty());
                    assert(step.1 + Seq::<ItemV>::empty() =~= step.1);
                    assert(one[0] == line@);
                    assert(run_lines(step.0, one.drop_first()) == (step.0, Seq::<ItemV>::empty()));
                    assert(run_lines(c_before, one) == (step.0, step.1));
                    assert(whole.0 =~= (lines + one) + split_lines(Seq::empty(), block@.skip(j + 1)).0);
                    lines = lines + one;
                }
                if self.done {
                    self.buffer = Vec::new();
                    proof {
                        let tail = split_lines(Seq::empty(), block@.skip(j + 1)).0;
                        assert(whole.0 == lines + tail);
                        assert(run_lines(d0.core, lines) == (self@.core, items_view(out@)));
                        lemma_run_concat(d0.core, lines, tail);
                        lemma_run_done(self@.core, tail);
                        assert(items_view(out@) + Seq::<ItemV>::empty() =~= items_view(out@));
                        assert(run_lines(d0.core, whole.0) == (self@.core, items_view(out@)));
                        assert(self@.buffer =~= Seq::<u8>::empty());
                    }
                    return out;
                }
            } else {
                self.buffer.push(b);
            }
            j = j + 1;
        }
        proof {
            assert(block@.skip(j as int) =~= Seq::<u8>::empty());
            assert(lines + Seq::<Seq<u8>>::empty() =~= lines);
        }
        out
    }
}

} // verus!
