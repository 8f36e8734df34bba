//! The queue of ranges between the relay, which fills it, and the server,
//! which hands its head out on request.

use crate::range::{parse_selection, Range, Selection};
use std::collections::VecDeque;
use vstd::prelude::*;
use vstd::string::StringSliceAdditionalSpecFns;

verus! {

/// The range may be handed out under `watermark`: it ends at or before the
/// end of the watermark, or the watermark is no valid selection and bounds
/// nothing.
pub open spec fn within(range: Range, watermark: Selection) -> bool {
    !watermark.valid() || range.selection.1.at_or_before(watermark.1)
}

/// How many ranges at the head of `queue` lie within `watermark`, counted
/// up to the first one that does not.
pub open spec fn served_len(queue: Seq<Range>, watermark: Selection) -> nat
    decreases queue.len(),
{
    if queue.len() > 0 && within(queue[0], watermark) {
        1 + served_len(queue.drop_first(), watermark)
    } else {
        0
    }
}

/// The ranges that a request with `watermark` takes from `queue`.
pub open spec fn served(queue: Seq<Range>, watermark: Selection) -> Seq<Range> {
    queue.take(served_len(queue, watermark) as int)
}

/// The ranges that a request with `watermark` leaves in `queue`.
pub open spec fn kept(queue: Seq<Range>, watermark: Selection) -> Seq<Range> {
    queue.skip(served_len(queue, watermark) as int)
}

/// The served ranges never outnumber the queue.
pub proof fn lemma_served_len_bound(queue: Seq<Range>, watermark: Selection)
    ensures
        served_len(queue, watermark) <= queue.len(),
    decreases queue.len(),
{
    if queue.len() > 0 && within(queue[0], watermark) {
        lemma_served_len_bound(queue.drop_first(), watermark);
    }
}

/// A request takes a prefix of the queue and leaves the rest: every range
/// it takes lies within the watermark, and the first one it leaves does not.
pub proof fn lemma_served_prefix(queue: Seq<Range>, watermark: Selection)
    ensures
        served(queue, watermark) + kept(queue, watermark) == queue,
        forall|i: int|
            0 <= i < served(queue, watermark).len() ==> within(
                #[trigger] served(queue, watermark)[i],
                watermark,
            ),
        kept(queue, watermark).len() > 0 ==> !within(kept(queue, watermark)[0], watermark),
    decreases queue.len(),
{
    lemma_served_len_bound(queue, watermark);
    let n = served_len(queue, watermark) as int;
    assert(queue.take(n) + queue.skip(n) == queue);
    if queue.len() > 0 && within(queue[0], watermark) {
        let rest = queue.drop_first();
        lemma_served_prefix(rest, watermark);
        lemma_served_len_bound(rest, watermark);
        assert forall|i: int| 0 <= i < served(queue, watermark).len() implies within(
            #[trigger] served(queue, watermark)[i],
            watermark,
        ) by {
            if i > 0 {
                assert(served(queue, watermark)[i] == served(rest, watermark)[i - 1]);
            }
        }
        if kept(queue, watermark).len() > 0 {
            assert(kept(queue, watermark)[0] == kept(rest, watermark)[0]);
        }
    }
}

/// No longer prefix would do: a prefix of the queue whose ranges all lie
/// within the watermark is no longer than what a request takes.
pub proof fn lemma_served_maximal(queue: Seq<Range>, watermark: Selection, n: int)
    requires
        0 <= n <= queue.len(),
        forall|i: int| 0 <= i < n ==> within(#[trigger] queue[i], watermark),
    ensures
        n <= served_len(queue, watermark),
    decreases queue.len(),
{
    if n > 0 {
        let rest = queue.drop_first();
        assert(within(queue[0], watermark));
        assert forall|i: int| 0 <= i < n - 1 implies within(#[trigger] rest[i], watermark) by {
            assert(rest[i] == queue[i + 1]);
        }
        lemma_served_maximal(rest, watermark, n - 1);
    }
}

/// In a queue whose ends never go back, a request leaves nothing behind
/// that it could have taken: the ranges it takes are all those that lie
/// within the watermark.
pub proof fn lemma_served_complete(queue: Seq<Range>, watermark: Selection, i: int)
    requires
        forall|a: int, b: int|
            0 <= a <= b < queue.len() ==> (#[trigger] queue[a]).selection.1.at_or_before(
                (#[trigger] queue[b]).selection.1,
            ),
        0 <= i < queue.len(),
    ensures
        within(queue[i], watermark) <==> i < served_len(queue, watermark),
{
    lemma_served_prefix(queue, watermark);
    lemma_served_len_bound(queue, watermark);
    let n = served_len(queue, watermark) as int;
    if i < n {
        assert(served(queue, watermark)[i] == queue[i]);
    } else {
        assert(kept(queue, watermark)[0] == queue[n]);
        assert(queue[n].selection.1.at_or_before(queue[i].selection.1));
    }
}

/// A watermark that is no valid selection bounds nothing: the request takes
/// the whole queue, wherever its ranges lie.
pub proof fn lemma_wildcard_serves_all(queue: Seq<Range>, watermark: Selection)
    requires
        !watermark.valid(),
    ensures
        served(queue, watermark) == queue,
        kept(queue, watermark) == Seq::<Range>::empty(),
{
    lemma_served_len_bound(queue, watermark);
    lemma_served_maximal(queue, watermark, queue.len() as int);
}

/// From an empty queue a request takes nothing. So a queue that is
/// finished stays finished, whatever is asked of it, and each answer is
/// empty.
pub proof fn lemma_empty_queue_serves_nothing(watermark: Selection)
    ensures
        served(Seq::<Range>::empty(), watermark) == Seq::<Range>::empty(),
        kept(Seq::<Range>::empty(), watermark) == Seq::<Range>::empty(),
        ranges_text(served(Seq::<Range>::empty(), watermark)) == Seq::<char>::empty(),
{
}

/// Two requests in a row take neighbouring stretches of the queue: the
/// second begins where the first ended, so no range is handed out twice.
pub proof fn lemma_successive_requests_disjoint(
    queue: Seq<Range>,
    first: Selection,
    second: Selection,
)
    ensures
        ({
            let n1 = served_len(queue, first) as int;
            let n2 = served_len(kept(queue, first), second) as int;
            &&& n1 + n2 <= queue.len()
            &&& served(queue, first) == queue.subrange(0, n1)
            &&& served(kept(queue, first), second) == queue.subrange(n1, n1 + n2)
            &&& kept(kept(queue, first), second) == queue.skip(n1 + n2)
        }),
{
    lemma_served_len_bound(queue, first);
    lemma_served_len_bound(kept(queue, first), second);
    let n1 = served_len(queue, first) as int;
    let n2 = served_len(kept(queue, first), second) as int;
    assert(served(kept(queue, first), second) == queue.subrange(n1, n1 + n2));
    assert(kept(kept(queue, first), second) == queue.skip(n1 + n2));
}

/// The ranges as the server writes them: each as its text, with one space
/// between neighbours. No ranges give the empty text.
pub open spec fn ranges_text(ranges: Seq<Range>) -> Seq<char>
    decreases ranges.len(),
{
    if ranges.len() == 0 {
        Seq::empty()
    } else if ranges.len() == 1 {
        ranges[0].text()
    } else {
        ranges_text(ranges.drop_last()) + seq![' '] + ranges.last().text()
    }
}

/// Writes the ranges as text, with one space between neighbours.
pub fn format_ranges(ranges: &Vec<Range>) -> (text: String)
    ensures
        text@ == ranges_text(ranges@),
{
    let mut text = String::new();
    let mut i: usize = 0;
    while i < ranges.len()
        invariant
            i <= ranges.len(),
            text@ == ranges_text(ranges@.take(i as int)),
        decreases ranges.len() - i,
    {
        if i != 0 {
            text.push(' ');
        }
        ranges[i].write_to(&mut text);
        proof {
            let now = ranges@.take(i as int + 1);
            assert(now.drop_last() == ranges@.take(i as int));
            assert(now.last() == ranges@[i as int]);
            assert(text@ =~= ranges_text(now));
        }
        i = i + 1;
    }
    assert(ranges@.take(ranges.len() as int) == ranges@);
    text
}

/// A request as it goes over the socket: one byte that holds the length of
/// the selection's text, then the text.
pub open spec fn request_frame(range: Seq<u8>) -> Seq<u8>
    recommends
        range.len() <= u8::MAX,
{
    seq![range.len() as u8] + range
}

/// Puts a request together from the text of a selection. A text of more
/// than 255 bytes has no request: its length does not fit in the first
/// byte.
pub fn encode_request(range: &str) -> (frame: Option<Vec<u8>>)
    ensures
        match frame {
            Some(f) => range.spec_bytes().len() <= u8::MAX && f@ == request_frame(
                range.spec_bytes(),
            ),
            None => range.spec_bytes().len() > u8::MAX,
        },
{
    let text = range.as_bytes();
    if text.len() > u8::MAX as usize {
        return None;
    }
    let mut frame: Vec<u8> = Vec::with_capacity(text.len() + 1);
    frame.push(text.len() as u8);
    frame.extend_from_slice(text);
    assert(frame@ =~= request_frame(range.spec_bytes()));
    Some(frame)
}

/// What the editor is told to do with the server's answer: nothing for an
/// empty answer, and else to add the ranges to the buffer's highlighter.
pub open spec fn update_command(response: Seq<char>) -> Seq<char> {
    if response.len() == 0 {
        "nop"@
    } else {
        "update-option buffer kakpipe_color_ranges\nset-option -add buffer kakpipe_color_ranges "@
            + response
    }
}

/// The command for the editor that goes with the server's answer.
pub fn highlight_command(response: &str) -> (command: String)
    ensures
        command@ == update_command(response@),
{
    let mut command = String::new();
    if response.is_empty() {
        command.push_str("nop");
    } else {
        command.push_str(
            "update-option buffer kakpipe_color_ranges\nset-option -add buffer kakpipe_color_ranges ",
        );
        command.push_str(response);
    }
    command
}

/// What the server answers to one request.
#[derive(Debug)]
pub struct Reply {
    /// The ranges handed out, as text; empty where there is nothing new.
    pub text: String,
    /// The output has ended and the queue is empty: the server stops after
    /// this answer.
    pub finished: bool,
}

impl Range {
    pub fn is_within(&self, watermark: &Selection) -> (within: bool)
        ensures
            within == self::within(*self, *watermark),
    {
        !watermark.is_valid() || self.selection.1.is_at_or_before(&watermark.1)
    }
}

/// What the relay and the server share: the ranges not yet handed out, in
/// the order in which the relay found them, and whether the relay has seen
/// the end of the command's output.
///
/// Whoever shares it keeps it behind one lock, so that "the output has ended
/// and nothing is left" is decided on one state.
pub struct SharedRanges {
    ranges: VecDeque<Range>,
    fifo_end: bool,
}

impl SharedRanges {
    /// The ranges waiting to be handed out, oldest first.
    pub closed spec fn queue(&self) -> Seq<Range> {
        self.ranges@
    }

    /// The relay has seen the end of the output.
    pub closed spec fn producer_done(&self) -> bool {
        self.fifo_end
    }

    /// The output has ended and every range has been handed out.
    pub open spec fn finished(&self) -> bool {
        self.producer_done() && self.queue().len() == 0
    }

    pub fn new() -> (shared: SharedRanges)
        ensures
            shared.queue() == Seq::<Range>::empty(),
            !shared.producer_done(),
    {
        SharedRanges { ranges: VecDeque::new(), fifo_end: false }
    }

    /// Puts a range at the end of the queue.
    pub fn append(&mut self, range: Range)
        ensures
            final(self).queue() == old(self).queue().push(range),
            final(self).producer_done() == old(self).producer_done(),
    {
        self.ranges.push_back(range);
    }

    /// Puts the ranges at the end of the queue, in their order.
    pub fn append_all(&mut self, ranges: &Vec<Range>)
        ensures
            final(self).queue() == old(self).queue() + ranges@,
            final(self).producer_done() == old(self).producer_done(),
    {
        let mut i: usize = 0;
        while i < ranges.len()
            invariant
                i <= ranges.len(),
                self.ranges@ == old(self).ranges@ + ranges@.take(i as int),
                self.fifo_end == old(self).fifo_end,
            decreases ranges.len() - i,
        {
            self.ranges.push_back(ranges[i]);
            assert(ranges@.take(i as int + 1) == ranges@.take(i as int).push(ranges@[i as int]));
            i = i + 1;
        }
        assert(ranges@.take(ranges.len() as int) == ranges@);
    }

    /// Records that the output has ended: no range will follow.
    pub fn close(&mut self)
        ensures
            final(self).queue() == old(self).queue(),
            final(self).producer_done(),
    {
        self.fifo_end = true;
    }

    pub fn len(&self) -> (len: usize)
        ensures
            len == self.queue().len(),
    {
        self.ranges.len()
    }

    pub fn is_finished(&self) -> (finished: bool)
        ensures
            finished == self.finished(),
    {
        self.fifo_end && self.ranges.len() == 0
    }

    /// Takes from the head of the queue the ranges that lie within
    /// `watermark`, up to the first one that does not, and says whether the
    /// queue is finished after that.
    pub fn drain_up_to(&mut self, watermark: &Selection) -> (out: (Vec<Range>, bool))
        ensures
            out.0@ == served(old(self).queue(), *watermark),
            final(self).queue() == kept(old(self).queue(), *watermark),
            final(self).producer_done() == old(self).producer_done(),
            out.1 == final(self).finished(),
    {
        let mut drained: Vec<Range> = Vec::new();
        while self.ranges.len() > 0 && self.ranges[0].is_within(watermark)
            invariant
                self.fifo_end == old(self).fifo_end,
                drained@ + self.ranges@ == old(self).ranges@,
                drained@.len() + served_len(self.ranges@, *watermark) == served_len(
                    old(self).ranges@,
                    *watermark,
                ),
            decreases self.ranges@.len(),
        {
            let ghost before = self.ranges@;
            let front = self.ranges.pop_front();
            assert(self.ranges@ == before.drop_first());
            match front {
                Some(range) => {
                    drained.push(range);
                },
                None => {},
            }
            assert(drained@ + self.ranges@ == old(self).ranges@);
        }
        proof {
            let n = drained@.len() as int;
            assert(old(self).ranges@.take(n) == drained@);
            assert(old(self).ranges@.skip(n) == self.ranges@);
        }
        let finished = self.fifo_end && self.ranges.len() == 0;
        (drained, finished)
    }

    /// Answers one request of a client. The request is the text of the
    /// selection that the client has displayed so far; the answer holds the
    /// ranges up to its end, which leave the queue.
    pub fn serve(&mut self, request: &[u8]) -> (reply: Reply)
        ensures
            reply.text@ == ranges_text(served(old(self).queue(), parse_selection(request@))),
            final(self).queue() == kept(old(self).queue(), parse_selection(request@)),
            final(self).producer_done() == old(self).producer_done(),
            reply.finished == final(self).finished(),
    {
        let watermark = Selection::parse(request);
        let (ranges, finished) = self.drain_up_to(&watermark);
        Reply { text: format_ranges(&ranges), finished }
    }
}

} // verus!
