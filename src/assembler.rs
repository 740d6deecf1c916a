//! The message assembler: folds the ordered events of one stream into the message
//! being produced, and yields the text each event adds.

use vstd::prelude::*;
use vstd::string::*;

use crate::anthropic_types::{ContentBlock, EventKind, MessageResponse, StreamEvent, Usage};
use crate::error::{ProtocolViolation, StreamError, ViolationReason};

verus! {

/// Where the assembler stands in the life of one streamed message.
#[derive(Debug, Clone, Copy, PartialEq, Eq, Structural)]
pub enum Phase {
    Idle,
    Streaming,
    Done,
    Failed,
}

/// A content block as characters.
pub struct BlockSpec {
    pub index: usize,
    pub text: Seq<char>,
    pub closed: bool,
}

/// The message being assembled, as characters.
pub struct MessageSpec {
    pub id: Seq<char>,
    pub role: Seq<char>,
    pub model: Seq<char>,
    pub blocks: Seq<BlockSpec>,
    pub stop_reason: Option<Seq<char>>,
    pub stop_sequence: Option<Seq<char>>,
    pub usage: Usage,
}

/// The state of an assembler.
pub struct AssemblerState {
    pub phase: Phase,
    pub message: Option<MessageSpec>,
}

/// What one event yields: the text to hand on, if any, or the violation it is.
pub type StepResult = Result<Option<Seq<char>>, ProtocolViolation>;

pub open spec fn opt_text(o: Option<String>) -> Option<Seq<char>> {
    match o {
        Some(s) => Some(s@),
        None => None,
    }
}

/// `new` where it is present, `old` otherwise.
pub open spec fn or_keep<T>(new: Option<T>, old: Option<T>) -> Option<T> {
    match new {
        Some(v) => Some(v),
        None => old,
    }
}

/// Whether a block was started at `index`.
pub open spec fn has_block(blocks: Seq<BlockSpec>, index: usize) -> bool {
    exists|j: int| 0 <= j < blocks.len() && #[trigger] blocks[j].index == index
}

/// The position of the block started at `index`.
pub open spec fn block_pos(blocks: Seq<BlockSpec>, index: usize) -> int {
    choose|j: int| 0 <= j < blocks.len() && #[trigger] blocks[j].index == index
}

/// No two blocks share an index.
pub open spec fn unique_indices(blocks: Seq<BlockSpec>) -> bool {
    forall|a: int, b: int|
        #![trigger blocks[a].index, blocks[b].index]
        0 <= a < blocks.len() && 0 <= b < blocks.len() && blocks[a].index == blocks[b].index
            ==> a == b
}

/// The text of the block started at `index`, if there is one.
pub open spec fn block_text(m: MessageSpec, index: usize) -> Option<Seq<char>> {
    if has_block(m.blocks, index) {
        Some(m.blocks[block_pos(m.blocks, index)].text)
    } else {
        None
    }
}

/// The message a stream starts from: the snapshot's fields, its blocks at indices 0, 1, ...
pub open spec fn snapshot(m: MessageResponse) -> MessageSpec {
    MessageSpec {
        id: m.id@,
        role: m.role@,
        model: m.model@,
        blocks: Seq::new(
            m.content@.len(),
            |i: int| BlockSpec { index: i as usize, text: m.content@[i].text@, closed: false },
        ),
        stop_reason: opt_text(m.stop_reason),
        stop_sequence: opt_text(m.stop_sequence),
        usage: m.usage,
    }
}

pub open spec fn streaming(m: MessageSpec) -> AssemblerState {
    AssemblerState { phase: Phase::Streaming, message: Some(m) }
}

/// The assembler fails on an event of kind `k`, for `reason`.
pub open spec fn violation(s: AssemblerState, k: EventKind, reason: ViolationReason) -> (
    AssemblerState,
    StepResult,
) {
    (
        AssemblerState { phase: Phase::Failed, message: s.message },
        Err(ProtocolViolation { event: k, phase: s.phase, reason }),
    )
}

pub open spec fn with_blocks(m: MessageSpec, blocks: Seq<BlockSpec>) -> MessageSpec {
    MessageSpec { blocks, ..m }
}

/// An event other than a ping or a message start, applied to the message being streamed.
pub open spec fn streaming_step(s: AssemblerState, m: MessageSpec, e: StreamEvent) -> (
    AssemblerState,
    StepResult,
) {
    match e {
        StreamEvent::ContentBlockStart { index, content_block } => {
            if has_block(m.blocks, index) {
                violation(s, EventKind::ContentBlockStart, ViolationReason::DuplicateIndex)
            } else {
                let seed = content_block.text@;
                (
                    streaming(
                        with_blocks(
                            m,
                            m.blocks.push(BlockSpec { index, text: seed, closed: false }),
                        ),
                    ),
                    Ok(
                        if seed.len() > 0 {
                            Some(seed)
                        } else {
                            None
                        },
                    ),
                )
            }
        },
        StreamEvent::ContentBlockDelta { index, delta } => {
            if !has_block(m.blocks, index) {
                violation(s, EventKind::ContentBlockDelta, ViolationReason::UnknownIndex)
            } else {
                let j = block_pos(m.blocks, index);
                let b = m.blocks[j];
                (
                    streaming(
                        with_blocks(m, m.blocks.update(j, BlockSpec { text: b.text + delta.text@, ..b })),
                    ),
                    Ok(Some(delta.text@)),
                )
            }
        },
        StreamEvent::ContentBlockStop { index } => {
            if !has_block(m.blocks, index) {
                violation(s, EventKind::ContentBlockStop, ViolationReason::UnknownIndex)
            } else {
                let j = block_pos(m.blocks, index);
                let b = m.blocks[j];
                (
                    streaming(with_blocks(m, m.blocks.update(j, BlockSpec { closed: true, ..b }))),
                    Ok(None),
                )
            }
        },
        StreamEvent::MessageDelta { delta } => (
            streaming(
                MessageSpec {
                    stop_reason: or_keep(opt_text(delta.stop_reason), m.stop_reason),
                    stop_sequence: or_keep(opt_text(delta.stop_sequence), m.stop_sequence),
                    usage: Usage {
                        input_tokens: or_keep(delta.usage.input_tokens, m.usage.input_tokens),
                        output_tokens: or_keep(delta.usage.output_tokens, m.usage.output_tokens),
                    },
                    ..m
                },
            ),
            Ok(None),
        ),
        StreamEvent::MessageStop => (
            AssemblerState { phase: Phase::Done, message: Some(m) },
            Ok(None),
        ),
        _ => (s, Ok(None)),
    }
}

/// One event applied to the assembler.
/// - a ping is ignored in every phase;
/// - a message start is allowed only while idle, and starts streaming from its snapshot;
/// - every other event is allowed only while streaming;
/// - an event that is not allowed fails the assembler, which then refuses all but pings.
pub open spec fn step(s: AssemblerState, e: StreamEvent) -> (AssemblerState, StepResult) {
    match e {
        StreamEvent::Ping => (s, Ok(None)),
        StreamEvent::MessageStart { message } => {
            if s.phase == Phase::Idle {
                (streaming(snapshot(message)), Ok(None))
            } else {
                violation(s, EventKind::MessageStart, ViolationReason::IllegalTransition)
            }
        },
        _ => {
            if s.phase == Phase::Streaming && s.message is Some {
                streaming_step(s, s.message->0, e)
            } else {
                violation(s, e.spec_kind(), ViolationReason::IllegalTransition)
            }
        },
    }
}

/// The state after applying `evs` in order.
pub open spec fn run(s: AssemblerState, evs: Seq<StreamEvent>) -> AssemblerState
    decreases evs.len(),
{
    if evs.len() == 0 {
        s
    } else {
        step(run(s, evs.drop_last()), evs.last()).0
    }
}

/// The texts of the deltas in `evs` addressed to `index`, concatenated in arrival order.
pub open spec fn delta_text_for(evs: Seq<StreamEvent>, index: usize) -> Seq<char>
    decreases evs.len(),
{
    if evs.len() == 0 {
        Seq::empty()
    } else {
        let earlier = delta_text_for(evs.drop_last(), index);
        match evs.last() {
            StreamEvent::ContentBlockDelta { index: i, delta } => {
                if i == index {
                    earlier + delta.text@
                } else {
                    earlier
                }
            },
            _ => earlier,
        }
    }
}

/// Every event of `evs` is a delta to a block started in `m`.
pub open spec fn deltas_to_started(m: MessageSpec, evs: Seq<StreamEvent>) -> bool {
    forall|i: int|
        0 <= i < evs.len() ==> (#[trigger] evs[i] matches StreamEvent::ContentBlockDelta {
            index,
            ..
        } && has_block(m.blocks, index))
}

/// Two block lists that hold the same indices at the same positions.
pub open spec fn same_layout(a: Seq<BlockSpec>, b: Seq<BlockSpec>) -> bool {
    a.len() == b.len() && forall|j: int| 0 <= j < a.len() ==> #[trigger] a[j].index == b[j].index
}

proof fn lemma_block_pos_unique(bs: Seq<BlockSpec>, index: usize, j: int)
    requires
        unique_indices(bs),
        0 <= j < bs.len(),
        bs[j].index == index,
    ensures
        has_block(bs, index),
        block_pos(bs, index) == j,
{
    assert(has_block(bs, index));
    let p = block_pos(bs, index);
    assert(bs[p].index == bs[j].index);
}

/// Applying `a` and then `b` is applying `a + b`.
pub proof fn lemma_run_concat(s: AssemblerState, a: Seq<StreamEvent>, b: Seq<StreamEvent>)
    ensures
        run(s, a + b) == run(run(s, a), b),
    decreases b.len(),
{
    if b.len() == 0 {
        assert(a + b =~= a);
    } else {
        lemma_run_concat(s, a, b.drop_last());
        assert((a + b).drop_last() =~= a + b.drop_last());
        assert((a + b).last() == b.last());
    }
}

/// Deltas to started blocks, however interleaved across indices, keep the assembler
/// streaming, keep its blocks where they are, and leave in each block its earlier
/// text followed by the deltas addressed to that block's index, in arrival order.
pub proof fn lemma_interleaved_deltas(m: MessageSpec, evs: Seq<StreamEvent>)
    requires
        unique_indices(m.blocks),
        deltas_to_started(m, evs),
    ensures
        run(streaming(m), evs).phase == Phase::Streaming,
        run(streaming(m), evs).message matches Some(m2) && {
            &&& unique_indices(m2.blocks)
            &&& same_layout(m.blocks, m2.blocks)
            &&& forall|index: usize|
                has_block(m.blocks, index) ==> #[trigger] block_text(m2, index) == Some(
                    block_text(m, index)->0 + delta_text_for(evs, index),
                )
        },
    decreases evs.len(),
{
    if evs.len() == 0 {
        assert forall|index: usize| has_block(m.blocks, index) implies #[trigger] block_text(
            m,
            index,
        ) == Some(block_text(m, index)->0 + delta_text_for(evs, index)) by {
            assert(block_text(m, index)->0 + Seq::<char>::empty() =~= block_text(m, index)->0);
        }
    } else {
        let prefix = evs.drop_last();
        assert forall|i: int| 0 <= i < prefix.len() implies (#[trigger] prefix[i]
            matches StreamEvent::ContentBlockDelta { index, .. } && has_block(m.blocks, index)) by {
            assert(prefix[i] == evs[i]);
        }
        lemma_interleaved_deltas(m, prefix);
        let s1 = run(streaming(m), prefix);
        let m1 = s1.message->0;
        let e = evs.last();
        assert(evs[evs.len() - 1] == e);
        let i = e->ContentBlockDelta_index;
        let d = e->ContentBlockDelta_delta;
        let w = choose|w: int| 0 <= w < m.blocks.len() && #[trigger] m.blocks[w].index == i;
        assert(m1.blocks[w].index == i);
        lemma_block_pos_unique(m1.blocks, i, w);
        let b = m1.blocks[w];
        let nb = m1.blocks.update(w, BlockSpec { text: b.text + d.text@, ..b });
        let m2 = with_blocks(m1, nb);
        assert(run(streaming(m), evs) == streaming(m2));
        assert forall|x: int, y: int|
            #![trigger nb[x].index, nb[y].index]
            0 <= x < nb.len() && 0 <= y < nb.len() && nb[x].index == nb[y].index implies x == y by {
            assert(nb[x].index == m1.blocks[x].index);
            assert(nb[y].index == m1.blocks[y].index);
        }
        assert forall|j: int| 0 <= j < m.blocks.len() implies #[trigger] m.blocks[j].index
            == nb[j].index by {
            assert(m1.blocks[j].index == m.blocks[j].index);
        }
        assert forall|index: usize| has_block(m.blocks, index) implies #[trigger] block_text(
            m2,
            index,
        ) == Some(block_text(m, index)->0 + delta_text_for(evs, index)) by {
            let p = choose|p: int| 0 <= p < m.blocks.len() && #[trigger] m.blocks[p].index == index;
            assert(m1.blocks[p].index == index);
            assert(nb[p].index == index);
            lemma_block_pos_unique(m1.blocks, index, p);
            lemma_block_pos_unique(nb, index, p);
            assert(block_text(m1, index) == Some(
                block_text(m, index)->0 + delta_text_for(prefix, index),
            ));
            if index == i {
                assert(p == w);
                assert((block_text(m, index)->0 + delta_text_for(prefix, index)) + d.text@
                    =~= block_text(m, index)->0 + (delta_text_for(prefix, index) + d.text@));
            } else {
                assert(p != w);
                assert(nb[p] == m1.blocks[p]);
            }
        }
    }
}

/// A block started at a fresh index and then sent only deltas addressed to it holds
/// its seed text followed by the deltas' texts, concatenated in arrival order.
pub proof fn lemma_block_text_is_concatenation(
    m: MessageSpec,
    index: usize,
    block: ContentBlock,
    deltas: Seq<StreamEvent>,
)
    requires
        unique_indices(m.blocks),
        !has_block(m.blocks, index),
        forall|i: int|
            0 <= i < deltas.len() ==> (#[trigger] deltas[i] matches StreamEvent::ContentBlockDelta {
                index: k,
                ..
            } && k == index),
    ensures
        run(
            streaming(m),
            seq![StreamEvent::ContentBlockStart { index, content_block: block }] + deltas,
        ).message matches Some(m2) && block_text(m2, index) == Some(
            block.text@ + delta_text_for(deltas, index),
        ),
{
    let start = seq![StreamEvent::ContentBlockStart { index, content_block: block }];
    lemma_run_concat(streaming(m), start, deltas);
    assert(start.drop_last() =~= Seq::<StreamEvent>::empty());
    assert(run(streaming(m), start.drop_last()) == streaming(m));
    assert(start.last() == StreamEvent::ContentBlockStart { index, content_block: block });
    assert(!has_block(streaming(m).message->0.blocks, index));
    let nb = m.blocks.push(BlockSpec { index, text: block.text@, closed: false });
    let m1 = with_blocks(m, nb);
    assert(run(streaming(m), start) == streaming(m1));
    assert forall|x: int, y: int|
        #![trigger nb[x].index, nb[y].index]
        0 <= x < nb.len() && 0 <= y < nb.len() && nb[x].index == nb[y].index implies x == y by {
        if x < m.blocks.len() {
            assert(nb[x] == m.blocks[x]);
        }
        if y < m.blocks.len() {
            assert(nb[y] == m.blocks[y]);
        }
    }
    let last = m.blocks.len() as int;
    assert(nb[last].index == index);
    lemma_block_pos_unique(nb, index, last);
    assert forall|i: int| 0 <= i < deltas.len() implies (#[trigger] deltas[i]
        matches StreamEvent::ContentBlockDelta { index, .. } && has_block(m1.blocks, index)) by {
        assert(has_block(nb, index));
    }
    lemma_interleaved_deltas(m1, deltas);
}

/// Every event of `evs` is taken from `s` without a violation.
pub open spec fn runs_clean(s: AssemblerState, evs: Seq<StreamEvent>) -> bool
    decreases evs.len(),
{
    evs.len() == 0 || (runs_clean(s, evs.drop_last()) && step(run(s, evs.drop_last()), evs.last()).1 is Ok)
}

/// The seed text of the latest start of a block at `index` in `evs` (empty if there is none).
pub open spec fn seed_for(evs: Seq<StreamEvent>, index: usize) -> Seq<char>
    decreases evs.len(),
{
    if evs.len() == 0 {
        Seq::empty()
    } else {
        match evs.last() {
            StreamEvent::ContentBlockStart { index: i, content_block } => {
                if i == index {
                    content_block.text@
                } else {
                    seed_for(evs.drop_last(), index)
                }
            },
            _ => seed_for(evs.drop_last(), index),
        }
    }
}

/// The text a block at `index` starts from: its text in `m` if it is there already,
/// otherwise the seed it is started with in `evs`.
pub open spec fn base_text(m: MessageSpec, evs: Seq<StreamEvent>, index: usize) -> Seq<char> {
    if has_block(m.blocks, index) {
        block_text(m, index)->0
    } else {
        seed_for(evs, index)
    }
}

proof fn lemma_unique_push(bs: Seq<BlockSpec>, nb: BlockSpec)
    requires
        unique_indices(bs),
        !has_block(bs, nb.index),
    ensures
        unique_indices(bs.push(nb)),
{
    let nbs = bs.push(nb);
    assert forall|x: int, y: int|
        #![trigger nbs[x].index, nbs[y].index]
        0 <= x < nbs.len() && 0 <= y < nbs.len() && nbs[x].index == nbs[y].index implies x == y by {
        if x < bs.len() {
            assert(nbs[x] == bs[x]);
        }
        if y < bs.len() {
            assert(nbs[y] == bs[y]);
        }
    }
}

proof fn lemma_unique_update(bs: Seq<BlockSpec>, w: int, nb: BlockSpec)
    requires
        unique_indices(bs),
        0 <= w < bs.len(),
        nb.index == bs[w].index,
    ensures
        unique_indices(bs.update(w, nb)),
        same_layout(bs, bs.update(w, nb)),
{
    let nbs = bs.update(w, nb);
    assert forall|x: int, y: int|
        #![trigger nbs[x].index, nbs[y].index]
        0 <= x < nbs.len() && 0 <= y < nbs.len() && nbs[x].index == nbs[y].index implies x == y by {
        assert(nbs[x].index == bs[x].index);
        assert(nbs[y].index == bs[y].index);
    }
    assert forall|j: int| 0 <= j < bs.len() implies #[trigger] bs[j].index == nbs[j].index by {}
}

/// In any run of events taken without a violation from a message being streamed (block
/// starts, deltas, stops, pings, message deltas, and a final stop, in any order the
/// protocol allows), each block ends up holding the text it started from followed by the
/// deltas addressed to its index, concatenated in arrival order; deltas to other indices,
/// however interleaved, do not touch it, and no delta is addressed to an index without a block.
pub proof fn lemma_stream_block_text(m: MessageSpec, evs: Seq<StreamEvent>)
    requires
        unique_indices(m.blocks),
        runs_clean(streaming(m), evs),
    ensures
        run(streaming(m), evs).phase == Phase::Streaming || run(streaming(m), evs).phase == Phase::Done,
        run(streaming(m), evs).message matches Some(mf) && {
            &&& unique_indices(mf.blocks)
            &&& forall|k: usize| has_block(m.blocks, k) ==> has_block(mf.blocks, k)
            &&& forall|k: usize|
                !has_block(mf.blocks, k) ==> #[trigger] delta_text_for(evs, k) == Seq::<char>::empty()
            &&& forall|k: usize|
                has_block(mf.blocks, k) ==> #[trigger] block_text(mf, k) == Some(
                    base_text(m, evs, k) + delta_text_for(evs, k),
                )
        },
    decreases evs.len(),
{
    if evs.len() == 0 {
        assert forall|k: usize| has_block(m.blocks, k) implies #[trigger] block_text(m, k) == Some(
            base_text(m, evs, k) + delta_text_for(evs, k),
        ) by {
            assert(base_text(m, evs, k) + Seq::<char>::empty() =~= base_text(m, evs, k));
        }
    } else {
        let prefix = evs.drop_last();
        lemma_stream_block_text(m, prefix);
        let s1 = run(streaming(m), prefix);
        let m1 = s1.message->0;
        let e = evs.last();
        assert(run(streaming(m), evs) == step(s1, e).0);
        assert(step(s1, e).1 is Ok);
        if e is Ping {
            assert forall|k: usize| has_block(m1.blocks, k) implies #[trigger] block_text(m1, k) == Some(
                base_text(m, evs, k) + delta_text_for(evs, k),
            ) by {
                assert(block_text(m1, k) == Some(base_text(m, prefix, k) + delta_text_for(prefix, k)));
            }
            assert forall|k: usize| !has_block(m1.blocks, k) implies #[trigger] delta_text_for(evs, k)
                == Seq::<char>::empty() by {
                assert(delta_text_for(prefix, k) == Seq::<char>::empty());
            }
        } else {
            assert(!(e is MessageStart));
            assert(s1.phase == Phase::Streaming);
            let sf = step(s1, e).0;
            let mf = sf.message->0;
            match e {
                StreamEvent::ContentBlockStart { index: i, content_block } => {
                    assert(!has_block(m1.blocks, i));
                    let nb = BlockSpec { index: i, text: content_block.text@, closed: false };
                    assert(mf.blocks == m1.blocks.push(nb));
                    lemma_unique_push(m1.blocks, nb);
                    let last = m1.blocks.len() as int;
                    assert(mf.blocks[last] == nb);
                    lemma_block_pos_unique(mf.blocks, i, last);
                    assert forall|k: usize| has_block(m.blocks, k) implies has_block(mf.blocks, k) by {
                        assert(has_block(m1.blocks, k));
                        let p = choose|p: int| 0 <= p < m1.blocks.len() && #[trigger] m1.blocks[p].index == k;
                        assert(mf.blocks[p] == m1.blocks[p]);
                    }
                    assert forall|k: usize| !has_block(mf.blocks, k) implies #[trigger] delta_text_for(evs, k)
                        == Seq::<char>::empty() by {
                        if has_block(m1.blocks, k) {
                            let p = choose|p: int| 0 <= p < m1.blocks.len() && #[trigger] m1.blocks[p].index == k;
                            assert(mf.blocks[p] == m1.blocks[p]);
                        }
                        assert(delta_text_for(prefix, k) == Seq::<char>::empty());
                    }
                    assert forall|k: usize| has_block(mf.blocks, k) implies #[trigger] block_text(mf, k) == Some(
                        base_text(m, evs, k) + delta_text_for(evs, k),
                    ) by {
                        if k == i {
                            assert(!has_block(m.blocks, i));
                            assert(delta_text_for(prefix, k) == Seq::<char>::empty());
                            assert(content_block.text@ + Seq::<char>::empty() =~= content_block.text@);
                        } else {
                            let q = choose|q: int| 0 <= q < mf.blocks.len() && #[trigger] mf.blocks[q].index == k;
                            assert(q < last);
                            assert(mf.blocks[q] == m1.blocks[q]);
                            lemma_block_pos_unique(m1.blocks, k, q);
                            lemma_block_pos_unique(mf.blocks, k, q);
                            assert(block_text(m1, k) == Some(base_text(m, prefix, k) + delta_text_for(prefix, k)));
                        }
                    }
                },
                StreamEvent::ContentBlockDelta { index: i, delta: d } => {
                    assert(has_block(m1.blocks, i));
                    let w = block_pos(m1.blocks, i);
                    let b = m1.blocks[w];
                    let nb = BlockSpec { text: b.text + d.text@, ..b };
                    assert(mf.blocks == m1.blocks.update(w, nb));
                    lemma_unique_update(m1.blocks, w, nb);
                    assert forall|k: usize| has_block(m.blocks, k) implies has_block(mf.blocks, k) by {
                        assert(has_block(m1.blocks, k));
                        let p = choose|p: int| 0 <= p < m1.blocks.len() && #[trigger] m1.blocks[p].index == k;
                        assert(mf.blocks[p].index == k);
                    }
                    assert forall|k: usize| !has_block(mf.blocks, k) implies #[trigger] delta_text_for(evs, k)
                        == Seq::<char>::empty() by {
                        if has_block(m1.blocks, k) {
                            let p = choose|p: int| 0 <= p < m1.blocks.len() && #[trigger] m1.blocks[p].index == k;
                            assert(mf.blocks[p].index == k);
                        }
                        assert(delta_text_for(prefix, k) == Seq::<char>::empty());
                    }
                    assert forall|k: usize| has_block(mf.blocks, k) implies #[trigger] block_text(mf, k) == Some(
                        base_text(m, evs, k) + delta_text_for(evs, k),
                    ) by {
                        let q = choose|q: int| 0 <= q < mf.blocks.len() && #[trigger] mf.blocks[q].index == k;
                        assert(m1.blocks[q].index == k);
                        lemma_block_pos_unique(m1.blocks, k, q);
                        lemma_block_pos_unique(mf.blocks, k, q);
                        assert(block_text(m1, k) == Some(base_text(m, prefix, k) + delta_text_for(prefix, k)));
                        if k == i {
                            assert(q == w);
                            assert((base_text(m, prefix, k) + delta_text_for(prefix, k)) + d.text@
                                =~= base_text(m, prefix, k) + (delta_text_for(prefix, k) + d.text@));
                        } else {
                            assert(mf.blocks[q] == m1.blocks[q]);
                        }
                    }
                },
                StreamEvent::ContentBlockStop { index: i } => {
                    assert(has_block(m1.blocks, i));
                    let w = block_pos(m1.blocks, i);
                    let b = m1.blocks[w];
                    let nb = BlockSpec { closed: true, ..b };
                    assert(mf.blocks == m1.blocks.update(w, nb));
                    lemma_unique_update(m1.blocks, w, nb);
                    assert forall|k: usize| has_block(m.blocks, k) implies has_block(mf.blocks, k) by {
                        assert(has_block(m1.blocks, k));
                        let p = choose|p: int| 0 <= p < m1.blocks.len() && #[trigger] m1.blocks[p].index == k;
                        assert(mf.blocks[p].index == k);
                    }
                    assert forall|k: usize| !has_block(mf.blocks, k) implies #[trigger] delta_text_for(evs, k)
                        == Seq::<char>::empty() by {
                        if has_block(m1.blocks, k) {
                            let p = choose|p: int| 0 <= p < m1.blocks.len() && #[trigger] m1.blocks[p].index == k;
                            assert(mf.blocks[p].index == k);
                        }
                        assert(delta_text_for(prefix, k) == Seq::<char>::empty());
                    }
                    assert forall|k: usize| has_block(mf.blocks, k) implies #[trigger] block_text(mf, k) == Some(
                        base_text(m, evs, k) + delta_text_for(evs, k),
                    ) by {
                        let q = choose|q: int| 0 <= q < mf.blocks.len() && #[trigger] mf.blocks[q].index == k;
                        assert(m1.blocks[q].index == k);
                        lemma_block_pos_unique(m1.blocks, k, q);
                        lemma_block_pos_unique(mf.blocks, k, q);
                        assert(block_text(m1, k) == Some(base_text(m, prefix, k) + delta_text_for(prefix, k)));
                        assert(mf.blocks[q].text == m1.blocks[q].text);
                    }
                },
                _ => {
                    assert(mf.blocks == m1.blocks);
                    assert forall|k: usize| has_block(mf.blocks, k) implies #[trigger] block_text(mf, k) == Some(
                        base_text(m, evs, k) + delta_text_for(evs, k),
                    ) by {
                        assert(block_text(m1, k) == Some(base_text(m, prefix, k) + delta_text_for(prefix, k)));
                    }
                    assert forall|k: usize| !has_block(mf.blocks, k) implies #[trigger] delta_text_for(evs, k)
                        == Seq::<char>::empty() by {
                        assert(delta_text_for(prefix, k) == Seq::<char>::empty());
                    }
                },
            }
        }
    }
}

/// Whether `e` is a delta addressed to `index`.
pub open spec fn is_delta_to(e: StreamEvent, index: usize) -> bool {
    e matches StreamEvent::ContentBlockDelta { index: i, .. } && i == index
}

/// The deltas of `evs` addressed to `index`, in arrival order.
pub open spec fn deltas_to(evs: Seq<StreamEvent>, index: usize) -> Seq<StreamEvent> {
    evs.filter(|e: StreamEvent| is_delta_to(e, index))
}

proof fn lemma_delta_text_of_own_deltas(evs: Seq<StreamEvent>, index: usize)
    ensures
        delta_text_for(evs, index) == delta_text_for(deltas_to(evs, index), index),
    decreases evs.len(),
{
    if evs.len() > 0 {
        lemma_delta_text_of_own_deltas(evs.drop_last(), index);
        let own = deltas_to(evs.drop_last(), index);
        reveal(Seq::filter);
        if is_delta_to(evs.last(), index) {
            assert(deltas_to(evs, index) == own.push(evs.last()));
            assert(own.push(evs.last()).drop_last() =~= own);
        } else {
            assert(deltas_to(evs, index) == own);
        }
    }
}

/// Two runs taken without a violation from the same message, with the same block starts
/// and, for each index, the same deltas in the same order, leave every block they both hold
/// with the same text, however the deltas to distinct indices were interleaved.
pub proof fn lemma_interleaving_irrelevant(
    m: MessageSpec,
    evs1: Seq<StreamEvent>,
    evs2: Seq<StreamEvent>,
)
    requires
        unique_indices(m.blocks),
        runs_clean(streaming(m), evs1),
        runs_clean(streaming(m), evs2),
        forall|k: usize| #[trigger] deltas_to(evs1, k) == deltas_to(evs2, k),
        forall|k: usize| #[trigger] seed_for(evs1, k) == seed_for(evs2, k),
    ensures
        run(streaming(m), evs1).message matches Some(m1) && run(streaming(m), evs2).message matches Some(
            m2,
        ) && forall|k: usize|
            has_block(m1.blocks, k) && has_block(m2.blocks, k) ==> #[trigger] block_text(m1, k)
                == block_text(m2, k),
{
    lemma_stream_block_text(m, evs1);
    lemma_stream_block_text(m, evs2);
    let m1 = run(streaming(m), evs1).message->0;
    let m2 = run(streaming(m), evs2).message->0;
    assert forall|k: usize| has_block(m1.blocks, k) && has_block(m2.blocks, k) implies #[trigger] block_text(
        m1,
        k,
    ) == block_text(m2, k) by {
        lemma_delta_text_of_own_deltas(evs1, k);
        lemma_delta_text_of_own_deltas(evs2, k);
        assert(deltas_to(evs1, k) == deltas_to(evs2, k));
        assert(seed_for(evs1, k) == seed_for(evs2, k));
        assert(block_text(m1, k) == Some(base_text(m, evs1, k) + delta_text_for(evs1, k)));
        assert(block_text(m2, k) == Some(base_text(m, evs2, k) + delta_text_for(evs2, k)));
    }
}

/// The state after a failure outside the assembler (a frame that does not decode):
/// the assembler refuses every later event but pings.
pub open spec fn failed(s: AssemblerState) -> AssemblerState {
    AssemblerState { phase: Phase::Failed, message: s.message }
}

/// Whether `e` is a delta to a block that was already stopped: it is applied, but it is
/// an anomaly worth reporting.
pub open spec fn late_delta(s: AssemblerState, e: StreamEvent) -> bool {
    &&& s.phase == Phase::Streaming
    &&& e matches StreamEvent::ContentBlockDelta { index, .. }
    &&& s.message matches Some(m)
    &&& has_block(m.blocks, index)
    &&& m.blocks[block_pos(m.blocks, index)].closed
}

/// The invariant of an assembler's state.
pub open spec fn state_wf(s: AssemblerState) -> bool {
    &&& s.phase == Phase::Idle ==> s.message is None
    &&& (s.phase == Phase::Streaming || s.phase == Phase::Done) ==> s.message is Some
    &&& s.message matches Some(m) ==> unique_indices(m.blocks)
}

/// Whether an assembler's answer is the one the model gives.
pub open spec fn same_outcome(r: Result<Option<String>, StreamError>, expected: StepResult) -> bool {
    match expected {
        Ok(None) => r matches Ok(None),
        Ok(Some(t)) => r matches Ok(Some(u)) && u@ == t,
        Err(v) => r matches Err(StreamError::Protocol(w)) && w == v,
    }
}

/// A content block of the message being assembled.
#[derive(Debug, Clone)]
pub struct AssembledBlock {
    pub index: usize,
    pub text: String,
    pub closed: bool,
}

impl View for AssembledBlock {
    type V = BlockSpec;

    open spec fn view(&self) -> BlockSpec {
        BlockSpec { index: self.index, text: self.text@, closed: self.closed }
    }
}

pub open spec fn blocks_view(blocks: Seq<AssembledBlock>) -> Seq<BlockSpec> {
    blocks.map_values(|b: AssembledBlock| b@)
}

/// The message being assembled from a stream.
#[derive(Debug, Clone)]
pub struct InProgressMessage {
    pub id: String,
    pub role: String,
    pub model: String,
    pub content_blocks: Vec<AssembledBlock>,
    pub stop_reason: Option<String>,
    pub stop_sequence: Option<String>,
    pub usage: Usage,
}

impl View for InProgressMessage {
    type V = MessageSpec;

    open spec fn view(&self) -> MessageSpec {
        MessageSpec {
            id: self.id@,
            role: self.role@,
            model: self.model@,
            blocks: blocks_view(self.content_blocks@),
            stop_reason: opt_text(self.stop_reason),
            stop_sequence: opt_text(self.stop_sequence),
            usage: self.usage,
        }
    }
}

/// The position of the block started at `index`, if any.
fn find_block(blocks: &Vec<AssembledBlock>, index: usize) -> (r: Option<usize>)
    ensures
        r is None ==> !has_block(blocks_view(blocks@), index),
        r matches Some(j) ==> j < blocks@.len() && blocks@[j as int].index == index,
{
    let mut i: usize = 0;
    while i < blocks.len()
        invariant
            i <= blocks@.len(),
            forall|k: int| 0 <= k < i ==> blocks@[k].index != index,
        decreases blocks@.len() - i,
    {
        if blocks[i].index == index {
            return Some(i);
        }
        i = i + 1;
    }
    proof {
        let bv = blocks_view(blocks@);
        assert forall|j: int| 0 <= j < bv.len() implies #[trigger] bv[j].index != index by {
            assert(bv[j] == blocks@[j]@);
        }
    }
    None
}

impl InProgressMessage {
    /// The message that a stream's snapshot starts from.
    pub fn from_snapshot(message: MessageResponse) -> (r: InProgressMessage)
        ensures
            r@ == snapshot(message),
            unique_indices(r@.blocks),
    {
        let ghost snap = snapshot(message);
        let n = message.content.len();
        let mut blocks: Vec<AssembledBlock> = Vec::new();
        let mut i: usize = 0;
        while i < n
            invariant
                n == message.content@.len(),
                snap == snapshot(message),
                i <= n,
                blocks@.len() == i,
                forall|k: int| 0 <= k < i ==> #[trigger] blocks_view(blocks@)[k] == snap.blocks[k],
            decreases n - i,
        {
            let text = message.content[i].text.clone();
            let ghost prev = blocks@;
            blocks.push(AssembledBlock { index: i, text, closed: false });
            proof {
                assert(blocks_view(blocks@)[i as int] == snap.blocks[i as int]);
                assert forall|k: int| 0 <= k < i + 1 implies #[trigger] blocks_view(blocks@)[k]
                    == snap.blocks[k] by {
                    if k < i {
                        assert(blocks@[k] == prev[k]);
                        assert(blocks_view(prev)[k] == snap.blocks[k]);
                    }
                }
            }
            i = i + 1;
        }
        assert(blocks_view(blocks@) =~= snap.blocks);
        InProgressMessage {
            id: message.id,
            role: message.role,
            model: message.model,
            content_blocks: blocks,
            stop_reason: message.stop_reason,
            stop_sequence: message.stop_sequence,
            usage: message.usage,
        }
    }

    /// The text of the block started at `index`, if any.
    pub fn block_text(&self, index: usize) -> (r: Option<&String>)
        requires
            unique_indices(self@.blocks),
        ensures
            r is None <==> block_text(self@, index) is None,
            r matches Some(t) ==> block_text(self@, index) == Some(t@),
    {
        match find_block(&self.content_blocks, index) {
            None => None,
            Some(j) => {
                let ghost bv = self@.blocks;
                proof {
                    assert(bv[j as int].index == index);
                    assert(has_block(bv, index));
                    let p = block_pos(bv, index);
                    assert(bv[p].index == index);
                }
                Some(&self.content_blocks[j].text)
            },
        }
    }
}

/// Folds the events of one stream into the message it produces.
pub struct MessageAssembler {
    phase: Phase,
    message: Option<InProgressMessage>,
}

impl View for MessageAssembler {
    type V = AssemblerState;

    closed spec fn view(&self) -> AssemblerState {
        AssemblerState {
            phase: self.phase,
            message: match self.message {
                Some(m) => Some(m@),
                None => None,
            },
        }
    }
}

impl MessageAssembler {
    /// An assembler that has seen no event.
    pub fn new() -> (r: MessageAssembler)
        ensures
            r@ == (AssemblerState { phase: Phase::Idle, message: None }),
            state_wf(r@),
    {
        MessageAssembler { phase: Phase::Idle, message: None }
    }

    /// The current phase.
    pub fn phase(&self) -> (r: Phase)
        ensures
            r == self@.phase,
    {
        self.phase
    }

    /// The message, once the stream has reached its end.
    pub fn finished_message(&self) -> (r: Option<&InProgressMessage>)
        ensures
            r is Some <==> self@.phase == Phase::Done && self@.message is Some,
            r matches Some(m) ==> self@.message == Some(m@),
    {
        if self.phase == Phase::Done {
            match &self.message {
                Some(m) => Some(m),
                None => None,
            }
        } else {
            None
        }
    }

    /// Fails the assembler for a reason outside it, such as a frame that does not decode.
    pub fn fail_stream(&mut self)
        requires
            state_wf(old(self)@),
        ensures
            state_wf(final(self)@),
            final(self)@ == failed(old(self)@),
    {
        self.phase = Phase::Failed;
    }

    /// Whether `e` is a delta to a block that was already stopped.
    pub fn is_late_delta(&self, e: &StreamEvent) -> (r: bool)
        requires
            state_wf(self@),
        ensures
            r == late_delta(self@, *e),
    {
        if self.phase != Phase::Streaming {
            return false;
        }
        match e {
            StreamEvent::ContentBlockDelta { index, .. } => match &self.message {
                Some(m) => match find_block(&m.content_blocks, *index) {
                    Some(j) => {
                        proof {
                            let bv = m@.blocks;
                            assert(bv[j as int].index == *index);
                            assert(has_block(bv, *index));
                            assert(bv[block_pos(bv, *index)].index == *index);
                        }
                        m.content_blocks[j].closed
                    },
                    None => false,
                },
                None => false,
            },
            _ => false,
        }
    }

    fn fail(&mut self, k: EventKind, reason: ViolationReason) -> (r: StreamError)
        ensures
            final(self)@ == violation(old(self)@, k, reason).0,
            r == StreamError::Protocol(ProtocolViolation { event: k, phase: old(self)@.phase, reason }),
    {
        let phase = self.phase;
        self.phase = Phase::Failed;
        StreamError::Protocol(ProtocolViolation { event: k, phase, reason })
    }

    /// Applies one event, and returns the text it adds to the message, if any.
    /// A ping changes nothing and yields nothing; a delta or a stop that names an
    /// index at which no block was started is a protocol violation.
    pub fn apply(&mut self, event: StreamEvent) -> (r: Result<Option<String>, StreamError>)
        requires
            state_wf(old(self)@),
        ensures
            state_wf(final(self)@),
            final(self)@ == step(old(self)@, event).0,
            same_outcome(r, step(old(self)@, event).1),
            event is Ping ==> final(self)@ == old(self)@ && r matches Ok(None),
            (event matches StreamEvent::ContentBlockDelta { index, .. } && !(old(self)@.message matches Some(m) && has_block(m.blocks, index)))
                ==> r matches Err(StreamError::Protocol(_)),
            (event matches StreamEvent::ContentBlockStop { index } && !(old(self)@.message matches Some(m) && has_block(m.blocks, index)))
                ==> r matches Err(StreamError::Protocol(_)),
            event is ContentBlockDelta && old(self)@.phase == Phase::Streaming && has_block(
                old(self)@.message->0.blocks,
                event->ContentBlockDelta_index,
            ) ==> (r matches Ok(Some(t)) && t@ == event->ContentBlockDelta_delta.text@),
    {
        let kind = event.kind();
        match event {
            StreamEvent::Ping => Ok(None),
            StreamEvent::MessageStart { message } => {
                if self.phase == Phase::Idle {
                    let m = InProgressMessage::from_snapshot(message);
                    self.phase = Phase::Streaming;
                    self.message = Some(m);
                    Ok(None)
                } else {
                    Err(self.fail(kind, ViolationReason::IllegalTransition))
                }
            },
            other => {
                if self.phase == Phase::Streaming && self.message.is_some() {
                    self.apply_streaming(other)
                } else {
                    Err(self.fail(kind, ViolationReason::IllegalTransition))
                }
            },
        }
    }

    fn apply_streaming(&mut self, event: StreamEvent) -> (r: Result<Option<String>, StreamError>)
        requires
            state_wf(old(self)@),
            old(self)@.phase == Phase::Streaming,
            old(self)@.message is Some,
            !(event is Ping),
            !(event is MessageStart),
        ensures
            state_wf(final(self)@),
            final(self)@ == streaming_step(old(self)@, old(self)@.message->0, event).0,
            same_outcome(r, streaming_step(old(self)@, old(self)@.message->0, event).1),
    {
        let ghost s = self@;
        let ghost ms = s.message->0;
        let mut m = self.message.take().unwrap();
        assert(m@ == ms);
        match event {
            StreamEvent::ContentBlockStart { index, content_block } => {
                match find_block(&m.content_blocks, index) {
                    Some(j) => {
                        proof {
                            assert(blocks_view(m.content_blocks@)[j as int].index == index);
                        }
                        self.message = Some(m);
                        Err(self.fail(EventKind::ContentBlockStart, ViolationReason::DuplicateIndex))
                    },
                    None => {
                        let seed = if content_block.text.as_str().is_empty() {
                            None
                        } else {
                            Some(content_block.text.clone())
                        };
                        let ghost before = m.content_blocks@;
                        m.content_blocks.push(
                            AssembledBlock { index, text: content_block.text, closed: false },
                        );
                        proof {
                            let nb = BlockSpec { index, text: content_block.text@, closed: false };
                            assert(blocks_view(m.content_blocks@) =~= blocks_view(before).push(nb));
                            let bv = blocks_view(m.content_blocks@);
                            assert forall|a: int, b: int|
                                #![trigger bv[a].index, bv[b].index]
                                0 <= a < bv.len() && 0 <= b < bv.len() && bv[a].index == bv[b].index
                                    implies a == b by {
                                if a < before.len() && b < before.len() {
                                    assert(bv[a] == ms.blocks[a]);
                                    assert(bv[b] == ms.blocks[b]);
                                } else if a < before.len() {
                                    assert(bv[a] == ms.blocks[a]);
                                } else if b < before.len() {
                                    assert(bv[b] == ms.blocks[b]);
                                }
                            }
                        }
                        self.message = Some(m);
                        Ok(seed)
                    },
                }
            },
            StreamEvent::ContentBlockDelta { index, delta } => {
                match find_block(&m.content_blocks, index) {
                    None => {
                        self.message = Some(m);
                        Err(self.fail(EventKind::ContentBlockDelta, ViolationReason::UnknownIndex))
                    },
                    Some(j) => {
                        let ghost before = m.content_blocks@;
                        proof {
                            let bv = blocks_view(before);
                            assert(bv[j as int].index == index);
                            assert(has_block(bv, index));
                            assert(bv[block_pos(bv, index)].index == index);
                        }
                        let mut blk = AssembledBlock { index: 0, text: String::new(), closed: false };
                        m.content_blocks.set_and_swap(j, &mut blk);
                        blk.text.append(delta.text.as_str());
                        m.content_blocks.set(j, blk);
                        proof {
                            let b = ms.blocks[j as int];
                            assert(blocks_view(m.content_blocks@) =~= ms.blocks.update(
                                j as int,
                                BlockSpec { text: b.text + delta.text@, ..b },
                            ));
                        }
                        self.message = Some(m);
                        Ok(Some(delta.text))
                    },
                }
            },
            StreamEvent::ContentBlockStop { index } => {
                match find_block(&m.content_blocks, index) {
                    None => {
                        self.message = Some(m);
                        Err(self.fail(EventKind::ContentBlockStop, ViolationReason::UnknownIndex))
                    },
                    Some(j) => {
                        proof {
                            let bv = blocks_view(m.content_blocks@);
                            assert(bv[j as int].index == index);
                            assert(has_block(bv, index));
                            assert(bv[block_pos(bv, index)].index == index);
                        }
                        let mut blk = AssembledBlock { index: 0, text: String::new(), closed: false };
                        m.content_blocks.set_and_swap(j, &mut blk);
                        blk.closed = true;
                        m.content_blocks.set(j, blk);
                        proof {
                            let b = ms.blocks[j as int];
                            assert(blocks_view(m.content_blocks@) =~= ms.blocks.update(
                                j as int,
                                BlockSpec { closed: true, ..b },
                            ));
                        }
                        self.message = Some(m);
                        Ok(None)
                    },
                }
            },
            StreamEvent::MessageDelta { delta } => {
                match delta.stop_reason {
                    Some(v) => {
                        m.stop_reason = Some(v);
                    },
                    None => {},
                }
                match delta.stop_sequence {
                    Some(v) => {
                        m.stop_sequence = Some(v);
                    },
                    None => {},
                }
                match delta.usage.input_tokens {
                    Some(v) => {
                        m.usage.input_tokens = Some(v);
                    },
                    None => {},
                }
                match delta.usage.output_tokens {
                    Some(v) => {
                        m.usage.output_tokens = Some(v);
                    },
                    None => {},
                }
                self.message = Some(m);
                Ok(None)
            },
            StreamEvent::MessageStop => {
                self.phase = Phase::Done;
                self.message = Some(m);
                Ok(None)
            },
            _ => {
                self.message = Some(m);
                Ok(None)
            },
        }
    }
}

} // verus!
