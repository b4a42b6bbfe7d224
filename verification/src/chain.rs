//! The retrieval chain: per-session orchestration of rephrasing, retrieval,
//! prompt assembly, streaming generation and the memory commit.
//!
//! The chain owns one store and one memory, so one session has one writer.
//! The generation and embedding backends are outside: the caller runs them
//! and feeds their results back as events. A turn is committed to memory only
//! when its stream reached a natural end; a failure or cancellation leaves
//! memory exactly as it was.

use vstd::prelude::*;

use crate::document::copy_bytes;
use crate::errors::{ChainConfigIssue, GenerationError, StoreError};
use crate::memory::{ConversationMemory, ConversationTurn, Role};
use crate::store::{search_ok, SearchHit, VectorStore};

verus! {

/// How a chain behaves: retrieval width and threshold, optional rephrasing,
/// history retention, and the fixed system instructions (which tell the model
/// to admit not knowing rather than invent an answer).
pub struct ChainConfig {
    /// How many records retrieval may return; must be positive.
    pub top_k: usize,
    /// Least score a retrieved record may have.
    pub score_threshold: i64,
    /// Whether to condense the question with the history before retrieval.
    pub rephrase_question: bool,
    /// How many turns the memory retains; must be positive.
    pub max_history_turns: usize,
    /// System instructions placed at the head of every prompt; must not be
    /// empty.
    pub system_instructions: Vec<u8>,
}

/// A configuration the chain accepts.
pub open spec fn config_ok(cfg: ChainConfig) -> bool {
    &&& cfg.top_k > 0
    &&& cfg.max_history_turns > 0
    &&& cfg.system_instructions@.len() > 0
}

/// Every issue a configuration has, in a fixed order.
pub open spec fn config_issues(cfg: ChainConfig) -> Seq<ChainConfigIssue> {
    (if cfg.top_k == 0 {
        seq![ChainConfigIssue::ZeroTopK]
    } else {
        Seq::empty()
    }) + (if cfg.max_history_turns == 0 {
        seq![ChainConfigIssue::ZeroHistoryCapacity]
    } else {
        Seq::empty()
    }) + (if cfg.system_instructions@.len() == 0 {
        seq![ChainConfigIssue::EmptySystemInstructions]
    } else {
        Seq::empty()
    })
}

/// Validates a configuration eagerly, reporting every violation at once.
pub fn validate_config(cfg: &ChainConfig) -> (r: Result<(), Vec<ChainConfigIssue>>)
    ensures
        r is Ok <==> config_ok(*cfg),
        r is Err ==> r->Err_0@ == config_issues(*cfg) && r->Err_0@.len() > 0,
{
    let mut issues: Vec<ChainConfigIssue> = Vec::new();
    if cfg.top_k == 0 {
        issues.push(ChainConfigIssue::ZeroTopK);
    }
    if cfg.max_history_turns == 0 {
        issues.push(ChainConfigIssue::ZeroHistoryCapacity);
    }
    if cfg.system_instructions.len() == 0 {
        issues.push(ChainConfigIssue::EmptySystemInstructions);
    }
    proof {
        assert(issues@ =~= config_issues(*cfg));
    }
    if issues.len() == 0 {
        Ok(())
    } else {
        Err(issues)
    }
}

/// The byte marking line ends inside a prompt.
pub open spec fn blank_line() -> Seq<u8> {
    seq![10u8, 10u8]
}

/// The tag a rendered turn starts with.
pub open spec fn role_tag(r: Role) -> Seq<u8> {
    match r {
        Role::User => seq![117u8, 58u8, 32u8],  // "u: "
        Role::Assistant => seq![97u8, 58u8, 32u8],  // "a: "
    }
}

/// One history turn as prompt text: tag, content, newline.
pub open spec fn render_turn(t: ConversationTurn) -> Seq<u8> {
    role_tag(t.role) + t.content@ + seq![10u8]
}

/// The whole history as prompt text, oldest first.
pub open spec fn render_history(h: Seq<ConversationTurn>) -> Seq<u8>
    decreases h.len(),
{
    if h.len() == 0 {
        Seq::empty()
    } else {
        render_history(h.drop_last()) + render_turn(h.last())
    }
}

/// The retrieved context as prompt text: each hit's chunk, best first, each
/// on its own line. No hits yield no context.
pub open spec fn render_context(hits: Seq<SearchHit>) -> Seq<u8>
    decreases hits.len(),
{
    if hits.len() == 0 {
        Seq::empty()
    } else {
        render_context(hits.drop_last()) + hits.last().record.chunk.content@ + seq![10u8]
    }
}

/// The fixed prompt template: system instructions, retrieved context,
/// history and question, in that order, separated by blank lines. An empty
/// context leaves its slot empty and the instructions still apply.
pub open spec fn assembled_prompt(
    sys: Seq<u8>,
    context: Seq<u8>,
    history: Seq<u8>,
    question: Seq<u8>,
) -> Seq<u8> {
    sys + blank_line() + context + blank_line() + history + blank_line() + question
}

/// The input handed to a condensing generation call: the history, then the
/// follow-up question to make standalone.
pub open spec fn rephrase_input(history: Seq<u8>, question: Seq<u8>) -> Seq<u8> {
    history + blank_line() + question
}

/// Appends a copy of `src` to `out`.
fn append_bytes(out: &mut Vec<u8>, src: &Vec<u8>)
    ensures
        final(out)@ == old(out)@ + src@,
{
    let mut i: usize = 0;
    while i < src.len()
        invariant
            i <= src@.len(),
            out@ == old(out)@ + src@.subrange(0, i as int),
        decreases src@.len() - i,
    {
        out.push(src[i]);
        i = i + 1;
        proof {
            assert(out@ =~= old(out)@ + src@.subrange(0, i as int));
        }
    }
    proof {
        assert(out@ =~= old(out)@ + src@);
    }
}

/// Appends a blank line.
fn append_blank_line(out: &mut Vec<u8>)
    ensures
        final(out)@ == old(out)@ + blank_line(),
{
    out.push(10u8);
    out.push(10u8);
    proof {
        assert(out@ =~= old(out)@ + blank_line());
    }
}

/// Renders the history into prompt text.
fn build_history_text(history: &Vec<ConversationTurn>) -> (r: Vec<u8>)
    ensures
        r@ == render_history(history@),
{
    let mut out: Vec<u8> = Vec::new();
    let mut i: usize = 0;
    while i < history.len()
        invariant
            i <= history@.len(),
            out@ == render_history(history@.subrange(0, i as int)),
        decreases history@.len() - i,
    {
        let t = &history[i];
        match t.role {
            Role::User => {
                out.push(117u8);
            },
            Role::Assistant => {
                out.push(97u8);
            },
        }
        out.push(58u8);
        out.push(32u8);
        append_bytes(&mut out, &t.content);
        out.push(10u8);
        i = i + 1;
        proof {
            let pre = history@.subrange(0, i as int);
            assert(pre.drop_last() =~= history@.subrange(0, i as int - 1));
            assert(pre.last() == history@[i as int - 1]);
            assert(out@ =~= render_history(pre));
        }
    }
    proof {
        assert(history@.subrange(0, history@.len() as int) =~= history@);
    }
    out
}

/// Renders the retrieved hits into prompt context text.
fn build_context_text(hits: &Vec<SearchHit>) -> (r: Vec<u8>)
    ensures
        r@ == render_context(hits@),
{
    let mut out: Vec<u8> = Vec::new();
    let mut i: usize = 0;
    while i < hits.len()
        invariant
            i <= hits@.len(),
            out@ == render_context(hits@.subrange(0, i as int)),
        decreases hits@.len() - i,
    {
        append_bytes(&mut out, &hits[i].record.chunk.content);
        out.push(10u8);
        i = i + 1;
        proof {
            let pre = hits@.subrange(0, i as int);
            assert(pre.drop_last() =~= hits@.subrange(0, i as int - 1));
            assert(pre.last() == hits@[i as int - 1]);
            assert(out@ =~= render_context(pre));
        }
    }
    proof {
        assert(hits@.subrange(0, hits@.len() as int) =~= hits@);
    }
    out
}

/// How far a turn has come.
#[derive(Debug, Clone, Copy, PartialEq, Eq, Structural)]
pub enum TurnPhase {
    /// Deltas are still arriving.
    Streaming,
    /// The stream ended and the turn went into memory.
    Committed,
    /// The stream failed or was cancelled; nothing went into memory.
    Failed,
}

/// The per-turn context: the question, the answer accumulated so far, and
/// where the turn stands. Never captured by the chain — the caller passes it
/// into each step.
pub struct TurnContext {
    /// The question this turn answers.
    pub question: Vec<u8>,
    /// Concatenation of every delta accepted so far.
    pub answer: Vec<u8>,
    /// Caller-supplied timestamp of the turn's start.
    pub started_at: u64,
    /// Where the turn stands.
    pub phase: TurnPhase,
}

/// One event of a generation stream, as the caller observes it.
pub enum StreamEvent {
    /// One more fragment of the answer.
    Delta(Vec<u8>),
    /// The stream reached its natural end.
    End,
    /// The stream failed, or was cancelled by the user.
    Error(GenerationError),
}

/// What one event made of the turn.
#[derive(Debug, Clone, Copy, PartialEq, Eq, Structural)]
pub enum TurnOutcome {
    /// The stream goes on.
    Continuing,
    /// The turn is committed to memory.
    Committed,
    /// The turn is abandoned; memory is untouched.
    Failed(GenerationError),
}

/// One session's retrieval chain: a validated configuration, the vector
/// store it retrieves from, and the session's memory.
pub struct Chain {
    config: ChainConfig,
    store: VectorStore,
    memory: ConversationMemory,
}

impl Chain {
    /// The session's memory, oldest turn first.
    pub closed spec fn memory_log(&self) -> Seq<ConversationTurn> {
        self.memory@
    }

    /// The records of the owned store.
    pub closed spec fn store_records(&self) -> Seq<crate::store::VectorRecord> {
        self.store@
    }

    /// The configuration, as validated at construction.
    pub closed spec fn configuration(&self) -> ChainConfig {
        self.config
    }

    /// How many turns the memory retains when pruned.
    pub closed spec fn retention(&self) -> nat {
        self.memory.retention()
    }

    /// The store's embedding dimension.
    pub closed spec fn dimension(&self) -> nat {
        self.store.dimension()
    }

    /// The chain's invariant: a valid configuration over a well-formed,
    /// initialized store.
    pub closed spec fn wf(&self) -> bool {
        &&& config_ok(self.configuration())
        &&& self.store.wf()
        &&& self.store.is_ready()
    }

    /// Builds a chain, validating the configuration eagerly: every violation
    /// is reported at once and nothing is built on a bad configuration.
    pub fn new(config: ChainConfig, store: VectorStore, memory: ConversationMemory) -> (r: Result<
        Chain,
        Vec<ChainConfigIssue>,
    >)
        requires
            store.wf(),
            store.is_ready(),
        ensures
            match r {
                Ok(c) => {
                    &&& config_ok(config)
                    &&& c.wf()
                    &&& c.configuration() == config
                    &&& c.memory_log() == memory@
                    &&& c.store_records() == store@
                    &&& c.retention() == memory.retention()
                    &&& c.dimension() == store.dimension()
                },
                Err(v) => {
                    &&& !config_ok(config)
                    &&& v@ == config_issues(config)
                },
            },
    {
        match validate_config(&config) {
            Ok(u) => Ok(Chain { config, store, memory }),
            Err(v) => Err(v),
        }
    }

    /// Whether the caller should condense the question before retrieval.
    pub fn needs_rephrase(&self) -> (b: bool)
        ensures
            b == self.configuration().rephrase_question,
    {
        self.config.rephrase_question
    }

    /// How many turns the memory holds.
    pub fn history_len(&self) -> (n: usize)
        ensures
            n == self.memory_log().len(),
    {
        self.memory.len()
    }

    /// A copy of the current history, for display or for a backend call.
    pub fn history_snapshot(&self) -> (h: Vec<ConversationTurn>)
        ensures
            h@.len() == self.memory_log().len(),
            forall|i: int|
                0 <= i < h@.len() ==> {
                    &&& (#[trigger] h@[i]).role == self.memory_log()[i].role
                    &&& h@[i].content@ == self.memory_log()[i].content@
                    &&& h@[i].timestamp == self.memory_log()[i].timestamp
                },
    {
        self.memory.snapshot()
    }

    /// The text handed to a condensing generation call for this question.
    pub fn rephrase_prompt(&self, question: &Vec<u8>) -> (r: Vec<u8>)
        ensures
            r@ == rephrase_input(render_history(self.memory_log()), question@),
    {
        let snap = self.memory.snapshot();
        let mut out = build_history_text(&snap);
        proof {
            lemma_render_history_by_fields(snap@, self.memory_log());
        }
        append_blank_line(&mut out);
        append_bytes(&mut out, question);
        out
    }

    /// Retrieves context for an embedded question: the chain's configured
    /// `k` and threshold, against the owned store. An empty result is valid.
    pub fn retrieve(&self, query_embedding: &Vec<i64>) -> (r: Result<Vec<SearchHit>, StoreError>)
        requires
            self.wf(),
        ensures
            match r {
                Ok(hits) => search_ok(
                    self.store_records(),
                    query_embedding@,
                    self.configuration().top_k as nat,
                    self.configuration().score_threshold,
                    hits@,
                ),
                Err(e) => e == StoreError::InvalidEmbedding && !crate::embedding::valid_embedding(
                    query_embedding@,
                    self.dimension(),
                ),
            },
    {
        self.store.search(query_embedding, self.config.top_k, self.config.score_threshold)
    }

    /// Assembles the full prompt for this turn from the retrieved hits and
    /// the current history, deterministically from the template.
    pub fn build_prompt(&self, question: &Vec<u8>, hits: &Vec<SearchHit>) -> (r: Vec<u8>)
        ensures
            r@ == assembled_prompt(
                self.configuration().system_instructions@,
                render_context(hits@),
                render_history(self.memory_log()),
                question@,
            ),
    {
        let mut out: Vec<u8> = Vec::new();
        append_bytes(&mut out, &self.config.system_instructions);
        append_blank_line(&mut out);
        let context = build_context_text(hits);
        append_bytes(&mut out, &context);
        append_blank_line(&mut out);
        let snap = self.memory.snapshot();
        let history = build_history_text(&snap);
        proof {
            lemma_render_history_by_fields(snap@, self.memory_log());
        }
        append_bytes(&mut out, &history);
        append_blank_line(&mut out);
        append_bytes(&mut out, question);
        out
    }

    /// Starts a turn for `question` at caller time `now`. Memory is not
    /// touched until the turn's stream ends.
    pub fn begin_turn(&self, question: Vec<u8>, now: u64) -> (t: TurnContext)
        ensures
            t.question@ == question@,
            t.answer@.len() == 0,
            t.started_at == now,
            t.phase == TurnPhase::Streaming,
    {
        TurnContext { question, answer: Vec::new(), started_at: now, phase: TurnPhase::Streaming }
    }

    /// Drives a streaming turn one event forward.
    ///
    /// A delta only grows the turn's answer; the stream's natural end commits
    /// the question and the full answer to memory as two turns, in that
    /// order; an error or cancellation leaves memory exactly as it was. The
    /// store and configuration never change.
    pub fn on_event(&mut self, t: &mut TurnContext, e: StreamEvent, now: u64) -> (o: TurnOutcome)
        requires
            old(t).phase == TurnPhase::Streaming,
        ensures
            final(self).configuration() == old(self).configuration(),
            final(self).store_records() == old(self).store_records(),
            final(self).retention() == old(self).retention(),
            final(self).dimension() == old(self).dimension(),
            old(self).wf() ==> final(self).wf(),
            final(t).question@ == old(t).question@,
            final(t).started_at == old(t).started_at,
            match e {
                StreamEvent::Delta(d) => {
                    &&& final(self).memory_log() == old(self).memory_log()
                    &&& final(t).answer@ == old(t).answer@ + d@
                    &&& final(t).phase == TurnPhase::Streaming
                    &&& o == TurnOutcome::Continuing
                },
                StreamEvent::End => {
                    &&& final(self).memory_log().len() == old(self).memory_log().len() + 2
                    &&& final(self).memory_log().subrange(
                        0,
                        old(self).memory_log().len() as int,
                    ) == old(self).memory_log()
                    &&& final(self).memory_log()[old(self).memory_log().len() as int].role
                        == Role::User
                    &&& final(self).memory_log()[old(self).memory_log().len() as int].content@
                        == old(t).question@
                    &&& final(self).memory_log()[old(self).memory_log().len() as int].timestamp
                        == old(t).started_at
                    &&& final(self).memory_log()[old(self).memory_log().len() as int + 1].role
                        == Role::Assistant
                    &&& final(self).memory_log()[old(self).memory_log().len() as int + 1].content@ == old(
                        t,
                    ).answer@
                    &&& final(self).memory_log()[old(self).memory_log().len() as int + 1].timestamp == now
                    // one step of the turn-log model: exactly one committed pair
                    &&& final(self).memory_log() == memory_after(
                        old(self).memory_log(),
                        seq![
                            TurnCommit::Pair(
                                final(self).memory_log()[old(self).memory_log().len() as int],
                                final(self).memory_log()[old(self).memory_log().len() as int + 1],
                            ),
                        ],
                    )
                    &&& final(t).answer@ == old(t).answer@
                    &&& final(t).phase == TurnPhase::Committed
                    &&& o == TurnOutcome::Committed
                },
                StreamEvent::Error(ge) => {
                    &&& final(self).memory_log() == old(self).memory_log()
                    &&& final(t).answer@ == old(t).answer@
                    &&& final(t).phase == TurnPhase::Failed
                    &&& o == TurnOutcome::Failed(ge)
                },
            },
    {
        match e {
            StreamEvent::Delta(d) => {
                let mut dd = d;
                t.answer.append(&mut dd);
                TurnOutcome::Continuing
            },
            StreamEvent::End => {
                let user_turn = ConversationTurn {
                    role: Role::User,
                    content: copy_bytes(&t.question),
                    timestamp: t.started_at,
                };
                let assistant_turn = ConversationTurn {
                    role: Role::Assistant,
                    content: copy_bytes(&t.answer),
                    timestamp: now,
                };
                self.memory.append(user_turn);
                self.memory.append(assistant_turn);
                t.phase = TurnPhase::Committed;
                proof {
                    let m0 = old(self).memory@;
                    assert(self.memory@.subrange(0, m0.len() as int) =~= m0);
                    let u = self.memory@[m0.len() as int];
                    let a = self.memory@[m0.len() as int + 1];
                    let outs = seq![TurnCommit::Pair(u, a)];
                    assert(outs.drop_last() =~= Seq::<TurnCommit>::empty());
                    assert(memory_after(m0, Seq::<TurnCommit>::empty()) == m0);
                    assert(outs.last() == TurnCommit::Pair(u, a));
                    assert(memory_after(m0, outs) == m0 + seq![u, a]);
                    assert(self.memory@ =~= m0 + seq![u, a]);
                }
                TurnOutcome::Committed
            },
            StreamEvent::Error(ge) => {
                t.phase = TurnPhase::Failed;
                TurnOutcome::Failed(ge)
            },
        }
    }

    /// Applies the retention policy to the session's memory: the most recent
    /// `retention()` turns stay, the oldest beyond that are dropped.
    pub fn prune_history(&mut self)
        ensures
            final(self).configuration() == old(self).configuration(),
            final(self).store_records() == old(self).store_records(),
            final(self).retention() == old(self).retention(),
            final(self).dimension() == old(self).dimension(),
            old(self).wf() ==> final(self).wf(),
            old(self).memory_log().len() <= old(self).retention() ==> final(self).memory_log()
                == old(self).memory_log(),
            old(self).memory_log().len() > old(self).retention() ==> final(self).memory_log()
                == old(self).memory_log().skip(
                old(self).memory_log().len() - old(self).retention(),
            ),
    {
        self.memory.prune();
    }
}

/// Histories equal turn by turn render to the same text.
proof fn lemma_render_history_by_fields(a: Seq<ConversationTurn>, b: Seq<ConversationTurn>)
    requires
        a.len() == b.len(),
        forall|i: int|
            0 <= i < a.len() ==> {
                &&& (#[trigger] a[i]).role == b[i].role
                &&& a[i].content@ == b[i].content@
            },
    ensures
        render_history(a) == render_history(b),
    decreases a.len(),
{
    if a.len() > 0 {
        assert(forall|i: int|
            0 <= i < a.len() - 1 ==> #[trigger] a.drop_last()[i] == a[i] && b.drop_last()[i]
                == b[i]);
        lemma_render_history_by_fields(a.drop_last(), b.drop_last());
        assert(render_turn(a.last()) == render_turn(b.last()));
    }
}

/// What one driven turn leaves for the log: the user and assistant turns to
/// commit, or nothing when the turn failed or was cancelled.
pub enum TurnCommit {
    /// The stream ended: these two turns are appended, in this order.
    Pair(ConversationTurn, ConversationTurn),
    /// The stream failed or was cancelled: the log is untouched.
    Nothing,
}

/// The memory log after driving a sequence of turns over a starting log.
pub open spec fn memory_after(
    m0: Seq<ConversationTurn>,
    outs: Seq<TurnCommit>,
) -> Seq<ConversationTurn>
    decreases outs.len(),
{
    if outs.len() == 0 {
        m0
    } else {
        let rest = memory_after(m0, outs.drop_last());
        match outs.last() {
            TurnCommit::Pair(u, a) => rest + seq![u, a],
            TurnCommit::Nothing => rest,
        }
    }
}

/// Turn log law: fully successful turns each add exactly their two turns, in
/// order; starting from an empty log, `n` successful turns leave exactly
/// `2 n` entries, user and assistant alternating in chronological order.
/// `on_event`'s natural-end case ensures exactly one step of [`memory_after`]
/// with one committed pair, so a session of `n` such turns is this fold.
pub proof fn lemma_successful_turns(m0: Seq<ConversationTurn>, outs: Seq<TurnCommit>)
    requires
        forall|i: int| 0 <= i < outs.len() ==> (#[trigger] outs[i]) is Pair,
    ensures
        memory_after(m0, outs).len() == m0.len() + 2 * outs.len(),
        forall|i: int|
            0 <= i < outs.len() ==> memory_after(m0, outs)[m0.len() + 2 * i] == (
            #[trigger] outs[i])->Pair_0 && memory_after(m0, outs)[m0.len() + 2 * i + 1]
                == outs[i]->Pair_1,
    decreases outs.len(),
{
    if outs.len() > 0 {
        assert(forall|i: int|
            0 <= i < outs.len() - 1 ==> #[trigger] outs.drop_last()[i] == outs[i]);
        lemma_successful_turns(m0, outs.drop_last());
        let result = memory_after(m0, outs);
        let rest = memory_after(m0, outs.drop_last());
        assert(outs.last() is Pair);
        assert(result == rest + seq![outs.last()->Pair_0, outs.last()->Pair_1]);
        assert forall|i: int|
            0 <= i < outs.len() implies result[m0.len() + 2 * i] == (#[trigger] outs[i])->Pair_0
            && result[m0.len() + 2 * i + 1] == outs[i]->Pair_1 by {
            if i < outs.len() - 1 {
                assert(outs.drop_last()[i] == outs[i]);
                assert(result[m0.len() + 2 * i] == rest[m0.len() + 2 * i]);
                assert(result[m0.len() + 2 * i + 1] == rest[m0.len() + 2 * i + 1]);
            } else {
                assert(result[m0.len() + 2 * i] == outs.last()->Pair_0);
                assert(result[m0.len() + 2 * i + 1] == outs.last()->Pair_1);
            }
        }
    }
}

/// Atomicity law: a failed or cancelled turn leaves the memory log exactly
/// as it was, whatever deltas had already streamed.
pub proof fn lemma_failed_turn_leaves_memory(m0: Seq<ConversationTurn>, outs: Seq<TurnCommit>)
    ensures
        memory_after(m0, outs.push(TurnCommit::Nothing)) == memory_after(m0, outs),
{
    assert(outs.push(TurnCommit::Nothing).drop_last() =~= outs);
}

} // verus!
