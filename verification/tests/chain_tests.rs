use archiver::chain::{
    validate_config, Chain, ChainConfig, StreamEvent, TurnOutcome, TurnPhase,
};
use archiver::document::Chunk;
use archiver::errors::{ChainConfigIssue, GenerationError};
use archiver::memory::{ConversationMemory, ConversationTurn, Role};
use archiver::store::{NewRecord, VectorStore};

fn config() -> ChainConfig {
    ChainConfig {
        top_k: 2,
        score_threshold: -1000,
        rephrase_question: false,
        max_history_turns: 10,
        system_instructions: b"Answer from the context; say you do not know otherwise.".to_vec(),
    }
}

fn ready_store(dim: usize) -> VectorStore {
    let mut s = VectorStore::new(dim).unwrap();
    s.initialize();
    s
}

fn chain_with(store: VectorStore) -> Chain {
    Chain::new(config(), store, ConversationMemory::new(10)).unwrap()
}

#[test]
fn config_violations_are_all_reported_at_once() {
    let bad = ChainConfig {
        top_k: 0,
        score_threshold: 0,
        rephrase_question: true,
        max_history_turns: 0,
        system_instructions: Vec::new(),
    };
    let issues = validate_config(&bad).unwrap_err();
    assert_eq!(issues.len(), 3);
    assert!(matches!(issues[0], ChainConfigIssue::ZeroTopK));
    assert!(matches!(issues[1], ChainConfigIssue::ZeroHistoryCapacity));
    assert!(matches!(issues[2], ChainConfigIssue::EmptySystemInstructions));
    assert!(validate_config(&config()).is_ok());
}

#[test]
fn chain_construction_fails_eagerly_on_bad_config() {
    let mut bad = config();
    bad.top_k = 0;
    let r = Chain::new(bad, ready_store(2), ConversationMemory::new(10));
    let issues = r.err().unwrap();
    assert_eq!(issues.len(), 1);
    assert!(matches!(issues[0], ChainConfigIssue::ZeroTopK));
}

#[test]
fn successful_turn_commits_question_and_answer() {
    let mut c = chain_with(ready_store(2));
    let mut t = c.begin_turn(b"why?".to_vec(), 100);
    assert!(matches!(t.phase, TurnPhase::Streaming));

    let o = c.on_event(&mut t, StreamEvent::Delta(b"because ".to_vec()), 101);
    assert!(matches!(o, TurnOutcome::Continuing));
    assert_eq!(c.history_len(), 0);

    let o = c.on_event(&mut t, StreamEvent::Delta(b"it is".to_vec()), 102);
    assert!(matches!(o, TurnOutcome::Continuing));
    assert_eq!(c.history_len(), 0);

    let o = c.on_event(&mut t, StreamEvent::End, 103);
    assert!(matches!(o, TurnOutcome::Committed));
    assert!(matches!(t.phase, TurnPhase::Committed));
    assert_eq!(c.history_len(), 2);

    let h = c.history_snapshot();
    assert!(matches!(h[0].role, Role::User));
    assert_eq!(h[0].content, b"why?".to_vec());
    assert_eq!(h[0].timestamp, 100);
    assert!(matches!(h[1].role, Role::Assistant));
    assert_eq!(h[1].content, b"because it is".to_vec());
    assert_eq!(h[1].timestamp, 103);
}

#[test]
fn n_successful_turns_leave_two_n_alternating_entries() {
    let mut c = chain_with(ready_store(2));
    let n = 4u64;
    for round in 0..n {
        let mut t = c.begin_turn(format!("q{}", round).into_bytes(), round);
        c.on_event(&mut t, StreamEvent::Delta(format!("a{}", round).into_bytes()), round);
        let o = c.on_event(&mut t, StreamEvent::End, round);
        assert!(matches!(o, TurnOutcome::Committed));
    }
    assert_eq!(c.history_len(), 2 * n as usize);
    let h = c.history_snapshot();
    for i in 0..n as usize {
        assert!(matches!(h[2 * i].role, Role::User));
        assert_eq!(h[2 * i].content, format!("q{}", i).into_bytes());
        assert!(matches!(h[2 * i + 1].role, Role::Assistant));
        assert_eq!(h[2 * i + 1].content, format!("a{}", i).into_bytes());
    }
}

#[test]
fn failed_generation_leaves_memory_unchanged() {
    let mut c = chain_with(ready_store(2));
    let mut t0 = c.begin_turn(b"first".to_vec(), 1);
    c.on_event(&mut t0, StreamEvent::Delta(b"answer".to_vec()), 1);
    c.on_event(&mut t0, StreamEvent::End, 2);
    assert_eq!(c.history_len(), 2);

    let mut t1 = c.begin_turn(b"second".to_vec(), 3);
    c.on_event(&mut t1, StreamEvent::Delta(b"partial ans".to_vec()), 3);
    let o = c.on_event(&mut t1, StreamEvent::Error(GenerationError::BackendFailure), 4);
    assert!(matches!(o, TurnOutcome::Failed(GenerationError::BackendFailure)));
    assert!(matches!(t1.phase, TurnPhase::Failed));
    assert_eq!(c.history_len(), 2);
}

#[test]
fn cancellation_mid_stream_commits_nothing() {
    let mut c = chain_with(ready_store(2));
    let mut t = c.begin_turn(b"question".to_vec(), 1);
    c.on_event(&mut t, StreamEvent::Delta(b"half an ans".to_vec()), 1);
    let o = c.on_event(&mut t, StreamEvent::Error(GenerationError::Cancelled), 2);
    assert!(matches!(o, TurnOutcome::Failed(GenerationError::Cancelled)));
    assert_eq!(c.history_len(), 0);
}

#[test]
fn retrieval_uses_configured_k_and_threshold() {
    let mut store = ready_store(1);
    store
        .upsert(&vec![
            NewRecord {
                id: 1,
                embedding: vec![1],
                chunk: Chunk { source_document_id: 1, sequence_index: 0, content: b"near".to_vec() },
            },
            NewRecord {
                id: 2,
                embedding: vec![3],
                chunk: Chunk { source_document_id: 1, sequence_index: 1, content: b"mid".to_vec() },
            },
            NewRecord {
                id: 3,
                embedding: vec![100],
                chunk: Chunk { source_document_id: 1, sequence_index: 2, content: b"far".to_vec() },
            },
        ])
        .unwrap();
    let c = chain_with(store);
    // top_k = 2, threshold = -1000: the far record is below the threshold
    let hits = c.retrieve(&vec![0]).unwrap();
    assert_eq!(hits.len(), 2);
    assert_eq!(hits[0].record.id, 1);
    assert_eq!(hits[1].record.id, 2);
}

#[test]
fn below_threshold_retrieval_is_empty_not_an_error() {
    let mut store = ready_store(1);
    store
        .upsert(&vec![NewRecord {
            id: 1,
            embedding: vec![50],
            chunk: Chunk { source_document_id: 1, sequence_index: 0, content: b"only".to_vec() },
        }])
        .unwrap();
    let c = chain_with(store);
    // best score is -2500, threshold -1000: no context, still Ok
    let hits = c.retrieve(&vec![0]).unwrap();
    assert_eq!(hits.len(), 0);
    // the chain still assembles a prompt from instructions and question alone
    let prompt = c.build_prompt(&b"what?".to_vec(), &hits);
    let mut expected = config().system_instructions;
    expected.extend_from_slice(b"\n\n");
    expected.extend_from_slice(b"\n\n");
    expected.extend_from_slice(b"\n\n");
    expected.extend_from_slice(b"what?");
    assert_eq!(prompt, expected);
}

#[test]
fn prompt_contains_retrieved_context_and_history() {
    let mut store = ready_store(1);
    store
        .upsert(&vec![NewRecord {
            id: 1,
            embedding: vec![0],
            chunk: Chunk {
                source_document_id: 1,
                sequence_index: 0,
                content: b"ctx line".to_vec(),
            },
        }])
        .unwrap();
    let mut c = chain_with(store);
    let mut t = c.begin_turn(b"q1".to_vec(), 1);
    c.on_event(&mut t, StreamEvent::Delta(b"a1".to_vec()), 1);
    c.on_event(&mut t, StreamEvent::End, 2);

    let hits = c.retrieve(&vec![0]).unwrap();
    assert_eq!(hits.len(), 1);
    let prompt = c.build_prompt(&b"q2".to_vec(), &hits);
    let mut expected = config().system_instructions;
    expected.extend_from_slice(b"\n\n");
    expected.extend_from_slice(b"ctx line\n");
    expected.extend_from_slice(b"\n\n");
    expected.extend_from_slice(b"u: q1\na: a1\n");
    expected.extend_from_slice(b"\n\n");
    expected.extend_from_slice(b"q2");
    assert_eq!(prompt, expected);
}

#[test]
fn rephrase_prompt_holds_history_and_question() {
    let mut c = chain_with(ready_store(2));
    assert!(!c.needs_rephrase());
    let mut t = c.begin_turn(b"first q".to_vec(), 1);
    c.on_event(&mut t, StreamEvent::End, 2);
    let r = c.rephrase_prompt(&b"and then?".to_vec());
    assert_eq!(r, b"u: first q\na: \n\n\nand then?".to_vec());
}

#[test]
fn memory_appends_and_prunes_in_order() {
    let mut m = ConversationMemory::new(3);
    for i in 0..5u64 {
        m.append(ConversationTurn {
            role: if i % 2 == 0 { Role::User } else { Role::Assistant },
            content: format!("t{}", i).into_bytes(),
            timestamp: i,
        });
    }
    assert_eq!(m.len(), 5);
    m.prune();
    assert_eq!(m.len(), 3);
    let h = m.snapshot();
    assert_eq!(h[0].content, b"t2".to_vec());
    assert_eq!(h[1].content, b"t3".to_vec());
    assert_eq!(h[2].content, b"t4".to_vec());
    assert_eq!(m.turn_at(0).timestamp, 2);
}
