use proof_aggregation::args::IntegrationArgs;
use proof_aggregation::artifacts::{
    blob_urls, output_blobs, output_keys, resolve, same_bytes, write_decision, Attempt,
    LoadState, LoadStep, RetrievalError, WriteDecision,
};
use proof_aggregation::format::Format;
use proof_aggregation::job::{BatchInfo, Job, JobStatus, JobTable};
use proof_aggregation::key::{aggregation_key, blob_key, ArtifactKey};
use proof_aggregation::manager::{
    assemble, copy_bytes, frame, prepare_job, process_job, NotFoundError, PreparedJob,
};
use proof_aggregation::round::{Round, Topology};
use proof_aggregation::wiring::EthTxManagerLayer;

const INFO: BatchInfo = BatchInfo { protocol_version: 24, sealed_at: 1_700_000_000 };

fn topology() -> Topology {
    Topology::new(5, 2, vec![(1, 3), (4, 6), (8, 10)]).unwrap()
}

fn text(urls: Vec<Vec<u8>>) -> Vec<String> {
    urls.into_iter().map(|url| String::from_utf8(url).unwrap()).collect()
}

fn prepared(circuit_id: u8, round: Round, batch: u32, circuits: usize) -> PreparedJob {
    PreparedJob {
        id: 1,
        batch,
        circuit_id,
        round,
        depth: 0,
        seq: 0,
        first_blob: 0,
        circuits: (0..circuits).map(|i| vec![i as u8; 3]).collect(),
        setup_key: vec![9, 9, 9],
    }
}

/// A proving function that answers with the circuit behind the key.
fn echo(circuit: &Vec<u8>, key: &Vec<u8>) -> Result<Vec<u8>, String> {
    let mut proof = key.clone();
    proof.extend(circuit.iter());
    Ok(proof)
}

fn unreadable<T>(why: &str) -> Attempt<T> {
    Attempt::Unreadable(why.to_owned())
}

fn fallback<T: std::fmt::Debug>(step: LoadStep<T>) -> LoadState {
    match step {
        LoadStep::Fallback(state) => state,
        other => panic!("expected a fallback, got {other:?}"),
    }
}

#[test]
fn content_in_the_current_format_is_loaded_at_once() {
    let state = LoadState::start();
    assert_eq!(state, LoadState::TryCurrent);
    assert_eq!(state.format(), Format::Current);
    assert_eq!(
        state.record(Attempt::Read(7u32)),
        LoadStep::Loaded { value: 7, format: Format::Current }
    );
}

#[test]
fn content_in_the_legacy_format_is_loaded_after_a_fallback() {
    let state = fallback(LoadState::start().record(unreadable::<u32>("no cbor")));
    assert_eq!(state, LoadState::TryLegacy { current_error: Some("no cbor".to_owned()) });
    assert_eq!(state.format(), Format::Legacy);
    assert_eq!(
        state.record(Attempt::Read(7u32)),
        LoadStep::Loaded { value: 7, format: Format::Legacy }
    );
    // Nothing stored in the current format leads to the legacy format too.
    let state = fallback(LoadState::start().record(Attempt::<u32>::Missing));
    assert_eq!(state, LoadState::TryLegacy { current_error: None });
    assert_eq!(
        state.record(Attempt::Read(7u32)),
        LoadStep::Loaded { value: 7, format: Format::Legacy }
    );
}

#[test]
fn only_a_double_failure_is_an_error() {
    let state = fallback(LoadState::start().record(unreadable::<u32>("bad tag")));
    let error = match state.record(unreadable::<u32>("short read")) {
        LoadStep::Failed(error) => error,
        other => panic!("expected a failure, got {other:?}"),
    };
    assert_eq!(
        error,
        RetrievalError { current: "bad tag".to_owned(), legacy: "short read".to_owned() }
    );
    assert_eq!(
        error.message(),
        "Getting data with bincode failed with short read, getting data with CBOR failed with bad tag"
    );
}

#[test]
fn content_that_is_not_there_is_not_found() {
    let state = fallback(LoadState::start().record(Attempt::<u32>::Missing));
    assert_eq!(state.record(Attempt::<u32>::Missing), LoadStep::NotFound);
    assert_eq!(resolve::<u32>(Attempt::Missing, Attempt::Missing), Ok(None));
    // Content that is there in one format and cannot be read is an error.
    assert_eq!(
        resolve::<u32>(Attempt::Missing, unreadable("short read")),
        Err(RetrievalError { current: "not found".to_owned(), legacy: "short read".to_owned() })
    );
    assert_eq!(
        resolve::<u32>(unreadable("bad tag"), Attempt::Missing),
        Err(RetrievalError { current: "bad tag".to_owned(), legacy: "not found".to_owned() })
    );
}

#[test]
fn a_legacy_blob_gives_the_value_that_the_current_format_gives() {
    let value = vec![1u8, 2, 3];
    let direct = resolve(Attempt::Read(value.clone()), unreadable("unused")).unwrap().unwrap();
    let fallback = resolve(unreadable("no cbor"), Attempt::Read(value.clone())).unwrap().unwrap();
    let only = resolve(Attempt::Missing, Attempt::Read(value.clone())).unwrap().unwrap();
    assert_eq!(direct, (value.clone(), Format::Current));
    assert_eq!(fallback, (value.clone(), Format::Legacy));
    assert_eq!(only, (value.clone(), Format::Legacy));
    // What is written again from either is the same, byte for byte.
    assert_eq!(copy_bytes(&direct.0), copy_bytes(&fallback.0));
    assert_eq!(frame(&vec![direct.0]), frame(&vec![fallback.0]));
    // The current format wins when both can be read.
    assert_eq!(resolve(Attempt::Read(1u8), Attempt::Read(2u8)), Ok(Some((1, Format::Current))));
    assert_eq!(
        resolve::<u8>(unreadable("a"), unreadable("b")),
        Err(RetrievalError { current: "a".to_owned(), legacy: "b".to_owned() })
    );
}

#[test]
fn a_basic_job_writes_its_circuit_and_the_two_witness_blobs() {
    let keys = output_keys(100, 1, Round::BasicCircuits, 0, 4, 4, 1).unwrap();
    assert_eq!(
        keys,
        vec![
            ArtifactKey::Circuit {
                batch: 100,
                circuit_id: 1,
                round: Round::BasicCircuits,
                depth: 0,
                seq: 4,
            },
            ArtifactKey::AuxOutputWitness { batch: 100, circuit_id: 1, job: 4 },
            ArtifactKey::SchedulerWitness { batch: 100, circuit_id: 1, job: 4 },
        ]
    );
    let urls = text(blob_urls(&keys));
    assert_eq!(
        urls,
        vec![
            "100_4_1_BasicCircuits_0.bin",
            "aux_output_witness_100_1_4.bin",
            "scheduler_witness_100_1_4.bin",
        ]
    );
    // The location handed on is that of the last write.
    assert_eq!(urls.last().unwrap(), "scheduler_witness_100_1_4.bin");
}

#[test]
fn an_aggregation_job_writes_its_circuits_and_the_next_partial_input() {
    let leaf = output_keys(125010, 6, Round::LeafAggregation, 0, 0, 0, 3).unwrap();
    assert_eq!(
        blob_urls(&leaf),
        vec![
            blob_key(125010, 6, Round::LeafAggregation, 0, 0),
            blob_key(125010, 6, Round::LeafAggregation, 0, 1),
            blob_key(125010, 6, Round::LeafAggregation, 0, 2),
            aggregation_key(125010, 6, 0, 0),
        ]
    );
    // The second node job at depth 0, after a sibling with two circuits.
    let node = output_keys(127856, 10, Round::NodeAggregation, 0, 1, 2, 1).unwrap();
    assert_eq!(
        blob_urls(&node),
        vec![blob_key(127856, 10, Round::NodeAggregation, 0, 2), aggregation_key(127856, 10, 1, 1)]
    );
    let empty = output_keys(1, 3, Round::LeafAggregation, 0, 2, 9, 0).unwrap();
    assert_eq!(
        empty,
        vec![ArtifactKey::Aggregation { batch: 1, circuit_id: 3, depth: 0, group: 2 }]
    );
}

#[test]
fn the_last_rounds_write_their_circuit_blobs_only() {
    for round in [Round::RecursionTip, Round::Scheduler] {
        let keys = output_keys(100, 77, round, 2, 0, 0, 1).unwrap();
        assert_eq!(
            keys,
            vec![ArtifactKey::Circuit { batch: 100, circuit_id: 77, round, depth: 2, seq: 0 }]
        );
        assert_eq!(output_keys(100, 77, round, 2, 0, 0, 0), Some(vec![]));
    }
}

#[test]
fn there_is_no_plan_beyond_what_a_key_can_say() {
    assert_eq!(output_keys(100, 1, Round::NodeAggregation, u16::MAX, 0, 0, 3), None);
    assert!(output_keys(100, 1, Round::NodeAggregation, u16::MAX - 1, 0, 0, 3).is_some());
    assert!(output_keys(100, 1, Round::LeafAggregation, u16::MAX, 0, 0, 3).is_some());
    assert_eq!(output_keys(100, 1, Round::LeafAggregation, 0, 0, usize::MAX, 2), None);
    assert_eq!(output_keys(100, 1, Round::LeafAggregation, 0, 0, usize::MAX - 1, 3), None);
    let last = output_keys(100, 1, Round::RecursionTip, 0, 0, usize::MAX, 1).unwrap();
    assert_eq!(
        last,
        vec![ArtifactKey::Circuit {
            batch: 100,
            circuit_id: 1,
            round: Round::RecursionTip,
            depth: 0,
            seq: usize::MAX,
        }]
    );
    assert!(output_keys(100, 1, Round::Scheduler, 0, 0, usize::MAX, 0).is_some());
}

#[test]
fn the_keys_of_a_plan_are_pairwise_distinct() {
    for round in [Round::BasicCircuits, Round::LeafAggregation, Round::NodeAggregation] {
        let urls = blob_urls(&output_keys(100, 1, round, 0, 3, 40, 12).unwrap());
        for i in 0..urls.len() {
            for j in 0..i {
                assert_ne!(urls[i], urls[j]);
            }
        }
    }
}

#[test]
fn content_is_written_once() {
    let content = b"proof".to_vec();
    assert_eq!(write_decision(None, &content), WriteDecision::Write);
    assert_eq!(write_decision(Some(&b"proof".to_vec()), &content), WriteDecision::Keep);
    assert_eq!(write_decision(Some(&b"prooF".to_vec()), &content), WriteDecision::Refuse);
    assert_eq!(write_decision(Some(&b"proo".to_vec()), &content), WriteDecision::Refuse);
    assert_eq!(write_decision(Some(&vec![]), &vec![]), WriteDecision::Keep);
    assert!(same_bytes(&vec![1, 2], &vec![1, 2]));
    assert!(!same_bytes(&vec![1, 2], &vec![2, 1]));
    assert!(!same_bytes(&vec![1, 2], &vec![1, 2, 3]));
}

#[test]
fn framing_puts_each_part_behind_its_length() {
    assert_eq!(frame(&vec![]), Vec::<u8>::new());
    let parts = vec![b"ab".to_vec(), vec![], b"xyz".to_vec()];
    let mut expected = vec![0u8, 0, 0, 0, 0, 0, 0, 2, b'a', b'b'];
    expected.extend([0u8; 8]);
    expected.extend([0u8, 0, 0, 0, 0, 0, 0, 3, b'x', b'y', b'z']);
    assert_eq!(frame(&parts), expected);
    let long = vec![vec![5u8; 0x1_02_03]];
    let framed = frame(&long);
    assert_eq!(framed[..8], [0u8, 0, 0, 0, 0, 1, 2, 3]);
    assert_eq!(framed.len(), 8 + 0x1_02_03);
}

/// A leaf job of batch 100 with `members` inputs, behind a sibling with two.
fn leaf_job(members: usize) -> Job {
    let topology = Topology::new(2, 2, vec![(4, 6)]).unwrap();
    let mut table = JobTable::new();
    for _ in 0..2 + members {
        table.enqueue_basic(100, 4, INFO).unwrap();
    }
    for id in 0..2 + members {
        assert!(table.claim(id));
        table.record_completion(id, 1, vec![vec![id as u8]], Some(INFO), &topology).unwrap();
    }
    // Jobs 0 and 1 are consumed by the first leaf job; the rest by the next ones.
    let mut job = table.rows[2 + members + 1].clone();
    let rest: Vec<usize> = (2..2 + members).collect();
    job.members = rest;
    job
}

#[test]
fn a_job_is_prepared_when_everything_was_found() {
    let job = leaf_job(3);
    assert_eq!((job.seq, job.first_blob, job.width()), (1, 2, 3));
    let inputs = vec![Some(vec![1u8, 2]), Some(vec![]), Some(vec![3])];
    let key = vec![8u8];
    let prepared = prepare_job(&job, &inputs, Some(&key)).unwrap();
    assert_eq!(
        prepared,
        PreparedJob {
            id: job.id,
            batch: 100,
            circuit_id: 6,
            round: Round::LeafAggregation,
            depth: 0,
            seq: 1,
            first_blob: 2,
            circuits: vec![vec![1, 2], vec![], vec![3]],
            setup_key: vec![8],
        }
    );
    assert!(prepared.is_well_formed());
    // A basic job has one input: its circuit.
    let mut table = JobTable::new();
    let id = table.enqueue_basic(100, 4, INFO).unwrap();
    let basic = prepare_job(&table.rows[id], &vec![Some(vec![5u8])], Some(&key)).unwrap();
    assert_eq!(basic.circuits, vec![vec![5u8]]);
    assert_eq!((basic.round, basic.seq, basic.first_blob), (Round::BasicCircuits, 0, 0));
}

#[test]
fn a_missing_input_or_key_is_reported() {
    let job = leaf_job(4);
    let key = vec![8u8];
    let inputs = vec![Some(vec![1u8]), None, Some(vec![3]), None];
    assert_eq!(prepare_job(&job, &inputs, Some(&key)), Err(NotFoundError::Input(1)));
    assert_eq!(prepare_job(&job, &inputs, None), Err(NotFoundError::Input(1)));
    // An input that was not handed in is missing too.
    let short = vec![Some(vec![1u8]), Some(vec![2])];
    assert_eq!(prepare_job(&job, &short, Some(&key)), Err(NotFoundError::Input(2)));
    assert_eq!(prepare_job(&job, &vec![], None), Err(NotFoundError::Input(0)));
    let all = vec![Some(vec![1u8]); 4];
    assert_eq!(prepare_job(&job, &all, None), Err(NotFoundError::SetupKey));
    assert!(prepare_job(&job, &all, Some(&key)).is_ok());
}

#[test]
fn a_job_out_of_shape_is_refused() {
    let job = leaf_job(2);
    let key = vec![8u8];
    let surplus = vec![Some(vec![1u8]); 3];
    assert_eq!(prepare_job(&job, &surplus, Some(&key)), Err(NotFoundError::Malformed));
    assert_eq!(prepare_job(&job, &surplus, None), Err(NotFoundError::Malformed));
    let mut far = job.clone();
    far.first_blob = usize::MAX;
    let inputs = vec![Some(vec![1u8]); 2];
    assert_eq!(prepare_job(&far, &inputs, Some(&key)), Err(NotFoundError::Malformed));
    far.first_blob = usize::MAX - 1;
    let last = prepare_job(&far, &inputs, Some(&key)).unwrap();
    assert!(last.is_well_formed());
    let out = process_job(&last, &echo).unwrap();
    assert_eq!(
        out.circuit_ids_and_urls[1].1,
        blob_key(100, 6, Round::LeafAggregation, 0, usize::MAX)
    );
    let mut beyond = last.clone();
    beyond.first_blob = usize::MAX;
    assert!(!beyond.is_well_formed());
}

#[test]
fn a_job_reads_what_each_member_of_its_group_handed_over() {
    let topology = topology();
    let mut table = JobTable::new();
    for _ in 0..3 {
        table.enqueue_basic(100, 1, INFO).unwrap();
    }
    let written = [vec![b"a0".to_vec(), b"a1".to_vec()], vec![], vec![b"c0".to_vec()]];
    for id in 0..3 {
        assert!(table.claim(id));
        table.record_completion(id, 1, written[id].clone(), Some(INFO), &topology).unwrap();
    }
    assert_eq!(table.rows[3].members, vec![0, 1, 2]);
    // One input for each member: what it wrote last, or nothing.
    assert_eq!(
        table.input_urls(3),
        Some(vec![Some(b"a1".to_vec()), None, Some(b"c0".to_vec())])
    );
    assert_eq!(table.input_urls(0), Some(vec![]));
    assert_eq!(table.input_urls(4), None);
    assert_eq!(table.status_of(3), Some(JobStatus::Queued));
}

#[test]
fn a_leaf_job_is_prepared_processed_and_keyed() {
    let job = leaf_job(3);
    let inputs: Vec<Option<Vec<u8>>> = (0..3u8).map(|i| Some(vec![i; 3])).collect();
    let setup_key = vec![9u8, 9, 9];
    let prepared = prepare_job(&job, &inputs, Some(&setup_key)).unwrap();
    let artifacts = process_job(&prepared, &echo).unwrap();
    assert_eq!(artifacts.proofs.len(), 3);
    for (idx, circuit_metadata) in artifacts.circuit_ids_and_urls.iter().enumerate() {
        assert_eq!(job.circuit_id, circuit_metadata.0);
        let circuit_key = ArtifactKey::Circuit {
            batch: 100,
            seq: job.first_blob + idx,
            circuit_id: job.circuit_id,
            round: Round::LeafAggregation,
            depth: 0,
        };
        assert_eq!(circuit_metadata.1, circuit_key.encode());
        assert_eq!(artifacts.proofs[idx], vec![9, 9, 9, idx as u8, idx as u8, idx as u8]);
    }
    let agg_key =
        ArtifactKey::Aggregation { batch: 100, circuit_id: 6, depth: 0, group: job.seq };
    let plan = output_keys(100, job.circuit_id, job.round, job.depth, job.seq, job.first_blob, 3);
    let plan = plan.unwrap();
    assert_eq!(plan.last(), Some(&agg_key));
    assert_eq!(agg_key.encode(), b"aggregations_100_6_0_1.bin");
    assert_eq!(artifacts.aggregations, frame(&artifacts.proofs));
    // The circuit keys of the plan are the keys the proofs were assembled under.
    let urls = blob_urls(&plan);
    for (idx, circuit_metadata) in artifacts.circuit_ids_and_urls.iter().enumerate() {
        assert_eq!(urls[idx], circuit_metadata.1);
    }
}

#[test]
fn a_node_job_hands_on_one_level_deeper() {
    let job = prepared(10, Round::NodeAggregation, 127856, 1);
    let artifacts = process_job(&job, &echo).unwrap();
    assert_eq!(artifacts.circuit_ids_and_urls.len(), 1);
    assert_eq!(
        artifacts.circuit_ids_and_urls[0],
        (10, b"127856_0_10_NodeAggregation_0.bin".to_vec())
    );
    let agg_key = ArtifactKey::Aggregation { batch: 127856, circuit_id: 10, depth: 1, group: 0 };
    let plan = output_keys(127856, 10, Round::NodeAggregation, 0, 0, 0, 1);
    assert_eq!(plan.unwrap().last(), Some(&agg_key));
    assert_eq!(agg_key.encode(), b"aggregations_127856_10_1_0.bin");
    assert_eq!(artifacts.aggregations, vec![0, 0, 0, 0, 0, 0, 0, 6, 9, 9, 9, 0, 0, 0]);
}

#[test]
fn the_first_failing_circuit_ends_the_run() {
    let job = prepared(4, Round::LeafAggregation, 1, 4);
    let prove = |circuit: &Vec<u8>, _key: &Vec<u8>| -> Result<Vec<u8>, String> {
        if circuit[0] >= 2 {
            Err(format!("circuit {} is unsatisfiable", circuit[0]))
        } else {
            Ok(circuit.clone())
        }
    };
    let error = process_job(&job, &prove).unwrap_err();
    assert_eq!(error.circuit, 2);
    assert_eq!(error.message, "circuit 2 is unsatisfiable");
}

#[test]
fn proofs_are_assembled_in_circuit_order() {
    let job = prepared(4, Round::NodeAggregation, 7, 2);
    let out = assemble(&job, vec![b"p0".to_vec(), b"p1".to_vec()]);
    assert_eq!(out.proofs, vec![b"p0".to_vec(), b"p1".to_vec()]);
    assert_eq!(
        out.circuit_ids_and_urls,
        vec![
            (4, b"7_0_4_NodeAggregation_0.bin".to_vec()),
            (4, b"7_1_4_NodeAggregation_0.bin".to_vec()),
        ]
    );
    assert_eq!(
        out.aggregations,
        vec![0, 0, 0, 0, 0, 0, 0, 2, b'p', b'0', 0, 0, 0, 0, 0, 0, 0, 2, b'p', b'1']
    );
    let none = assemble(&job, vec![]);
    assert!(none.circuit_ids_and_urls.is_empty() && none.aggregations.is_empty());
}

#[test]
fn the_sender_layer_has_its_names() {
    assert_eq!(EthTxManagerLayer.layer_name(), "eth_tx_manager_layer");
    assert_eq!(EthTxManagerLayer.task_id(), "eth_tx_manager");
}

#[test]
fn integration_args_hold_what_was_asked() {
    let args = IntegrationArgs {
        external_node: true,
        no_deps: false,
        evm: true,
        test_pattern: Some("--grep fees".to_owned()),
    };
    assert!(args.external_node && !args.no_deps && args.evm);
    assert_eq!(args.test_pattern.as_deref(), Some("--grep fees"));
    assert_eq!(args.clone(), args);
}

#[test]
fn each_key_gets_its_blob() {
    let proofs = vec![b"p0".to_vec(), b"p1".to_vec()];
    let framed = frame(&proofs);
    for round in [
        Round::BasicCircuits,
        Round::LeafAggregation,
        Round::NodeAggregation,
        Round::RecursionTip,
        Round::Scheduler,
    ] {
        let job = prepared(1, round, 100, 2);
        let out = assemble(&job, proofs.clone());
        let keys = output_keys(100, 1, round, 0, 0, 0, 2).unwrap();
        let blobs = output_blobs(round, out, b"aux".to_vec());
        assert_eq!(blobs.len(), keys.len());
        let mut expected = proofs.clone();
        match round {
            Round::BasicCircuits => expected.extend([b"aux".to_vec(), framed.clone()]),
            Round::LeafAggregation | Round::NodeAggregation => expected.push(framed.clone()),
            _ => {}
        }
        assert_eq!(blobs, expected);
    }
}
