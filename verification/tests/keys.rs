use proof_aggregation::format::{format_to_try, Format};
use proof_aggregation::key::{aggregation_key, blob_key, push_decimal, ArtifactKey};
use proof_aggregation::round::{next_round, Round, Topology};

const ROUNDS: [Round; 5] = [
    Round::BasicCircuits,
    Round::LeafAggregation,
    Round::NodeAggregation,
    Round::RecursionTip,
    Round::Scheduler,
];

fn text(bytes: Vec<u8>) -> String {
    String::from_utf8(bytes).unwrap()
}

#[test]
fn circuit_key_has_the_documented_layout() {
    assert_eq!(
        text(blob_key(125010, 4, Round::LeafAggregation, 0, 2)),
        "125010_2_4_LeafAggregation_0.bin"
    );
    assert_eq!(
        text(blob_key(127856, 8, Round::NodeAggregation, 0, 0)),
        "127856_0_8_NodeAggregation_0.bin"
    );
    assert_eq!(text(blob_key(0, 0, Round::BasicCircuits, 0, 0)), "0_0_0_BasicCircuits_0.bin");
    assert_eq!(
        text(blob_key(1, 255, Round::RecursionTip, 7, 10)),
        "1_10_255_RecursionTip_7.bin"
    );
    assert_eq!(text(blob_key(9, 1, Round::Scheduler, 3, 99)), "9_99_1_Scheduler_3.bin");
}

#[test]
fn aggregation_key_has_the_documented_layout() {
    assert_eq!(text(aggregation_key(125010, 6, 0, 0)), "aggregations_125010_6_0_0.bin");
    assert_eq!(text(aggregation_key(127856, 10, 1, 3)), "aggregations_127856_10_1_3.bin");
}

#[test]
fn batch_level_keys_have_the_documented_layout() {
    assert_eq!(
        text(ArtifactKey::AuxOutputWitness { batch: 42, circuit_id: 1, job: 0 }.encode()),
        "aux_output_witness_42_1_0.bin"
    );
    assert_eq!(
        text(ArtifactKey::SchedulerWitness { batch: 42, circuit_id: 13, job: 7 }.encode()),
        "scheduler_witness_42_13_7.bin"
    );
    assert_eq!(
        text(ArtifactKey::WitnessInput { batch: 42, format: Format::Current }.encode()),
        "witness_inputs_42.cbor"
    );
    assert_eq!(
        text(ArtifactKey::WitnessInput { batch: 42, format: Format::Legacy }.encode()),
        "witness_inputs_42.bin"
    );
}

#[test]
fn keys_hold_the_largest_coordinates() {
    let key = blob_key(u32::MAX, u8::MAX, Round::NodeAggregation, u16::MAX, usize::MAX);
    assert_eq!(
        text(key),
        format!("4294967295_{}_255_NodeAggregation_65535.bin", usize::MAX)
    );
}

#[test]
fn deriving_a_key_twice_gives_the_same_bytes() {
    for round in ROUNDS {
        for seq in [0usize, 1, 9, 10, 11, 100] {
            assert_eq!(blob_key(100, 3, round, 2, seq), blob_key(100, 3, round, 2, seq));
        }
    }
    assert_eq!(aggregation_key(100, 3, 2, 1), aggregation_key(100, 3, 2, 1));
}

#[test]
fn keys_of_different_rounds_never_collide() {
    for a in ROUNDS {
        for b in ROUNDS {
            let same = blob_key(100, 3, a, 0, 0) == blob_key(100, 3, b, 0, 0);
            assert_eq!(same, a == b);
        }
    }
}

#[test]
fn neighbouring_coordinates_give_different_keys() {
    // Digits that move from one field to the next must not give the same key.
    assert_ne!(blob_key(1, 3, Round::LeafAggregation, 0, 11), blob_key(11, 3, Round::LeafAggregation, 0, 1));
    assert_ne!(blob_key(12, 3, Round::LeafAggregation, 0, 3), blob_key(1, 3, Round::LeafAggregation, 0, 23));
    assert_ne!(aggregation_key(1, 23, 4, 0), aggregation_key(12, 3, 4, 0));
    assert_ne!(aggregation_key(1, 2, 34, 0), aggregation_key(1, 23, 4, 0));
    assert_ne!(aggregation_key(1, 2, 3, 45), aggregation_key(1, 2, 34, 5));
    assert_ne!(
        ArtifactKey::AuxOutputWitness { batch: 7, circuit_id: 1, job: 0 }.encode(),
        ArtifactKey::SchedulerWitness { batch: 7, circuit_id: 1, job: 0 }.encode()
    );
    assert_ne!(
        ArtifactKey::AuxOutputWitness { batch: 7, circuit_id: 1, job: 12 }.encode(),
        ArtifactKey::AuxOutputWitness { batch: 71, circuit_id: 1, job: 2 }.encode()
    );
    assert_ne!(
        ArtifactKey::AuxOutputWitness { batch: 7, circuit_id: 1, job: 0 }.encode(),
        ArtifactKey::AuxOutputWitness { batch: 7, circuit_id: 2, job: 0 }.encode()
    );
}

#[test]
fn push_decimal_appends_the_digits() {
    let mut out = b"n=".to_vec();
    push_decimal(&mut out, 0);
    push_decimal(&mut out, 9);
    push_decimal(&mut out, 10);
    push_decimal(&mut out, 1234567890);
    push_decimal(&mut out, u64::MAX);
    assert_eq!(text(out), "n=0910123456789018446744073709551615");
}

#[test]
fn rounds_follow_each_other_in_order() {
    assert_eq!(next_round(Round::BasicCircuits), Some(Round::LeafAggregation));
    assert_eq!(next_round(Round::LeafAggregation), Some(Round::NodeAggregation));
    assert_eq!(next_round(Round::NodeAggregation), Some(Round::RecursionTip));
    assert_eq!(next_round(Round::RecursionTip), Some(Round::Scheduler));
    assert_eq!(next_round(Round::Scheduler), None);
    for (i, round) in ROUNDS.iter().enumerate() {
        assert_eq!(round.index() as usize, i);
        for (j, other) in ROUNDS.iter().enumerate() {
            assert_eq!(round.precedes(*other), i < j);
        }
    }
}

#[test]
fn round_names_are_the_variant_names() {
    assert_eq!(text(Round::BasicCircuits.name_bytes()), "BasicCircuits");
    assert_eq!(text(Round::LeafAggregation.name_bytes()), "LeafAggregation");
    assert_eq!(text(Round::NodeAggregation.name_bytes()), "NodeAggregation");
    assert_eq!(text(Round::RecursionTip.name_bytes()), "RecursionTip");
    assert_eq!(text(Round::Scheduler.name_bytes()), "Scheduler");
}

#[test]
fn topology_refuses_group_sizes_that_are_too_small() {
    assert!(Topology::new(0, 2, vec![]).is_none());
    assert!(Topology::new(1, 1, vec![]).is_none());
    assert!(Topology::new(1, 0, vec![]).is_none());
    // A base circuit maps once, and no two of them to one recursive circuit.
    assert!(Topology::new(1, 2, vec![(1, 3), (4, 6), (1, 99)]).is_none());
    assert!(Topology::new(1, 2, vec![(1, 3), (4, 6), (2, 3)]).is_none());
    assert!(Topology::new(1, 2, vec![(1, 3), (3, 1)]).is_some());
    let mut topology = Topology::new(1, 2, vec![]).unwrap();
    assert_eq!(topology.leaf_group, 1);
    assert_eq!(topology.node_group, 2);
    assert!(topology.is_well_formed());
    topology.node_group = 1;
    assert!(!topology.is_well_formed());
    topology.node_group = 2;
    topology.recursive_ids = vec![(1, 3), (2, 3)];
    assert!(!topology.is_well_formed());
}

#[test]
fn group_sizes_come_from_the_topology() {
    let topology = Topology::new(5, 3, vec![]).unwrap();
    assert_eq!(topology.group_size(Round::BasicCircuits), 0);
    assert_eq!(topology.group_size(Round::LeafAggregation), 5);
    assert_eq!(topology.group_size(Round::NodeAggregation), 3);
    assert_eq!(topology.group_size(Round::RecursionTip), 1);
    assert_eq!(topology.group_size(Round::Scheduler), 1);
}

#[test]
fn circuits_are_remapped_when_they_leave_the_first_round() {
    let topology = Topology::new(5, 2, vec![(1, 3), (4, 6), (8, 10)]).unwrap();
    assert_eq!(topology.remap_circuit_id(Round::BasicCircuits, 1), Some(3));
    assert_eq!(topology.remap_circuit_id(Round::BasicCircuits, 4), Some(6));
    assert_eq!(topology.remap_circuit_id(Round::BasicCircuits, 8), Some(10));
    assert_eq!(topology.remap_circuit_id(Round::BasicCircuits, 2), None);
    assert_eq!(topology.recursive_circuit_id(4), Some(6));
    assert_eq!(topology.recursive_circuit_id(5), None);
    for round in [
        Round::LeafAggregation,
        Round::NodeAggregation,
        Round::RecursionTip,
        Round::Scheduler,
    ] {
        assert_eq!(topology.remap_circuit_id(round, 1), Some(1));
        assert_eq!(topology.remap_circuit_id(round, 2), Some(2));
    }
}

#[test]
fn formats_are_tried_current_first() {
    assert_eq!(format_to_try(0), Some(Format::Current));
    assert_eq!(format_to_try(1), Some(Format::Legacy));
    assert_eq!(format_to_try(2), None);
    assert_eq!(format_to_try(usize::MAX), None);
    assert_eq!(text(Format::Current.extension_bytes()), ".cbor");
    assert_eq!(text(Format::Legacy.extension_bytes()), ".bin");
}
