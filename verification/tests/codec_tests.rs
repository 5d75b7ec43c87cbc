use two_phase_election::codec::{
    decode_phase, decode_raw_solution, decode_ready_solution, decode_signed_submission,
    encode_phase, encode_raw_solution, encode_ready_solution, encode_signed_submission,
};
use two_phase_election::compact::{CompactSolution, RawSolution, SignedSubmission};
use two_phase_election::types::{
    ElectionCompute, ElectionScore, Phase, ReadySolution, Support,
};

fn sample_raw_solution() -> RawSolution {
    RawSolution {
        compact: CompactSolution {
            votes: vec![(0, vec![(0, 1_000_000_000)]), (4, vec![(1, 400), (3, 600)])],
        },
        score: ElectionScore { minimal_stake: 17, sum_stake: 40, sum_stake_squared: 1234 },
        round: 3,
    }
}

fn sample_ready_solution() -> ReadySolution {
    ReadySolution {
        supports: vec![
            (10, Support { total: 25, voters: vec![(1, 10), (4, 15)] }),
            (40, Support { total: 40, voters: vec![(3, 40)] }),
        ],
        score: ElectionScore { minimal_stake: 25, sum_stake: 65, sum_stake_squared: 2225 },
        compute: ElectionCompute::Signed,
    }
}

#[test]
fn raw_solution_codec_round_trips() {
    let original = sample_raw_solution();
    let encoded = encode_raw_solution(&original);
    assert_eq!(decode_raw_solution(&encoded), Some(original));
}

#[test]
fn ready_solution_codec_round_trips() {
    let original = sample_ready_solution();
    let encoded = encode_ready_solution(&original);
    assert_eq!(decode_ready_solution(&encoded), Some(original));
}

#[test]
fn phase_codec_round_trips() {
    for original in [Phase::Off, Phase::Signed, Phase::Unsigned(true, 25), Phase::Unsigned(false, 7)] {
        let encoded = encode_phase(&original);
        assert_eq!(decode_phase(&encoded), Some(original));
    }
}

#[test]
fn signed_submission_codec_round_trips() {
    let original = SignedSubmission {
        who: 99,
        deposit: 138,
        reward: 12,
        solution: sample_raw_solution(),
    };
    let encoded = encode_signed_submission(&original);
    assert_eq!(decode_signed_submission(&encoded), Some(original));
}

#[test]
fn truncated_input_is_rejected() {
    let encoded = encode_raw_solution(&sample_raw_solution());
    let mut short = encoded.clone();
    short.pop();
    assert_eq!(decode_raw_solution(&short), None);
    let mut long = encoded;
    long.push(0);
    assert_eq!(decode_raw_solution(&long), None);
}
