use djvulpes::zp::{SpecZpDecoder, StandardZpTables, ZpTableGenerator, ZpTableSet};

struct OracleZpTableGenerator;

impl ZpTableGenerator for OracleZpTableGenerator {
    fn delta_of(&self, _state: usize) -> u16 {
        unreachable!()
    }

    fn theta_of(&self, _state: usize) -> u16 {
        unreachable!()
    }

    fn mu_of(&self, _state: usize) -> u8 {
        unreachable!()
    }

    fn lambda_of(&self, _state: usize) -> u8 {
        unreachable!()
    }

    fn delta(&self, state: usize) -> u16 {
        djvu_zp::tables::PROB[state]
    }

    fn theta(&self, state: usize) -> u16 {
        djvu_zp::tables::THRESHOLD[state]
    }

    fn mu(&self, state: usize) -> u8 {
        djvu_zp::tables::MPS_NEXT[state]
    }

    fn lambda(&self, state: usize) -> u8 {
        djvu_zp::tables::LPS_NEXT[state]
    }
}

fn candidate_zp_table_set() -> ZpTableSet {
    ZpTableSet::generate(&StandardZpTables)
}

fn djvu_zp_oracle_table_set() -> ZpTableSet {
    ZpTableSet {
        delta: djvu_zp::tables::PROB,
        theta: djvu_zp::tables::THRESHOLD,
        mu: djvu_zp::tables::MPS_NEXT,
        lambda: djvu_zp::tables::LPS_NEXT,
    }
}

#[test]
fn spec_zp_context_decode_updates_mps_and_lps_states() {
    let tables = ZpTableSet {
        delta: [0x8000; 256],
        theta: [0; 256],
        mu: [83; 256],
        lambda: [84; 256],
    };
    let mut mps_decoder = SpecZpDecoder::new(&[0xff, 0xff]);
    let mut mps_context = 0;
    let mut lps_decoder = SpecZpDecoder::new(&[0x00, 0x00]);
    let mut lps_context = 0;

    let mps_bit = mps_decoder.decode_bit(&mut mps_context, &tables);
    let lps_bit = lps_decoder.decode_bit(&mut lps_context, &tables);

    assert_eq!(mps_bit, 0);
    assert_eq!(mps_context, 83);
    assert_eq!(lps_bit, 1);
    assert_eq!(lps_context, 84);
}

#[test]
fn spec_zp_context_decode_matches_djvu_zp_oracle() {
    let tables = candidate_zp_table_set();
    let mixed: Vec<u8> = (0..200u32).map(|i| (i * 37 % 256) as u8).collect();
    let cases: &[&[u8]] = &[
        &mixed,
        &[0xff, 0xff, 0xff, 0xff],
        &[0x00, 0x00, 0x00, 0x00],
        &[0x55, 0xaa, 0x33, 0xcc],
        &[0x80, 0x00, 0x7f, 0xff, 0x01],
    ];

    for input in cases {
        let mut ours = SpecZpDecoder::new(input);
        let mut oracle = djvu_zp::ZpDecoder::new(input).expect("test case should initialize ZP");
        let mut our_contexts = [0; 16];
        let mut oracle_contexts = [0; 16];

        for step in 0..256 {
            let context = (step * 7) % our_contexts.len();
            let our_bit = ours.decode_bit(&mut our_contexts[context], &tables) != 0;
            let oracle_bit = oracle.decode_bit(&mut oracle_contexts[context]);

            assert_eq!(
                our_bit, oracle_bit,
                "bit mismatch for input {input:02x?}, step {step}, context {context}"
            );
            assert_eq!(
                our_contexts[context], oracle_contexts[context],
                "context mismatch for input {input:02x?}, step {step}, context {context}"
            );
        }
    }
}

#[test]
fn spec_zp_mixed_passthrough_and_context_decode_matches_djvu_zp_oracle() {
    let tables = candidate_zp_table_set();
    let input: Vec<u8> = (0..200u32).map(|i| (i * 91 % 256) as u8).collect();
    let mut ours = SpecZpDecoder::new(&input);
    let mut oracle = djvu_zp::ZpDecoder::new(&input).expect("input should initialize ZP");

    for step in 0..26 {
        assert_eq!(
            ours.decode_raw() != 0,
            oracle.decode_passthrough(),
            "passthrough mismatch at step {step}"
        );
    }

    let mut our_contexts = [0; 16];
    let mut oracle_contexts = [0; 16];
    for step in 0..256 {
        let context = (step * 7) % our_contexts.len();
        let our_bit = ours.decode_bit(&mut our_contexts[context], &tables) != 0;
        let oracle_bit = oracle.decode_bit(&mut oracle_contexts[context]);

        assert_eq!(
            our_bit, oracle_bit,
            "bit mismatch after passthrough at step {step}, context {context}"
        );
        assert_eq!(
            our_contexts[context], oracle_contexts[context],
            "context mismatch after passthrough at step {step}, context {context}"
        );
    }
}

#[test]
fn djvu_zp_oracle_tables_have_expected_public_shape() {
    assert_eq!(djvu_zp::tables::PROB.len(), 256);
    assert_eq!(djvu_zp::tables::THRESHOLD.len(), 256);
    assert_eq!(djvu_zp::tables::MPS_NEXT.len(), 256);
    assert_eq!(djvu_zp::tables::LPS_NEXT.len(), 256);

    assert!(djvu_zp_oracle_table_set().validate_shape());
}

#[test]
fn zp_table_set_can_be_generated_from_dev_oracle() {
    let tables = ZpTableSet::generate(&OracleZpTableGenerator);

    assert_eq!(tables.delta, djvu_zp::tables::PROB);
    assert_eq!(tables.theta, djvu_zp::tables::THRESHOLD);
    assert_eq!(tables.mu, djvu_zp::tables::MPS_NEXT);
    assert_eq!(tables.lambda, djvu_zp::tables::LPS_NEXT);
}

#[test]
fn candidate_zp_table_set_matches_dev_oracle() {
    assert_eq!(candidate_zp_table_set(), djvu_zp_oracle_table_set());
}

#[test]
fn zp_table_phases_match_spec_structure() {
    let tables = candidate_zp_table_set();

    assert_eq!(tables.theta[0], 0);
    assert_eq!(tables.theta[1], 0);
    assert_eq!(tables.theta[2], 0);

    for state in 3..=82 {
        assert!(
            tables.theta[state] > 0,
            "early-estimation state {state} should have a nonzero MPS update threshold"
        );
    }

    for state in 83..=250 {
        assert_eq!(
            tables.theta[state], 0,
            "steady-state state {state} should update on every decoded MPS"
        );
    }
}

#[test]
fn zp_initial_context_transitions_enter_late_estimation() {
    let tables = candidate_zp_table_set();

    assert!(
        (83..=250).contains(&usize::from(tables.mu[0])),
        "first MPS from a fresh context should leave the early-estimation range"
    );
    assert!(
        (83..=250).contains(&usize::from(tables.lambda[0])),
        "first LPS from a fresh context should leave the early-estimation range"
    );
    assert_eq!(
        tables.mu[0] & 1,
        0,
        "first MPS from a fresh context should keep zero as the MPS"
    );
    assert_eq!(
        tables.lambda[0] & 1,
        1,
        "first LPS from a fresh context should make one the MPS"
    );
}

#[test]
fn zp_early_estimation_pairs_share_probability_and_threshold() {
    let tables = candidate_zp_table_set();

    for state in (3..=81).step_by(2) {
        assert_eq!(
            tables.delta[state],
            tables.delta[state + 1],
            "early-estimation states {state} and {} should share probability delta",
            state + 1
        );
        assert_eq!(
            tables.theta[state],
            tables.theta[state + 1],
            "early-estimation states {state} and {} should share MPS threshold",
            state + 1
        );
    }
}

#[test]
fn ones_at_the_end_of_the_input_change_nothing() {
    let input = [0x5a, 0x13, 0xc7];
    let longer = [0x5a, 0x13, 0xc7, 0xff, 0xff, 0xff];
    let mut decoder = SpecZpDecoder::new(&input);
    let mut other = SpecZpDecoder::new(&longer);
    let mut contexts = [0u8; 4];
    let mut others = [0u8; 4];

    for i in 0..200 {
        assert_eq!(
            decoder.decode_context_bit(&mut contexts[i % 4]),
            other.decode_context_bit(&mut others[i % 4])
        );
        if i % 5 == 0 {
            assert_eq!(decoder.decode_iw44_passthrough_bit(), other.decode_iw44_passthrough_bit());
        }
    }
    assert_eq!(contexts, others);
}
