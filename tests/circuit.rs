use bracket_circuit::circuit::{BracketCircuit, CircuitError, Config};
use bracket_circuit::field::Fe;
use bracket_circuit::symbols::{CLOSE_CODE, ENC_A, ENC_B, OPEN_CODE};
use bracket_circuit::trace::{Row, Trace};

fn minus_one() -> Fe {
    Fe::from_u64(0).sub(&Fe::from_u64(1))
}

fn witness(input: &[char]) -> (Config, Trace) {
    let config = Config::new(input.len()).unwrap();
    let trace = config.assign(input).unwrap();
    (config, trace)
}

#[test]
fn unvalid_sym() {
    BracketCircuit::<1>::new(['*']).verify().unwrap_err();
}

#[test]
fn valid_1() {
    BracketCircuit::<2>::new(['(', ')']).verify().unwrap();
}

#[test]
fn unvalid_order() {
    BracketCircuit::<2>::new([')', '(']).verify().unwrap_err();
}

#[test]
fn scenarios_from_the_design() {
    assert_eq!(BracketCircuit::<2>::new(['(', ')']).verify(), Ok(()));
    assert_eq!(BracketCircuit::<2>::new([')', '(']).verify(), Err(CircuitError::Unsatisfied));
    assert_eq!(BracketCircuit::<1>::new(['(']).verify(), Err(CircuitError::Unsatisfied));
    assert_eq!(BracketCircuit::<1>::new(['*']).verify(), Err(CircuitError::Unsatisfied));
    let long = ['(', '(', ')', '(', '(', ')', ')', '(', ')', ')'];
    assert_eq!(BracketCircuit::<10>::new(long).verify(), Ok(()));
}

#[test]
fn zero_length_is_refused() {
    assert_eq!(BracketCircuit::<0>::new([]).verify(), Err(CircuitError::ZeroLength));
    assert!(matches!(Config::new(0), Err(CircuitError::ZeroLength)));
    assert!(matches!(BracketCircuit::<0>::configure(), Err(CircuitError::ZeroLength)));
}

#[test]
fn length_mismatch_is_refused() {
    let config = Config::new(3).unwrap();
    assert_eq!(config.len(), 3);
    assert_eq!(config.assign(&['(', ')']), Err(CircuitError::LengthMismatch));
    let circuit = BracketCircuit::<2>::new(['(', ')']);
    assert_eq!(circuit.synthesize(&config), Err(CircuitError::LengthMismatch));
}

#[test]
fn encoder_constants_solve_the_system() {
    assert_eq!(ENC_A, 81);
    assert_eq!(ENC_B, 2);
    let config = Config::new(1).unwrap();
    assert_eq!(config.signed_increment(&Fe::from_u64(OPEN_CODE)), Fe::from_u64(1));
    assert_eq!(config.signed_increment(&Fe::from_u64(CLOSE_CODE)), minus_one());
    assert_eq!(config.signed_increment(&Fe::from_u64(0)), Fe::from_u64(81));
    assert_eq!(config.signed_increment(&Fe::from_u64(42)), Fe::from_u64(0).sub(&Fe::from_u64(3)));
}

#[test]
fn alphabet_table_membership() {
    let config = Config::new(1).unwrap();
    assert!(!config.in_alphabet(&Fe::from_u64(0)));
    assert!(config.in_alphabet(&Fe::from_u64(40)));
    assert!(config.in_alphabet(&Fe::from_u64(41)));
    assert!(!config.in_alphabet(&Fe::from_u64(42)));
    assert!(!config.in_alphabet(&Fe::from_u64(39)));
    assert!(!config.in_alphabet(&minus_one()));
}

#[test]
fn field_arithmetic() {
    assert_eq!(Fe::from_u64(2).add(&Fe::from_u64(3)), Fe::from_u64(5));
    assert_eq!(Fe::from_u64(6).mul(&Fe::from_u64(7)), Fe::from_u64(42));
    assert_eq!(Fe::from_u64(9).sub(&Fe::from_u64(4)), Fe::from_u64(5));
    assert_eq!(minus_one().add(&Fe::from_u64(1)), Fe::from_u64(0));
    let inv = Fe::from_u64(2).invert().unwrap();
    assert_eq!(inv.mul(&Fe::from_u64(2)), Fe::from_u64(1));
    assert_ne!(inv, Fe::from_u64(2));
    assert_eq!(Fe::from_u64(0).invert(), None);
    assert!(Fe::from_u64(0).is_zero());
    assert!(!Fe::from_u64(256).is_zero());
    let mut bytes = [0u8; 32];
    bytes[0] = 0x2a;
    bytes[1] = 0x01;
    assert_eq!(Fe::from_u64(0x012a).to_bytes(), bytes);
    let q_minus_one: [u8; 32] = [
        0x00, 0x00, 0x00, 0x00, 0x21, 0xeb, 0x46, 0x8c, 0xdd, 0xa8, 0x94, 0x09, 0xfc, 0x98, 0x46,
        0x22, 0x00, 0x00, 0x00, 0x00, 0x00, 0x00, 0x00, 0x00, 0x00, 0x00, 0x00, 0x00, 0x00, 0x00,
        0x00, 0x40,
    ];
    assert_eq!(minus_one().to_bytes(), q_minus_one);
}

#[test]
fn balanced_witness_satisfies_every_gate() {
    let input = ['(', '(', ')', ')', '(', ')'];
    let (config, trace) = witness(&input);
    assert_eq!(trace.rows.len(), 6);
    let expected = [1u64, 2, 1, 0, 1, 0];
    for i in 0..6 {
        assert_eq!(trace.rows[i].balance, Fe::from_u64(expected[i]));
        assert!(config.accumulation_at(&trace, i));
        assert!(config.non_negativity_at(&trace, i));
        assert!(config.lookup_at(&trace, i));
        let x = trace.rows[i].balance.add(&Fe::from_u64(1));
        assert_eq!(x.mul(&trace.rows[i].inverse), Fe::from_u64(1));
    }
    assert_eq!(trace.rows[0].symbol, Fe::from_u64(40));
    assert_eq!(trace.rows[2].symbol, Fe::from_u64(41));
    assert!(config.verify(&trace));
}

#[test]
fn foreign_symbol_fails_lookup() {
    let (config, trace) = witness(&['(', '*', ')']);
    assert!(config.lookup_at(&trace, 0));
    assert!(!config.lookup_at(&trace, 1));
    assert!(config.lookup_at(&trace, 2));
    assert!(!config.verify(&trace));
    let (config, trace) = witness(&['a']);
    assert!(!config.lookup_at(&trace, 0));
    assert!(!config.verify(&trace));
}

#[test]
fn sentinel_is_refused_on_an_active_row() {
    let (config, trace) = witness(&['\0']);
    assert!(!config.lookup_at(&trace, 0));
    assert_eq!(trace.rows[0].balance, Fe::from_u64(81));
    assert!(!config.verify(&trace));
    let mut input = [')'; 82];
    input[0] = '\0';
    let (config, trace) = witness(&input);
    assert!(!config.lookup_at(&trace, 0));
    for i in 0..82 {
        assert!(config.accumulation_at(&trace, i));
        assert!(config.non_negativity_at(&trace, i));
    }
    for i in 1..82 {
        assert!(config.lookup_at(&trace, i));
    }
    assert_eq!(trace.rows[81].balance, Fe::from_u64(0));
    assert!(!config.verify(&trace));
    assert_eq!(BracketCircuit::<82>::new(input).verify(), Err(CircuitError::Unsatisfied));
}

#[test]
fn first_excess_close_fails_non_negativity() {
    let (config, trace) = witness(&['(', ')', ')', '(']);
    assert!(config.non_negativity_at(&trace, 0));
    assert!(config.non_negativity_at(&trace, 1));
    assert!(!config.non_negativity_at(&trace, 2));
    assert_eq!(trace.rows[2].balance, minus_one());
    assert_eq!(trace.rows[2].inverse, Fe::from_u64(0));
    assert!(config.non_negativity_at(&trace, 3));
    assert!(config.accumulation_at(&trace, 3));
    assert!(!config.verify(&trace));
}

#[test]
fn equal_counts_with_a_dip_are_rejected() {
    let (config, trace) = witness(&[')', '(']);
    assert!(config.accumulation_at(&trace, 0));
    assert!(config.accumulation_at(&trace, 1));
    assert_eq!(trace.rows[1].balance, Fe::from_u64(0));
    assert!(!config.non_negativity_at(&trace, 0));
    assert!(!config.verify(&trace));
    for v in [0u64, 1, 2, 41] {
        let mut forged = trace.clone();
        forged.rows[0].inverse = Fe::from_u64(v);
        assert!(!config.verify(&forged));
    }
    assert_eq!(BracketCircuit::<3>::new([')', '\0', '(']).verify(), Err(CircuitError::Unsatisfied));
    let mut forged = trace.clone();
    forged.rows[0].balance = Fe::from_u64(1);
    forged.rows[0].inverse = Fe::from_u64(2).invert().unwrap();
    assert!(config.non_negativity_at(&forged, 0));
    assert!(!config.accumulation_at(&forged, 0));
    assert!(!config.verify(&forged));
}

#[test]
fn terminal_gate_rejects_open_balance() {
    let (config, trace) = witness(&['(', '(', ')']);
    for i in 0..3 {
        assert!(config.accumulation_at(&trace, i));
        assert!(config.non_negativity_at(&trace, i));
        assert!(config.lookup_at(&trace, i));
    }
    assert!(!config.verify(&trace));
}

#[test]
fn verify_checks_the_row_count() {
    let (_, trace) = witness(&['(', ')']);
    let other = Config::new(4).unwrap();
    assert!(!other.verify(&trace));
}

#[test]
fn witness_generation_is_deterministic() {
    let input = ['(', ')', ')', '(', '*', '('];
    let (config, first) = witness(&input);
    let second = config.assign(&input).unwrap();
    assert_eq!(first, second);
    let circuit = BracketCircuit::<6>::new(input);
    let third = circuit.synthesize(&config).unwrap();
    assert_eq!(first, third);
    assert_eq!(circuit.symbols(), &input[..]);
}

#[test]
fn forged_row_breaks_accumulation() {
    let (config, mut trace) = witness(&['(', ')']);
    trace.rows[1] = Row { symbol: Fe::from_u64(40), balance: Fe::from_u64(0), inverse: Fe::from_u64(1) };
    assert!(!config.accumulation_at(&trace, 1));
    assert!(!config.verify(&trace));
}
