use merlin::Transcript;
use plonk_core::constraint_system::{Gate, StandardComposer};
use plonk_core::error::Error;
use plonk_core::field::Scalar;
use plonk_core::proof_system::proof_verifier::{conclude, Verifier};
use plonk_core::proof_system::widget::arithmetic;
use std::cell::Cell;

fn s(x: u64) -> Scalar {
    Scalar::from_u64(x)
}

fn challenge(transcript: &Transcript) -> [u8; 32] {
    let mut fork = transcript.clone();
    let mut bytes = [0u8; 32];
    fork.challenge_bytes(b"challenge", &mut bytes);
    bytes
}

fn gate(q_l: Scalar, q_r: Scalar, q_o: Scalar, wires: (usize, usize, usize)) -> Gate {
    Gate {
        q_m: s(0),
        q_l,
        q_r,
        q_o,
        q_c: s(0),
        q_4: s(0),
        q_arith: s(1),
        q_range: s(0),
        q_logic: s(0),
        q_fixed_group_add: s(0),
        q_variable_group_add: s(0),
        w_l: wires.0,
        w_r: wires.1,
        w_o: wires.2,
        w_4: 0,
    }
}

/// A stand-in for the routine that derives the verifier key: the key lists
/// the rows, and the transcript absorbs their number.
fn derive(
    cs: &StandardComposer,
    _commit_key: &(),
    mut transcript: Transcript,
) -> Result<(Vec<Gate>, Transcript), Error> {
    if !cs.circuit_size().is_power_of_two() {
        return Err(Error::InvalidDomainSize);
    }
    transcript.append_message(b"n", &(cs.circuit_size() as u64).to_le_bytes());
    Ok((cs.gates().clone(), transcript))
}

/// A stand-in for a proof: the values of the variables.
struct Witness {
    values: Vec<Scalar>,
}

/// A stand-in for a proof's own check: the rows' equations hold of the
/// values, with the public inputs added row by row.
fn check(
    proof: &Witness,
    key: &Vec<Gate>,
    _transcript: Transcript,
    _opening_key: &(),
    public_inputs: &[Scalar],
) -> bool {
    key.iter().enumerate().all(|(i, g)| {
        let widget = arithmetic::ProverKey {
            q_m: vec![g.q_m],
            q_l: vec![g.q_l],
            q_r: vec![g.q_r],
            q_o: vec![g.q_o],
            q_c: vec![g.q_c],
            q_4: vec![g.q_4],
            q_arith: vec![g.q_arith],
        };
        let pi = public_inputs.get(i).map(|x| x.neg()).unwrap_or(s(0));
        widget
            .compute_quotient_i(
                0,
                &proof.values[g.w_l],
                &proof.values[g.w_r],
                &proof.values[g.w_o],
                &proof.values[g.w_4],
            )
            .add(&pi)
            .is_zero()
    })
}

/// The circuit with the public input `c` and the sum `a + b = c`. The
/// variables are zero, `a`, `b` and `c`, by their numbers 0 to 3.
fn sum_verifier() -> Verifier<Vec<Gate>> {
    let mut verifier: Verifier<Vec<Gate>> = Verifier::new(b"sum");
    verifier.mut_cs().append_gate(gate(s(1), s(0), s(0), (3, 0, 0)));
    verifier.mut_cs().append_gate(gate(s(1), s(1), s(1).neg(), (1, 2, 3)));
    verifier
}

#[test]
fn new_verifier_holds_no_key_and_an_empty_circuit() {
    let verifier: Verifier<u8> = Verifier::new(b"test");
    assert!(verifier.verifier_key.is_none());
    assert_eq!(verifier.circuit_size(), 0);
    assert_eq!(
        challenge(&verifier.preprocessed_transcript),
        challenge(&Transcript::new(b"test"))
    );
}

#[test]
fn verifier_with_expected_size_is_empty_too() {
    let verifier: Verifier<u8> = Verifier::with_expected_size(b"test", 1000);
    assert!(verifier.verifier_key.is_none());
    assert_eq!(verifier.circuit_size(), 0);
    assert_eq!(
        challenge(&verifier.preprocessed_transcript),
        challenge(&Transcript::new(b"test"))
    );
}

#[test]
fn default_verifier_has_the_label_plonk() {
    let verifier: Verifier<u8> = Verifier::default();
    assert!(verifier.verifier_key.is_none());
    assert_eq!(verifier.circuit_size(), 0);
    assert_eq!(
        challenge(&verifier.preprocessed_transcript),
        challenge(&Transcript::new(b"plonk"))
    );
    assert!(
        challenge(&verifier.preprocessed_transcript) != challenge(&Transcript::new(b"test"))
    );
}

#[test]
fn circuit_grows_through_mut_cs() {
    let verifier = sum_verifier();
    assert_eq!(verifier.circuit_size(), 2);
    assert_eq!(verifier.cs.gates()[1].w_o, 3);
    assert_eq!(verifier.cs.gates()[0].q_l, s(1));
}

#[test]
fn composer_counts_its_rows() {
    let mut cs = StandardComposer::new();
    assert_eq!(cs.circuit_size(), 0);
    cs.append_gate(gate(s(1), s(1), s(1), (0, 0, 0)));
    cs.append_gate(gate(s(2), s(1), s(1), (0, 0, 0)));
    cs.append_gate(gate(s(3), s(1), s(1), (0, 0, 0)));
    assert_eq!(cs.circuit_size(), 3);
    assert_eq!(cs.gates()[2].q_l, s(3));
    assert_eq!(StandardComposer::with_expected_size(64).circuit_size(), 0);
}

#[test]
fn key_transcript_appends_the_message() {
    let mut verifier: Verifier<u8> = Verifier::new(b"test");
    verifier.key_transcript(b"seed", b"some context");
    let mut expected = Transcript::new(b"test");
    expected.append_message(b"seed", b"some context");
    assert_eq!(challenge(&verifier.preprocessed_transcript), challenge(&expected));
    assert!(
        challenge(&verifier.preprocessed_transcript) != challenge(&Transcript::new(b"test"))
    );
    assert!(verifier.verifier_key.is_none());
}

#[test]
fn key_transcript_keeps_the_order_of_the_messages() {
    let mut one: Verifier<u8> = Verifier::new(b"test");
    one.key_transcript(b"a", b"1");
    one.key_transcript(b"b", b"2");
    let mut other: Verifier<u8> = Verifier::new(b"test");
    other.key_transcript(b"b", b"2");
    other.key_transcript(b"a", b"1");
    assert!(challenge(&one.preprocessed_transcript) != challenge(&other.preprocessed_transcript));
    let mut expected = Transcript::new(b"test");
    expected.append_message(b"a", b"1");
    expected.append_message(b"b", b"2");
    assert_eq!(challenge(&one.preprocessed_transcript), challenge(&expected));
}

#[test]
fn verify_before_preprocessing_fails_without_a_check() {
    let verifier = sum_verifier();
    let called = Cell::new(false);
    let witness = Witness { values: vec![s(0), s(2), s(3), s(5)] };
    let r = verifier.verify(&witness, &(), &[s(5)], |_p, _k: &Vec<Gate>, _t, _o, _pi| {
        called.set(true);
        true
    });
    assert_eq!(r, Err(Error::VerifierNotPreprocessed));
    assert!(!called.get());
}

#[test]
fn preprocess_stores_the_key_and_the_seeded_transcript() {
    let mut verifier = sum_verifier();
    assert_eq!(verifier.preprocess(&(), derive), Ok(()));
    let key = verifier.verifier_key.as_ref().unwrap();
    assert_eq!(key.len(), 2);
    let mut expected = Transcript::new(b"sum");
    expected.append_message(b"n", &2u64.to_le_bytes());
    assert_eq!(challenge(&verifier.preprocessed_transcript), challenge(&expected));
    assert_eq!(verifier.circuit_size(), 2);
}

#[test]
fn failed_preprocessing_leaves_the_verifier_as_it_was() {
    let mut verifier = sum_verifier();
    verifier.mut_cs().append_gate(gate(s(0), s(0), s(0), (0, 0, 0)));
    let before = challenge(&verifier.preprocessed_transcript);
    assert_eq!(verifier.preprocess(&(), derive), Err(Error::InvalidDomainSize));
    assert!(verifier.verifier_key.is_none());
    assert_eq!(challenge(&verifier.preprocessed_transcript), before);
    assert_eq!(verifier.circuit_size(), 3);
    let witness = Witness { values: vec![s(0), s(2), s(3), s(5)] };
    assert_eq!(
        verifier.verify(&witness, &(), &[s(5)], check),
        Err(Error::VerifierNotPreprocessed)
    );
}

#[test]
fn failed_preprocessing_keeps_an_earlier_key() {
    let mut verifier = sum_verifier();
    assert_eq!(verifier.preprocess(&(), derive), Ok(()));
    let before = challenge(&verifier.preprocessed_transcript);
    let r = verifier.preprocess(&(), |_cs: &StandardComposer, _ck: &(), mut t: Transcript| {
        t.append_message(b"lost", b"lost");
        Err(Error::InvalidDomainSize)
    });
    assert_eq!(r, Err(Error::InvalidDomainSize));
    assert_eq!(verifier.verifier_key.as_ref().unwrap().len(), 2);
    assert_eq!(challenge(&verifier.preprocessed_transcript), before);
}

#[test]
fn preprocessing_twice_overwrites_the_key() {
    let mut verifier = sum_verifier();
    assert_eq!(verifier.preprocess(&(), derive), Ok(()));
    verifier.mut_cs().append_gate(gate(s(0), s(0), s(0), (0, 0, 0)));
    verifier.mut_cs().append_gate(gate(s(0), s(0), s(0), (0, 0, 0)));
    assert_eq!(verifier.preprocess(&(), derive), Ok(()));
    assert_eq!(verifier.verifier_key.as_ref().unwrap().len(), 4);
    let mut expected = Transcript::new(b"sum");
    expected.append_message(b"n", &2u64.to_le_bytes());
    expected.append_message(b"n", &4u64.to_le_bytes());
    assert_eq!(challenge(&verifier.preprocessed_transcript), challenge(&expected));
}

#[test]
fn sum_circuit_accepts_its_public_input_and_refuses_another() {
    let mut verifier = sum_verifier();
    assert_eq!(verifier.preprocess(&(), derive), Ok(()));
    let witness = Witness { values: vec![s(0), s(2), s(3), s(5)] };
    assert_eq!(verifier.verify(&witness, &(), &[s(5)], check), Ok(()));
    assert_eq!(
        verifier.verify(&witness, &(), &[s(6)], check),
        Err(Error::ProofVerificationFailed)
    );
}

#[test]
fn tampered_witness_is_refused() {
    let mut verifier = sum_verifier();
    assert_eq!(verifier.preprocess(&(), derive), Ok(()));
    for tampered in [
        vec![s(0), s(3), s(3), s(5)],
        vec![s(0), s(2), s(4), s(5)],
        vec![s(0), s(2), s(3), s(6)],
        vec![s(0), s(1), s(3), s(4)],
    ] {
        let witness = Witness { values: tampered };
        assert_eq!(
            verifier.verify(&witness, &(), &[s(5)], check),
            Err(Error::ProofVerificationFailed)
        );
    }
}

#[test]
fn verify_hands_the_check_a_copy_of_the_transcript() {
    let mut verifier = sum_verifier();
    verifier.key_transcript(b"seed", b"context");
    assert_eq!(verifier.preprocess(&(), derive), Ok(()));
    let before = challenge(&verifier.preprocessed_transcript);
    let witness = Witness { values: vec![s(0), s(2), s(3), s(5)] };
    let seen = Cell::new([0u8; 32]);
    let drawing = |_p: &Witness, _k: &Vec<Gate>, mut t: Transcript, _o: &(), _pi: &[Scalar]| {
        let mut bytes = [0u8; 32];
        t.challenge_bytes(b"challenge", &mut bytes);
        seen.set(bytes);
        // The copy moves on with every message and challenge.
        t.append_message(b"w_l", b"commitment");
        t.challenge_bytes(b"beta", &mut bytes);
        true
    };
    assert_eq!(verifier.verify(&witness, &(), &[s(5)], drawing), Ok(()));
    assert_eq!(seen.get(), before);
    assert_eq!(challenge(&verifier.preprocessed_transcript), before);
}

/// A check that draws a challenge before it goes on as `check` does.
fn drawing<'a>(
    seen: &'a Cell<[u8; 32]>,
) -> impl FnOnce(&Witness, &Vec<Gate>, Transcript, &(), &[Scalar]) -> bool + 'a {
    move |p: &Witness, k: &Vec<Gate>, mut t: Transcript, o: &(), pi: &[Scalar]| {
        let mut bytes = [0u8; 32];
        t.append_message(b"w_l", b"commitment");
        t.challenge_bytes(b"beta", &mut bytes);
        seen.set(bytes);
        check(p, k, t, o, pi)
    }
}

#[test]
fn verify_twice_gives_the_same_result() {
    let mut verifier = sum_verifier();
    assert_eq!(verifier.preprocess(&(), derive), Ok(()));
    let witness = Witness { values: vec![s(0), s(2), s(3), s(5)] };
    let first_seen = Cell::new([0u8; 32]);
    let second_seen = Cell::new([1u8; 32]);
    let first = verifier.verify(&witness, &(), &[s(5)], drawing(&first_seen));
    let second = verifier.verify(&witness, &(), &[s(5)], drawing(&second_seen));
    assert_eq!(first, Ok(()));
    assert_eq!(first, second);
    assert_eq!(first_seen.get(), second_seen.get());
    let first = verifier.verify(&witness, &(), &[s(6)], drawing(&first_seen));
    let second = verifier.verify(&witness, &(), &[s(6)], drawing(&second_seen));
    assert_eq!(first, Err(Error::ProofVerificationFailed));
    assert_eq!(first, second);
}

#[test]
fn verify_hands_the_check_the_key_and_the_inputs() {
    let mut verifier: Verifier<u64> = Verifier::new(b"test");
    let r = verifier.preprocess(&7u64, |_cs: &StandardComposer, ck: &u64, t: Transcript| {
        Ok((*ck * 6, t))
    });
    assert_eq!(r, Ok(()));
    assert_eq!(verifier.verifier_key, Some(42));
    let r = verifier.verify(
        &"proof",
        &"opening key",
        &[s(1), s(2)],
        |p: &&str, k: &u64, _t: Transcript, o: &&str, pi: &[Scalar]| {
            *p == "proof" && *k == 42 && *o == "opening key" && pi == [s(1), s(2)]
        },
    );
    assert_eq!(r, Ok(()));
}

#[test]
fn conclude_maps_the_outcome() {
    assert_eq!(conclude(true), Ok(()));
    assert_eq!(conclude(false), Err(Error::ProofVerificationFailed));
}
