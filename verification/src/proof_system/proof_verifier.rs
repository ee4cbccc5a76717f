//! The verifier of proofs for one circuit.
//!
//! A verifier starts without a verifier key. Preprocessing its circuit gives
//! it one, after which it can check any number of proofs: each check works
//! on a copy of the transcript, so that the one kept stays as preprocessing
//! left it.
//!
//! The commitment scheme is not part of this module. What depends on it is
//! handed in: the type of the verifier key, the routine that derives the key
//! from the circuit, and the routine that checks a proof's openings.

use crate::constraint_system::StandardComposer;
use crate::error::Error;
use crate::field::Scalar;
use crate::transcript::{domain_separator_label, transcript_messages, MAX_MESSAGE_LEN};
use merlin::Transcript;
use vstd::prelude::*;

verus! {

/// What a verifier returns for the outcome of a proof's check.
pub open spec fn verification_result(accepted: bool) -> Result<(), Error> {
    if accepted {
        Ok(())
    } else {
        Err(Error::ProofVerificationFailed)
    }
}

/// What a verifier returns for the outcome of a proof's check.
pub fn conclude(accepted: bool) -> (r: Result<(), Error>)
    ensures
        r == verification_result(accepted),
{
    if accepted {
        Ok(())
    } else {
        Err(Error::ProofVerificationFailed)
    }
}

/// A verifier of proofs for one circuit, with a verifier key of type `K`.
pub struct Verifier<K> {
    /// The key that proofs are checked against, once the circuit has been
    /// preprocessed.
    pub verifier_key: Option<K>,
    /// The circuit that proofs are about.
    pub cs: StandardComposer,
    /// What every check of a proof starts from. A check works on a copy, so
    /// that one verifier can check many proofs.
    pub preprocessed_transcript: Transcript,
}

impl<K> Verifier<K> {
    /// Whether the circuit has been preprocessed.
    pub open spec fn is_ready(&self) -> bool {
        self.verifier_key is Some
    }

    /// Whether `r` is what `verify` may return: an error where the circuit
    /// has not been preprocessed, and else what the proof's routine says,
    /// called once with the verifier's key and with a transcript that has
    /// absorbed what the verifier's own has.
    pub open spec fn may_return<P, O, F>(
        &self,
        proof: &P,
        opening_key: &O,
        public_inputs: &[Scalar],
        check_proof: F,
        r: Result<(), Error>,
    ) -> bool where F: FnOnce(&P, &K, Transcript, &O, &[Scalar]) -> bool {
        match self.verifier_key {
            None => r == Err::<(), Error>(Error::VerifierNotPreprocessed),
            Some(key) => exists|fork: Transcript, accepted: bool|
                {
                    &&& transcript_messages(fork) == transcript_messages(
                        self.preprocessed_transcript,
                    )
                    &&& #[trigger] call_ensures(
                        check_proof,
                        (proof, &key, fork, opening_key, public_inputs),
                        accepted,
                    )
                    &&& r == verification_result(accepted)
                },
        }
    }

    /// Checking a proof is repeatable: what one check of a proof returns,
    /// every other check of it by the same verifier returns, as long as the
    /// proof's routine decides by what it is given, the messages that the
    /// transcript has absorbed among it. A check leaves nothing behind in
    /// the verifier that a later one could see.
    pub proof fn lemma_verify_is_repeatable<P, O, F>(
        &self,
        proof: &P,
        opening_key: &O,
        public_inputs: &[Scalar],
        check_proof: F,
        first: Result<(), Error>,
        second: Result<(), Error>,
    ) where F: FnOnce(&P, &K, Transcript, &O, &[Scalar]) -> bool
        requires
            self.may_return(proof, opening_key, public_inputs, check_proof, first),
            self.may_return(proof, opening_key, public_inputs, check_proof, second),
            forall|key: &K, one: Transcript, other: Transcript, accepts: bool, accepts_too: bool|
                transcript_messages(one) == transcript_messages(other) && #[trigger] call_ensures(
                    check_proof,
                    (proof, key, one, opening_key, public_inputs),
                    accepts,
                ) && #[trigger] call_ensures(
                    check_proof,
                    (proof, key, other, opening_key, public_inputs),
                    accepts_too,
                ) ==> accepts == accepts_too,
        ensures
            first == second,
    {
    }

    /// A verifier of an empty circuit, not preprocessed, whose transcript
    /// has absorbed the label. The label is no longer than a transcript
    /// takes.
    pub fn new(label: &'static [u8]) -> (v: Verifier<K>)
        requires
            label@.len() <= MAX_MESSAGE_LEN,
        ensures
            !v.is_ready(),
            v.cs@ == Seq::<crate::constraint_system::Gate>::empty(),
            transcript_messages(v.preprocessed_transcript) == seq![
                (domain_separator_label(), label@),
            ],
    {
        Verifier {
            verifier_key: None,
            cs: StandardComposer::new(),
            preprocessed_transcript: Transcript::new(label),
        }
    }

    /// As `new`, with room for a circuit of `size` rows.
    pub fn with_expected_size(label: &'static [u8], size: usize) -> (v: Verifier<K>)
        requires
            label@.len() <= MAX_MESSAGE_LEN,
        ensures
            !v.is_ready(),
            v.cs@ == Seq::<crate::constraint_system::Gate>::empty(),
            transcript_messages(v.preprocessed_transcript) == seq![
                (domain_separator_label(), label@),
            ],
    {
        Verifier {
            verifier_key: None,
            cs: StandardComposer::with_expected_size(size),
            preprocessed_transcript: Transcript::new(label),
        }
    }

    /// The number of rows of the circuit.
    pub fn circuit_size(&self) -> (n: usize)
        ensures
            n == self.cs@.len(),
    {
        self.cs.circuit_size()
    }

    /// The circuit, to build it up.
    pub fn mut_cs(&mut self) -> (cs: &mut StandardComposer)
        ensures
            *cs == old(self).cs,
            final(self).cs == *final(cs),
            final(self).verifier_key == old(self).verifier_key,
            final(self).preprocessed_transcript == old(self).preprocessed_transcript,
    {
        &mut self.cs
    }

    /// Lets the transcript absorb one more message. Proofs made and checked
    /// with it are bound to that message.
    pub fn key_transcript(&mut self, label: &'static [u8], message: &[u8])
        requires
            message@.len() <= MAX_MESSAGE_LEN,
        ensures
            transcript_messages(final(self).preprocessed_transcript) == transcript_messages(
                old(self).preprocessed_transcript,
            ).push((label@, message@)),
            final(self).verifier_key == old(self).verifier_key,
            final(self).cs == old(self).cs,
    {
        self.preprocessed_transcript.append_message(label, message);
    }

    /// Preprocesses the circuit: `derive_key` derives the verifier key from
    /// the circuit and the commitment key, and lets the transcript absorb
    /// the key. On success the verifier holds the key and the transcript
    /// that `derive_key` returned. On failure it is unchanged.
    ///
    /// A verifier that holds a key already gets a new one.
    pub fn preprocess<C, F>(&mut self, commit_key: &C, derive_key: F) -> (r: Result<(), Error>)
        where F: FnOnce(&StandardComposer, &C, Transcript) -> Result<(K, Transcript), Error>
        requires
            forall|fork: Transcript|
                transcript_messages(fork) == transcript_messages(
                    old(self).preprocessed_transcript,
                ) ==> call_requires(derive_key, (&old(self).cs, commit_key, fork)),
        ensures
            final(self).cs == old(self).cs,
            match r {
                Ok(()) => exists|fork: Transcript, key: K, seeded: Transcript|
                    {
                        &&& transcript_messages(fork) == transcript_messages(
                            old(self).preprocessed_transcript,
                        )
                        &&& #[trigger] call_ensures(
                            derive_key,
                            (&old(self).cs, commit_key, fork),
                            Ok((key, seeded)),
                        )
                        &&& final(self).verifier_key == Some(key)
                        &&& final(self).preprocessed_transcript == seeded
                    },
                Err(e) => {
                    &&& exists|fork: Transcript|
                        {
                            &&& transcript_messages(fork) == transcript_messages(
                                old(self).preprocessed_transcript,
                            )
                            &&& #[trigger] call_ensures(
                                derive_key,
                                (&old(self).cs, commit_key, fork),
                                Err::<(K, Transcript), Error>(e),
                            )
                        }
                    &&& final(self).verifier_key == old(self).verifier_key
                    &&& final(self).preprocessed_transcript == old(self).preprocessed_transcript
                },
            },
    {
        let fork = self.preprocessed_transcript.clone();
        match derive_key(&self.cs, commit_key, fork) {
            Ok((key, seeded)) => {
                self.verifier_key = Some(key);
                self.preprocessed_transcript = seeded;
                Ok(())
            },
            Err(e) => Err(e),
        }
    }

    /// Checks a proof: `check_proof` is the proof's own routine, which is
    /// given the proof, the verifier key, a copy of the transcript, the
    /// opening key and the public inputs, and says whether it accepts.
    ///
    /// Fails without calling the routine where the circuit has not been
    /// preprocessed.
    pub fn verify<P, O, F>(
        &self,
        proof: &P,
        opening_key: &O,
        public_inputs: &[Scalar],
        check_proof: F,
    ) -> (r: Result<(), Error>)
        where F: FnOnce(&P, &K, Transcript, &O, &[Scalar]) -> bool
        requires
            forall|fork: Transcript|
                self.is_ready() && transcript_messages(fork) == transcript_messages(
                    self.preprocessed_transcript,
                ) ==> call_requires(
                    check_proof,
                    (proof, &self.verifier_key->Some_0, fork, opening_key, public_inputs),
                ),
        ensures
            self.may_return(proof, opening_key, public_inputs, check_proof, r),
    {
        match &self.verifier_key {
            None => Err(Error::VerifierNotPreprocessed),
            Some(verifier_key) => {
                let cloned_transcript = self.preprocessed_transcript.clone();
                let accepted = check_proof(
                    proof,
                    verifier_key,
                    cloned_transcript,
                    opening_key,
                    public_inputs,
                );
                conclude(accepted)
            },
        }
    }
}

impl<K> Default for Verifier<K> {
    /// A verifier under the label `plonk`.
    fn default() -> (v: Verifier<K>)
        ensures
            !v.is_ready(),
            v.cs@ == Seq::<crate::constraint_system::Gate>::empty(),
            transcript_messages(v.preprocessed_transcript) == seq![
                (domain_separator_label(), seq![0x70u8, 0x6cu8, 0x6fu8, 0x6eu8, 0x6bu8]),
            ],
    {
        let label = "plonk".as_bytes();
        proof {
            reveal_strlit("plonk");
            vstd::string::is_ascii_spec_bytes("plonk");
            assert(label@ =~= seq![0x70u8, 0x6cu8, 0x6fu8, 0x6eu8, 0x6bu8]);
        }
        Verifier::new(label)
    }
}

} // verus!
