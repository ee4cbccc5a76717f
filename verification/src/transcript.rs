//! The Fiat-Shamir transcript, which is `merlin`'s.
//!
//! A transcript absorbs labelled messages. What it has absorbed decides
//! every challenge drawn from it later, so the contracts here speak of the
//! messages absorbed, in their order.

use merlin::Transcript;
use vstd::prelude::*;

verus! {

/// `merlin`'s transcript, which is carried through as it is.
#[verifier::external_type_specification]
#[verifier::external_body]
pub struct ExTranscript(Transcript);

/// The labelled messages that a transcript has absorbed, oldest first: of
/// each, the label and the message. A transcript keeps a running hash of
/// them, which the contracts read as the messages themselves.
pub uninterp spec fn transcript_messages(t: Transcript) -> Seq<(Seq<u8>, Seq<u8>)>;

/// The label `dom-sep`, under which a new transcript absorbs its own label.
pub open spec fn domain_separator_label() -> Seq<u8> {
    seq![0x64u8, 0x6fu8, 0x6du8, 0x2du8, 0x73u8, 0x65u8, 0x70u8]
}

/// The longest message that a transcript takes: its length is absorbed as 32
/// bits.
pub const MAX_MESSAGE_LEN: usize = 0xffff_ffff;

/// `Transcript::new`: a transcript that has absorbed the given label, as a
/// message under the label `dom-sep`. As with any message, the call panics
/// on a label longer than 32 bits can count.
pub assume_specification[ Transcript::new ](label: &'static [u8]) -> (t: Transcript)
    requires
        label@.len() <= MAX_MESSAGE_LEN,
    ensures
        transcript_messages(t) == seq![(domain_separator_label(), label@)],
;

/// `Transcript::append_message`: the transcript absorbs one more message.
/// The call panics on a message longer than 32 bits can count.
pub assume_specification[ Transcript::append_message ](
    t: &mut Transcript,
    label: &'static [u8],
    message: &[u8],
)
    requires
        message@.len() <= MAX_MESSAGE_LEN,
    ensures
        transcript_messages(*final(t)) == transcript_messages(*old(t)).push((label@, message@)),
;

/// `Transcript::clone`: a second transcript that has absorbed the same
/// messages.
pub assume_specification[ <Transcript as Clone>::clone ](t: &Transcript) -> (r: Transcript)
    ensures
        transcript_messages(r) == transcript_messages(*t),
;

} // verus!
