//! Rotation of an account's authentication key, and the lookup of an
//! account by its key: what the two commands decide.
//!
//! The commands talk to a node, to the terminal and to the profile file.
//! None of that happens here: a command says what it needs next, and is told
//! what came of it.

use crate::account_address::{
    address_bytes, address_text_bytes, is_address_literal, is_address_text, parse_address,
    parse_address_text, AccountAddress,
};
use crate::digest::{encode_u64, sha3_256, sha3_256_of};
use crate::types::{HashValue, PeerId};
use vstd::bytes::spec_u64_to_le_bytes;
use vstd::prelude::*;
use vstd::string::StringExecFns;

verus! {

/// Why a command failed.
#[derive(Debug)]
pub enum CliError {
    /// The user declined to go on.
    AbortedError,
    /// Something that cannot be written down canonically: what, and why.
    BCS(String, String),
    /// The node refused, or the transaction failed.
    ApiError(String),
    /// The arguments do not fit together.
    CommandArgumentError(String),
    /// Something that cannot be read: what, and why.
    UnableToParse(String, String),
    /// What should not happen.
    UnexpectedError(String),
}

/// How a key is written down.
#[derive(Clone, Copy, Debug, PartialEq, Eq, Structural)]
pub enum EncodingType {
    BCS,
    Hex,
    Base64,
}

/// Where a key is to be taken from.
#[derive(Debug)]
pub enum KeyInput {
    /// From the file of this name.
    File(String),
    /// From this text.
    Text(String),
}

/// What the node said of a transaction.
#[derive(Debug)]
pub struct TransactionSummary {
    pub transaction_hash: String,
    pub gas_used: Option<u64>,
    pub success: Option<bool>,
    pub version: Option<u64>,
    pub vm_status: Option<String>,
}

/// What a rotation came to.
#[derive(Debug)]
pub struct RotateSummary {
    message: Option<String>,
    transaction: TransactionSummary,
}

impl RotateSummary {
    pub closed spec fn spec_message(&self) -> Option<String> {
        self.message
    }

    pub closed spec fn spec_transaction(&self) -> TransactionSummary {
        self.transaction
    }

    pub fn new(message: Option<String>, transaction: TransactionSummary) -> (s: RotateSummary)
        ensures
            s.spec_message() == message,
            s.spec_transaction() == transaction,
    {
        RotateSummary { message, transaction }
    }

    pub fn message(&self) -> (m: &Option<String>)
        ensures
            *m == self.spec_message(),
    {
        &self.message
    }

    pub fn transaction(&self) -> (t: &TransactionSummary)
        ensures
            *t == self.spec_transaction(),
    {
        &self.transaction
    }
}

/// The command that rotates an account's authentication key.
#[derive(Debug)]
pub struct RotateKey {
    /// Name of the file that holds the new private key.
    pub new_private_key_file: Option<String>,
    /// The new private key, written in the chosen encoding.
    pub new_private_key: Option<String>,
    /// Name of the profile in which the new key is saved.
    pub save_to_profile: Option<String>,
}

/// The command that looks an account up by its public key.
#[derive(Debug)]
pub struct LookupAddress {
    pub encoding: EncodingType,
    /// Name of the file that holds the public key.
    pub public_key_file: Option<String>,
    /// The public key, written in the chosen encoding.
    pub public_key: Option<String>,
    /// The profile whose key and node are used where none is given.
    pub profile: Option<String>,
    /// The address of the node.
    pub url: Option<String>,
}

/// A piece of text without the white space at its ends.
pub uninterp spec fn trimmed(text: Seq<char>) -> Seq<char>;

/// Takes the white space off both ends of `text` with `str::trim`. The
/// contract claims only that the outcome is a function of the text, which it
/// names.
#[verifier::external_body]
pub(crate) fn trim_line(text: &str) -> (out: String)
    ensures
        out@ == trimmed(text@),
{
    text.trim().to_owned()
}

/// The question that is asked where the profile exists already.
pub open spec fn exists_question(name: Seq<char>) -> Seq<char> {
    "Profile "@ + name + " exits. Do you want to provide a new profile name?"@
}

/// The message of a rotation whose key was saved to a profile.
pub open spec fn saved_message(name: Seq<char>) -> Seq<char> {
    "Profile "@ + name + " is saved."@
}

/// The question that is asked where the profile `name` exists already.
pub fn make_exists_question(name: &str) -> (out: String)
    ensures
        out@ == exists_question(name@),
{
    "Profile ".to_owned().concat(name).concat(
        " exits. Do you want to provide a new profile name?",
    )
}

/// The message of a rotation whose key was saved to the profile `name`.
pub fn make_saved_message(name: &str) -> (out: String)
    ensures
        out@ == saved_message(name@),
{
    "Profile ".to_owned().concat(name).concat(" is saved.")
}

impl RotateKey {
    /// The name of the command.
    pub fn command_name(&self) -> (name: &'static str)
        ensures
            name@ == "RotateKey"@,
    {
        "RotateKey"
    }

    /// Where the new private key is to be taken from: from the file if one
    /// is named, else from the text if one is given, else from nowhere.
    pub fn extract_private_key(&self, encoding: EncodingType) -> (r: Result<
        Option<(EncodingType, KeyInput)>,
        CliError,
    >)
        ensures
            r is Ok,
            match r->Ok_0 {
                Some((e, KeyInput::File(name))) => e == encoding && self.new_private_key_file
                    == Some(name),
                Some((e, KeyInput::Text(text))) => e == encoding && self.new_private_key_file
                    is None && self.new_private_key == Some(text),
                None => self.new_private_key_file is None && self.new_private_key is None,
            },
    {
        match &self.new_private_key_file {
            Some(name) => Ok(Some((encoding, KeyInput::File(name.clone())))),
            None => match &self.new_private_key {
                Some(text) => Ok(Some((encoding, KeyInput::Text(text.clone())))),
                None => Ok(None),
            },
        }
    }
}

impl LookupAddress {
    /// The name of the command.
    pub fn command_name(&self) -> (name: &'static str)
        ensures
            name@ == "LookupAddress"@,
    {
        "LookupAddress"
    }

    /// Where the public key is to be taken from: from the file if one is
    /// named, else from the text if one is given, else from the profile.
    pub fn public_key(&self) -> (r: Option<(EncodingType, KeyInput)>)
        ensures
            match r {
                Some((e, KeyInput::File(name))) => e == self.encoding && self.public_key_file
                    == Some(name),
                Some((e, KeyInput::Text(text))) => e == self.encoding && self.public_key_file
                    is None && self.public_key == Some(text),
                None => self.public_key_file is None && self.public_key is None,
            },
    {
        match &self.public_key_file {
            Some(name) => Some((self.encoding, KeyInput::File(name.clone()))),
            None => match &self.public_key {
                Some(text) => Some((self.encoding, KeyInput::Text(text.clone()))),
                None => None,
            },
        }
    }
}

/// What a rotation needs to know before it can be signed.
#[derive(Debug)]
pub struct AccountState {
    /// The number of the sender's next transaction.
    pub sequence_number: u64,
    /// The address of the sender.
    pub originator: AccountAddress,
    /// The authentication key of the sender, as the node gives it.
    pub auth_key: Vec<u8>,
    /// The bytes of the public key that the account rotates to.
    pub new_public_key: Vec<u8>,
}

/// What the two keys made of the message of a rotation.
#[derive(Debug)]
pub struct RotationSignatures {
    /// The bytes of the public key of the present private key.
    pub current_public_key: Vec<u8>,
    /// The signature of the present private key over the message.
    pub by_current: Vec<u8>,
    /// The signature of the new private key over the message.
    pub by_new: Vec<u8>,
}

/// The arguments of the transaction that rotates the authentication key of
/// an account.
#[derive(Debug)]
pub struct RotationArguments {
    /// The scheme of the present key: zero, for Ed25519.
    pub from_scheme: u8,
    pub from_public_key_bytes: Vec<u8>,
    /// The scheme of the new key: zero, for Ed25519.
    pub to_scheme: u8,
    pub to_public_key_bytes: Vec<u8>,
    /// The signature of the present key over the message.
    pub cap_rotate_key: Vec<u8>,
    /// The signature of the new key over the message.
    pub cap_update_table: Vec<u8>,
}

/// The longest sequence that can be written down canonically.
pub const MAX_SEQUENCE_LENGTH: usize = 0x7fff_ffff;

/// A number in the variable-length form in which lengths are written: seven
/// bits to a byte, the lowest first, the top bit set on every byte but the
/// last.
pub open spec fn uleb128(n: nat) -> Seq<u8>
    decreases n,
{
    if n < 128 {
        seq![n as u8]
    } else {
        seq![((n % 128) + 128) as u8] + uleb128(n / 128)
    }
}

/// A byte string with its length before it.
pub open spec fn length_prefixed(bytes: Seq<u8>) -> Seq<u8> {
    uleb128(bytes.len()) + bytes
}

/// Encodes a byte string with `bcs::to_bytes`. The canonical encoding of a
/// sequence of bytes is its length in the variable-length form and then the
/// bytes; a sequence of more than `MAX_SEQUENCE_LENGTH` bytes is refused,
/// and nothing else is.
#[verifier::external_body]
pub(crate) fn encode_bytes(bytes: &Vec<u8>) -> (out: Option<Vec<u8>>)
    ensures
        out is Some == (bytes@.len() <= MAX_SEQUENCE_LENGTH),
        out is Some ==> out->Some_0@ == length_prefixed(bytes@),
{
    bcs::to_bytes(bytes).ok()
}

/// The address under which the framework's code is published: one.
pub open spec fn core_code_address() -> Seq<u8> {
    Seq::new(32, |i: int| if i == 31 { 1u8 } else { 0u8 })
}

/// The name of the module of the challenge, `account`, in bytes.
pub open spec fn module_name() -> Seq<u8> {
    seq![0x61u8, 0x63, 0x63, 0x6f, 0x75, 0x6e, 0x74]
}

/// The name of the challenge, `RotationProofChallenge`, in bytes.
pub open spec fn struct_name() -> Seq<u8> {
    seq![
        0x52u8, 0x6f, 0x74, 0x61, 0x74, 0x69, 0x6f, 0x6e, 0x50, 0x72, 0x6f, 0x6f, 0x66, 0x43, 0x68,
        0x61, 0x6c, 0x6c, 0x65, 0x6e, 0x67, 0x65,
    ]
}

/// The message that both keys sign to rotate the key of an account: the
/// address of the framework, the names of module and challenge, the sequence
/// number, the sender, its present authentication key and the new public
/// key, each in its canonical encoding, one after the other.
pub open spec fn rotation_challenge_bytes(
    sequence_number: u64,
    originator: Seq<u8>,
    current_auth_key: Seq<u8>,
    new_public_key: Seq<u8>,
) -> Seq<u8> {
    core_code_address() + length_prefixed(module_name()) + length_prefixed(struct_name())
        + spec_u64_to_le_bytes(sequence_number) + originator + current_auth_key
        + length_prefixed(new_public_key)
}

/// Appends the 32 bytes of `address` to `buf`.
fn put_address(buf: &mut Vec<u8>, address: &AccountAddress)
    ensures
        final(buf)@ == old(buf)@ + address@,
{
    let ghost start = buf@;
    let mut i: usize = 0;
    while i < 32
        invariant
            i <= 32,
            buf@ == start + address@.subrange(0, i as int),
        decreases 32 - i,
    {
        buf.push(address.bytes[i]);
        assert(address@.subrange(0, i as int).push(address@[i as int]) =~= address@.subrange(
            0,
            i + 1 as int,
        ));
        i += 1;
    }
    assert(address@.subrange(0, 32) =~= address@);
}

/// The message that both keys sign to rotate the key of an account, or
/// `None` where the new public key is too long to be written down.
pub fn rotation_message(
    sequence_number: u64,
    originator: &AccountAddress,
    current_auth_key: &AccountAddress,
    new_public_key: &Vec<u8>,
) -> (out: Option<Vec<u8>>)
    ensures
        out is Some == (new_public_key@.len() <= MAX_SEQUENCE_LENGTH),
        out matches Some(m) ==> m@ == rotation_challenge_bytes(
            sequence_number,
            originator@,
            current_auth_key@,
            new_public_key@,
        ),
{
    let mut key = match encode_bytes(new_public_key) {
        Some(key) => key,
        None => {
            return None;
        },
    };
    let mut core = [0u8; 32];
    core[31] = 1;
    let core = PeerId { bytes: core };
    assert(core@ =~= core_code_address());
    let module: Vec<u8> = vec![0x61u8, 0x63, 0x63, 0x6f, 0x75, 0x6e, 0x74];
    assert(module@ =~= module_name());
    let name: Vec<u8> = vec![
        0x52u8, 0x6f, 0x74, 0x61, 0x74, 0x69, 0x6f, 0x6e, 0x50, 0x72, 0x6f, 0x6f, 0x66, 0x43, 0x68,
        0x61, 0x6c, 0x6c, 0x65, 0x6e, 0x67, 0x65,
    ];
    assert(name@ =~= struct_name());
    let mut out: Vec<u8> = Vec::new();
    put_address(&mut out, &core);
    let mut module = encode_bytes(&module).unwrap();
    out.append(&mut module);
    let mut name = encode_bytes(&name).unwrap();
    out.append(&mut name);
    let mut number = encode_u64(sequence_number).unwrap();
    out.append(&mut number);
    put_address(&mut out, originator);
    put_address(&mut out, current_auth_key);
    out.append(&mut key);
    assert(out@ =~= rotation_challenge_bytes(
        sequence_number,
        originator@,
        current_auth_key@,
        new_public_key@,
    ));
    Some(out)
}

/// The address that 32 bytes stand for, and `None` for any other number of
/// bytes.
pub fn address_from_bytes(bytes: &Vec<u8>) -> (r: Option<AccountAddress>)
    ensures
        r is Some == (bytes@.len() == 32),
        r matches Some(a) ==> a@ == bytes@,
{
    if bytes.len() != 32 {
        return None;
    }
    let mut out = [0u8; 32];
    let mut i: usize = 0;
    while i < 32
        invariant
            i <= 32,
            bytes@.len() == 32,
            forall|j: int| 0 <= j < i ==> out@[j] == bytes@[j],
        decreases 32 - i,
    {
        out[i] = bytes[i];
        i += 1;
    }
    assert(out@ =~= bytes@);
    Some(PeerId { bytes: out })
}

/// What is said of a text or of bytes that are no address.
pub open spec fn no_address_message() -> Seq<char> {
    "Unable to parse AccountAddress (must be hex string of length 32)"@
}

/// What is said of a sequence that is too long to be written down.
pub open spec fn too_long_message() -> Seq<char> {
    "sequence is too long"@
}

/// What a rotation waits for.
#[derive(Clone, Copy, Debug, PartialEq, Eq, Structural)]
pub enum RotateStage {
    /// What the node knows of the account, and the new public key.
    AwaitAccount,
    /// The signatures of both keys over the message.
    AwaitSignatures,
    /// The node's word on the transaction.
    AwaitSummary,
    /// The answer to whether a profile is to be made.
    AwaitCreateAnswer,
    /// The name of the profile.
    AwaitName,
    /// Whether a profile of that name exists.
    AwaitExists,
    /// The answer to whether another name is to be given.
    AwaitRenameAnswer,
    /// The other name.
    AwaitNameAgain,
    /// The saving of the profile.
    AwaitSave,
    /// Nothing: the rotation is over.
    Done,
}

/// What a rotation is told.
#[derive(Debug)]
pub enum RotateEvent {
    /// What the node knows of the account, and the new public key; or why
    /// they are not to be had.
    Account(Result<AccountState, CliError>),
    /// The signatures of both keys over the message, or why they are not
    /// to be had.
    Signed(Result<RotationSignatures, CliError>),
    /// The transaction was submitted, and this is what the node said.
    Submitted(TransactionSummary),
    /// The user answered yes, or the question failed.
    Answered(Result<(), CliError>),
    /// The user typed a line, or reading failed.
    Line(Result<String, CliError>),
    /// Whether the profile exists, or the profiles could not be read.
    Exists(Result<bool, CliError>),
    /// The profile was saved, or saving failed.
    Saved(Result<(), CliError>),
}

/// What a rotation needs next.
#[derive(Debug)]
pub enum RotateAction {
    /// Read the sender's address, its sequence number and its authentication
    /// key from the node, and the public key of the new private key.
    ReadAccount,
    /// Sign this message with the present key and with the new one.
    Sign(Vec<u8>),
    /// Submit the transaction that rotates the key, with these arguments.
    Submit(RotationArguments),
    /// Ask the user this question, to be answered with yes or no.
    AskYes(String),
    /// Ask the user for the name of the profile.
    ReadLine,
    /// Say whether a profile of this name exists.
    CheckProfile(String),
    /// Save the new key to the profile of this name.
    SaveProfile(String),
    /// The rotation is over, and this is what it came to.
    Finish(Result<RotateSummary, CliError>),
}

/// The question whether a profile is to be made.
pub open spec fn create_question() -> Seq<char> {
    "Do you want to create a profile for the new key?"@
}

/// What is said where no new key is given.
pub open spec fn missing_key_message() -> Seq<char> {
    "One of ['--new-private-key', '--new-private-key-file'] must be used"@
}

/// What is said where the transaction failed.
pub open spec fn failed_message() -> Seq<char> {
    "Transaction was not executed successfully"@
}

/// What is said where the node's answer lacks the outcome.
pub open spec fn malformed_message() -> Seq<char> {
    "Malformed transaction response"@
}

/// A rotation under way.
pub struct RotateFlow {
    stage: RotateStage,
    new_public_key: Vec<u8>,
    save_to_profile: Option<String>,
    transaction: Option<TransactionSummary>,
    profile_name: String,
}

/// Whether `action` ends the rotation without a profile: the user declined,
/// and the summary carries no message.
pub open spec fn finishes_plain(action: RotateAction, transaction: TransactionSummary) -> bool {
    &&& action matches RotateAction::Finish(Ok(summary))
    &&& summary.spec_message() is None
    &&& summary.spec_transaction() == transaction
}

/// Whether `action` ends the rotation with this error.
pub open spec fn fails_with(action: RotateAction, error: CliError) -> bool {
    action matches RotateAction::Finish(Err(e)) && e == error
}

impl RotateFlow {
    pub closed spec fn stage(&self) -> RotateStage {
        self.stage
    }

    /// The profile that the command names, if it names one.
    pub closed spec fn save_to_profile(&self) -> Option<String> {
        self.save_to_profile
    }

    /// What the node said of the transaction, once it has.
    pub closed spec fn transaction(&self) -> Option<TransactionSummary> {
        self.transaction
    }

    /// The name of the profile, once there is one.
    pub closed spec fn profile_name(&self) -> Seq<char> {
        self.profile_name@
    }

    /// The bytes of the public key that the account rotates to, once they
    /// are read.
    pub closed spec fn new_public_key(&self) -> Seq<u8> {
        self.new_public_key@
    }

    /// The representation invariant: past the submission the node's word is
    /// known.
    pub closed spec fn wf(&self) -> bool {
        self.stage != RotateStage::AwaitAccount && self.stage != RotateStage::AwaitSignatures
            && self.stage != RotateStage::AwaitSummary && self.stage != RotateStage::Done
            ==> self.transaction is Some
    }

    /// The events that the rotation can take at its stage.
    pub open spec fn spec_accepts(&self, event: &RotateEvent) -> bool {
        match event {
            RotateEvent::Account(_) => self.stage() == RotateStage::AwaitAccount,
            RotateEvent::Signed(_) => self.stage() == RotateStage::AwaitSignatures,
            RotateEvent::Submitted(_) => self.stage() == RotateStage::AwaitSummary,
            RotateEvent::Answered(_) => self.stage() == RotateStage::AwaitCreateAnswer
                || self.stage() == RotateStage::AwaitRenameAnswer,
            RotateEvent::Line(_) => self.stage() == RotateStage::AwaitName || self.stage()
                == RotateStage::AwaitNameAgain,
            RotateEvent::Exists(_) => self.stage() == RotateStage::AwaitExists,
            RotateEvent::Saved(_) => self.stage() == RotateStage::AwaitSave,
        }
    }

    /// Whether the rotation can take `event` at its stage.
    pub fn accepts(&self, event: &RotateEvent) -> (r: bool)
        ensures
            r == self.spec_accepts(event),
    {
        match event {
            RotateEvent::Account(_) => self.stage == RotateStage::AwaitAccount,
            RotateEvent::Signed(_) => self.stage == RotateStage::AwaitSignatures,
            RotateEvent::Submitted(_) => self.stage == RotateStage::AwaitSummary,
            RotateEvent::Answered(_) => self.stage == RotateStage::AwaitCreateAnswer || self.stage
                == RotateStage::AwaitRenameAnswer,
            RotateEvent::Line(_) => self.stage == RotateStage::AwaitName || self.stage
                == RotateStage::AwaitNameAgain,
            RotateEvent::Exists(_) => self.stage == RotateStage::AwaitExists,
            RotateEvent::Saved(_) => self.stage == RotateStage::AwaitSave,
        }
    }

    /// Whether the rotation is over.
    pub fn is_done(&self) -> (r: bool)
        ensures
            r == (self.stage() == RotateStage::Done),
    {
        self.stage == RotateStage::Done
    }

    /// Ends the rotation.
    fn finish(&mut self, result: Result<RotateSummary, CliError>) -> (action: RotateAction)
        ensures
            final(self).wf(),
            final(self).stage() == RotateStage::Done,
            final(self).save_to_profile() == old(self).save_to_profile(),
            final(self).transaction() == old(self).transaction(),
            final(self).profile_name() == old(self).profile_name(),
            action == RotateAction::Finish(result),
    {
        self.stage = RotateStage::Done;
        RotateAction::Finish(result)
    }

    /// Saves the key to the profile of the name that was settled on, unless
    /// the name is empty: then the rotation ends as declined.
    fn save_or_abort(&mut self) -> (action: RotateAction)
        requires
            old(self).transaction() is Some,
        ensures
            final(self).wf(),
            final(self).save_to_profile() == old(self).save_to_profile(),
            final(self).profile_name() == old(self).profile_name(),
            final(self).transaction() == old(self).transaction(),
            if old(self).profile_name().len() == 0 {
                &&& final(self).stage() == RotateStage::Done
                &&& fails_with(action, CliError::AbortedError)
            } else {
                &&& final(self).stage() == RotateStage::AwaitSave
                &&& action matches RotateAction::SaveProfile(name)
                &&& name@ == old(self).profile_name()
            },
    {
        if self.profile_name.as_str().is_empty() {
            self.finish(Err(CliError::AbortedError))
        } else {
            self.stage = RotateStage::AwaitSave;
            RotateAction::SaveProfile(self.profile_name.clone())
        }
    }

    /// The rotation takes the answer to a question: after a yes the name is
    /// asked for, after a no the rotation ends without a profile, and a
    /// question that failed ends it with its error.
    fn on_answer(&mut self, answer: Result<(), CliError>, again: bool) -> (action: RotateAction)
        requires
            old(self).wf(),
            old(self).transaction() is Some,
        ensures
            final(self).wf(),
            final(self).save_to_profile() == old(self).save_to_profile(),
            final(self).profile_name() == old(self).profile_name(),
            match answer {
                Ok(()) => {
                    &&& action is ReadLine
                    &&& final(self).stage() == (if again {
                        RotateStage::AwaitNameAgain
                    } else {
                        RotateStage::AwaitName
                    })
                    &&& final(self).transaction() == old(self).transaction()
                },
                Err(CliError::AbortedError) => {
                    &&& final(self).stage() == RotateStage::Done
                    &&& finishes_plain(action, old(self).transaction()->Some_0)
                },
                Err(e) => {
                    &&& final(self).stage() == RotateStage::Done
                    &&& fails_with(action, e)
                },
            },
    {
        match answer {
            Ok(()) => {
                self.stage = if again {
                    RotateStage::AwaitNameAgain
                } else {
                    RotateStage::AwaitName
                };
                RotateAction::ReadLine
            },
            Err(CliError::AbortedError) => {
                let mut taken: Option<TransactionSummary> = None;
                std::mem::swap(&mut taken, &mut self.transaction);
                let summary = RotateSummary::new(None, taken.unwrap());
                self.finish(Ok(summary))
            },
            Err(e) => self.finish(Err(e)),
        }
    }
}

impl RotateKey {
    /// Begins the rotation: where neither a key nor a file with one is
    /// given the command fails at once, and otherwise the account is read.
    pub fn start(self) -> (out: (RotateFlow, RotateAction))
        ensures
            out.0.wf(),
            out.0.save_to_profile() == self.save_to_profile,
            out.0.transaction() is None,
            if self.new_private_key_file is None && self.new_private_key is None {
                &&& out.0.stage() == RotateStage::Done
                &&& out.1 matches RotateAction::Finish(Err(CliError::CommandArgumentError(m)))
                &&& m@ == missing_key_message()
            } else {
                &&& out.0.stage() == RotateStage::AwaitAccount
                &&& out.1 is ReadAccount
            },
    {
        let given = self.new_private_key_file.is_some() || self.new_private_key.is_some();
        let mut flow = RotateFlow {
            stage: RotateStage::AwaitAccount,
            new_public_key: Vec::new(),
            save_to_profile: self.save_to_profile,
            transaction: None,
            profile_name: String::new(),
        };
        if given {
            (flow, RotateAction::ReadAccount)
        } else {
            flow.stage = RotateStage::Done;
            let message =
                "One of ['--new-private-key', '--new-private-key-file'] must be used".to_owned();
            (flow, RotateAction::Finish(Err(CliError::CommandArgumentError(message))))
        }
    }
}

impl RotateFlow {
    /// One turn of the rotation: takes what came of the last action and says
    /// what is needed next.
    ///
    /// Once the account is read, the message that both keys sign is made
    /// of the sequence number, the sender, its authentication key and the new
    /// public key. An authentication key that is no address ends the rotation
    /// with an error. Once both keys have signed, the transaction is to be
    /// submitted with both public keys and both signatures.
    /// A transaction that did not succeed ends the rotation with an error.
    /// After one that did, the key is saved to a profile: the one that the
    /// command names, or one whose name the user gives after agreeing to make
    /// one. Where a profile of that name exists the user is asked once for
    /// another name. An empty name, or a no to either question, ends the
    /// rotation without a profile.
    pub fn step(&mut self, event: RotateEvent) -> (action: RotateAction)
        requires
            old(self).wf(),
            old(self).spec_accepts(&event),
        ensures
            final(self).wf(),
            final(self).save_to_profile() == old(self).save_to_profile(),
            match event {
                RotateEvent::Account(Ok(account)) => {
                    if account.auth_key@.len() != 32 {
                        &&& final(self).stage() == RotateStage::Done
                        &&& action matches RotateAction::Finish(
                            Err(CliError::UnableToParse(what, why)),
                        )
                        &&& what@ == "auth_key"@
                        &&& why@ == no_address_message()
                    } else if account.new_public_key@.len() > MAX_SEQUENCE_LENGTH {
                        &&& final(self).stage() == RotateStage::Done
                        &&& action matches RotateAction::Finish(Err(CliError::BCS(what, why)))
                        &&& what@ == "rotation_proof"@
                        &&& why@ == too_long_message()
                    } else {
                        &&& final(self).stage() == RotateStage::AwaitSignatures
                        &&& final(self).transaction() == old(self).transaction()
                        &&& final(self).new_public_key() == account.new_public_key@
                        &&& action matches RotateAction::Sign(message)
                        &&& message@ == rotation_challenge_bytes(
                            account.sequence_number,
                            account.originator@,
                            account.auth_key@,
                            account.new_public_key@,
                        )
                    }
                },
                RotateEvent::Account(Err(e)) => {
                    &&& final(self).stage() == RotateStage::Done
                    &&& fails_with(action, e)
                },
                RotateEvent::Signed(Ok(signatures)) => {
                    &&& final(self).stage() == RotateStage::AwaitSummary
                    &&& final(self).transaction() == old(self).transaction()
                    &&& action matches RotateAction::Submit(arguments)
                    &&& arguments.from_scheme == 0
                    &&& arguments.from_public_key_bytes@ == signatures.current_public_key@
                    &&& arguments.to_scheme == 0
                    &&& arguments.to_public_key_bytes@ == old(self).new_public_key()
                    &&& arguments.cap_rotate_key@ == signatures.by_current@
                    &&& arguments.cap_update_table@ == signatures.by_new@
                },
                RotateEvent::Signed(Err(e)) => {
                    &&& final(self).stage() == RotateStage::Done
                    &&& fails_with(action, e)
                },
                RotateEvent::Submitted(summary) => match summary.success {
                    Some(true) => {
                        &&& final(self).transaction() == Some(summary)
                        &&& match old(self).save_to_profile() {
                            None => {
                                &&& final(self).stage() == RotateStage::AwaitCreateAnswer
                                &&& action matches RotateAction::AskYes(q)
                                &&& q@ == create_question()
                            },
                            Some(name) => {
                                &&& final(self).stage() == RotateStage::AwaitExists
                                &&& final(self).profile_name() == name@
                                &&& action matches RotateAction::CheckProfile(n)
                                &&& n@ == name@
                            },
                        }
                    },
                    Some(false) => {
                        &&& final(self).stage() == RotateStage::Done
                        &&& action matches RotateAction::Finish(Err(CliError::ApiError(m)))
                        &&& m@ == failed_message()
                    },
                    None => {
                        &&& final(self).stage() == RotateStage::Done
                        &&& action matches RotateAction::Finish(Err(CliError::UnexpectedError(m)))
                        &&& m@ == malformed_message()
                    },
                },
                RotateEvent::Answered(answer) => match answer {
                    Ok(()) => {
                        &&& action is ReadLine
                        &&& final(self).stage() == (if old(self).stage()
                            == RotateStage::AwaitRenameAnswer {
                            RotateStage::AwaitNameAgain
                        } else {
                            RotateStage::AwaitName
                        })
                        &&& final(self).transaction() == old(self).transaction()
                    },
                    Err(CliError::AbortedError) => {
                        &&& final(self).stage() == RotateStage::Done
                        &&& finishes_plain(action, old(self).transaction()->Some_0)
                    },
                    Err(e) => {
                        &&& final(self).stage() == RotateStage::Done
                        &&& fails_with(action, e)
                    },
                },
                RotateEvent::Line(line) => match line {
                    Ok(text) => {
                        &&& final(self).profile_name() == trimmed(text@)
                        &&& final(self).transaction() == old(self).transaction()
                        &&& if old(self).stage() == RotateStage::AwaitName {
                            &&& final(self).stage() == RotateStage::AwaitExists
                            &&& action matches RotateAction::CheckProfile(n)
                            &&& n@ == trimmed(text@)
                        } else if trimmed(text@).len() == 0 {
                            &&& final(self).stage() == RotateStage::Done
                            &&& fails_with(action, CliError::AbortedError)
                        } else {
                            &&& final(self).stage() == RotateStage::AwaitSave
                            &&& action matches RotateAction::SaveProfile(n)
                            &&& n@ == trimmed(text@)
                        }
                    },
                    Err(e) => {
                        &&& final(self).stage() == RotateStage::Done
                        &&& fails_with(action, e)
                    },
                },
                RotateEvent::Exists(found) => match found {
                    Ok(true) => {
                        &&& final(self).stage() == RotateStage::AwaitRenameAnswer
                        &&& final(self).profile_name() == old(self).profile_name()
                        &&& final(self).transaction() == old(self).transaction()
                        &&& action matches RotateAction::AskYes(q)
                        &&& q@ == exists_question(old(self).profile_name())
                    },
                    Ok(false) => {
                        &&& final(self).profile_name() == old(self).profile_name()
                        &&& final(self).transaction() == old(self).transaction()
                        &&& if old(self).profile_name().len() == 0 {
                            &&& final(self).stage() == RotateStage::Done
                            &&& fails_with(action, CliError::AbortedError)
                        } else {
                            &&& final(self).stage() == RotateStage::AwaitSave
                            &&& action matches RotateAction::SaveProfile(n)
                            &&& n@ == old(self).profile_name()
                        }
                    },
                    Err(e) => {
                        &&& final(self).stage() == RotateStage::Done
                        &&& fails_with(action, e)
                    },
                },
                RotateEvent::Saved(saved) => match saved {
                    Ok(()) => {
                        &&& final(self).stage() == RotateStage::Done
                        &&& action matches RotateAction::Finish(Ok(summary))
                        &&& summary.spec_transaction() == old(self).transaction()->Some_0
                        &&& summary.spec_message() matches Some(m)
                        &&& m@ == saved_message(old(self).profile_name())
                    },
                    Err(e) => {
                        &&& final(self).stage() == RotateStage::Done
                        &&& fails_with(action, e)
                    },
                },
            },
    {
        match event {
            RotateEvent::Account(Ok(account)) => {
                let current = match address_from_bytes(&account.auth_key) {
                    Some(current) => current,
                    None => {
                        let what = "auth_key".to_owned();
                        let why =
                            "Unable to parse AccountAddress (must be hex string of length 32)".to_owned();
                        return self.finish(Err(CliError::UnableToParse(what, why)));
                    },
                };
                match rotation_message(
                    account.sequence_number,
                    &account.originator,
                    &current,
                    &account.new_public_key,
                ) {
                    Some(message) => {
                        self.stage = RotateStage::AwaitSignatures;
                        self.new_public_key = account.new_public_key;
                        RotateAction::Sign(message)
                    },
                    None => {
                        let what = "rotation_proof".to_owned();
                        let why = "sequence is too long".to_owned();
                        self.finish(Err(CliError::BCS(what, why)))
                    },
                }
            },
            RotateEvent::Account(Err(e)) => self.finish(Err(e)),
            RotateEvent::Signed(Ok(signatures)) => {
                let mut to_public_key_bytes: Vec<u8> = Vec::new();
                std::mem::swap(&mut to_public_key_bytes, &mut self.new_public_key);
                self.stage = RotateStage::AwaitSummary;
                RotateAction::Submit(
                    RotationArguments {
                        from_scheme: 0,
                        from_public_key_bytes: signatures.current_public_key,
                        to_scheme: 0,
                        to_public_key_bytes,
                        cap_rotate_key: signatures.by_current,
                        cap_update_table: signatures.by_new,
                    },
                )
            },
            RotateEvent::Signed(Err(e)) => self.finish(Err(e)),
            RotateEvent::Submitted(summary) => {
                match summary.success {
                    Some(true) => {},
                    Some(false) => {
                        let message = "Transaction was not executed successfully".to_owned();
                        return self.finish(Err(CliError::ApiError(message)));
                    },
                    None => {
                        let message = "Malformed transaction response".to_owned();
                        return self.finish(Err(CliError::UnexpectedError(message)));
                    },
                }
                self.transaction = Some(summary);
                match &self.save_to_profile {
                    None => {
                        self.stage = RotateStage::AwaitCreateAnswer;
                        RotateAction::AskYes(
                            "Do you want to create a profile for the new key?".to_owned(),
                        )
                    },
                    Some(name) => {
                        let name = name.clone();
                        self.profile_name = name.clone();
                        self.stage = RotateStage::AwaitExists;
                        RotateAction::CheckProfile(name)
                    },
                }
            },
            RotateEvent::Answered(answer) => {
                let again = self.stage == RotateStage::AwaitRenameAnswer;
                self.on_answer(answer, again)
            },
            RotateEvent::Line(line) => {
                match line {
                    Ok(text) => {
                        self.profile_name = trim_line(text.as_str());
                        if self.stage == RotateStage::AwaitName {
                            self.stage = RotateStage::AwaitExists;
                            RotateAction::CheckProfile(self.profile_name.clone())
                        } else {
                            self.save_or_abort()
                        }
                    },
                    Err(e) => self.finish(Err(e)),
                }
            },
            RotateEvent::Exists(found) => {
                match found {
                    Ok(true) => {
                        self.stage = RotateStage::AwaitRenameAnswer;
                        RotateAction::AskYes(make_exists_question(self.profile_name.as_str()))
                    },
                    Ok(false) => self.save_or_abort(),
                    Err(e) => self.finish(Err(e)),
                }
            },
            RotateEvent::Saved(saved) => {
                match saved {
                    Ok(()) => {
                        let message = make_saved_message(self.profile_name.as_str());
                        let mut taken: Option<TransactionSummary> = None;
                        std::mem::swap(&mut taken, &mut self.transaction);
                        let summary = RotateSummary::new(Some(message), taken.unwrap());
                        self.finish(Ok(summary))
                    },
                    Err(e) => self.finish(Err(e)),
                }
            },
        }
    }
}

/// The address that is derived from an Ed25519 public key: the hash of the
/// key's bytes followed by the byte that stands for the scheme, zero.
pub open spec fn derived_address(public_key: Seq<u8>) -> Seq<u8> {
    sha3_256(public_key.push(0u8))
}

/// What a lookup waits for.
#[derive(Clone, Copy, Debug, PartialEq, Eq, Structural)]
pub enum LookupStage {
    /// The resource that names the table of originating addresses.
    AwaitResource,
    /// The public key.
    AwaitPublicKey,
    /// The entry of the table.
    AwaitItem,
    /// Nothing: the lookup is over.
    Done,
}

/// What the node said to a query.
#[derive(Debug)]
pub enum NodeReply {
    /// The query failed, with this message.
    Failed(String),
    /// The answer holds nothing.
    Absent,
    /// The answer does not hold a text where one is due.
    NotText,
    /// The text that was asked for.
    Text(String),
}

/// What a lookup is told.
#[derive(Debug)]
pub enum LookupEvent {
    /// The node's answer to the query for the resource: the handle of the
    /// table, if all went well.
    Resource(NodeReply),
    /// The bytes of the public key, or why it is not to be had.
    PublicKey(Result<Vec<u8>, CliError>),
    /// The node's answer to the query for the entry: the address, written
    /// out, if all went well.
    Item(NodeReply),
}

/// What a lookup needs next.
#[derive(Debug)]
pub enum LookupAction {
    /// Ask the node for the resource that names the table.
    GetResource,
    /// Read the public key from where `LookupAddress::public_key` says.
    GetPublicKey,
    /// Ask the node for the entry of the table at this address under this
    /// key.
    GetTableItem(AccountAddress, HashValue),
    /// The lookup is over: the address of the account, or the error.
    Finish(Result<AccountAddress, CliError>),
}

/// What is said where the node's answer cannot be read.
pub open spec fn unreadable_message() -> Seq<char> {
    "Unable to parse API response."@
}

/// What is said where the resource lacks the handle of the table.
pub open spec fn no_handle_message() -> Seq<char> {
    "Unable to parse table handle."@
}

/// A lookup under way.
pub struct LookupFlow {
    stage: LookupStage,
    handle: String,
}

/// Whether `action` ends the lookup because `what` is no address.
pub open spec fn fails_to_parse(action: LookupAction, what: Seq<char>) -> bool {
    &&& action matches LookupAction::Finish(Err(CliError::UnableToParse(w, why)))
    &&& w@ == what
    &&& why@ == no_address_message()
}

impl LookupAddress {
    /// The address under which the table lists the account of a public key.
    pub fn address_key(public_key: &Vec<u8>) -> (key: HashValue)
        ensures
            key@ == derived_address(public_key@),
    {
        let mut bytes = public_key.clone();
        bytes.push(0u8);
        sha3_256_of(&bytes)
    }

    /// Begins the lookup: the node is asked for the resource that names the
    /// table.
    pub fn start(&self) -> (out: (LookupFlow, LookupAction))
        ensures
            out.0.stage() == LookupStage::AwaitResource,
            out.1 is GetResource,
    {
        (
            LookupFlow { stage: LookupStage::AwaitResource, handle: String::new() },
            LookupAction::GetResource,
        )
    }
}

impl LookupFlow {
    pub closed spec fn stage(&self) -> LookupStage {
        self.stage
    }

    /// The handle of the table as the node wrote it, once it is known.
    pub closed spec fn handle(&self) -> Seq<char> {
        self.handle@
    }

    /// The events that the lookup can take at its stage.
    pub open spec fn spec_accepts(&self, event: &LookupEvent) -> bool {
        match event {
            LookupEvent::Resource(_) => self.stage() == LookupStage::AwaitResource,
            LookupEvent::PublicKey(_) => self.stage() == LookupStage::AwaitPublicKey,
            LookupEvent::Item(_) => self.stage() == LookupStage::AwaitItem,
        }
    }

    /// Whether the lookup can take `event` at its stage.
    pub fn accepts(&self, event: &LookupEvent) -> (r: bool)
        ensures
            r == self.spec_accepts(event),
    {
        match event {
            LookupEvent::Resource(_) => self.stage == LookupStage::AwaitResource,
            LookupEvent::PublicKey(_) => self.stage == LookupStage::AwaitPublicKey,
            LookupEvent::Item(_) => self.stage == LookupStage::AwaitItem,
        }
    }

    /// One turn of the lookup: takes what came of the last action and says
    /// what is needed next.
    ///
    /// The resource gives the handle of the table, the public key gives the
    /// key of the entry, and the entry gives the address. The handle is
    /// judged once the public key is read: a handle that is no address ends
    /// the lookup with an error. So does an entry that is not the hex literal
    /// of an address, an answer of the node that failed, holds nothing or
    /// holds no text, and a public key that is not to be had.
    pub fn step(&mut self, event: LookupEvent) -> (action: LookupAction)
        requires
            old(self).spec_accepts(&event),
        ensures
            match event {
                LookupEvent::Resource(NodeReply::Text(handle)) => {
                    &&& final(self).stage() == LookupStage::AwaitPublicKey
                    &&& final(self).handle() == handle@
                    &&& action is GetPublicKey
                },
                LookupEvent::Resource(NodeReply::NotText) => {
                    &&& final(self).stage() == LookupStage::Done
                    &&& action matches LookupAction::Finish(Err(CliError::UnexpectedError(m)))
                    &&& m@ == no_handle_message()
                },
                LookupEvent::Item(NodeReply::Text(address)) => {
                    &&& final(self).stage() == LookupStage::Done
                    &&& if is_address_literal(address@) {
                        &&& action matches LookupAction::Finish(Ok(a))
                        &&& a@ == address_bytes(address@)
                    } else {
                        fails_to_parse(action, "AccountAddress"@)
                    }
                },
                LookupEvent::Item(NodeReply::NotText) => {
                    &&& final(self).stage() == LookupStage::Done
                    &&& action matches LookupAction::Finish(Err(CliError::UnexpectedError(m)))
                    &&& m@ == unreadable_message()
                },
                LookupEvent::Resource(NodeReply::Failed(why)) | LookupEvent::Item(
                    NodeReply::Failed(why),
                ) => {
                    &&& final(self).stage() == LookupStage::Done
                    &&& action matches LookupAction::Finish(Err(CliError::ApiError(m)))
                    &&& m == why
                },
                LookupEvent::Resource(NodeReply::Absent) | LookupEvent::Item(NodeReply::Absent) => {
                    &&& final(self).stage() == LookupStage::Done
                    &&& action matches LookupAction::Finish(Err(CliError::UnexpectedError(m)))
                    &&& m@ == unreadable_message()
                },
                LookupEvent::PublicKey(Ok(bytes)) => {
                    if is_address_text(old(self).handle()) {
                        &&& final(self).stage() == LookupStage::AwaitItem
                        &&& final(self).handle() == old(self).handle()
                        &&& action matches LookupAction::GetTableItem(table, key)
                        &&& table@ == address_text_bytes(old(self).handle())
                        &&& key@ == derived_address(bytes@)
                    } else {
                        &&& final(self).stage() == LookupStage::Done
                        &&& fails_to_parse(action, "table_handle"@)
                    }
                },
                LookupEvent::PublicKey(Err(e)) => {
                    &&& final(self).stage() == LookupStage::Done
                    &&& action matches LookupAction::Finish(Err(err))
                    &&& err == e
                },
            },
    {
        match event {
            LookupEvent::Resource(NodeReply::Text(handle)) => {
                self.handle = handle;
                self.stage = LookupStage::AwaitPublicKey;
                LookupAction::GetPublicKey
            },
            LookupEvent::Resource(NodeReply::NotText) => {
                self.stage = LookupStage::Done;
                LookupAction::Finish(
                    Err(CliError::UnexpectedError("Unable to parse table handle.".to_owned())),
                )
            },
            LookupEvent::Item(NodeReply::Text(address)) => {
                self.stage = LookupStage::Done;
                match parse_address(address.as_str()) {
                    Some(bytes) => LookupAction::Finish(Ok(PeerId { bytes })),
                    None => {
                        let what = "AccountAddress".to_owned();
                        let why =
                            "Unable to parse AccountAddress (must be hex string of length 32)".to_owned();
                        LookupAction::Finish(Err(CliError::UnableToParse(what, why)))
                    },
                }
            },
            LookupEvent::Item(NodeReply::NotText) => {
                self.stage = LookupStage::Done;
                LookupAction::Finish(
                    Err(CliError::UnexpectedError("Unable to parse API response.".to_owned())),
                )
            },
            LookupEvent::Resource(NodeReply::Failed(why)) | LookupEvent::Item(
                NodeReply::Failed(why),
            ) => {
                self.stage = LookupStage::Done;
                LookupAction::Finish(Err(CliError::ApiError(why)))
            },
            LookupEvent::Resource(NodeReply::Absent) | LookupEvent::Item(NodeReply::Absent) => {
                self.stage = LookupStage::Done;
                LookupAction::Finish(
                    Err(CliError::UnexpectedError("Unable to parse API response.".to_owned())),
                )
            },
            LookupEvent::PublicKey(Ok(bytes)) => {
                match parse_address_text(self.handle.as_str()) {
                    Some(table) => {
                        let key = LookupAddress::address_key(&bytes);
                        self.stage = LookupStage::AwaitItem;
                        LookupAction::GetTableItem(PeerId { bytes: table }, key)
                    },
                    None => {
                        self.stage = LookupStage::Done;
                        let what = "table_handle".to_owned();
                        let why =
                            "Unable to parse AccountAddress (must be hex string of length 32)".to_owned();
                        LookupAction::Finish(Err(CliError::UnableToParse(what, why)))
                    },
                }
            },
            LookupEvent::PublicKey(Err(e)) => {
                self.stage = LookupStage::Done;
                LookupAction::Finish(Err(e))
            },
        }
    }
}

} // verus!
