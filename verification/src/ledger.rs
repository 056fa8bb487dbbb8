//! The operations on storage slots.
//!
//! A slot is a buffer of fixed length that starts with the record of one
//! profile; what follows the record is padding. An operation reads the record,
//! changes the profile and writes the new record over the old one. A record
//! that is longer than the slot is refused, and a refused operation leaves
//! every slot as it was.

use crate::address::Address;
use crate::book::has_post;
use crate::error::LedgerError;
use crate::instruction::{decoded_instruction, InstructionView, ProfessionalNetworkingInstruction};
use crate::profile::{
    credential_due, fresh_profile, may_publish, profile_bytes, profile_fits, take_profile,
    with_credential, with_friend, with_new_comment, with_new_post, ProfileView, UserProfile,
    FRIEND_THRESHOLD,
};
use vstd::prelude::*;

verus! {

/// What an operation on one slot comes to: how it ends, and the slot after it.
pub type Step = (Result<(), LedgerError>, Seq<u8>);

/// The initialized profile whose record the slot starts with.
pub open spec fn stored_profile(slot: Seq<u8>) -> Option<ProfileView> {
    match take_profile(slot) {
        Some((profile, padding)) => if profile.is_initialized {
            Some(profile)
        } else {
            None
        },
        None => None,
    }
}

/// The profile can be written, and the slot is long enough for its record.
pub open spec fn can_hold(slot: Seq<u8>, profile: ProfileView) -> bool {
    profile_fits(profile) && profile_bytes(profile).len() <= slot.len()
}

/// The slot with the record of `profile` over its leading bytes.
pub open spec fn slot_with(slot: Seq<u8>, profile: ProfileView) -> Seq<u8> {
    profile_bytes(profile) + slot.skip(profile_bytes(profile).len() as int)
}

/// Writing `profile` into the slot.
pub open spec fn store_step(slot: Seq<u8>, profile: ProfileView) -> Step {
    if can_hold(slot, profile) {
        (Ok(()), slot_with(slot, profile))
    } else {
        (Err(LedgerError::OutOfSpace), slot)
    }
}

/// Creating the profile of `owner` in the slot, whatever the slot held.
pub open spec fn create_step(
    slot: Seq<u8>,
    owner: Seq<u8>,
    name: Seq<char>,
    bio: Seq<char>,
    profile_picture: Seq<char>,
) -> Step {
    store_step(slot, fresh_profile(name, bio, profile_picture, owner))
}

/// Asking `friend`: refused where the profile lists the friend already. Only
/// the sender's slot changes; the friend lists the sender once the friend
/// accepts.
pub open spec fn send_request_step(slot: Seq<u8>, friend: Seq<u8>) -> Step {
    match stored_profile(slot) {
        Some(profile) => if profile.friends.contains(friend) {
            (Err(LedgerError::DuplicateRequest), slot)
        } else {
            store_step(slot, with_friend(profile, friend))
        },
        None => (Err(LedgerError::MalformedAccountData), slot),
    }
}

/// Writing a post of `caller`: refused where the profile may not publish.
pub open spec fn write_post_step(slot: Seq<u8>, caller: Seq<u8>, content: Seq<char>) -> Step {
    match stored_profile(slot) {
        Some(profile) => if !may_publish(profile) {
            (Err(LedgerError::PermissionDenied), slot)
        } else {
            store_step(slot, with_new_post(profile, caller, content))
        },
        None => (Err(LedgerError::MalformedAccountData), slot),
    }
}

/// Writing a comment of `caller` under the post of `post_author` at place
/// `post_index`: refused where the profile may not publish, and where the
/// profile holds no such post. The post is looked for in the caller's own
/// slot, whoever `post_author` is: a post in another slot cannot be commented
/// on.
pub open spec fn add_comment_step(
    slot: Seq<u8>,
    caller: Seq<u8>,
    post_author: Seq<u8>,
    post_index: int,
    content: Seq<char>,
) -> Step {
    match stored_profile(slot) {
        Some(profile) => if !may_publish(profile) {
            (Err(LedgerError::PermissionDenied), slot)
        } else if !has_post(profile.posts, post_author, post_index) {
            (Err(LedgerError::NotFound), slot)
        } else {
            store_step(slot, with_new_comment(profile, post_author, post_index, caller, content))
        },
        None => (Err(LedgerError::MalformedAccountData), slot),
    }
}

/// What accepting `friend` asks for: the caller's profile with the friend, and
/// whether the credential is to be issued first.
pub open spec fn accept_plan(slot: Seq<u8>, friend: Seq<u8>) -> Option<(ProfileView, bool)> {
    match stored_profile(slot) {
        Some(profile) => Some((with_friend(profile, friend), credential_due(profile, friend))),
        None => None,
    }
}

/// What the end of an acceptance comes to: how it ends, the caller's slot and
/// the friend's slot after it.
pub type AcceptStep = (Result<(), LedgerError>, Seq<u8>, Seq<u8>);

/// The end of an acceptance. The caller's profile, with the credential where
/// it was due and has been issued, goes into the caller's slot; the profile in
/// the friend's slot gets the caller as a friend.
pub open spec fn finish_accept_step(
    profile: ProfileView,
    due: bool,
    issued: bool,
    caller: Seq<u8>,
    user_slot: Seq<u8>,
    friend_slot: Seq<u8>,
) -> AcceptStep {
    let updated = if due {
        with_credential(profile)
    } else {
        profile
    };
    if due && !issued {
        (Err(LedgerError::BridgeFailure), user_slot, friend_slot)
    } else if !can_hold(user_slot, updated) {
        (Err(LedgerError::OutOfSpace), user_slot, friend_slot)
    } else {
        match stored_profile(friend_slot) {
            Some(other) => if !can_hold(friend_slot, with_friend(other, caller)) {
                (Err(LedgerError::OutOfSpace), user_slot, friend_slot)
            } else {
                (
                    Ok(()),
                    slot_with(user_slot, updated),
                    slot_with(friend_slot, with_friend(other, caller)),
                )
            },
            None => (Err(LedgerError::MalformedAccountData), user_slot, friend_slot),
        }
    }
}

/// An acceptance between its two halves: the caller's profile with the new
/// friend, not yet written, and whether the credential is due.
#[derive(Debug)]
pub struct PendingAccept {
    profile: UserProfile,
    due: bool,
}

impl PendingAccept {
    /// The profile is well formed and initialized.
    pub closed spec fn wf(&self) -> bool {
        self.profile.wf() && self.profile.is_initialized
    }

    /// The caller's profile with the new friend.
    pub closed spec fn profile(&self) -> ProfileView {
        self.profile@
    }

    /// Whether the credential is to be issued before the acceptance ends.
    pub closed spec fn due(&self) -> bool {
        self.due
    }

    /// Whether the credential is to be issued before the acceptance ends.
    pub fn credential_due(&self) -> (due: bool)
        ensures
            due == self.due(),
    {
        self.due
    }
}

/// How far an operation has come.
#[derive(Debug)]
pub enum Progress {
    /// The slot holds the new state.
    Done,
    /// An acceptance has read the caller's slot. It ends with `finish_accept`,
    /// after the credential was issued where it is due.
    Accept(PendingAccept),
}

/// The initialized profile that the slot holds.
pub fn load_profile(slot: &[u8]) -> (r: Result<UserProfile, LedgerError>)
    ensures
        match r {
            Ok(profile) => profile.wf() && stored_profile(slot@) == Some(profile@),
            Err(e) => e == LedgerError::MalformedAccountData && stored_profile(slot@) is None,
        },
{
    assert(slot@.skip(0) =~= slot@);
    match UserProfile::read(slot, 0) {
        Some((profile, next)) => {
            if profile.is_initialized {
                Ok(profile)
            } else {
                Err(LedgerError::MalformedAccountData)
            }
        },
        None => Err(LedgerError::MalformedAccountData),
    }
}

/// Copies `bytes` over the leading bytes of the slot.
fn overwrite(slot: &mut Vec<u8>, bytes: &Vec<u8>)
    requires
        bytes@.len() <= old(slot)@.len(),
    ensures
        final(slot)@ == bytes@ + old(slot)@.skip(bytes@.len() as int),
{
    let mut i: usize = 0;
    while i < bytes.len()
        invariant
            0 <= i <= bytes@.len(),
            bytes@.len() <= slot@.len(),
            slot@.len() == old(slot)@.len(),
            forall|j: int| 0 <= j < i ==> slot@[j] == bytes@[j],
            forall|j: int| i <= j < slot@.len() ==> slot@[j] == old(slot)@[j],
        decreases bytes@.len() - i,
    {
        slot[i] = bytes[i];
        i += 1;
    }
    assert(slot@ =~= bytes@ + old(slot)@.skip(bytes@.len() as int));
}

/// Writes the record of `profile` over the leading bytes of the slot, if the
/// slot is long enough.
pub fn store_profile(slot: &mut Vec<u8>, profile: &UserProfile) -> (r: Result<(), LedgerError>)
    requires
        profile.wf(),
    ensures
        (r, final(slot)@) == store_step(old(slot)@, profile@),
{
    match profile.encode() {
        Ok(bytes) => {
            if bytes.len() > slot.len() {
                Err(LedgerError::OutOfSpace)
            } else {
                overwrite(slot, &bytes);
                Ok(())
            }
        },
        Err(_) => Err(LedgerError::OutOfSpace),
    }
}

/// Creates the profile of `owner` in the slot, whatever the slot held.
pub fn create_user_profile(
    slot: &mut Vec<u8>,
    owner: &Address,
    name: String,
    bio: String,
    profile_picture: String,
) -> (r: Result<(), LedgerError>)
    ensures
        (r, final(slot)@) == create_step(old(slot)@, owner@, name@, bio@, profile_picture@),
{
    let profile = UserProfile::new(name, bio, profile_picture, *owner);
    store_profile(slot, &profile)
}

/// Puts `friend` among the friends of the profile in the slot.
pub fn send_friend_request(slot: &mut Vec<u8>, friend: &Address) -> (r: Result<(), LedgerError>)
    ensures
        (r, final(slot)@) == send_request_step(old(slot)@, friend@),
{
    let mut profile = match load_profile(slot.as_slice()) {
        Ok(profile) => profile,
        Err(e) => {
            return Err(e);
        },
    };
    if profile.friends.contains(friend) {
        return Err(LedgerError::DuplicateRequest);
    }
    profile.friends.insert(*friend);
    store_profile(slot, &profile)
}

/// Puts a post of `caller` into the profile in the slot.
pub fn write_post(slot: &mut Vec<u8>, caller: &Address, content: String) -> (r: Result<
    (),
    LedgerError,
>)
    ensures
        (r, final(slot)@) == write_post_step(old(slot)@, caller@, content@),
{
    let mut profile = match load_profile(slot.as_slice()) {
        Ok(profile) => profile,
        Err(e) => {
            return Err(e);
        },
    };
    if !profile.can_write_post() {
        return Err(LedgerError::PermissionDenied);
    }
    profile.add_post(*caller, content);
    store_profile(slot, &profile)
}

/// Puts a comment of `caller` under a post that the profile in the slot holds.
pub fn add_comment(
    slot: &mut Vec<u8>,
    caller: &Address,
    post_author: &Address,
    post_index: usize,
    content: String,
) -> (r: Result<(), LedgerError>)
    ensures
        (r, final(slot)@) == add_comment_step(
            old(slot)@,
            caller@,
            post_author@,
            post_index as int,
            content@,
        ),
{
    let mut profile = match load_profile(slot.as_slice()) {
        Ok(profile) => profile,
        Err(e) => {
            return Err(e);
        },
    };
    if !profile.can_comment() {
        return Err(LedgerError::PermissionDenied);
    }
    match profile.add_comment(*post_author, post_index, *caller, content) {
        Ok(()) => {},
        Err(e) => {
            return Err(e);
        },
    }
    store_profile(slot, &profile)
}

/// The first half of an acceptance: reads the caller's profile and finds
/// whether the credential is due. Nothing is written yet.
pub fn begin_accept(slot: &[u8], friend: &Address) -> (r: Result<PendingAccept, LedgerError>)
    ensures
        match r {
            Ok(pending) => pending.wf() && accept_plan(slot@, friend@) == Some(
                (pending.profile(), pending.due()),
            ),
            Err(e) => e == LedgerError::MalformedAccountData && accept_plan(slot@, friend@)
                is None,
        },
{
    let mut profile = match load_profile(slot) {
        Ok(profile) => profile,
        Err(e) => {
            return Err(e);
        },
    };
    profile.friends.insert(*friend);
    let due = profile.friends.len() >= FRIEND_THRESHOLD && !profile.nft_owned;
    Ok(PendingAccept { profile, due })
}

/// The second half of an acceptance. `issued` tells whether the credential
/// has been issued since the first half.
pub fn finish_accept(
    pending: PendingAccept,
    issued: bool,
    caller: &Address,
    user_slot: &mut Vec<u8>,
    friend_slot: &mut Vec<u8>,
) -> (r: Result<(), LedgerError>)
    requires
        pending.wf(),
    ensures
        (r, final(user_slot)@, final(friend_slot)@) == finish_accept_step(
            pending.profile(),
            pending.due(),
            issued,
            caller@,
            old(user_slot)@,
            old(friend_slot)@,
        ),
{
    let PendingAccept { profile, due } = pending;
    let mut profile = profile;
    if due {
        if !issued {
            return Err(LedgerError::BridgeFailure);
        }
        profile.nft_owned = true;
    }
    let user_bytes = match profile.encode() {
        Ok(bytes) => bytes,
        Err(e) => {
            return Err(e);
        },
    };
    if user_bytes.len() > user_slot.len() {
        return Err(LedgerError::OutOfSpace);
    }
    let mut other = match load_profile(friend_slot.as_slice()) {
        Ok(other) => other,
        Err(e) => {
            return Err(e);
        },
    };
    other.friends.insert(*caller);
    let friend_bytes = match other.encode() {
        Ok(bytes) => bytes,
        Err(e) => {
            return Err(e);
        },
    };
    if friend_bytes.len() > friend_slot.len() {
        return Err(LedgerError::OutOfSpace);
    }
    overwrite(user_slot, &user_bytes);
    overwrite(friend_slot, &friend_bytes);
    Ok(())
}

/// What `process_instruction` comes to on a payload that names `instruction`.
pub open spec fn dispatched(
    instruction: InstructionView,
    caller: Seq<u8>,
    before: Seq<u8>,
    r: Result<Progress, LedgerError>,
    after: Seq<u8>,
) -> bool {
    match instruction {
        InstructionView::CreateUserProfile { name, bio, profile_picture } => settled(
            create_step(before, caller, name, bio, profile_picture),
            r,
            after,
        ),
        InstructionView::SendFriendRequest { friend_address } => settled(
            send_request_step(before, friend_address),
            r,
            after,
        ),
        InstructionView::AcceptFriendRequest { friend_address } => after == before && match r {
            Ok(Progress::Accept(pending)) => pending.wf() && accept_plan(before, friend_address)
                == Some((pending.profile(), pending.due())),
            Ok(Progress::Done) => false,
            Err(e) => e == LedgerError::MalformedAccountData && accept_plan(
                before,
                friend_address,
            ) is None,
        },
        InstructionView::WritePost { content } => settled(
            write_post_step(before, caller, content),
            r,
            after,
        ),
        InstructionView::AddComment { post_author, post_index, content } => settled(
            add_comment_step(before, caller, post_author, post_index as int, content),
            r,
            after,
        ),
    }
}

/// The operation ended as `step` says: done, or refused for the step's reason.
pub open spec fn settled(step: Step, r: Result<Progress, LedgerError>, after: Seq<u8>) -> bool {
    after == step.1 && match step.0 {
        Ok(_) => r matches Ok(Progress::Done),
        Err(e) => r == Err::<Progress, LedgerError>(e),
    }
}

/// The end of an operation on one slot as the progress of its invocation.
fn finished(outcome: Result<(), LedgerError>) -> (r: Result<Progress, LedgerError>)
    ensures
        match outcome {
            Ok(_) => r matches Ok(Progress::Done),
            Err(e) => r == Err::<Progress, LedgerError>(e),
        },
{
    match outcome {
        Ok(()) => Ok(Progress::Done),
        Err(e) => Err(e),
    }
}

/// Carries out `instruction` on the caller's slot. An acceptance is carried
/// as far as its first half.
fn dispatch(
    instruction: ProfessionalNetworkingInstruction,
    caller: &Address,
    slot: &mut Vec<u8>,
) -> (r: Result<Progress, LedgerError>)
    ensures
        dispatched(instruction@, caller@, old(slot)@, r, final(slot)@),
{
    match instruction {
        ProfessionalNetworkingInstruction::CreateUserProfile { name, bio, profile_picture } => {
            let r = finished(create_user_profile(slot, caller, name, bio, profile_picture));
            assert(settled(
                create_step(old(slot)@, caller@, name@, bio@, profile_picture@),
                r,
                slot@,
            ));
            r
        },
        ProfessionalNetworkingInstruction::SendFriendRequest { friend_address } => {
            let r = finished(send_friend_request(slot, &friend_address));
            assert(settled(send_request_step(old(slot)@, friend_address@), r, slot@));
            r
        },
        ProfessionalNetworkingInstruction::AcceptFriendRequest { friend_address } => {
            match begin_accept(slot.as_slice(), &friend_address) {
                Ok(pending) => Ok(Progress::Accept(pending)),
                Err(e) => Err(e),
            }
        },
        ProfessionalNetworkingInstruction::WritePost { content } => {
            let r = finished(write_post(slot, caller, content));
            assert(settled(write_post_step(old(slot)@, caller@, content@), r, slot@));
            r
        },
        ProfessionalNetworkingInstruction::AddComment { post_author, post_index, content } => {
            let r = finished(add_comment(slot, caller, &post_author, post_index, content));
            assert(settled(
                add_comment_step(old(slot)@, caller@, post_author@, post_index as int, content@),
                r,
                slot@,
            ));
            r
        },
    }
}

/// Decodes the payload and carries out the operation that it names on the
/// caller's slot. An acceptance is carried as far as its first half.
pub fn process_instruction(caller: &Address, slot: &mut Vec<u8>, instruction_data: &[u8]) -> (r:
    Result<Progress, LedgerError>)
    ensures
        match decoded_instruction(instruction_data@) {
            Some(instruction) => dispatched(instruction, caller@, old(slot)@, r, final(slot)@),
            None => final(slot)@ == old(slot)@ && r == Err::<Progress, LedgerError>(
                LedgerError::InvalidInstruction,
            ),
        },
{
    match ProfessionalNetworkingInstruction::decode(instruction_data) {
        Ok(instruction) => dispatch(instruction, caller, slot),
        Err(e) => Err(e),
    }
}

} // verus!
