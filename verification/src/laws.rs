//! What holds of the operations whatever the slots hold.

use crate::book::posts_of;
use crate::error::LedgerError;
use crate::ledger::{
    accept_plan, add_comment_step, can_hold, finish_accept_step, send_request_step, slot_with,
    store_step, stored_profile, write_post_step,
};
use crate::profile::{
    credential_due, lemma_take_profile, may_publish, profile_bytes, take_profile, with_credential,
    with_friend, with_new_comment, with_new_post, ProfileView,
};
use vstd::prelude::*;

verus! {

/// A slot into which a profile was written holds that profile, and is as long
/// as it was.
pub proof fn lemma_store_then_load(slot: Seq<u8>, profile: ProfileView)
    requires
        can_hold(slot, profile),
        profile.is_initialized,
    ensures
        stored_profile(slot_with(slot, profile)) == Some(profile),
        slot_with(slot, profile).len() == slot.len(),
{
    lemma_take_profile(profile, slot.skip(profile_bytes(profile).len() as int));
}

/// The friends of the profile that a slot holds are finitely many.
pub proof fn lemma_stored_friends_finite(slot: Seq<u8>)
    requires
        stored_profile(slot) is Some,
    ensures
        stored_profile(slot).unwrap().friends.finite(),
{
    reveal(take_profile);
    let keys = choose|keys: Seq<Seq<u8>>| keys.to_set() == stored_profile(slot).unwrap().friends;
    vstd::seq_lib::seq_to_set_is_finite(keys);
}

/// A request that went through is refused as a duplicate when it is made
/// again, and the slot stays as the first request left it.
pub proof fn lemma_second_request_refused(slot: Seq<u8>, friend: Seq<u8>)
    requires
        send_request_step(slot, friend).0 is Ok,
    ensures
        send_request_step(send_request_step(slot, friend).1, friend) == (
            Err::<(), LedgerError>(LedgerError::DuplicateRequest),
            send_request_step(slot, friend).1,
        ),
{
    let profile = stored_profile(slot).unwrap();
    lemma_store_then_load(slot, with_friend(profile, friend));
}

/// After a request that went through, the sender's slot lists the friend. The
/// friend's slot is no part of a request, so it stays as it is until the
/// friend accepts.
pub proof fn lemma_request_lists_friend(slot: Seq<u8>, friend: Seq<u8>)
    requires
        send_request_step(slot, friend).0 is Ok,
    ensures
        stored_profile(send_request_step(slot, friend).1) == Some(
            with_friend(stored_profile(slot).unwrap(), friend),
        ),
{
    let profile = stored_profile(slot).unwrap();
    lemma_store_then_load(slot, with_friend(profile, friend));
}

/// After an acceptance that went through, each of the two slots lists the
/// other party: the caller's slot the friend, the friend's slot the caller.
pub proof fn lemma_acceptance_lists_both(
    user_slot: Seq<u8>,
    friend_slot: Seq<u8>,
    caller: Seq<u8>,
    friend: Seq<u8>,
    issued: bool,
)
    requires
        accept_plan(user_slot, friend) is Some,
        finish_accept_step(
            accept_plan(user_slot, friend).unwrap().0,
            accept_plan(user_slot, friend).unwrap().1,
            issued,
            caller,
            user_slot,
            friend_slot,
        ).0 is Ok,
    ensures
        ({
            let plan = accept_plan(user_slot, friend).unwrap();
            let end = finish_accept_step(plan.0, plan.1, issued, caller, user_slot, friend_slot);
            &&& stored_profile(end.1) is Some
            &&& stored_profile(end.1).unwrap().friends == stored_profile(
                user_slot,
            ).unwrap().friends.insert(friend)
            &&& stored_profile(friend_slot) is Some
            &&& stored_profile(end.2) == Some(
                with_friend(stored_profile(friend_slot).unwrap(), caller),
            )
        }),
{
    let plan = accept_plan(user_slot, friend).unwrap();
    let updated = if plan.1 {
        with_credential(plan.0)
    } else {
        plan.0
    };
    lemma_store_then_load(user_slot, updated);
    lemma_store_then_load(friend_slot, with_friend(stored_profile(friend_slot).unwrap(), caller));
}

/// A profile that owns the credential is never asked to have it issued again:
/// accepting a friend finds the credential not due, and keeps it.
pub proof fn lemma_credential_not_due_again(slot: Seq<u8>, friend: Seq<u8>)
    requires
        stored_profile(slot) is Some,
        stored_profile(slot).unwrap().nft_owned,
    ensures
        accept_plan(slot, friend) is Some,
        !accept_plan(slot, friend).unwrap().1,
        accept_plan(slot, friend).unwrap().0.nft_owned,
{
}

/// After an acceptance with which the credential was issued, or before which
/// the profile owned it, the caller's slot holds a profile with the credential,
/// and no later acceptance finds the credential due.
pub proof fn lemma_credential_issued_once(
    user_slot: Seq<u8>,
    friend_slot: Seq<u8>,
    caller: Seq<u8>,
    friend: Seq<u8>,
    issued: bool,
    next_friend: Seq<u8>,
)
    requires
        accept_plan(user_slot, friend) is Some,
        accept_plan(user_slot, friend).unwrap().1 || accept_plan(
            user_slot,
            friend,
        ).unwrap().0.nft_owned,
        finish_accept_step(
            accept_plan(user_slot, friend).unwrap().0,
            accept_plan(user_slot, friend).unwrap().1,
            issued,
            caller,
            user_slot,
            friend_slot,
        ).0 is Ok,
    ensures
        ({
            let plan = accept_plan(user_slot, friend).unwrap();
            let after = finish_accept_step(plan.0, plan.1, issued, caller, user_slot, friend_slot).1;
            &&& stored_profile(after) is Some
            &&& stored_profile(after).unwrap().nft_owned
            &&& accept_plan(after, next_friend) is Some
            &&& !accept_plan(after, next_friend).unwrap().1
        }),
{
    let plan = accept_plan(user_slot, friend).unwrap();
    let updated = if plan.1 {
        with_credential(plan.0)
    } else {
        plan.0
    };
    lemma_store_then_load(user_slot, updated);
}

/// No operation on a slot takes the credential away.
pub proof fn lemma_credential_kept(
    slot: Seq<u8>,
    caller: Seq<u8>,
    friend: Seq<u8>,
    post_author: Seq<u8>,
    post_index: int,
    content: Seq<char>,
)
    requires
        stored_profile(slot) is Some,
        stored_profile(slot).unwrap().nft_owned,
    ensures
        stored_profile(send_request_step(slot, friend).1) is Some,
        stored_profile(send_request_step(slot, friend).1).unwrap().nft_owned,
        stored_profile(write_post_step(slot, caller, content).1) is Some,
        stored_profile(write_post_step(slot, caller, content).1).unwrap().nft_owned,
        stored_profile(add_comment_step(slot, caller, post_author, post_index, content).1) is Some,
        stored_profile(
            add_comment_step(slot, caller, post_author, post_index, content).1,
        ).unwrap().nft_owned,
{
    let profile = stored_profile(slot).unwrap();
    if send_request_step(slot, friend).0 is Ok {
        lemma_store_then_load(slot, with_friend(profile, friend));
    }
    if write_post_step(slot, caller, content).0 is Ok {
        lemma_store_then_load(slot, with_new_post(profile, caller, content));
    }
    if add_comment_step(slot, caller, post_author, post_index, content).0 is Ok {
        lemma_store_then_load(
            slot,
            with_new_comment(profile, post_author, post_index, caller, content),
        );
    }
}

/// With four friends and no credential a profile may not publish: a post is refused
/// and the slot stays as it is.
pub proof fn lemma_four_friends_may_not_publish(
    slot: Seq<u8>,
    caller: Seq<u8>,
    content: Seq<char>,
)
    requires
        stored_profile(slot) is Some,
        stored_profile(slot).unwrap().friends.len() == 4,
        !stored_profile(slot).unwrap().nft_owned,
    ensures
        write_post_step(slot, caller, content) == (
            Err::<(), LedgerError>(LedgerError::PermissionDenied),
            slot,
        ),
{
}

/// With the fifth friend the credential falls due, and once it is issued and
/// the acceptance has ended the profile may publish: a post that fits into the slot
/// is written.
pub proof fn lemma_fifth_friend_may_publish(
    user_slot: Seq<u8>,
    friend_slot: Seq<u8>,
    caller: Seq<u8>,
    friend: Seq<u8>,
    content: Seq<char>,
)
    requires
        stored_profile(user_slot) is Some,
        stored_profile(user_slot).unwrap().friends.len() == 4,
        !stored_profile(user_slot).unwrap().nft_owned,
        !stored_profile(user_slot).unwrap().friends.contains(friend),
        finish_accept_step(
            with_friend(stored_profile(user_slot).unwrap(), friend),
            true,
            true,
            caller,
            user_slot,
            friend_slot,
        ).0 is Ok,
    ensures
        accept_plan(user_slot, friend) == Some(
            (with_friend(stored_profile(user_slot).unwrap(), friend), true),
        ),
        ({
            let accepted = with_credential(with_friend(stored_profile(user_slot).unwrap(), friend));
            let after = finish_accept_step(
                with_friend(stored_profile(user_slot).unwrap(), friend),
                true,
                true,
                caller,
                user_slot,
                friend_slot,
            ).1;
            &&& stored_profile(after) == Some(accepted)
            &&& may_publish(accepted)
            &&& write_post_step(after, caller, content) == store_step(
                after,
                with_new_post(accepted, caller, content),
            )
            &&& can_hold(after, with_new_post(accepted, caller, content)) ==> write_post_step(
                after,
                caller,
                content,
            ).0 is Ok
        }),
{
    let profile = stored_profile(user_slot).unwrap();
    lemma_stored_friends_finite(user_slot);
    assert(credential_due(profile, friend));
    lemma_store_then_load(user_slot, with_credential(with_friend(profile, friend)));
}

/// A comment on a place at or beyond the end of the named author's posts is
/// refused as not found, and the slot stays as it is.
pub proof fn lemma_comment_beyond_posts(
    slot: Seq<u8>,
    caller: Seq<u8>,
    post_author: Seq<u8>,
    post_index: int,
    content: Seq<char>,
)
    requires
        stored_profile(slot) is Some,
        may_publish(stored_profile(slot).unwrap()),
        post_index >= posts_of(stored_profile(slot).unwrap().posts, post_author).len(),
    ensures
        add_comment_step(slot, caller, post_author, post_index, content) == (
            Err::<(), LedgerError>(LedgerError::NotFound),
            slot,
        ),
{
}

/// An operation on a slot keeps the identity and the texts of the profile, and
/// takes no post away: every author has as many posts after it as before, or
/// more.
pub proof fn lemma_profile_only_grows(
    slot: Seq<u8>,
    caller: Seq<u8>,
    friend: Seq<u8>,
    post_author: Seq<u8>,
    post_index: int,
    content: Seq<char>,
    author: Seq<u8>,
)
    requires
        stored_profile(slot) is Some,
    ensures
        kept(stored_profile(slot), stored_profile(send_request_step(slot, friend).1), author),
        kept(
            stored_profile(slot),
            stored_profile(write_post_step(slot, caller, content).1),
            author,
        ),
        kept(
            stored_profile(slot),
            stored_profile(add_comment_step(slot, caller, post_author, post_index, content).1),
            author,
        ),
{
    let profile = stored_profile(slot).unwrap();
    if send_request_step(slot, friend).0 is Ok {
        lemma_store_then_load(slot, with_friend(profile, friend));
    }
    if write_post_step(slot, caller, content).0 is Ok {
        lemma_store_then_load(slot, with_new_post(profile, caller, content));
    }
    if add_comment_step(slot, caller, post_author, post_index, content).0 is Ok {
        lemma_store_then_load(
            slot,
            with_new_comment(profile, post_author, post_index, caller, content),
        );
    }
}

/// The profile `after` is the profile `before` as far as identity, texts and
/// friends go, with no friend less, and with no post of `author` less.
pub open spec fn kept(
    before: Option<ProfileView>,
    after: Option<ProfileView>,
    author: Seq<u8>,
) -> bool {
    &&& before is Some
    &&& after is Some
    &&& after.unwrap().is_initialized
    &&& after.unwrap().address == before.unwrap().address
    &&& after.unwrap().name == before.unwrap().name
    &&& after.unwrap().bio == before.unwrap().bio
    &&& after.unwrap().profile_picture == before.unwrap().profile_picture
    &&& before.unwrap().friends.subset_of(after.unwrap().friends)
    &&& posts_of(before.unwrap().posts, author).len() <= posts_of(
        after.unwrap().posts,
        author,
    ).len()
}

} // verus!
