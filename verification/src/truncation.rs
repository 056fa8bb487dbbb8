//! Reading from bytes that were cut short.
//!
//! What a `take_` function reads from the first `k` bytes of a sequence
//! follows from what it reads from the whole: nothing where the element does
//! not end within the `k` bytes, else the same value with a shorter rest. So a
//! record or a payload that was cut anywhere is refused.

use crate::book::{gather, take_book, take_shelf, take_shelf_run, Shelf, Shelves};
use crate::friends::{take_address_run, take_friends};
use crate::instruction::{
    decoded_instruction, instruction_bytes, instruction_fits, lemma_take_instruction,
    take_add_comment, take_create, take_instruction, InstructionView,
};
use crate::post::{
    take_comment, take_comment_run, take_comments, take_post, take_post_run, take_posts,
    CommentView, PostView,
};
use crate::profile::{
    decoded_profile, lemma_take_profile, profile_bytes, profile_fits, take_profile, ProfileView,
};
use crate::wire::{behind, take_address, take_bool, take_text, take_u32, take_u64};
use vstd::prelude::*;

verus! {

/// What is read from the first `k` bytes of `s`, where `whole` is read from
/// `s`.
pub open spec fn cut<T>(whole: Option<(T, Seq<u8>)>, s: Seq<u8>, k: int) -> Option<(T, Seq<u8>)> {
    match whole {
        Some((value, rest)) => if k < s.len() - rest.len() {
            None
        } else {
            Some((value, rest.take(k - (s.len() - rest.len()))))
        },
        None => None,
    }
}

/// What is read is no longer than what it is read from.
pub open spec fn within<T>(whole: Option<(T, Seq<u8>)>, s: Seq<u8>) -> bool {
    whole is Some ==> whole.unwrap().1.len() <= s.len()
}

/// A 32-bit number read from bytes that were cut.
pub proof fn lemma_cut_u32(s: Seq<u8>, k: int)
    requires
        0 <= k <= s.len(),
    ensures
        take_u32(s.take(k)) == cut(take_u32(s), s, k),
        within(take_u32(s), s),
{
    if k >= 4 {
        assert(s.take(k).take(4) =~= s.take(4));
        assert(s.take(k).skip(4) =~= s.skip(4).take(k - 4));
    }
}

/// A 64-bit number read from bytes that were cut.
pub proof fn lemma_cut_u64(s: Seq<u8>, k: int)
    requires
        0 <= k <= s.len(),
    ensures
        take_u64(s.take(k)) == cut(take_u64(s), s, k),
        within(take_u64(s), s),
{
    if k >= 8 {
        assert(s.take(k).take(8) =~= s.take(8));
        assert(s.take(k).skip(8) =~= s.skip(8).take(k - 8));
    }
}

/// A flag read from bytes that were cut.
pub proof fn lemma_cut_bool(s: Seq<u8>, k: int)
    requires
        0 <= k <= s.len(),
    ensures
        take_bool(s.take(k)) == cut(take_bool(s), s, k),
        within(take_bool(s), s),
{
    if k >= 1 {
        assert(s.take(k)[0] == s[0]);
        assert(s.take(k).skip(1) =~= s.skip(1).take(k - 1));
    }
}

/// An identity read from bytes that were cut.
pub proof fn lemma_cut_address(s: Seq<u8>, k: int)
    requires
        0 <= k <= s.len(),
    ensures
        take_address(s.take(k)) == cut(take_address(s), s, k),
        within(take_address(s), s),
{
    if k >= 32 {
        assert(s.take(k).take(32) =~= s.take(32));
        assert(s.take(k).skip(32) =~= s.skip(32).take(k - 32));
    }
}

/// A text read from bytes that were cut.
pub proof fn lemma_cut_text(s: Seq<u8>, k: int)
    requires
        0 <= k <= s.len(),
    ensures
        take_text(s.take(k)) == cut(take_text(s), s, k),
        within(take_text(s), s),
{
    lemma_cut_u32(s, k);
    if take_u32(s) is Some && k >= 4 {
        let (n, rest) = take_u32(s).unwrap();
        let short = rest.take(k - 4);
        if short.len() >= n {
            assert(short.take(n as int) =~= rest.take(n as int));
            assert(short.skip(n as int) =~= rest.skip(n as int).take(k - 4 - n));
        }
    }
}

/// A comment read from bytes that were cut.
pub proof fn lemma_cut_comment(s: Seq<u8>, k: int)
    requires
        0 <= k <= s.len(),
    ensures
        take_comment(s.take(k)) == cut(take_comment(s), s, k),
        within(take_comment(s), s),
{
    lemma_cut_address(s, k);
    if take_address(s) is Some {
        let rest = take_address(s).unwrap().1;
        if k >= 32 {
            lemma_cut_text(rest, k - 32);
        } else {
            lemma_cut_text(rest, 0);
        }
    }
}

/// Comments read from bytes that were cut.
pub proof fn lemma_cut_comment_run(s: Seq<u8>, n: nat, k: int)
    requires
        0 <= k <= s.len(),
    ensures
        take_comment_run(s.take(k), n) == cut(take_comment_run(s, n), s, k),
        within(take_comment_run(s, n), s),
    decreases n,
{
    if n == 0 {
        assert(s.take(k - 0) == s.take(k));
    } else {
        lemma_cut_comment(s, k);
        if take_comment(s) is Some {
            let rest = take_comment(s).unwrap().1;
            let used = s.len() - rest.len();
            if k >= used {
                lemma_cut_comment_run(rest, (n - 1) as nat, k - used);
            } else {
                lemma_cut_comment_run(rest, (n - 1) as nat, 0);
            }
        }
    }
}

/// A sequence of comments read from bytes that were cut.
pub proof fn lemma_cut_comments(s: Seq<u8>, k: int)
    requires
        0 <= k <= s.len(),
    ensures
        take_comments(s.take(k)) == cut(take_comments(s), s, k),
        within(take_comments(s), s),
{
    lemma_cut_u32(s, k);
    if take_u32(s) is Some {
        let (n, rest) = take_u32(s).unwrap();
        if k >= 4 {
            lemma_cut_comment_run(rest, n as nat, k - 4);
        } else {
            lemma_cut_comment_run(rest, n as nat, 0);
        }
    }
}

/// A post read from bytes that were cut.
pub proof fn lemma_cut_post(s: Seq<u8>, k: int)
    requires
        0 <= k <= s.len(),
    ensures
        take_post(s.take(k)) == cut(take_post(s), s, k),
        within(take_post(s), s),
{
    lemma_cut_address(s, k);
    if take_address(s) is Some {
        let s1 = take_address(s).unwrap().1;
        let k1 = if k >= 32 {
            k - 32
        } else {
            0
        };
        lemma_cut_text(s1, k1);
        if take_text(s1) is Some {
            let s2 = take_text(s1).unwrap().1;
            let used = s1.len() - s2.len();
            let k2 = if k >= 32 && k1 >= used {
                k1 - used
            } else {
                0
            };
            lemma_cut_comments(s2, k2);
        }
    }
}

/// Posts read from bytes that were cut.
pub proof fn lemma_cut_post_run(s: Seq<u8>, n: nat, k: int)
    requires
        0 <= k <= s.len(),
    ensures
        take_post_run(s.take(k), n) == cut(take_post_run(s, n), s, k),
        within(take_post_run(s, n), s),
    decreases n,
{
    if n == 0 {
        assert(s.take(k - 0) == s.take(k));
    } else {
        lemma_cut_post(s, k);
        if take_post(s) is Some {
            let rest = take_post(s).unwrap().1;
            let used = s.len() - rest.len();
            if k >= used {
                lemma_cut_post_run(rest, (n - 1) as nat, k - used);
            } else {
                lemma_cut_post_run(rest, (n - 1) as nat, 0);
            }
        }
    }
}

/// A sequence of posts read from bytes that were cut.
pub proof fn lemma_cut_posts(s: Seq<u8>, k: int)
    requires
        0 <= k <= s.len(),
    ensures
        take_posts(s.take(k)) == cut(take_posts(s), s, k),
        within(take_posts(s), s),
{
    lemma_cut_u32(s, k);
    if take_u32(s) is Some {
        let (n, rest) = take_u32(s).unwrap();
        if k >= 4 {
            lemma_cut_post_run(rest, n as nat, k - 4);
        } else {
            lemma_cut_post_run(rest, n as nat, 0);
        }
    }
}

/// Identities read from bytes that were cut.
pub proof fn lemma_cut_address_run(s: Seq<u8>, n: nat, k: int)
    requires
        0 <= k <= s.len(),
    ensures
        take_address_run(s.take(k), n) == cut(take_address_run(s, n), s, k),
        within(take_address_run(s, n), s),
    decreases n,
{
    if n == 0 {
        assert(s.take(k - 0) == s.take(k));
    } else {
        lemma_cut_address(s, k);
        if take_address(s) is Some {
            let rest = take_address(s).unwrap().1;
            if k >= 32 {
                lemma_cut_address_run(rest, (n - 1) as nat, k - 32);
            } else {
                lemma_cut_address_run(rest, (n - 1) as nat, 0);
            }
        }
    }
}

/// A set of friends read from bytes that were cut.
pub proof fn lemma_cut_friends(s: Seq<u8>, k: int)
    requires
        0 <= k <= s.len(),
    ensures
        take_friends(s.take(k)) == cut(take_friends(s), s, k),
        within(take_friends(s), s),
{
    lemma_cut_u32(s, k);
    if take_u32(s) is Some {
        let (n, rest) = take_u32(s).unwrap();
        if k >= 4 {
            lemma_cut_address_run(rest, n as nat, k - 4);
        } else {
            lemma_cut_address_run(rest, n as nat, 0);
        }
    }
}

/// A shelf read from bytes that were cut.
pub proof fn lemma_cut_shelf(s: Seq<u8>, k: int)
    requires
        0 <= k <= s.len(),
    ensures
        take_shelf(s.take(k)) == cut(take_shelf(s), s, k),
        within(take_shelf(s), s),
{
    lemma_cut_address(s, k);
    if take_address(s) is Some {
        let rest = take_address(s).unwrap().1;
        if k >= 32 {
            lemma_cut_posts(rest, k - 32);
        } else {
            lemma_cut_posts(rest, 0);
        }
    }
}

/// Shelves read from bytes that were cut.
pub proof fn lemma_cut_shelf_run(s: Seq<u8>, n: nat, k: int)
    requires
        0 <= k <= s.len(),
    ensures
        take_shelf_run(s.take(k), n) == cut(take_shelf_run(s, n), s, k),
        within(take_shelf_run(s, n), s),
    decreases n,
{
    if n == 0 {
        assert(s.take(k - 0) == s.take(k));
    } else {
        lemma_cut_shelf(s, k);
        if take_shelf(s) is Some {
            let rest = take_shelf(s).unwrap().1;
            let used = s.len() - rest.len();
            if k >= used {
                lemma_cut_shelf_run(rest, (n - 1) as nat, k - used);
            } else {
                lemma_cut_shelf_run(rest, (n - 1) as nat, 0);
            }
        }
    }
}

/// A book read from bytes that were cut.
pub proof fn lemma_cut_book(s: Seq<u8>, k: int)
    requires
        0 <= k <= s.len(),
    ensures
        take_book(s.take(k)) == cut(take_book(s), s, k),
        within(take_book(s), s),
{
    lemma_cut_u32(s, k);
    if take_u32(s) is Some {
        let (n, rest) = take_u32(s).unwrap();
        if k >= 4 {
            lemma_cut_shelf_run(rest, n as nat, k - 4);
        } else {
            lemma_cut_shelf_run(rest, n as nat, 0);
        }
    }
}

/// The place in the rest up to which `k` bytes of the whole reach.
pub open spec fn reach(s: Seq<u8>, rest: Seq<u8>, k: int) -> int {
    if k >= s.len() - rest.len() {
        k - (s.len() - rest.len())
    } else {
        0
    }
}

/// The fields of a record up to the address.
type Head = (bool, Seq<char>, Seq<char>, Seq<char>, Seq<u8>);

/// The fields of a record behind the address.
type Tail = (Set<Seq<u8>>, bool, Shelves);

/// Reads the fields of a record up to the address.
spec fn take_head(s: Seq<u8>) -> Option<(Head, Seq<u8>)> {
    match take_bool(s) {
        Some((is_initialized, s1)) => match take_text(s1) {
            Some((name, s2)) => match take_text(s2) {
                Some((bio, s3)) => match take_text(s3) {
                    Some((profile_picture, s4)) => match take_address(s4) {
                        Some((address, rest)) => Some(
                            ((is_initialized, name, bio, profile_picture, address), rest),
                        ),
                        None => None,
                    },
                    None => None,
                },
                None => None,
            },
            None => None,
        },
        None => None,
    }
}

/// Reads the fields of a record behind the address.
spec fn take_tail(s: Seq<u8>) -> Option<(Tail, Seq<u8>)> {
    match take_friends(s) {
        Some((friends, s1)) => match take_bool(s1) {
            Some((nft_owned, s2)) => match take_book(s2) {
                Some((posts, rest)) => Some(((friends, nft_owned, posts), rest)),
                None => None,
            },
            None => None,
        },
        None => None,
    }
}

/// The record that a head and a tail make.
spec fn joined(head: Head, tail: Tail) -> ProfileView {
    ProfileView {
        is_initialized: head.0,
        name: head.1,
        bio: head.2,
        profile_picture: head.3,
        address: head.4,
        friends: tail.0,
        nft_owned: tail.1,
        posts: tail.2,
    }
}

/// Reads a record as a head and a tail.
spec fn take_head_and_tail(s: Seq<u8>) -> Option<(ProfileView, Seq<u8>)> {
    match take_head(s) {
        Some((head, middle)) => match take_tail(middle) {
            Some((tail, rest)) => Some((joined(head, tail), rest)),
            None => None,
        },
        None => None,
    }
}

/// A record is read as its head and its tail are.
proof fn lemma_head_and_tail(s: Seq<u8>)
    ensures
        take_profile(s) == take_head_and_tail(s),
{
    reveal(take_profile);
}

/// The head of a record read from bytes that were cut.
proof fn lemma_cut_head(s: Seq<u8>, k: int)
    requires
        0 <= k <= s.len(),
    ensures
        take_head(s.take(k)) == cut(take_head(s), s, k),
        within(take_head(s), s),
{
    lemma_cut_bool(s, k);
    if take_bool(s) is Some {
        let s1 = take_bool(s).unwrap().1;
        lemma_cut_text(s1, reach(s, s1, k));
        if take_text(s1) is Some {
            let s2 = take_text(s1).unwrap().1;
            lemma_cut_text(s2, reach(s, s2, k));
            if take_text(s2) is Some {
                let s3 = take_text(s2).unwrap().1;
                lemma_cut_text(s3, reach(s, s3, k));
                if take_text(s3) is Some {
                    let s4 = take_text(s3).unwrap().1;
                    lemma_cut_address(s4, reach(s, s4, k));
                }
            }
        }
    }
}

/// The tail of a record read from bytes that were cut.
proof fn lemma_cut_tail(s: Seq<u8>, k: int)
    requires
        0 <= k <= s.len(),
    ensures
        take_tail(s.take(k)) == cut(take_tail(s), s, k),
        within(take_tail(s), s),
{
    lemma_cut_friends(s, k);
    if take_friends(s) is Some {
        let s1 = take_friends(s).unwrap().1;
        lemma_cut_bool(s1, reach(s, s1, k));
        if take_bool(s1) is Some {
            let s2 = take_bool(s1).unwrap().1;
            lemma_cut_book(s2, reach(s, s2, k));
        }
    }
}

/// The record of a profile read from bytes that were cut.
pub proof fn lemma_cut_profile(s: Seq<u8>, k: int)
    requires
        0 <= k <= s.len(),
    ensures
        take_profile(s.take(k)) == cut(take_profile(s), s, k),
        within(take_profile(s), s),
{
    lemma_head_and_tail(s);
    lemma_head_and_tail(s.take(k));
    lemma_cut_head(s, k);
    if take_head(s) is Some {
        let middle = take_head(s).unwrap().1;
        lemma_cut_tail(middle, reach(s, middle, k));
    }
}

/// A record that was cut short is refused.
pub proof fn lemma_truncated_record_refused(profile: ProfileView, k: int)
    requires
        profile_fits(profile),
        0 <= k < profile_bytes(profile).len(),
    ensures
        decoded_profile(profile_bytes(profile).take(k)) is None,
{
    let bytes = profile_bytes(profile);
    lemma_take_profile(profile, Seq::<u8>::empty());
    assert(bytes + Seq::<u8>::empty() =~= bytes);
    lemma_cut_profile(bytes, k);
}

/// A record with bytes behind it is refused.
pub proof fn lemma_overlong_record_refused(profile: ProfileView, extra: Seq<u8>)
    requires
        profile_fits(profile),
        extra.len() > 0,
    ensures
        decoded_profile(profile_bytes(profile) + extra) is None,
{
    lemma_take_profile(profile, extra);
}

/// The three texts of `CreateUserProfile` read from bytes that were cut.
pub proof fn lemma_cut_create(s: Seq<u8>, k: int)
    requires
        0 <= k <= s.len(),
    ensures
        take_create(s.take(k)) == cut(take_create(s), s, k),
        within(take_create(s), s),
{
    lemma_cut_text(s, k);
    if take_text(s) is Some {
        let s1 = take_text(s).unwrap().1;
        lemma_cut_text(s1, reach(s, s1, k));
        if take_text(s1) is Some {
            let s2 = take_text(s1).unwrap().1;
            lemma_cut_text(s2, reach(s, s2, k));
        }
    }
}

/// The fields of `AddComment` read from bytes that were cut.
pub proof fn lemma_cut_add_comment(s: Seq<u8>, k: int)
    requires
        0 <= k <= s.len(),
    ensures
        take_add_comment(s.take(k)) == cut(take_add_comment(s), s, k),
        within(take_add_comment(s), s),
{
    lemma_cut_address(s, k);
    if take_address(s) is Some {
        let s1 = take_address(s).unwrap().1;
        lemma_cut_u64(s1, reach(s, s1, k));
        if take_u64(s1) is Some {
            let s2 = take_u64(s1).unwrap().1;
            lemma_cut_text(s2, reach(s, s2, k));
        }
    }
}

/// An operation read from bytes that were cut.
pub proof fn lemma_cut_instruction(s: Seq<u8>, k: int)
    requires
        0 <= k <= s.len(),
    ensures
        take_instruction(s.take(k)) == cut(take_instruction(s), s, k),
        within(take_instruction(s), s),
{
    reveal(take_instruction);
    if k >= 1 {
        let fields = s.skip(1);
        assert(s.take(k)[0] == s[0]);
        assert(s.take(k).skip(1) =~= fields.take(k - 1));
        lemma_cut_create(fields, k - 1);
        lemma_cut_address(fields, k - 1);
        lemma_cut_text(fields, k - 1);
        lemma_cut_add_comment(fields, k - 1);
    } else if s.len() >= 1 {
        let fields = s.skip(1);
        lemma_cut_create(fields, 0);
        lemma_cut_address(fields, 0);
        lemma_cut_text(fields, 0);
        lemma_cut_add_comment(fields, 0);
    }
}

/// A payload that was cut short is refused.
pub proof fn lemma_truncated_payload_refused(instruction: InstructionView, k: int)
    requires
        instruction_fits(instruction),
        0 <= k < instruction_bytes(instruction).len(),
    ensures
        decoded_instruction(instruction_bytes(instruction).take(k)) is None,
{
    let bytes = instruction_bytes(instruction);
    lemma_take_instruction(instruction, Seq::<u8>::empty());
    assert(bytes + Seq::<u8>::empty() =~= bytes);
    lemma_cut_instruction(bytes, k);
}

/// A payload with bytes behind it is refused.
pub proof fn lemma_overlong_payload_refused(instruction: InstructionView, extra: Seq<u8>)
    requires
        instruction_fits(instruction),
        extra.len() > 0,
    ensures
        decoded_instruction(instruction_bytes(instruction) + extra) is None,
{
    lemma_take_instruction(instruction, extra);
}

} // verus!
