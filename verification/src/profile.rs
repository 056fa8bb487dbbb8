//! The profile of a user, and the record that holds it.

use crate::address::Address;
use crate::book::{
    book_bytes, book_fits, has_post, lemma_take_book, take_book, with_comment_at, with_post,
    PostBook, Shelves,
};
use crate::error::LedgerError;
use crate::friends::{friends_bytes, friends_fit, lemma_take_friends, take_friends, FriendSet};
use crate::post::{Post, PostView, CommentView};
use crate::wire::{
    bool_bytes, lemma_append_assoc, lemma_append_prefix, lemma_take_address, lemma_take_bool,
    lemma_take_text, put_address, put_bool, put_text, read_address, read_bool, read_text,
    take_address, take_bool, take_text, text_bytes, text_fits,
};
use vstd::prelude::*;

verus! {

/// The number of friends with which a profile earns its credential.
pub const FRIEND_THRESHOLD: usize = 5;

/// The profile of a user.
#[derive(Clone, Debug)]
pub struct UserProfile {
    pub is_initialized: bool,
    pub name: String,
    pub bio: String,
    pub profile_picture: String,
    pub address: Address,
    pub friends: FriendSet,
    pub nft_owned: bool,
    pub posts: PostBook,
}

/// What a profile holds: the friends as a set, the posts by author.
pub struct ProfileView {
    pub is_initialized: bool,
    pub name: Seq<char>,
    pub bio: Seq<char>,
    pub profile_picture: Seq<char>,
    pub address: Seq<u8>,
    pub friends: Set<Seq<u8>>,
    pub nft_owned: bool,
    pub posts: Shelves,
}

impl View for UserProfile {
    type V = ProfileView;

    open spec fn view(&self) -> ProfileView {
        ProfileView {
            is_initialized: self.is_initialized,
            name: self.name@,
            bio: self.bio@,
            profile_picture: self.profile_picture@,
            address: self.address@,
            friends: self.friends@,
            nft_owned: self.nft_owned,
            posts: self.posts@,
        }
    }
}

/// The profile that a user starts with: initialized, without friends,
/// credential or posts.
pub open spec fn fresh_profile(
    name: Seq<char>,
    bio: Seq<char>,
    profile_picture: Seq<char>,
    address: Seq<u8>,
) -> ProfileView {
    ProfileView {
        is_initialized: true,
        name,
        bio,
        profile_picture,
        address,
        friends: Set::<Seq<u8>>::empty(),
        nft_owned: false,
        posts: Map::<Seq<u8>, Seq<PostView>>::empty(),
    }
}

/// The profile may write posts and comments: it owns the credential and has
/// as many friends as the credential takes, or more.
pub open spec fn may_publish(profile: ProfileView) -> bool {
    profile.nft_owned && profile.friends.len() >= FRIEND_THRESHOLD
}

/// The profile with `friend` among its friends.
pub open spec fn with_friend(profile: ProfileView, friend: Seq<u8>) -> ProfileView {
    ProfileView { friends: profile.friends.insert(friend), ..profile }
}

/// With `friend` the profile has as many friends as the credential takes, and
/// it has no credential yet.
pub open spec fn credential_due(profile: ProfileView, friend: Seq<u8>) -> bool {
    !profile.nft_owned && profile.friends.insert(friend).len() >= FRIEND_THRESHOLD
}

/// The profile with the credential.
pub open spec fn with_credential(profile: ProfileView) -> ProfileView {
    ProfileView { nft_owned: true, ..profile }
}

/// The profile with one more post of `author`.
pub open spec fn with_new_post(
    profile: ProfileView,
    author: Seq<u8>,
    content: Seq<char>,
) -> ProfileView {
    ProfileView {
        posts: with_post(
            profile.posts,
            author,
            PostView { author, content, comments: Seq::<CommentView>::empty() },
        ),
        ..profile
    }
}

/// The profile with one more comment under the post of `post_author` at place
/// `post_index`.
pub open spec fn with_new_comment(
    profile: ProfileView,
    post_author: Seq<u8>,
    post_index: int,
    comment_author: Seq<u8>,
    content: Seq<char>,
) -> ProfileView {
    ProfileView {
        posts: with_comment_at(profile.posts, post_author, post_index, comment_author, content),
        ..profile
    }
}

/// The profile can be written as a record.
pub open spec fn profile_fits(profile: ProfileView) -> bool {
    &&& text_fits(profile.name)
    &&& text_fits(profile.bio)
    &&& text_fits(profile.profile_picture)
    &&& profile.address.len() == 32
    &&& friends_fit(profile.friends)
    &&& book_fits(profile.posts)
}

/// The record of a profile: the fields in the order in which the profile
/// declares them.
pub open spec fn profile_bytes(profile: ProfileView) -> Seq<u8> {
    bool_bytes(profile.is_initialized) + text_bytes(profile.name) + text_bytes(profile.bio)
        + text_bytes(profile.profile_picture) + profile.address + friends_bytes(profile.friends)
        + bool_bytes(profile.nft_owned) + book_bytes(profile.posts)
}

/// Reads the record of a profile from the front of `s`.
#[verifier::opaque]
pub open spec fn take_profile(s: Seq<u8>) -> Option<(ProfileView, Seq<u8>)> {
    match take_bool(s) {
        Some((is_initialized, s1)) => match take_text(s1) {
            Some((name, s2)) => match take_text(s2) {
                Some((bio, s3)) => match take_text(s3) {
                    Some((profile_picture, s4)) => match take_address(s4) {
                        Some((address, s5)) => match take_friends(s5) {
                            Some((friends, s6)) => match take_bool(s6) {
                                Some((nft_owned, s7)) => match take_book(s7) {
                                    Some((posts, rest)) => Some(
                                        (
                                            ProfileView {
                                                is_initialized,
                                                name,
                                                bio,
                                                profile_picture,
                                                address,
                                                friends,
                                                nft_owned,
                                                posts,
                                            },
                                            rest,
                                        ),
                                    ),
                                    None => None,
                                },
                                None => None,
                            },
                            None => None,
                        },
                        None => None,
                    },
                    None => None,
                },
                None => None,
            },
            None => None,
        },
        None => None,
    }
}

/// The profile of which `bytes` are the record, nothing left over.
pub open spec fn decoded_profile(bytes: Seq<u8>) -> Option<ProfileView> {
    match take_profile(bytes) {
        Some((profile, rest)) => if rest.len() == 0 {
            Some(profile)
        } else {
            None
        },
        None => None,
    }
}

/// The record of a profile with what follows it, field by field from the end.
proof fn lemma_profile_bytes_nested(profile: ProfileView, rest: Seq<u8>)
    ensures
        profile_bytes(profile) + rest == bool_bytes(profile.is_initialized) + (text_bytes(
            profile.name,
        ) + (text_bytes(profile.bio) + (text_bytes(profile.profile_picture) + (profile.address + (
        friends_bytes(profile.friends) + (bool_bytes(profile.nft_owned) + (book_bytes(
            profile.posts,
        ) + rest))))))),
{
    let a = bool_bytes(profile.is_initialized);
    let b = text_bytes(profile.name);
    let c = text_bytes(profile.bio);
    let d = text_bytes(profile.profile_picture);
    let e = profile.address;
    let f = friends_bytes(profile.friends);
    let g = bool_bytes(profile.nft_owned);
    let h = book_bytes(profile.posts);
    lemma_append_assoc(a + b + c + d + e + f + g, h, rest);
    lemma_append_assoc(a + b + c + d + e + f, g, h + rest);
    lemma_append_assoc(a + b + c + d + e, f, g + (h + rest));
    lemma_append_assoc(a + b + c + d, e, f + (g + (h + rest)));
    lemma_append_assoc(a + b + c, d, e + (f + (g + (h + rest))));
    lemma_append_assoc(a + b, c, d + (e + (f + (g + (h + rest)))));
    lemma_append_assoc(a, b, c + (d + (e + (f + (g + (h + rest))))));
}

/// A profile that was written is read back, with what follows it.
pub proof fn lemma_take_profile(profile: ProfileView, rest: Seq<u8>)
    requires
        profile_fits(profile),
    ensures
        take_profile(profile_bytes(profile) + rest) == Some((profile, rest)),
{
    let s8 = rest;
    let s7 = book_bytes(profile.posts) + s8;
    let s6 = bool_bytes(profile.nft_owned) + s7;
    let s5 = friends_bytes(profile.friends) + s6;
    let s4 = profile.address + s5;
    let s3 = text_bytes(profile.profile_picture) + s4;
    let s2 = text_bytes(profile.bio) + s3;
    let s1 = text_bytes(profile.name) + s2;
    let s0 = bool_bytes(profile.is_initialized) + s1;
    reveal(take_profile);
    assert(profile_bytes(profile) + rest == s0) by {
        lemma_profile_bytes_nested(profile, rest);
    }
    assert(take_bool(s0) == Some((profile.is_initialized, s1))) by {
        lemma_take_bool(profile.is_initialized, s1);
    }
    assert(take_text(s1) == Some((profile.name, s2))) by {
        lemma_take_text(profile.name, s2);
    }
    assert(take_text(s2) == Some((profile.bio, s3))) by {
        lemma_take_text(profile.bio, s3);
    }
    assert(take_text(s3) == Some((profile.profile_picture, s4))) by {
        lemma_take_text(profile.profile_picture, s4);
    }
    assert(take_address(s4) == Some((profile.address, s5))) by {
        lemma_take_address(profile.address, s5);
    }
    assert(take_friends(s5) == Some((profile.friends, s6))) by {
        lemma_take_friends(profile.friends, s6);
    }
    assert(take_bool(s6) == Some((profile.nft_owned, s7))) by {
        lemma_take_bool(profile.nft_owned, s7);
    }
    assert(take_book(s7) == Some((profile.posts, s8))) by {
        lemma_take_book(profile.posts, s8);
    }
}

/// Decoding is the left inverse of encoding: the record of a profile decodes
/// to that profile.
pub proof fn lemma_decode_encode(profile: ProfileView)
    requires
        profile_fits(profile),
    ensures
        decoded_profile(profile_bytes(profile)) == Some(profile),
{
    lemma_take_profile(profile, Seq::<u8>::empty());
    assert(profile_bytes(profile) + Seq::<u8>::empty() =~= profile_bytes(profile));
}

impl UserProfile {
    /// The friends and the posts are well formed.
    pub open spec fn wf(&self) -> bool {
        self.friends.wf() && self.posts.wf()
    }

    /// The profile that a user starts with.
    pub fn new(name: String, bio: String, profile_picture: String, address: Address) -> (profile:
        UserProfile)
        ensures
            profile.wf(),
            profile@ == fresh_profile(name@, bio@, profile_picture@, address@),
    {
        UserProfile {
            is_initialized: true,
            name,
            bio,
            profile_picture,
            address,
            friends: FriendSet::new(),
            nft_owned: false,
            posts: PostBook::new(),
        }
    }

    /// Whether the profile may write a post.
    pub fn can_write_post(&self) -> (allowed: bool)
        requires
            self.wf(),
        ensures
            allowed == may_publish(self@),
    {
        self.nft_owned && self.friends.len() >= FRIEND_THRESHOLD
    }

    /// Whether the profile may write a comment.
    pub fn can_comment(&self) -> (allowed: bool)
        requires
            self.wf(),
        ensures
            allowed == may_publish(self@),
    {
        self.nft_owned && self.friends.len() >= FRIEND_THRESHOLD
    }

    /// Puts a new post of `author` behind the posts that the profile holds of
    /// that author.
    pub fn add_post(&mut self, author: Address, content: String)
        requires
            old(self).wf(),
        ensures
            final(self).wf(),
            final(self)@ == with_new_post(old(self)@, author@, content@),
    {
        let post = Post::new(author, content);
        self.posts.add_post(author, post);
    }

    /// Puts a comment of `comment_author` under the post of `post_author` at
    /// place `post_index`. Where the profile holds no such post it stays as it
    /// is.
    pub fn add_comment(
        &mut self,
        post_author: Address,
        post_index: usize,
        comment_author: Address,
        content: String,
    ) -> (r: Result<(), LedgerError>)
        requires
            old(self).wf(),
        ensures
            final(self).wf(),
            has_post(old(self)@.posts, post_author@, post_index as int) ==> r == Ok::<
                (),
                LedgerError,
            >(()) && final(self)@ == with_new_comment(
                old(self)@,
                post_author@,
                post_index as int,
                comment_author@,
                content@,
            ),
            !has_post(old(self)@.posts, post_author@, post_index as int) ==> r == Err::<
                (),
                LedgerError,
            >(LedgerError::NotFound) && final(self)@ == old(self)@,
    {
        if self.posts.add_comment(&post_author, post_index, comment_author, content) {
            Ok(())
        } else {
            Err(LedgerError::NotFound)
        }
    }

    /// The post of `author` at place `post_index`, with its comments.
    pub fn get_post_with_comments(&self, author: &Address, post_index: usize) -> (post: Option<
        &Post,
    >)
        requires
            self.wf(),
        ensures
            match post {
                Some(post) => has_post(self@.posts, author@, post_index as int)
                    && post@ == self@.posts[author@][post_index as int],
                None => !has_post(self@.posts, author@, post_index as int),
            },
    {
        match self.posts.get(author) {
            Some(posts) => if post_index < posts.len() {
                Some(&posts[post_index])
            } else {
                None
            },
            None => None,
        }
    }

    /// Appends the record of the profile, if the profile can be written; else
    /// `out` stays as it is.
    pub fn put_into(&self, out: &mut Vec<u8>) -> (done: bool)
        requires
            self.wf(),
        ensures
            done == profile_fits(self@),
            done ==> final(out)@ == old(out)@ + profile_bytes(self@),
            !done ==> final(out)@ == old(out)@,
    {
        let start = out.len();
        let done = self.put_fields(out);
        if !done {
            out.truncate(start);
        }
        done
    }

    /// Appends the fields of the profile one after another, as far as they can
    /// be written.
    fn put_fields(&self, out: &mut Vec<u8>) -> (done: bool)
        requires
            self.wf(),
        ensures
            done == profile_fits(self@),
            done ==> final(out)@ == old(out)@ + profile_bytes(self@),
            old(out)@.len() <= final(out)@.len(),
            final(out)@.subrange(0, old(out)@.len() as int) == old(out)@,
    {
        let ghost before = out@;
        let ghost a = bool_bytes(self.is_initialized);
        let ghost b = text_bytes(self.name@);
        let ghost c = text_bytes(self.bio@);
        let ghost d = text_bytes(self.profile_picture@);
        let ghost e = self.address@;
        let ghost f = friends_bytes(self.friends@);
        let ghost g = bool_bytes(self.nft_owned);
        let ghost h = book_bytes(self.posts@);
        put_bool(out, self.is_initialized);
        proof {
            lemma_append_prefix(before, a);
        }
        if !put_text(out, self.name.as_str()) {
            return false;
        }
        proof {
            lemma_append_assoc(before, a, b);
            lemma_append_prefix(before, a + b);
        }
        if !put_text(out, self.bio.as_str()) {
            return false;
        }
        proof {
            lemma_append_assoc(before, a + b, c);
            lemma_append_prefix(before, a + b + c);
        }
        if !put_text(out, self.profile_picture.as_str()) {
            return false;
        }
        proof {
            lemma_append_assoc(before, a + b + c, d);
        }
        put_address(out, &self.address);
        proof {
            lemma_append_assoc(before, a + b + c + d, e);
            lemma_append_prefix(before, a + b + c + d + e);
        }
        if !self.friends.put_into(out) {
            return false;
        }
        proof {
            lemma_append_assoc(before, a + b + c + d + e, f);
        }
        put_bool(out, self.nft_owned);
        proof {
            lemma_append_assoc(before, a + b + c + d + e + f, g);
            lemma_append_prefix(before, a + b + c + d + e + f + g);
        }
        let done = self.posts.put_into(out);
        proof {
            if done {
                lemma_append_assoc(before, a + b + c + d + e + f + g, h);
                lemma_append_prefix(before, a + b + c + d + e + f + g + h);
            }
        }
        done
    }

    /// The record of the profile. A profile that cannot be written, because
    /// one of its lengths takes more than four bytes, fits in no slot.
    pub fn encode(&self) -> (r: Result<Vec<u8>, LedgerError>)
        requires
            self.wf(),
        ensures
            match r {
                Ok(bytes) => profile_fits(self@) && bytes@ == profile_bytes(self@)
                    && decoded_profile(bytes@) == Some(self@),
                Err(e) => e == LedgerError::OutOfSpace && !profile_fits(self@),
            },
    {
        let mut out: Vec<u8> = Vec::new();
        if self.put_into(&mut out) {
            assert(out@ =~= profile_bytes(self@));
            proof {
                lemma_decode_encode(self@);
            }
            Ok(out)
        } else {
            Err(LedgerError::OutOfSpace)
        }
    }

    /// Reads the record of a profile at `pos`.
    pub fn read(data: &[u8], pos: usize) -> (r: Option<(UserProfile, usize)>)
        ensures
            pos > data@.len() ==> r is None,
            pos <= data@.len() ==> (match r {
                Some((profile, next)) => profile.wf() && pos <= next <= data@.len()
                    && take_profile(data@.skip(pos as int)) == Some(
                    (profile@, data@.skip(next as int)),
                ),
                None => take_profile(data@.skip(pos as int)) is None,
            }),
    {
        if pos > data.len() {
            return None;
        }
        proof {
            reveal(take_profile);
        }
        let (is_initialized, p1) = match read_bool(data, pos) {
            Some(found) => found,
            None => {
                return None;
            },
        };
        let (name, p2) = match read_text(data, p1) {
            Some(found) => found,
            None => {
                return None;
            },
        };
        let (bio, p3) = match read_text(data, p2) {
            Some(found) => found,
            None => {
                return None;
            },
        };
        let (profile_picture, p4) = match read_text(data, p3) {
            Some(found) => found,
            None => {
                return None;
            },
        };
        let (address, p5) = match read_address(data, p4) {
            Some(found) => found,
            None => {
                return None;
            },
        };
        let (friends, p6) = match FriendSet::read(data, p5) {
            Some(found) => found,
            None => {
                return None;
            },
        };
        let (nft_owned, p7) = match read_bool(data, p6) {
            Some(found) => found,
            None => {
                return None;
            },
        };
        let (posts, next) = match PostBook::read(data, p7) {
            Some(found) => found,
            None => {
                return None;
            },
        };
        Some(
            (
                UserProfile {
                    is_initialized,
                    name,
                    bio,
                    profile_picture,
                    address,
                    friends,
                    nft_owned,
                    posts,
                },
                next,
            ),
        )
    }

    /// The profile of which `bytes` are the record. Bytes that are no record,
    /// or hold more than one, are refused.
    pub fn decode(bytes: &[u8]) -> (r: Result<UserProfile, LedgerError>)
        ensures
            match r {
                Ok(profile) => profile.wf() && decoded_profile(bytes@) == Some(profile@),
                Err(e) => e == LedgerError::MalformedAccountData && decoded_profile(bytes@) is None,
            },
    {
        assert(bytes@.skip(0) =~= bytes@);
        match UserProfile::read(bytes, 0) {
            Some((profile, next)) => {
                if next == bytes.len() {
                    Ok(profile)
                } else {
                    Err(LedgerError::MalformedAccountData)
                }
            },
            None => Err(LedgerError::MalformedAccountData),
        }
    }
}

} // verus!
