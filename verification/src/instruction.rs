//! The operations of the ledger, and the payload that names one.
//!
//! A payload starts with one byte that tells the operation, from 0 for
//! `CreateUserProfile` to 4 for `AddComment`, followed by the fields of the
//! operation in the order in which it declares them.

use crate::address::Address;
use crate::error::LedgerError;
use crate::wire::{
    lemma_take_address, lemma_take_text, lemma_take_u64, put_address, put_text, put_u64,
    read_address, read_text, read_u64, take_address, take_text, take_u64, text_bytes, text_fits,
    u64_bytes,
};
use vstd::prelude::*;

verus! {

/// An operation on the ledger.
#[derive(Clone, Debug)]
pub enum ProfessionalNetworkingInstruction {
    CreateUserProfile { name: String, bio: String, profile_picture: String },
    SendFriendRequest { friend_address: Address },
    AcceptFriendRequest { friend_address: Address },
    WritePost { content: String },
    AddComment { post_author: Address, post_index: usize, content: String },
}

/// What an operation asks for.
pub enum InstructionView {
    CreateUserProfile { name: Seq<char>, bio: Seq<char>, profile_picture: Seq<char> },
    SendFriendRequest { friend_address: Seq<u8> },
    AcceptFriendRequest { friend_address: Seq<u8> },
    WritePost { content: Seq<char> },
    AddComment { post_author: Seq<u8>, post_index: usize, content: Seq<char> },
}

impl View for ProfessionalNetworkingInstruction {
    type V = InstructionView;

    open spec fn view(&self) -> InstructionView {
        match self {
            ProfessionalNetworkingInstruction::CreateUserProfile { name, bio, profile_picture } => {
                InstructionView::CreateUserProfile {
                    name: name@,
                    bio: bio@,
                    profile_picture: profile_picture@,
                }
            },
            ProfessionalNetworkingInstruction::SendFriendRequest { friend_address } => {
                InstructionView::SendFriendRequest { friend_address: friend_address@ }
            },
            ProfessionalNetworkingInstruction::AcceptFriendRequest { friend_address } => {
                InstructionView::AcceptFriendRequest { friend_address: friend_address@ }
            },
            ProfessionalNetworkingInstruction::WritePost { content } => {
                InstructionView::WritePost { content: content@ }
            },
            ProfessionalNetworkingInstruction::AddComment { post_author, post_index, content } => {
                InstructionView::AddComment {
                    post_author: post_author@,
                    post_index: *post_index,
                    content: content@,
                }
            },
        }
    }
}

/// The operation can be written as a payload.
pub open spec fn instruction_fits(instruction: InstructionView) -> bool {
    match instruction {
        InstructionView::CreateUserProfile { name, bio, profile_picture } => text_fits(name)
            && text_fits(bio) && text_fits(profile_picture),
        InstructionView::SendFriendRequest { friend_address } => friend_address.len() == 32,
        InstructionView::AcceptFriendRequest { friend_address } => friend_address.len() == 32,
        InstructionView::WritePost { content } => text_fits(content),
        InstructionView::AddComment { post_author, post_index, content } => post_author.len() == 32
            && text_fits(content),
    }
}

/// The payload of an operation.
pub open spec fn instruction_bytes(instruction: InstructionView) -> Seq<u8> {
    match instruction {
        InstructionView::CreateUserProfile { name, bio, profile_picture } => seq![0u8] + (
        text_bytes(name) + (text_bytes(bio) + text_bytes(profile_picture))),
        InstructionView::SendFriendRequest { friend_address } => seq![1u8] + friend_address,
        InstructionView::AcceptFriendRequest { friend_address } => seq![2u8] + friend_address,
        InstructionView::WritePost { content } => seq![3u8] + text_bytes(content),
        InstructionView::AddComment { post_author, post_index, content } => seq![4u8] + (
        post_author + (u64_bytes(post_index as u64) + text_bytes(content))),
    }
}

/// Reads the three texts of `CreateUserProfile`.
pub open spec fn take_create(s: Seq<u8>) -> Option<(InstructionView, Seq<u8>)> {
    match take_text(s) {
        Some((name, s1)) => match take_text(s1) {
            Some((bio, s2)) => match take_text(s2) {
                Some((profile_picture, rest)) => Some(
                    (InstructionView::CreateUserProfile { name, bio, profile_picture }, rest),
                ),
                None => None,
            },
            None => None,
        },
        None => None,
    }
}

/// Reads the fields of `AddComment`. A place that `usize` cannot hold is
/// refused.
pub open spec fn take_add_comment(s: Seq<u8>) -> Option<(InstructionView, Seq<u8>)> {
    match take_address(s) {
        Some((post_author, s1)) => match take_u64(s1) {
            Some((index, s2)) => match take_text(s2) {
                Some((content, rest)) => if index <= usize::MAX {
                    Some(
                        (
                            InstructionView::AddComment {
                                post_author,
                                post_index: index as usize,
                                content,
                            },
                            rest,
                        ),
                    )
                } else {
                    None
                },
                None => None,
            },
            None => None,
        },
        None => None,
    }
}

/// Reads an operation from the front of `s`.
#[verifier::opaque]
pub open spec fn take_instruction(s: Seq<u8>) -> Option<(InstructionView, Seq<u8>)> {
    if s.len() == 0 {
        None
    } else if s[0] == 0 {
        take_create(s.skip(1))
    } else if s[0] == 1 {
        match take_address(s.skip(1)) {
            Some((friend_address, rest)) => Some(
                (InstructionView::SendFriendRequest { friend_address }, rest),
            ),
            None => None,
        }
    } else if s[0] == 2 {
        match take_address(s.skip(1)) {
            Some((friend_address, rest)) => Some(
                (InstructionView::AcceptFriendRequest { friend_address }, rest),
            ),
            None => None,
        }
    } else if s[0] == 3 {
        match take_text(s.skip(1)) {
            Some((content, rest)) => Some((InstructionView::WritePost { content }, rest)),
            None => None,
        }
    } else if s[0] == 4 {
        take_add_comment(s.skip(1))
    } else {
        None
    }
}

/// The operation of which `bytes` are the payload, nothing left over.
pub open spec fn decoded_instruction(bytes: Seq<u8>) -> Option<InstructionView> {
    match take_instruction(bytes) {
        Some((instruction, rest)) => if rest.len() == 0 {
            Some(instruction)
        } else {
            None
        },
        None => None,
    }
}

/// An operation that was written is read back, with what follows it.
pub proof fn lemma_take_instruction(instruction: InstructionView, rest: Seq<u8>)
    requires
        instruction_fits(instruction),
    ensures
        take_instruction(instruction_bytes(instruction) + rest) == Some((instruction, rest)),
{
    let s = instruction_bytes(instruction) + rest;
    reveal(take_instruction);
    match instruction {
        InstructionView::CreateUserProfile { name, bio, profile_picture } => {
            let s3 = text_bytes(profile_picture) + rest;
            let s2 = text_bytes(bio) + s3;
            let s1 = text_bytes(name) + s2;
            assert(s =~= seq![0u8] + s1);
            assert(s.skip(1) =~= s1);
            lemma_take_text(name, s2);
            lemma_take_text(bio, s3);
            lemma_take_text(profile_picture, rest);
        },
        InstructionView::SendFriendRequest { friend_address } => {
            assert(s.skip(1) =~= friend_address + rest);
            lemma_take_address(friend_address, rest);
        },
        InstructionView::AcceptFriendRequest { friend_address } => {
            assert(s.skip(1) =~= friend_address + rest);
            lemma_take_address(friend_address, rest);
        },
        InstructionView::WritePost { content } => {
            assert(s.skip(1) =~= text_bytes(content) + rest);
            lemma_take_text(content, rest);
        },
        InstructionView::AddComment { post_author, post_index, content } => {
            let s3 = text_bytes(content) + rest;
            let s2 = u64_bytes(post_index as u64) + s3;
            let s1 = post_author + s2;
            assert(s =~= seq![4u8] + s1);
            assert(s.skip(1) =~= s1);
            lemma_take_address(post_author, s2);
            lemma_take_u64(post_index as u64, s3);
            lemma_take_text(content, rest);
        },
    }
}

/// Decoding is the left inverse of encoding: the payload of an operation
/// decodes to that operation.
pub proof fn lemma_decode_encode_instruction(instruction: InstructionView)
    requires
        instruction_fits(instruction),
    ensures
        decoded_instruction(instruction_bytes(instruction)) == Some(instruction),
{
    lemma_take_instruction(instruction, Seq::<u8>::empty());
    assert(instruction_bytes(instruction) + Seq::<u8>::empty() =~= instruction_bytes(
        instruction,
    ));
}

impl ProfessionalNetworkingInstruction {
    /// The payload of the operation; none where a text is too long to be
    /// written.
    pub fn encode(&self) -> (r: Option<Vec<u8>>)
        ensures
            match r {
                Some(bytes) => instruction_fits(self@) && bytes@ == instruction_bytes(self@)
                    && decoded_instruction(bytes@) == Some(self@),
                None => !instruction_fits(self@),
            },
    {
        let mut out: Vec<u8> = Vec::new();
        match self {
            ProfessionalNetworkingInstruction::CreateUserProfile { name, bio, profile_picture } => {
                out.push(0u8);
                if !put_text(&mut out, name.as_str()) {
                    return None;
                }
                if !put_text(&mut out, bio.as_str()) {
                    return None;
                }
                if !put_text(&mut out, profile_picture.as_str()) {
                    return None;
                }
            },
            ProfessionalNetworkingInstruction::SendFriendRequest { friend_address } => {
                out.push(1u8);
                put_address(&mut out, friend_address);
            },
            ProfessionalNetworkingInstruction::AcceptFriendRequest { friend_address } => {
                out.push(2u8);
                put_address(&mut out, friend_address);
            },
            ProfessionalNetworkingInstruction::WritePost { content } => {
                out.push(3u8);
                if !put_text(&mut out, content.as_str()) {
                    return None;
                }
            },
            ProfessionalNetworkingInstruction::AddComment { post_author, post_index, content } => {
                out.push(4u8);
                put_address(&mut out, post_author);
                put_u64(&mut out, *post_index as u64);
                if !put_text(&mut out, content.as_str()) {
                    return None;
                }
            },
        }
        assert(out@ =~= instruction_bytes(self@));
        proof {
            lemma_decode_encode_instruction(self@);
        }
        Some(out)
    }

    /// Reads an operation at the front of `data`.
    fn read(data: &[u8]) -> (r: Option<(ProfessionalNetworkingInstruction, usize)>)
        ensures
            match r {
                Some((instruction, next)) => next <= data@.len() && take_instruction(data@)
                    == Some((instruction@, data@.skip(next as int))),
                None => take_instruction(data@) is None,
            },
    {
        proof {
            reveal(take_instruction);
        }
        if data.len() == 0 {
            return None;
        }
        let tag = data[0];
        assert(data@.skip(0) =~= data@);
        if tag == 0 {
            let (name, p1) = match read_text(data, 1) {
                Some(found) => found,
                None => {
                    return None;
                },
            };
            let (bio, p2) = match read_text(data, p1) {
                Some(found) => found,
                None => {
                    return None;
                },
            };
            let (profile_picture, next) = match read_text(data, p2) {
                Some(found) => found,
                None => {
                    return None;
                },
            };
            Some(
                (
                    ProfessionalNetworkingInstruction::CreateUserProfile {
                        name,
                        bio,
                        profile_picture,
                    },
                    next,
                ),
            )
        } else if tag == 1 {
            match read_address(data, 1) {
                Some((friend_address, next)) => Some(
                    (ProfessionalNetworkingInstruction::SendFriendRequest { friend_address }, next),
                ),
                None => None,
            }
        } else if tag == 2 {
            match read_address(data, 1) {
                Some((friend_address, next)) => Some(
                    (
                        ProfessionalNetworkingInstruction::AcceptFriendRequest { friend_address },
                        next,
                    ),
                ),
                None => None,
            }
        } else if tag == 3 {
            match read_text(data, 1) {
                Some((content, next)) => Some(
                    (ProfessionalNetworkingInstruction::WritePost { content }, next),
                ),
                None => None,
            }
        } else if tag == 4 {
            let (post_author, p1) = match read_address(data, 1) {
                Some(found) => found,
                None => {
                    return None;
                },
            };
            let (index, p2) = match read_u64(data, p1) {
                Some(found) => found,
                None => {
                    return None;
                },
            };
            let (content, next) = match read_text(data, p2) {
                Some(found) => found,
                None => {
                    return None;
                },
            };
            if index > usize::MAX as u64 {
                return None;
            }
            Some(
                (
                    ProfessionalNetworkingInstruction::AddComment {
                        post_author,
                        post_index: index as usize,
                        content,
                    },
                    next,
                ),
            )
        } else {
            None
        }
    }

    /// The operation of which `data` is the payload. Bytes that are no
    /// payload, or hold more than one, are refused.
    pub fn decode(data: &[u8]) -> (r: Result<ProfessionalNetworkingInstruction, LedgerError>)
        ensures
            match r {
                Ok(instruction) => decoded_instruction(data@) == Some(instruction@),
                Err(e) => e == LedgerError::InvalidInstruction && decoded_instruction(data@)
                    is None,
            },
    {
        match ProfessionalNetworkingInstruction::read(data) {
            Some((instruction, next)) => {
                if next == data.len() {
                    Ok(instruction)
                } else {
                    Err(LedgerError::InvalidInstruction)
                }
            },
            None => Err(LedgerError::InvalidInstruction),
        }
    }
}

} // verus!
