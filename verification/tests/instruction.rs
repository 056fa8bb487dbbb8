use borsh::BorshSerialize;
use professional_networking::address::Address;
use professional_networking::instruction::ProfessionalNetworkingInstruction;
use professional_networking::LedgerError;

fn who(tag: u8) -> Address {
    let mut bytes = [tag; 32];
    bytes[0] = 1;
    Address::new(bytes)
}

fn payload_of(tag: u8, fields: Vec<u8>) -> Vec<u8> {
    let mut payload = vec![tag];
    payload.extend_from_slice(&fields);
    payload
}

#[test]
fn create_payload_is_tag_and_three_texts() {
    let instruction = ProfessionalNetworkingInstruction::CreateUserProfile {
        name: "Alice".to_string(),
        bio: "Bio of Alice".to_string(),
        profile_picture: "url-to-picture".to_string(),
    };
    let fields = (
        "Alice".to_string(),
        "Bio of Alice".to_string(),
        "url-to-picture".to_string(),
    )
        .try_to_vec()
        .unwrap();
    let bytes = instruction.encode().unwrap();
    assert_eq!(bytes, payload_of(0, fields));
    assert_eq!(&bytes[..10], &[0, 5, 0, 0, 0, b'A', b'l', b'i', b'c', b'e']);
    match ProfessionalNetworkingInstruction::decode(&bytes).unwrap() {
        ProfessionalNetworkingInstruction::CreateUserProfile { name, bio, profile_picture } => {
            assert_eq!(name, "Alice");
            assert_eq!(bio, "Bio of Alice");
            assert_eq!(profile_picture, "url-to-picture");
        }
        other => panic!("decoded to {:?}", other),
    }
}

#[test]
fn send_and_accept_payloads_are_tag_and_address() {
    let send = ProfessionalNetworkingInstruction::SendFriendRequest { friend_address: who(8) };
    let accept = ProfessionalNetworkingInstruction::AcceptFriendRequest { friend_address: who(9) };
    let send_bytes = send.encode().unwrap();
    let accept_bytes = accept.encode().unwrap();
    assert_eq!(send_bytes, payload_of(1, who(8).to_bytes().to_vec()));
    assert_eq!(accept_bytes, payload_of(2, who(9).to_bytes().to_vec()));
    match ProfessionalNetworkingInstruction::decode(&send_bytes).unwrap() {
        ProfessionalNetworkingInstruction::SendFriendRequest { friend_address } => {
            assert_eq!(friend_address.to_bytes(), who(8).to_bytes());
        }
        other => panic!("decoded to {:?}", other),
    }
    match ProfessionalNetworkingInstruction::decode(&accept_bytes).unwrap() {
        ProfessionalNetworkingInstruction::AcceptFriendRequest { friend_address } => {
            assert_eq!(friend_address.to_bytes(), who(9).to_bytes());
        }
        other => panic!("decoded to {:?}", other),
    }
}

#[test]
fn write_post_payload_is_tag_and_text() {
    let instruction =
        ProfessionalNetworkingInstruction::WritePost { content: "Hello World!".to_string() };
    let bytes = instruction.encode().unwrap();
    assert_eq!(bytes, payload_of(3, "Hello World!".to_string().try_to_vec().unwrap()));
    match ProfessionalNetworkingInstruction::decode(&bytes).unwrap() {
        ProfessionalNetworkingInstruction::WritePost { content } => {
            assert_eq!(content, "Hello World!");
        }
        other => panic!("decoded to {:?}", other),
    }
}

#[test]
fn add_comment_payload_is_tag_address_place_and_text() {
    let instruction = ProfessionalNetworkingInstruction::AddComment {
        post_author: who(3),
        post_index: 0x0102,
        content: "Nice post!".to_string(),
    };
    let fields = (who(3).to_bytes(), 0x0102usize, "Nice post!".to_string())
        .try_to_vec()
        .unwrap();
    let bytes = instruction.encode().unwrap();
    assert_eq!(bytes, payload_of(4, fields));
    assert_eq!(&bytes[33..41], &[2, 1, 0, 0, 0, 0, 0, 0]);
    match ProfessionalNetworkingInstruction::decode(&bytes).unwrap() {
        ProfessionalNetworkingInstruction::AddComment { post_author, post_index, content } => {
            assert_eq!(post_author.to_bytes(), who(3).to_bytes());
            assert_eq!(post_index, 0x0102);
            assert_eq!(content, "Nice post!");
        }
        other => panic!("decoded to {:?}", other),
    }
}

#[test]
fn unknown_tag_is_refused() {
    for tag in [5u8, 6, 100, 255] {
        let payload = payload_of(tag, who(1).to_bytes().to_vec());
        assert_eq!(
            ProfessionalNetworkingInstruction::decode(&payload).err(),
            Some(LedgerError::InvalidInstruction)
        );
    }
}

#[test]
fn empty_and_truncated_payloads_are_refused() {
    assert_eq!(
        ProfessionalNetworkingInstruction::decode(&[]).err(),
        Some(LedgerError::InvalidInstruction)
    );
    let whole = ProfessionalNetworkingInstruction::AddComment {
        post_author: who(3),
        post_index: 1,
        content: "text".to_string(),
    }
    .encode()
    .unwrap();
    for cut in 0..whole.len() {
        assert_eq!(
            ProfessionalNetworkingInstruction::decode(&whole[..cut]).err(),
            Some(LedgerError::InvalidInstruction)
        );
    }
    assert!(ProfessionalNetworkingInstruction::decode(&whole).is_ok());
}

#[test]
fn payload_with_bytes_left_over_is_refused() {
    let mut payload = ProfessionalNetworkingInstruction::SendFriendRequest { friend_address: who(8) }
        .encode()
        .unwrap();
    payload.push(0);
    assert_eq!(
        ProfessionalNetworkingInstruction::decode(&payload).err(),
        Some(LedgerError::InvalidInstruction)
    );
}

#[test]
fn payload_with_text_that_is_not_utf8_is_refused() {
    let payload = vec![3u8, 2, 0, 0, 0, 0xC3, 0x28];
    assert_eq!(
        ProfessionalNetworkingInstruction::decode(&payload).err(),
        Some(LedgerError::InvalidInstruction)
    );
    let fine = vec![3u8, 2, 0, 0, 0, 0xC3, 0xA9];
    match ProfessionalNetworkingInstruction::decode(&fine).unwrap() {
        ProfessionalNetworkingInstruction::WritePost { content } => assert_eq!(content, "é"),
        other => panic!("decoded to {:?}", other),
    }
}
