use borsh::{BorshDeserialize, BorshSerialize};
use professional_networking::address::{Address, Rank};
use professional_networking::book::PostBook;
use professional_networking::friends::FriendSet;
use professional_networking::post::{Comment, Post};
use professional_networking::profile::UserProfile;
use professional_networking::LedgerError;
use std::collections::{HashMap, HashSet};

type WireComment = ([u8; 32], String);
type WirePost = ([u8; 32], String, Vec<WireComment>);
type WireProfile = (
    bool,
    String,
    String,
    String,
    [u8; 32],
    HashSet<[u8; 32]>,
    bool,
    HashMap<[u8; 32], Vec<WirePost>>,
);

fn key(tag: u8) -> Address {
    let mut bytes = [0u8; 32];
    bytes[0] = tag;
    bytes[31] = tag.wrapping_mul(7);
    Address::new(bytes)
}

fn busy_profile() -> UserProfile {
    let mut profile = UserProfile::new(
        "Zoë".to_string(),
        "writes ✍ a lot".to_string(),
        "pic".to_string(),
        key(9),
    );
    for tag in [200u8, 3, 77, 18, 150, 3] {
        profile.friends.insert(key(tag));
    }
    profile.nft_owned = true;
    profile.add_post(key(9), "first".to_string());
    profile.add_post(key(4), "from four".to_string());
    profile.add_post(key(9), "second".to_string());
    profile
        .add_comment(key(9), 1, key(77), "a comment".to_string())
        .unwrap();
    profile
        .add_comment(key(9), 1, key(18), "another".to_string())
        .unwrap();
    profile
}

fn as_wire(profile: &UserProfile) -> WireProfile {
    let mut friends = HashSet::new();
    for i in 0..profile.friends.len() {
        friends.insert(profile.friends.member(i).unwrap().to_bytes());
    }
    let mut posts = HashMap::new();
    for author in [key(4), key(9)] {
        if let Some(shelf) = profile.posts.get(&author) {
            let shelf: Vec<WirePost> = shelf
                .iter()
                .map(|p| {
                    (
                        p.author.to_bytes(),
                        p.content.clone(),
                        p.comments
                            .iter()
                            .map(|c| (c.author.to_bytes(), c.content.clone()))
                            .collect(),
                    )
                })
                .collect();
            posts.insert(author.to_bytes(), shelf);
        }
    }
    (
        profile.is_initialized,
        profile.name.clone(),
        profile.bio.clone(),
        profile.profile_picture.clone(),
        profile.address.to_bytes(),
        friends,
        profile.nft_owned,
        posts,
    )
}

#[test]
fn address_keeps_its_bytes() {
    let mut bytes = [0u8; 32];
    for (i, b) in bytes.iter_mut().enumerate() {
        *b = i as u8;
    }
    let address = Address::new(bytes);
    assert_eq!(address.to_bytes(), bytes);
    assert_eq!(address.bytes, bytes);
}

#[test]
fn rank_goes_by_the_first_difference() {
    let mut low = [5u8; 32];
    let mut high = [5u8; 32];
    low[10] = 1;
    high[10] = 2;
    low[20] = 9;
    high[20] = 0;
    let low = Address::new(low);
    let high = Address::new(high);
    assert_eq!(low.rank(&high), Rank::Before);
    assert_eq!(high.rank(&low), Rank::After);
    assert_eq!(low.rank(&low), Rank::Same);
    assert!(low.same_as(&low));
    assert!(!low.same_as(&high));
}

#[test]
fn rank_agrees_with_the_order_of_byte_arrays() {
    let samples = [key(0), key(1), key(2), key(128), key(255), Address::new([255u8; 32])];
    for a in samples.iter() {
        for b in samples.iter() {
            let expected = match a.to_bytes().cmp(&b.to_bytes()) {
                std::cmp::Ordering::Less => Rank::Before,
                std::cmp::Ordering::Equal => Rank::Same,
                std::cmp::Ordering::Greater => Rank::After,
            };
            assert_eq!(a.rank(b), expected);
        }
    }
}

#[test]
fn friend_set_counts_each_member_once() {
    let mut set = FriendSet::new();
    assert!(set.is_empty());
    assert_eq!(set.len(), 0);
    assert!(set.insert(key(5)));
    assert!(set.insert(key(2)));
    assert!(!set.insert(key(5)));
    assert!(set.insert(key(9)));
    assert_eq!(set.len(), 3);
    assert!(!set.is_empty());
    assert!(set.contains(&key(2)));
    assert!(set.contains(&key(5)));
    assert!(set.contains(&key(9)));
    assert!(!set.contains(&key(3)));
}

#[test]
fn friend_set_lists_members_ascending() {
    let mut set = FriendSet::new();
    for tag in [9u8, 1, 200, 64, 1, 33] {
        set.insert(key(tag));
    }
    let listed: Vec<[u8; 32]> = (0..set.len()).map(|i| set.member(i).unwrap().to_bytes()).collect();
    let mut sorted = listed.clone();
    sorted.sort();
    assert_eq!(listed, sorted);
    assert_eq!(listed.len(), 5);
    assert_eq!(listed[0], key(1).to_bytes());
    assert_eq!(listed[4], key(200).to_bytes());
}

#[test]
fn friend_set_bytes_are_count_then_members() {
    let mut set = FriendSet::new();
    set.insert(key(7));
    set.insert(key(3));
    let mut out = vec![0xAAu8];
    assert!(set.put_into(&mut out));
    let mut expected = vec![0xAAu8, 2, 0, 0, 0];
    expected.extend_from_slice(&key(3).to_bytes());
    expected.extend_from_slice(&key(7).to_bytes());
    assert_eq!(out, expected);
}

#[test]
fn friend_set_is_read_in_any_order_and_without_repeats() {
    let mut data = vec![9u8, 9, 3, 0, 0, 0];
    data.extend_from_slice(&key(7).to_bytes());
    data.extend_from_slice(&key(3).to_bytes());
    data.extend_from_slice(&key(7).to_bytes());
    data.push(0x55);
    let (set, next) = FriendSet::read(&data, 2).unwrap();
    assert_eq!(next, data.len() - 1);
    assert_eq!(set.len(), 2);
    assert!(set.contains(&key(3)));
    assert!(set.contains(&key(7)));
    assert_eq!(set.member(0).unwrap().to_bytes(), key(3).to_bytes());
    assert!(set.member(2).is_none());
}

#[test]
fn friend_set_read_refuses_a_short_list() {
    let mut data = vec![2u8, 0, 0, 0];
    data.extend_from_slice(&key(7).to_bytes());
    assert!(FriendSet::read(&data, 0).is_none());
    assert!(FriendSet::read(&[1u8, 0, 0], 0).is_none());
}

#[test]
fn comment_and_post_hold_what_they_are_given() {
    let comment = Comment::new(key(1), "hi".to_string());
    assert_eq!(comment.author.to_bytes(), key(1).to_bytes());
    assert_eq!(comment.content, "hi");
    let mut post = Post::new(key(2), "post".to_string());
    assert_eq!(post.author.to_bytes(), key(2).to_bytes());
    assert_eq!(post.content, "post");
    assert!(post.comments.is_empty());
    post.add_comment(key(1), "one".to_string());
    post.add_comment(key(3), "two".to_string());
    assert_eq!(post.comments.len(), 2);
    assert_eq!(post.comments[0].content, "one");
    assert_eq!(post.comments[0].author.to_bytes(), key(1).to_bytes());
    assert_eq!(post.comments[1].content, "two");
    assert_eq!(post.comments[1].author.to_bytes(), key(3).to_bytes());
}

#[test]
fn post_book_keeps_posts_by_author_in_order() {
    let mut book = PostBook::new();
    assert_eq!(book.len(), 0);
    assert!(book.get(&key(1)).is_none());
    book.add_post(key(5), Post::new(key(5), "a".to_string()));
    book.add_post(key(1), Post::new(key(1), "b".to_string()));
    book.add_post(key(5), Post::new(key(5), "c".to_string()));
    assert_eq!(book.len(), 2);
    let of_five = book.get(&key(5)).unwrap();
    assert_eq!(of_five.len(), 2);
    assert_eq!(of_five[0].content, "a");
    assert_eq!(of_five[1].content, "c");
    assert_eq!(book.get(&key(1)).unwrap().len(), 1);
    assert!(book.get(&key(2)).is_none());
}

#[test]
fn post_book_put_replaces_a_shelf() {
    let mut book = PostBook::new();
    book.add_post(key(5), Post::new(key(5), "old".to_string()));
    book.put(key(5), vec![Post::new(key(5), "new".to_string())]);
    book.put(key(6), Vec::new());
    assert_eq!(book.len(), 2);
    assert_eq!(book.get(&key(5)).unwrap().len(), 1);
    assert_eq!(book.get(&key(5)).unwrap()[0].content, "new");
    assert_eq!(book.get(&key(6)).unwrap().len(), 0);
}

#[test]
fn post_book_comment_needs_the_post() {
    let mut book = PostBook::new();
    book.add_post(key(5), Post::new(key(5), "a".to_string()));
    assert!(!book.add_comment(&key(4), 0, key(1), "x".to_string()));
    assert!(!book.add_comment(&key(5), 1, key(1), "x".to_string()));
    assert!(book.add_comment(&key(5), 0, key(1), "x".to_string()));
    let post = &book.get(&key(5)).unwrap()[0];
    assert_eq!(post.comments.len(), 1);
    assert_eq!(post.comments[0].content, "x");
    assert_eq!(post.comments[0].author.to_bytes(), key(1).to_bytes());
}

#[test]
fn new_profile_is_initialized_and_empty() {
    let profile = UserProfile::new(
        "Alice".to_string(),
        "Bio of Alice".to_string(),
        "url-to-picture".to_string(),
        key(1),
    );
    assert!(profile.is_initialized);
    assert_eq!(profile.name, "Alice");
    assert_eq!(profile.bio, "Bio of Alice");
    assert_eq!(profile.profile_picture, "url-to-picture");
    assert_eq!(profile.address.to_bytes(), key(1).to_bytes());
    assert_eq!(profile.friends.len(), 0);
    assert!(!profile.nft_owned);
    assert_eq!(profile.posts.len(), 0);
}

#[test]
fn publishing_needs_credential_and_five_friends() {
    let mut profile = UserProfile::new("n".to_string(), "b".to_string(), "p".to_string(), key(1));
    for tag in 10u8..14 {
        profile.friends.insert(key(tag));
    }
    profile.nft_owned = true;
    assert!(!profile.can_write_post());
    assert!(!profile.can_comment());
    profile.friends.insert(key(14));
    assert!(profile.can_write_post());
    assert!(profile.can_comment());
    profile.nft_owned = false;
    assert!(!profile.can_write_post());
    assert!(!profile.can_comment());
}

#[test]
fn profile_comment_beyond_the_posts_is_not_found() {
    let mut profile = UserProfile::new("n".to_string(), "b".to_string(), "p".to_string(), key(1));
    profile.add_post(key(1), "only".to_string());
    assert_eq!(
        profile.add_comment(key(1), 1, key(2), "late".to_string()),
        Err(LedgerError::NotFound)
    );
    assert_eq!(
        profile.add_comment(key(1), usize::MAX, key(2), "late".to_string()),
        Err(LedgerError::NotFound)
    );
    assert_eq!(
        profile.add_comment(key(3), 0, key(2), "nobody".to_string()),
        Err(LedgerError::NotFound)
    );
    assert!(profile.get_post_with_comments(&key(1), 1).is_none());
    assert!(profile.get_post_with_comments(&key(3), 0).is_none());
    let post = profile.get_post_with_comments(&key(1), 0).unwrap();
    assert_eq!(post.content, "only");
    assert!(post.comments.is_empty());
    assert_eq!(profile.add_comment(key(1), 0, key(2), "in time".to_string()), Ok(()));
    let post = profile.get_post_with_comments(&key(1), 0).unwrap();
    assert_eq!(post.comments.len(), 1);
    assert_eq!(post.comments[0].content, "in time");
}

#[test]
fn fresh_profile_has_the_expected_bytes() {
    let profile = UserProfile::new(
        "Alice".to_string(),
        "Bio of Alice".to_string(),
        "url-to-picture".to_string(),
        key(1),
    );
    let mut expected = vec![1u8];
    expected.extend_from_slice(&[5, 0, 0, 0]);
    expected.extend_from_slice(b"Alice");
    expected.extend_from_slice(&[12, 0, 0, 0]);
    expected.extend_from_slice(b"Bio of Alice");
    expected.extend_from_slice(&[14, 0, 0, 0]);
    expected.extend_from_slice(b"url-to-picture");
    expected.extend_from_slice(&key(1).to_bytes());
    expected.extend_from_slice(&[0, 0, 0, 0]);
    expected.push(0);
    expected.extend_from_slice(&[0, 0, 0, 0]);
    assert_eq!(profile.encode().unwrap(), expected);
}

#[test]
fn profile_bytes_are_those_of_borsh() {
    let profile = busy_profile();
    let ours = profile.encode().unwrap();
    let theirs = as_wire(&profile).try_to_vec().unwrap();
    assert_eq!(ours, theirs);
}

#[test]
fn profile_round_trip() {
    let profile = busy_profile();
    let bytes = profile.encode().unwrap();
    let back = UserProfile::decode(&bytes).unwrap();
    assert_eq!(as_wire(&back), as_wire(&profile));
    assert_eq!(back.friends.len(), 5);
    assert_eq!(back.posts.len(), 2);
    let post = back.get_post_with_comments(&key(9), 1).unwrap();
    assert_eq!(post.content, "second");
    assert_eq!(post.comments.len(), 2);
    assert_eq!(post.comments[1].content, "another");
    assert_eq!(back.encode().unwrap(), bytes);
}

#[test]
fn profile_decodes_what_borsh_wrote() {
    let wire = as_wire(&busy_profile());
    let bytes = wire.try_to_vec().unwrap();
    let ours = UserProfile::decode(&bytes).unwrap();
    assert_eq!(as_wire(&ours), wire);
    let theirs = WireProfile::try_from_slice(&ours.encode().unwrap()).unwrap();
    assert_eq!(theirs, wire);
}

#[test]
fn decode_refuses_truncated_and_overlong_bytes() {
    let bytes = busy_profile().encode().unwrap();
    for cut in 0..bytes.len() {
        assert_eq!(
            UserProfile::decode(&bytes[..cut]).err(),
            Some(LedgerError::MalformedAccountData)
        );
    }
    let mut longer = bytes.clone();
    longer.push(0);
    assert_eq!(
        UserProfile::decode(&longer).err(),
        Some(LedgerError::MalformedAccountData)
    );
}

#[test]
fn decode_refuses_a_bad_flag_and_bad_text() {
    let profile = UserProfile::new("ab".to_string(), "".to_string(), "".to_string(), key(1));
    let bytes = profile.encode().unwrap();
    let mut bad_flag = bytes.clone();
    bad_flag[0] = 2;
    assert!(UserProfile::decode(&bad_flag).is_err());
    let mut bad_text = bytes.clone();
    bad_text[5] = 0xFF;
    assert!(UserProfile::decode(&bad_text).is_err());
    let mut long_text = bytes.clone();
    long_text[1] = 0xFF;
    long_text[2] = 0xFF;
    assert!(UserProfile::decode(&long_text).is_err());
    assert!(UserProfile::decode(&bytes).is_ok());
}

#[test]
fn read_takes_the_record_and_leaves_the_rest() {
    let profile = busy_profile();
    let record = profile.encode().unwrap();
    let mut data = vec![7u8, 7, 7];
    data.extend_from_slice(&record);
    data.extend_from_slice(&[1, 2, 3, 4]);
    let (back, next) = UserProfile::read(&data, 3).unwrap();
    assert_eq!(next, 3 + record.len());
    assert_eq!(as_wire(&back), as_wire(&profile));
}

#[test]
fn zeroed_bytes_decode_to_an_uninitialized_profile_only_at_full_length() {
    let zeros = vec![0u8; 54];
    let profile = UserProfile::decode(&zeros).unwrap();
    assert!(!profile.is_initialized);
    assert_eq!(profile.name, "");
    assert_eq!(profile.friends.len(), 0);
    assert!(UserProfile::decode(&vec![0u8; 53]).is_err());
    assert!(UserProfile::decode(&vec![0u8; 55]).is_err());
}

#[test]
fn put_into_appends_the_record() {
    let profile = busy_profile();
    let mut out = vec![1u8, 2, 3];
    assert!(profile.put_into(&mut out));
    assert_eq!(&out[..3], &[1, 2, 3]);
    assert_eq!(&out[3..], &profile.encode().unwrap()[..]);
}

fn next_random(state: &mut u64) -> u64 {
    *state = state
        .wrapping_mul(6364136223846793005)
        .wrapping_add(1442695040888963407);
    *state >> 33
}

fn random_text(state: &mut u64) -> String {
    let alphabet = ['a', 'Z', '0', ' ', 'é', 'ß', '中', '🙂', '\u{0}', '\u{7ff}', '\u{ffff}'];
    let len = next_random(state) % 6;
    (0..len)
        .map(|_| alphabet[(next_random(state) % alphabet.len() as u64) as usize])
        .collect()
}

fn random_profile(state: &mut u64) -> UserProfile {
    let mut profile = UserProfile::new(
        random_text(state),
        random_text(state),
        random_text(state),
        key((next_random(state) % 7) as u8),
    );
    profile.is_initialized = next_random(state) % 4 != 0;
    profile.nft_owned = next_random(state) % 2 == 0;
    for _ in 0..next_random(state) % 7 {
        profile.friends.insert(key((next_random(state) % 256) as u8));
    }
    for _ in 0..next_random(state) % 5 {
        let author = if next_random(state) % 2 == 0 { key(4) } else { key(9) };
        profile.add_post(author, random_text(state));
        let index = (next_random(state) % 3) as usize;
        let commenter = key((next_random(state) % 256) as u8);
        let _ = profile.add_comment(author, index, commenter, random_text(state));
    }
    profile
}

#[test]
fn many_profiles_agree_with_borsh_both_ways() {
    let mut state = 2024u64;
    for _ in 0..200 {
        let profile = random_profile(&mut state);
        let wire = as_wire(&profile);
        let ours = profile.encode().unwrap();
        assert_eq!(ours, wire.try_to_vec().unwrap());
        let back = UserProfile::decode(&ours).unwrap();
        assert_eq!(as_wire(&back), wire);
        assert_eq!(WireProfile::try_from_slice(&ours).unwrap(), wire);
    }
}

#[test]
fn damaged_records_are_accepted_exactly_when_borsh_accepts_them() {
    let mut state = 77u64;
    let mut accepted = 0;
    let mut refused = 0;
    for _ in 0..300 {
        let mut bytes = random_profile(&mut state).encode().unwrap();
        let at = (next_random(&mut state) % bytes.len() as u64) as usize;
        match next_random(&mut state) % 3 {
            0 => bytes[at] = (next_random(&mut state) % 256) as u8,
            1 => bytes.truncate(at),
            _ => bytes.insert(at, (next_random(&mut state) % 4) as u8),
        }
        let theirs = WireProfile::try_from_slice(&bytes);
        let ours = UserProfile::decode(&bytes);
        assert_eq!(ours.is_ok(), theirs.is_ok());
        match (ours, theirs) {
            (Ok(ours), Ok(theirs)) => {
                accepted += 1;
                assert_eq!(ours.is_initialized, theirs.0);
                assert_eq!(ours.name, theirs.1);
                assert_eq!(ours.bio, theirs.2);
                assert_eq!(ours.profile_picture, theirs.3);
                assert_eq!(ours.address.to_bytes(), theirs.4);
                assert_eq!(ours.friends.len(), theirs.5.len());
                for friend in theirs.5.iter() {
                    assert!(ours.friends.contains(&Address::new(*friend)));
                }
                assert_eq!(ours.nft_owned, theirs.6);
                assert_eq!(ours.posts.len(), theirs.7.len());
                for (author, posts) in theirs.7.iter() {
                    let shelf = ours.posts.get(&Address::new(*author)).unwrap();
                    assert_eq!(shelf.len(), posts.len());
                    for (mine, other) in shelf.iter().zip(posts.iter()) {
                        assert_eq!(mine.author.to_bytes(), other.0);
                        assert_eq!(mine.content, other.1);
                        assert_eq!(mine.comments.len(), other.2.len());
                    }
                }
            }
            _ => refused += 1,
        }
    }
    assert!(accepted > 10);
    assert!(refused > 10);
}
