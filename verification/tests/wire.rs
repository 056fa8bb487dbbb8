use professional_networking::address::Address;
use professional_networking::post::{
    put_comment, put_comments, put_post, put_posts, read_comment, read_comments, read_post,
    read_posts, Comment, Post,
};
use professional_networking::wire::{
    put_address, put_bool, put_bytes, put_text, put_u32, put_u64, read_address, read_bool,
    read_text, read_u32, read_u64,
};

fn name(tag: u8) -> Address {
    Address::new([tag; 32])
}

#[test]
fn numbers_are_little_endian() {
    let mut out = vec![9u8];
    put_u32(&mut out, 0x0403_0201);
    put_u64(&mut out, 0x0807_0605_0403_0201);
    assert_eq!(out, vec![9, 1, 2, 3, 4, 1, 2, 3, 4, 5, 6, 7, 8]);
    assert_eq!(read_u32(&out, 1), Some((0x0403_0201, 5)));
    assert_eq!(read_u64(&out, 5), Some((0x0807_0605_0403_0201, 13)));
    assert_eq!(read_u32(&out, 10), None);
    assert_eq!(read_u64(&out, 6), None);
    assert_eq!(read_u32(&out, 13), None);
}

#[test]
fn flags_are_one_byte_that_is_zero_or_one() {
    let mut out = Vec::new();
    put_bool(&mut out, true);
    put_bool(&mut out, false);
    out.push(2);
    assert_eq!(out, vec![1, 0, 2]);
    assert_eq!(read_bool(&out, 0), Some((true, 1)));
    assert_eq!(read_bool(&out, 1), Some((false, 2)));
    assert_eq!(read_bool(&out, 2), None);
    assert_eq!(read_bool(&out, 3), None);
}

#[test]
fn bytes_and_identities_are_written_as_they_are() {
    let mut out = vec![7u8];
    put_bytes(&mut out, &[1, 2, 3]);
    put_bytes(&mut out, &[]);
    put_address(&mut out, &name(5));
    assert_eq!(out.len(), 36);
    assert_eq!(&out[..4], &[7, 1, 2, 3]);
    assert_eq!(&out[4..], &[5u8; 32]);
    let (address, next) = read_address(&out, 4).unwrap();
    assert_eq!(address.to_bytes(), [5u8; 32]);
    assert_eq!(next, 36);
    assert!(read_address(&out, 5).is_none());
}

#[test]
fn text_is_length_then_utf8() {
    let mut out = Vec::new();
    assert!(put_text(&mut out, "hé"));
    assert!(put_text(&mut out, ""));
    assert_eq!(out, vec![3, 0, 0, 0, b'h', 0xC3, 0xA9, 0, 0, 0, 0]);
    assert_eq!(read_text(&out, 0), Some(("hé".to_string(), 7)));
    assert_eq!(read_text(&out, 7), Some((String::new(), 11)));
    assert_eq!(read_text(&out, 8), None);
    assert_eq!(read_text(&[2, 0, 0, 0, 0xC3], 0), None);
    assert_eq!(read_text(&[1, 0, 0, 0, 0xC3], 0), None);
    assert_eq!(read_text(&[2, 0, 0, 0, 0xED, 0xA0], 0), None);
}

#[test]
fn readers_give_nothing_beyond_the_data() {
    let data = [0u8; 40];
    assert_eq!(read_u32(&data, 41), None);
    assert_eq!(read_u64(&data, 41), None);
    assert_eq!(read_bool(&data, 41), None);
    assert_eq!(read_text(&data, 41), None);
    assert!(read_address(&data, 41).is_none());
    assert!(read_comment(&data, usize::MAX).is_none());
    assert!(read_comments(&data, 41).is_none());
    assert!(read_post(&data, 41).is_none());
    assert!(read_posts(&data, 41).is_none());
    assert_eq!(read_u32(&data, 40), None);
    assert_eq!(read_u32(&data, 36), Some((0, 40)));
}

#[test]
fn comments_and_posts_are_written_field_by_field() {
    let comment = Comment::new(name(1), "c".to_string());
    let mut post = Post::new(name(2), "p".to_string());
    post.add_comment(name(1), "c".to_string());

    let mut comment_bytes = vec![1u8; 32];
    comment_bytes.extend_from_slice(&[1, 0, 0, 0, b'c']);
    let mut out = Vec::new();
    assert!(put_comment(&mut out, &comment));
    assert_eq!(out, comment_bytes);

    let mut post_bytes = vec![2u8; 32];
    post_bytes.extend_from_slice(&[1, 0, 0, 0, b'p']);
    post_bytes.extend_from_slice(&[1, 0, 0, 0]);
    post_bytes.extend_from_slice(&comment_bytes);
    let mut out = Vec::new();
    assert!(put_post(&mut out, &post));
    assert_eq!(out, post_bytes);

    let mut out = vec![0xEEu8];
    assert!(put_comments(&mut out, &vec![comment.clone(), comment.clone()]));
    let mut expected = vec![0xEEu8, 2, 0, 0, 0];
    expected.extend_from_slice(&comment_bytes);
    expected.extend_from_slice(&comment_bytes);
    assert_eq!(out, expected);
    let (comments, next) = read_comments(&out, 1).unwrap();
    assert_eq!(next, out.len());
    assert_eq!(comments.len(), 2);
    assert_eq!(comments[1].content, "c");
    let (first, after_first) = read_comment(&out, 5).unwrap();
    assert_eq!(first.author.to_bytes(), [1u8; 32]);
    assert_eq!(after_first, 5 + comment_bytes.len());

    let mut out = Vec::new();
    assert!(put_posts(&mut out, &vec![post.clone()]));
    let mut expected = vec![1u8, 0, 0, 0];
    expected.extend_from_slice(&post_bytes);
    assert_eq!(out, expected);
    let (posts, next) = read_posts(&out, 0).unwrap();
    assert_eq!(next, out.len());
    assert_eq!(posts.len(), 1);
    assert_eq!(posts[0].content, "p");
    assert_eq!(posts[0].comments.len(), 1);
    let (one, after_one) = read_post(&out, 4).unwrap();
    assert_eq!(one.author.to_bytes(), [2u8; 32]);
    assert_eq!(after_one, out.len());
    assert!(read_posts(&out[..out.len() - 1], 0).is_none());
}
