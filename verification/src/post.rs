//! Posts and the comments under them, and how a record holds them.

use crate::address::Address;
use crate::wire::{
    behind, lemma_append_assoc, lemma_take_address, lemma_take_text, lemma_take_u32, put_address,
    put_text, put_u32,
    read_address, read_text, read_u32, take_address, take_text, take_u32, text_bytes, text_fits,
    u32_bytes,
};
use vstd::prelude::*;

verus! {

/// A remark under a post.
#[derive(Clone, Debug)]
pub struct Comment {
    pub author: Address,
    pub content: String,
}

/// What a comment says, and who said it.
pub struct CommentView {
    pub author: Seq<u8>,
    pub content: Seq<char>,
}

impl View for Comment {
    type V = CommentView;

    open spec fn view(&self) -> CommentView {
        CommentView { author: self.author@, content: self.content@ }
    }
}

/// A post with the comments under it, in the order in which they came.
#[derive(Clone, Debug)]
pub struct Post {
    pub author: Address,
    pub content: String,
    pub comments: Vec<Comment>,
}

/// What a post says, who wrote it, and the comments under it.
pub struct PostView {
    pub author: Seq<u8>,
    pub content: Seq<char>,
    pub comments: Seq<CommentView>,
}

/// The comments of a sequence, each by its view.
pub open spec fn comment_views(comments: Seq<Comment>) -> Seq<CommentView> {
    comments.map_values(|c: Comment| c@)
}

/// The posts of a sequence, each by its view.
pub open spec fn post_views(posts: Seq<Post>) -> Seq<PostView> {
    posts.map_values(|p: Post| p@)
}

impl View for Post {
    type V = PostView;

    open spec fn view(&self) -> PostView {
        PostView {
            author: self.author@,
            content: self.content@,
            comments: comment_views(self.comments@),
        }
    }
}

/// The post as it is with one more comment under it.
pub open spec fn with_comment(post: PostView, author: Seq<u8>, content: Seq<char>) -> PostView {
    PostView {
        author: post.author,
        content: post.content,
        comments: post.comments.push(CommentView { author, content }),
    }
}

impl Comment {
    /// A comment of `author` that says `content`.
    pub fn new(author: Address, content: String) -> (comment: Comment)
        ensures
            comment@ == (CommentView { author: author@, content: content@ }),
    {
        Comment { author, content }
    }
}

impl Post {
    /// A post of `author` that says `content`, with no comment yet.
    pub fn new(author: Address, content: String) -> (post: Post)
        ensures
            post@ == (PostView {
                author: author@,
                content: content@,
                comments: Seq::<CommentView>::empty(),
            }),
    {
        let post = Post { author, content, comments: Vec::new() };
        assert(post@.comments =~= Seq::<CommentView>::empty());
        post
    }

    /// Puts a comment of `author` under the post, behind those that are there.
    pub fn add_comment(&mut self, author: Address, content: String)
        ensures
            final(self)@ == with_comment(old(self)@, author@, content@),
    {
        self.comments.push(Comment::new(author, content));
        assert(self@.comments =~= old(self)@.comments.push(
            CommentView { author: author@, content: content@ },
        ));
    }
}

/// The comment can be written: its author has 32 bytes and its text fits.
pub open spec fn comment_fits(c: CommentView) -> bool {
    c.author.len() == 32 && text_fits(c.content)
}

/// The bytes of a comment: its author, then its text.
pub open spec fn comment_bytes(c: CommentView) -> Seq<u8> {
    c.author + text_bytes(c.content)
}

/// Reads a comment.
pub open spec fn take_comment(s: Seq<u8>) -> Option<(CommentView, Seq<u8>)> {
    match take_address(s) {
        Some((author, after_author)) => match take_text(after_author) {
            Some((content, rest)) => Some((CommentView { author, content }, rest)),
            None => None,
        },
        None => None,
    }
}

/// Every comment of the sequence can be written, and so can their number.
pub open spec fn comments_fit(cs: Seq<CommentView>) -> bool {
    &&& cs.len() <= u32::MAX
    &&& forall|i: int| 0 <= i < cs.len() ==> comment_fits(#[trigger] cs[i])
}

/// The bytes of the comments, one after another.
pub open spec fn comment_run_bytes(cs: Seq<CommentView>) -> Seq<u8>
    decreases cs.len(),
{
    if cs.len() == 0 {
        Seq::<u8>::empty()
    } else {
        comment_bytes(cs[0]) + comment_run_bytes(cs.drop_first())
    }
}

/// The bytes of a sequence of comments: their number, then each of them.
pub open spec fn comments_bytes(cs: Seq<CommentView>) -> Seq<u8> {
    u32_bytes(cs.len() as u32) + comment_run_bytes(cs)
}

/// Reads `n` comments.
pub open spec fn take_comment_run(s: Seq<u8>, n: nat) -> Option<(Seq<CommentView>, Seq<u8>)>
    decreases n,
{
    if n == 0 {
        Some((Seq::<CommentView>::empty(), s))
    } else {
        match take_comment(s) {
            Some((c, rest)) => behind(seq![c], take_comment_run(rest, (n - 1) as nat)),
            None => None,
        }
    }
}

/// Reads a sequence of comments.
pub open spec fn take_comments(s: Seq<u8>) -> Option<(Seq<CommentView>, Seq<u8>)> {
    match take_u32(s) {
        Some((n, rest)) => take_comment_run(rest, n as nat),
        None => None,
    }
}

/// The post can be written.
pub open spec fn post_fits(p: PostView) -> bool {
    p.author.len() == 32 && text_fits(p.content) && comments_fit(p.comments)
}

/// The bytes of a post: its author, its text, its comments.
pub open spec fn post_bytes(p: PostView) -> Seq<u8> {
    p.author + text_bytes(p.content) + comments_bytes(p.comments)
}

/// Reads a post.
pub open spec fn take_post(s: Seq<u8>) -> Option<(PostView, Seq<u8>)> {
    match take_address(s) {
        Some((author, after_author)) => match take_text(after_author) {
            Some((content, after_content)) => match take_comments(after_content) {
                Some((comments, rest)) => Some((PostView { author, content, comments }, rest)),
                None => None,
            },
            None => None,
        },
        None => None,
    }
}

/// Every post of the sequence can be written, and so can their number.
pub open spec fn posts_fit(ps: Seq<PostView>) -> bool {
    &&& ps.len() <= u32::MAX
    &&& forall|i: int| 0 <= i < ps.len() ==> post_fits(#[trigger] ps[i])
}

/// The bytes of the posts, one after another.
pub open spec fn post_run_bytes(ps: Seq<PostView>) -> Seq<u8>
    decreases ps.len(),
{
    if ps.len() == 0 {
        Seq::<u8>::empty()
    } else {
        post_bytes(ps[0]) + post_run_bytes(ps.drop_first())
    }
}

/// The bytes of a sequence of posts: their number, then each of them.
pub open spec fn posts_bytes(ps: Seq<PostView>) -> Seq<u8> {
    u32_bytes(ps.len() as u32) + post_run_bytes(ps)
}

/// Reads `n` posts.
pub open spec fn take_post_run(s: Seq<u8>, n: nat) -> Option<(Seq<PostView>, Seq<u8>)>
    decreases n,
{
    if n == 0 {
        Some((Seq::<PostView>::empty(), s))
    } else {
        match take_post(s) {
            Some((p, rest)) => behind(seq![p], take_post_run(rest, (n - 1) as nat)),
            None => None,
        }
    }
}

/// Reads a sequence of posts.
pub open spec fn take_posts(s: Seq<u8>) -> Option<(Seq<PostView>, Seq<u8>)> {
    match take_u32(s) {
        Some((n, rest)) => take_post_run(rest, n as nat),
        None => None,
    }
}

/// A comment that was written is read back, with what follows it.
pub proof fn lemma_take_comment(c: CommentView, rest: Seq<u8>)
    requires
        comment_fits(c),
    ensures
        take_comment(comment_bytes(c) + rest) == Some((c, rest)),
{
    lemma_take_address(c.author, text_bytes(c.content) + rest);
    lemma_take_text(c.content, rest);
    assert(comment_bytes(c) + rest =~= c.author + (text_bytes(c.content) + rest));
}

/// Comments that were written one after another are read back.
pub proof fn lemma_take_comment_run(cs: Seq<CommentView>, rest: Seq<u8>)
    requires
        forall|i: int| 0 <= i < cs.len() ==> comment_fits(#[trigger] cs[i]),
    ensures
        take_comment_run(comment_run_bytes(cs) + rest, cs.len()) == Some((cs, rest)),
    decreases cs.len(),
{
    if cs.len() == 0 {
        assert(comment_run_bytes(cs) + rest =~= rest);
        assert(cs =~= Seq::<CommentView>::empty());
    } else {
        let tail = cs.drop_first();
        assert forall|i: int| 0 <= i < tail.len() implies comment_fits(#[trigger] tail[i]) by {
            assert(tail[i] == cs[i + 1]);
        }
        lemma_append_assoc(comment_bytes(cs[0]), comment_run_bytes(tail), rest);
        lemma_take_comment(cs[0], comment_run_bytes(tail) + rest);
        lemma_take_comment_run(tail, rest);
        assert(seq![cs[0]] + tail =~= cs);
    }
}

/// A sequence of comments that was written is read back.
pub proof fn lemma_take_comments(cs: Seq<CommentView>, rest: Seq<u8>)
    requires
        comments_fit(cs),
    ensures
        take_comments(comments_bytes(cs) + rest) == Some((cs, rest)),
{
    lemma_take_u32(cs.len() as u32, comment_run_bytes(cs) + rest);
    lemma_take_comment_run(cs, rest);
    assert(comments_bytes(cs) + rest =~= u32_bytes(cs.len() as u32) + (comment_run_bytes(cs)
        + rest));
}

/// A post that was written is read back, with what follows it.
pub proof fn lemma_take_post(p: PostView, rest: Seq<u8>)
    requires
        post_fits(p),
    ensures
        take_post(post_bytes(p) + rest) == Some((p, rest)),
{
    let after_author = text_bytes(p.content) + (comments_bytes(p.comments) + rest);
    lemma_take_address(p.author, after_author);
    lemma_take_text(p.content, comments_bytes(p.comments) + rest);
    lemma_take_comments(p.comments, rest);
    assert(post_bytes(p) + rest =~= p.author + after_author);
}

/// Posts that were written one after another are read back.
pub proof fn lemma_take_post_run(ps: Seq<PostView>, rest: Seq<u8>)
    requires
        forall|i: int| 0 <= i < ps.len() ==> post_fits(#[trigger] ps[i]),
    ensures
        take_post_run(post_run_bytes(ps) + rest, ps.len()) == Some((ps, rest)),
    decreases ps.len(),
{
    if ps.len() == 0 {
        assert(post_run_bytes(ps) + rest =~= rest);
        assert(ps =~= Seq::<PostView>::empty());
    } else {
        let tail = ps.drop_first();
        assert forall|i: int| 0 <= i < tail.len() implies post_fits(#[trigger] tail[i]) by {
            assert(tail[i] == ps[i + 1]);
        }
        lemma_append_assoc(post_bytes(ps[0]), post_run_bytes(tail), rest);
        lemma_take_post(ps[0], post_run_bytes(tail) + rest);
        lemma_take_post_run(tail, rest);
        assert(seq![ps[0]] + tail =~= ps);
    }
}

/// A sequence of posts that was written is read back.
pub proof fn lemma_take_posts(ps: Seq<PostView>, rest: Seq<u8>)
    requires
        posts_fit(ps),
    ensures
        take_posts(posts_bytes(ps) + rest) == Some((ps, rest)),
{
    lemma_take_u32(ps.len() as u32, post_run_bytes(ps) + rest);
    lemma_take_post_run(ps, rest);
    assert(posts_bytes(ps) + rest =~= u32_bytes(ps.len() as u32) + (post_run_bytes(ps) + rest));
}

/// Appends a comment, if it can be written; else `out` stays as it is.
pub fn put_comment(out: &mut Vec<u8>, comment: &Comment) -> (done: bool)
    ensures
        done == comment_fits(comment@),
        done ==> final(out)@ == old(out)@ + comment_bytes(comment@),
        !done ==> final(out)@ == old(out)@,
{
    let start = out.len();
    put_address(out, &comment.author);
    let done = put_text(out, comment.content.as_str());
    if !done {
        out.truncate(start);
        assert(out@ =~= old(out)@);
    }
    assert(done ==> out@ =~= old(out)@ + comment_bytes(comment@));
    done
}

/// Appends a sequence of comments, if it can be written; else `out` stays as it
/// is.
pub fn put_comments(out: &mut Vec<u8>, comments: &Vec<Comment>) -> (done: bool)
    ensures
        done == comments_fit(comment_views(comments@)),
        done ==> final(out)@ == old(out)@ + comments_bytes(comment_views(comments@)),
        !done ==> final(out)@ == old(out)@,
{
    let ghost views = comment_views(comments@);
    let start = out.len();
    if comments.len() > u32::MAX as usize {
        return false;
    }
    put_u32(out, comments.len() as u32);
    let mut i: usize = 0;
    proof {
        assert(views.skip(0) =~= views);
        assert(out@ + comment_run_bytes(views) =~= old(out)@ + comments_bytes(views));
        assert(out@.subrange(0, start as int) =~= old(out)@);
    }
    while i < comments.len()
        invariant
            0 <= i <= comments@.len(),
            views == comment_views(comments@),
            views.len() <= u32::MAX,
            forall|j: int| 0 <= j < i ==> comment_fits(#[trigger] views[j]),
            out@ + comment_run_bytes(views.skip(i as int)) == old(out)@ + comments_bytes(views),
            start == old(out)@.len(),
            start <= out@.len(),
            out@.subrange(0, start as int) == old(out)@,
        decreases comments@.len() - i,
    {
        let ghost before = out@;
        let ghost left = views.skip(i as int);
        let done = put_comment(out, &comments[i]);
        if !done {
            assert(!comment_fits(views[i as int]));
            out.truncate(start);
            return false;
        }
        assert(out@.subrange(0, start as int) =~= before.subrange(0, start as int));
        proof {
            assert(left[0] == views[i as int]);
            assert(left.drop_first() =~= views.skip(i + 1));
            assert(out@ + comment_run_bytes(views.skip(i + 1)) =~= before + comment_run_bytes(
                left,
            ));
        }
        i += 1;
    }
    proof {
        assert(views.skip(i as int) =~= Seq::<CommentView>::empty());
        assert(out@ =~= out@ + comment_run_bytes(views.skip(i as int)));
    }
    true
}

/// Appends a post, if it can be written; else `out` stays as it is.
pub fn put_post(out: &mut Vec<u8>, post: &Post) -> (done: bool)
    ensures
        done == post_fits(post@),
        done ==> final(out)@ == old(out)@ + post_bytes(post@),
        !done ==> final(out)@ == old(out)@,
{
    let start = out.len();
    put_address(out, &post.author);
    let done = put_text(out, post.content.as_str()) && put_comments(out, &post.comments);
    if !done {
        out.truncate(start);
        assert(out@ =~= old(out)@);
    }
    assert(done ==> out@ =~= old(out)@ + post_bytes(post@));
    done
}

/// Appends a sequence of posts, if it can be written; else `out` stays as it
/// is.
pub fn put_posts(out: &mut Vec<u8>, posts: &Vec<Post>) -> (done: bool)
    ensures
        done == posts_fit(post_views(posts@)),
        done ==> final(out)@ == old(out)@ + posts_bytes(post_views(posts@)),
        !done ==> final(out)@ == old(out)@,
{
    let ghost views = post_views(posts@);
    let start = out.len();
    if posts.len() > u32::MAX as usize {
        return false;
    }
    put_u32(out, posts.len() as u32);
    let mut i: usize = 0;
    proof {
        assert(views.skip(0) =~= views);
        assert(out@ + post_run_bytes(views) =~= old(out)@ + posts_bytes(views));
        assert(out@.subrange(0, start as int) =~= old(out)@);
    }
    while i < posts.len()
        invariant
            0 <= i <= posts@.len(),
            views == post_views(posts@),
            views.len() <= u32::MAX,
            forall|j: int| 0 <= j < i ==> post_fits(#[trigger] views[j]),
            out@ + post_run_bytes(views.skip(i as int)) == old(out)@ + posts_bytes(views),
            start == old(out)@.len(),
            start <= out@.len(),
            out@.subrange(0, start as int) == old(out)@,
        decreases posts@.len() - i,
    {
        let ghost before = out@;
        let ghost left = views.skip(i as int);
        let done = put_post(out, &posts[i]);
        if !done {
            assert(!post_fits(views[i as int]));
            out.truncate(start);
            return false;
        }
        assert(out@.subrange(0, start as int) =~= before.subrange(0, start as int));
        proof {
            assert(left[0] == views[i as int]);
            assert(left.drop_first() =~= views.skip(i + 1));
            assert(out@ + post_run_bytes(views.skip(i + 1)) =~= before + post_run_bytes(left));
        }
        i += 1;
    }
    proof {
        assert(views.skip(i as int) =~= Seq::<PostView>::empty());
        assert(out@ =~= out@ + post_run_bytes(views.skip(i as int)));
    }
    true
}

/// Reads a comment at `pos`.
pub fn read_comment(data: &[u8], pos: usize) -> (r: Option<(Comment, usize)>)
    ensures
        pos > data@.len() ==> r is None,
        pos <= data@.len() ==> (match r {
            Some((c, next)) => pos <= next <= data@.len() && take_comment(data@.skip(pos as int))
                == Some((c@, data@.skip(next as int))),
            None => take_comment(data@.skip(pos as int)) is None,
        }),
{
    if pos > data.len() {
        return None;
    }
    let (author, after_author) = match read_address(data, pos) {
        Some(found) => found,
        None => {
            return None;
        },
    };
    let (content, next) = match read_text(data, after_author) {
        Some(found) => found,
        None => {
            return None;
        },
    };
    Some((Comment::new(author, content), next))
}

/// Reads a sequence of comments at `pos`.
pub fn read_comments(data: &[u8], pos: usize) -> (r: Option<(Vec<Comment>, usize)>)
    ensures
        pos > data@.len() ==> r is None,
        pos <= data@.len() ==> (match r {
            Some((cs, next)) => pos <= next <= data@.len() && take_comments(
                data@.skip(pos as int),
            ) == Some((comment_views(cs@), data@.skip(next as int))),
            None => take_comments(data@.skip(pos as int)) is None,
        }),
{
    if pos > data.len() {
        return None;
    }
    let (n, start) = match read_u32(data, pos) {
        Some(found) => found,
        None => {
            return None;
        },
    };
    let mut comments: Vec<Comment> = Vec::new();
    let mut at: usize = start;
    let mut i: u32 = 0;
    proof {
        assert(comment_views(comments@) =~= Seq::<CommentView>::empty());
        let whole = take_comment_run(data@.skip(start as int), n as nat);
        assert(behind(Seq::<CommentView>::empty(), whole) == whole) by {
            if whole is Some {
                assert(Seq::<CommentView>::empty() + whole.unwrap().0 =~= whole.unwrap().0);
            }
        }
    }
    while i < n
        invariant
            0 <= i <= n,
            pos <= start <= at <= data@.len(),
            take_u32(data@.skip(pos as int)) == Some((n, data@.skip(start as int))),
            take_comment_run(data@.skip(start as int), n as nat) == behind(
                comment_views(comments@),
                take_comment_run(data@.skip(at as int), (n - i) as nat),
            ),
        decreases n - i,
    {
        let ghost front = comment_views(comments@);
        let (comment, next) = match read_comment(data, at) {
            Some(found) => found,
            None => {
                assert(take_comment_run(data@.skip(at as int), (n - i) as nat) is None);
                return None;
            },
        };
        proof {
            let later = take_comment_run(data@.skip(next as int), (n - i - 1) as nat);
            assert(comment_views(comments@.push(comment)) =~= front.push(comment@));
            if later is Some {
                assert(front + (seq![comment@] + later.unwrap().0) =~= front.push(comment@)
                    + later.unwrap().0);
            }
        }
        comments.push(comment);
        at = next;
        i += 1;
    }
    proof {
        assert(comment_views(comments@) + Seq::<CommentView>::empty() =~= comment_views(
            comments@,
        ));
    }
    Some((comments, at))
}

/// Reads a post at `pos`.
pub fn read_post(data: &[u8], pos: usize) -> (r: Option<(Post, usize)>)
    ensures
        pos > data@.len() ==> r is None,
        pos <= data@.len() ==> (match r {
            Some((p, next)) => pos <= next <= data@.len() && take_post(data@.skip(pos as int))
                == Some((p@, data@.skip(next as int))),
            None => take_post(data@.skip(pos as int)) is None,
        }),
{
    if pos > data.len() {
        return None;
    }
    let (author, after_author) = match read_address(data, pos) {
        Some(found) => found,
        None => {
            return None;
        },
    };
    let (content, after_content) = match read_text(data, after_author) {
        Some(found) => found,
        None => {
            return None;
        },
    };
    let (comments, next) = match read_comments(data, after_content) {
        Some(found) => found,
        None => {
            return None;
        },
    };
    Some((Post { author, content, comments }, next))
}

/// Reads a sequence of posts at `pos`.
pub fn read_posts(data: &[u8], pos: usize) -> (r: Option<(Vec<Post>, usize)>)
    ensures
        pos > data@.len() ==> r is None,
        pos <= data@.len() ==> (match r {
            Some((ps, next)) => pos <= next <= data@.len() && take_posts(data@.skip(pos as int))
                == Some((post_views(ps@), data@.skip(next as int))),
            None => take_posts(data@.skip(pos as int)) is None,
        }),
{
    if pos > data.len() {
        return None;
    }
    let (n, start) = match read_u32(data, pos) {
        Some(found) => found,
        None => {
            return None;
        },
    };
    let mut posts: Vec<Post> = Vec::new();
    let mut at: usize = start;
    let mut i: u32 = 0;
    proof {
        assert(post_views(posts@) =~= Seq::<PostView>::empty());
        let whole = take_post_run(data@.skip(start as int), n as nat);
        assert(behind(Seq::<PostView>::empty(), whole) == whole) by {
            if whole is Some {
                assert(Seq::<PostView>::empty() + whole.unwrap().0 =~= whole.unwrap().0);
            }
        }
    }
    while i < n
        invariant
            0 <= i <= n,
            pos <= start <= at <= data@.len(),
            take_u32(data@.skip(pos as int)) == Some((n, data@.skip(start as int))),
            take_post_run(data@.skip(start as int), n as nat) == behind(
                post_views(posts@),
                take_post_run(data@.skip(at as int), (n - i) as nat),
            ),
        decreases n - i,
    {
        let ghost front = post_views(posts@);
        let (post, next) = match read_post(data, at) {
            Some(found) => found,
            None => {
                assert(take_post_run(data@.skip(at as int), (n - i) as nat) is None);
                return None;
            },
        };
        proof {
            let later = take_post_run(data@.skip(next as int), (n - i - 1) as nat);
            assert(post_views(posts@.push(post)) =~= front.push(post@));
            if later is Some {
                assert(front + (seq![post@] + later.unwrap().0) =~= front.push(post@)
                    + later.unwrap().0);
            }
        }
        posts.push(post);
        at = next;
        i += 1;
    }
    proof {
        assert(post_views(posts@) + Seq::<PostView>::empty() =~= post_views(posts@));
    }
    Some((posts, at))
}

} // verus!
